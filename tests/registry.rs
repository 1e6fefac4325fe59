use gitlab_search::{
    config_action, position_of, select_instance, upsert_instance, ConfigAction, Instance,
    InstanceError,
};

fn instance(name: &str, url: &str) -> Instance {
    Instance { name: name.to_string(), url: url.to_string(), token: "SECRET-REDACTED".to_string() }
}

#[test]
fn first_instance_is_the_default() {
    let instances = vec![instance("work", "https://a"), instance("home", "https://b")];
    assert_eq!(select_instance(&instances, &None), Ok(0));
    assert_eq!(select_instance(&instances, &Some("home".to_string())), Ok(1));
}

#[test]
fn unknown_or_missing_instance_is_an_error() {
    let instances = vec![instance("work", "https://a")];
    assert_eq!(
        select_instance(&instances, &Some("play".to_string())),
        Err(InstanceError::NotFound)
    );
    assert_eq!(select_instance(&Vec::new(), &None), Err(InstanceError::NoInstances));
    assert_eq!(
        select_instance(&Vec::new(), &Some("work".to_string())),
        Err(InstanceError::NotFound)
    );
}

#[test]
fn upsert_adds_then_replaces() {
    let mut instances = vec![instance("work", "https://a")];
    assert!(!upsert_instance(&mut instances, instance("home", "https://b")));
    assert_eq!(instances.len(), 2);
    assert_eq!(instances[1].url, "https://b");
    assert!(upsert_instance(&mut instances, instance("work", "https://c")));
    assert_eq!(instances.len(), 2);
    assert_eq!(instances[0].url, "https://c");
    assert_eq!(position_of(&instances, &"home".to_string()), Some(1));
    assert_eq!(position_of(&instances, &"none".to_string()), None);
}

#[test]
fn config_request_decisions() {
    let s = |v: &str| Some(v.to_string());
    assert!(matches!(config_action(s("n"), None, None, true), ConfigAction::List));
    match config_action(s("n"), s("https://u"), s("t"), false) {
        ConfigAction::Save(i) => {
            assert_eq!(i.name, "n");
            assert_eq!(i.url, "https://u");
            assert_eq!(i.token, "t");
        }
        _ => panic!("a complete request saves the instance"),
    }
    assert!(matches!(config_action(s("n"), None, s("t"), false), ConfigAction::Incomplete));
    assert!(matches!(config_action(None, None, None, false), ConfigAction::Usage));
}
