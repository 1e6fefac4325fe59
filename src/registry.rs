use vstd::prelude::*;

verus! {

/// One configured code-forge deployment.
#[derive(Debug)]
pub struct Instance {
    /// The key by which the instance is chosen.
    pub name: String,
    pub url: String,
    /// The credential sent with every request.
    pub token: String,
}

impl Clone for Instance {
    fn clone(&self) -> (r: Self)
        ensures
            r == *self,
    {
        Instance { name: self.name.clone(), url: self.url.clone(), token: self.token.clone() }
    }
}

/// Why no instance could be chosen.
#[derive(PartialEq, Eq, Structural, Debug, Clone, Copy)]
pub enum InstanceError {
    /// No instance is configured at all.
    NoInstances,
    /// No configured instance has the name asked for.
    NotFound,
}

/// Position `i` is the first in `instances` whose name is `name`.
pub open spec fn is_first_named(instances: Seq<Instance>, name: Seq<char>, i: int) -> bool {
    &&& 0 <= i < instances.len()
    &&& instances[i].name@ == name
    &&& forall|j: int| 0 <= j < i ==> (#[trigger] instances[j]).name@ != name
}

/// No instance of `instances` has the name `name`.
pub open spec fn none_named(instances: Seq<Instance>, name: Seq<char>) -> bool {
    forall|j: int| 0 <= j < instances.len() ==> (#[trigger] instances[j]).name@ != name
}

/// Position of the first instance named `name`, if any is.
pub fn position_of(instances: &Vec<Instance>, name: &String) -> (r: Option<usize>)
    ensures
        r matches Some(i) ==> is_first_named(instances@, name@, i as int),
        r is None <==> none_named(instances@, name@),
{
    let mut i: usize = 0;
    while i < instances.len()
        invariant
            i <= instances@.len(),
            forall|j: int| 0 <= j < i ==> (#[trigger] instances@[j]).name@ != name@,
        decreases instances@.len() - i,
    {
        if instances[i].name == *name {
            return Some(i);
        }
        i = i + 1;
    }
    None
}

/// Chooses the instance to work with: the first one of the given name, or
/// the first configured one when no name is given.
pub fn select_instance(instances: &Vec<Instance>, name: &Option<String>) -> (r: Result<
    usize,
    InstanceError,
>)
    ensures
        name is None && instances@.len() == 0 ==> r == Err::<usize, InstanceError>(
            InstanceError::NoInstances,
        ),
        name is None && instances@.len() > 0 ==> r == Ok::<usize, InstanceError>(0),
        name is Some && none_named(instances@, name->Some_0@) ==> r == Err::<usize, InstanceError>(
            InstanceError::NotFound,
        ),
        name is Some && !none_named(instances@, name->Some_0@) ==> (r matches Ok(i)
            && is_first_named(instances@, name->Some_0@, i as int)),
{
    match name {
        Some(n) => match position_of(instances, n) {
            Some(i) => Ok(i),
            None => Err(InstanceError::NotFound),
        },
        None => {
            if instances.len() == 0 {
                Err(InstanceError::NoInstances)
            } else {
                Ok(0)
            }
        },
    }
}

/// Adds `instance` to the registry, or replaces the first instance of the
/// same name. Returns whether one was replaced.
pub fn upsert_instance(instances: &mut Vec<Instance>, instance: Instance) -> (replaced: bool)
    ensures
        replaced <==> !none_named(old(instances)@, instance.name@),
        !replaced ==> final(instances)@ == old(instances)@.push(instance),
        replaced ==> exists|i: int|
            is_first_named(old(instances)@, instance.name@, i) && final(instances)@ == old(
                instances,
            )@.update(i, instance),
{
    match position_of(instances, &instance.name) {
        Some(i) => {
            let ghost name = instance.name@;
            instances.set(i, instance);
            assert(is_first_named(old(instances)@, name, i as int));
            true
        },
        None => {
            instances.push(instance);
            false
        },
    }
}

/// What a configuration request asks for.
pub enum ConfigAction {
    /// Show the configured instances.
    List,
    /// Add or replace this instance, then check that it answers.
    Save(Instance),
    /// Some but not all of name, URL and token were given.
    Incomplete,
    /// Nothing was asked: show how the command is used.
    Usage,
}

/// Decides what a configuration request asks for. Listing wins over
/// anything else; an instance is saved only with its name, URL and token.
pub fn config_action(
    name: Option<String>,
    url: Option<String>,
    token: Option<String>,
    list: bool,
) -> (r: ConfigAction)
    ensures
        list ==> r is List,
        !list && name is Some && url is Some && token is Some ==> (r matches ConfigAction::Save(
            inst,
        ) && inst.name == name->Some_0 && inst.url == url->Some_0 && inst.token == token->Some_0),
        !list && (name is None || url is None || token is None) && (name is Some || url is Some
            || token is Some) ==> r is Incomplete,
        !list && name is None && url is None && token is None ==> r is Usage,
{
    if list {
        return ConfigAction::List;
    }
    match (name, url, token) {
        (Some(name), Some(url), Some(token)) => ConfigAction::Save(Instance { name, url, token }),
        (None, None, None) => ConfigAction::Usage,
        _ => ConfigAction::Incomplete,
    }
}

} // verus!
