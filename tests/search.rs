use gitlab_search::{
    AggregateResult, Outcome, Project, RecordError, SearchError, SearchMatch, SearchRun,
    SEARCH_PAGE_SIZE,
};

fn project(id: u64) -> Project {
    Project {
        id,
        display_name: format!("group / p{}", id),
        path_with_namespace: format!("group/p{}", id),
        web_url: String::new(),
        archived: false,
    }
}

fn hit(project_id: u64, path: &str, line: u64) -> SearchMatch {
    SearchMatch {
        project_id,
        file_path: path.to_string(),
        start_line: line,
        matched_text: "// TODO: tidy\nlet x = 1;".to_string(),
        git_ref: "main".to_string(),
    }
}

/// The outcome that a deterministic backend gives for project `id`:
/// `fail` fails, every other project has `id` matches.
fn backend(id: u64, fail: Option<u64>) -> Outcome {
    if Some(id) == fail {
        Err(format!("project {} timed out", id))
    } else {
        Ok((0..id).map(|k| hit(id, &format!("src/f{}.rs", k), k + 1)).collect())
    }
}

/// Runs a search over projects `1..=n`, taking the outcomes in `order`.
fn run(n: u64, order: &[usize], fail: Option<u64>) -> AggregateResult {
    let projects: Vec<Project> = (1..=n).map(project).collect();
    let mut run = SearchRun::new("TODO".to_string(), projects).unwrap();
    for &i in order {
        let id = run.project(i).id;
        run.record(i, backend(id, fail)).unwrap();
    }
    match run.finish() {
        Ok(aggregate) => aggregate,
        Err(_) => panic!("every task has finished"),
    }
}

/// A comparable digest of an aggregate: per project, its id and either the
/// matched paths or the error.
fn digest(aggregate: &AggregateResult) -> Vec<(u64, Result<Vec<(String, u64)>, String>)> {
    aggregate
        .entries
        .iter()
        .map(|e| {
            let outcome = match &e.outcome {
                Ok(ms) => Ok(ms.iter().map(|m| (m.file_path.clone(), m.start_line)).collect()),
                Err(err) => Err(err.clone()),
            };
            (e.project.id, outcome)
        })
        .collect()
}

#[test]
fn failed_task_is_isolated() {
    let aggregate = run(5, &[0, 1, 2, 3, 4], Some(3));
    assert_eq!(aggregate.entries.len(), 5);
    for (i, entry) in aggregate.entries.iter().enumerate() {
        assert_eq!(entry.project.id, i as u64 + 1);
        if entry.project.id == 3 {
            assert!(entry.outcome.is_err());
        } else {
            assert_eq!(entry.outcome.as_ref().unwrap().len(), i + 1);
        }
    }
    assert_eq!(aggregate.failed_count(), 1);
    assert_eq!(aggregate.total_matches(), Some(1 + 2 + 4 + 5));
}

#[test]
fn aggregate_follows_project_order() {
    let in_order = run(4, &[0, 1, 2, 3], None);
    let reversed = run(4, &[3, 2, 1, 0], None);
    let shuffled = run(4, &[2, 0, 3, 1], None);
    let ids: Vec<u64> = shuffled.entries.iter().map(|e| e.project.id).collect();
    assert_eq!(ids, vec![1, 2, 3, 4]);
    assert_eq!(digest(&in_order), digest(&reversed));
    assert_eq!(digest(&in_order), digest(&shuffled));
    let lines: Vec<u64> = shuffled.entries[2]
        .outcome
        .as_ref()
        .unwrap()
        .iter()
        .map(|m| m.start_line)
        .collect();
    assert_eq!(lines, vec![1, 2, 3]);
}

#[test]
fn repeated_runs_agree() {
    let first = run(6, &[5, 1, 3, 0, 2, 4], Some(2));
    let second = run(6, &[5, 1, 3, 0, 2, 4], Some(2));
    assert_eq!(digest(&first), digest(&second));
    let other_order = run(6, &[0, 1, 2, 3, 4, 5], Some(2));
    assert_eq!(digest(&first), digest(&other_order));
}

#[test]
fn end_to_end_todo_search() {
    let projects: Vec<Project> = (1..=3).map(project).collect();
    let mut run = SearchRun::new("TODO".to_string(), projects).unwrap();
    for i in 0..3 {
        let request = run.request(i);
        assert_eq!(request.query, "TODO");
        assert_eq!(request.project_id, i as u64 + 1);
        assert_eq!(request.per_page, SEARCH_PAGE_SIZE);
    }
    run.record(2, Ok(vec![hit(3, "a.rs", 1), hit(3, "b.rs", 9)])).unwrap();
    run.record(1, Err("operation timed out".to_string())).unwrap();
    assert!(!run.is_complete());
    run.record(0, Ok(vec![hit(1, "c.rs", 4), hit(1, "d.rs", 2)])).unwrap();
    assert!(run.is_complete());
    let aggregate = match run.finish() {
        Ok(a) => a,
        Err(_) => panic!("every task has finished"),
    };
    assert_eq!(aggregate.total_matches(), Some(4));
    assert_eq!(aggregate.failed_count(), 1);
    assert_eq!(aggregate.entries[1].outcome.as_ref().unwrap_err(), "operation timed out");
    assert_eq!(aggregate.entries[0].outcome.as_ref().unwrap()[0].file_path, "c.rs");
    assert_eq!(aggregate.entries[2].outcome.as_ref().unwrap()[1].file_path, "b.rs");
}

#[test]
fn empty_project_set_is_refused() {
    assert!(matches!(
        SearchRun::new("TODO".to_string(), Vec::new()),
        Err(SearchError::NoProjects)
    ));
}

#[test]
fn each_task_takes_one_outcome() {
    let mut run = SearchRun::new("q".to_string(), vec![project(1), project(2)]).unwrap();
    assert_eq!(run.len(), 2);
    assert_eq!(run.record(1, Ok(Vec::new())), Ok(()));
    assert_eq!(run.record(1, Err("late".to_string())), Err(RecordError::AlreadyFinished));
    assert_eq!(run.record(2, Ok(Vec::new())), Err(RecordError::UnknownTask));
    assert_eq!(run.completed(), 1);
}

#[test]
fn progress_tracks_last_finished_task() {
    let mut run = SearchRun::new("q".to_string(), vec![project(1), project(2), project(3)]).unwrap();
    assert!(run.last_completed().is_none());
    assert_eq!(run.completed(), 0);
    run.record(2, Ok(Vec::new())).unwrap();
    assert_eq!(run.last_completed().unwrap().id, 3);
    run.record(0, Err("boom".to_string())).unwrap();
    assert_eq!(run.last_completed().unwrap().id, 1);
    assert_eq!(run.completed(), 2);
    assert_eq!(run.projects().len(), 3);
}

#[test]
fn unfinished_run_is_handed_back() {
    let mut run = SearchRun::new("q".to_string(), vec![project(1), project(2)]).unwrap();
    run.record(0, Ok(vec![hit(1, "x.rs", 1)])).unwrap();
    let run = match run.finish() {
        Ok(_) => panic!("task 1 is still pending"),
        Err(run) => run,
    };
    assert_eq!(run.completed(), 1);
    assert!(!run.is_complete());
}
