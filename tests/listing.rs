use gitlab_search::{ListingError, ListingStep, PageRequest, Project, ProjectListing, PAGE_SIZE};

fn project(id: u64) -> Project {
    Project {
        id,
        display_name: format!("group / project{}", id),
        path_with_namespace: format!("group/project{}", id),
        web_url: format!("https://forge.example/group/project{}", id),
        archived: false,
    }
}

/// Runs a listing against a backend that answers page `n` with `pages[n - 1]`.
fn walk(pages: &[Vec<Project>]) -> (Result<Vec<Project>, ListingError>, usize) {
    let mut listing = ProjectListing::new(false);
    let mut calls = 0;
    loop {
        let request = listing.request();
        calls += 1;
        let page = pages.get((request.page - 1) as usize).cloned().unwrap_or_default();
        match listing.receive(page) {
            ListingStep::Continue(next) => listing = next,
            ListingStep::Done(all) => return (Ok(all), calls),
            ListingStep::Failed(e) => return (Err(e), calls),
        }
    }
}

#[test]
fn pagination_stops_at_first_empty_page() {
    let pages = vec![
        (1..=50).map(project).collect::<Vec<_>>(),
        (51..=100).map(project).collect(),
        (101..=123).map(project).collect(),
        Vec::new(),
    ];
    let (result, calls) = walk(&pages);
    let all = result.unwrap();
    assert_eq!(all.len(), 123);
    assert_eq!(calls, 4);
    let ids: Vec<u64> = all.iter().map(|p| p.id).collect();
    assert_eq!(ids, (1..=123).collect::<Vec<u64>>());
}

#[test]
fn empty_first_page_gives_empty_listing() {
    let (result, calls) = walk(&[]);
    assert!(result.unwrap().is_empty());
    assert_eq!(calls, 1);
}

#[test]
fn repeated_page_fails_listing() {
    let page: Vec<Project> = (1..=50).map(project).collect();
    let pages = vec![page.clone(), page.clone(), page];
    let (result, calls) = walk(&pages);
    assert_eq!(result.unwrap_err(), ListingError::RepeatedPage);
    assert_eq!(calls, 2);
}

#[test]
fn page_ending_in_previous_last_id_fails_listing() {
    let pages = vec![vec![project(1), project(2)], vec![project(3), project(2)]];
    let (result, calls) = walk(&pages);
    assert_eq!(result.unwrap_err(), ListingError::RepeatedPage);
    assert_eq!(calls, 2);
}

#[test]
fn listing_asks_for_pages_in_turn() {
    let listing = ProjectListing::new(true);
    assert_eq!(
        listing.request(),
        PageRequest { page: 1, per_page: PAGE_SIZE, include_archived: true }
    );
    assert_eq!(PAGE_SIZE, 50);
    let next = match listing.receive(vec![project(7), project(9)]) {
        ListingStep::Continue(next) => next,
        _ => panic!("a non-empty page continues the listing"),
    };
    assert_eq!(
        next.request(),
        PageRequest { page: 2, per_page: 50, include_archived: true }
    );
    let ids: Vec<u64> = next.collected().iter().map(|p| p.id).collect();
    assert_eq!(ids, vec![7, 9]);
}
