use crate::project::{Project, SearchMatch};
use vstd::prelude::*;

verus! {

/// What came of one project's search: its matches, or a description of the
/// error that ended it.
pub type Outcome = Result<Vec<SearchMatch>, String>;

/// The state of the one search task that a run holds for each project.
pub enum TaskState {
    /// Launched, with no outcome yet.
    Pending,
    /// Terminal: the task has succeeded or failed, and never runs again.
    Finished(Outcome),
}

/// A run cannot be started on an empty set of projects.
#[derive(PartialEq, Eq, Structural, Debug, Clone, Copy)]
pub enum SearchError {
    NoProjects,
}

/// Why an outcome was not taken into a run.
#[derive(PartialEq, Eq, Structural, Debug, Clone, Copy)]
pub enum RecordError {
    /// No task of the run has that position.
    UnknownTask,
    /// The task at that position already has its outcome.
    AlreadyFinished,
}

/// One project with the outcome of its search.
pub struct ProjectOutcome {
    pub project: Project,
    pub outcome: Outcome,
}

/// The outcomes of a finished run, one entry per project, in the order in
/// which the projects were given to the run.
pub struct AggregateResult {
    pub entries: Vec<ProjectOutcome>,
}

/// Largest number of matches asked for from one project's search.
pub const SEARCH_PAGE_SIZE: u64 = 100;

/// One project-scoped search over file contents.
pub struct BlobSearch {
    pub project_id: u64,
    pub query: String,
    pub per_page: u64,
}

/// Number of finished tasks in `tasks`.
pub open spec fn count_finished(tasks: Seq<TaskState>) -> nat
    decreases tasks.len(),
{
    if tasks.len() == 0 {
        0
    } else {
        count_finished(tasks.drop_last()) + if tasks.last() is Finished {
            1nat
        } else {
            0nat
        }
    }
}

/// Every task of `tasks` has reached its terminal state.
pub open spec fn all_finished(tasks: Seq<TaskState>) -> bool {
    forall|i: int| 0 <= i < tasks.len() ==> (#[trigger] tasks[i]) is Finished
}

/// `n` freshly launched tasks.
pub open spec fn all_pending(n: nat) -> Seq<TaskState> {
    Seq::new(n, |i: int| TaskState::Pending)
}

/// The tasks after the outcome of task `index` has come in: a pending task
/// takes it, anything else leaves the tasks as they were.
pub open spec fn record_step(tasks: Seq<TaskState>, index: int, outcome: Outcome) -> Seq<
    TaskState,
> {
    if 0 <= index < tasks.len() && tasks[index] is Pending {
        tasks.update(index, TaskState::Finished(outcome))
    } else {
        tasks
    }
}

/// The tasks after each outcome of `events` has come in, first to last.
pub open spec fn replay(tasks: Seq<TaskState>, events: Seq<(int, Outcome)>) -> Seq<TaskState>
    decreases events.len(),
{
    if events.len() == 0 {
        tasks
    } else {
        let e = events.last();
        record_step(replay(tasks, events.drop_last()), e.0, e.1)
    }
}

/// The aggregate of finished tasks: project `i` beside the outcome of task `i`.
pub open spec fn aggregate_entries(projects: Seq<Project>, tasks: Seq<TaskState>) -> Seq<
    ProjectOutcome,
> {
    Seq::new(
        projects.len(),
        |i: int| ProjectOutcome { project: projects[i], outcome: tasks[i]->Finished_0 },
    )
}

proof fn lemma_count_bounds(tasks: Seq<TaskState>)
    ensures
        count_finished(tasks) <= tasks.len(),
        count_finished(tasks) == tasks.len() <==> all_finished(tasks),
    decreases tasks.len(),
{
    if tasks.len() > 0 {
        lemma_count_bounds(tasks.drop_last());
        if all_finished(tasks) {
            assert(all_finished(tasks.drop_last())) by {
                assert forall|i: int| 0 <= i < tasks.drop_last().len() implies (
                #[trigger] tasks.drop_last()[i]) is Finished by {
                    assert(tasks[i] is Finished);
                }
            }
        }
        if count_finished(tasks) == tasks.len() {
            assert forall|i: int| 0 <= i < tasks.len() implies (#[trigger] tasks[i]) is Finished by {
                if i < tasks.len() - 1 {
                    assert(tasks.drop_last()[i] is Finished);
                }
            }
        }
    }
}

proof fn lemma_count_finish_one(tasks: Seq<TaskState>, index: int, outcome: Outcome)
    requires
        0 <= index < tasks.len(),
        tasks[index] is Pending,
    ensures
        count_finished(tasks.update(index, TaskState::Finished(outcome))) == count_finished(tasks)
            + 1,
    decreases tasks.len(),
{
    let u = tasks.update(index, TaskState::Finished(outcome));
    if index == tasks.len() - 1 {
        assert(u.drop_last() =~= tasks.drop_last());
    } else {
        lemma_count_finish_one(tasks.drop_last(), index, outcome);
        assert(u.drop_last() =~= tasks.drop_last().update(index, TaskState::Finished(outcome)));
    }
}

/// One search over a fixed, ordered set of projects: one task per project,
/// each finished exactly once, with a count of finished tasks and the task
/// that finished last for progress display.
pub struct SearchRun {
    query: String,
    projects: Vec<Project>,
    tasks: Vec<TaskState>,
    completed: usize,
    last_completed: Option<usize>,
}

impl SearchRun {
    /// The run's internal consistency, which every method keeps.
    pub closed spec fn wf(self) -> bool {
        &&& self.projects@.len() == self.tasks@.len()
        &&& self.completed == count_finished(self.tasks@)
        &&& self.last_completed matches Some(i) ==> i < self.tasks@.len()
            && self.tasks@[i as int] is Finished
    }

    /// The text searched for.
    pub closed spec fn query_view(self) -> Seq<char> {
        self.query@
    }

    /// The projects searched, in the order given to the run.
    pub closed spec fn projects_view(self) -> Seq<Project> {
        self.projects@
    }

    /// The state of each project's task, by project position.
    pub closed spec fn tasks_view(self) -> Seq<TaskState> {
        self.tasks@
    }

    /// The position of the task that finished last, if any has.
    pub closed spec fn last_view(self) -> Option<int> {
        match self.last_completed {
            Some(i) => Some(i as int),
            None => None,
        }
    }

    /// Launches one task per project; a run over no projects is refused.
    pub fn new(query: String, projects: Vec<Project>) -> (r: Result<SearchRun, SearchError>)
        ensures
            projects@.len() == 0 <==> r is Err,
            r is Err ==> r->Err_0 == SearchError::NoProjects,
            r matches Ok(run) ==> run.wf() && run.query_view() == query@ && run.projects_view()
                == projects@ && run.tasks_view()
                == all_pending(projects@.len()) && run.last_view() is None,
    {
        if projects.len() == 0 {
            return Err(SearchError::NoProjects);
        }
        let mut tasks: Vec<TaskState> = Vec::new();
        let n = projects.len();
        let mut i: usize = 0;
        while i < n
            invariant
                i <= n,
                tasks@ == all_pending(i as nat),
            decreases n - i,
        {
            tasks.push(TaskState::Pending);
            i = i + 1;
            assert(tasks@ =~= all_pending(i as nat));
        }
        proof {
            assert forall|k: nat| k <= n implies count_finished(#[trigger] all_pending(k)) == 0 by {
                lemma_pending_count(k);
            }
        }
        Ok(SearchRun { query, projects, tasks, completed: 0, last_completed: None })
    }

    /// Number of tasks, one per project.
    pub fn len(&self) -> (r: usize)
        requires
            self.wf(),
        ensures
            r == self.projects_view().len(),
            r == self.tasks_view().len(),
    {
        self.projects.len()
    }

    /// The projects searched, in the order given to the run.
    pub fn projects(&self) -> (r: &Vec<Project>)
        ensures
            r@ == self.projects_view(),
    {
        &self.projects
    }

    /// The project of the task at `index`.
    pub fn project(&self, index: usize) -> (r: &Project)
        requires
            self.wf(),
            index < self.projects_view().len(),
        ensures
            *r == self.projects_view()[index as int],
    {
        &self.projects[index]
    }

    /// The blob search that the task at `index` performs: the run's query,
    /// verbatim, within that task's project, first page only.
    pub fn request(&self, index: usize) -> (r: BlobSearch)
        requires
            self.wf(),
            index < self.projects_view().len(),
        ensures
            r.project_id == self.projects_view()[index as int].id,
            r.query@ == self.query_view(),
            r.per_page == SEARCH_PAGE_SIZE,
    {
        BlobSearch {
            project_id: self.projects[index].id,
            query: self.query.clone(),
            per_page: SEARCH_PAGE_SIZE,
        }
    }

    /// Takes the outcome of the task at `index`. Only a pending task takes an
    /// outcome; the run is otherwise left as it was.
    pub fn record(&mut self, index: usize, outcome: Outcome) -> (r: Result<(), RecordError>)
        requires
            old(self).wf(),
        ensures
            final(self).wf(),
            final(self).projects_view() == old(self).projects_view(),
            final(self).query_view() == old(self).query_view(),
            final(self).tasks_view() == record_step(old(self).tasks_view(), index as int, outcome),
            index >= old(self).tasks_view().len() ==> r == Err::<(), RecordError>(
                RecordError::UnknownTask,
            ),
            index < old(self).tasks_view().len() && old(self).tasks_view()[index as int] is Finished
                ==> r == Err::<(), RecordError>(RecordError::AlreadyFinished),
            r is Ok <==> index < old(self).tasks_view().len()
                && old(self).tasks_view()[index as int] is Pending,
            r is Ok ==> final(self).last_view() == Some(index as int),
            r is Err ==> *final(self) == *old(self),
    {
        if index >= self.tasks.len() {
            return Err(RecordError::UnknownTask);
        }
        if let TaskState::Finished(_) = &self.tasks[index] {
            return Err(RecordError::AlreadyFinished);
        }
        proof {
            lemma_count_finish_one(self.tasks@, index as int, outcome);
            lemma_count_bounds(self.tasks@.update(index as int, TaskState::Finished(outcome)));
        }
        self.tasks.set(index, TaskState::Finished(outcome));
        self.completed = self.completed + 1;
        self.last_completed = Some(index);
        Ok(())
    }

    /// Number of tasks that have reached their terminal state.
    pub fn completed(&self) -> (r: usize)
        requires
            self.wf(),
        ensures
            r == count_finished(self.tasks_view()),
    {
        self.completed
    }

    /// Whether every task has reached its terminal state.
    pub fn is_complete(&self) -> (r: bool)
        requires
            self.wf(),
        ensures
            r == all_finished(self.tasks_view()),
    {
        proof {
            lemma_count_bounds(self.tasks@);
        }
        self.completed == self.tasks.len()
    }

    /// The project whose task finished last, for progress display.
    pub fn last_completed(&self) -> (r: Option<&Project>)
        requires
            self.wf(),
        ensures
            r is None <==> self.last_view() is None,
            r matches Some(p) ==> *p == self.projects_view()[self.last_view()->Some_0],
    {
        match self.last_completed {
            Some(i) => Some(&self.projects[i]),
            None => None,
        }
    }
    /// Ends the run once every task has its outcome, giving the aggregate in
    /// project order; a run with a pending task is handed back unchanged.
    pub fn finish(self) -> (r: Result<AggregateResult, SearchRun>)
        requires
            self.wf(),
        ensures
            r is Ok <==> all_finished(self.tasks_view()),
            r matches Ok(agg) ==> agg.entries@ == aggregate_entries(
                self.projects_view(),
                self.tasks_view(),
            ),
            r matches Err(run) ==> run == self,
    {
        if !self.is_complete() {
            return Err(self);
        }
        let ghost expected = aggregate_entries(self.projects@, self.tasks@);
        let ghost t0 = self.tasks@;
        let n = self.projects.len();
        let SearchRun { mut projects, mut tasks, .. } = self;
        let mut reversed: Vec<ProjectOutcome> = Vec::new();
        while projects.len() > 0
            invariant
                projects@.len() == tasks@.len(),
                projects@.len() <= n,
                n == expected.len(),
                n == t0.len(),
                all_finished(t0),
                forall|k: int| 0 <= k < tasks@.len() ==> #[trigger] tasks@[k] == t0[k],
                forall|k: int|
                    0 <= k < projects@.len() ==> #[trigger] projects@[k] == expected[k].project,
                forall|k: int|
                    0 <= k < n ==> expected[k].outcome == (#[trigger] t0[k])->Finished_0,
                reversed@.len() + projects@.len() == n,
                forall|j: int|
                    0 <= j < reversed@.len() ==> #[trigger] reversed@[j] == expected[n - 1 - j],
            decreases projects@.len(),
        {
            let project = projects.pop().unwrap();
            let task = tasks.pop().unwrap();
            let ghost k = projects@.len() as int;
            assert(t0[k] is Finished);
            match task {
                TaskState::Finished(outcome) => {
                    reversed.push(ProjectOutcome { project, outcome });
                },
                TaskState::Pending => {},
            }
        }
        let mut entries: Vec<ProjectOutcome> = Vec::new();
        while reversed.len() > 0
            invariant
                n == expected.len(),
                reversed@.len() + entries@.len() == n,
                forall|j: int|
                    0 <= j < reversed@.len() ==> #[trigger] reversed@[j] == expected[n - 1 - j],
                forall|j: int| 0 <= j < entries@.len() ==> #[trigger] entries@[j] == expected[j],
            decreases reversed@.len(),
        {
            let entry = reversed.pop().unwrap();
            entries.push(entry);
        }
        assert(entries@ =~= expected);
        Ok(AggregateResult { entries })
    }
}

/// Number of matches over the successful entries of `entries`.
pub open spec fn match_total(entries: Seq<ProjectOutcome>) -> nat
    decreases entries.len(),
{
    if entries.len() == 0 {
        0
    } else {
        match_total(entries.drop_last()) + match entries.last().outcome {
            Ok(matches) => matches@.len(),
            Err(_) => 0,
        }
    }
}

/// Number of failed entries of `entries`.
pub open spec fn failure_total(entries: Seq<ProjectOutcome>) -> nat
    decreases entries.len(),
{
    if entries.len() == 0 {
        0
    } else {
        failure_total(entries.drop_last()) + if entries.last().outcome is Err {
            1nat
        } else {
            0nat
        }
    }
}

proof fn lemma_failure_total_bound(entries: Seq<ProjectOutcome>)
    ensures
        failure_total(entries) <= entries.len(),
    decreases entries.len(),
{
    if entries.len() > 0 {
        lemma_failure_total_bound(entries.drop_last());
    }
}

impl AggregateResult {
    /// Number of matches over all projects whose search succeeded, or `None`
    /// where that number does not fit in a `usize`.
    pub fn total_matches(&self) -> (r: Option<usize>)
        ensures
            match_total(self.entries@) <= usize::MAX ==> r == Some(
                match_total(self.entries@) as usize,
            ),
            match_total(self.entries@) > usize::MAX ==> r is None,
    {
        let mut total: usize = 0;
        let mut i: usize = 0;
        while i < self.entries.len()
            invariant
                i <= self.entries@.len(),
                total == match_total(self.entries@.take(i as int)),
            decreases self.entries@.len() - i,
        {
            assert(self.entries@.take(i + 1).drop_last() =~= self.entries@.take(i as int));
            let count = match &self.entries[i].outcome {
                Ok(matches) => matches.len(),
                Err(_) => 0,
            };
            if count > usize::MAX - total {
                proof {
                    lemma_match_total_monotone(self.entries@, (i + 1) as int);
                }
                return None;
            }
            total = total + count;
            i = i + 1;
        }
        assert(self.entries@.take(i as int) =~= self.entries@);
        Some(total)
    }

    /// Number of projects whose search failed.
    pub fn failed_count(&self) -> (r: usize)
        ensures
            r == failure_total(self.entries@),
    {
        let mut failed: usize = 0;
        let mut i: usize = 0;
        while i < self.entries.len()
            invariant
                i <= self.entries@.len(),
                failed == failure_total(self.entries@.take(i as int)),
            decreases self.entries@.len() - i,
        {
            assert(self.entries@.take(i + 1).drop_last() =~= self.entries@.take(i as int));
            proof {
                lemma_failure_total_bound(self.entries@.take(i + 1));
            }
            if self.entries[i].outcome.is_err() {
                failed = failed + 1;
            }
            i = i + 1;
        }
        assert(self.entries@.take(i as int) =~= self.entries@);
        failed
    }
}

/// The total over a prefix never exceeds the total over the whole sequence.
proof fn lemma_match_total_monotone(entries: Seq<ProjectOutcome>, m: int)
    requires
        0 <= m <= entries.len(),
    ensures
        match_total(entries.take(m)) <= match_total(entries),
    decreases entries.len() - m,
{
    if m < entries.len() {
        lemma_match_total_monotone(entries, m + 1);
        assert(entries.take(m + 1).drop_last() =~= entries.take(m));
    } else {
        assert(entries.take(m) =~= entries);
    }
}

proof fn lemma_pending_count(n: nat)
    ensures
        count_finished(all_pending(n)) == 0,
    decreases n,
{
    if n > 0 {
        assert(all_pending(n).drop_last() =~= all_pending((n - 1) as nat));
        lemma_pending_count((n - 1) as nat);
    }
}

/// The outcomes of the tasks named by `order`, arriving in that order, each
/// task with its own outcome from `outcomes`.
pub open spec fn completions(order: Seq<int>, outcomes: Seq<Outcome>) -> Seq<(int, Outcome)> {
    order.map_values(|i: int| (i, outcomes[i]))
}

/// Project `i` beside outcome `i`, for every project.
pub open spec fn in_project_order(projects: Seq<Project>, outcomes: Seq<Outcome>) -> Seq<
    ProjectOutcome,
> {
    Seq::new(
        projects.len(),
        |i: int| ProjectOutcome { project: projects[i], outcome: outcomes[i] },
    )
}

/// `order` names only tasks of a run of `n`, and names each of them.
pub open spec fn covers_all(order: Seq<int>, n: nat) -> bool {
    &&& forall|j: int| 0 <= j < order.len() ==> 0 <= #[trigger] order[j] < n
    &&& forall|i: int| 0 <= i < n ==> #[trigger] order.contains(i)
}

proof fn lemma_replay_prefix(n: nat, order: Seq<int>, outcomes: Seq<Outcome>, m: int)
    requires
        outcomes.len() == n,
        forall|j: int| 0 <= j < order.len() ==> 0 <= #[trigger] order[j] < n,
        0 <= m <= order.len(),
    ensures
        replay(all_pending(n), completions(order, outcomes).take(m)).len() == n,
        forall|i: int|
            0 <= i < n ==> #[trigger] replay(all_pending(n), completions(order, outcomes).take(m))[i]
                == if order.take(m).contains(i) {
                TaskState::Finished(outcomes[i])
            } else {
                TaskState::Pending
            },
    decreases m,
{
    let events = completions(order, outcomes);
    if m == 0 {
        assert(events.take(0) =~= Seq::<(int, Outcome)>::empty());
    } else {
        lemma_replay_prefix(n, order, outcomes, m - 1);
        assert(events.take(m).drop_last() =~= events.take(m - 1));
        let prev = replay(all_pending(n), events.take(m - 1));
        let e = order[m - 1];
        assert(events.take(m).last() == (e, outcomes[e]));
        assert forall|i: int| 0 <= i < n implies #[trigger] replay(all_pending(n), events.take(m))[i]
            == if order.take(m).contains(i) {
            TaskState::Finished(outcomes[i])
        } else {
            TaskState::Pending
        } by {
            if order.take(m - 1).contains(i) {
                let j = choose|j: int| 0 <= j < m - 1 && #[trigger] order.take(m - 1)[j] == i;
                assert(order.take(m)[j] == i);
            }
            if order.take(m).contains(i) && i != e {
                let j = choose|j: int| 0 <= j < m && #[trigger] order.take(m)[j] == i;
                assert(order.take(m - 1)[j] == i);
            }
            if i == e {
                assert(order.take(m)[m - 1] == i);
            }
        }
    }
}

/// However the tasks of a run complete, once every task has come in the
/// aggregate lists each project with its own outcome, in the order in which
/// the projects were given: completion order never shows in the result.
pub proof fn aggregate_ignores_completion_order(
    projects: Seq<Project>,
    outcomes: Seq<Outcome>,
    order: Seq<int>,
)
    requires
        outcomes.len() == projects.len(),
        covers_all(order, projects.len()),
    ensures
        all_finished(replay(all_pending(projects.len()), completions(order, outcomes))),
        aggregate_entries(projects, replay(all_pending(projects.len()), completions(order, outcomes)))
            == in_project_order(projects, outcomes),
{
    let n = projects.len();
    let events = completions(order, outcomes);
    lemma_replay_prefix(n, order, outcomes, order.len() as int);
    assert(events.take(order.len() as int) =~= events);
    assert(order.take(order.len() as int) =~= order);
    let tasks = replay(all_pending(n), events);
    assert forall|i: int| 0 <= i < tasks.len() implies (#[trigger] tasks[i]) is Finished by {
        assert(order.contains(i));
    }
    assert(aggregate_entries(projects, tasks) =~= in_project_order(projects, outcomes)) by {
        assert forall|i: int| 0 <= i < n implies #[trigger] aggregate_entries(projects, tasks)[i]
            == in_project_order(projects, outcomes)[i] by {
            assert(order.contains(i));
        }
    }
}

/// Two runs over the same projects whose searches give the same outcomes
/// end in the same aggregate, whatever order each run's tasks complete in.
pub proof fn repeated_runs_agree(
    projects: Seq<Project>,
    outcomes: Seq<Outcome>,
    first_order: Seq<int>,
    second_order: Seq<int>,
)
    requires
        outcomes.len() == projects.len(),
        covers_all(first_order, projects.len()),
        covers_all(second_order, projects.len()),
    ensures
        aggregate_entries(
            projects,
            replay(all_pending(projects.len()), completions(first_order, outcomes)),
        ) == aggregate_entries(
            projects,
            replay(all_pending(projects.len()), completions(second_order, outcomes)),
        ),
{
    aggregate_ignores_completion_order(projects, outcomes, first_order);
    aggregate_ignores_completion_order(projects, outcomes, second_order);
}

/// One failed task touches no other: where only task `k` fails, the
/// aggregate still has one entry per project, the error at `k`, and every
/// other project with its own matches.
pub proof fn failure_stays_isolated(
    projects: Seq<Project>,
    outcomes: Seq<Outcome>,
    order: Seq<int>,
    k: int,
)
    requires
        outcomes.len() == projects.len(),
        covers_all(order, projects.len()),
        0 <= k < projects.len(),
        outcomes[k] is Err,
        forall|i: int| 0 <= i < projects.len() && i != k ==> (#[trigger] outcomes[i]) is Ok,
    ensures
        ({
            let entries = aggregate_entries(
                projects,
                replay(all_pending(projects.len()), completions(order, outcomes)),
            );
            &&& entries.len() == projects.len()
            &&& entries[k].project == projects[k]
            &&& entries[k].outcome == outcomes[k]
            &&& entries[k].outcome is Err
            &&& forall|i: int|
                0 <= i < projects.len() && i != k ==> (#[trigger] entries[i]).project == projects[i]
                    && entries[i].outcome == outcomes[i] && entries[i].outcome is Ok
            &&& failure_total(entries) == 1
        }),
{
    aggregate_ignores_completion_order(projects, outcomes, order);
    let entries = in_project_order(projects, outcomes);
    lemma_failure_total_single(entries, k);
}

proof fn lemma_failure_total_single(entries: Seq<ProjectOutcome>, k: int)
    requires
        0 <= k < entries.len(),
        entries[k].outcome is Err,
        forall|i: int| 0 <= i < entries.len() && i != k ==> (#[trigger] entries[i]).outcome is Ok,
    ensures
        failure_total(entries) == 1,
    decreases entries.len(),
{
    if k < entries.len() - 1 {
        lemma_failure_total_single(entries.drop_last(), k);
    } else {
        lemma_failure_total_none(entries.drop_last());
    }
}

proof fn lemma_failure_total_none(entries: Seq<ProjectOutcome>)
    requires
        forall|i: int| 0 <= i < entries.len() ==> (#[trigger] entries[i]).outcome is Ok,
    ensures
        failure_total(entries) == 0,
    decreases entries.len(),
{
    if entries.len() > 0 {
        lemma_failure_total_none(entries.drop_last());
    }
}

} // verus!
