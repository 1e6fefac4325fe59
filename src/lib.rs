//! Searching source code across the projects of a code-forge instance.
//!
//! The library holds the decisions of a multi-project code search: which
//! instance to use, how a paged project listing is walked, which projects a
//! search covers, and how the outcomes of the concurrent per-project searches
//! are collected into one ordered result. Network access, the runtime and the
//! terminal stay with the caller, which performs what the library asks for and
//! hands back what came of it.

pub mod listing;
pub mod project;
pub mod registry;
pub mod resolve;
pub mod search;

pub use project::{Project, SearchMatch};
pub use search::{
    AggregateResult, BlobSearch, Outcome, ProjectOutcome, RecordError, SearchError, SearchRun, TaskState,
    SEARCH_PAGE_SIZE,
};
pub use listing::{ListingError, ListingStep, PageRequest, ProjectListing, PAGE_SIZE};
pub use resolve::{filter_by_path, parse_project_id, resolve, Resolution, ResolveError};
pub use registry::{
    config_action, position_of, select_instance, upsert_instance, ConfigAction, Instance,
    InstanceError,
};
