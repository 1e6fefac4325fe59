use crate::project::Project;
use vstd::prelude::*;

verus! {

/// Number of projects asked for in each page of a listing.
pub const PAGE_SIZE: u64 = 50;

/// What the caller fetches next: one page of the projects that the
/// credential is a member of, ordered by id.
#[derive(PartialEq, Eq, Structural, Debug, Clone, Copy)]
pub struct PageRequest {
    /// Page number, starting at 1.
    pub page: u64,
    pub per_page: u64,
    pub include_archived: bool,
}

/// Why a listing was abandoned.
#[derive(PartialEq, Eq, Structural, Debug, Clone, Copy)]
pub enum ListingError {
    /// A page held the id that ended the page before it: the server is
    /// handing out the same page again, and walking on would never end.
    RepeatedPage,
    /// The page number cannot be counted any further.
    PageLimit,
}

/// `page` holds a project with that id.
pub open spec fn holds_id(page: Seq<Project>, id: u64) -> bool {
    exists|j: int| 0 <= j < page.len() && (#[trigger] page[j]).id == id
}

/// The walk over the pages of a project listing. Pages are asked for in
/// turn from page 1; the walk ends at the first empty page.
pub struct ProjectListing {
    include_archived: bool,
    page: u64,
    collected: Vec<Project>,
    last_id: Option<u64>,
}

/// What comes of a page handed to a listing.
pub enum ListingStep {
    /// Fetch the listing's next request and hand its page in.
    Continue(ProjectListing),
    /// Every page has been read: the projects, in the order received.
    Done(Vec<Project>),
    /// The listing failed as a whole; no partial result is kept.
    Failed(ListingError),
}

impl ProjectListing {
    /// The projects received so far, in order.
    pub closed spec fn collected_view(self) -> Seq<Project> {
        self.collected@
    }

    /// The number of the page asked for next.
    pub closed spec fn page_view(self) -> u64 {
        self.page
    }

    /// The id that ended the last page received, if one was.
    pub closed spec fn last_id_view(self) -> Option<u64> {
        self.last_id
    }

    pub closed spec fn archived_view(self) -> bool {
        self.include_archived
    }

    /// `items` holds the id that ended the last page received.
    pub open spec fn repeats_last_id(self, items: Seq<Project>) -> bool {
        match self.last_id_view() {
            Some(prev) => holds_id(items, prev),
            None => false,
        }
    }

    /// A listing that starts at page 1, with nothing received yet.
    pub fn new(include_archived: bool) -> (r: ProjectListing)
        ensures
            r.page_view() == 1,
            r.collected_view().len() == 0,
            r.last_id_view() is None,
            r.archived_view() == include_archived,
    {
        ProjectListing { include_archived, page: 1, collected: Vec::new(), last_id: None }
    }

    /// The page to fetch next.
    pub fn request(&self) -> (r: PageRequest)
        ensures
            r == (PageRequest {
                page: self.page_view(),
                per_page: PAGE_SIZE,
                include_archived: self.archived_view(),
            }),
    {
        PageRequest { page: self.page, per_page: PAGE_SIZE, include_archived: self.include_archived }
    }

    /// The projects received so far, in order.
    pub fn collected(&self) -> (r: &Vec<Project>)
        ensures
            r@ == self.collected_view(),
    {
        &self.collected
    }

    /// Takes in the page that answered `request`. An empty page ends the
    /// listing with everything received; a page that holds the id that ended
    /// the page before fails it; any other page is kept and the next one is
    /// asked for.
    pub fn receive(self, items: Vec<Project>) -> (r: ListingStep)
        ensures
            items@.len() == 0 ==> (r matches ListingStep::Done(all) && all@
                == self.collected_view()),
            items@.len() > 0 && self.repeats_last_id(items@) ==> (r matches ListingStep::Failed(e)
                && e == ListingError::RepeatedPage),
            items@.len() > 0 && !self.repeats_last_id(items@) && self.page_view() == u64::MAX ==> (
            r matches ListingStep::Failed(e) && e == ListingError::PageLimit),
            items@.len() > 0 && !self.repeats_last_id(items@) && self.page_view() < u64::MAX ==> (
            r matches ListingStep::Continue(next) && next.collected_view() == self.collected_view()
                + items@ && next.page_view() == self.page_view() + 1 && next.last_id_view() == Some(
                items@.last().id,
            ) && next.archived_view() == self.archived_view()),
    {
        if items.len() == 0 {
            return ListingStep::Done(self.collected);
        }
        if let Some(prev) = self.last_id {
            let mut j: usize = 0;
            while j < items.len()
                invariant
                    j <= items@.len(),
                    self.last_id == Some(prev),
                    forall|k: int| 0 <= k < j ==> (#[trigger] items@[k]).id != prev,
                decreases items@.len() - j,
            {
                if items[j].id == prev {
                    assert(holds_id(items@, prev)) by {
                        assert(items@[j as int].id == prev);
                    }
                    return ListingStep::Failed(ListingError::RepeatedPage);
                }
                j = j + 1;
            }
        }
        if self.page == u64::MAX {
            return ListingStep::Failed(ListingError::PageLimit);
        }
        let last_id = items[items.len() - 1].id;
        let ProjectListing { include_archived, page, mut collected, .. } = self;
        let mut items = items;
        collected.append(&mut items);
        ListingStep::Continue(
            ProjectListing { include_archived, page: page + 1, collected, last_id: Some(last_id) },
        )
    }
}

/// A page that ends in the same project id as the page before it is caught:
/// once a listing has taken a page, a next page ending in that page's last
/// id repeats it, so `receive` fails the listing instead of walking on.
pub proof fn repeated_page_is_caught(
    listing: ProjectListing,
    previous: Seq<Project>,
    page: Seq<Project>,
)
    requires
        previous.len() > 0,
        page.len() > 0,
        listing.last_id_view() == Some(previous.last().id),
        page.last().id == previous.last().id,
    ensures
        listing.repeats_last_id(page),
{
    assert(page[page.len() - 1].id == previous.last().id);
}

} // verus!
