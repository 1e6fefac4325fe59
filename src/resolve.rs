use crate::listing::ProjectListing;
use crate::project::Project;
use vstd::prelude::*;

verus! {

/// Neither a project nor the all-projects flag was given.
#[derive(PartialEq, Eq, Structural, Debug, Clone, Copy)]
pub enum ResolveError {
    NoProjectGiven,
}

/// The value of a decimal digit.
pub open spec fn digit_value(c: char) -> int {
    c as int - '0' as int
}

/// `c` is one of the decimal digits `0` to `9`.
pub open spec fn is_digit(c: char) -> bool {
    '0' as int <= c as int <= '9' as int
}

pub open spec fn all_digits(s: Seq<char>) -> bool {
    forall|i: int| 0 <= i < s.len() ==> is_digit(#[trigger] s[i])
}

/// The number that the decimal digits `s` write, most significant first.
pub open spec fn decimal_value(s: Seq<char>) -> int
    decreases s.len(),
{
    if s.len() == 0 {
        0
    } else {
        decimal_value(s.drop_last()) * 10 + digit_value(s.last())
    }
}

/// `s` without the one `+` sign that may lead it.
pub open spec fn unsigned_part(s: Seq<char>) -> Seq<char> {
    if s.len() > 0 && s[0] == '+' {
        s.drop_first()
    } else {
        s
    }
}

/// The project id that `s` writes: a positive decimal integer that fits in
/// 64 bits, with an optional leading `+`.
pub open spec fn project_id_of(s: Seq<char>) -> Option<u64> {
    let d = unsigned_part(s);
    if d.len() > 0 && all_digits(d) && 0 < decimal_value(d) <= u64::MAX {
        Some(decimal_value(d) as u64)
    } else {
        None
    }
}

proof fn lemma_decimal_value_grows(s: Seq<char>, k: int)
    requires
        all_digits(s),
        0 <= k <= s.len(),
    ensures
        0 <= decimal_value(s.take(k)) <= decimal_value(s),
    decreases s.len() - k,
{
    if k < s.len() {
        lemma_decimal_value_grows(s, k + 1);
        assert(s.take(k + 1).drop_last() =~= s.take(k));
        assert(s.take(k + 1).last() == s[k]);
        assert(all_digits(s.take(k))) by {
            assert forall|i: int| 0 <= i < k implies is_digit(#[trigger] s.take(k)[i]) by {
                assert(s.take(k)[i] == s[i]);
            }
        }
        lemma_decimal_value_nonnegative(s.take(k));
    } else {
        assert(s.take(k) =~= s);
        lemma_decimal_value_nonnegative(s);
    }
}

proof fn lemma_decimal_value_nonnegative(s: Seq<char>)
    requires
        all_digits(s),
    ensures
        decimal_value(s) >= 0,
    decreases s.len(),
{
    if s.len() > 0 {
        assert(all_digits(s.drop_last())) by {
            assert forall|i: int| 0 <= i < s.len() - 1 implies is_digit(#[trigger] s.drop_last()[i]) by {
                assert(s.drop_last()[i] == s[i]);
            }
        }
        lemma_decimal_value_nonnegative(s.drop_last());
    }
}

/// Reads a project id written as a positive decimal integer.
pub fn parse_project_id(s: &str) -> (r: Option<u64>)
    ensures
        r == project_id_of(s@),
{
    let len = s.unicode_len();
    let mut start: usize = 0;
    if len > 0 && s.get_char(0) == '+' {
        start = 1;
    }
    let ghost d = unsigned_part(s@);
    assert(d =~= s@.subrange(start as int, len as int));
    if start == len {
        return None;
    }
    let mut i: usize = start;
    while i < len
        invariant
            start <= i <= len,
            len == s@.len(),
            d == unsigned_part(s@),
            d == s@.subrange(start as int, len as int),
            forall|k: int| start <= k < i ==> is_digit(#[trigger] s@[k]),
        decreases len - i,
    {
        let c = s.get_char(i);
        if (c as u32) < ('0' as u32) || (c as u32) > ('9' as u32) {
            assert(d[i - start] == c);
            assert(!all_digits(d));
            return None;
        }
        i = i + 1;
    }
    assert(all_digits(d)) by {
        assert forall|k: int| 0 <= k < d.len() implies is_digit(#[trigger] d[k]) by {
            assert(d[k] == s@[k + start]);
        }
    }
    let mut value: u64 = 0;
    let mut i: usize = start;
    while i < len
        invariant
            start <= i <= len,
            len == s@.len(),
            d == unsigned_part(s@),
            d == s@.subrange(start as int, len as int),
            all_digits(d),
            value == decimal_value(d.take(i - start)),
        decreases len - i,
    {
        let c = s.get_char(i);
        let ghost k = i - start;
        assert(d[k] == c);
        assert(d.take(k + 1).drop_last() =~= d.take(k));
        assert(d.take(k + 1).last() == c);
        let digit = (c as u32 - '0' as u32) as u64;
        assert(digit == digit_value(c));
        if value > (u64::MAX - digit) / 10 {
            proof {
                lemma_decimal_value_grows(d, k + 1);
                assert(value * 10 + digit > u64::MAX) by (nonlinear_arith)
                    requires
                        value > (u64::MAX - digit) / 10,
                        digit <= 9,
                ;
            }
            return None;
        }
        proof {
            assert(value * 10 + digit <= u64::MAX) by (nonlinear_arith)
                requires
                    value <= (u64::MAX - digit) / 10,
                    digit <= 9,
            ;
        }
        value = value * 10 + digit;
        i = i + 1;
    }
    assert(d.take(d.len() as int) =~= d);
    if value == 0 {
        None
    } else {
        Some(value)
    }
}

/// The projects of `projects` whose path is `path`, in their order.
pub open spec fn at_path(projects: Seq<Project>, path: Seq<char>) -> Seq<Project> {
    projects.filter(|p: Project| p.path_with_namespace@ == path)
}

/// Keeps the projects whose path with namespace is exactly `path`
/// (case-sensitive, no prefix matching), in their order.
pub fn filter_by_path(projects: &Vec<Project>, path: &String) -> (r: Vec<Project>)
    ensures
        r@ == at_path(projects@, path@),
{
    let mut kept: Vec<Project> = Vec::new();
    let mut i: usize = 0;
    while i < projects.len()
        invariant
            i <= projects@.len(),
            kept@ == at_path(projects@.take(i as int), path@),
        decreases projects@.len() - i,
    {
        proof {
            reveal(Seq::filter);
            assert(projects@.take(i + 1).drop_last() =~= projects@.take(i as int));
        }
        if projects[i].path_with_namespace == *path {
            kept.push(projects[i].clone());
        }
        i = i + 1;
    }
    assert(projects@.take(i as int) =~= projects@);
    kept
}

/// The identifier is given and not empty.
pub open spec fn names_something(identifier: Option<String>) -> bool {
    identifier matches Some(s) && s@.len() > 0
}

/// Which projects a search covers, before any listing is fetched.
pub enum Resolution {
    /// The identifier names one project by its id; nothing is listed.
    Direct(Project),
    /// List the projects, without archived ones, and keep those at this path.
    ByPath(String),
    /// List the projects, without archived ones, and search every one.
    All,
}

/// Decides which projects a search covers, in this order of rules: an
/// identifier that reads as a project id names that project; any other
/// non-empty identifier is a path to look up in the listing; otherwise the
/// all-projects flag asks for the whole listing; otherwise the request is
/// refused.
pub fn resolve(identifier: Option<String>, search_all: bool) -> (r: Result<
    Resolution,
    ResolveError,
>)
    ensures
        names_something(identifier) && project_id_of(identifier->Some_0@) is Some ==> (r matches Ok(
            Resolution::Direct(p),
        ) && p.id == project_id_of(identifier->Some_0@)->Some_0 && p.display_name@
            == identifier->Some_0@ && p.path_with_namespace@ == identifier->Some_0@
            && p.web_url@.len() == 0 && !p.archived),
        names_something(identifier) && project_id_of(identifier->Some_0@) is None ==> (r matches Ok(
            Resolution::ByPath(path),
        ) && path@ == identifier->Some_0@),
        !names_something(identifier) && search_all ==> r matches Ok(Resolution::All),
        !names_something(identifier) && !search_all ==> r == Err::<Resolution, ResolveError>(
            ResolveError::NoProjectGiven,
        ),
{
    if let Some(s) = identifier {
        if let Some(id) = parse_project_id(s.as_str()) {
            let project = Project {
                id,
                display_name: s.clone(),
                path_with_namespace: s,
                web_url: String::new(),
                archived: false,
            };
            return Ok(Resolution::Direct(project));
        }
        if s.as_str().unicode_len() > 0 {
            return Ok(Resolution::ByPath(s));
        }
    }
    if search_all {
        Ok(Resolution::All)
    } else {
        Err(ResolveError::NoProjectGiven)
    }
}

impl Resolution {
    /// The listing to fetch first, if the projects are to be listed: it
    /// leaves archived projects out.
    pub fn listing(&self) -> (r: Option<ProjectListing>)
        ensures
            r is None <==> self is Direct,
            r matches Some(l) ==> l.page_view() == 1 && l.collected_view().len() == 0
                && l.last_id_view() is None && !l.archived_view(),
    {
        match self {
            Resolution::Direct(_) => None,
            _ => Some(ProjectListing::new(false)),
        }
    }

    /// The projects to search, given what the listing returned (ignored for
    /// a project named by id).
    pub fn select(self, listed: Vec<Project>) -> (r: Vec<Project>)
        ensures
            self matches Resolution::Direct(p) ==> r@ == seq![p],
            self matches Resolution::ByPath(path) ==> r@ == at_path(listed@, path@),
            self is All ==> r@ == listed@,
    {
        match self {
            Resolution::Direct(p) => vec![p],
            Resolution::ByPath(path) => filter_by_path(&listed, &path),
            Resolution::All => listed,
        }
    }
}

} // verus!
