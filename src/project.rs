use vstd::prelude::*;

verus! {

/// One repository hosted on an instance. Its identity is `id`.
#[derive(Debug)]
pub struct Project {
    pub id: u64,
    /// Human-readable name, with its namespace.
    pub display_name: String,
    /// The secondary lookup key, such as `group/repo`.
    pub path_with_namespace: String,
    pub web_url: String,
    pub archived: bool,
}

impl Clone for Project {
    fn clone(&self) -> (r: Self)
        ensures
            r == *self,
    {
        Project {
            id: self.id,
            display_name: self.display_name.clone(),
            path_with_namespace: self.path_with_namespace.clone(),
            web_url: self.web_url.clone(),
            archived: self.archived,
        }
    }
}

/// One code match found by a blob search in a project.
#[derive(Debug)]
pub struct SearchMatch {
    pub project_id: u64,
    pub file_path: String,
    /// First line of `matched_text` in the file.
    pub start_line: u64,
    /// The matched snippet; it may span several lines.
    pub matched_text: String,
    /// Branch or commit the match was found on.
    pub git_ref: String,
}

impl Clone for SearchMatch {
    fn clone(&self) -> (r: Self)
        ensures
            r == *self,
    {
        SearchMatch {
            project_id: self.project_id,
            file_path: self.file_path.clone(),
            start_line: self.start_line,
            matched_text: self.matched_text.clone(),
            git_ref: self.git_ref.clone(),
        }
    }
}

} // verus!
