use vstd::prelude::*;

verus! {

/// What the glob crate decides for a pattern text and a path: whether the
/// path matches the shell-style pattern. For a given target platform, whose
/// path-separator convention the crate consults, the verdict is a function
/// of the two strings alone.
pub uninterp spec fn glob_match(pattern: Seq<char>, path: Seq<char>) -> bool;

/// Relies on glob::Pattern::new and glob::Pattern::matches: whether the path
/// matches the shell-style glob pattern; a pattern text that does not
/// compile matches no path.
#[verifier::external_body]
fn glob_matches(pattern: &str, path: &str) -> (r: bool)
    ensures
        r == glob_match(pattern@, path@),
{
    match glob::Pattern::new(pattern) {
        Ok(p) => p.matches(path),
        Err(_) => false,
    }
}

/// Decides whether a filesystem entry takes part in a snapshot: either every
/// entry is included, or only those whose path matches a glob pattern. Pure
/// and stateless; re-evaluated for each entry during a walk.
#[derive(Debug)]
pub struct FileFilter {
    include_only: Option<String>,
}

impl FileFilter {
    /// The inclusion pattern, if the filter restricts anything.
    pub closed spec fn spec_pattern(self) -> Option<Seq<char>> {
        match self.include_only {
            Some(p) => Some(p@),
            None => None,
        }
    }

    /// Whether a path takes part in a snapshot under this filter.
    pub open spec fn spec_includes(self, path: Seq<char>) -> bool {
        match self.spec_pattern() {
            Some(pattern) => glob_match(pattern, path),
            None => true,
        }
    }

    /// A filter that admits only paths matching the given glob pattern.
    pub fn with_pattern(pattern: String) -> (f: FileFilter)
        ensures
            f.spec_pattern() == Some(pattern@),
    {
        FileFilter { include_only: Some(pattern) }
    }

    /// Whether the entry at the given path takes part in a snapshot.
    pub fn is_file_included(&self, path: &str) -> (r: bool)
        ensures
            r == self.spec_includes(path@),
    {
        match &self.include_only {
            Some(pattern) => glob_matches(pattern.as_str(), path),
            None => true,
        }
    }

    /// Whether the entry at the given path is left out of a snapshot.
    pub fn is_file_excluded(&self, path: &str) -> (r: bool)
        ensures
            r == !self.spec_includes(path@),
    {
        !self.is_file_included(path)
    }
}

impl Default for FileFilter {
    /// The filter that includes everything.
    fn default() -> (f: FileFilter)
        ensures
            f.spec_pattern() is None,
    {
        FileFilter { include_only: None }
    }
}

} // verus!
