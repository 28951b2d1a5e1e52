//! The immutable configuration threaded through a traversal: display
//! mode, layout, dereference policy and the ignore matcher.

use vstd::prelude::*;

verus! {

/// Which entries a listing shows.
#[derive(Clone, Copy, Debug, PartialEq, Eq, Structural)]
pub enum Display {
    /// Everything but hidden and system-protected entries.
    VisibleOnly,
    /// Hidden entries too, but not system-protected ones.
    AlmostAll,
    /// Hidden entries too, but not system-protected ones; a flat layout
    /// additionally lists the `.` and `..` pseudo-entries.
    All,
    /// Every entry, system-protected ones included.
    SystemProtected,
    /// Directories only.
    DirectoryOnly,
}

/// How the listing is laid out.
#[derive(Clone, Copy, Debug, PartialEq, Eq, Structural)]
pub enum Layout {
    OneLine,
    Tree,
    Grid,
}

/// Whether symlinks are resolved to their target's metadata.
#[derive(Clone, Copy, Debug, PartialEq, Eq, Structural)]
pub struct Dereference(pub bool);

/// A pre-built matcher consulted per entry name; an entry whose name it
/// matches is treated as if it did not exist.  This matcher holds the
/// names to suppress literally.
#[derive(Debug)]
pub struct NameMatcher {
    pub names: Vec<String>,
}

impl NameMatcher {
    /// Whether `name` is one of the suppressed names.
    pub open spec fn spec_matches(self, name: Seq<char>) -> bool {
        exists|i: int| 0 <= i < self.names@.len() && self.names@[i]@ == name
    }

    pub fn is_match(&self, name: &String) -> (r: bool)
        ensures
            r == self.spec_matches(name@),
    {
        let n = self.names.len();
        let mut i: usize = 0;
        while i < n
            invariant
                n == self.names@.len(),
                0 <= i <= n,
                forall|j: int| 0 <= j < i ==> self.names@[j]@ != name@,
            decreases n - i,
        {
            if self.names[i].eq(name) {
                return true;
            }
            i = i + 1;
        }
        false
    }
}

/// The ignore matcher under its flag name.
#[derive(Debug)]
pub struct IgnoreGlobs(pub NameMatcher);

/// All configuration a traversal consults.
#[derive(Debug)]
pub struct Flags {
    pub display: Display,
    pub layout: Layout,
    pub dereference: Dereference,
    pub ignore_globs: IgnoreGlobs,
}

} // verus!
