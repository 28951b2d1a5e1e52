//! An in-memory snapshot of a filesystem subtree.
//!
//! A [`Node`] records what the operating system reported for one path:
//! the raw attribute values of the entry itself, for a directory the
//! outcome of reading its listing, and for a symlink the outcome of
//! resolving its target.  Failures are part of the snapshot: a listing
//! or a child that could not be read carries the error message the
//! system produced.  The snapshot is finite, so a chain of followed
//! symlinks always ends.

use vstd::prelude::*;

verus! {

/// Raw attribute values an `lstat`-style call reports for a path.
#[derive(Debug)]
pub struct Attrs {
    /// POSIX mode bits (permissions, setuid and the like).
    pub mode: u32,
    /// Owning user name.
    pub user: String,
    /// Owning group name.
    pub group: String,
    /// Size in bytes.
    pub size: u64,
    /// Inode number.
    pub inode: u64,
    /// Hard-link count.
    pub links: u64,
    /// Modification time, seconds since the Unix epoch.
    pub modified: i64,
    /// Whether the path carries an extended access-control list.
    pub has_acl: bool,
}

/// Classification of an entry that is neither a regular file, a
/// directory nor a symlink.
#[derive(Clone, Copy, Debug, PartialEq, Eq, Structural)]
pub enum SpecialKind {
    BlockDevice,
    CharDevice,
    Pipe,
    Socket,
    Other,
}

/// One snapshotted filesystem entry.
#[derive(Debug)]
pub enum Node {
    File { attrs: Attrs },
    /// A directory and the outcome of reading its listing: the children
    /// in directory order, or the error message the read produced.
    Dir { attrs: Attrs, entries: Result<Vec<Entry>, String> },
    /// A symlink: the attributes of the link itself, the target path the
    /// link holds, and the outcome of resolving the target — its own
    /// snapshot when intact, the error message when broken.
    Symlink { attrs: Attrs, target_path: String, target: Result<Box<Node>, String> },
    Special { kind: SpecialKind, attrs: Attrs },
}

/// One child of a snapshotted directory: its final name component, its
/// full path, the hidden and system-protected flags the platform
/// reports for it, and its own snapshot — or the error message its
/// metadata lookup produced.
#[derive(Debug)]
pub struct Entry {
    pub name: String,
    pub path: String,
    pub hidden: bool,
    pub system: bool,
    pub node: Result<Node, String>,
}

impl Node {
    /// The raw attributes of the entry itself.
    pub open spec fn spec_attrs(self) -> Attrs {
        match self {
            Node::File { attrs } => attrs,
            Node::Dir { attrs, .. } => attrs,
            Node::Symlink { attrs, .. } => attrs,
            Node::Special { attrs, .. } => attrs,
        }
    }

    pub fn attrs(&self) -> (r: &Attrs)
        ensures
            *r == self.spec_attrs(),
    {
        match self {
            Node::File { attrs } => attrs,
            Node::Dir { attrs, .. } => attrs,
            Node::Symlink { attrs, .. } => attrs,
            Node::Special { attrs, .. } => attrs,
        }
    }

    /// Whether opening the entry as a directory reaches one: true for a
    /// directory and for a symlink chain ending in one.
    pub open spec fn spec_is_dir(self) -> bool
        decreases self,
    {
        match self {
            Node::Dir { .. } => true,
            Node::Symlink { target: Ok(t), .. } => t.spec_is_dir(),
            _ => false,
        }
    }

    pub fn is_dir(&self) -> (r: bool)
        ensures
            r == self.spec_is_dir(),
        decreases *self,
    {
        match self {
            Node::Dir { .. } => true,
            Node::Symlink { target: Ok(t), .. } => t.is_dir(),
            _ => false,
        }
    }

    /// What opening the entry as a directory and reading its listing
    /// yields: the children, or the message of the error that stops the
    /// read.  Symlinks are followed, as the operating system follows
    /// them when a directory stream is opened; the message of a failed
    /// listing or of a broken link is reported by value, any other
    /// refusal only by its text.
    pub open spec fn spec_listing(self) -> Result<Seq<Entry>, Seq<char>>
        decreases self,
    {
        match self {
            Node::Dir { entries: Ok(es), .. } => Ok(es@),
            Node::Dir { entries: Err(m), .. } => Err(m@),
            Node::Symlink { target: Ok(t), .. } => t.spec_listing(),
            Node::Symlink { target: Err(m), .. } => Err(m@),
            _ => Err("Not a directory"@),
        }
    }

    pub fn listing(&self) -> (r: Result<&Vec<Entry>, String>)
        ensures
            match r {
                Ok(es) => self.spec_listing() == Ok::<Seq<Entry>, Seq<char>>(es@),
                Err(m) => self.spec_listing() == Err::<Seq<Entry>, Seq<char>>(m@),
            },
        decreases *self,
    {
        match self {
            Node::Dir { entries: Ok(es), .. } => Ok(es),
            Node::Dir { entries: Err(m), .. } => Err(m.clone()),
            Node::Symlink { target: Ok(t), .. } => t.listing(),
            Node::Symlink { target: Err(m), .. } => Err(m.clone()),
            _ => Err("Not a directory".to_owned()),
        }
    }
}

} // verus!
