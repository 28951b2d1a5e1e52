//! The normalized attribute types attached to a metadata record.
//!
//! Each type holds the plain values a platform accessor reports for a
//! path; nothing here touches the operating system.

use vstd::prelude::*;

verus! {

/// Classification of a filesystem entry.  It decides recursion
/// eligibility and display iconography.
#[derive(Clone, Copy, Debug, PartialEq, Eq, Structural)]
pub enum FileType {
    /// Regular file; `exec_bit` is the POSIX executable bit of its mode.
    File { exec_bit: bool },
    Directory,
    /// Symbolic link; `is_dir` says whether an intact target is a directory.
    SymLink { is_dir: bool },
    BlockDevice,
    CharDevice,
    Pipe,
    Socket,
    Special,
}

/// Permission bits of an entry, in the POSIX mode-bit encoding.
#[derive(Clone, Copy, Debug, PartialEq, Eq, Structural)]
pub struct Permissions {
    pub bits: u32,
}

impl Permissions {
    /// Whether any of the three executable bits is set.
    pub open spec fn spec_is_executable(self) -> bool {
        self.bits & 0o111 != 0
    }

    pub fn is_executable(&self) -> (r: bool)
        ensures
            r == self.spec_is_executable(),
    {
        self.bits & 0o111 != 0
    }
}

/// Modification time of an entry, as seconds since the Unix epoch.
#[derive(Clone, Copy, Debug, PartialEq, Eq, Structural)]
pub struct Date {
    pub unix_seconds: i64,
}

/// Owning user and group of an entry.
#[derive(Debug)]
pub struct Owner {
    pub user: String,
    pub group: String,
}

/// Mathematical value of an owner: both names as character sequences.
pub ghost struct OwnerView {
    pub user: Seq<char>,
    pub group: Seq<char>,
}

impl View for Owner {
    type V = OwnerView;

    open spec fn view(&self) -> OwnerView {
        OwnerView { user: self.user@, group: self.group@ }
    }
}

/// Size of an entry in bytes.
#[derive(Clone, Copy, Debug, PartialEq, Eq, Structural)]
pub struct Size {
    pub bytes: u64,
}

impl Size {
    pub fn new(bytes: u64) -> (r: Size)
        ensures
            r.bytes == bytes,
    {
        Size { bytes }
    }

    pub fn get_bytes(&self) -> (r: u64)
        ensures
            r == self.bytes,
    {
        self.bytes
    }
}

/// Inode number of an entry.
#[derive(Clone, Copy, Debug, PartialEq, Eq, Structural)]
pub struct INode {
    pub index: u64,
}

/// Hard-link count of an entry.
#[derive(Clone, Copy, Debug, PartialEq, Eq, Structural)]
pub struct Links {
    pub nlink: u64,
}

/// Best-effort summary of the access-control list of an entry.
#[derive(Clone, Copy, Debug, PartialEq, Eq, Structural)]
pub struct AccessControl {
    pub has_acl: bool,
}

/// Resolved symlink information: the target path the link holds and
/// whether the target could be reached.  Empty for non-symlink entries.
#[derive(Debug)]
pub struct SymLink {
    pub target: Option<String>,
    pub valid: bool,
}

/// Mathematical value of resolved symlink information.
pub ghost struct SymLinkView {
    pub target: Option<Seq<char>>,
    pub valid: bool,
}

impl View for SymLink {
    type V = SymLinkView;

    open spec fn view(&self) -> SymLinkView {
        SymLinkView {
            target: match self.target {
                Some(t) => Some(t@),
                None => None,
            },
            valid: self.valid,
        }
    }
}

/// Display name of an entry together with its resolved classification.
#[derive(Debug)]
pub struct Name {
    pub name: String,
    pub file_type: FileType,
}

/// Mathematical value of a display name.
pub ghost struct NameView {
    pub name: Seq<char>,
    pub file_type: FileType,
}

impl View for Name {
    type V = NameView;

    open spec fn view(&self) -> NameView {
        NameView { name: self.name@, file_type: self.file_type }
    }
}

/// Type indicator appended to a name by classifying display modes:
/// `/` for directories, `@` for symlinks, `|` for pipes, `=` for sockets,
/// `*` for executable files, nothing otherwise.
#[derive(Clone, Copy, Debug, PartialEq, Eq, Structural)]
pub struct Indicator {
    pub symbol: Option<char>,
}

impl Indicator {
    /// The indicator an entry of the given classification carries.
    pub open spec fn spec_from(file_type: FileType) -> Indicator {
        match file_type {
            FileType::Directory => Indicator { symbol: Some('/') },
            FileType::SymLink { .. } => Indicator { symbol: Some('@') },
            FileType::Pipe => Indicator { symbol: Some('|') },
            FileType::Socket => Indicator { symbol: Some('=') },
            FileType::File { exec_bit } => if exec_bit {
                Indicator { symbol: Some('*') }
            } else {
                Indicator { symbol: None }
            },
            _ => Indicator { symbol: None },
        }
    }

    pub fn from_file_type(file_type: FileType) -> (r: Indicator)
        ensures
            r == Indicator::spec_from(file_type),
    {
        match file_type {
            FileType::Directory => Indicator { symbol: Some('/') },
            FileType::SymLink { .. } => Indicator { symbol: Some('@') },
            FileType::Pipe => Indicator { symbol: Some('|') },
            FileType::Socket => Indicator { symbol: Some('=') },
            FileType::File { exec_bit } => if exec_bit {
                Indicator { symbol: Some('*') }
            } else {
                Indicator { symbol: None }
            },
            _ => Indicator { symbol: None },
        }
    }
}

} // verus!
