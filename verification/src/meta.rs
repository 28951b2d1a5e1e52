//! The metadata record, its resolution from a snapshot, recursive
//! expansion, and the two-pass size model.

use vstd::prelude::*;

use crate::attributes::{
    AccessControl, Date, FileType, INode, Indicator, Links, Name, NameView, Owner, OwnerView,
    Permissions, Size, SymLink, SymLinkView,
};
use crate::disk::{Attrs, Entry, Node, SpecialKind};
use crate::exit_code::{DiagView, Diagnostic, ExitCode};
use crate::flags::{Display, Flags, Layout};

verus! {

/// One entry of the metadata tree.  The optional attribute group is
/// populated as a unit: every field is `Some` unless the record is a
/// broken symlink resolved under dereference policy, in which case all
/// of them are `None`.
#[derive(Debug)]
pub struct Meta {
    pub name: Name,
    pub path: String,
    pub permissions: Option<Permissions>,
    pub date: Option<Date>,
    pub owner: Option<Owner>,
    pub file_type: FileType,
    pub size: Option<Size>,
    pub symlink: SymLink,
    pub indicator: Indicator,
    pub inode: Option<INode>,
    pub links: Option<Links>,
    pub content: Option<Vec<Meta>>,
    pub access_control: Option<AccessControl>,
}

/// Mathematical value of a metadata record: strings as character
/// sequences, children as a sequence of values.
pub ghost struct MetaView {
    pub name: NameView,
    pub path: Seq<char>,
    pub permissions: Option<Permissions>,
    pub date: Option<Date>,
    pub owner: Option<OwnerView>,
    pub file_type: FileType,
    pub size: Option<Size>,
    pub symlink: SymLinkView,
    pub indicator: Indicator,
    pub inode: Option<INode>,
    pub links: Option<Links>,
    pub content: Option<Seq<MetaView>>,
    pub access_control: Option<AccessControl>,
}

/// The value of a record, children included.
pub open spec fn mview(m: Meta) -> MetaView
    decreases m,
{
    MetaView {
        name: m.name@,
        path: m.path@,
        permissions: m.permissions,
        date: m.date,
        owner: match m.owner {
            Some(o) => Some(o@),
            None => None,
        },
        file_type: m.file_type,
        size: m.size,
        symlink: m.symlink@,
        indicator: m.indicator,
        inode: m.inode,
        links: m.links,
        content: match m.content {
            Some(v) => Some(seq_mview(v@)),
            None => None,
        },
        access_control: m.access_control,
    }
}

/// The values of a sequence of records.
pub open spec fn seq_mview(s: Seq<Meta>) -> Seq<MetaView>
    decreases s,
{
    if s.len() == 0 {
        Seq::empty()
    } else {
        seq_mview(s.drop_last()).push(mview(s.last()))
    }
}

impl View for Meta {
    type V = MetaView;

    open spec fn view(&self) -> MetaView {
        mview(*self)
    }
}

impl MetaView {
    /// The optional attribute group is populated or absent as a unit.
    pub open spec fn attrs_consistent(self) -> bool {
        (self.permissions is Some && self.date is Some && self.owner is Some
            && self.size is Some && self.inode is Some && self.links is Some
            && self.access_control is Some)
        || (self.permissions is None && self.date is None && self.owner is None
            && self.size is None && self.inode is None && self.links is None
            && self.access_control is None)
    }
}

/// Outcome of resolving one path: the record's value and the diagnostic
/// a broken link emits, if any.
pub ghost struct Resolved {
    pub meta: MetaView,
    pub diag: Option<DiagView>,
}

/// Classification of a non-symlink snapshot entry, from its own
/// metadata; the executable bit of the mode decides `exec_bit`.
pub open spec fn spec_classify(node: Node) -> FileType {
    match node {
        Node::File { attrs } => FileType::File { exec_bit: attrs.mode & 0o111 != 0 },
        Node::Dir { .. } => FileType::Directory,
        Node::Symlink { .. } => FileType::SymLink { is_dir: false },
        Node::Special { kind, .. } => match kind {
            SpecialKind::BlockDevice => FileType::BlockDevice,
            SpecialKind::CharDevice => FileType::CharDevice,
            SpecialKind::Pipe => FileType::Pipe,
            SpecialKind::Socket => FileType::Socket,
            SpecialKind::Other => FileType::Special,
        },
    }
}

impl Node {
    /// Where a chain of symlinks ends: the first non-symlink snapshot,
    /// or the message of the broken link that stops the chain.
    pub open spec fn spec_final_target(self) -> Result<Node, Seq<char>>
        decreases self,
    {
        match self {
            Node::Symlink { target: Ok(t), .. } => t.spec_final_target(),
            Node::Symlink { target: Err(m), .. } => Err(m@),
            _ => Ok(self),
        }
    }

    fn final_target(&self) -> (r: Result<&Node, &String>)
        ensures
            match r {
                Ok(n) => self.spec_final_target() == Ok::<Node, Seq<char>>(*n),
                Err(m) => self.spec_final_target() == Err::<Node, Seq<char>>(m@),
            },
        decreases *self,
    {
        match self {
            Node::Symlink { target: Ok(t), .. } => t.final_target(),
            Node::Symlink { target: Err(m), .. } => Err(m),
            _ => Ok(self),
        }
    }
}

/// What resolving `path` against snapshot `node` yields.
///
/// The record is computed from the link's own metadata, from its
/// target's when the entry is an intact symlink under dereference
/// policy, or degraded to identity alone when the link is broken and
/// must be dereferenced; only that last case emits a diagnostic.
pub open spec fn resolve_spec(path: Seq<char>, name: Seq<char>, node: Node, dereference: bool)
    -> Resolved
{
    let is_link = node is Symlink;
    let res = node.spec_final_target();
    let broken = is_link && dereference && res is Err;
    let eff = if is_link && dereference && res is Ok {
        res->Ok_0.spec_attrs()
    } else {
        node.spec_attrs()
    };
    let file_type = if !is_link {
        spec_classify(node)
    } else if dereference && res is Ok {
        spec_classify(res->Ok_0)
    } else if !dereference && res is Ok {
        FileType::SymLink { is_dir: node.spec_is_dir() }
    } else {
        FileType::SymLink { is_dir: false }
    };
    let symlink = if is_link {
        SymLinkView { target: Some(node->Symlink_target_path@), valid: res is Ok }
    } else {
        SymLinkView { target: None, valid: false }
    };
    let meta = MetaView {
        name: NameView { name: name, file_type: file_type },
        path: path,
        permissions: if broken { None } else { Some(Permissions { bits: eff.mode }) },
        date: if broken { None } else { Some(Date { unix_seconds: eff.modified }) },
        owner: if broken { None } else { Some(OwnerView { user: eff.user@, group: eff.group@ }) },
        file_type: file_type,
        size: if broken { None } else { Some(Size { bytes: eff.size }) },
        symlink: symlink,
        indicator: Indicator::spec_from(file_type),
        inode: if broken { None } else { Some(INode { index: eff.inode }) },
        links: if broken { None } else { Some(Links { nlink: eff.links }) },
        content: None,
        access_control: if broken { None } else { Some(AccessControl { has_acl: eff.has_acl }) },
    };
    let diag = if broken {
        Some(DiagView { path: path, message: res->Err_0 })
    } else {
        None
    };
    Resolved { meta: meta, diag: diag }
}

impl Meta {
    /// Resolves one path and its snapshot into a normalized record.
    ///
    /// `path` and `name` become the record's identity; `node` is what
    /// the snapshot holds for the path.  Under `dereference`, an intact
    /// symlink takes its classification and attributes from its target,
    /// and a broken one degrades to a record with every optional
    /// attribute absent, reported through the returned diagnostic.
    pub fn resolve(path: String, name: String, node: &Node, dereference: bool)
        -> (r: (Meta, Option<Diagnostic>))
        ensures
            mview(r.0) == resolve_spec(path@, name@, *node, dereference).meta,
            match r.1 {
                Some(d) => resolve_spec(path@, name@, *node, dereference).diag == Some(d@),
                None => resolve_spec(path@, name@, *node, dereference).diag is None,
            },
            mview(r.0).attrs_consistent(),
            r.0.content is None,
    {
        let is_link = matches!(node, Node::Symlink { .. });
        let mut diag: Option<Diagnostic> = None;
        let mut broken = false;
        let mut is_dir_target = false;
        match node.final_target() {
            Ok(_) => {
                is_dir_target = node.is_dir();
            }
            Err(m) => {
                if dereference {
                    broken = true;
                    diag = Some(Diagnostic { path: path.clone(), message: m.clone() });
                }
            }
        }
        let eff: &Attrs = match node.final_target() {
            Ok(t) => if dereference && is_link {
                t.attrs()
            } else {
                node.attrs()
            },
            Err(_) => node.attrs(),
        };
        let file_type = if !is_link {
            classify(node)
        } else {
            match node.final_target() {
                Ok(t) => if dereference {
                    classify(t)
                } else {
                    FileType::SymLink { is_dir: is_dir_target }
                },
                Err(_) => FileType::SymLink { is_dir: false },
            }
        };
        let symlink = match node {
            Node::Symlink { target_path, .. } => SymLink {
                target: Some(target_path.clone()),
                valid: !matches!(node.final_target(), Err(_)),
            },
            _ => SymLink { target: None, valid: false },
        };
        let meta = Meta {
            name: Name { name: name, file_type: file_type },
            path: path,
            permissions: if broken { None } else { Some(Permissions { bits: eff.mode }) },
            date: if broken { None } else { Some(Date { unix_seconds: eff.modified }) },
            owner: if broken { None } else {
                Some(Owner { user: eff.user.clone(), group: eff.group.clone() })
            },
            file_type,
            size: if broken { None } else { Some(Size { bytes: eff.size }) },
            symlink,
            indicator: Indicator::from_file_type(file_type),
            inode: if broken { None } else { Some(INode { index: eff.inode }) },
            links: if broken { None } else { Some(Links { nlink: eff.links }) },
            content: None,
            access_control: if broken { None } else {
                Some(AccessControl { has_acl: eff.has_acl })
            },
        };
        (meta, diag)
    }
}

/// Classification of a non-symlink snapshot entry.
fn classify(node: &Node) -> (r: FileType)
    ensures
        r == spec_classify(*node),
{
    match node {
        Node::File { attrs } => FileType::File { exec_bit: attrs.mode & 0o111 != 0 },
        Node::Dir { .. } => FileType::Directory,
        Node::Symlink { .. } => FileType::SymLink { is_dir: false },
        Node::Special { kind, .. } => match kind {
            SpecialKind::BlockDevice => FileType::BlockDevice,
            SpecialKind::CharDevice => FileType::CharDevice,
            SpecialKind::Pipe => FileType::Pipe,
            SpecialKind::Socket => FileType::Socket,
            SpecialKind::Other => FileType::Special,
        },
    }
}

pub proof fn lemma_seq_mview_push(s: Seq<Meta>, x: Meta)
    ensures
        seq_mview(s.push(x)) == seq_mview(s).push(mview(x)),
{
    assert(s.push(x).drop_last() =~= s);
    assert(s.push(x).last() == x);
}

pub proof fn lemma_seq_mview2(s: Seq<Meta>)
    requires
        s.len() == 2,
    ensures
        seq_mview(s) == seq![mview(s[0]), mview(s[1])],
{
    assert(s.drop_last() =~= seq![s[0]]);
    assert(seq![s[0]].drop_last() =~= Seq::<Meta>::empty());
    assert(seq_mview(Seq::<Meta>::empty()) == Seq::<MetaView>::empty());
    assert(seq![s[0]].last() == s[0]);
    assert(seq_mview(seq![s[0]]) == seq_mview(seq![s[0]].drop_last()).push(mview(seq![s[0]].last())));
    assert(seq_mview(seq![s[0]]) =~= seq![mview(s[0])]);
    assert(seq_mview(s) == seq_mview(s.drop_last()).push(mview(s.last())));
    assert(seq_mview(s) =~= seq![mview(s[0]), mview(s[1])]);
}

pub proof fn lemma_seq_mview_props(s: Seq<Meta>)
    ensures
        seq_mview(s).len() == s.len(),
        forall|i: int| 0 <= i < s.len() ==> seq_mview(s)[i] == mview(s[i]),
    decreases s,
{
    if s.len() > 0 {
        lemma_seq_mview_props(s.drop_last());
        assert(forall|i: int| 0 <= i < s.len() - 1 ==> s.drop_last()[i] == s[i]);
        assert(seq_mview(s) == seq_mview(s.drop_last()).push(mview(s.last())));
    }
}

} // verus!
