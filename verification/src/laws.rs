//! Laws of the library, each proved against the specification
//! functions that the executable contracts are stated over.

use vstd::prelude::*;

use crate::attributes::FileType;
use crate::disk::{Entry, Node};
use crate::exit_code::{DiagView, ExitCode};
use crate::flags::{Display, Flags, Layout};
use crate::meta::{resolve_spec, MetaView};
use crate::sizes::finalize_spec;
use crate::walk::{
    expand_spec, spec_filtered_out, step_spec, walk_entries_spec, ExpandOut, StepOut,
};

verus! {

/// For a regular file, resolution populates every optional attribute,
/// whatever the dereference policy.
pub proof fn lemma_resolve_file_populates_attributes(
    path: Seq<char>,
    name: Seq<char>,
    node: Node,
    dereference: bool,
)
    requires
        node is File,
    ensures
        ({
            let m = resolve_spec(path, name, node, dereference).meta;
            &&& m.permissions is Some
            &&& m.date is Some
            &&& m.owner is Some
            &&& m.size is Some
            &&& m.inode is Some
            &&& m.links is Some
            &&& m.access_control is Some
            &&& m.file_type == (FileType::File {
                exec_bit: node.spec_attrs().mode & 0o111 != 0,
            })
        }),
{
}

/// For a symlink whose target cannot be resolved, dereferencing
/// resolution degrades the record to identity alone: every optional
/// attribute is absent, while the type and symlink fields still
/// identify it as a broken symlink.
pub proof fn lemma_resolve_broken_link_dereferenced(
    path: Seq<char>,
    name: Seq<char>,
    node: Node,
)
    requires
        node is Symlink,
        node->Symlink_target is Err,
    ensures
        ({
            let r = resolve_spec(path, name, node, true);
            &&& r.meta.permissions is None
            &&& r.meta.date is None
            &&& r.meta.owner is None
            &&& r.meta.size is None
            &&& r.meta.inode is None
            &&& r.meta.links is None
            &&& r.meta.access_control is None
            &&& r.meta.file_type == (FileType::SymLink { is_dir: false })
            &&& r.meta.symlink.target == Some(node->Symlink_target_path@)
            &&& !r.meta.symlink.valid
            &&& r.diag is Some
        }),
{
}

/// The same broken symlink resolved without dereferencing keeps every
/// optional attribute, populated from the link's own metadata: the
/// dereference policy alone decides degradation.
pub proof fn lemma_resolve_broken_link_kept(path: Seq<char>, name: Seq<char>, node: Node)
    requires
        node is Symlink,
        node->Symlink_target is Err,
    ensures
        ({
            let r = resolve_spec(path, name, node, false);
            &&& r.meta.permissions is Some
            &&& r.meta.date is Some
            &&& r.meta.owner is Some
            &&& r.meta.size is Some
            &&& r.meta.inode is Some
            &&& r.meta.links is Some
            &&& r.meta.access_control is Some
            &&& r.meta.file_type == (FileType::SymLink { is_dir: false })
            &&& r.diag is None
        }),
{
}

/// With no remaining depth, expansion returns no children, severity
/// `OK` and no diagnostics, whatever the record, snapshot or flags.
pub proof fn lemma_expand_depth_zero(
    m: MetaView,
    node: Node,
    parent: Option<(Seq<char>, Node)>,
    flags: Flags,
)
    ensures
        expand_spec(m, node, parent, 0, flags) == (ExpandOut::Done {
            content: None,
            code: ExitCode::OK,
            diags: Seq::<DiagView>::empty(),
        }),
{
}

/// Whether expanding a record meets no failure anywhere in reach: the
/// listing opens, every surviving entry resolves, and every recursive
/// expansion is itself clean.
pub open spec fn expand_clean(
    m: MetaView,
    node: Node,
    parent: Option<(Seq<char>, Node)>,
    depth: nat,
    flags: Flags,
) -> bool
    decreases depth, 2nat, 0nat,
{
    if depth == 0 {
        true
    } else if flags.display == Display::DirectoryOnly && flags.layout != Layout::Tree {
        true
    } else if !(m.file_type is Directory
        || (m.file_type == (FileType::SymLink { is_dir: true })
            && flags.layout != Layout::OneLine)) {
        true
    } else {
        match node.spec_listing() {
            Err(_) => false,
            Ok(entries) => {
                let with_pseudo = (flags.display == Display::All
                    || flags.display == Display::SystemProtected)
                    && flags.layout != Layout::Tree;
                if with_pseudo && parent is None {
                    false
                } else {
                    walk_clean(entries, m.path, node, depth, flags)
                }
            }
        }
    }
}

/// Whether processing every entry of `s` meets no failure.
pub open spec fn walk_clean(
    s: Seq<Entry>,
    cur_path: Seq<char>,
    cur_node: Node,
    depth: nat,
    flags: Flags,
) -> bool
    decreases depth, 1nat, s.len(),
{
    if s.len() == 0 {
        true
    } else {
        walk_clean(s.drop_last(), cur_path, cur_node, depth, flags)
            && step_clean(s.last(), cur_path, cur_node, depth, flags)
    }
}

/// Whether processing the single entry `e` meets no failure.
pub open spec fn step_clean(
    e: Entry,
    cur_path: Seq<char>,
    cur_node: Node,
    depth: nat,
    flags: Flags,
) -> bool
    decreases depth, 0nat, 0nat,
{
    if flags.ignore_globs.0.spec_matches(e.name@) {
        true
    } else if spec_filtered_out(e, flags) {
        true
    } else {
        match e.node {
            Err(_) => false,
            Ok(n) => {
                let r = resolve_spec(e.path@, e.name@, n, flags.dereference.0);
                if flags.layout == Layout::Tree && flags.display == Display::DirectoryOnly
                    && !(n is Dir) {
                    true
                } else if flags.dereference.0 || !(r.meta.file_type is SymLink) {
                    if depth == 0 {
                        true
                    } else {
                        expand_clean(r.meta, n, Some((cur_path, cur_node)), (depth - 1) as nat, flags)
                    }
                } else {
                    true
                }
            }
        }
    }
}

/// Severity aggregation is monotonic and bounded: an expansion that
/// completes returns `OK` exactly when no failure was met anywhere in
/// reach — so one failed child resolution already forces at least
/// `MinorIssue` — and never exceeds `MinorIssue`; an aborted expansion
/// is never clean.
pub proof fn lemma_expand_severity(
    m: MetaView,
    node: Node,
    parent: Option<(Seq<char>, Node)>,
    depth: nat,
    flags: Flags,
)
    ensures
        match expand_spec(m, node, parent, depth, flags) {
            ExpandOut::Done { code, .. } => {
                &&& (code == ExitCode::OK <==> expand_clean(m, node, parent, depth, flags))
                &&& code.rank() <= 1
            },
            ExpandOut::Failed { .. } => !expand_clean(m, node, parent, depth, flags),
        },
    decreases depth, 2nat, 0nat,
{
    if depth == 0 {
    } else if flags.display == Display::DirectoryOnly && flags.layout != Layout::Tree {
    } else if !(m.file_type is Directory
        || (m.file_type == (FileType::SymLink { is_dir: true })
            && flags.layout != Layout::OneLine)) {
    } else {
        match node.spec_listing() {
            Err(_) => {}
            Ok(entries) => {
                lemma_walk_severity(entries, m.path, node, depth, flags);
            }
        }
    }
}

/// Severity of a run of entries: `OK` exactly when every entry is
/// clean, and never beyond `MinorIssue`.
pub proof fn lemma_walk_severity(
    s: Seq<Entry>,
    cur_path: Seq<char>,
    cur_node: Node,
    depth: nat,
    flags: Flags,
)
    ensures
        ({
            let w = walk_entries_spec(s, cur_path, cur_node, depth, flags);
            &&& (w.code == ExitCode::OK <==> walk_clean(s, cur_path, cur_node, depth, flags))
            &&& w.code.rank() <= 1
        }),
    decreases depth, 1nat, s.len(),
{
    if s.len() == 0 {
    } else {
        lemma_walk_severity(s.drop_last(), cur_path, cur_node, depth, flags);
        lemma_step_severity(s.last(), cur_path, cur_node, depth, flags);
    }
}

/// Severity of one entry: `OK` exactly when the entry is clean, and
/// never beyond `MinorIssue`.
pub proof fn lemma_step_severity(
    e: Entry,
    cur_path: Seq<char>,
    cur_node: Node,
    depth: nat,
    flags: Flags,
)
    ensures
        ({
            let st = step_spec(e, cur_path, cur_node, depth, flags);
            &&& (st.code == ExitCode::OK <==> step_clean(e, cur_path, cur_node, depth, flags))
            &&& st.code.rank() <= 1
        }),
    decreases depth, 0nat, 0nat,
{
    if flags.ignore_globs.0.spec_matches(e.name@) {
    } else if spec_filtered_out(e, flags) {
    } else {
        match e.node {
            Err(_) => {}
            Ok(n) => {
                let r = resolve_spec(e.path@, e.name@, n, flags.dereference.0);
                if flags.layout == Layout::Tree && flags.display == Display::DirectoryOnly
                    && !(n is Dir) {
                } else if flags.dereference.0 || !(r.meta.file_type is SymLink) {
                    if depth > 0 {
                        lemma_expand_severity(
                            r.meta, n, Some((cur_path, cur_node)), (depth - 1) as nat, flags,
                        );
                    }
                }
            }
        }
    }
}

/// Finalizing a directory whose children were expanded to an empty
/// list leaves it exactly as it stands: its size is its own base size,
/// with no child contribution and no diagnostic.
pub proof fn lemma_finalize_empty_dir(m: MetaView, node: Option<Node>)
    requires
        m.file_type is Directory,
        m.size is Some,
        m.content == Some(Seq::<MetaView>::empty()),
    ensures
        ({
            let f = finalize_spec(m, node);
            f.meta == m && f.diags == Seq::<DiagView>::empty()
        }),
{
}

/// An entry whose name the ignore matcher matches is entirely absent:
/// processing it contributes no record, no severity and no diagnostic.
pub proof fn lemma_ignored_entry_inert(
    e: Entry,
    cur_path: Seq<char>,
    cur_node: Node,
    depth: nat,
    flags: Flags,
)
    requires
        flags.ignore_globs.0.spec_matches(e.name@),
    ensures
        step_spec(e, cur_path, cur_node, depth, flags) == (StepOut {
            metas: Seq::<MetaView>::empty(),
            code: ExitCode::OK,
            diags: Seq::<DiagView>::empty(),
        }),
{
}

/// A run of entries behaves exactly as if an ignored entry did not
/// exist: removing it from the listing changes nothing in the walk.
pub proof fn lemma_ignored_entry_removed(
    s: Seq<Entry>,
    i: int,
    cur_path: Seq<char>,
    cur_node: Node,
    depth: nat,
    flags: Flags,
)
    requires
        0 <= i < s.len(),
        flags.ignore_globs.0.spec_matches(s[i].name@),
    ensures
        walk_entries_spec(s.remove(i), cur_path, cur_node, depth, flags)
            == walk_entries_spec(s, cur_path, cur_node, depth, flags),
    decreases s.len(),
{
    let w = walk_entries_spec(s, cur_path, cur_node, depth, flags);
    if i == s.len() - 1 {
        assert(s.remove(i) =~= s.drop_last());
        lemma_ignored_entry_inert(s[i], cur_path, cur_node, depth, flags);
        let wd = walk_entries_spec(s.drop_last(), cur_path, cur_node, depth, flags);
        assert(wd.metas + Seq::<MetaView>::empty() =~= wd.metas);
        assert(wd.diags + Seq::<DiagView>::empty() =~= wd.diags);
    } else {
        lemma_ignored_entry_removed(s.drop_last(), i, cur_path, cur_node, depth, flags);
        assert(s.remove(i).drop_last() =~= s.drop_last().remove(i));
        assert(s.remove(i).last() == s.last());
    }
}

/// The optional attribute group of a record is populated or absent as
/// a unit, and so is every descendant's.
pub open spec fn tree_attrs_consistent(m: MetaView) -> bool
    decreases m, 0nat,
{
    m.attrs_consistent() && match m.content {
        Some(kids) => trees_attrs_consistent(kids),
        None => true,
    }
}

/// Every record of `s` keeps the attribute-group invariant, descendants
/// included.
pub open spec fn trees_attrs_consistent(s: Seq<MetaView>) -> bool
    decreases s, 1nat,
{
    if s.len() == 0 {
        true
    } else {
        trees_attrs_consistent(s.drop_last()) && tree_attrs_consistent(s.last())
    }
}

/// Resolution always yields a record whose attribute group is populated
/// or absent as a unit, with no children attached.
pub proof fn lemma_resolve_attrs_consistent(
    path: Seq<char>,
    name: Seq<char>,
    node: Node,
    dereference: bool,
)
    ensures
        resolve_spec(path, name, node, dereference).meta.attrs_consistent(),
        resolve_spec(path, name, node, dereference).meta.content is None,
{
}

/// Expansion preserves the attribute-group invariant everywhere: every
/// record of an expanded tree, pseudo-entries included, is populated or
/// degraded as a unit.
pub proof fn lemma_expand_attrs_consistent(
    m: MetaView,
    node: Node,
    parent: Option<(Seq<char>, Node)>,
    depth: nat,
    flags: Flags,
)
    requires
        m.attrs_consistent(),
        m.content is None,
    ensures
        match expand_spec(m, node, parent, depth, flags) {
            ExpandOut::Done { content: Some(kids), .. } => trees_attrs_consistent(kids),
            _ => true,
        },
    decreases depth, 2nat, 0nat,
{
    if depth == 0 {
    } else if flags.display == Display::DirectoryOnly && flags.layout != Layout::Tree {
    } else if !(m.file_type is Directory
        || (m.file_type == (FileType::SymLink { is_dir: true })
            && flags.layout != Layout::OneLine)) {
    } else {
        match node.spec_listing() {
            Err(_) => {}
            Ok(entries) => {
                let with_pseudo = (flags.display == Display::All
                    || flags.display == Display::SystemProtected)
                    && flags.layout != Layout::Tree;
                if with_pseudo && parent is None {
                } else {
                    lemma_walk_attrs_consistent(entries, m.path, node, depth, flags);
                    let w = walk_entries_spec(entries, m.path, node, depth, flags);
                    if with_pseudo {
                        let dot = MetaView {
                            name: crate::attributes::NameView {
                                name: "."@,
                                file_type: m.name.file_type,
                            },
                            ..m
                        };
                        let pair = parent->Some_0;
                        let dd = resolve_spec(pair.0, ".."@, pair.1, false);
                        lemma_trees_attrs_prepend2(dot, dd.meta, w.metas);
                    }
                }
            }
        }
    }
}

/// Two consistent records prepended to a consistent run stay consistent.
proof fn lemma_trees_attrs_prepend2(a: MetaView, b: MetaView, s: Seq<MetaView>)
    requires
        tree_attrs_consistent(a),
        tree_attrs_consistent(b),
        trees_attrs_consistent(s),
    ensures
        trees_attrs_consistent(seq![a, b] + s),
    decreases s,
{
    if s.len() == 0 {
        assert((seq![a, b] + s) =~= seq![a, b]);
        assert(seq![a, b].drop_last() =~= seq![a]);
        assert(seq![a].drop_last() =~= Seq::<MetaView>::empty());
        assert(seq![a, b].last() == b);
        assert(seq![a].last() == a);
        assert(trees_attrs_consistent(Seq::<MetaView>::empty()));
        assert(trees_attrs_consistent(seq![a]));
        assert(trees_attrs_consistent(seq![a, b]));
    } else {
        lemma_trees_attrs_prepend2(a, b, s.drop_last());
        assert((seq![a, b] + s).drop_last() =~= seq![a, b] + s.drop_last());
        assert((seq![a, b] + s).last() == s.last());
    }
}

/// Every record a run of entries produces keeps the invariant.
pub proof fn lemma_walk_attrs_consistent(
    s: Seq<Entry>,
    cur_path: Seq<char>,
    cur_node: Node,
    depth: nat,
    flags: Flags,
)
    ensures
        trees_attrs_consistent(
            walk_entries_spec(s, cur_path, cur_node, depth, flags).metas,
        ),
    decreases depth, 1nat, s.len(),
{
    if s.len() == 0 {
    } else {
        lemma_walk_attrs_consistent(s.drop_last(), cur_path, cur_node, depth, flags);
        lemma_step_attrs_consistent(s.last(), cur_path, cur_node, depth, flags);
        let w = walk_entries_spec(s.drop_last(), cur_path, cur_node, depth, flags);
        let st = step_spec(s.last(), cur_path, cur_node, depth, flags);
        lemma_trees_attrs_concat(w.metas, st.metas);
    }
}

/// Consistent runs stay consistent under concatenation.
proof fn lemma_trees_attrs_concat(a: Seq<MetaView>, b: Seq<MetaView>)
    requires
        trees_attrs_consistent(a),
        trees_attrs_consistent(b),
    ensures
        trees_attrs_consistent(a + b),
    decreases b,
{
    if b.len() == 0 {
        assert(a + b =~= a);
    } else {
        lemma_trees_attrs_concat(a, b.drop_last());
        assert((a + b).drop_last() =~= a + b.drop_last());
        assert((a + b).last() == b.last());
    }
}

/// The records one entry produces keep the invariant.
pub proof fn lemma_step_attrs_consistent(
    e: Entry,
    cur_path: Seq<char>,
    cur_node: Node,
    depth: nat,
    flags: Flags,
)
    ensures
        trees_attrs_consistent(step_spec(e, cur_path, cur_node, depth, flags).metas),
    decreases depth, 0nat, 0nat,
{
    if flags.ignore_globs.0.spec_matches(e.name@) {
    } else if spec_filtered_out(e, flags) {
    } else {
        match e.node {
            Err(_) => {}
            Ok(n) => {
                let r = resolve_spec(e.path@, e.name@, n, flags.dereference.0);
                if flags.layout == Layout::Tree && flags.display == Display::DirectoryOnly
                    && !(n is Dir) {
                } else if flags.dereference.0 || !(r.meta.file_type is SymLink) {
                    lemma_resolve_attrs_consistent(e.path@, e.name@, n, flags.dereference.0);
                    if depth > 0 {
                        lemma_expand_attrs_consistent(
                            r.meta, n, Some((cur_path, cur_node)), (depth - 1) as nat, flags,
                        );
                    }
                    let st = step_spec(e, cur_path, cur_node, depth, flags);
                    assert(trees_attrs_consistent(Seq::<MetaView>::empty()));
                    assert(st.metas.drop_last() =~= Seq::<MetaView>::empty());
                    assert(tree_attrs_consistent(st.metas.last()));
                } else {
                    lemma_resolve_attrs_consistent(e.path@, e.name@, n, flags.dereference.0);
                    let st = step_spec(e, cur_path, cur_node, depth, flags);
                    assert(trees_attrs_consistent(Seq::<MetaView>::empty()));
                    assert(st.metas.drop_last() =~= Seq::<MetaView>::empty());
                    assert(tree_attrs_consistent(st.metas.last()));
                }
            }
        }
    }
}

} // verus!
