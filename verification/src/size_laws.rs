//! The two size paths agree: for a snapshot of plain files and
//! directories, finalizing a depth-truncated directory record through
//! the fallback walk yields the same total as fully expanding the
//! record first and aggregating its children's finalized sizes.

use vstd::prelude::*;

use crate::attributes::Size;
use crate::disk::{Entry, Node};
use crate::exit_code::{DiagView, ExitCode};
use crate::flags::{Display, Flags, Layout};
use crate::meta::{resolve_spec, MetaView};
use crate::sizes::{
    fin_kids_spec, finalize_spec, find_child_spec, find_in_entries_spec, size_or_zero,
    walk_size_entries_spec, walk_size_spec,
};
use crate::walk::{expand_spec, step_spec, walk_entries_spec, ExpandOut};

verus! {

/// Names within one listing are pairwise distinct.
pub open spec fn distinct_names(s: Seq<Entry>) -> bool {
    forall|i: int, j: int| 0 <= i < j < s.len() ==> s[i].name@ != s[j].name@
}

/// No entry of the listing is named `.`.
pub open spec fn no_dot(s: Seq<Entry>) -> bool {
    forall|i: int| 0 <= i < s.len() ==> s[i].name@ != "."@
}

/// A snapshot of regular files and directories alone: every listing
/// readable with distinct, never-`.` names, every entry resolvable,
/// and no symlinks or special entries anywhere.
pub open spec fn plain_node(node: Node) -> bool
    decreases node,
{
    match node {
        Node::File { .. } => true,
        Node::Dir { entries: Ok(es), .. } => distinct_names(es@) && no_dot(es@)
            && plain_entries(es@),
        _ => false,
    }
}

/// Every entry of `s` is resolvable and plain.
pub open spec fn plain_entries(s: Seq<Entry>) -> bool
    decreases s,
{
    if s.len() == 0 {
        true
    } else {
        plain_entries(s.drop_last()) && s.last().node is Ok
            && plain_node(s.last().node->Ok_0)
    }
}

/// Nesting depth of a snapshot: what the depth budget must cover for
/// an expansion to reach every entry.
pub open spec fn node_height(node: Node) -> nat
    decreases node,
{
    match node {
        Node::Dir { entries: Ok(es), .. } => 1 + entries_height(es@),
        Node::Dir { entries: Err(_), .. } => 1,
        _ => 0,
    }
}

/// The greatest nesting depth among the entries of `s`.
pub open spec fn entries_height(s: Seq<Entry>) -> nat
    decreases s,
{
    if s.len() == 0 {
        0
    } else {
        let rest = entries_height(s.drop_last());
        let last = match s.last().node {
            Ok(n) => node_height(n),
            Err(_) => 0,
        };
        if last > rest {
            last
        } else {
            rest
        }
    }
}

/// Flags under which an expansion keeps every entry and adds none: a
/// tree layout — so no `.`/`..` pseudo-entries — showing every entry,
/// with nothing ignored.
pub open spec fn plain_flags(flags: Flags) -> bool {
    &&& flags.layout == Layout::Tree
    &&& flags.display == Display::SystemProtected
    &&& flags.ignore_globs.0.names@.len() == 0
}

/// Every entry of a plain listing is resolvable, plain, and no taller
/// than the listing's height.
proof fn lemma_plain_entries_index(s: Seq<Entry>, i: int)
    requires
        plain_entries(s),
        0 <= i < s.len(),
    ensures
        s[i].node is Ok,
        plain_node(s[i].node->Ok_0),
        node_height(s[i].node->Ok_0) <= entries_height(s),
    decreases s,
{
    if i == s.len() - 1 {
    } else {
        lemma_plain_entries_index(s.drop_last(), i);
    }
}

/// In a listing with distinct names, looking an entry's name up finds
/// that entry.
proof fn lemma_find_named(s: Seq<Entry>, i: int)
    requires
        distinct_names(s),
        0 <= i < s.len(),
        s[i].node is Ok,
    ensures
        find_in_entries_spec(s, s[i].name@) == Some(s[i].node->Ok_0),
    decreases i,
{
    if i == 0 {
    } else {
        assert(s.first().name@ != s[i].name@);
        assert(distinct_names(s.drop_first())) by {
            assert(forall|p: int, q: int|
                0 <= p < q < s.drop_first().len() ==> s.drop_first()[p].name@
                    != s.drop_first()[q].name@);
        }
        assert(s.drop_first()[i - 1] == s[i]);
        lemma_find_named(s.drop_first(), i - 1);
    }
}

/// Expanding a plain snapshot under plain flags and a sufficient depth
/// budget succeeds cleanly, and finalizing the result gives exactly
/// the total a fallback walk of the same snapshot gives, with no
/// diagnostics on either path.
pub proof fn lemma_plain_expand_finalize(
    path: Seq<char>,
    name: Seq<char>,
    node: Node,
    parent: Option<(Seq<char>, Node)>,
    depth: nat,
    flags: Flags,
)
    requires
        plain_node(node),
        plain_flags(flags),
        depth >= node_height(node),
    ensures
        ({
            let r = resolve_spec(path, name, node, flags.dereference.0).meta;
            let e = expand_spec(r, node, parent, depth, flags);
            let w = walk_size_spec(node, path);
            let f = finalize_spec(
                MetaView { content: e->Done_content, ..r },
                Some(node),
            );
            &&& e is Done
            &&& e->Done_code == ExitCode::OK
            &&& e->Done_diags == Seq::<DiagView>::empty()
            &&& (node is Dir ==> e->Done_content is Some)
            &&& (node is File ==> e->Done_content is None)
            &&& f.meta.size == Some(Size { bytes: w.total })
            &&& f.diags == Seq::<DiagView>::empty()
            &&& w.diags == Seq::<DiagView>::empty()
            &&& size_or_zero(f.meta) == w.total
        }),
    decreases node, 2nat, 0nat,
{
    let r = resolve_spec(path, name, node, flags.dereference.0).meta;
    match node {
        Node::File { attrs } => {
            let e = expand_spec(r, node, parent, depth, flags);
            assert(e == (ExpandOut::Done {
                content: None,
                code: ExitCode::OK,
                diags: Seq::<DiagView>::empty(),
            }));
            assert(MetaView { content: e->Done_content, ..r } == r);
        }
        Node::Dir { attrs, entries: Ok(es) } => {
            lemma_plain_entries_fold(
                es@, es@.len() as int, path, node, depth, flags, attrs.size,
            );
            let w = walk_entries_spec(es@.take(es@.len() as int), path, node, depth, flags);
            assert(es@.take(es@.len() as int) =~= es@);
            let e = expand_spec(r, node, parent, depth, flags);
            assert(node.spec_listing() == Ok::<Seq<Entry>, Seq<char>>(es@));
            assert(e == (ExpandOut::Done {
                content: Some(w.metas),
                code: w.code,
                diags: w.diags,
            }));
        }
        _ => {
            assert(false);
        }
    }
}

/// Folding a prefix of a plain listing: the expansion of the prefix is
/// clean, and finalizing the records it built — each against the child
/// of `cur_node` that carries its name — sums to exactly what the
/// fallback walk of the same prefix sums to, from the same base.
proof fn lemma_plain_entries_fold(
    es: Seq<Entry>,
    k: int,
    cur_path: Seq<char>,
    cur_node: Node,
    depth: nat,
    flags: Flags,
    base: u64,
)
    requires
        plain_entries(es),
        distinct_names(es),
        no_dot(es),
        plain_flags(flags),
        0 <= k <= es.len(),
        cur_node.spec_listing() == Ok::<Seq<Entry>, Seq<char>>(es),
        depth >= 1 + entries_height(es),
    ensures
        ({
            let w = walk_entries_spec(es.take(k), cur_path, cur_node, depth, flags);
            let z = walk_size_entries_spec(es.take(k), base);
            let fk = fin_kids_spec(w.metas, Some(cur_node), base);
            &&& w.code == ExitCode::OK
            &&& w.diags == Seq::<DiagView>::empty()
            &&& z.diags == Seq::<DiagView>::empty()
            &&& fk.sum == z.total
            &&& fk.diags == Seq::<DiagView>::empty()
            &&& w.metas.len() == k
        }),
    decreases es, 1nat, k,
{
    if k == 0 {
        assert(es.take(0) =~= Seq::<Entry>::empty());
    } else {
        lemma_plain_entries_fold(es, k - 1, cur_path, cur_node, depth, flags, base);
        lemma_plain_entries_index(es, k - 1);
        assert(es.take(k).drop_last() =~= es.take(k - 1));
        assert(es.take(k).last() == es[k - 1]);
        let e = es[k - 1];
        let n = e.node->Ok_0;
        let w_pre = walk_entries_spec(es.take(k - 1), cur_path, cur_node, depth, flags);
        let z_pre = walk_size_entries_spec(es.take(k - 1), base);
        let st = step_spec(e, cur_path, cur_node, depth, flags);
        let r = resolve_spec(e.path@, e.name@, n, flags.dereference.0);
        assert(!flags.ignore_globs.0.spec_matches(e.name@));
        lemma_plain_expand_finalize(
            e.path@, e.name@, n, Some((cur_path, cur_node)), (depth - 1) as nat, flags,
        );
        let rec = expand_spec(
            r.meta, n, Some((cur_path, cur_node)), (depth - 1) as nat, flags,
        );
        let kid = MetaView { content: rec->Done_content, ..r.meta };
        assert(st.metas =~= seq![kid]);
        assert(st.code == ExitCode::OK);
        assert(st.diags =~= Seq::<DiagView>::empty());
        let w = walk_entries_spec(es.take(k), cur_path, cur_node, depth, flags);
        assert(w.metas == w_pre.metas + st.metas);
        assert(w.diags =~= Seq::<DiagView>::empty());
        assert(w.metas.drop_last() =~= w_pre.metas);
        assert(w.metas.last() == kid);
        let fk_pre = fin_kids_spec(w_pre.metas, Some(cur_node), base);
        let fk = fin_kids_spec(w.metas, Some(cur_node), base);
        assert(kid.name.name == e.name@);
        lemma_find_named(es, k - 1);
        assert(find_child_spec(Some(cur_node), kid.name.name) == Some(n));
        let f = finalize_spec(kid, Some(n));
        let wz = walk_size_spec(n, e.path@);
        assert(size_or_zero(f.meta) == wz.total);
        assert(f.diags == Seq::<DiagView>::empty());
        assert(fk.sum == fk_pre.sum.wrapping_add(wz.total));
        assert(fk.diags =~= Seq::<DiagView>::empty());
        let z = walk_size_entries_spec(es.take(k), base);
        assert(z.total == z_pre.total.wrapping_add(wz.total));
        assert(z.diags =~= Seq::<DiagView>::empty());
    }
}

/// The two size paths agree: for a plain directory snapshot, a
/// depth-truncated record finalized through the fallback walk carries
/// the same size as the record fully expanded first and finalized
/// through child aggregation — and both paths report no failure.
pub proof fn lemma_truncated_and_expanded_sizes_agree(
    path: Seq<char>,
    name: Seq<char>,
    node: Node,
    parent: Option<(Seq<char>, Node)>,
    depth: nat,
    flags: Flags,
)
    requires
        plain_node(node),
        node is Dir,
        plain_flags(flags),
        depth >= node_height(node),
    ensures
        ({
            let r = resolve_spec(path, name, node, flags.dereference.0).meta;
            let truncated = finalize_spec(r, Some(node));
            let e = expand_spec(r, node, parent, depth, flags);
            let full = finalize_spec(
                MetaView { content: e->Done_content, ..r },
                Some(node),
            );
            &&& e is Done
            &&& e->Done_code == ExitCode::OK
            &&& truncated.meta.size == full.meta.size
            &&& truncated.meta.size == Some(Size {
                bytes: walk_size_spec(node, path).total,
            })
            &&& truncated.diags == Seq::<DiagView>::empty()
            &&& full.diags == Seq::<DiagView>::empty()
        }),
{
    lemma_plain_expand_finalize(path, name, node, parent, depth, flags);
}

} // verus!
