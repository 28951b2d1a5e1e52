//! Post-order finalization of cumulative directory sizes.
//!
//! A directory's finalized size is its own base size plus the sum of
//! its finalized children's sizes.  When a directory record carries no
//! children — its expansion was skipped, typically because the depth
//! budget ran out — the sum falls back to a direct walk of the snapshot
//! from that directory, independent of the built tree.  Sums wrap at
//! the integer boundary, as the release-mode additions of a listing
//! tool do.

use vstd::prelude::*;

use crate::attributes::{FileType, Size};
use crate::disk::{Entry, Node};
use crate::exit_code::{dviews, lemma_dviews_concat, DiagView, Diagnostic};
use crate::meta::{lemma_seq_mview_props, lemma_seq_mview_push, mview, seq_mview, Meta, MetaView};

verus! {

/// Value of a fallback size walk: the wrapped byte total and the
/// diagnostics of every failure absorbed along the way.
pub ghost struct SizeOut {
    pub total: u64,
    pub diags: Seq<DiagView>,
}

/// What a fallback walk of the entries `s` adds to the running total
/// `base`: nothing for an unreadable child, the child's own walked
/// total otherwise.
pub open spec fn walk_size_entries_spec(s: Seq<Entry>, base: u64) -> SizeOut
    decreases s,
{
    if s.len() == 0 {
        SizeOut { total: base, diags: Seq::empty() }
    } else {
        let w = walk_size_entries_spec(s.drop_last(), base);
        let e = s.last();
        match e.node {
            Err(m) => SizeOut {
                total: w.total,
                diags: w.diags + seq![DiagView { path: e.path@, message: m@ }],
            },
            Ok(n) => {
                let st = walk_size_spec(n, e.path@);
                SizeOut { total: w.total.wrapping_add(st.total), diags: w.diags + st.diags }
            }
        }
    }
}

/// What a fallback walk of the snapshot `node` at `path` totals: a
/// file's size, a directory's base size plus its walked children —
/// or the base size alone with a diagnostic when the listing cannot be
/// read — and zero for symlinks and special entries, which the walk
/// never follows.
pub open spec fn walk_size_spec(node: Node, path: Seq<char>) -> SizeOut
    decreases node,
{
    match node {
        Node::File { attrs } => SizeOut { total: attrs.size, diags: Seq::empty() },
        Node::Dir { attrs, entries: Err(m) } => SizeOut {
            total: attrs.size,
            diags: seq![DiagView { path: path, message: m@ }],
        },
        Node::Dir { attrs, entries: Ok(es) } => walk_size_entries_spec(es@, attrs.size),
        _ => SizeOut { total: 0, diags: Seq::empty() },
    }
}

/// The first child of the listing of `node` that carries `name` and a
/// readable snapshot; `.` names the node itself.
pub open spec fn find_child_spec(node: Option<Node>, name: Seq<char>) -> Option<Node> {
    match node {
        None => None,
        Some(n) => if name == "."@ {
            Some(n)
        } else {
            match n.spec_listing() {
                Err(_) => None,
                Ok(es) => find_in_entries_spec(es, name),
            }
        },
    }
}

/// The first entry of `s` named `name` whose snapshot is readable.
pub open spec fn find_in_entries_spec(s: Seq<Entry>, name: Seq<char>) -> Option<Node>
    decreases s.len(),
{
    if s.len() == 0 {
        None
    } else if s.first().name@ == name && s.first().node is Ok {
        Some(s.first().node->Ok_0)
    } else {
        find_in_entries_spec(s.drop_first(), name)
    }
}

/// The finalized size of a record: the wrapped contribution a record
/// makes to its parent's total.
pub open spec fn size_or_zero(m: MetaView) -> u64 {
    match m.size {
        Some(s) => s.bytes,
        None => 0,
    }
}

/// Value of one size finalization: the rewritten record and the
/// diagnostics of the fallback walks it ran.
pub ghost struct FinOut {
    pub meta: MetaView,
    pub diags: Seq<DiagView>,
}

/// Accumulated value of finalizing the children `s` in order, each
/// against the child of `node` that carries its name, starting the
/// size sum at `base`.
pub ghost struct FinKids {
    pub kids: Seq<MetaView>,
    pub sum: u64,
    pub diags: Seq<DiagView>,
}

pub open spec fn fin_kids_spec(s: Seq<MetaView>, node: Option<Node>, base: u64) -> FinKids
    decreases s,
{
    if s.len() == 0 {
        FinKids { kids: Seq::empty(), sum: base, diags: Seq::empty() }
    } else {
        let w = fin_kids_spec(s.drop_last(), node, base);
        let k = s.last();
        let f = finalize_spec(k, find_child_spec(node, k.name.name));
        FinKids {
            kids: w.kids.push(f.meta),
            sum: w.sum.wrapping_add(size_or_zero(f.meta)),
            diags: w.diags + f.diags,
        }
    }
}

/// What finalizing the record `m` against its snapshot yields.
///
/// A record without a size attribute, or one that is not a directory,
/// stands unchanged.  A directory with children has them finalized
/// first and its size rewritten to its base size plus their sum.  A
/// directory without children takes its total from a fallback walk of
/// `node`; without a snapshot to walk, its size degrades to zero with
/// a diagnostic, as a walk whose first step fails reports.
pub open spec fn finalize_spec(m: MetaView, node: Option<Node>) -> FinOut
    decreases m,
{
    if m.size is None {
        FinOut { meta: m, diags: Seq::empty() }
    } else if !(m.file_type is Directory) {
        FinOut { meta: m, diags: Seq::empty() }
    } else {
        match m.content {
            Some(children) => {
                let k = fin_kids_spec(children, node, m.size->Some_0.bytes);
                FinOut {
                    meta: MetaView {
                        size: Some(Size { bytes: k.sum }),
                        content: Some(k.kids),
                        ..m
                    },
                    diags: k.diags,
                }
            }
            None => match node {
                Some(n) => {
                    let w = walk_size_spec(n, m.path);
                    FinOut {
                        meta: MetaView { size: Some(Size { bytes: w.total }), ..m },
                        diags: w.diags,
                    }
                }
                None => FinOut {
                    meta: MetaView { size: Some(Size { bytes: 0 }), ..m },
                    diags: seq![
                        DiagView { path: m.path, message: "not in the snapshot"@ },
                    ],
                },
            },
        }
    }
}

/// The value of an optional snapshot reference.
pub open spec fn spec_opt_node(node: Option<&Node>) -> Option<Node> {
    match node {
        Some(n) => Some(*n),
        None => None,
    }
}

/// The first child of `node`'s listing that carries `name` and a
/// readable snapshot, `.` naming the node itself.
#[verifier::loop_isolation(false)]
fn find_child<'a>(node: Option<&'a Node>, name: &String) -> (r: Option<&'a Node>)
    ensures
        match r {
            Some(n) => find_child_spec(spec_opt_node(node), name@) == Some(*n),
            None => find_child_spec(spec_opt_node(node), name@) is None,
        },
{
    match node {
        None => None,
        Some(n) => {
            if name.eq(&".".to_owned()) {
                return Some(n);
            }
            let entries = match n.listing() {
                Err(_) => {
                    return None;
                }
                Ok(es) => es,
            };
            let ghost es = entries@;
            let count = entries.len();
            let mut i: usize = 0;
            proof {
                assert(es.skip(0) =~= es);
            }
            while i < count
                invariant
                    count == es.len(),
                    0 <= i <= count,
                    entries@ == es,
                    find_in_entries_spec(es, name@) == find_in_entries_spec(
                        es.skip(i as int), name@,
                    ),
                decreases count - i,
            {
                proof {
                    assert(es.skip(i as int).first() == es[i as int]);
                    assert(es.skip(i as int).drop_first() =~= es.skip(i as int + 1));
                }
                let e = &entries[i];
                if e.name.eq(name) {
                    match &e.node {
                        Ok(child) => {
                            return Some(child);
                        }
                        Err(_) => {}
                    }
                }
                i = i + 1;
            }
            proof {
                assert(es.skip(count as int) =~= Seq::<Entry>::empty());
            }
            None
        }
    }
}

impl Meta {
    /// Walks the snapshot `node` at `path` and totals the sizes of the
    /// regular files and directories under it, wrapping at the integer
    /// boundary; every failure along the way is appended to `diags` and
    /// its subtree contributes nothing.
    #[verifier::loop_isolation(false)]
    pub fn calculate_total_file_size(node: &Node, path: &String, diags: &mut Vec<Diagnostic>)
        -> (r: u64)
        ensures
            ({
                let w = walk_size_spec(*node, path@);
                r == w.total && dviews(final(diags)@) == dviews(old(diags)@) + w.diags
            }),
        decreases *node,
    {
        match node {
            Node::File { attrs } => {
                proof {
                    assert(dviews(diags@) =~= dviews(diags@) + Seq::<DiagView>::empty());
                }
                attrs.size
            }
            Node::Dir { attrs, entries: Err(m) } => {
                let ghost dpre = diags@;
                diags.push(Diagnostic { path: path.clone(), message: m.clone() });
                proof {
                    assert(dviews(diags@) =~= dviews(dpre)
                        + seq![DiagView { path: path@, message: m@ }]);
                }
                attrs.size
            }
            Node::Dir { attrs, entries: Ok(es) } => {
                let ghost entries = es@;
                let ghost dpre = dviews(diags@);
                let mut total: u64 = attrs.size;
                let count = es.len();
                let mut i: usize = 0;
                proof {
                    assert(entries.take(0) =~= Seq::<Entry>::empty());
                    assert(dviews(diags@) =~= dpre + Seq::<DiagView>::empty());
                }
                while i < count
                    invariant
                        count == entries.len(),
                        0 <= i <= count,
                        es@ == entries,
                        ({
                            let w = walk_size_entries_spec(entries.take(i as int), attrs.size);
                            total == w.total && dviews(diags@) == dpre + w.diags
                        }),
                    decreases count - i,
                {
                    proof {
                        assert(entries.take(i as int + 1).drop_last() =~= entries.take(i as int));
                        assert(entries.take(i as int + 1).last() == entries[i as int]);
                    }
                    let e = &es[i];
                    match &e.node {
                        Err(m) => {
                            let ghost dmid = diags@;
                            diags.push(Diagnostic { path: e.path.clone(), message: m.clone() });
                            proof {
                                assert(dviews(diags@) =~= dviews(dmid)
                                    + seq![DiagView { path: e.path@, message: m@ }]);
                            }
                        }
                        Ok(n) => {
                            proof {
                                let nv = *node;
                                assert(decreases_to!(nv => nv->Dir_entries));
                                assert(decreases_to!(nv->Dir_entries => nv->Dir_entries->Ok_0));
                                assert(decreases_to!(nv->Dir_entries->Ok_0 => nv->Dir_entries->Ok_0@));
                                assert(nv->Dir_entries->Ok_0@ == entries);
                                assert(decreases_to!(entries => entries[i as int]));
                                assert(decreases_to!(entries[i as int] => entries[i as int].node));
                                assert(decreases_to!(
                                    entries[i as int].node => entries[i as int].node->Ok_0
                                ));
                                assert(*n == entries[i as int].node->Ok_0);
                                assert(decreases_to!(nv => *n));
                            }
                            let sub = Meta::calculate_total_file_size(n, &e.path, diags);
                            total = total.wrapping_add(sub);
                        }
                    }
                    i = i + 1;
                }
                proof {
                    assert(entries.take(count as int) =~= entries);
                }
                total
            }
            _ => {
                proof {
                    assert(dviews(diags@) =~= dviews(diags@) + Seq::<DiagView>::empty());
                }
                0
            }
        }
    }

    /// Rewrites this record's size post-order: a directory's size
    /// becomes its base size plus the sum of its finalized children's
    /// sizes, with a fallback walk of `node` when the children were
    /// never expanded.  Records without a size attribute — broken-link
    /// records — and non-directories stand as resolved.  Returns the
    /// diagnostics of every failure the fallback walks absorbed.
    #[verifier::loop_isolation(false)]
    pub fn calculate_total_size(&mut self, node: Option<&Node>) -> (r: Vec<Diagnostic>)
        ensures
            ({
                let f = finalize_spec(mview(*old(self)), spec_opt_node(node));
                mview(*final(self)) == f.meta && dviews(r@) == f.diags
            }),
        decreases *old(self),
    {
        let mut diags: Vec<Diagnostic> = Vec::new();
        proof {
            assert(dviews(Seq::<Diagnostic>::empty()) =~= Seq::<DiagView>::empty());
        }
        if self.size.is_none() {
            return diags;
        }
        if !matches!(self.file_type, FileType::Directory) {
            return diags;
        }
        let base: u64 = match &self.size {
            Some(s) => s.get_bytes(),
            None => 0,
        };
        let has_content = self.content.is_some();
        if has_content {
            let ghost ov = *old(self);
            let ghost m0 = mview(*self);
            let ghost kids0 = m0.content->Some_0;
            let ghost nodev = spec_opt_node(node);
            let mut acc: u64 = base;
            match &mut self.content {
                Some(metas) => {
                    let ghost kseq = metas@;
                    proof {
                        lemma_seq_mview_props(kseq);
                        assert(seq_mview(kseq) == kids0);
                    }
                    let count = metas.len();
                    let mut i: usize = 0;
                    proof {
                        assert(kids0.take(0) =~= Seq::<MetaView>::empty());
                        assert(metas@.take(0) =~= Seq::<Meta>::empty());
                        assert(seq_mview(Seq::<Meta>::empty()) == Seq::<MetaView>::empty());
                        assert(dviews(diags@) =~= Seq::<DiagView>::empty());
                    }
                    while i < count
                        invariant
                            count == metas@.len(),
                            0 <= i <= count,
                            kids0 == seq_mview(kseq),
                            kids0.len() == count,
                            kseq.len() == count,
                            forall|j: int| i <= j < count ==> metas@[j] == kseq[j],
                            ov.content == Some(ov.content->Some_0),
                            kseq == ov.content->Some_0@,
                            ({
                                let k = fin_kids_spec(kids0.take(i as int), nodev, base);
                                &&& seq_mview(metas@.take(i as int)) == k.kids
                                &&& acc == k.sum
                                &&& dviews(diags@) == k.diags
                            }),
                        decreases count - i,
                    {
                        let ghost k_pre = fin_kids_spec(kids0.take(i as int), nodev, base);
                        proof {
                            lemma_seq_mview_props(kseq);
                            assert(kids0.take(i as int + 1).drop_last() =~= kids0.take(i as int));
                            assert(kids0.take(i as int + 1).last() == kids0[i as int]);
                            assert(metas@[i as int] == kseq[i as int]);
                            assert(mview(kseq[i as int]) == kids0[i as int]);
                        }
                        let ghost k_post = fin_kids_spec(kids0.take(i as int + 1), nodev, base);
                        let ghost mpre = metas@;
                        let ghost dpre = diags@;
                        let child = &mut metas[i];
                        proof {
                            assert(decreases_to!(ov => ov.content));
                            assert(decreases_to!(ov.content => ov.content->Some_0));
                            assert(decreases_to!(ov.content->Some_0 => ov.content->Some_0@));
                            assert(decreases_to!(
                                ov.content->Some_0@ => ov.content->Some_0@[i as int]
                            ));
                            assert(*child == ov.content->Some_0@[i as int]);
                            assert(decreases_to!(ov => *child));
                        }
                        let child_node = find_child(node, &child.name.name);
                        let mut ds = child.calculate_total_size(child_node);
                        acc = acc.wrapping_add(match &child.size {
                            Some(sz) => sz.get_bytes(),
                            None => 0,
                        });
                        proof {
                            let f = finalize_spec(
                                kids0[i as int],
                                find_child_spec(nodev, kids0[i as int].name.name),
                            );
                            assert(spec_opt_node(child_node) == find_child_spec(
                                nodev, kids0[i as int].name.name,
                            ));
                            assert(mview(*child) == f.meta);
                            assert(k_post.kids == k_pre.kids.push(f.meta));
                            assert(mview(*child) == k_post.kids.last());
                            assert(acc == k_post.sum);
                        }
                        diags.append(&mut ds);
                        proof {
                            lemma_dviews_concat(dpre, ds@);
                        }
                        i = i + 1;
                        proof {
                            assert(metas@ =~= mpre.update(i - 1, *child));
                            assert(metas@.take(i as int) =~= mpre.take(i as int - 1).push(*child));
                            assert(seq_mview(mpre.take(i as int - 1)) == k_pre.kids);
                            lemma_seq_mview_push(mpre.take(i as int - 1), *child);
                            assert(seq_mview(metas@.take(i as int)) == k_post.kids);
                            assert(forall|j: int| i <= j < count ==> metas@[j] == kseq[j]);
                            assert(dviews(diags@) == k_post.diags);
                            assert(acc == k_post.sum);
                        }
                    }
                    proof {
                        assert(kids0.take(count as int) =~= kids0);
                        assert(metas@.take(count as int) =~= metas@);
                    }
                }
                None => {
                    proof {
                        assert(false);
                    }
                }
            }
            self.size = Some(Size::new(acc));
            proof {
                let k = fin_kids_spec(kids0, nodev, base);
                assert(mview(*self) == (MetaView {
                    size: Some(Size { bytes: k.sum }),
                    content: Some(k.kids),
                    ..m0
                }));
            }
            diags
        } else {
            match node {
                Some(n) => {
                    let total = Meta::calculate_total_file_size(n, &self.path, &mut diags);
                    self.size = Some(Size::new(total));
                    diags
                }
                None => {
                    diags.push(Diagnostic {
                        path: self.path.clone(),
                        message: "not in the snapshot".to_owned(),
                    });
                    self.size = Some(Size::new(0));
                    proof {
                        assert(dviews(diags@) =~= seq![
                            DiagView { path: mview(*old(self)).path, message: "not in the snapshot"@ },
                        ]);
                    }
                    diags
                }
            }
        }
    }
}

} // verus!
