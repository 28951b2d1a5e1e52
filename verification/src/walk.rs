//! Recursive expansion of a directory record into resolved children,
//! under depth limits, display filters, ignore rules and dereference
//! policy, with per-entry failures aggregated into one severity.

use vstd::prelude::*;

use crate::attributes::{FileType, Name, NameView, Owner, SymLink};
use crate::disk::{Entry, Node};
use crate::exit_code::{dviews, lemma_dviews_concat, lemma_dviews_push, DiagView, Diagnostic, ExitCode};
use crate::flags::{Display, Flags, Layout};
use crate::meta::{lemma_seq_mview2, lemma_seq_mview_push, mview, resolve_spec, seq_mview, Meta, MetaView};

verus! {

/// Error that aborts one expansion: the record whose parent was needed
/// for a `..` pseudo-entry but could not be resolved.  A caller catches
/// it, reports it, and degrades the child to a childless record.
#[derive(Debug)]
pub struct WalkError {
    pub path: String,
    pub message: String,
}

/// Value of one expansion outcome.
pub ghost enum ExpandOut {
    /// `content` is `None` when the record was not eligible for
    /// expansion, `Some` with the children once it was expanded.
    Done { content: Option<Seq<MetaView>>, code: ExitCode, diags: Seq<DiagView> },
    /// The expansion was aborted.
    Failed { path: Seq<char>, message: Seq<char> },
}

/// Value of processing a run of directory entries: the records kept, the
/// aggregated severity, and the diagnostics in order of discovery.
pub ghost struct StepOut {
    pub metas: Seq<MetaView>,
    pub code: ExitCode,
    pub diags: Seq<DiagView>,
}

/// Whether the display filter drops a directory entry before it is
/// resolved: system-protected entries unless every entry is shown, and
/// hidden ones in the visible-only mode.
pub open spec fn spec_filtered_out(e: Entry, flags: Flags) -> bool {
    ||| ((flags.display == Display::All || flags.display == Display::AlmostAll) && e.system)
    ||| (flags.display == Display::VisibleOnly && (e.hidden || e.system))
}

/// What processing the single directory entry `e` of the record at
/// `cur_path` / `cur_node` contributes: nothing for an ignored or
/// filtered entry, a diagnostic and `MinorIssue` for one that could not
/// be resolved, and otherwise the resolved record, expanded recursively
/// when the dereference gate allows it.
pub open spec fn step_spec(e: Entry, cur_path: Seq<char>, cur_node: Node, depth: nat, flags: Flags)
    -> StepOut
    decreases depth, 0nat, 0nat,
{
    if flags.ignore_globs.0.spec_matches(e.name@) {
        StepOut { metas: Seq::empty(), code: ExitCode::OK, diags: Seq::empty() }
    } else if spec_filtered_out(e, flags) {
        StepOut { metas: Seq::empty(), code: ExitCode::OK, diags: Seq::empty() }
    } else {
        match e.node {
            Err(m) => StepOut {
                metas: Seq::empty(),
                code: ExitCode::MinorIssue,
                diags: seq![DiagView { path: e.path@, message: m@ }],
            },
            Ok(n) => {
                let r = resolve_spec(e.path@, e.name@, n, flags.dereference.0);
                let d0 = match r.diag {
                    Some(d) => seq![d],
                    None => Seq::empty(),
                };
                if flags.layout == Layout::Tree && flags.display == Display::DirectoryOnly
                    && !(n is Dir) {
                    StepOut { metas: Seq::empty(), code: ExitCode::OK, diags: d0 }
                } else if flags.dereference.0 || !(r.meta.file_type is SymLink) {
                    let rec = if depth == 0 {
                        ExpandOut::Done { content: None, code: ExitCode::OK, diags: Seq::empty() }
                    } else {
                        expand_spec(r.meta, n, Some((cur_path, cur_node)), (depth - 1) as nat, flags)
                    };
                    match rec {
                        ExpandOut::Done { content, code, diags } => StepOut {
                            metas: seq![MetaView { content: content, ..r.meta }],
                            code: code,
                            diags: d0 + diags,
                        },
                        ExpandOut::Failed { path: _, message } => StepOut {
                            metas: seq![r.meta],
                            code: ExitCode::MinorIssue,
                            diags: d0 + seq![DiagView { path: e.path@, message: message }],
                        },
                    }
                } else {
                    StepOut { metas: seq![r.meta], code: ExitCode::OK, diags: d0 }
                }
            }
        }
    }
}

/// What processing the entries `s` in order contributes, entry by entry.
pub open spec fn walk_entries_spec(
    s: Seq<Entry>,
    cur_path: Seq<char>,
    cur_node: Node,
    depth: nat,
    flags: Flags,
) -> StepOut
    decreases depth, 1nat, s.len(),
{
    if s.len() == 0 {
        StepOut { metas: Seq::empty(), code: ExitCode::OK, diags: Seq::empty() }
    } else {
        let w = walk_entries_spec(s.drop_last(), cur_path, cur_node, depth, flags);
        let st = step_spec(s.last(), cur_path, cur_node, depth, flags);
        StepOut {
            metas: w.metas + st.metas,
            code: w.code.spec_max(st.code),
            diags: w.diags + st.diags,
        }
    }
}

/// What expanding the record `m`, whose snapshot is `node`, yields.
///
/// No expansion happens when the depth budget is spent, when a flat
/// directory-only view is requested, or when the record is neither a
/// directory nor a followed directory symlink outside single-line
/// layout.  A listing failure yields a childless outcome with
/// `MinorIssue`.  Otherwise the children are the `.` and `..`
/// pseudo-entries, when the show-all modes outside tree layout call for
/// them, followed by the processed directory entries; `parent` supplies
/// the path and snapshot that resolve `..`, always without
/// dereferencing.
pub open spec fn expand_spec(
    m: MetaView,
    node: Node,
    parent: Option<(Seq<char>, Node)>,
    depth: nat,
    flags: Flags,
) -> ExpandOut
    decreases depth, 2nat, 0nat,
{
    if depth == 0 {
        ExpandOut::Done { content: None, code: ExitCode::OK, diags: Seq::empty() }
    } else if flags.display == Display::DirectoryOnly && flags.layout != Layout::Tree {
        ExpandOut::Done { content: None, code: ExitCode::OK, diags: Seq::empty() }
    } else if !(m.file_type is Directory
        || (m.file_type == (FileType::SymLink { is_dir: true })
            && flags.layout != Layout::OneLine)) {
        ExpandOut::Done { content: None, code: ExitCode::OK, diags: Seq::empty() }
    } else {
        match node.spec_listing() {
            Err(msg) => ExpandOut::Done {
                content: None,
                code: ExitCode::MinorIssue,
                diags: seq![DiagView { path: m.path, message: msg }],
            },
            Ok(entries) => {
                let with_pseudo = (flags.display == Display::All
                    || flags.display == Display::SystemProtected)
                    && flags.layout != Layout::Tree;
                if with_pseudo && parent is None {
                    ExpandOut::Failed {
                        path: m.path,
                        message: "cannot resolve the parent directory"@,
                    }
                } else {
                    let w = walk_entries_spec(entries, m.path, node, depth, flags);
                    if with_pseudo {
                        let dot = MetaView {
                            name: NameView { name: "."@, file_type: m.name.file_type },
                            ..m
                        };
                        let pair = parent->Some_0;
                        let dd = resolve_spec(pair.0, ".."@, pair.1, false);
                        let dd_diags = match dd.diag {
                            Some(d) => seq![d],
                            None => Seq::empty(),
                        };
                        ExpandOut::Done {
                            content: Some(seq![dot, dd.meta] + w.metas),
                            code: w.code,
                            diags: dd_diags + w.diags,
                        }
                    } else {
                        ExpandOut::Done {
                            content: Some(w.metas),
                            code: w.code,
                            diags: w.diags,
                        }
                    }
                }
            }
        }
    }
}

/// Value of the parent reference handed to an expansion.
pub open spec fn spec_parent(p: Option<(&String, &Node)>) -> Option<(Seq<char>, Node)> {
    match p {
        Some((s, n)) => Some((s@, *n)),
        None => None,
    }
}

impl Meta {
    /// Expands this record's children from the snapshot `node`, to at
    /// most `depth` further levels, under `flags`.
    ///
    /// Returns the children (or `None` when the record was not expanded),
    /// the aggregated severity — `OK` exactly when every reachable entry
    /// was listed, resolved and recursed without failure — and the
    /// diagnostics for every absorbed failure, in order of discovery.
    /// `parent` gives the path and snapshot of the record's parent
    /// directory, which resolve the `..` pseudo-entry when the show-all
    /// modes outside tree layout call for it; an expansion that needs it
    /// without having it is the one aborted outcome.
    pub fn recurse_into(
        &self,
        node: &Node,
        parent: Option<(&String, &Node)>,
        depth: usize,
        flags: &Flags,
    ) -> (r: Result<(Option<Vec<Meta>>, ExitCode, Vec<Diagnostic>), WalkError>)
        requires
            self.content is None,
        ensures
            ({
                let out = expand_spec(mview(*self), *node, spec_parent(parent), depth as nat, *flags);
                match r {
                    Ok(t) => out == (ExpandOut::Done {
                        content: match t.0 {
                            Some(v) => Some(seq_mview(v@)),
                            None => None::<Seq<MetaView>>,
                        },
                        code: t.1,
                        diags: dviews(t.2@),
                    }),
                    Err(e) => out == (ExpandOut::Failed { path: e.path@, message: e.message@ }),
                }
            }),
        decreases depth,
    {
        let ghost m = mview(*self);
        proof {
            assert(dviews(Seq::<Diagnostic>::empty()) =~= Seq::<DiagView>::empty());
        }
        if depth == 0 {
            return Ok((None, ExitCode::OK, Vec::new()));
        }
        if flags.display == Display::DirectoryOnly && flags.layout != Layout::Tree {
            return Ok((None, ExitCode::OK, Vec::new()));
        }
        let eligible = match self.file_type {
            FileType::Directory => true,
            FileType::SymLink { is_dir } => is_dir && flags.layout != Layout::OneLine,
            _ => false,
        };
        if !eligible {
            return Ok((None, ExitCode::OK, Vec::new()));
        }
        let mut diags: Vec<Diagnostic> = Vec::new();
        let entries: &Vec<Entry> = match node.listing() {
            Ok(es) => es,
            Err(msg) => {
                diags.push(Diagnostic { path: self.path.clone(), message: msg });
                assert(dviews(diags@) =~= seq![
                    DiagView { path: m.path, message: node.spec_listing()->Err_0 },
                ]);
                return Ok((None, ExitCode::MinorIssue, diags));
            }
        };
        let mut content: Vec<Meta> = Vec::new();
        let with_pseudo = (flags.display == Display::All
            || flags.display == Display::SystemProtected) && flags.layout != Layout::Tree;
        if with_pseudo {
            match parent {
                None => {
                    return Err(WalkError {
                        path: self.path.clone(),
                        message: "cannot resolve the parent directory".to_owned(),
                    });
                }
                Some((parent_path, parent_node)) => {
                    let dot = Meta {
                        name: Name { name: ".".to_owned(), file_type: self.name.file_type },
                        path: self.path.clone(),
                        permissions: self.permissions,
                        date: self.date,
                        owner: match &self.owner {
                            Some(o) => Some(
                                Owner { user: o.user.clone(), group: o.group.clone() },
                            ),
                            None => None,
                        },
                        file_type: self.file_type,
                        size: self.size,
                        symlink: SymLink {
                            target: match &self.symlink.target {
                                Some(t) => Some(t.clone()),
                                None => None,
                            },
                            valid: self.symlink.valid,
                        },
                        indicator: self.indicator,
                        inode: self.inode,
                        links: self.links,
                        content: None,
                        access_control: self.access_control,
                    };
                    assert(mview(dot) == (MetaView {
                        name: NameView { name: "."@, file_type: m.name.file_type },
                        ..m
                    }));
                    let (dd_meta, dd_diag) = Meta::resolve(
                        parent_path.clone(),
                        "..".to_owned(),
                        parent_node,
                        false,
                    );
                    let ghost dotv = mview(dot);
                    let ghost ddv = mview(dd_meta);
                    content.push(dot);
                    content.push(dd_meta);
                    proof {
                        assert(content@ =~= seq![content@[0], content@[1]]);
                        lemma_seq_mview2(content@);
                        assert(seq_mview(content@) == seq![dotv, ddv]);
                        assert(ddv == resolve_spec(
                            parent_path@, ".."@, *parent_node, false,
                        ).meta);
                    }
                    if let Some(d) = dd_diag {
                        let ghost dp = diags@;
                        diags.push(d);
                        proof {
                            lemma_dviews_push(dp, diags@.last());
                        }
                    }
                }
            }
        }
        let ghost pre_metas = seq_mview(content@);
        let ghost pre_diags = dviews(diags@);
        let ghost es = entries@;
        let mut exit_code = ExitCode::OK;
        let n_entries = entries.len();
        let mut i: usize = 0;
        proof {
            assert(es.take(0) =~= Seq::<Entry>::empty());
            assert(pre_metas + walk_entries_spec(
                es.take(0), m.path, *node, depth as nat, *flags,
            ).metas =~= pre_metas);
            assert(pre_diags + walk_entries_spec(
                es.take(0), m.path, *node, depth as nat, *flags,
            ).diags =~= pre_diags);
        }
        while i < n_entries
            invariant
                self.content is None,
                m == mview(*self),
                n_entries == es.len(),
                0 <= i <= n_entries,
                node.spec_listing() == Ok::<Seq<Entry>, Seq<char>>(es),
                entries@ == es,
                depth >= 1,
                ({
                    let w = walk_entries_spec(
                        es.take(i as int), m.path, *node, depth as nat, *flags,
                    );
                    &&& seq_mview(content@) == pre_metas + w.metas
                    &&& dviews(diags@) == pre_diags + w.diags
                    &&& exit_code == w.code
                }),
            decreases n_entries - i,
        {
            let ghost w_pre = walk_entries_spec(es.take(i as int), m.path, *node, depth as nat, *flags);
            let ghost st = step_spec(es[i as int], m.path, *node, depth as nat, *flags);
            proof {
                assert(es.take(i as int + 1).drop_last() =~= es.take(i as int));
                assert(es.take(i as int + 1).last() == es[i as int]);
            }
            let ghost w_post = walk_entries_spec(es.take(i as int + 1), m.path, *node, depth as nat, *flags);
            let e = &entries[i];
            if flags.ignore_globs.0.is_match(&e.name) {
                proof {
                    assert(seq_mview(content@) =~= pre_metas + w_post.metas);
                    assert(dviews(diags@) =~= pre_diags + w_post.diags);
                }
                i = i + 1;
                continue;
            }
            let filtered = ((flags.display == Display::All || flags.display == Display::AlmostAll)
                && e.system)
                || (flags.display == Display::VisibleOnly && (e.hidden || e.system));
            if filtered {
                proof {
                    assert(seq_mview(content@) =~= pre_metas + w_post.metas);
                    assert(dviews(diags@) =~= pre_diags + w_post.diags);
                }
                i = i + 1;
                continue;
            }
            let child_node = match &e.node {
                Err(msg) => {
                    let ghost dpre = diags@;
                    diags.push(Diagnostic { path: e.path.clone(), message: msg.clone() });
                    exit_code.set_if_greater(ExitCode::MinorIssue);
                    proof {
                        lemma_dviews_push(dpre, diags@.last());
                        assert(dviews(diags@) =~= pre_diags + w_post.diags);
                        assert(seq_mview(content@) =~= pre_metas + w_post.metas);
                    }
                    i = i + 1;
                    continue;
                }
                Ok(n) => n,
            };
            let (mut entry_meta, d0) = Meta::resolve(
                e.path.clone(),
                e.name.clone(),
                child_node,
                flags.dereference.0,
            );
            let ghost dpre0 = diags@;
            if let Some(d) = d0 {
                diags.push(d);
                proof {
                    lemma_dviews_push(dpre0, diags@.last());
                }
            }
            if flags.layout == Layout::Tree && flags.display == Display::DirectoryOnly
                && !matches!(child_node, Node::Dir { .. }) {
                proof {
                    assert(dviews(diags@) =~= pre_diags + w_post.diags);
                }
                i = i + 1;
                continue;
            }
            let follow = flags.dereference.0
                || !matches!(entry_meta.file_type, FileType::SymLink { .. });
            if follow {
                match entry_meta.recurse_into(child_node, Some((&self.path, node)), depth - 1, flags)
                {
                    Ok((child_content, rec_code, mut child_diags)) => {
                        let ghost dpre1 = diags@;
                        let ghost cds = child_diags@;
                        entry_meta.content = child_content;
                        exit_code.set_if_greater(rec_code);
                        diags.append(&mut child_diags);
                        proof {
                            assert(diags@ == dpre1 + cds);
                            lemma_dviews_concat(dpre1, cds);
                        }
                    }
                    Err(err) => {
                        let ghost dpre2 = diags@;
                        let ghost cpre2 = content@;
                        diags.push(Diagnostic { path: e.path.clone(), message: err.message });
                        exit_code.set_if_greater(ExitCode::MinorIssue);
                        content.push(entry_meta);
                        proof {
                            lemma_dviews_push(dpre2, diags@.last());
                            lemma_seq_mview_push(cpre2, content@.last());
                            assert(seq_mview(content@) =~= pre_metas + w_post.metas);
                            assert(dviews(diags@) =~= pre_diags + w_post.diags);
                        }
                        i = i + 1;
                        continue;
                    }
                }
            }
            let ghost cpre3 = content@;
            content.push(entry_meta);
            proof {
                lemma_seq_mview_push(cpre3, content@.last());
                assert(seq_mview(content@) =~= pre_metas + w_post.metas);
                assert(dviews(diags@) =~= pre_diags + w_post.diags);
            }
            i = i + 1;
        }
        proof {
            assert(es.take(n_entries as int) =~= es);
            let w = walk_entries_spec(es, m.path, *node, depth as nat, *flags);
            assert(seq_mview(content@) == pre_metas + w.metas);
            if with_pseudo {
                assert(pre_metas.len() == 2);
                assert(seq_mview(content@) =~= pre_metas + w.metas);
            } else {
                assert(pre_metas =~= Seq::<MetaView>::empty());
                assert(pre_diags =~= Seq::<DiagView>::empty());
                assert(pre_metas + w.metas =~= w.metas);
                assert(pre_diags + w.diags =~= w.diags);
            }
        }
        Ok((Some(content), exit_code, diags))
    }
}

} // verus!
