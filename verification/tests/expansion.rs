use lsd_meta::attributes::FileType;
use lsd_meta::disk::{Attrs, Entry, Node};
use lsd_meta::exit_code::ExitCode;
use lsd_meta::flags::{Dereference, Display, Flags, IgnoreGlobs, Layout, NameMatcher};
use lsd_meta::meta::Meta;

fn attrs(size: u64) -> Attrs {
    Attrs {
        mode: 0o755,
        user: "user".to_string(),
        group: "group".to_string(),
        size,
        inode: 1,
        links: 1,
        modified: 0,
        has_acl: false,
    }
}

fn entry(name: &str, node: Node) -> Entry {
    Entry {
        name: name.to_string(),
        path: format!("/root/{}", name),
        hidden: name.starts_with('.'),
        system: false,
        node: Ok(node),
    }
}

fn flags(display: Display, layout: Layout, dereference: bool, ignored: Vec<String>) -> Flags {
    Flags {
        display,
        layout,
        dereference: Dereference(dereference),
        ignore_globs: IgnoreGlobs(NameMatcher { names: ignored }),
    }
}

fn resolve_root(node: &Node) -> Meta {
    Meta::resolve("/root".to_string(), "root".to_string(), node, false).0
}

#[test]
fn depth_zero_never_expands() {
    let node = Node::Dir {
        attrs: attrs(4096),
        entries: Ok(vec![entry("a", Node::File { attrs: attrs(1) })]),
    };
    let meta = resolve_root(&node);
    let f = flags(Display::VisibleOnly, Layout::Grid, false, vec![]);
    let (content, code, diags) = meta.recurse_into(&node, None, 0, &f).unwrap();
    assert!(content.is_none());
    assert_eq!(code, ExitCode::OK);
    assert!(diags.is_empty());
}

#[test]
fn flat_directory_only_view_never_expands() {
    let node = Node::Dir { attrs: attrs(4096), entries: Ok(vec![]) };
    let meta = resolve_root(&node);
    let f = flags(Display::DirectoryOnly, Layout::Grid, false, vec![]);
    let (content, code, _) = meta.recurse_into(&node, None, 5, &f).unwrap();
    assert!(content.is_none());
    assert_eq!(code, ExitCode::OK);
}

#[test]
fn clean_tree_returns_ok_everywhere() {
    let sub = Node::Dir {
        attrs: attrs(100),
        entries: Ok(vec![entry("f", Node::File { attrs: attrs(2) })]),
    };
    let node = Node::Dir {
        attrs: attrs(4096),
        entries: Ok(vec![entry("sub", sub), entry("g", Node::File { attrs: attrs(3) })]),
    };
    let meta = resolve_root(&node);
    let f = flags(Display::VisibleOnly, Layout::Grid, false, vec![]);
    let (content, code, diags) = meta.recurse_into(&node, None, 10, &f).unwrap();
    let kids = content.unwrap();
    assert_eq!(code, ExitCode::OK);
    assert!(diags.is_empty());
    assert_eq!(kids.len(), 2);
    assert_eq!(kids[0].name.name, "sub");
    assert!(kids[0].content.is_some());
    assert_eq!(kids[0].content.as_ref().unwrap()[0].name.name, "f");
    assert_eq!(kids[1].name.name, "g");
    assert!(kids[1].content.is_none());
}

#[test]
fn failing_child_resolution_degrades_to_minor_issue() {
    let node = Node::Dir {
        attrs: attrs(4096),
        entries: Ok(vec![
            Entry {
                name: "bad".to_string(),
                path: "/root/bad".to_string(),
                hidden: false,
                system: false,
                node: Err("Permission denied".to_string()),
            },
            entry("ok", Node::File { attrs: attrs(1) }),
        ]),
    };
    let meta = resolve_root(&node);
    let f = flags(Display::VisibleOnly, Layout::Grid, false, vec![]);
    let (content, code, diags) = meta.recurse_into(&node, None, 3, &f).unwrap();
    let kids = content.unwrap();
    assert_eq!(code, ExitCode::MinorIssue);
    assert_eq!(kids.len(), 1);
    assert_eq!(kids[0].name.name, "ok");
    assert_eq!(diags.len(), 1);
    assert_eq!(diags[0].path, "/root/bad");
    assert_eq!(diags[0].message, "Permission denied");
}

#[test]
fn unreadable_listing_is_minor_issue_without_children() {
    let node = Node::Dir { attrs: attrs(4096), entries: Err("Permission denied".to_string()) };
    let meta = resolve_root(&node);
    let f = flags(Display::VisibleOnly, Layout::Grid, false, vec![]);
    let (content, code, diags) = meta.recurse_into(&node, None, 3, &f).unwrap();
    assert!(content.is_none());
    assert_eq!(code, ExitCode::MinorIssue);
    assert_eq!(diags.len(), 1);
    assert_eq!(diags[0].path, "/root");
    assert_eq!(diags[0].message, "Permission denied");
}

#[test]
fn ignored_child_is_entirely_absent() {
    let node = Node::Dir {
        attrs: attrs(4096),
        entries: Ok(vec![
            Entry {
                name: "skipme".to_string(),
                path: "/root/skipme".to_string(),
                hidden: false,
                system: false,
                node: Err("Permission denied".to_string()),
            },
            entry("keep", Node::File { attrs: attrs(1) }),
        ]),
    };
    let meta = resolve_root(&node);
    let f = flags(Display::VisibleOnly, Layout::Grid, false, vec!["skipme".to_string()]);
    let (content, code, diags) = meta.recurse_into(&node, None, 3, &f).unwrap();
    let kids = content.unwrap();
    assert_eq!(code, ExitCode::OK);
    assert!(diags.is_empty());
    assert_eq!(kids.len(), 1);
    assert_eq!(kids[0].name.name, "keep");
}

#[test]
fn hidden_entries_follow_display_mode() {
    let make = || Node::Dir {
        attrs: attrs(4096),
        entries: Ok(vec![
            entry(".hidden", Node::File { attrs: attrs(1) }),
            entry("shown", Node::File { attrs: attrs(1) }),
        ]),
    };
    let node = make();
    let meta = resolve_root(&node);
    let visible = flags(Display::VisibleOnly, Layout::Grid, false, vec![]);
    let (content, _, _) = meta.recurse_into(&node, None, 1, &visible).unwrap();
    let kids = content.unwrap();
    assert_eq!(kids.len(), 1);
    assert_eq!(kids[0].name.name, "shown");

    let almost = flags(Display::AlmostAll, Layout::Grid, false, vec![]);
    let (content, _, _) = meta.recurse_into(&node, None, 1, &almost).unwrap();
    assert_eq!(content.unwrap().len(), 2);
}

#[test]
fn show_all_flat_layout_synthesizes_dot_entries() {
    let node = Node::Dir {
        attrs: attrs(4096),
        entries: Ok(vec![entry("a", Node::File { attrs: attrs(1) })]),
    };
    let parent = Node::Dir { attrs: attrs(2048), entries: Ok(vec![]) };
    let parent_path = "/".to_string();
    let meta = resolve_root(&node);
    let f = flags(Display::All, Layout::Grid, false, vec![]);
    let (content, code, diags) = meta
        .recurse_into(&node, Some((&parent_path, &parent)), 1, &f)
        .unwrap();
    let kids = content.unwrap();
    assert_eq!(code, ExitCode::OK);
    assert!(diags.is_empty());
    assert_eq!(kids.len(), 3);
    assert_eq!(kids[0].name.name, ".");
    assert_eq!(kids[0].path, "/root");
    assert_eq!(kids[1].name.name, "..");
    assert_eq!(kids[1].path, "/");
    assert_eq!(kids[1].file_type, FileType::Directory);
    assert_eq!(kids[2].name.name, "a");
}

#[test]
fn show_all_flat_layout_without_parent_fails() {
    let node = Node::Dir { attrs: attrs(4096), entries: Ok(vec![]) };
    let meta = resolve_root(&node);
    let f = flags(Display::All, Layout::Grid, false, vec![]);
    let err = meta.recurse_into(&node, None, 1, &f).unwrap_err();
    assert_eq!(err.path, "/root");
}

#[test]
fn undereferenced_symlink_is_listed_but_not_expanded() {
    let target = Node::Dir {
        attrs: attrs(100),
        entries: Ok(vec![entry("inside", Node::File { attrs: attrs(1) })]),
    };
    let node = Node::Dir {
        attrs: attrs(4096),
        entries: Ok(vec![entry(
            "link",
            Node::Symlink {
                attrs: attrs(4),
                target_path: "/elsewhere".to_string(),
                target: Ok(Box::new(target)),
            },
        )]),
    };
    let meta = resolve_root(&node);
    let f = flags(Display::VisibleOnly, Layout::Grid, false, vec![]);
    let (content, _, _) = meta.recurse_into(&node, None, 5, &f).unwrap();
    let kids = content.unwrap();
    assert_eq!(kids[0].file_type, FileType::SymLink { is_dir: true });
    assert!(kids[0].content.is_none());

    let f_deref = flags(Display::VisibleOnly, Layout::Grid, true, vec![]);
    let (content, _, _) = meta.recurse_into(&node, None, 5, &f_deref).unwrap();
    let kids = content.unwrap();
    assert_eq!(kids[0].file_type, FileType::Directory);
    let inner = kids[0].content.as_ref().unwrap();
    assert_eq!(inner[0].name.name, "inside");
}

#[test]
fn tree_directory_only_skips_files() {
    let node = Node::Dir {
        attrs: attrs(4096),
        entries: Ok(vec![
            entry("f", Node::File { attrs: attrs(1) }),
            entry("d", Node::Dir { attrs: attrs(50), entries: Ok(vec![]) }),
        ]),
    };
    let meta = resolve_root(&node);
    let f = flags(Display::DirectoryOnly, Layout::Tree, false, vec![]);
    let (content, code, _) = meta.recurse_into(&node, None, 5, &f).unwrap();
    let kids = content.unwrap();
    assert_eq!(code, ExitCode::OK);
    assert_eq!(kids.len(), 1);
    assert_eq!(kids[0].name.name, "d");
}

#[test]
fn severity_never_decreases() {
    let mut code = ExitCode::OK;
    code.set_if_greater(ExitCode::MinorIssue);
    assert_eq!(code, ExitCode::MinorIssue);
    code.set_if_greater(ExitCode::OK);
    assert_eq!(code, ExitCode::MinorIssue);
    code.set_if_greater(ExitCode::MajorIssue);
    assert_eq!(code, ExitCode::MajorIssue);
}
