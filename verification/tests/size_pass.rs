use lsd_meta::disk::{Attrs, Entry, Node};
use lsd_meta::exit_code::ExitCode;
use lsd_meta::flags::{Dereference, Display, Flags, IgnoreGlobs, Layout, NameMatcher};
use lsd_meta::meta::Meta;

fn attrs(size: u64) -> Attrs {
    Attrs {
        mode: 0o755,
        user: "user".to_string(),
        group: "group".to_string(),
        size,
        inode: 1,
        links: 1,
        modified: 0,
        has_acl: false,
    }
}

fn entry(name: &str, node: Node) -> Entry {
    Entry {
        name: name.to_string(),
        path: format!("/root/{}", name),
        hidden: false,
        system: false,
        node: Ok(node),
    }
}

fn plain_flags() -> Flags {
    Flags {
        display: Display::SystemProtected,
        layout: Layout::Tree,
        dereference: Dereference(false),
        ignore_globs: IgnoreGlobs(NameMatcher { names: vec![] }),
    }
}

/// A directory holding one 10-byte file and one empty subdirectory.
fn sample_tree() -> Node {
    Node::Dir {
        attrs: attrs(4096),
        entries: Ok(vec![
            entry("file", Node::File { attrs: attrs(10) }),
            entry("sub", Node::Dir { attrs: attrs(2048), entries: Ok(vec![]) }),
        ]),
    }
}

fn resolve_root(node: &Node) -> Meta {
    Meta::resolve("/root".to_string(), "root".to_string(), node, false).0
}

#[test]
fn empty_directory_keeps_its_base_size() {
    let node = Node::Dir { attrs: attrs(4096), entries: Ok(vec![]) };
    let mut meta = resolve_root(&node);
    let (content, _, _) = meta.recurse_into(&node, None, 5, &plain_flags()).unwrap();
    meta.content = content;
    assert_eq!(meta.content.as_ref().map(|v| v.len()), Some(0));
    let diags = meta.calculate_total_size(Some(&node));
    assert!(diags.is_empty());
    assert_eq!(meta.size.unwrap().get_bytes(), 4096);
}

#[test]
fn fully_expanded_tree_sums_base_plus_children() {
    let node = sample_tree();
    let mut meta = resolve_root(&node);
    let (content, code, _) = meta.recurse_into(&node, None, 10, &plain_flags()).unwrap();
    assert_eq!(code, ExitCode::OK);
    meta.content = content;
    let diags = meta.calculate_total_size(Some(&node));
    assert!(diags.is_empty());
    assert_eq!(meta.size.unwrap().get_bytes(), 4096 + 10 + 2048);
}

#[test]
fn truncated_tree_falls_back_to_the_snapshot_walk() {
    let node = sample_tree();
    let mut meta = resolve_root(&node);
    let (content, _, _) = meta.recurse_into(&node, None, 1, &plain_flags()).unwrap();
    meta.content = content;
    let sub = &meta.content.as_ref().unwrap()[1];
    assert_eq!(sub.name.name, "sub");
    assert!(sub.content.is_none());
    let diags = meta.calculate_total_size(Some(&node));
    assert!(diags.is_empty());
    assert_eq!(meta.size.unwrap().get_bytes(), 4096 + 10 + 2048);
}

#[test]
fn wholly_truncated_directory_walks_from_disk() {
    let node = sample_tree();
    let mut meta = resolve_root(&node);
    assert!(meta.content.is_none());
    let diags = meta.calculate_total_size(Some(&node));
    assert!(diags.is_empty());
    assert_eq!(meta.size.unwrap().get_bytes(), 4096 + 10 + 2048);
}

#[test]
fn broken_link_record_is_left_alone() {
    let broken = Node::Symlink {
        attrs: attrs(6),
        target_path: "/gone".to_string(),
        target: Err("No such file or directory".to_string()),
    };
    let (mut meta, _) = Meta::resolve("/l".to_string(), "l".to_string(), &broken, true);
    assert!(meta.size.is_none());
    let diags = meta.calculate_total_size(Some(&broken));
    assert!(diags.is_empty());
    assert!(meta.size.is_none());
}

#[test]
fn fallback_walk_ignores_symlinks_and_reports_failures() {
    let node = Node::Dir {
        attrs: attrs(100),
        entries: Ok(vec![
            entry("f", Node::File { attrs: attrs(7) }),
            entry(
                "link",
                Node::Symlink {
                    attrs: attrs(3),
                    target_path: "/f".to_string(),
                    target: Ok(Box::new(Node::File { attrs: attrs(500) })),
                },
            ),
            Entry {
                name: "bad".to_string(),
                path: "/root/bad".to_string(),
                hidden: false,
                system: false,
                node: Err("Input/output error".to_string()),
            },
        ]),
    };
    let mut diags = Vec::new();
    let total = Meta::calculate_total_file_size(&node, &"/root".to_string(), &mut diags);
    assert_eq!(total, 107);
    assert_eq!(diags.len(), 1);
    assert_eq!(diags[0].path, "/root/bad");
    assert_eq!(diags[0].message, "Input/output error");
}

#[test]
fn unreadable_listing_contributes_its_base_size() {
    let node = Node::Dir { attrs: attrs(55), entries: Err("Permission denied".to_string()) };
    let mut diags = Vec::new();
    let total = Meta::calculate_total_file_size(&node, &"/d".to_string(), &mut diags);
    assert_eq!(total, 55);
    assert_eq!(diags.len(), 1);
    assert_eq!(diags[0].path, "/d");
    assert_eq!(diags[0].message, "Permission denied");
}

#[test]
fn truncated_directory_without_snapshot_degrades_to_zero() {
    let node = sample_tree();
    let mut meta = resolve_root(&node);
    let diags = meta.calculate_total_size(None);
    assert_eq!(meta.size.unwrap().get_bytes(), 0);
    assert_eq!(diags.len(), 1);
    assert_eq!(diags[0].path, "/root");
}

#[test]
fn matcher_matches_exact_names_only() {
    let m = NameMatcher { names: vec!["a".to_string(), "b".to_string()] };
    assert!(m.is_match(&"a".to_string()));
    assert!(m.is_match(&"b".to_string()));
    assert!(!m.is_match(&"ab".to_string()));
    assert!(!m.is_match(&"".to_string()));
}

#[test]
fn totals_wrap_at_the_integer_boundary() {
    let node = Node::Dir {
        attrs: attrs(1),
        entries: Ok(vec![entry("huge", Node::File { attrs: attrs(u64::MAX) })]),
    };
    let mut diags = Vec::new();
    let total = Meta::calculate_total_file_size(&node, &"/root".to_string(), &mut diags);
    assert_eq!(total, 0);
    assert!(diags.is_empty());
}
