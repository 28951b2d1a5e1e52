use lsd_meta::attributes::FileType;
use lsd_meta::disk::{Attrs, Entry, Node, SpecialKind};
use lsd_meta::meta::Meta;

fn attrs(size: u64) -> Attrs {
    Attrs {
        mode: 0o644,
        user: "user".to_string(),
        group: "group".to_string(),
        size,
        inode: 7,
        links: 1,
        modified: 1_700_000_000,
        has_acl: false,
    }
}

#[test]
fn test_from_path_path() {
    let node = Node::Dir { attrs: attrs(4096), entries: Ok(vec![]) };
    let (meta, diag) = Meta::resolve("/tmp/dir".to_string(), "dir".to_string(), &node, false);
    assert_eq!(meta.path, "/tmp/dir");
    assert!(diag.is_none());
}

#[test]
fn test_from_path() {
    let file = Node::File { attrs: attrs(10) };
    let (meta_a, diag_a) = Meta::resolve("/t/aaa.aa".to_string(), "aaa.aa".to_string(), &file, false);

    let broken = Node::Symlink {
        attrs: attrs(6),
        target_path: "/t/ccc.cc".to_string(),
        target: Err("No such file or directory".to_string()),
    };
    let (meta_b, diag_b) = Meta::resolve("/t/bbb.bb".to_string(), "bbb.bb".to_string(), &broken, true);

    assert!(
        meta_a.inode.is_some()
            && meta_a.links.is_some()
            && meta_a.size.is_some()
            && meta_a.date.is_some()
            && meta_a.owner.is_some()
            && meta_a.permissions.is_some()
            && meta_a.access_control.is_some()
    );
    assert!(diag_a.is_none());

    assert!(
        meta_b.inode.is_none()
            && meta_b.links.is_none()
            && meta_b.size.is_none()
            && meta_b.date.is_none()
            && meta_b.owner.is_none()
            && meta_b.permissions.is_none()
            && meta_b.access_control.is_none()
    );
    assert!(diag_b.is_some());
}

#[test]
fn broken_link_still_identified_as_symlink() {
    let broken = Node::Symlink {
        attrs: attrs(6),
        target_path: "/gone".to_string(),
        target: Err("No such file or directory".to_string()),
    };
    let (meta, diag) = Meta::resolve("/t/l".to_string(), "l".to_string(), &broken, true);
    assert_eq!(meta.file_type, FileType::SymLink { is_dir: false });
    assert_eq!(meta.symlink.target.as_deref(), Some("/gone"));
    assert!(!meta.symlink.valid);
    let d = diag.unwrap();
    assert_eq!(d.path, "/t/l");
    assert_eq!(d.message, "No such file or directory");
}

#[test]
fn broken_link_without_dereference_keeps_attributes() {
    let broken = Node::Symlink {
        attrs: attrs(6),
        target_path: "/gone".to_string(),
        target: Err("No such file or directory".to_string()),
    };
    let (meta, diag) = Meta::resolve("/t/l".to_string(), "l".to_string(), &broken, false);
    assert!(diag.is_none());
    assert!(meta.size.is_some());
    assert_eq!(meta.size.unwrap().get_bytes(), 6);
    assert!(meta.permissions.is_some());
    assert!(meta.date.is_some());
    assert!(meta.owner.is_some());
    assert!(meta.inode.is_some());
    assert!(meta.links.is_some());
    assert!(meta.access_control.is_some());
    assert_eq!(meta.file_type, FileType::SymLink { is_dir: false });
}

#[test]
fn dereferenced_intact_link_takes_target_classification() {
    let target = Node::Dir { attrs: attrs(4096), entries: Ok(vec![]) };
    let link = Node::Symlink {
        attrs: attrs(9),
        target_path: "/real".to_string(),
        target: Ok(Box::new(target)),
    };
    let (deref, _) = Meta::resolve("/t/l".to_string(), "l".to_string(), &link, true);
    assert_eq!(deref.file_type, FileType::Directory);
    assert_eq!(deref.size.unwrap().get_bytes(), 4096);
    assert!(deref.symlink.valid);

    let (kept, _) = Meta::resolve("/t/l".to_string(), "l".to_string(), &link, false);
    assert_eq!(kept.file_type, FileType::SymLink { is_dir: true });
    assert_eq!(kept.size.unwrap().get_bytes(), 9);
}

#[test]
fn classification_of_special_entries() {
    let mut a = attrs(0);
    a.mode = 0o755;
    let exec_file = Node::File { attrs: a };
    let (m, _) = Meta::resolve("/bin/x".to_string(), "x".to_string(), &exec_file, false);
    assert_eq!(m.file_type, FileType::File { exec_bit: true });
    assert_eq!(m.indicator.symbol, Some('*'));

    let sock = Node::Special { kind: SpecialKind::Socket, attrs: attrs(0) };
    let (m, _) = Meta::resolve("/s".to_string(), "s".to_string(), &sock, false);
    assert_eq!(m.file_type, FileType::Socket);
    assert_eq!(m.indicator.symbol, Some('='));

    let fifo = Node::Special { kind: SpecialKind::Pipe, attrs: attrs(0) };
    let (m, _) = Meta::resolve("/p".to_string(), "p".to_string(), &fifo, false);
    assert_eq!(m.file_type, FileType::Pipe);
    assert_eq!(m.indicator.symbol, Some('|'));
}

#[test]
fn entry_helper_types_hold_their_values() {
    let e = Entry {
        name: "n".to_string(),
        path: "/d/n".to_string(),
        hidden: false,
        system: false,
        node: Ok(Node::File { attrs: attrs(1) }),
    };
    assert_eq!(e.name, "n");
    let file = Node::File { attrs: attrs(3) };
    assert_eq!(file.attrs().size, 3);
    assert!(!file.is_dir());
    let dir = Node::Dir { attrs: attrs(0), entries: Ok(vec![e]) };
    assert!(dir.is_dir());
    assert_eq!(dir.listing().unwrap().len(), 1);
}
