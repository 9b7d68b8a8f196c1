use sgash::action::Action;
use sgash::fs::{file_node, FileTree, DIR, FILE};
use sgash::rstr::rstr;

fn named(name: &str) -> rstr {
    let mut s = rstr::new(256);
    assert!(s.set_string(name));
    s
}

fn node(name: &str, next: Option<usize>, kind: usize) -> file_node {
    file_node {
        filename: named(name),
        next,
        child: None,
        num_children: 0,
        contents: rstr::new(256),
        node_type: kind,
    }
}

#[test]
fn empty_directory_lists_nothing() {
    let mut t = FileTree::new();
    let root = t.add_node(node("", None, DIR));
    assert_eq!(root, 0);
    assert!(!t.has_children(root));
    assert!(t.dir_entries(root).is_none());
    assert!(t.get_file(root, &named("a")).is_none());
}

#[test]
fn listing_follows_sibling_links() {
    let mut t = FileTree::new();
    let root = t.add_node(node("", None, DIR));
    let a = t.add_node(node("a", None, FILE));
    let b = t.add_node(node("b", Some(a), FILE));
    t.add_child(root, b);
    assert!(t.has_children(root));
    assert_eq!(t.dir_entries(root).unwrap(), vec![b, a]);
    assert_eq!(t.list_nodes(a), vec![a]);
    assert_eq!(t.get_next(b), Some(a));
    assert!(t.get_filename(b).streq("b"));
}

#[test]
fn get_file_finds_first_match() {
    let mut t = FileTree::new();
    let root = t.add_node(node("", None, DIR));
    let a = t.add_node(node("same", None, FILE));
    let b = t.add_node(node("other", Some(a), FILE));
    let c = t.add_node(node("same", Some(b), FILE));
    t.add_child(root, c);
    assert_eq!(t.get_file(root, &named("same")), Some(c));
    assert_eq!(t.get_file(root, &named("other")), Some(b));
    assert_eq!(t.get_file(root, &named("none")), None);
}

#[test]
fn add_child_counts_and_replaces_first_child() {
    let mut t = FileTree::new();
    let root = t.add_node(node("", None, DIR));
    let a = t.add_node(node("a", None, FILE));
    let b = t.add_node(node("b", None, FILE));
    t.add_child(root, a);
    t.add_child(root, b);
    // the new child becomes the first child; its sibling link is untouched
    assert_eq!(t.dir_entries(root).unwrap(), vec![b]);
    assert_eq!(t.get_next(b), None);
    assert_eq!(t.get_file(root, &named("a")), None);
}

#[test]
fn add_child_to_a_file_does_nothing() {
    let mut t = FileTree::new();
    let f = t.add_node(node("f", None, FILE));
    let g = t.add_node(node("g", None, FILE));
    t.add_child(f, g);
    assert!(!t.has_children(f));
}

#[test]
fn remove_child_reports_presence_and_keeps_tree() {
    let mut t = FileTree::new();
    let root = t.add_node(node("", None, DIR));
    let a = t.add_node(node("a", None, FILE));
    let b = t.add_node(node("b", Some(a), FILE));
    t.add_child(root, b);
    assert!(t.remove_child(root, &named("a")));
    assert!(t.remove_child(root, &named("b")));
    assert!(!t.remove_child(root, &named("c")));
    assert_eq!(t.dir_entries(root).unwrap(), vec![b, a]);
    assert_eq!(t.len(), 3);
}

#[test]
fn remove_in_list_looks_after_the_node() {
    let mut t = FileTree::new();
    let a = t.add_node(node("a", None, FILE));
    let b = t.add_node(node("b", Some(a), FILE));
    assert!(t.remove_in_list(b, &named("a")));
    assert!(!t.remove_in_list(b, &named("b")));
    assert!(!t.remove_in_list(a, &named("a")));
}

fn is_uart(a: &Action, want: &[u8]) -> bool {
    matches!(a, Action::Uart(v) if v.as_slice() == want)
}

#[test]
fn list_dir_writes_names_with_line_ends() {
    let mut t = FileTree::new();
    let root = t.add_node(node("", None, DIR));
    let a = t.add_node(node("ab", None, FILE));
    let b = t.add_node(node("c", Some(a), FILE));
    t.add_child(root, b);
    let out = t.list_dir(root);
    assert_eq!(out.len(), 8);
    let ab = vec![97 + 256 * 98, 98];
    let c = vec![99];
    assert!(matches!(&out[0], Action::UartCells(v) if *v == c));
    assert!(is_uart(&out[1], b"\n"));
    assert!(matches!(&out[2], Action::DrawCells(v) if *v == c));
    assert!(matches!(&out[3], Action::DrawPalette(v) if v.as_slice() == b"\n"));
    assert!(matches!(&out[4], Action::UartCells(v) if *v == ab));
    assert!(matches!(&out[6], Action::DrawCells(v) if *v == ab));
    assert_eq!(t.list_list(a).len(), 4);
}

#[test]
fn list_dir_of_empty_directory() {
    let mut t = FileTree::new();
    let root = t.add_node(node("", None, DIR));
    let out = t.list_dir(root);
    assert_eq!(out.len(), 2);
    assert!(is_uart(&out[0], b"\nEmpty directory\n"));
    assert!(matches!(&out[1], Action::DrawPalette(v) if v.as_slice() == b"\nEmpty directory\n"));
}
