use monocore::utils::dir::{build_prefix, entry_less, name_less, sort_entries, tree_line, ListingEntry, ListingKind};

fn entry(name: &str, kind: ListingKind) -> ListingEntry {
    ListingEntry { name: name.to_string(), kind }
}

#[test]
fn names_order_by_code_point_with_prefixes_first() {
    assert!(name_less("a", "b"));
    assert!(!name_less("b", "a"));
    assert!(name_less("ab", "abc"));
    assert!(!name_less("abc", "ab"));
    assert!(!name_less("same", "same"));
    assert!(name_less("Zebra", "apple"));
}

#[test]
fn directories_come_before_files_and_links() {
    assert!(entry_less(&entry("zzz", ListingKind::Dir), &entry("aaa", ListingKind::File(3))));
    assert!(!entry_less(&entry("aaa", ListingKind::File(3)), &entry("zzz", ListingKind::Dir)));
    assert!(entry_less(&entry("a", ListingKind::Symlink), &entry("b", ListingKind::File(0))));
    assert!(!entry_less(&entry("b", ListingKind::Symlink), &entry("a", ListingKind::File(0))));
}

#[test]
fn listing_is_sorted_directories_first_then_by_name() {
    let v = vec![
        entry("main.rs", ListingKind::File(10)),
        entry("src", ListingKind::Dir),
        entry("link", ListingKind::Symlink),
        entry("docs", ListingKind::Dir),
        entry("Cargo.toml", ListingKind::File(5)),
    ];
    let sorted = sort_entries(v);
    let names: Vec<&str> = sorted.iter().map(|e| e.name.as_str()).collect();
    assert_eq!(names, vec!["docs", "src", "Cargo.toml", "link", "main.rs"]);
    assert!(sort_entries(Vec::new()).is_empty());
}

#[test]
fn prefix_has_a_bar_where_a_level_goes_on() {
    assert_eq!(build_prefix(&vec![]), "");
    assert_eq!(build_prefix(&vec![true]), "│   ");
    assert_eq!(build_prefix(&vec![false]), "    ");
    assert_eq!(build_prefix(&vec![true, false, true]), "│       │   ");
}

#[test]
fn tree_lines_match_the_documented_layout() {
    assert_eq!(tree_line(&vec![], false, &entry("docs", ListingKind::Dir)), "├── 📁 docs/");
    assert_eq!(tree_line(&vec![true], true, &entry("README.md", ListingKind::File(0))), "│   └── 📄 README.md (0 bytes)");
    assert_eq!(tree_line(&vec![], true, &entry("src", ListingKind::Dir)), "└── 📁 src/");
    assert_eq!(tree_line(&vec![false, true], true, &entry("mod.rs", ListingKind::File(1234))), "    │   └── 📄 mod.rs (1234 bytes)");
    assert_eq!(tree_line(&vec![false], false, &entry("current", ListingKind::Symlink)), "    ├── 🔗 current");
}

enum Node {
    Dir(&'static str, Vec<Node>),
    File(&'static str, u64),
    Link(&'static str),
}

fn node_name(n: &Node) -> &'static str {
    match n {
        Node::Dir(name, _) | Node::File(name, _) | Node::Link(name) => name,
    }
}

fn render(nodes: &[Node], parts: Vec<bool>) -> String {
    let entries: Vec<ListingEntry> = nodes
        .iter()
        .map(|n| match n {
            Node::Dir(name, _) => entry(name, ListingKind::Dir),
            Node::File(name, size) => entry(name, ListingKind::File(*size)),
            Node::Link(name) => entry(name, ListingKind::Symlink),
        })
        .collect();
    let sorted = sort_entries(entries);
    let total = sorted.len();
    let mut out = String::new();
    for (idx, e) in sorted.iter().enumerate() {
        let is_last = idx + 1 == total;
        out.push_str(&tree_line(&parts, is_last, e));
        out.push('\n');
        if let Some(Node::Dir(_, children)) = nodes.iter().find(|n| node_name(n) == e.name) {
            let mut sub = parts.clone();
            sub.push(!is_last);
            out.push_str(&render(children, sub));
        }
    }
    out
}

#[test]
fn test_print_dir_tree_empty_directory() {
    assert_eq!(render(&[], vec![]), "");
}

#[test]
fn test_print_dir_tree_single_file() {
    assert_eq!(render(&[Node::File("test.txt", 12)], vec![]), "└── 📄 test.txt (12 bytes)\n");
}

#[test]
fn test_print_dir_tree_nested_structure() {
    let tree = vec![
        Node::Dir("src", vec![Node::File("main.rs", 0), Node::Dir("lib", vec![Node::File("mod.rs", 0)])]),
        Node::Dir("docs", vec![Node::File("README.md", 0)]),
    ];
    let expected = "\
├── 📁 docs/
│   └── 📄 README.md (0 bytes)
└── 📁 src/
    ├── 📁 lib/
    │   └── 📄 mod.rs (0 bytes)
    └── 📄 main.rs (0 bytes)
";
    assert_eq!(render(&tree, vec![]), expected);
}

#[test]
fn test_print_dir_tree_complex_structure() {
    let tree = vec![Node::Dir(
        "project",
        vec![
            Node::Dir("src", vec![Node::File("main.rs", 0), Node::File("lib.rs", 0)]),
            Node::Link("config"),
            Node::Dir("docs", vec![Node::File("api.md", 0), Node::Dir("examples", vec![Node::File("basic.rs", 0)])]),
        ],
    )];
    let expected = "\
└── 📁 project/
    ├── 📁 docs/
    │   ├── 📁 examples/
    │   │   └── 📄 basic.rs (0 bytes)
    │   └── 📄 api.md (0 bytes)
    ├── 📁 src/
    │   ├── 📄 lib.rs (0 bytes)
    │   └── 📄 main.rs (0 bytes)
    └── 🔗 config
";
    assert_eq!(render(&tree, vec![]), expected);
}

#[test]
fn test_print_dir_tree_alphabetical_sorting() {
    let tree = vec![
        Node::Dir("z_dir", vec![]),
        Node::Dir("a_dir", vec![]),
        Node::Dir("m_dir", vec![]),
        Node::File("z_file.txt", 0),
        Node::File("a_file.txt", 0),
        Node::Link("z_link"),
        Node::Link("a_link"),
    ];
    let expected = "\
├── 📁 a_dir/
├── 📁 m_dir/
├── 📁 z_dir/
├── 📄 a_file.txt (0 bytes)
├── 🔗 a_link
├── 📄 z_file.txt (0 bytes)
└── 🔗 z_link
";
    assert_eq!(render(&tree, vec![]), expected);
}
