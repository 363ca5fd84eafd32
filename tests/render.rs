use oxydendrum::Indent;
use oxydendrum::Node;

fn leaf(name: &str) -> Node {
    Node { name: name.to_string(), children: vec![] }
}

#[test]
fn singleton() {
    let singleton = Node::singleton("name".to_string());
    assert_eq!(singleton.to_string(), "name".to_string());
}

#[test]
fn four_levels() {
    let tree = Node {
        name: "parent".to_string(),
        children: vec![
            Node { name: "child 1".to_string(), children: vec![
                Node{ name: "grandkid 1 1".to_string(), children: vec![
                    Node{ name: "greatgrandkid 1 1 1".to_string(), children: vec![]}
                ]},
                Node{ name: "grandkid 1 2".to_string(), children: vec![]},
                Node{ name: "grandkid 1 3".to_string(), children: vec![]}
            ]},
            Node { name: "child 2".to_string(), children: vec![]},
            Node { name: "child 3".to_string(), children: vec![
                Node{ name: "grandkid 3 1".to_string(), children: vec![]}
            ]}
        ]
    };

    let rendered =
        "parent
+-- child 1
|   +-- grandkid 1 1
|   |   `-- greatgrandkid 1 1 1
|   +-- grandkid 1 2
|   `-- grandkid 1 3
+-- child 2
`-- child 3
    `-- grandkid 3 1";
    assert_eq!(tree.to_string(), rendered.to_string());
}

#[test]
fn leaf_has_no_newline() {
    let text = leaf("a b c").to_string();
    assert_eq!(text, "a b c");
    assert!(!text.contains('\n'));
}

#[test]
fn single_child_uses_last_connector() {
    let tree = Node::flat("node".to_string(), vec!["node1".to_string()]);
    assert_eq!(tree.to_string(), "node\n`-- node1");
}

#[test]
fn two_children_split_then_last() {
    let tree = Node::flat("node".to_string(), vec!["node1".to_string(), "node2".to_string()]);
    assert_eq!(tree.to_string(), "node\n+-- node1\n`-- node2");
}

#[test]
fn flat_without_names_is_singleton() {
    let a = Node::flat("x".to_string(), vec![]);
    let b = Node::singleton("x".to_string());
    assert_eq!(a.children.len(), 0);
    assert_eq!(a.name, b.name);
    assert_eq!(a.to_string(), b.to_string());
}

#[test]
fn flat_matches_manual_tree() {
    let a = Node::flat("root".to_string(), vec!["a".to_string(), "b".to_string()]);
    let b = Node { name: "root".to_string(), children: vec![leaf("a"), leaf("b")] };
    assert_eq!(a.children.len(), 2);
    assert_eq!(a.children[0].name, "a");
    assert_eq!(a.children[1].name, "b");
    assert_eq!(a.to_string(), b.to_string());
}

#[test]
fn add_child_appends_in_order() {
    let mut n = Node::singleton("top".to_string());
    n.add_child(leaf("first"));
    n.add_child(Node::flat("second".to_string(), vec!["inner".to_string()]));
    assert_eq!(n.children.len(), 2);
    assert_eq!(n.to_string(), "top\n+-- first\n`-- second\n    `-- inner");
}

#[test]
fn uplink_column_stays_until_last_sibling() {
    let tree = Node {
        name: "r".to_string(),
        children: vec![
            Node { name: "a".to_string(), children: vec![leaf("a1"), leaf("a2")] },
            leaf("b"),
        ],
    };
    assert_eq!(tree.to_string(), "r\n+-- a\n|   +-- a1\n|   `-- a2\n`-- b");
}

#[test]
fn straight_chain() {
    let tree = Node {
        name: "1".to_string(),
        children: vec![Node { name: "2".to_string(), children: vec![leaf("3")] }],
    };
    assert_eq!(tree.to_string(), "1\n`-- 2\n    `-- 3");
}

#[test]
fn line_count_and_prefix_width() {
    let tree = Node {
        name: "r".to_string(),
        children: vec![
            Node { name: "a".to_string(), children: vec![leaf("a1")] },
            leaf("b"),
            leaf("c"),
        ],
    };
    let text = tree.to_string();
    let lines: Vec<&str> = text.split('\n').collect();
    assert_eq!(lines.len(), 5);
    let depths = [0usize, 1, 2, 1, 1];
    let names = ["r", "a", "a1", "b", "c"];
    for k in 0..5 {
        assert_eq!(lines[k].len(), 4 * depths[k] + names[k].len());
        assert!(lines[k].ends_with(names[k]));
    }
}

#[test]
fn indent_glyphs() {
    assert_eq!(Indent::Blank.to_string(), "   ");
    assert_eq!(Indent::Uplink.to_string(), "|  ");
    assert_eq!(Indent::Split.to_string(), "+--");
    assert_eq!(Indent::Last.to_string(), "`--");
    assert_eq!(Indent::Last.glyph(), "`--");
}

#[test]
fn render_with_given_prefix() {
    let tree = Node::flat("x".to_string(), vec!["y".to_string()]);
    let prefix = vec![Indent::Uplink, Indent::Split];
    assert_eq!(tree.render(&prefix, false), "|   +-- x\n|   |   `-- y");
    assert_eq!(tree.render(&prefix, true), "|   +-- x\n|       `-- y");
}
