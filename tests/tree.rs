use xmpeek::tree::{build, build_tree, SourceElement, SourceNode, XmlNode};

fn s(x: &str) -> String {
    x.to_string()
}

fn elem(name: &str, attributes: Vec<(&str, &str)>, children: Vec<SourceNode>) -> SourceElement {
    SourceElement {
        name: s(name),
        attributes: attributes.into_iter().map(|(k, v)| (s(k), s(v))).collect(),
        children,
    }
}

fn count(n: &XmlNode) -> usize {
    1 + n.children.iter().map(count).sum::<usize>()
}

#[test]
fn builds_root_with_children() {
    // <root a="1"><child>hi</child><child/></root>
    let src = elem(
        "root",
        vec![("a", "1")],
        vec![
            SourceNode::Element(elem("child", vec![], vec![SourceNode::Text(s("hi"))])),
            SourceNode::Element(elem("child", vec![], vec![])),
        ],
    );
    let t = build(&src);
    assert_eq!(t.name, "root");
    assert_eq!(t.attributes, vec![(s("a"), s("1"))]);
    assert_eq!(t.text, None);
    assert_eq!(t.children.len(), 2);
    assert_eq!(t.children[0].name, "child");
    assert_eq!(t.children[0].text, Some(s("hi")));
    assert!(t.children[0].children.is_empty());
    assert_eq!(t.children[1].name, "child");
    assert_eq!(t.children[1].text, None);
    assert!(t.children[1].children.is_empty());
}

#[test]
fn blank_text_is_not_kept() {
    // <a>   </a>
    let src = elem("a", vec![], vec![SourceNode::Text(s("   "))]);
    assert_eq!(build(&src).text, None);
    let src = elem("a", vec![], vec![SourceNode::Text(s("\n\t \u{3000}\u{a0}"))]);
    assert_eq!(build(&src).text, None);
}

#[test]
fn text_is_trimmed() {
    let src = elem("a", vec![], vec![SourceNode::Text(s("\u{2003} hello world\n"))]);
    assert_eq!(build(&src).text, Some(s("hello world")));
}

#[test]
fn last_non_blank_text_wins() {
    let src = elem(
        "a",
        vec![],
        vec![
            SourceNode::Text(s("first")),
            SourceNode::Element(elem("b", vec![], vec![])),
            SourceNode::Text(s(" second ")),
            SourceNode::Other,
            SourceNode::Text(s("  ")),
        ],
    );
    let t = build(&src);
    assert_eq!(t.text, Some(s("second")));
    assert_eq!(t.children.len(), 1);
}

#[test]
fn attributes_keep_order_and_repeats() {
    let src = elem("a", vec![("z", "1"), ("a", "2"), ("z", "3")], vec![]);
    let t = build(&src);
    assert_eq!(t.attributes, vec![(s("z"), s("1")), (s("a"), s("2")), (s("z"), s("3"))]);
}

#[test]
fn one_node_per_element() {
    let src = elem(
        "r",
        vec![],
        vec![
            SourceNode::Other,
            SourceNode::Element(elem(
                "x",
                vec![],
                vec![
                    SourceNode::Element(elem("y", vec![], vec![])),
                    SourceNode::Text(s("t")),
                    SourceNode::Element(elem("z", vec![], vec![SourceNode::Element(elem("w", vec![], vec![]))])),
                ],
            )),
            SourceNode::Element(elem("v", vec![], vec![])),
        ],
    );
    let t = build(&src);
    assert_eq!(count(&t), 6);
    assert_eq!(t.children[0].children[1].children[0].name, "w");
    assert_eq!(t.children[1].name, "v");
}

#[test]
fn building_twice_gives_equal_trees() {
    let src = elem(
        "r",
        vec![("k", "v")],
        vec![SourceNode::Element(elem("c", vec![], vec![SourceNode::Text(s("x"))]))],
    );
    let a = build(&src);
    let b = build(&src);
    assert_eq!(a, b);
}

#[test]
fn only_elements_build_a_tree() {
    assert!(build_tree(&SourceNode::Text(s("x"))).is_none());
    assert!(build_tree(&SourceNode::Other).is_none());
    let n = build_tree(&SourceNode::Element(elem("e", vec![], vec![]))).unwrap();
    assert_eq!(n.name, "e");
}
