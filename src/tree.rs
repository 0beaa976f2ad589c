use vstd::prelude::*;

verus! {

broadcast use vstd::std_specs::vec::group_vec_axioms;

/// One child of a parsed XML element, as the XML parser hands it over.
#[derive(Debug, PartialEq, Eq)]
pub enum SourceNode {
    Element(SourceElement),
    Text(String),
    /// A comment, a processing instruction or anything else that is not kept.
    Other,
}

/// An element of a parsed XML document.
#[derive(Debug, PartialEq, Eq)]
pub struct SourceElement {
    pub name: String,
    /// Attributes in document order.
    pub attributes: Vec<(String, String)>,
    /// Children in document order.
    pub children: Vec<SourceNode>,
}

/// One element of the simplified tree.
#[derive(Debug, PartialEq, Eq)]
pub struct XmlNode {
    pub name: String,
    /// Attributes in document order.
    pub attributes: Vec<(String, String)>,
    /// Child elements in document order.
    pub children: Vec<XmlNode>,
    /// The last direct text run that is not blank, trimmed.
    pub text: Option<String>,
}

/// The mathematical value of an `XmlNode`.
pub struct Tree {
    pub name: Seq<char>,
    pub attributes: Seq<(Seq<char>, Seq<char>)>,
    pub children: Seq<Tree>,
    pub text: Option<Seq<char>>,
}

/// A character with the Unicode `White_Space` property.
pub open spec fn is_white(c: char) -> bool {
    let u = c as u32;
    (9 <= u <= 13) || u == 32 || u == 0x85 || u == 0xa0 || u == 0x1680 || (0x2000 <= u
        <= 0x200a) || u == 0x2028 || u == 0x2029 || u == 0x202f || u == 0x205f || u == 0x3000
}

pub open spec fn trim_start(s: Seq<char>) -> Seq<char>
    decreases s.len(),
{
    if s.len() > 0 && is_white(s[0]) {
        trim_start(s.drop_first())
    } else {
        s
    }
}

pub open spec fn trim_end(s: Seq<char>) -> Seq<char>
    decreases s.len(),
{
    if s.len() > 0 && is_white(s.last()) {
        trim_end(s.drop_last())
    } else {
        s
    }
}

/// `s` without its leading and trailing white space.
pub open spec fn trimmed(s: Seq<char>) -> Seq<char> {
    trim_end(trim_start(s))
}

/// Every character of `s` is white space.
pub open spec fn is_blank(s: Seq<char>) -> bool {
    forall|i: int| 0 <= i < s.len() ==> is_white(#[trigger] s[i])
}

pub open spec fn attrs_view(a: Seq<(String, String)>) -> Seq<(Seq<char>, Seq<char>)> {
    a.map_values(|p: (String, String)| (p.0@, p.1@))
}

pub open spec fn text_view(t: Option<String>) -> Option<Seq<char>> {
    match t {
        Some(s) => Some(s@),
        None => None,
    }
}

/// The mathematical value of a node.
pub open spec fn tree_of(n: XmlNode) -> Tree
    decreases n,
{
    Tree {
        name: n.name@,
        attributes: attrs_view(n.attributes@),
        children: trees_of(n.children@),
        text: text_view(n.text),
    }
}

/// The mathematical values of a sequence of nodes.
pub open spec fn trees_of(s: Seq<XmlNode>) -> Seq<Tree>
    decreases s,
{
    if s.len() == 0 {
        Seq::empty()
    } else {
        trees_of(s.drop_last()).push(tree_of(s.last()))
    }
}

/// The tree that an element is turned into.
pub open spec fn built(e: SourceElement) -> Tree
    decreases e,
{
    Tree {
        name: e.name@,
        attributes: attrs_view(e.attributes@),
        children: built_children(e.children@),
        text: last_text(e.children@),
    }
}

/// The trees of the elements among `s`, in order; other children are skipped.
pub open spec fn built_children(s: Seq<SourceNode>) -> Seq<Tree>
    decreases s,
{
    if s.len() == 0 {
        Seq::empty()
    } else {
        let prev = built_children(s.drop_last());
        match s.last() {
            SourceNode::Element(c) => prev.push(built(c)),
            _ => prev,
        }
    }
}

/// The last text child of `s` that is not blank once trimmed, trimmed.
pub open spec fn last_text(s: Seq<SourceNode>) -> Option<Seq<char>>
    decreases s.len(),
{
    if s.len() == 0 {
        None
    } else {
        match s.last() {
            SourceNode::Text(t) => if trimmed(t@).len() > 0 {
                Some(trimmed(t@))
            } else {
                last_text(s.drop_last())
            },
            _ => last_text(s.drop_last()),
        }
    }
}

/// The number of elements in the subtree rooted at `e`.
pub open spec fn element_count(e: SourceElement) -> nat
    decreases e,
{
    1 + elements_count(e.children@)
}

/// The number of elements in the subtrees of the elements among `s`.
pub open spec fn elements_count(s: Seq<SourceNode>) -> nat
    decreases s,
{
    if s.len() == 0 {
        0
    } else {
        elements_count(s.drop_last()) + match s.last() {
            SourceNode::Element(c) => element_count(c),
            _ => 0,
        }
    }
}

/// The number of nodes in a tree.
pub open spec fn tree_size(t: Tree) -> nat
    decreases t,
{
    1 + forest_size(t.children)
}

/// The number of nodes in a sequence of trees.
pub open spec fn forest_size(s: Seq<Tree>) -> nat
    decreases s,
{
    if s.len() == 0 {
        0
    } else {
        forest_size(s.drop_last()) + tree_size(s.last())
    }
}

/// The built tree has one node per source element, and every node keeps its
/// element's attributes in document order.
pub proof fn lemma_built_size(e: SourceElement)
    ensures
        tree_size(built(e)) == element_count(e),
        built(e).attributes == attrs_view(e.attributes@),
    decreases e,
{
    lemma_built_children_size(e.children@);
}

/// The trees built from a sequence of children have one node per source element.
pub proof fn lemma_built_children_size(s: Seq<SourceNode>)
    ensures
        forest_size(built_children(s)) == elements_count(s),
    decreases s,
{
    if s.len() > 0 {
        let prev = built_children(s.drop_last());
        lemma_built_children_size(s.drop_last());
        if let SourceNode::Element(c) = s.last() {
            lemma_built_size(c);
            assert(prev.push(built(c)).drop_last() =~= prev);
        }
    }
}

/// Building the same element twice gives equal trees.
pub proof fn lemma_build_deterministic(e: SourceElement, a: XmlNode, b: XmlNode)
    requires
        tree_of(a) == built(e),
        tree_of(b) == built(e),
    ensures
        tree_of(a) == tree_of(b),
{
}

/// A blank string trims to the empty string.
pub proof fn lemma_blank_trims_to_empty(s: Seq<char>)
    requires
        is_blank(s),
    ensures
        trimmed(s).len() == 0,
    decreases s.len(),
{
    if s.len() > 0 {
        assert(is_white(s[0]));
        assert(is_blank(s.drop_first())) by {
            assert forall|i: int| 0 <= i < s.drop_first().len() implies is_white(
                #[trigger] s.drop_first()[i],
            ) by {
                assert(s.drop_first()[i] == s[i + 1]);
            }
        }
        lemma_blank_trims_to_empty(s.drop_first());
    }
}

/// Text children that are blank never become a node's text: where all of them
/// are, the node has no text.
pub proof fn lemma_blank_text_never_kept(s: Seq<SourceNode>)
    requires
        forall|i: int|
            0 <= i < s.len() ==> (#[trigger] s[i] matches SourceNode::Text(t) ==> is_blank(t@)),
    ensures
        last_text(s) is None,
    decreases s.len(),
{
    if s.len() > 0 {
        if let SourceNode::Text(t) = s.last() {
            assert(s[s.len() - 1] == s.last());
            lemma_blank_trims_to_empty(t@);
        }
        assert forall|i: int|
            0 <= i < s.drop_last().len() implies (#[trigger] s.drop_last()[i] matches SourceNode::Text(
                t,
            ) ==> is_blank(t@)) by {
            assert(s.drop_last()[i] == s[i]);
        }
        lemma_blank_text_never_kept(s.drop_last());
    }
}

/// Relies on str::trim: removes the leading and trailing characters that have the
/// Unicode White_Space property.
#[verifier::external_body]
fn trim(s: &str) -> (r: &str)
    ensures
        r@ == trimmed(s@),
{
    s.trim()
}

/// Turns a parsed element into an owned tree: its name, its attributes in order, its
/// child elements in order, and its last non-blank direct text, trimmed.
pub fn build(e: &SourceElement) -> (r: XmlNode)
    ensures
        tree_of(r) == built(*e),
    decreases e,
{
    let mut attributes: Vec<(String, String)> = Vec::new();
    let mut i: usize = 0;
    while i < e.attributes.len()
        invariant
            i <= e.attributes@.len(),
            attributes@.len() == i,
            forall|k: int|
                0 <= k < i ==> (#[trigger] attributes@[k]).0@ == e.attributes@[k].0@
                    && attributes@[k].1@ == e.attributes@[k].1@,
        decreases e.attributes@.len() - i,
    {
        let pair = &e.attributes[i];
        attributes.push((pair.0.clone(), pair.1.clone()));
        i += 1;
    }
    proof {
        assert(attrs_view(attributes@) =~= attrs_view(e.attributes@));
    }
    let mut children: Vec<XmlNode> = Vec::new();
    let mut text: Option<String> = None;
    let mut j: usize = 0;
    while j < e.children.len()
        invariant
            j <= e.children@.len(),
            trees_of(children@) == built_children(e.children@.subrange(0, j as int)),
            text_view(text) == last_text(e.children@.subrange(0, j as int)),
        decreases e.children@.len() - j,
    {
        let ghost before = children@;
        let ghost seen = e.children@.subrange(0, j + 1);
        proof {
            assert(seen.drop_last() =~= e.children@.subrange(0, j as int));
        }
        match &e.children[j] {
            SourceNode::Element(c) => {
                proof {
                    assert(decreases_to!(e => e.children));
                    assert(decreases_to!(e.children => e.children[j as int]));
                }
                let child = build(c);
                children.push(child);
                proof {
                    assert(children@.drop_last() =~= before);
                }
            },
            SourceNode::Text(t) => {
                let trimmed_text = trim(t.as_str());
                if !trimmed_text.is_empty() {
                    text = Some(trimmed_text.to_owned());
                }
            },
            SourceNode::Other => {},
        }
        j += 1;
    }
    proof {
        assert(e.children@.subrange(0, j as int) =~= e.children@);
    }
    XmlNode { name: e.name.clone(), attributes, children, text }
}

/// Turns a parsed node into an owned tree when it is an element.
pub fn build_tree(node: &SourceNode) -> (r: Option<XmlNode>)
    ensures
        match *node {
            SourceNode::Element(e) => r matches Some(n) && tree_of(n) == built(e),
            _ => r is None,
        },
{
    match node {
        SourceNode::Element(e) => Some(build(e)),
        _ => None,
    }
}

} // verus!
