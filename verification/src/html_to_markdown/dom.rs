//! An HTML document as a flat list of nodes in document order.
use vstd::prelude::*;
use html5ever::tendril::TendrilSink;
use html5ever::{parse_document, ParseOpts};
use markup5ever_rcdom::NodeData::{Element as ElementData, Text as TextData};
use markup5ever_rcdom::RcDom;
use self::NodeKind::{Element, Other, Text};

verus! {

/// What an HTML node is: an element with its name and attributes, a text, or anything else
/// (the document itself, comments, doctypes).
#[derive(Debug, Clone)]
pub enum NodeKind {
    Element(String, Vec<(String, String)>),
    Text(String),
    Other,
}

/// What a node kind holds, as character sequences.
pub ghost enum KindView {
    Element(Seq<char>, Seq<(Seq<char>, Seq<char>)>),
    Text(Seq<char>),
    Other,
}

impl View for NodeKind {
    type V = KindView;

    open spec fn view(&self) -> KindView {
        match self {
            NodeKind::Element(name, attrs) => KindView::Element(
                name@,
                Seq::new(attrs@.len(), |i: int| (attrs@[i].0@, attrs@[i].1@)),
            ),
            NodeKind::Text(t) => KindView::Text(t@),
            NodeKind::Other => KindView::Other,
        }
    }
}

/// A node: the position of its parent (the root names itself) and its kind.
pub ghost struct NodeView {
    pub parent: usize,
    pub kind: KindView,
}

/// The nodes of a parsed document, as plain values.
pub open spec fn nodes_view(nodes: Seq<(usize, NodeKind)>) -> Seq<NodeView> {
    Seq::new(nodes.len(), |i: int| NodeView { parent: nodes[i].0, kind: nodes[i].1@ })
}

/// The nodes that html5ever parses `html` into, in document order, each with its parent's position.
pub uninterp spec fn parsed_html(html: Seq<char>) -> Seq<NodeView>;

/// `html5ever::parse_document` into markup5ever_rcdom's `RcDom`, the tree listed in document
/// order from the document node on, each node with the position of its parent (the document
/// names itself) and its kind, element names and attribute names by their local names. The list
/// is named `parsed_html` of the input; nothing more is claimed about it.
#[verifier::external_body]
pub(crate) fn parse_html(html: &str) -> (nodes: Vec<(usize, NodeKind)>)
    ensures
        nodes_view(nodes@) == parsed_html(html@),
{
    let mut stack = vec![(parse_document(RcDom::default(), ParseOpts::default()).one(html).document, 0)];
    let mut nodes = Vec::new();
    while let Some((node, parent)) = stack.pop() {
        stack.extend(node.children.take().into_iter().rev().map(|c| (c, nodes.len())));
        nodes.push((parent, match &node.data {
            ElementData { name, attrs, .. } => Element(name.local.to_string(),
                attrs.take().into_iter().map(|a| (a.name.local.to_string(), a.value.to_string())).collect()),
            TextData { contents } => Text(contents.take().to_string()),
            _ => Other,
        }));
    }
    nodes
}

/// The children of node `p` among the nodes before position `k`: the later nodes that name
/// `p` as parent, in order.
pub open spec fn kids_upto(nodes: Seq<NodeView>, p: int, k: int) -> Seq<int>
    decreases k,
{
    if k <= 0 {
        Seq::empty()
    } else if nodes[k - 1].parent == p && p < k - 1 {
        kids_upto(nodes, p, k - 1).push(k - 1)
    } else {
        kids_upto(nodes, p, k - 1)
    }
}

/// The children of node `p`, in document order.
pub open spec fn kids(nodes: Seq<NodeView>, p: int) -> Seq<int> {
    kids_upto(nodes, p, nodes.len() as int)
}

/// A parsed document with the children of each node listed.
pub struct Dom {
    pub nodes: Vec<(usize, NodeKind)>,
    pub children: Vec<Vec<usize>>,
}

impl Dom {
    /// The document's nodes as plain values.
    pub open spec fn view_nodes(&self) -> Seq<NodeView> {
        nodes_view(self.nodes@)
    }

    /// Whether the child lists are those that the parent positions give.
    pub open spec fn wf(&self) -> bool {
        &&& self.children@.len() == self.nodes@.len()
        &&& forall|p: int| 0 <= p < self.nodes@.len() ==> (#[trigger] self.children@[p])@.map_values(|c: usize| c as int)
            == kids(self.view_nodes(), p)
    }
}

proof fn lemma_kids_bounds(nodes: Seq<NodeView>, p: int, k: int)
    requires
        k <= nodes.len(),
    ensures
        forall|j: int| 0 <= j < kids_upto(nodes, p, k).len() ==> p < #[trigger] kids_upto(nodes, p, k)[j] < k,
    decreases k,
{
    if k > 0 {
        lemma_kids_bounds(nodes, p, k - 1);
        let prev = kids_upto(nodes, p, k - 1);
        assert forall|j: int| 0 <= j < kids_upto(nodes, p, k).len() implies p < #[trigger] kids_upto(nodes, p, k)[j] < k by {
            if j < prev.len() {
                assert(kids_upto(nodes, p, k)[j] == prev[j]);
            }
        }
    }
}

/// Every child comes after its parent and lies within the document.
pub proof fn lemma_kids_after_parent(nodes: Seq<NodeView>, p: int)
    ensures
        forall|j: int| 0 <= j < kids(nodes, p).len() ==> p < #[trigger] kids(nodes, p)[j] < nodes.len(),
{
    lemma_kids_bounds(nodes, p, nodes.len() as int);
}

/// Lists the children of each node of a parsed document.
pub fn build_dom(nodes: Vec<(usize, NodeKind)>) -> (dom: Dom)
    ensures
        dom.wf(),
        dom.nodes@ == nodes@,
{
    let n = nodes.len();
    let ghost v = nodes_view(nodes@);
    let mut children: Vec<Vec<usize>> = Vec::new();
    let mut p: usize = 0;
    while p < n
        invariant
            n == nodes@.len(),
            p <= n,
            children@.len() == p,
            forall|q: int| 0 <= q < p ==> (#[trigger] children@[q])@ == Seq::<usize>::empty(),
        decreases n - p,
    {
        children.push(Vec::new());
        p = p + 1;
    }
    let mut i: usize = 0;
    while i < n
        invariant
            n == nodes@.len(),
            v == nodes_view(nodes@),
            i <= n,
            children@.len() == n,
            forall|q: int| 0 <= q < n ==> (#[trigger] children@[q])@.map_values(|c: usize| c as int)
                == kids_upto(v, q, i as int),
        decreases n - i,
    {
        let parent = nodes[i].0;
        assert(v[i as int].parent == parent);
        if parent < i {
            let mut list = Vec::new();
            std::mem::swap(&mut list, &mut children[parent]);
            let ghost before = children@;
            list.push(i);
            children.set(parent, list);
            proof {
                assert forall|q: int| 0 <= q < n implies (#[trigger] children@[q])@.map_values(|c: usize| c as int)
                    == kids_upto(v, q, i + 1) by {
                    if q == parent {
                        assert(children@[q]@.map_values(|c: usize| c as int)
                            =~= kids_upto(v, q, i as int).push(i as int));
                    } else {
                        assert(children@[q] == before[q]);
                    }
                }
            }
        }
        i = i + 1;
    }
    let dom = Dom { nodes, children };
    assert(dom.view_nodes() == v);
    dom
}

} // verus!
