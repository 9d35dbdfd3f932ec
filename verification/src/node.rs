//! The markup tree the engine walks: a node is either text or an element
//! with a tag, attributes and ordered children. The engine only reads the
//! tree; the markup-parsing collaborator owns its construction.

use crate::text::has_word;
use crate::text::str_eq;
use crate::text::str_has_word;
use vstd::prelude::*;

verus! {

/// One element attribute.
#[derive(Debug, Clone)]
pub struct Attr {
    pub name: String,
    pub value: String,
}

/// The mathematical view of an attribute.
pub ghost struct GAttr {
    pub name: Seq<char>,
    pub value: Seq<char>,
}

impl View for Attr {
    type V = GAttr;

    open spec fn view(&self) -> GAttr {
        GAttr { name: self.name@, value: self.value@ }
    }
}

/// A markup tree node.
#[derive(Debug)]
pub enum Node {
    Text(String),
    Element { tag: String, attrs: Vec<Attr>, children: Vec<Node> },
}

/// The mathematical view of a markup tree node.
pub ghost enum GNode {
    Text(Seq<char>),
    Element { tag: Seq<char>, attrs: Seq<GAttr>, children: Seq<GNode> },
}

/// The view of one node.
pub open spec fn node_view(n: Node) -> GNode
    decreases n,
{
    match n {
        Node::Text(s) => GNode::Text(s@),
        Node::Element { tag, attrs, children } => {
            proof {
                broadcast use vstd::std_specs::vec::axiom_vec_decreases_to_view;
            }
            GNode::Element {
                tag: tag@,
                attrs: attrs@.map_values(|a: Attr| a@),
                children: nodes_view(children@),
            }
        },
    }
}

/// The views of a sequence of nodes, in order.
pub open spec fn nodes_view(ns: Seq<Node>) -> Seq<GNode>
    decreases ns,
{
    if ns.len() == 0 {
        Seq::empty()
    } else {
        proof {
            broadcast use vstd::seq::axiom_seq_index_decreases;
            broadcast use vstd::seq::axiom_seq_subrange_decreases;
        }
        seq![node_view(ns[0])] + nodes_view(ns.drop_first())
    }
}

impl View for Node {
    type V = GNode;

    open spec fn view(&self) -> GNode {
        node_view(*self)
    }
}

/// Views of node sequences read pointwise.
pub proof fn lemma_nodes_view_index(ns: Seq<Node>)
    ensures
        nodes_view(ns).len() == ns.len(),
        forall|i: int| 0 <= i < ns.len() ==> nodes_view(ns)[i] == #[trigger] ns[i]@,
    decreases ns,
{
    if ns.len() > 0 {
        lemma_nodes_view_index(ns.drop_first());
        assert forall|i: int| 0 <= i < ns.len() implies nodes_view(ns)[i] == #[trigger] ns[i]@ by {
            if i > 0 {
                assert(ns.drop_first()[i - 1] == ns[i]);
                assert(nodes_view(ns)[i] == nodes_view(ns.drop_first())[i - 1]);
            }
        }
    }
}

/// All text content beneath a node, concatenated in document order.
pub open spec fn flat_text(n: GNode) -> Seq<char>
    decreases n,
{
    match n {
        GNode::Text(s) => s,
        GNode::Element { children, .. } => flat_texts(children),
    }
}

/// All text content beneath a sequence of nodes, concatenated in order.
pub open spec fn flat_texts(ns: Seq<GNode>) -> Seq<char>
    decreases ns,
{
    if ns.len() == 0 {
        Seq::empty()
    } else {
        proof {
            broadcast use vstd::seq::axiom_seq_index_decreases;
            broadcast use vstd::seq::axiom_seq_subrange_decreases;
        }
        flat_texts(ns.drop_last()) + flat_text(ns.last())
    }
}

/// Collect the text beneath a node.
#[verifier::loop_isolation(false)]
pub fn flatten_text(n: &Node) -> (r: String)
    ensures
        r@ == flat_text(n@),
    decreases *n,
{
    match n {
        Node::Text(s) => s.clone(),
        Node::Element { children, .. } => {
            let ghost cv = nodes_view(children@);
            let mut out = String::new();
            let mut i: usize = 0;
            proof {
                lemma_nodes_view_index(children@);
                assert(cv.subrange(0, 0) =~= Seq::<GNode>::empty());
                assert(out@ =~= flat_texts(cv.subrange(0, 0)));
            }
            while i < children.len()
                invariant
                    0 <= i <= children@.len(),
                    cv == nodes_view(children@),
                    cv.len() == children@.len(),
                    forall|k: int| 0 <= k < children@.len() ==> cv[k] == #[trigger] children@[k]@,
                    out@ == flat_texts(cv.subrange(0, i as int)),
                decreases children@.len() - i,
            {
                proof {
                    broadcast use vstd::std_specs::vec::axiom_vec_decreases_to_view;
                    broadcast use vstd::seq::axiom_seq_index_decreases;

                    assert(decreases_to!(*n => *children));
                    assert(decreases_to!(*children => children@));
                    assert(decreases_to!(children@ => children@[i as int]));
                    assert(decreases_to!(*n => children@[i as int]));
                }
                let t = flatten_text(&children[i]);
                out.append(t.as_str());
                i = i + 1;
                proof {
                    assert(cv.subrange(0, i as int).drop_last() =~= cv.subrange(0, i - 1));
                    assert(cv.subrange(0, i as int).last() == cv[i - 1]);
                }
            }
            proof {
                assert(cv.subrange(0, cv.len() as int) =~= cv);
            }
            out
        },
    }
}

/// Collect the text beneath a sequence of sibling nodes.
#[verifier::loop_isolation(false)]
pub fn flatten_nodes(children: &Vec<Node>) -> (r: String)
    ensures
        r@ == flat_texts(nodes_view(children@)),
{
    let ghost cv = nodes_view(children@);
    let mut out = String::new();
    let mut i: usize = 0;
    proof {
        lemma_nodes_view_index(children@);
        assert(out@ =~= flat_texts(cv.subrange(0, 0)));
    }
    while i < children.len()
        invariant
            0 <= i <= children@.len(),
            out@ == flat_texts(cv.subrange(0, i as int)),
        decreases children@.len() - i,
    {
        let t = flatten_text(&children[i]);
        out.append(t.as_str());
        i = i + 1;
        proof {
            assert(cv.subrange(0, i as int).drop_last() =~= cv.subrange(0, i - 1));
            assert(cv.subrange(0, i as int).last() == cv[i - 1]);
        }
    }
    proof {
        assert(cv.subrange(0, cv.len() as int) =~= cv);
    }
    out
}

/// The value of the first attribute named `name`, if any.
pub open spec fn attr_of(attrs: Seq<GAttr>, name: Seq<char>) -> Option<Seq<char>>
    decreases attrs.len(),
{
    if attrs.len() == 0 {
        None
    } else if attrs[0].name == name {
        Some(attrs[0].value)
    } else {
        attr_of(attrs.drop_first(), name)
    }
}

/// Look an attribute up by name.
pub fn find_attr(attrs: &Vec<Attr>, name: &str) -> (r: Option<String>)
    ensures
        (match r {
            Some(v) => Some(v@),
            None => None,
        }) == attr_of(attrs@.map_values(|a: Attr| a@), name@),
{
    let ghost av = attrs@.map_values(|a: Attr| a@);
    let mut i: usize = 0;
    proof {
        assert(av.subrange(0, av.len() as int) =~= av);
    }
    while i < attrs.len()
        invariant
            0 <= i <= attrs@.len(),
            av == attrs@.map_values(|a: Attr| a@),
            attr_of(av, name@) == attr_of(av.subrange(i as int, av.len() as int), name@),
        decreases attrs@.len() - i,
    {
        let ghost suffix = av.subrange(i as int, av.len() as int);
        proof {
            assert(suffix[0] == av[i as int]);
            assert(suffix.drop_first() =~= av.subrange(i + 1, av.len() as int));
        }
        if str_eq(attrs[i].name.as_str(), name) {
            return Some(attrs[i].value.clone());
        }
        i = i + 1;
    }
    proof {
        assert(av.subrange(av.len() as int, av.len() as int) =~= Seq::<GAttr>::empty());
    }
    None
}

/// The element carries `cls` in its whitespace-separated `class` attribute.
pub open spec fn has_class(n: GNode, cls: Seq<char>) -> bool {
    n matches GNode::Element { attrs, .. } && match attr_of(attrs, "class"@) {
        Some(v) => has_word(v, cls),
        None => false,
    }
}

/// Check an element's class list for `cls`.
pub fn node_has_class(n: &Node, cls: &str) -> (r: bool)
    requires
        n@ is Element,
    ensures
        r == has_class(n@, cls@),
{
    match n {
        Node::Text(_) => false,
        Node::Element { attrs, .. } => {
            match find_attr(attrs, "class") {
                Some(v) => str_has_word(v.as_str(), cls),
                None => false,
            }
        },
    }
}

} // verus!
