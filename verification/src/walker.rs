//! The tree walker: recursive descent over one message body's node tree,
//! producing the ordered sequence of styled text runs. Each node is visited
//! by exactly one recursive call; the citation handler fully consumes its
//! own subtree.

use crate::error::{EngineError, GErr};
use crate::node::{
    attr_of, find_attr, flat_texts, flatten_nodes, has_class, lemma_nodes_view_index,
    node_has_class, nodes_view, GNode, Node,
};
use crate::style::{
    empty_style, merge_styles, resolve_spec, resolve_style, CharacterPropertyExt, GStyle,
    StyleDescriptor,
};
use crate::text::trimmed;
use crate::text::str_eq;
use crate::text::trim_str;
use vstd::prelude::*;

verus! {

/// The minimal unit of formatted text: a piece of text with its resolved
/// style. A run with `is_break` set carries no visible text and only marks
/// a paragraph boundary.
#[derive(Debug, PartialEq)]
pub struct StyledRun {
    pub text: String,
    pub style: StyleDescriptor,
    pub is_break: bool,
}

/// The mathematical view of a styled run.
#[verifier::ext_equal]
pub ghost struct GRun {
    pub text: Seq<char>,
    pub style: GStyle,
    pub is_break: bool,
}

impl View for StyledRun {
    type V = GRun;

    open spec fn view(&self) -> GRun {
        GRun { text: self.text@, style: self.style@, is_break: self.is_break }
    }
}

/// The semantic tag that marks a run as quoted material.
pub open spec fn citation_tag() -> Seq<char> {
    "citation"@
}

/// The whitespace-preserving spacer emitted around an inline-style span.
pub open spec fn spacer_run() -> GRun {
    GRun { text: " "@, style: empty_style(), is_break: false }
}

/// The structural paragraph-break marker emitted for a line-break tag.
pub open spec fn break_run() -> GRun {
    GRun { text: Seq::empty(), style: empty_style(), is_break: true }
}

/// A style whose only set field is the citation semantic tag.
pub open spec fn citation_only_style() -> GStyle {
    GStyle {
        bold: None,
        italic: None,
        underline: None,
        size: None,
        color: None,
        semantic_tag: Some(citation_tag()),
    }
}

/// A style whose only set field is underline.
pub open spec fn underline_style() -> GStyle {
    GStyle {
        bold: None,
        italic: None,
        underline: Some(true),
        size: None,
        color: None,
        semantic_tag: None,
    }
}

/// The bold, citation-tagged label run that opens a quoted block.
pub open spec fn citation_label_run() -> GRun {
    GRun {
        text: "Citation: "@,
        style: GStyle {
            bold: Some(true),
            italic: None,
            underline: None,
            size: None,
            color: None,
            semantic_tag: Some(citation_tag()),
        },
        is_break: false,
    }
}

/// Merge the citation tag into a run's style, the run's own settings
/// surviving.
pub open spec fn tag_citation(r: GRun) -> GRun {
    GRun { text: r.text, style: merge_styles(r.style, citation_only_style()), is_break: r.is_break }
}

/// Merge an ambient style under a run's own style.
pub open spec fn apply_ambient(r: GRun, ambient: GStyle) -> GRun {
    GRun { text: r.text, style: merge_styles(r.style, ambient), is_break: r.is_break }
}

/// What a text node produces: one empty-styled run holding the trimmed
/// content, or nothing when the content is all whitespace.
pub open spec fn text_runs(s: Seq<char>) -> Seq<GRun> {
    if trimmed(s).len() == 0 {
        Seq::empty()
    } else {
        seq![GRun { text: trimmed(s), style: empty_style(), is_break: false }]
    }
}

/// What a span produces from its children's runs: the ambient style merged
/// under each run, bracketed by spacer runs — the leading spacer omitted
/// immediately inside a citation block.
pub open spec fn span_wrap(rs: Seq<GRun>, ambient: GStyle, cited: bool) -> Seq<GRun> {
    (if cited {
        Seq::empty()
    } else {
        seq![spacer_run()]
    }) + rs.map_values(|r: GRun| apply_ambient(r, ambient)) + seq![spacer_run()]
}

/// The index of the last element among `ns` (-1 when there is none).
pub open spec fn last_element_index(ns: Seq<GNode>) -> int
    decreases ns.len(),
{
    if ns.len() == 0 {
        -1
    } else if ns.last() is Element {
        ns.len() - 1
    } else {
        last_element_index(ns.drop_last())
    }
}

pub proof fn lemma_last_element_index(ns: Seq<GNode>)
    ensures
        -1 <= last_element_index(ns) < ns.len(),
        last_element_index(ns) >= 0 ==> ns[last_element_index(ns)] is Element,
        forall|k: int|
            last_element_index(ns) < k < ns.len() ==> !(#[trigger] ns[k] is Element),
    decreases ns.len(),
{
    if ns.len() > 0 && !(ns.last() is Element) {
        lemma_last_element_index(ns.drop_last());
        assert(forall|k: int| 0 <= k < ns.len() - 1 ==> #[trigger] ns[k] == ns.drop_last()[k]);
    }
}

/// The runs one node produces, or the first fatal failure met while
/// walking it. `cited` says whether the node stands immediately inside a
/// citation block.
pub open spec fn walk(n: GNode, cited: bool) -> Result<Seq<GRun>, GErr>
    decreases n,
{
    match n {
        GNode::Text(s) => Ok(text_runs(s)),
        GNode::Element { tag, attrs, children } => {
            if tag == "a"@ {
                // A hyperlink is a leaf for styling: one underlined run over
                // its flattened visible text.
                Ok(
                    seq![
                        GRun {
                            text: flat_texts(children),
                            style: underline_style(),
                            is_break: false,
                        }
                    ],
                )
            } else if tag == "br"@ {
                Ok(seq![break_run()])
            } else if tag == "div"@ {
                if has_class(n, "postrow-message"@) {
                    // The root message container exists only to be stripped.
                    Ok(Seq::empty())
                } else if has_class(n, "border-blue-500"@) {
                    walk_citation(children)
                } else {
                    Err(
                        GErr::UnknownClass(
                            match attr_of(attrs, "class"@) {
                                Some(v) => v,
                                None => Seq::empty(),
                            },
                        ),
                    )
                }
            } else if tag == "span"@ {
                match resolve_spec(attr_of(attrs, "style"@)) {
                    Err(e) => Err(e),
                    Ok(ambient) => match walk_children(children, false) {
                        Err(e) => Err(e),
                        Ok(rs) => Ok(span_wrap(rs, ambient, cited)),
                    },
                }
            } else {
                Err(GErr::UnknownTag(tag))
            }
        },
    }
}

/// The runs a sequence of sibling nodes produces, in order; the earliest
/// fatal failure wins.
pub open spec fn walk_children(ns: Seq<GNode>, cited: bool) -> Result<Seq<GRun>, GErr>
    decreases ns,
{
    if ns.len() == 0 {
        Ok(Seq::empty())
    } else {
        proof {
            broadcast use vstd::seq::axiom_seq_index_decreases;
            broadcast use vstd::seq::axiom_seq_subrange_decreases;
        }
        match walk_children(ns.drop_last(), cited) {
            Err(e) => Err(e),
            Ok(rest) => match walk(ns.last(), cited) {
                Err(e) => Err(e),
                Ok(rs) => Ok(rest + rs),
            },
        }
    }
}

/// What a citation block's children produce: the "Citation: " label run,
/// then the runs of the block's last child element — the markup wraps the
/// quote one level deeper — each tagged as citation. A block without a
/// child element is a fatal failure.
pub open spec fn walk_citation(ns: Seq<GNode>) -> Result<Seq<GRun>, GErr>
    decreases ns,
{
    let j = last_element_index(ns);
    if j < 0 {
        Err(GErr::EmptyCitationBlock)
    } else {
        proof {
            lemma_last_element_index(ns);
            broadcast use vstd::seq::axiom_seq_index_decreases;

            assert(decreases_to!(ns => ns[j]));
        }
        match walk_children(ns[j]->children, true) {
            Err(e) => Err(e),
            Ok(rs) => Ok(seq![citation_label_run()] + rs.map_values(|r: GRun| tag_citation(r))),
        }
    }
}

/// Every run carries either no semantic tag or the citation tag; the
/// walker introduces no other tag.
pub open spec fn tags_ok(rs: Seq<GRun>) -> bool {
    forall|i: int|
        0 <= i < rs.len() ==> (#[trigger] rs[i].style.semantic_tag == Option::<Seq<char>>::None
            || rs[i].style.semantic_tag == Some(citation_tag()))
}

proof fn lemma_walk_tags(n: GNode, cited: bool)
    ensures
        walk(n, cited) matches Ok(rs) ==> tags_ok(rs),
    decreases n,
{
    reveal_strlit("a");
    reveal_strlit("br");
    reveal_strlit("div");
    reveal_strlit("span");
    match n {
        GNode::Text(s) => {
        },
        GNode::Element { tag, attrs, children } => {
            if tag == "div"@ && !has_class(n, "postrow-message"@) && has_class(
                n,
                "border-blue-500"@,
            ) {
                lemma_walk_citation_tags(children);
            } else if tag == "span"@ {
                lemma_walk_children_tags(children, false);
                match resolve_spec(attr_of(attrs, "style"@)) {
                    Ok(ambient) => {
                        match walk_children(children, false) {
                            Ok(inner) => {
                                let rs = span_wrap(inner, ambient, cited);
                                assert(("span"@).len() == 4);
                                assert(("a"@).len() == 1);
                                assert(walk(n, cited) == Ok::<Seq<GRun>, GErr>(rs));
                                assert(ambient.semantic_tag is None);
                                assert forall|i: int| 0 <= i < rs.len() implies (#[trigger] rs[i]
                                    .style.semantic_tag == Option::<Seq<char>>::None || rs[i]
                                    .style.semantic_tag == Some(citation_tag())) by {
                                    let lead: int = if cited {
                                        0
                                    } else {
                                        1
                                    };
                                    if lead <= i < lead + inner.len() {
                                        let mapped = inner.map_values(
                                            |r: GRun| apply_ambient(r, ambient),
                                        );
                                        assert(rs[i] == mapped[i - lead]);
                                        assert(mapped[i - lead] == apply_ambient(
                                            inner[i - lead],
                                            ambient,
                                        ));
                                        assert(inner[i - lead].style.semantic_tag == Option::<
                                            Seq<char>,
                                        >::None || inner[i - lead].style.semantic_tag == Some(
                                            citation_tag(),
                                        ));
                                    }
                                }
                            },
                            Err(_) => {
                            },
                        }
                    },
                    Err(_) => {
                    },
                }
            }
        },
    }
}

proof fn lemma_walk_children_tags(ns: Seq<GNode>, cited: bool)
    ensures
        walk_children(ns, cited) matches Ok(rs) ==> tags_ok(rs),
    decreases ns,
{
    if ns.len() > 0 {
        broadcast use vstd::seq::axiom_seq_index_decreases;
        broadcast use vstd::seq::axiom_seq_subrange_decreases;

        lemma_walk_children_tags(ns.drop_last(), cited);
        lemma_walk_tags(ns.last(), cited);
    }
}

proof fn lemma_walk_citation_tags(ns: Seq<GNode>)
    ensures
        walk_citation(ns) matches Ok(rs) ==> (forall|i: int|
            0 <= i < rs.len() ==> #[trigger] rs[i].style.semantic_tag == Some(citation_tag())),
    decreases ns,
{
    let j = last_element_index(ns);
    if j >= 0 {
        lemma_last_element_index(ns);
        broadcast use vstd::seq::axiom_seq_index_decreases;

        assert(decreases_to!(ns => ns[j]));
        lemma_walk_children_tags(ns[j]->children, true);
        match walk_children(ns[j]->children, true) {
            Ok(inner) => {
                let rs = seq![citation_label_run()] + inner.map_values(|r: GRun| tag_citation(r));
                assert(walk_citation(ns) == Ok::<Seq<GRun>, GErr>(rs));
                assert forall|i: int| 0 <= i < rs.len() implies #[trigger] rs[i]
                    .style.semantic_tag == Some(citation_tag()) by {
                    if i >= 1 {
                        let mapped = inner.map_values(|r: GRun| tag_citation(r));
                        assert(rs[i] == mapped[i - 1]);
                        assert(mapped[i - 1] == tag_citation(inner[i - 1]));
                        assert(inner[i - 1].style.semantic_tag == Option::<Seq<char>>::None
                            || inner[i - 1].style.semantic_tag == Some(citation_tag()));
                    }
                }
            },
            Err(_) => {
            },
        }
    }
}

/// Citation tagging propagation: every run a quoted block produces —
/// including runs of inline-style spans nested inside the quote — carries
/// the citation semantic tag.
pub proof fn lemma_citation_tagging(ns: Seq<GNode>)
    ensures
        walk_citation(ns) matches Ok(rs) ==> (forall|i: int|
            0 <= i < rs.len() ==> #[trigger] rs[i].style.semantic_tag == Some(citation_tag())),
{
    lemma_walk_citation_tags(ns);
}

/// The walker meets an element tag it was not taught while visiting `n`.
/// Link elements are leaves and the stripped root container ends its
/// branch, so their descendants are not visited; a citation block visits
/// only the children of its last child element.
pub open spec fn visits_unknown(n: GNode) -> bool
    decreases n,
{
    match n {
        GNode::Text(_) => false,
        GNode::Element { tag, attrs, children } => {
            if tag == "a"@ || tag == "br"@ {
                false
            } else if tag == "div"@ {
                if has_class(n, "postrow-message"@) {
                    false
                } else if has_class(n, "border-blue-500"@) {
                    {
                        let j = last_element_index(children);
                        if j >= 0 {
                            proof {
                                lemma_last_element_index(children);
                                broadcast use vstd::seq::axiom_seq_index_decreases;

                                assert(decreases_to!(children => children[j]));
                            }
                            visits_unknown_seq(children[j]->children)
                        } else {
                            false
                        }
                    }
                } else {
                    false
                }
            } else if tag == "span"@ {
                visits_unknown_seq(children)
            } else {
                true
            }
        },
    }
}

/// Some node of `ns` carries an unknown tag in visited position.
pub open spec fn visits_unknown_seq(ns: Seq<GNode>) -> bool
    decreases ns,
{
    if ns.len() == 0 {
        false
    } else {
        proof {
            broadcast use vstd::seq::axiom_seq_index_decreases;
            broadcast use vstd::seq::axiom_seq_subrange_decreases;
        }
        visits_unknown_seq(ns.drop_last()) || visits_unknown(ns.last())
    }
}

/// Fatal on unknown structure: a message body holding an element tag the
/// walker was not taught, anywhere the walk visits, makes the conversion
/// report failure rather than silently drop content.
pub proof fn lemma_unknown_tag_fatal(n: GNode, cited: bool)
    ensures
        visits_unknown(n) ==> walk(n, cited) is Err,
    decreases n,
{
    reveal_strlit("a");
    reveal_strlit("br");
    reveal_strlit("div");
    reveal_strlit("span");
    match n {
        GNode::Text(_) => {
        },
        GNode::Element { tag, attrs, children } => {
            if tag == "div"@ && !has_class(n, "postrow-message"@) && has_class(
                n,
                "border-blue-500"@,
            ) {
                let j = last_element_index(children);
                if j >= 0 {
                    lemma_last_element_index(children);
                    broadcast use vstd::seq::axiom_seq_index_decreases;

                    assert(decreases_to!(children => children[j]));
                    lemma_unknown_tag_fatal_seq(children[j]->children, true);
                }
            } else if tag == "span"@ {
                lemma_unknown_tag_fatal_seq(children, false);
            }
        },
    }
}

proof fn lemma_unknown_tag_fatal_seq(ns: Seq<GNode>, cited: bool)
    ensures
        visits_unknown_seq(ns) ==> walk_children(ns, cited) is Err,
    decreases ns,
{
    if ns.len() > 0 {
        broadcast use vstd::seq::axiom_seq_index_decreases;
        broadcast use vstd::seq::axiom_seq_subrange_decreases;

        lemma_unknown_tag_fatal_seq(ns.drop_last(), cited);
        lemma_unknown_tag_fatal(ns.last(), cited);
    }
}

/// Whitespace elision: a text node whose content is all whitespace
/// produces zero runs.
pub proof fn lemma_whitespace_elision(s: Seq<char>, cited: bool)
    requires
        crate::text::all_space(s),
    ensures
        walk(GNode::Text(s), cited) == Ok::<Seq<GRun>, GErr>(Seq::<GRun>::empty()),
{
    crate::text::lemma_all_space_trims_empty(s);
}

/// The views of a sequence of runs, in order.
pub open spec fn runs_view(v: Seq<StyledRun>) -> Seq<GRun> {
    v.map_values(|x: StyledRun| x@)
}

/// A descriptor with every field absent.
pub fn empty_descriptor() -> (r: StyleDescriptor)
    ensures
        r@ == empty_style(),
{
    StyleDescriptor {
        bold: None,
        italic: None,
        underline: None,
        size: None,
        color: None,
        semantic_tag: None,
    }
}

proof fn lemma_walk_children_err(ns: Seq<GNode>, i: int, cited: bool)
    requires
        0 <= i <= ns.len(),
        walk_children(ns.subrange(0, i), cited) is Err,
    ensures
        walk_children(ns, cited) == walk_children(ns.subrange(0, i), cited),
    decreases ns.len(),
{
    if i == ns.len() {
        assert(ns.subrange(0, i) =~= ns);
    } else {
        let t = ns.drop_last();
        assert(t.subrange(0, i) =~= ns.subrange(0, i));
        lemma_walk_children_err(t, i, cited);
    }
}

proof fn lemma_last_element_index_at(ns: Seq<GNode>, i: int)
    requires
        0 <= i < ns.len(),
        ns[i] is Element,
        forall|k: int| i < k < ns.len() ==> !(#[trigger] ns[k] is Element),
    ensures
        last_element_index(ns) == i,
    decreases ns.len(),
{
    if i < ns.len() - 1 {
        let t = ns.drop_last();
        assert(forall|k: int| 0 <= k < ns.len() - 1 ==> #[trigger] t[k] == ns[k]);
        lemma_last_element_index_at(t, i);
    }
}

/// Walk the direct children of `container` in order, as `walk_children`
/// describes, handing each child to `parse_html_to_docx_format`.
pub fn parse_recursive(container: &Node, last_element_is_citation: bool) -> (r: Result<
    Vec<StyledRun>,
    EngineError,
>)
    requires
        container@ is Element,
    ensures
        (match r {
            Ok(v) => walk_children(container@->children, last_element_is_citation) == Ok::<
                Seq<GRun>,
                GErr,
            >(runs_view(v@)),
            Err(e) => walk_children(container@->children, last_element_is_citation) == Err::<
                Seq<GRun>,
                GErr,
            >(e@),
        }),
{
    match container {
        Node::Element { children, .. } => convert_children(children, last_element_is_citation),
        Node::Text(_) => {
            proof {
                assert(false);
            }
            Err(EngineError::EmptyCitationBlock)
        },
    }
}

/// Walk a sequence of sibling nodes, concatenating their runs; the first
/// fatal failure aborts the walk.
#[verifier::loop_isolation(false)]
fn convert_children(children: &Vec<Node>, cited: bool) -> (r: Result<Vec<StyledRun>, EngineError>)
    ensures
        (match r {
            Ok(v) => walk_children(nodes_view(children@), cited) == Ok::<Seq<GRun>, GErr>(
                runs_view(v@),
            ),
            Err(e) => walk_children(nodes_view(children@), cited) == Err::<Seq<GRun>, GErr>(e@),
        }),
    decreases children@,
{
    let ghost cv = nodes_view(children@);
    proof {
        lemma_nodes_view_index(children@);
        assert(cv.subrange(0, 0) =~= Seq::<GNode>::empty());
        assert(runs_view(Seq::<StyledRun>::empty()) =~= Seq::<GRun>::empty());
    }
    let mut out: Vec<StyledRun> = Vec::new();
    let mut i: usize = 0;
    while i < children.len()
        invariant
            0 <= i <= children@.len(),
            walk_children(cv.subrange(0, i as int), cited) == Ok::<Seq<GRun>, GErr>(
                runs_view(out@),
            ),
        decreases children@.len() - i,
    {
        proof {
            broadcast use vstd::std_specs::vec::axiom_vec_decreases_to_view;
            broadcast use vstd::seq::axiom_seq_index_decreases;

            assert(decreases_to!(children@ => children@[i as int]));
        }
        let ghost pre = cv.subrange(0, i as int);
        let ghost ext = cv.subrange(0, i + 1);
        proof {
            assert(ext.drop_last() =~= pre);
            assert(ext.last() == cv[i as int]);
        }
        match parse_html_to_docx_format(&children[i], cited) {
            Err(e) => {
                proof {
                    assert(walk_children(ext, cited) == Err::<Seq<GRun>, GErr>(e@));
                    lemma_walk_children_err(cv, i + 1, cited);
                }
                return Err(e);
            },
            Ok(mut rs) => {
                proof {
                    assert(walk_children(ext, cited) == Ok::<Seq<GRun>, GErr>(
                        runs_view(out@) + runs_view(rs@),
                    ));
                }
                let ghost pre_out = out@;
                let ghost pre_rs = rs@;
                out.append(&mut rs);
                proof {
                    assert(runs_view(out@) =~= runs_view(pre_out) + runs_view(pre_rs));
                }
                i = i + 1;
            },
        }
    }
    proof {
        assert(cv.subrange(0, cv.len() as int) =~= cv);
    }
    Ok(out)
}

/// Handle a citation block given its children: emit the "Citation: "
/// label, then walk the last child element's children and tag every
/// produced run as citation, as `walk_citation` describes.
#[verifier::loop_isolation(false)]
fn handle_citation_block(children: &Vec<Node>) -> (r: Result<Vec<StyledRun>, EngineError>)
    ensures
        (match r {
            Ok(v) => walk_citation(nodes_view(children@)) == Ok::<Seq<GRun>, GErr>(runs_view(v@)),
            Err(e) => walk_citation(nodes_view(children@)) == Err::<Seq<GRun>, GErr>(e@),
        }),
    decreases children@,
{
    let ghost cv = nodes_view(children@);
    proof {
        lemma_nodes_view_index(children@);
        lemma_last_element_index(cv);
    }
    let n = children.len();
    let mut i: usize = n;
    while i > 0
        invariant
            0 <= i <= n,
            n == children@.len(),
            forall|k: int| i <= k < n ==> !(#[trigger] cv[k] is Element),
        decreases i,
    {
        let j = i - 1;
        match &children[j] {
            Node::Element { children: inner, .. } => {
                proof {
                    assert(cv[j as int] == children@[j as int]@);
                    lemma_last_element_index_at(cv, j as int);
                    assert(cv[j as int]->children == nodes_view(inner@));
                    broadcast use vstd::std_specs::vec::axiom_vec_decreases_to_view;
                    broadcast use vstd::seq::axiom_seq_index_decreases;

                    assert(decreases_to!(children@ => children@[j as int]));
                    assert(decreases_to!(children@[j as int] => *inner));
                    assert(decreases_to!(*inner => inner@));
                }
                match convert_children(inner, true) {
                    Err(e) => {
                        return Err(e);
                    },
                    Ok(rs) => {
                        let mut v: Vec<StyledRun> = Vec::new();
                        v.push(
                            StyledRun {
                                text: "Citation: ".to_owned(),
                                style: StyleDescriptor {
                                    bold: Some(true),
                                    italic: None,
                                    underline: None,
                                    size: None,
                                    color: None,
                                    semantic_tag: Some("citation".to_owned()),
                                },
                                is_break: false,
                            },
                        );
                        proof {
                            assert(runs_view(v@) =~= seq![citation_label_run()]);
                        }
                        let cite = StyleDescriptor {
                            bold: None,
                            italic: None,
                            underline: None,
                            size: None,
                            color: None,
                            semantic_tag: Some("citation".to_owned()),
                        };
                        let mut k: usize = 0;
                        while k < rs.len()
                            invariant
                                0 <= k <= rs@.len(),
                                cite@ == citation_only_style(),
                                runs_view(v@) =~= seq![citation_label_run()] + runs_view(
                                    rs@.subrange(0, k as int),
                                ).map_values(|r: GRun| tag_citation(r)),
                            decreases rs@.len() - k,
                        {
                            let ghost pre_v = v@;
                            v.push(
                                StyledRun {
                                    text: rs[k].text.clone(),
                                    style: rs[k].style.merge(&cite),
                                    is_break: rs[k].is_break,
                                },
                            );
                            k = k + 1;
                            proof {
                                assert(v@.last()@ == tag_citation(rs@[k - 1]@));
                                assert(runs_view(v@) =~= runs_view(pre_v).push(
                                    tag_citation(rs@[k - 1]@),
                                ));
                                assert(runs_view(rs@.subrange(0, k as int)).map_values(
                                    |r: GRun| tag_citation(r),
                                ) =~= runs_view(rs@.subrange(0, k - 1)).map_values(
                                    |r: GRun| tag_citation(r),
                                ).push(tag_citation(rs@[k - 1]@)));
                            }
                        }
                        proof {
                            assert(rs@.subrange(0, rs@.len() as int) =~= rs@);
                            assert(runs_view(v@) =~= seq![citation_label_run()] + runs_view(
                                rs@,
                            ).map_values(|r: GRun| tag_citation(r)));
                        }
                        return Ok(v);
                    },
                }
            },
            Node::Text(_) => {
                proof {
                    assert(cv[j as int] == children@[j as int]@);
                }
                i = j;
            },
        }
    }
    proof {
        assert(last_element_index(cv) < 0);
    }
    Err(EngineError::EmptyCitationBlock)
}

/// Convert one node of a message body to its styled runs, dispatching on
/// the node's kind and tag, as `walk` describes: text is trimmed and
/// whitespace-only text elided; a hyperlink becomes one underlined run over
/// its flattened text; a line break becomes a paragraph-break marker; the
/// root message container is stripped; a citation-marked block is handed to
/// the citation handler; an inline-style span resolves its style attribute
/// and merges it under each child run; any other structure is a fatal
/// error.
#[verifier::loop_isolation(false)]
pub fn parse_html_to_docx_format(node: &Node, last_element_is_citation: bool) -> (r: Result<
    Vec<StyledRun>,
    EngineError,
>)
    ensures
        (match r {
            Ok(v) => walk(node@, last_element_is_citation) == Ok::<Seq<GRun>, GErr>(
                runs_view(v@),
            ),
            Err(e) => walk(node@, last_element_is_citation) == Err::<Seq<GRun>, GErr>(e@),
        }),
    decreases *node,
{
    match node {
        Node::Text(s) => {
            let t = trim_str(s.as_str());
            let mut v: Vec<StyledRun> = Vec::new();
            if t.unicode_len() > 0 {
                v.push(StyledRun { text: t, style: empty_descriptor(), is_break: false });
                proof {
                    assert(runs_view(v@) =~= text_runs(s@));
                }
            } else {
                proof {
                    assert(runs_view(v@) =~= text_runs(s@));
                }
            }
            Ok(v)
        },
        Node::Element { tag, attrs, children } => {
            proof {
                broadcast use vstd::std_specs::vec::axiom_vec_decreases_to_view;

                assert(decreases_to!(*node => *children));
                assert(decreases_to!(*children => children@));
            }
            if str_eq(tag.as_str(), "a") {
                let txt = flatten_nodes(children);
                let mut v: Vec<StyledRun> = Vec::new();
                v.push(
                    StyledRun {
                        text: txt,
                        style: StyleDescriptor {
                            bold: None,
                            italic: None,
                            underline: Some(true),
                            size: None,
                            color: None,
                            semantic_tag: None,
                        },
                        is_break: false,
                    },
                );
                proof {
                    assert(runs_view(v@) =~= seq![
                        GRun {
                            text: flat_texts(nodes_view(children@)),
                            style: underline_style(),
                            is_break: false,
                        }
                    ]);
                }
                Ok(v)
            } else if str_eq(tag.as_str(), "br") {
                let mut v: Vec<StyledRun> = Vec::new();
                v.push(
                    StyledRun { text: String::new(), style: empty_descriptor(), is_break: true },
                );
                proof {
                    assert(runs_view(v@) =~= seq![break_run()]);
                }
                Ok(v)
            } else if str_eq(tag.as_str(), "div") {
                if node_has_class(node, "postrow-message") {
                    let v: Vec<StyledRun> = Vec::new();
                    proof {
                        assert(runs_view(v@) =~= Seq::<GRun>::empty());
                    }
                    Ok(v)
                } else if node_has_class(node, "border-blue-500") {
                    handle_citation_block(children)
                } else {
                    let cls = match find_attr(attrs, "class") {
                        Some(c) => c,
                        None => String::new(),
                    };
                    Err(EngineError::UnknownClass(cls))
                }
            } else if str_eq(tag.as_str(), "span") {
                let sty_attr = find_attr(attrs, "style");
                let ambient = match resolve_style(
                    match &sty_attr {
                        Some(s) => Some(s.as_str()),
                        None => None,
                    },
                ) {
                    Ok(d) => d,
                    Err(e) => {
                        return Err(e);
                    },
                };
                let rs = match convert_children(children, false) {
                    Ok(v) => v,
                    Err(e) => {
                        return Err(e);
                    },
                };
                let mut v: Vec<StyledRun> = Vec::new();
                if !last_element_is_citation {
                    v.push(
                        StyledRun {
                            text: " ".to_owned(),
                            style: empty_descriptor(),
                            is_break: false,
                        },
                    );
                }
                let ghost lead: Seq<GRun> = if last_element_is_citation {
                    Seq::empty()
                } else {
                    seq![spacer_run()]
                };
                proof {
                    assert(runs_view(v@) =~= lead);
                }
                let mut k: usize = 0;
                while k < rs.len()
                    invariant
                        0 <= k <= rs@.len(),
                        runs_view(v@) =~= lead + runs_view(rs@.subrange(0, k as int)).map_values(
                            |r: GRun| apply_ambient(r, ambient@),
                        ),
                    decreases rs@.len() - k,
                {
                    let ghost pre_v = v@;
                    v.push(
                        StyledRun {
                            text: rs[k].text.clone(),
                            style: rs[k].style.merge(&ambient),
                            is_break: rs[k].is_break,
                        },
                    );
                    k = k + 1;
                    proof {
                        assert(v@.last()@ == apply_ambient(rs@[k - 1]@, ambient@));
                        assert(runs_view(v@) =~= runs_view(pre_v).push(
                            apply_ambient(rs@[k - 1]@, ambient@),
                        ));
                        assert(runs_view(rs@.subrange(0, k as int)).map_values(
                            |r: GRun| apply_ambient(r, ambient@),
                        ) =~= runs_view(rs@.subrange(0, k - 1)).map_values(
                            |r: GRun| apply_ambient(r, ambient@),
                        ).push(apply_ambient(rs@[k - 1]@, ambient@)));
                    }
                }
                v.push(
                    StyledRun { text: " ".to_owned(), style: empty_descriptor(), is_break: false },
                );
                proof {
                    assert(rs@.subrange(0, rs@.len() as int) =~= rs@);
                    assert(runs_view(v@) =~= span_wrap(
                        runs_view(rs@),
                        ambient@,
                        last_element_is_citation,
                    ));
                }
                Ok(v)
            } else {
                Err(EngineError::UnknownTag(tag.clone()))
            }
        },
    }
}

} // verus!
