use forumdoc::assemble::{
    anonymize_author, assemble, group_paragraphs, is_citation, MessageMeta, ThreadState,
};
use forumdoc::node::{Attr, Node};
use forumdoc::post::assemble_thread;
use forumdoc::style::StyleDescriptor;
use forumdoc::walker::{parse_recursive, StyledRun};

fn text(s: &str) -> Node {
    Node::Text(s.to_string())
}

fn elem(tag: &str, attrs: Vec<(&str, &str)>, children: Vec<Node>) -> Node {
    Node::Element {
        tag: tag.to_string(),
        attrs: attrs
            .into_iter()
            .map(|(n, v)| Attr { name: n.to_string(), value: v.to_string() })
            .collect(),
        children,
    }
}

fn plain_run(s: &str) -> StyledRun {
    StyledRun {
        text: s.to_string(),
        style: StyleDescriptor {
            bold: None,
            italic: None,
            underline: None,
            size: None,
            color: None,
            semantic_tag: None,
        },
        is_break: false,
    }
}

fn cited_run(s: &str) -> StyledRun {
    let mut r = plain_run(s);
    r.style.semantic_tag = Some("citation".to_string());
    r
}

fn break_run() -> StyledRun {
    let mut r = plain_run("");
    r.is_break = true;
    r
}

#[test]
fn anonymize_reduces_to_initials() {
    assert_eq!(anonymize_author("John Doe"), "JD");
}

#[test]
fn anonymize_keeps_honorific_names() {
    assert_eq!(anonymize_author("Rav Cohen"), "Rav Cohen");
    assert_eq!(anonymize_author("rav cohen"), "rav cohen");
}

#[test]
fn anonymize_handles_extra_whitespace_and_case() {
    assert_eq!(anonymize_author("  anna  maria lee "), "AML");
    assert_eq!(anonymize_author(""), "");
}

#[test]
fn anonymize_uppercases_accented_initials() {
    assert_eq!(anonymize_author("\u{e9}lie ben"), "\u{c9}B");
    // A no-break space separates words too.
    assert_eq!(anonymize_author("jean\u{a0}luc"), "JL");
}

#[test]
fn citation_state_groups_paragraphs() {
    let runs = vec![plain_run("a"), plain_run("b"), cited_run("q"), cited_run("r"), plain_run("c")];
    let paras = group_paragraphs(&runs);
    assert_eq!(paras.len(), 3);
    assert!(!paras[0].indented);
    assert_eq!(paras[0].runs.len(), 2);
    assert!(paras[1].indented);
    assert_eq!(paras[1].runs.len(), 2);
    assert!(!paras[2].indented);
    assert_eq!(paras[2].runs.len(), 1);
}

#[test]
fn break_marker_forces_a_boundary() {
    let runs = vec![plain_run("a"), break_run(), plain_run("b")];
    let paras = group_paragraphs(&runs);
    assert_eq!(paras.len(), 2);
    assert_eq!(paras[0].runs.len(), 2);
    assert!(paras[0].runs[1].is_break);
    assert_eq!(paras[1].runs.len(), 1);
    assert_eq!(paras[1].runs[0].text, "b");
}

#[test]
fn is_citation_reads_the_semantic_tag() {
    assert!(is_citation(&cited_run("q")));
    assert!(!is_citation(&plain_run("q")));
    assert!(!is_citation(&break_run()));
}

#[test]
fn owner_heading_reads_response() {
    let meta = MessageMeta {
        author: "Rav Binyamin Wattenberg".to_string(),
        date: "12/01/2024".to_string(),
    };
    let mut state = ThreadState { last_author: None };
    let paras = assemble(&vec![plain_run("x")], &meta, &mut state);
    assert_eq!(paras[0].runs[0].text, "Response:");
    assert_eq!(paras[0].runs[0].style.bold, Some(true));
    assert_eq!(paras[0].runs[0].style.underline, Some(true));
    assert_eq!(paras[1].runs[0].text, "On 12/01/2024");
    assert_eq!(state.last_author.as_deref(), Some("Rav Binyamin Wattenberg"));
}

#[test]
fn second_owner_message_collapses_heading() {
    let meta = MessageMeta {
        author: "Rav Binyamin Wattenberg".to_string(),
        date: "d1".to_string(),
    };
    let mut state = ThreadState { last_author: None };
    let first = assemble(&vec![plain_run("x")], &meta, &mut state);
    assert_eq!(first[0].runs[0].text, "Response:");
    let second = assemble(&vec![plain_run("y")], &meta, &mut state);
    assert!(second.iter().all(|p| p.runs.iter().all(|r| r.text != "Response:")));
    assert_eq!(second[0].runs[0].text, "On d1");
}

#[test]
fn different_authors_both_get_headings() {
    let owner = MessageMeta {
        author: "Rav Binyamin Wattenberg".to_string(),
        date: "d1".to_string(),
    };
    let guest = MessageMeta { author: "John Doe".to_string(), date: "d2".to_string() };
    let mut state = ThreadState { last_author: None };
    let first = assemble(&vec![], &owner, &mut state);
    assert_eq!(first[0].runs[0].text, "Response:");
    let second = assemble(&vec![], &guest, &mut state);
    assert_eq!(second[0].runs[0].text, "Question from JD:");
    let third = assemble(&vec![], &owner, &mut state);
    assert_eq!(third[0].runs[0].text, "Response:");
}

#[test]
fn date_prefix_token_is_stripped() {
    let meta = MessageMeta {
        author: "John Doe".to_string(),
        date: "Post\u{e9} le: 03/04/2023".to_string(),
    };
    let mut state = ThreadState { last_author: None };
    let paras = assemble(&vec![], &meta, &mut state);
    assert_eq!(paras[1].runs[0].text, "On 03/04/2023");
}

#[test]
fn date_without_prefix_is_used_as_supplied() {
    let meta = MessageMeta { author: "John Doe".to_string(), date: "03/04/2023".to_string() };
    let mut state = ThreadState { last_author: None };
    let paras = assemble(&vec![], &meta, &mut state);
    assert_eq!(paras[1].runs[0].text, "On 03/04/2023");
}

#[test]
fn round_trip_body_yields_two_paragraphs() {
    let body = elem(
        "div",
        vec![],
        vec![
            elem("span", vec![("style", "font-weight:bold")], vec![text("Hi")]),
            elem("br", vec![], vec![]),
            elem(
                "div",
                vec![("class", "border-blue-500")],
                vec![elem("div", vec![], vec![text("Quoted")])],
            ),
        ],
    );
    let runs = parse_recursive(&body, false).unwrap();
    let paras = group_paragraphs(&runs);
    assert_eq!(paras.len(), 2);
    // First paragraph: untagged, holding the bold "Hi" run and ending in the
    // structural break.
    assert!(!paras[0].indented);
    let hi = paras[0].runs.iter().find(|r| r.text == "Hi").unwrap();
    assert_eq!(hi.style.bold, Some(true));
    assert!(hi.style.semantic_tag.is_none());
    assert!(paras[0].runs.last().unwrap().is_break);
    // Second paragraph: indented, the citation label then the quoted text,
    // both tagged as citation.
    assert!(paras[1].indented);
    assert_eq!(paras[1].runs[0].text, "Citation: ");
    assert_eq!(paras[1].runs[1].text, "Quoted");
    assert!(paras[1].runs.iter().all(|r| r.style.semantic_tag.as_deref() == Some("citation")));
}

#[test]
fn thread_fold_collapses_across_messages() {
    let owner = MessageMeta {
        author: "Rav Binyamin Wattenberg".to_string(),
        date: "d1".to_string(),
    };
    let owner2 = MessageMeta {
        author: "Rav Binyamin Wattenberg".to_string(),
        date: "d2".to_string(),
    };
    let items = vec![(owner, vec![plain_run("x")]), (owner2, vec![plain_run("y")])];
    let mut state = ThreadState { last_author: None };
    let paras = assemble_thread(&items, &mut state);
    let headings: Vec<_> = paras
        .iter()
        .flat_map(|p| p.runs.iter())
        .filter(|r| r.text == "Response:")
        .collect();
    assert_eq!(headings.len(), 1);
    assert_eq!(state.last_author.as_deref(), Some("Rav Binyamin Wattenberg"));
}
