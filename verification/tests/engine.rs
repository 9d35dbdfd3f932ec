use forumdoc::error::EngineError;
use forumdoc::node::{Attr, Node};
use forumdoc::style::{resolve_style, CharacterPropertyExt, Rgb, StyleDescriptor};
use forumdoc::walker::{parse_html_to_docx_format, parse_recursive, StyledRun};

fn text(s: &str) -> Node {
    Node::Text(s.to_string())
}

fn elem(tag: &str, attrs: Vec<(&str, &str)>, children: Vec<Node>) -> Node {
    Node::Element {
        tag: tag.to_string(),
        attrs: attrs
            .into_iter()
            .map(|(n, v)| Attr { name: n.to_string(), value: v.to_string() })
            .collect(),
        children,
    }
}

fn plain() -> StyleDescriptor {
    StyleDescriptor {
        bold: None,
        italic: None,
        underline: None,
        size: None,
        color: None,
        semantic_tag: None,
    }
}

#[test]
fn whitespace_only_text_produces_no_runs() {
    let runs = parse_html_to_docx_format(&text("   \t \n "), false).unwrap();
    assert_eq!(runs.len(), 0);
}

#[test]
fn no_break_space_only_text_produces_no_runs() {
    let runs = parse_html_to_docx_format(&text("\u{a0}\u{a0}"), false).unwrap();
    assert_eq!(runs.len(), 0);
}

#[test]
fn text_is_trimmed_to_one_run() {
    let runs = parse_html_to_docx_format(&text("  Hello  "), false).unwrap();
    assert_eq!(runs.len(), 1);
    assert_eq!(runs[0].text, "Hello");
    assert_eq!(runs[0].style, plain());
    assert!(!runs[0].is_break);
}

#[test]
fn merge_specific_field_wins() {
    let a = StyleDescriptor { bold: Some(true), italic: None, ..plain() };
    let b = StyleDescriptor { bold: Some(false), italic: Some(true), size: Some(20), ..plain() };
    let m = a.merge(&b);
    assert_eq!(m.bold, Some(true));
    assert_eq!(m.italic, Some(true));
    assert_eq!(m.size, Some(20));
    assert_eq!(m.underline, None);
}

#[test]
fn merge_with_itself_is_identity() {
    let a = StyleDescriptor {
        bold: Some(true),
        underline: Some(true),
        size: Some(24),
        color: Some(Rgb { red: 0, green: 0, blue: 255 }),
        semantic_tag: Some("citation".to_string()),
        ..plain()
    };
    let m = a.merge(&a);
    assert_eq!(m, a);
}

#[test]
fn font_size_below_floor_is_clamped_to_16() {
    let d = resolve_style(Some("font-size:10px")).unwrap();
    assert_eq!(d.size, Some(16));
}

#[test]
fn font_size_above_floor_is_kept() {
    let d = resolve_style(Some("font-size:20px")).unwrap();
    assert_eq!(d.size, Some(20));
}

#[test]
fn style_declarations_resolve() {
    let d =
        resolve_style(Some("font-weight:bold;font-style:italic;text-decoration:underline;color:blue"))
            .unwrap();
    assert_eq!(d.bold, Some(true));
    assert_eq!(d.italic, Some(true));
    assert_eq!(d.underline, Some(true));
    assert_eq!(d.color, Some(Rgb { red: 0, green: 0, blue: 255 }));
    assert_eq!(d.semantic_tag, None);
}

#[test]
fn unknown_color_is_left_unset() {
    let d = resolve_style(Some("color:red")).unwrap();
    assert_eq!(d.color, None);
}

#[test]
fn unknown_key_is_ignored() {
    let d = resolve_style(Some("letter-spacing:2px")).unwrap();
    assert_eq!(d, plain());
}

#[test]
fn later_declaration_overrides_earlier() {
    let d = resolve_style(Some("font-size:10px;font-size:20px")).unwrap();
    assert_eq!(d.size, Some(20));
}

#[test]
fn missing_separator_is_fatal() {
    let e = resolve_style(Some("font-weight bold")).unwrap_err();
    assert_eq!(e, EngineError::MalformedDeclaration("font-weight bold".to_string()));
}

#[test]
fn oversized_font_size_is_fatal() {
    let e = resolve_style(Some("font-size:999px")).unwrap_err();
    assert_eq!(e, EngineError::MalformedFontSize("999px".to_string()));
}

#[test]
fn absent_style_attribute_resolves_empty() {
    let d = resolve_style(None).unwrap();
    assert_eq!(d, plain());
}

#[test]
fn unknown_tag_is_fatal() {
    let body = elem("table", vec![], vec![text("cells")]);
    let e = parse_html_to_docx_format(&body, false).unwrap_err();
    assert_eq!(e, EngineError::UnknownTag("table".to_string()));
}

#[test]
fn unknown_div_class_is_fatal() {
    let body = elem("div", vec![("class", "sidebar")], vec![text("x")]);
    let e = parse_html_to_docx_format(&body, false).unwrap_err();
    assert_eq!(e, EngineError::UnknownClass("sidebar".to_string()));
}

#[test]
fn citation_without_child_element_is_fatal() {
    let body = elem("div", vec![("class", "border-blue-500")], vec![text("loose")]);
    let e = parse_html_to_docx_format(&body, false).unwrap_err();
    assert_eq!(e, EngineError::EmptyCitationBlock);
}

#[test]
fn root_container_is_stripped() {
    let body = elem("div", vec![("class", "postrow-message")], vec![text("inside")]);
    let runs = parse_html_to_docx_format(&body, false).unwrap();
    assert_eq!(runs.len(), 0);
}

#[test]
fn link_flattens_to_one_underlined_run() {
    let body = elem(
        "a",
        vec![("href", "page.php")],
        vec![text("see "), elem("b", vec![], vec![text("here")])],
    );
    // The inner unknown tag is not visited: links are leaves for styling.
    let runs = parse_html_to_docx_format(&body, false).unwrap();
    assert_eq!(runs.len(), 1);
    assert_eq!(runs[0].text, "see here");
    assert_eq!(runs[0].style.underline, Some(true));
    assert_eq!(runs[0].style.bold, None);
}

#[test]
fn line_break_is_a_structural_marker() {
    let runs = parse_html_to_docx_format(&elem("br", vec![], vec![]), false).unwrap();
    assert_eq!(runs.len(), 1);
    assert!(runs[0].is_break);
    assert_eq!(runs[0].text, "");
}

#[test]
fn span_merges_its_style_under_child_runs() {
    let body = elem("span", vec![("style", "font-weight:bold")], vec![text("Hi")]);
    let runs = parse_html_to_docx_format(&body, false).unwrap();
    // spacer, the bold run, spacer
    assert_eq!(runs.len(), 3);
    assert_eq!(runs[0].text, " ");
    assert_eq!(runs[2].text, " ");
    assert_eq!(runs[1].text, "Hi");
    assert_eq!(runs[1].style.bold, Some(true));
}

#[test]
fn inner_span_overrides_outer_span() {
    let body = elem(
        "span",
        vec![("style", "font-size:20px")],
        vec![elem("span", vec![("style", "font-size:30px")], vec![text("x")])],
    );
    let runs = parse_html_to_docx_format(&body, false).unwrap();
    let x = runs.iter().find(|r| r.text == "x").unwrap();
    assert_eq!(x.style.size, Some(30));
}

#[test]
fn citation_block_tags_every_run() {
    let quoted = elem(
        "div",
        vec![],
        vec![
            text("Quoted "),
            elem("span", vec![("style", "font-weight:bold")], vec![text("words")]),
        ],
    );
    let body = elem(
        "div",
        vec![("class", "w-full border-blue-500")],
        vec![text("ignored"), quoted],
    );
    let runs = parse_html_to_docx_format(&body, false).unwrap();
    assert_eq!(runs[0].text, "Citation: ");
    assert_eq!(runs[0].style.bold, Some(true));
    for r in &runs {
        assert_eq!(r.style.semantic_tag.as_deref(), Some("citation"));
    }
    // The span's own bold survives the tagging merge.
    let words = runs.iter().find(|r| r.text == "words").unwrap();
    assert_eq!(words.style.bold, Some(true));
}

#[test]
fn citation_uses_last_child_element_only() {
    let first = elem("div", vec![], vec![text("first")]);
    let last = elem("div", vec![], vec![text("last")]);
    let body = elem("div", vec![("class", "border-blue-500")], vec![first, last]);
    let runs = parse_html_to_docx_format(&body, false).unwrap();
    assert_eq!(runs.len(), 2);
    assert_eq!(runs[0].text, "Citation: ");
    assert_eq!(runs[1].text, "last");
}

#[test]
fn walking_children_concatenates_in_order() {
    let container = elem("div", vec![], vec![text("one"), elem("br", vec![], vec![]), text("two")]);
    let runs = parse_recursive(&container, false).unwrap();
    assert_eq!(runs.len(), 3);
    assert_eq!(runs[0].text, "one");
    assert!(runs[1].is_break);
    assert_eq!(runs[2].text, "two");
}

#[test]
fn error_deep_inside_span_surfaces() {
    let body = elem("span", vec![], vec![elem("video", vec![], vec![])]);
    let e = parse_html_to_docx_format(&body, false).unwrap_err();
    assert_eq!(e, EngineError::UnknownTag("video".to_string()));
}
