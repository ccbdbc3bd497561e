use cli_epub_reader::node::Node;
use cli_epub_reader::page_formatter::{
    clone_text, render, render_into, Chapter, ErrorTextFormating, FORMATTING_NODES,
};
use cli_epub_reader::paint::{paint, paint_all, paint_onto};
use cli_epub_reader::style::{
    apply_structural_node, apply_text_node, center_text, classify, is_inline, is_structural,
    NodeKind, Style, StyledText,
};

fn get_formatting_nodes(list_nodes: &Vec<Node>) -> Vec<usize> {
    let mut result: Vec<usize> = Vec::new();
    for node in list_nodes {
        if FORMATTING_NODES.contains(&node.get_name().as_str()) {
            result.push(node.get_id());
        }
    }
    result
}

fn element(id: usize, name: &str, text: Option<&str>, children: Vec<Node>) -> Node {
    Node {
        id,
        name: name.to_string(),
        attributes: vec![],
        children,
        text: text.map(|t| t.to_string()),
    }
}

fn content(id: usize, text: &str) -> Node {
    element(id, "content", Some(text), vec![])
}

fn span_of(id: usize, name: &str, text: &str) -> Node {
    element(id, name, Some(text), vec![content(id + 1, text)])
}

fn styled(text: &str, style: Style) -> StyledText {
    StyledText { text: text.to_string(), style }
}

fn chapter_tree() -> Node {
    let h3 = span_of(3, "h3", "Heading");
    let first = span_of(5, "p", "First.");
    let second = span_of(7, "p", "Second.");
    let span = element(9, "span", None, vec![]);
    let br = element(10, "br", None, vec![]);
    let article = element(1, "article", None, vec![
        element(2, "header", None, vec![]),
        h3,
        first,
        second,
        span,
        br,
    ]);
    element(0, "body", None, vec![article])
}

fn chapter_nodes() -> Vec<Node> {
    vec![
        chapter_tree(),
        element(1, "article", None, vec![]),
        element(2, "header", None, vec![]),
        span_of(3, "h3", "Heading"),
        span_of(5, "p", "First."),
        span_of(7, "p", "Second."),
        element(9, "span", None, vec![]),
        element(10, "br", None, vec![]),
    ]
}

fn styled_paragraph() -> Node {
    element(0, "p", None, vec![
        span_of(1, "strong", "bold"),
        span_of(3, "em", "italic"),
        span_of(5, "u", "under"),
        span_of(7, "del", "gone"),
        span_of(9, "q", "quoted"),
    ])
}

#[test]
fn test_start_chapter() {
    let test_file = "tests\\test_start_chapter.xml".to_string();
    let mut test_chapter = Chapter::new(test_file, (500, 500));
    let _ = test_chapter.start_chapter(Some(chapter_nodes()));
    assert_eq!(test_chapter.get_all_nodes().unwrap().len(), 8);

    assert_eq!(test_chapter.get_all_nodes().unwrap()[0].get_name(), &"body".to_string());
    assert_eq!(test_chapter.get_all_nodes().unwrap()[1].get_name(), &"article".to_string());
    assert_eq!(test_chapter.get_all_nodes().unwrap()[3].get_name(), &"h3".to_string());
    assert_eq!(test_chapter.get_all_nodes().unwrap()[4].get_name(), &"p".to_string());
    assert_eq!(test_chapter.get_all_nodes().unwrap()[5].get_name(), &"p".to_string());
    assert_eq!(test_chapter.get_all_nodes().unwrap()[6].get_name(), &"span".to_string());
    assert_eq!(test_chapter.get_all_nodes().unwrap()[7].get_name(), &"br".to_string());
}

#[test]
fn test_start_chapter_renders_the_first_node() {
    colored::control::set_override(false);
    let mut chapter = Chapter::new("chapter.xhtml".to_string(), (20, 10));
    assert_eq!(chapter.start_chapter(Some(chapter_nodes())), Ok(()));
    let expected = vec![
        styled("   Heading", Style::Heading),
        styled("Heading", Style::Plain),
        styled("\n\n", Style::Plain),
        styled("First.\n", Style::Plain),
        styled("\n\n", Style::Plain),
        styled("Second.\n", Style::Plain),
        styled("\n", Style::Plain),
    ];
    assert_eq!(chapter.get_fragments(), &expected);
    assert_eq!(
        chapter.get_content(),
        "   HeadingHeading\n\nFirst.\n\n\nSecond.\n\n"
    );
}

#[test]
fn test_start_chapter_without_nodes() {
    let mut chapter = Chapter::new("missing.xhtml".to_string(), (80, 24));
    let outcome = chapter.start_chapter(None);
    assert_eq!(outcome, Err(ErrorTextFormating::FailedToReadChapter));
    assert!(chapter.get_all_nodes().is_none());
    assert!(chapter.get_fragments().is_empty());
    assert_eq!(chapter.get_content(), "");
}

#[test]
fn test_start_chapter_with_no_node_at_all() {
    let mut chapter = Chapter::new("empty.xhtml".to_string(), (80, 24));
    assert_eq!(chapter.start_chapter(Some(vec![])), Ok(()));
    assert_eq!(chapter.get_all_nodes().unwrap().len(), 0);
    assert!(chapter.get_fragments().is_empty());
    assert_eq!(chapter.get_content(), "");
}

#[test]
fn test_new_chapter_is_empty() {
    let chapter = Chapter::new("a.xhtml".to_string(), (80, 24));
    assert_eq!(chapter.get_title(), None);
    assert_eq!(chapter.get_file_path(), "a.xhtml");
    assert_eq!(chapter.get_terminal_size(), (80, 24));
    assert!(chapter.get_all_nodes().is_none());
    assert!(chapter.get_fragments().is_empty());
    assert_eq!(chapter.get_content(), "");
    assert!(chapter == Chapter::new("a.xhtml".to_string(), (10, 10)));
    assert!(chapter != Chapter::new("b.xhtml".to_string(), (80, 24)));
}

#[test]
fn test_get_all_content_nodes() {
    let mut test_chapter = Chapter::new("tests\\test_start_chapter.xml".to_string(), (500, 500));
    let _ = test_chapter.start_chapter(Some(chapter_nodes()));

    let expected_formatting_nodes = get_formatting_nodes(test_chapter.get_all_nodes().unwrap());
    let current_formatting_nodes =
        Chapter::get_content_nodes(&test_chapter.get_all_nodes().unwrap());
    assert_eq!(current_formatting_nodes.len(), expected_formatting_nodes.len());

    for (i, (actual, expected)) in current_formatting_nodes
        .iter()
        .zip(expected_formatting_nodes.iter())
        .enumerate()
    {
        assert_eq!(
            actual, expected,
            "Mismatch at index {}: expected '{}', got '{}'",
            i, expected, actual
        );
    }
    assert_eq!(current_formatting_nodes, vec![3, 5, 7, 9, 10]);
}

#[test]
fn test_is_formating_node() {
    for tag in FORMATTING_NODES {
        assert!(Chapter::is_formating_node(&tag.to_string()));
    }
    assert!(!Chapter::is_formating_node(&"body".to_string()));
    assert!(!Chapter::is_formating_node(&"hr".to_string()));
    assert!(!Chapter::is_formating_node(&"".to_string()));
}

#[test]
fn test_format_text_nodes() {
    let text = || Some("word".to_string());
    assert_eq!(apply_text_node(text(), "strong"), styled("word", Style::Bold));
    assert_eq!(apply_text_node(text(), "b"), styled("word", Style::Bold));
    assert_eq!(apply_text_node(text(), "em"), styled("word", Style::Italic));
    assert_eq!(apply_text_node(text(), "i"), styled("word", Style::Italic));
    assert_eq!(apply_text_node(text(), "u"), styled("word", Style::Underline));
    assert_eq!(apply_text_node(text(), "ins"), styled("word", Style::Underline));
    assert_eq!(apply_text_node(text(), "del"), styled("word", Style::Strikethrough));
    assert_eq!(apply_text_node(text(), "blockquote"), styled("“word”", Style::Plain));
    assert_eq!(apply_text_node(text(), "q"), styled("“word”", Style::Plain));
    assert_eq!(apply_text_node(text(), "p"), styled("word\n", Style::Plain));
    assert_eq!(apply_text_node(text(), "span"), styled("word", Style::Plain));
    assert_eq!(apply_text_node(text(), "content"), styled("word", Style::Plain));
    assert_eq!(apply_text_node(text(), ""), styled("word", Style::Plain));
    assert_eq!(apply_text_node(None, "strong"), styled("", Style::Plain));
    assert_eq!(apply_text_node(None, "p"), styled("", Style::Plain));
}

#[test]
fn test_format_structural_nodes() {
    let text = || Some("Title".to_string());
    assert_eq!(apply_structural_node(text(), "h1", 11), styled("   Title", Style::Heading));
    assert_eq!(apply_structural_node(text(), "h2", 11), styled("  Title", Style::Heading));
    assert_eq!(apply_structural_node(text(), "h3", 11), styled(" Title", Style::Heading));
    assert_eq!(apply_structural_node(text(), "h3", 5), styled("Title", Style::Heading));
    assert_eq!(apply_structural_node(text(), "h4", 11), styled("", Style::Plain));
    assert_eq!(apply_structural_node(text(), "p", 11), styled("\n\n", Style::Plain));
    assert_eq!(apply_structural_node(text(), "br", 11), styled("", Style::Plain));
    assert_eq!(apply_structural_node(None, "br", 11), styled("\n", Style::Plain));
    assert_eq!(apply_structural_node(None, "p", 11), styled("\n\n", Style::Plain));
    assert_eq!(apply_structural_node(None, "h1", 11), styled("", Style::Plain));
    assert_eq!(apply_structural_node(None, "hr", 11), styled("", Style::Plain));
}

#[test]
fn test_center_text_of_wide_text_is_unchanged() {
    for tag in ["h1", "h2", "h3", "h4", "p", ""] {
        assert_eq!(center_text("abcde", tag, 5), "abcde");
        assert_eq!(center_text("abcdef", tag, 5), "abcdef");
        assert_eq!(center_text("abcde", tag, 0), "abcde");
        assert_eq!(center_text("", tag, 0), "");
    }
}

#[test]
fn test_center_text_pads_by_heading_level() {
    assert_eq!(center_text("ab", "h1", 14), "      ab");
    assert_eq!(center_text("ab", "h2", 14), "    ab");
    assert_eq!(center_text("ab", "h3", 14), "   ab");
    assert_eq!(center_text("ab", "h4", 14), "ab\n");
    assert_eq!(center_text("ab", "p", 3), "ab\n");
    assert_eq!(center_text("ab", "h1", 3), "ab");
    assert_eq!(center_text("", "h1", 4), "  ");
    let padded = center_text("ab", "h1", 14);
    assert_eq!(padded.chars().count(), 2 + 6);
    assert_eq!(center_text("née", "h1", 7), "  née");
}

#[test]
fn test_classify() {
    for tag in ["h1", "h2", "h3", "h4", "h5", "h6", "br", "hr", "p"] {
        assert_eq!(classify(tag), NodeKind::Block);
        assert!(is_structural(tag));
        assert!(!is_inline(tag));
    }
    for tag in ["strong", "b", "em", "i", "u", "ins", "del", "small", "blockquote", "q"] {
        assert_eq!(classify(tag), NodeKind::Inline);
        assert!(is_inline(tag));
        assert!(!is_structural(tag));
    }
    for tag in ["body", "article", "span", "content", ""] {
        assert_eq!(classify(tag), NodeKind::Container);
    }
}

#[test]
fn test_format_content() {
    let expected = vec![
        styled("\n\n", Style::Plain),
        styled("bold", Style::Bold),
        styled("italic", Style::Italic),
        styled("under", Style::Underline),
        styled("gone", Style::Strikethrough),
        styled("“quoted”", Style::Plain),
    ];
    assert_eq!(render(&styled_paragraph(), 80), expected);

    colored::control::set_override(true);
    assert_eq!(
        paint_all(&expected),
        "\n\n\x1B[1mbold\x1B[0m\x1B[3mitalic\x1B[0m\x1B[4munder\x1B[0m\x1B[9mgone\x1B[0m“quoted”"
    );
    colored::control::set_override(false);
    assert_eq!(paint_all(&expected), "\n\nbolditalicundergone“quoted”");
}

#[test]
fn test_last_content_child_is_styled_as_its_parent() {
    let paragraph = element(0, "strong", Some("parent"), vec![
        content(1, "first"),
        element(2, "em", None, vec![content(3, "inner")]),
        content(4, "last"),
    ]);
    let expected = vec![
        styled("first", Style::Plain),
        styled("", Style::Plain),
        styled("parent", Style::Bold),
    ];
    assert_eq!(render(&paragraph, 10), expected);
}

#[test]
fn test_render_of_a_leaf() {
    assert_eq!(render(&element(0, "span", Some("x"), vec![]), 10), vec![]);
    assert_eq!(
        render(&element(0, "br", None, vec![]), 10),
        vec![styled("\n", Style::Plain)]
    );
    assert_eq!(
        render(&element(0, "h1", Some("T"), vec![]), 5),
        vec![styled("  T", Style::Heading)]
    );
}

#[test]
fn test_render_twice_gives_the_same() {
    let tree = chapter_tree();
    assert_eq!(render(&tree, 40), render(&tree, 40));

    colored::control::set_override(true);
    let mut chapter = Chapter::new("chapter.xhtml".to_string(), (40, 10));
    assert_eq!(chapter.start_chapter(Some(chapter_nodes())), Ok(()));
    let fragments = chapter.get_fragments().clone();
    let shown = chapter.get_content().clone();
    chapter.create_page();
    assert_eq!(chapter.get_fragments(), &fragments);
    assert_eq!(chapter.get_content(), &shown);

    let mut other = Chapter::new("other.xhtml".to_string(), (40, 99));
    assert_eq!(other.start_chapter(Some(chapter_nodes())), Ok(()));
    assert_eq!(other.get_fragments(), &fragments);
    assert_eq!(other.get_content(), &shown);
}

#[test]
fn test_apply_format_appends() {
    colored::control::set_override(true);
    let mut chapter = Chapter::new("chapter.xhtml".to_string(), (9, 10));
    chapter.apply_format_(&span_of(0, "b", "one"));
    chapter.apply_format_(&element(2, "h2", Some("two"), vec![]));
    let expected = vec![styled("one", Style::Bold), styled("  two", Style::Heading)];
    assert_eq!(chapter.get_fragments(), &expected);
    assert_eq!(chapter.get_content(), "\x1B[1mone\x1B[0m\x1B[1;4m  two\x1B[0m");
    assert!(chapter.get_all_nodes().is_none());

    let mut out = vec![styled("kept", Style::Plain)];
    render_into(&span_of(0, "i", "more"), 9, &mut out);
    assert_eq!(out, vec![styled("kept", Style::Plain), styled("more", Style::Italic)]);
}

#[test]
fn test_paint_each_style() {
    colored::control::set_override(true);
    assert_eq!(paint(&styled("t", Style::Plain)), "t");
    assert_eq!(paint(&styled("t", Style::Bold)), "\x1B[1mt\x1B[0m");
    assert_eq!(paint(&styled("t", Style::Italic)), "\x1B[3mt\x1B[0m");
    assert_eq!(paint(&styled("t", Style::Underline)), "\x1B[4mt\x1B[0m");
    assert_eq!(paint(&styled("t", Style::Strikethrough)), "\x1B[9mt\x1B[0m");
    assert_eq!(paint(&styled("t", Style::Heading)), "\x1B[1;4mt\x1B[0m");
    assert_eq!(paint(&styled("", Style::Bold)), "\x1B[1m\x1B[0m");
    assert_eq!(
        paint(&styled("a\x1B[0mb\x1B[0m", Style::Bold)),
        "\x1B[1ma\x1B[0m\x1B[1mb\x1B[0m\x1B[1m\x1B[0m"
    );
    assert_eq!(
        paint(&styled("x\x1B[0my", Style::Heading)),
        "\x1B[1;4mx\x1B[0m\x1B[1;4my\x1B[0m"
    );

    let fragments = vec![styled("a", Style::Plain), styled("b", Style::Bold)];
    let mut shown = "a".to_string();
    paint_onto(&mut shown, &fragments, 1);
    assert_eq!(shown, "a\x1B[1mb\x1B[0m");

    colored::control::set_override(false);
    assert_eq!(paint(&styled("t", Style::Bold)), "t");
    assert_eq!(paint(&styled("t", Style::Heading)), "t");
}

#[test]
fn test_clone_text() {
    assert_eq!(clone_text(&None), None);
    assert_eq!(clone_text(&Some("x".to_string())), Some("x".to_string()));
}

#[test]
fn test() {
    let mut test_chapter = Chapter::new("tests\\test_error.xml".to_string(), (80, 24));
    let outcome = test_chapter.start_chapter(None);
    assert_eq!(outcome, Err(ErrorTextFormating::FailedToReadChapter));
}
