//! The style engine: from a tag and its optional text to a styled fragment.
//! Nothing here keeps state; every function is a mapping on its arguments.

use vstd::prelude::*;
use vstd::string::*;
use crate::text::{same_text, spaces, pad};

verus! {

/// How a fragment is shown on the terminal.
#[derive(Debug, PartialEq, Eq, Structural, Clone, Copy)]
pub enum Style {
    Plain,
    Bold,
    Italic,
    Underline,
    Strikethrough,
    /// Underlined and bold, as headings are.
    Heading,
}

/// A piece of text with the style it is shown in.
#[derive(Debug, Clone, PartialEq, Eq)]
pub struct StyledText {
    pub text: String,
    pub style: Style,
}

impl View for StyledText {
    type V = (Seq<char>, Style);

    open spec fn view(&self) -> (Seq<char>, Style) {
        (self.text@, self.style)
    }
}

/// What a node contributes to a page.
#[derive(Debug, PartialEq, Eq, Structural, Clone, Copy)]
pub enum NodeKind {
    /// Structural, block-level layout: headings, breaks, rules, paragraphs.
    Block,
    /// Styled text within a line.
    Inline,
    /// Nothing of its own; only its children count.
    Container,
}

/// The block-level tags.
pub open spec fn is_structural_tag(tag: Seq<char>) -> bool {
    tag == "h1"@ || tag == "h2"@ || tag == "h3"@ || tag == "h4"@ || tag == "h5"@ || tag == "h6"@
        || tag == "br"@ || tag == "hr"@ || tag == "p"@
}

/// The tags that style text within a line.
pub open spec fn is_inline_tag(tag: Seq<char>) -> bool {
    tag == "strong"@ || tag == "b"@ || tag == "em"@ || tag == "i"@ || tag == "u"@ || tag == "ins"@
        || tag == "del"@ || tag == "small"@ || tag == "blockquote"@ || tag == "q"@
}

/// The kind of a tag. A paragraph is block-level, though its text is styled
/// like inline text.
pub open spec fn kind_of(tag: Seq<char>) -> NodeKind {
    if is_structural_tag(tag) {
        NodeKind::Block
    } else if is_inline_tag(tag) {
        NodeKind::Inline
    } else {
        NodeKind::Container
    }
}

/// Tests whether `tag` is block-level.
pub fn is_structural(tag: &str) -> (yes: bool)
    ensures
        yes == is_structural_tag(tag@),
{
    same_text(tag, "h1") || same_text(tag, "h2") || same_text(tag, "h3") || same_text(tag, "h4")
        || same_text(tag, "h5") || same_text(tag, "h6") || same_text(tag, "br") || same_text(
        tag,
        "hr",
    ) || same_text(tag, "p")
}

/// Tests whether `tag` styles text within a line.
pub fn is_inline(tag: &str) -> (yes: bool)
    ensures
        yes == is_inline_tag(tag@),
{
    same_text(tag, "strong") || same_text(tag, "b") || same_text(tag, "em") || same_text(tag, "i")
        || same_text(tag, "u") || same_text(tag, "ins") || same_text(tag, "del") || same_text(
        tag,
        "small",
    ) || same_text(tag, "blockquote") || same_text(tag, "q")
}

/// Classifies a tag, once, as block-level, inline or container.
pub fn classify(tag: &str) -> (kind: NodeKind)
    ensures
        kind == kind_of(tag@),
{
    if is_structural(tag) {
        NodeKind::Block
    } else if is_inline(tag) {
        NodeKind::Inline
    } else {
        NodeKind::Container
    }
}

/// The inline style of `text` under `tag`. Absent text gives an empty plain
/// fragment; a tag without a style of its own passes the text through.
pub open spec fn text_style(text: Option<Seq<char>>, tag: Seq<char>) -> (Seq<char>, Style) {
    match text {
        None => (Seq::empty(), Style::Plain),
        Some(t) => if tag == "strong"@ || tag == "b"@ {
            (t, Style::Bold)
        } else if tag == "em"@ || tag == "i"@ {
            (t, Style::Italic)
        } else if tag == "u"@ || tag == "ins"@ {
            (t, Style::Underline)
        } else if tag == "del"@ {
            (t, Style::Strikethrough)
        } else if tag == "blockquote"@ || tag == "q"@ {
            ("“"@ + t + "”"@, Style::Plain)
        } else if tag == "p"@ {
            (t + "\n"@, Style::Plain)
        } else {
            (t, Style::Plain)
        },
    }
}

/// The number of spaces put before a heading of `length` characters in a
/// viewport `width` wide: of the slack a half for `h1`, a third for `h2`, a
/// quarter for `h3`. Other tags are not padded, nor is text that fills the
/// viewport.
pub open spec fn left_padding(length: nat, tag: Seq<char>, width: nat) -> nat {
    if length >= width {
        0
    } else if tag == "h1"@ {
        ((width - length) / 2) as nat
    } else if tag == "h2"@ {
        ((width - length) / 3) as nat
    } else if tag == "h3"@ {
        ((width - length) / 4) as nat
    } else {
        0
    }
}

/// Whether `tag` is one of the heading levels that are centred.
pub open spec fn is_centered_tag(tag: Seq<char>) -> bool {
    tag == "h1"@ || tag == "h2"@ || tag == "h3"@
}

/// `text` laid out for a viewport `width` wide. Text as wide as the viewport
/// or wider is left as it is, whatever the tag. Of shorter text, a heading
/// gets its padding in front and nothing else; under any other tag the text
/// gets a newline behind and no padding.
pub open spec fn centered(text: Seq<char>, tag: Seq<char>, width: nat) -> Seq<char> {
    if text.len() >= width {
        text
    } else if is_centered_tag(tag) {
        spaces(left_padding(text.len(), tag, width)) + text
    } else {
        text + "\n"@
    }
}

/// The block-level contribution of a node tagged `tag` with text `text`.
pub open spec fn structural_style(text: Option<Seq<char>>, tag: Seq<char>, width: nat) -> (
    Seq<char>,
    Style,
) {
    match text {
        Some(t) => if is_centered_tag(tag) {
            (centered(t, tag, width), Style::Heading)
        } else if tag == "p"@ {
            ("\n\n"@, Style::Plain)
        } else {
            (Seq::empty(), Style::Plain)
        },
        None => if tag == "br"@ {
            ("\n"@, Style::Plain)
        } else if tag == "p"@ {
            ("\n\n"@, Style::Plain)
        } else {
            (Seq::empty(), Style::Plain)
        },
    }
}

/// Styles inline text by its tag.
pub fn apply_text_node(text: Option<String>, tag: &str) -> (styled: StyledText)
    ensures
        styled@ == text_style(crate::node::text_view(text), tag@),
{
    match text {
        Some(text) => {
            if same_text(tag, "strong") || same_text(tag, "b") {
                StyledText { text, style: Style::Bold }
            } else if same_text(tag, "em") || same_text(tag, "i") {
                StyledText { text, style: Style::Italic }
            } else if same_text(tag, "u") || same_text(tag, "ins") {
                StyledText { text, style: Style::Underline }
            } else if same_text(tag, "del") {
                StyledText { text, style: Style::Strikethrough }
            } else if same_text(tag, "blockquote") || same_text(tag, "q") {
                let mut quoted = String::from_str("“");
                quoted.append(text.as_str());
                quoted.append("”");
                StyledText { text: quoted, style: Style::Plain }
            } else if same_text(tag, "p") {
                let mut line = text;
                line.append("\n");
                StyledText { text: line, style: Style::Plain }
            } else {
                StyledText { text, style: Style::Plain }
            }
        },
        None => {
            let empty = String::new();
            StyledText { text: empty, style: Style::Plain }
        },
    }
}

/// Lays `text` out as a heading line in a viewport `width` wide.
pub fn center_text(text: &str, tag: &str, width: usize) -> (line: String)
    ensures
        line@ == centered(text@, tag@, width as nat),
{
    let text_width: usize = text.unicode_len();
    if text_width >= width {
        return String::from_str(text);
    }
    let slack: usize = width - text_width;
    let padding: usize = if same_text(tag, "h1") {
        slack / 2
    } else if same_text(tag, "h2") {
        slack / 3
    } else if same_text(tag, "h3") {
        slack / 4
    } else {
        let mut line = String::from_str(text);
        line.append("\n");
        return line;
    };
    let mut line = pad(padding);
    line.append(text);
    line
}

/// Styles a block-level node by its tag.
pub fn apply_structural_node(text: Option<String>, tag: &str, width: usize) -> (styled: StyledText)
    ensures
        styled@ == structural_style(crate::node::text_view(text), tag@, width as nat),
{
    match text {
        Some(text) => {
            if same_text(tag, "h1") || same_text(tag, "h2") || same_text(tag, "h3") {
                StyledText { text: center_text(text.as_str(), tag, width), style: Style::Heading }
            } else if same_text(tag, "p") {
                StyledText { text: String::from_str("\n\n"), style: Style::Plain }
            } else {
                StyledText { text: String::new(), style: Style::Plain }
            }
        },
        None => {
            if same_text(tag, "br") {
                StyledText { text: String::from_str("\n"), style: Style::Plain }
            } else if same_text(tag, "p") {
                StyledText { text: String::from_str("\n\n"), style: Style::Plain }
            } else {
                StyledText { text: String::new(), style: Style::Plain }
            }
        },
    }
}

/// For every heading level, text that fills the viewport or exceeds it is
/// laid out unchanged, with nothing added.
pub proof fn lemma_wide_text_is_unchanged(text: Seq<char>, tag: Seq<char>, width: nat)
    requires
        text.len() >= width,
    ensures
        centered(text, tag, width) == text,
{
}

/// A heading narrower than the viewport is laid out as its padding and then
/// the text itself: of the slack a half for `h1`, a third for `h2`, a quarter
/// for `h3`. The result is as long as the text and its padding together.
pub proof fn lemma_narrow_heading_is_padded(text: Seq<char>, tag: Seq<char>, width: nat)
    requires
        text.len() < width,
        is_centered_tag(tag),
    ensures
        centered(text, tag, width) == spaces(left_padding(text.len(), tag, width)) + text,
        centered(text, tag, width).len() == text.len() + left_padding(text.len(), tag, width),
        tag == "h1"@ ==> left_padding(text.len(), tag, width) == (width - text.len()) / 2,
        tag == "h2"@ ==> left_padding(text.len(), tag, width) == (width - text.len()) / 3,
        tag == "h3"@ ==> left_padding(text.len(), tag, width) == (width - text.len()) / 4,
        forall|i: int|
            0 <= i < left_padding(text.len(), tag, width) ==> centered(text, tag, width)[i] == ' ',
        forall|i: int|
            0 <= i < text.len() ==> centered(text, tag, width)[left_padding(text.len(), tag, width)
                + i] == text[i],
{
    reveal_strlit("h1");
    reveal_strlit("h2");
    reveal_strlit("h3");
    assert("h1"@[1] != "h2"@[1] && "h1"@[1] != "h3"@[1] && "h2"@[1] != "h3"@[1]);
}

/// Under a tag that is not centred, text narrower than the viewport gets a
/// newline behind and no padding.
pub proof fn lemma_narrow_text_ends_its_line(text: Seq<char>, tag: Seq<char>, width: nat)
    requires
        text.len() < width,
        !is_centered_tag(tag),
    ensures
        centered(text, tag, width) == text.push('\n'),
        left_padding(text.len(), tag, width) == 0,
{
    reveal_strlit("\n");
    assert(text + "\n"@ =~= text.push('\n'));
}

} // verus!
