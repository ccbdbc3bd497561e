//! From styled fragments to the characters sent to the terminal. The escape
//! sequences come from the `colored` crate, which decides on each call, by
//! the process's environment, whether to emit them at all.

use vstd::prelude::*;
use vstd::string::*;
use colored::Colorize;
use crate::style::{Style, StyledText};
use crate::text::{replaced, lemma_replaced_without_match};

verus! {

/// The escape sequence that switches `style` on.
pub open spec fn style_on(style: Style) -> Seq<char> {
    match style {
        Style::Plain => Seq::empty(),
        Style::Bold => "\x1B[1m"@,
        Style::Italic => "\x1B[3m"@,
        Style::Underline => "\x1B[4m"@,
        Style::Strikethrough => "\x1B[9m"@,
        Style::Heading => "\x1B[1;4m"@,
    }
}

/// The escape sequence that switches every style off.
pub open spec fn style_off() -> Seq<char> {
    "\x1B[0m"@
}

/// `text` between the escape sequence of `style` and the reset sequence.
/// Where the text itself holds reset sequences, the style is switched on
/// again behind each of them, so that it lasts to the end of the text.
pub open spec fn wrapped(text: Seq<char>, style: Style) -> Seq<char> {
    style_on(style) + replaced(text, style_off(), style_off() + style_on(style)) + style_off()
}

/// Whether `out` is a way to show `text` in `style`. Plain text is shown as
/// it is. Styled text is shown either bare, where colouring is switched off,
/// or wrapped in its escape sequences.
pub open spec fn is_painting(out: Seq<char>, text: Seq<char>, style: Style) -> bool {
    if style == Style::Plain {
        out == text
    } else {
        out == text || out == wrapped(text, style)
    }
}

/// The views of a run of fragments.
pub open spec fn views(fragments: Seq<StyledText>) -> Seq<(Seq<char>, Style)> {
    fragments.map_values(|f: StyledText| f@)
}

/// Whether `cut` is a position at which `out` can be split in two.
pub open spec fn is_cut(out: Seq<char>, cut: int) -> bool {
    0 <= cut <= out.len()
}

/// Whether `out` shows `fragments` one after the other.
pub open spec fn is_painted(out: Seq<char>, fragments: Seq<(Seq<char>, Style)>) -> bool
    decreases fragments.len(),
{
    if fragments.len() == 0 {
        out.len() == 0
    } else {
        exists|cut: int|
            #[trigger] is_cut(out, cut) && is_painted(
                out.subrange(0, cut),
                fragments.drop_last(),
            ) && is_painting(
                out.subrange(cut, out.len() as int),
                fragments.last().0,
                fragments.last().1,
            )
    }
}

/// The texts of `fragments` one after the other, styles left aside.
pub open spec fn plain_text(fragments: Seq<(Seq<char>, Style)>) -> Seq<char>
    decreases fragments.len(),
{
    if fragments.len() == 0 {
        Seq::empty()
    } else {
        plain_text(fragments.drop_last()) + fragments.last().0
    }
}

/// `Colorize::bold` of `colored` on a string slice, written out through the
/// `Display` of the `ColoredString` it gives. The result is the text itself
/// where colouring is off; else the text between `ESC[1m` and `ESC[0m`, with
/// `ESC[1m` put again behind every `ESC[0m` inside the text.
#[verifier::external_body]
fn paint_bold(text: &str) -> (out: String)
    ensures
        is_painting(out@, text@, Style::Bold),
{
    format!("{}", text.bold())
}

/// `Colorize::italic` of `colored` on a string slice, written out through
/// `Display`: the text itself where colouring is off; else the text between
/// `ESC[3m` and `ESC[0m`, with `ESC[3m` put again behind every `ESC[0m`
/// inside the text.
#[verifier::external_body]
fn paint_italic(text: &str) -> (out: String)
    ensures
        is_painting(out@, text@, Style::Italic),
{
    format!("{}", text.italic())
}

/// `Colorize::underline` of `colored` on a string slice, written out through
/// `Display`: the text itself where colouring is off; else the text between
/// `ESC[4m` and `ESC[0m`, with `ESC[4m` put again behind every `ESC[0m`
/// inside the text.
#[verifier::external_body]
fn paint_underline(text: &str) -> (out: String)
    ensures
        is_painting(out@, text@, Style::Underline),
{
    format!("{}", text.underline())
}

/// `Colorize::strikethrough` of `colored` on a string slice, written out
/// through `Display`: the text itself where colouring is off; else the text
/// between `ESC[9m` and `ESC[0m`, with `ESC[9m` put again behind every
/// `ESC[0m` inside the text.
#[verifier::external_body]
fn paint_strikethrough(text: &str) -> (out: String)
    ensures
        is_painting(out@, text@, Style::Strikethrough),
{
    format!("{}", text.strikethrough())
}

/// `Colorize::underline` and then `Colorize::bold` of `colored`, written out
/// through `Display`: the text itself where colouring is off; else the text
/// between `ESC[1;4m` and `ESC[0m` (`colored` lists bold before underline),
/// with `ESC[1;4m` put again behind every `ESC[0m` inside the text.
#[verifier::external_body]
fn paint_heading(text: &str) -> (out: String)
    ensures
        is_painting(out@, text@, Style::Heading),
{
    format!("{}", text.underline().bold())
}

/// The characters that show one fragment.
pub fn paint(fragment: &StyledText) -> (out: String)
    ensures
        is_painting(out@, fragment.text@, fragment.style),
{
    match fragment.style {
        Style::Plain => fragment.text.clone(),
        Style::Bold => paint_bold(fragment.text.as_str()),
        Style::Italic => paint_italic(fragment.text.as_str()),
        Style::Underline => paint_underline(fragment.text.as_str()),
        Style::Strikethrough => paint_strikethrough(fragment.text.as_str()),
        Style::Heading => paint_heading(fragment.text.as_str()),
    }
}

/// Shows the fragments from position `from` on behind what `content` holds,
/// which stays as it is.
pub fn paint_onto(content: &mut String, fragments: &Vec<StyledText>, from: usize)
    requires
        from <= fragments@.len(),
    ensures
        old(content)@.len() <= final(content)@.len(),
        final(content)@.subrange(0, old(content)@.len() as int) == old(content)@,
        is_painted(
            final(content)@.skip(old(content)@.len() as int),
            views(fragments@.skip(from as int)),
        ),
{
    let ghost start = content@;
    let mut i: usize = from;
    proof {
        assert(content@.subrange(0, start.len() as int) =~= start);
        assert(content@.skip(start.len() as int) =~= Seq::empty());
        assert(views(fragments@.subrange(from as int, i as int)) =~= Seq::empty());
    }
    while i < fragments.len()
        invariant
            from <= i <= fragments@.len(),
            start.len() <= content@.len(),
            content@.subrange(0, start.len() as int) == start,
            is_painted(
                content@.skip(start.len() as int),
                views(fragments@.subrange(from as int, i as int)),
            ),
        decreases fragments@.len() - i,
    {
        let piece = paint(&fragments[i]);
        let ghost before = content@;
        content.append(piece.as_str());
        proof {
            let shown = views(fragments@.subrange(from as int, i + 1));
            let tail = content@.skip(start.len() as int);
            let cut = before.len() - start.len();
            assert(shown.drop_last() =~= views(fragments@.subrange(from as int, i as int)));
            assert(shown.last() == fragments@[i as int]@);
            assert(content@.subrange(0, start.len() as int) =~= before.subrange(
                0,
                start.len() as int,
            ));
            assert(tail.subrange(0, cut) =~= before.skip(start.len() as int));
            assert(tail.subrange(cut, tail.len() as int) =~= piece@);
            assert(is_cut(tail, cut));
        }
        i += 1;
    }
    assert(fragments@.subrange(from as int, i as int) =~= fragments@.skip(from as int));
}

/// Shows a run of fragments.
pub fn paint_all(fragments: &Vec<StyledText>) -> (out: String)
    ensures
        is_painted(out@, views(fragments@)),
{
    let mut out = String::new();
    paint_onto(&mut out, fragments, 0);
    assert(out@.skip(0) =~= out@);
    assert(fragments@.skip(0) =~= fragments@);
    out
}

/// Two showings, one behind the other, show the two runs of fragments one
/// behind the other.
pub proof fn lemma_painted_concat(
    first: Seq<char>,
    shown_first: Seq<(Seq<char>, Style)>,
    second: Seq<char>,
    shown_second: Seq<(Seq<char>, Style)>,
)
    requires
        is_painted(first, shown_first),
        is_painted(second, shown_second),
    ensures
        is_painted(first + second, shown_first + shown_second),
    decreases shown_second.len(),
{
    if shown_second.len() == 0 {
        assert(first + second =~= first);
        assert(shown_first + shown_second =~= shown_first);
    } else {
        let cut = choose|cut: int|
            #[trigger] is_cut(second, cut) && is_painted(
                second.subrange(0, cut),
                shown_second.drop_last(),
            ) && is_painting(
                second.subrange(cut, second.len() as int),
                shown_second.last().0,
                shown_second.last().1,
            );
        lemma_painted_concat(
            first,
            shown_first,
            second.subrange(0, cut),
            shown_second.drop_last(),
        );
        let whole = first + second;
        let shown = shown_first + shown_second;
        let at = first.len() + cut;
        assert(whole.subrange(0, at) =~= first + second.subrange(0, cut));
        assert(shown.drop_last() =~= shown_first + shown_second.drop_last());
        assert(whole.subrange(at, whole.len() as int) =~= second.subrange(
            cut,
            second.len() as int,
        ));
        assert(shown.last() == shown_second.last());
        assert(is_cut(whole, at));
    }
}

/// What is shown for fragments that are all plain is their text, whatever
/// the environment says about colour.
pub proof fn lemma_plain_fragments_are_shown_as_they_are(
    out: Seq<char>,
    fragments: Seq<(Seq<char>, Style)>,
)
    requires
        is_painted(out, fragments),
        forall|i: int| 0 <= i < fragments.len() ==> (#[trigger] fragments[i]).1 == Style::Plain,
    ensures
        out == plain_text(fragments),
    decreases fragments.len(),
{
    if fragments.len() == 0 {
        assert(out =~= Seq::empty());
    } else {
        let cut = choose|cut: int|
            #[trigger] is_cut(out, cut) && is_painted(
                out.subrange(0, cut),
                fragments.drop_last(),
            ) && is_painting(
                out.subrange(cut, out.len() as int),
                fragments.last().0,
                fragments.last().1,
            );
        assert forall|i: int| 0 <= i < fragments.drop_last().len() implies (
        #[trigger] fragments.drop_last()[i]).1 == Style::Plain by {
            assert(fragments.drop_last()[i] == fragments[i]);
        }
        lemma_plain_fragments_are_shown_as_they_are(out.subrange(0, cut), fragments.drop_last());
        assert(fragments[fragments.len() - 1].1 == Style::Plain);
        assert(out =~= out.subrange(0, cut) + out.subrange(cut, out.len() as int));
    }
}

/// Text without an escape character is wrapped plainly: the style's escape
/// sequence, the text as it is, the reset sequence.
pub proof fn lemma_wrapped_without_escape(text: Seq<char>, style: Style)
    requires
        !text.contains('\x1B'),
    ensures
        wrapped(text, style) == style_on(style) + text + style_off(),
{
    reveal_strlit("\x1B[0m");
    lemma_replaced_without_match(text, style_off(), style_off() + style_on(style));
}

} // verus!
