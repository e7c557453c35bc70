use vstd::prelude::*;
use vstd::string::{StringExecFns, StrSliceExecFns};
use colored::Colorize;
use crate::render::{RenderEvent, RenderEventView};

verus! {

/// Where `needle` occurs contiguously inside `hay`.
pub open spec fn contains_seq(hay: Seq<char>, needle: Seq<char>) -> bool {
    exists |k: int|
        0 <= k && k + needle.len() <= hay.len() && #[trigger] hay.subrange(k, k + needle.len())
            == needle
}

/// Where `suffix` is the tail end of `s`.
pub open spec fn ends_with(s: Seq<char>, suffix: Seq<char>) -> bool {
    suffix.len() <= s.len() && s.subrange(s.len() - suffix.len(), s.len() as int) == suffix
}

/// A character is in a concatenation exactly when it is in one of the parts.
proof fn lemma_concat_contains_char(a: Seq<char>, b: Seq<char>, c: char)
    ensures
        (a + b).contains(c) <==> a.contains(c) || b.contains(c),
{
    if a.contains(c) {
        let i = choose |i: int| 0 <= i < a.len() && a[i] == c;
        assert((a + b)[i] == c);
    }
    if b.contains(c) {
        let i = choose |i: int| 0 <= i < b.len() && b[i] == c;
        assert((a + b)[a.len() + i] == c);
    }
    if (a + b).contains(c) {
        let i = choose |i: int| 0 <= i < (a + b).len() && (a + b)[i] == c;
        if i < a.len() {
            assert(a[i] == c);
        } else {
            assert(b[i - a.len()] == c);
        }
    }
}

/// A contiguous occurrence survives appending more text.
proof fn lemma_contains_seq_prefix(a: Seq<char>, b: Seq<char>, needle: Seq<char>)
    requires
        contains_seq(a, needle),
    ensures
        contains_seq(a + b, needle),
{
    let k = choose |k: int|
        0 <= k && k + needle.len() <= a.len() && #[trigger] a.subrange(k, k + needle.len())
            == needle;
    assert((a + b).subrange(k, k + needle.len()) =~= needle);
}

/// Relies on colored's `Colorize::green` and `Colorize::bold` for `&str`, and
/// on the `Display` of `ColoredString`: depending on whether the terminal
/// takes colors, the printed form is either the input text itself or the
/// input wrapped in terminal escape sequences (an input that itself holds the
/// escape character may have style resets re-inserted inside it, so only an
/// escape-free input is promised to come through contiguous and unchanged).
#[verifier::external_body]
fn green_bold(text: &str) -> (colored_text: String)
    ensures
        !text@.contains('\u{1b}') ==> contains_seq(colored_text@, text@),
{
    text.green().bold().to_string()
}

/// Relies on colored's `Colorize::bright_black` for `&str`, and on the
/// `Display` of `ColoredString`, exactly as `green_bold` does.
#[verifier::external_body]
fn bright_black_text(text: &str) -> (colored_text: String)
    ensures
        !text@.contains('\u{1b}') ==> contains_seq(colored_text@, text@),
{
    text.bright_black().to_string()
}

/// Relies on colored's `Colorize::bright_blue` for `&str`, and on the
/// `Display` of `ColoredString`, exactly as `green_bold` does.
#[verifier::external_body]
fn bright_blue_text(text: &str) -> (colored_text: String)
    ensures
        !text@.contains('\u{1b}') ==> contains_seq(colored_text@, text@),
{
    text.bright_blue().to_string()
}

/// The decimal digit characters.
pub open spec fn spec_digit_char(d: int) -> char {
    if d == 0 {
        '0'
    } else if d == 1 {
        '1'
    } else if d == 2 {
        '2'
    } else if d == 3 {
        '3'
    } else if d == 4 {
        '4'
    } else if d == 5 {
        '5'
    } else if d == 6 {
        '6'
    } else if d == 7 {
        '7'
    } else if d == 8 {
        '8'
    } else {
        '9'
    }
}

/// The usual decimal rendering of a non-negative integer, without leading
/// zeros (except for zero itself).
pub open spec fn spec_decimal(n: int) -> Seq<char>
    recommends
        n >= 0,
    decreases n,
{
    if n < 10 {
        seq![spec_digit_char(n)]
    } else {
        spec_decimal(n / 10) + seq![spec_digit_char(n % 10)]
    }
}

/// The single decimal digit `d` as a string.
fn digit_string(d: usize) -> (s: String)
    requires
        d < 10,
    ensures
        s@ == seq![spec_digit_char(d as int)],
{
    let s: String = if d == 0 {
        String::from_str("0")
    } else if d == 1 {
        String::from_str("1")
    } else if d == 2 {
        String::from_str("2")
    } else if d == 3 {
        String::from_str("3")
    } else if d == 4 {
        String::from_str("4")
    } else if d == 5 {
        String::from_str("5")
    } else if d == 6 {
        String::from_str("6")
    } else if d == 7 {
        String::from_str("7")
    } else if d == 8 {
        String::from_str("8")
    } else {
        String::from_str("9")
    };
    proof {
        reveal_strlit("0");
        reveal_strlit("1");
        reveal_strlit("2");
        reveal_strlit("3");
        reveal_strlit("4");
        reveal_strlit("5");
        reveal_strlit("6");
        reveal_strlit("7");
        reveal_strlit("8");
        reveal_strlit("9");
        assert(s@ =~= seq![spec_digit_char(d as int)]);
    }
    s
}

/// Render `n` in decimal.
pub fn decimal_string(n: usize) -> (digits: String)
    ensures
        digits@ == spec_decimal(n as int),
    decreases n,
{
    if n < 10 {
        digit_string(n)
    } else {
        let mut digits = decimal_string(n / 10);
        let last = digit_string(n % 10);
        digits.append(last.as_str());
        digits
    }
}

/// The text of the start notice, before coloring.
pub open spec fn spec_start_text(path: Seq<char>) -> Seq<char> {
    "Printing '"@ + path + "'\n"@
}

/// The text of a page header after the colored arrow: the page number line.
pub open spec fn spec_page_label(index: int) -> Seq<char> {
    " Page "@ + spec_decimal(index) + ":"@
}

/// The line of text that a rendering step prints, if it prints one, colored
/// as the spooler presents it: the start notice green and bold, the page
/// header's arrow dim, the finished notice blue. `TypedChar` steps return
/// `None`: the caller emits the character itself, paced and flushed.
pub fn event_text(event: &RenderEvent) -> (line: Option<String>)
    ensures
        event@ matches RenderEventView::Start { path } ==> (line matches Some(t) && (
        !path.contains('\u{1b}') ==> contains_seq(t@, spec_start_text(path)))),
        event@ matches RenderEventView::PageHeader { index } ==> (line matches Some(t)
            && ends_with(t@, spec_page_label(index)) && contains_seq(t@, "->"@)),
        event@ is TypedChar ==> line is None,
        event@ is PageBreak ==> (line matches Some(t) && t@ == "\n"@),
        event@ is Finished ==> (line matches Some(t) && ends_with(t@, "\n"@) && contains_seq(
            t@,
            "Finished"@,
        )),
{
    match event {
        RenderEvent::Start { path } => {
            let mut text = String::from_str("Printing '");
            text.append(path.as_str());
            text.append("'\n");
            proof {
                reveal_strlit("Printing '");
                reveal_strlit("'\n");
                assert(text@ == spec_start_text(path@));
                assert(!"Printing '"@.contains('\u{1b}'));
                assert(!"'\n"@.contains('\u{1b}'));
                lemma_concat_contains_char("Printing '"@, path@, '\u{1b}');
                lemma_concat_contains_char("Printing '"@ + path@, "'\n"@, '\u{1b}');
            }
            Some(green_bold(text.as_str()))
        }
        RenderEvent::PageHeader { index } => {
            let mut line = bright_black_text("->");
            let ghost arrow = line@;
            let number = decimal_string(*index);
            line.append(" Page ");
            line.append(number.as_str());
            line.append(":");
            proof {
                reveal_strlit("->");
                reveal_strlit(" Page ");
                reveal_strlit(":");
                assert(!"->"@.contains('\u{1b}'));
                assert(line@ == arrow + spec_page_label(*index as int));
                assert(ends_with(line@, spec_page_label(*index as int))) by {
                    assert(line@.subrange(
                        line@.len() - spec_page_label(*index as int).len(),
                        line@.len() as int,
                    ) =~= spec_page_label(*index as int));
                };
                lemma_contains_seq_prefix(arrow, spec_page_label(*index as int), "->"@);
            }
            Some(line)
        }
        RenderEvent::TypedChar { c: _ } => None,
        RenderEvent::PageBreak => {
            let line = String::from_str("\n");
            Some(line)
        }
        RenderEvent::Finished => {
            let mut line = bright_blue_text("Finished");
            let ghost word = line@;
            line.append("\n");
            proof {
                reveal_strlit("Finished");
                reveal_strlit("\n");
                assert(!"Finished"@.contains('\u{1b}'));
                assert(ends_with(line@, "\n"@)) by {
                    assert(line@.subrange(line@.len() - "\n"@.len(), line@.len() as int)
                        =~= "\n"@);
                };
                lemma_contains_seq_prefix(word, "\n"@, "Finished"@);
            }
            Some(line)
        }
    }
}

} // verus!
