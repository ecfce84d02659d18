//! The style-run model: a flat run of text with one formatting state, and
//! the serialization of runs into a single markup string.

use vstd::prelude::*;
use crate::markup::escape_seq;

verus! {

/// An RGB colour.
#[derive(Debug, Clone, Copy, PartialEq, Eq, Structural)]
pub struct Rgb {
    pub r: u8,
    pub g: u8,
    pub b: u8,
}

/// A maximal span of text sharing one formatting state. The text is already
/// escaped for the markup format.
#[derive(Debug)]
pub struct StyleRun {
    /// The escaped text of the run.
    pub text: String,
    pub bold: bool,
    pub italic: bool,
    pub underline: bool,
    /// The foreground colour, when the run is coloured.
    pub foreground: Option<Rgb>,
}

/// The sixteen lowercase hexadecimal digits.
pub open spec fn hex_digit(d: int) -> char {
    if d == 0 { '0' }
    else if d == 1 { '1' }
    else if d == 2 { '2' }
    else if d == 3 { '3' }
    else if d == 4 { '4' }
    else if d == 5 { '5' }
    else if d == 6 { '6' }
    else if d == 7 { '7' }
    else if d == 8 { '8' }
    else if d == 9 { '9' }
    else if d == 10 { 'a' }
    else if d == 11 { 'b' }
    else if d == 12 { 'c' }
    else if d == 13 { 'd' }
    else if d == 14 { 'e' }
    else { 'f' }
}

/// A byte as two lowercase hexadecimal digits.
pub open spec fn hex_byte(v: int) -> Seq<char> {
    seq![hex_digit(v / 16), hex_digit(v % 16)]
}

/// The opening colour tag: `<span foreground="#rrggbb">`.
pub open spec fn color_open(c: Rgb) -> Seq<char> {
    seq!['<', 's', 'p', 'a', 'n', ' ', 'f', 'o', 'r', 'e', 'g', 'r', 'o', 'u', 'n', 'd', '=', '"',
        '#'] + hex_byte(c.r as int) + hex_byte(c.g as int) + hex_byte(c.b as int) + seq!['"', '>']
}

/// The closing colour tag: `</span>`.
pub open spec fn span_close() -> Seq<char> {
    seq!['<', '/', 's', 'p', 'a', 'n', '>']
}

/// An opening one-letter tag `<c>` when `on` holds, else nothing.
pub open spec fn open_if(on: bool, c: char) -> Seq<char> {
    if on {
        seq!['<', c, '>']
    } else {
        Seq::empty()
    }
}

/// A closing one-letter tag `</c>` when `on` holds, else nothing.
pub open spec fn close_if(on: bool, c: char) -> Seq<char> {
    if on {
        seq!['<', '/', c, '>']
    } else {
        Seq::empty()
    }
}

/// The opening colour tag when the run is coloured, else nothing.
pub open spec fn color_open_if(fg: Option<Rgb>) -> Seq<char> {
    match fg {
        Some(c) => color_open(c),
        None => Seq::empty(),
    }
}

/// The closing colour tag when the run is coloured, else nothing.
pub open spec fn color_close_if(fg: Option<Rgb>) -> Seq<char> {
    match fg {
        Some(_) => span_close(),
        None => Seq::empty(),
    }
}

/// The serialized markup of one run: its escaped text in a fixed-width span,
/// wrapped innermost-to-outermost in underline, italic, bold and then the
/// foreground colour, in that fixed nesting order.
pub open spec fn run_markup(r: StyleRun) -> Seq<char> {
    color_open_if(r.foreground) + open_if(r.bold, 'b') + open_if(r.italic, 'i') + open_if(
        r.underline,
        'u',
    ) + seq!['<', 't', 't', '>'] + r.text@ + seq!['<', '/', 't', 't', '>'] + close_if(
        r.underline,
        'u',
    ) + close_if(r.italic, 'i') + close_if(r.bold, 'b') + color_close_if(r.foreground)
}

/// The serialized markup of a sequence of runs, concatenated in document
/// order.
pub open spec fn runs_markup(rs: Seq<StyleRun>) -> Seq<char>
    decreases rs.len(),
{
    if rs.len() == 0 {
        Seq::empty()
    } else {
        run_markup(rs[0]) + runs_markup(rs.skip(1))
    }
}

/// The escaped texts of a sequence of runs, concatenated in order.
pub open spec fn concat_texts(rs: Seq<StyleRun>) -> Seq<char>
    decreases rs.len(),
{
    if rs.len() == 0 {
        Seq::empty()
    } else {
        rs[0].text@ + concat_texts(rs.skip(1))
    }
}

/// Run texts concatenate over appended run sequences.
pub proof fn lemma_concat_texts_append(r1: Seq<StyleRun>, r2: Seq<StyleRun>)
    ensures
        concat_texts(r1 + r2) == concat_texts(r1) + concat_texts(r2),
    decreases r1.len(),
{
    if r1.len() == 0 {
        assert(r1 + r2 =~= r2);
        assert(concat_texts(r1) + concat_texts(r2) =~= concat_texts(r2));
    } else {
        assert((r1 + r2)[0] == r1[0]);
        assert((r1 + r2).skip(1) =~= r1.skip(1) + r2);
        lemma_concat_texts_append(r1.skip(1), r2);
        assert(r1[0].text@ + (concat_texts(r1.skip(1)) + concat_texts(r2)) =~= (r1[0].text@
            + concat_texts(r1.skip(1))) + concat_texts(r2));
    }
}

/// Serializing distributes over appending one run.
pub proof fn lemma_runs_markup_snoc(rs: Seq<StyleRun>, r: StyleRun)
    ensures
        runs_markup(rs.push(r)) == runs_markup(rs) + run_markup(r),
    decreases rs.len(),
{
    if rs.len() == 0 {
        assert(rs.push(r)[0] == r);
        assert(rs.push(r).skip(1) =~= Seq::empty());
        assert(run_markup(r) + runs_markup(Seq::empty()) =~= run_markup(r));
        assert(runs_markup(rs) + run_markup(r) =~= run_markup(r));
    } else {
        assert(rs.push(r).skip(1) =~= rs.skip(1).push(r));
        lemma_runs_markup_snoc(rs.skip(1), r);
        assert(run_markup(rs[0]) + (runs_markup(rs.skip(1)) + run_markup(r)) =~= (run_markup(rs[0])
            + runs_markup(rs.skip(1))) + run_markup(r));
    }
}

/// One lowercase hexadecimal digit.
fn hex_digit_str(d: u8) -> (s: &'static str)
    requires
        d < 16,
    ensures
        s@ =~= seq![hex_digit(d as int)],
{
    proof {
        reveal_strlit("0");
        reveal_strlit("1");
        reveal_strlit("2");
        reveal_strlit("3");
        reveal_strlit("4");
        reveal_strlit("5");
        reveal_strlit("6");
        reveal_strlit("7");
        reveal_strlit("8");
        reveal_strlit("9");
        reveal_strlit("a");
        reveal_strlit("b");
        reveal_strlit("c");
        reveal_strlit("d");
        reveal_strlit("e");
        reveal_strlit("f");
    }
    if d == 0 { "0" }
    else if d == 1 { "1" }
    else if d == 2 { "2" }
    else if d == 3 { "3" }
    else if d == 4 { "4" }
    else if d == 5 { "5" }
    else if d == 6 { "6" }
    else if d == 7 { "7" }
    else if d == 8 { "8" }
    else if d == 9 { "9" }
    else if d == 10 { "a" }
    else if d == 11 { "b" }
    else if d == 12 { "c" }
    else if d == 13 { "d" }
    else if d == 14 { "e" }
    else { "f" }
}

/// Appends a byte as two lowercase hexadecimal digits.
fn append_hex_byte(out: &mut String, v: u8)
    ensures
        final(out)@ == old(out)@ + hex_byte(v as int),
{
    let hi = v / 16;
    let lo = v % 16;
    out.append(hex_digit_str(hi));
    out.append(hex_digit_str(lo));
    proof {
        assert((old(out)@ + seq![hex_digit(hi as int)]) + seq![hex_digit(lo as int)] =~= old(out)@
            + hex_byte(v as int));
    }
}

/// Serializes one run and appends it to `out`.
#[verifier::rlimit(100)]
fn append_run_markup(out: &mut String, r: &StyleRun)
    ensures
        final(out)@ == old(out)@ + run_markup(*r),
{
    proof {
        reveal_strlit("<span foreground=\"#");
        reveal_strlit("\">");
        reveal_strlit("</span>");
        reveal_strlit("<b>");
        reveal_strlit("<i>");
        reveal_strlit("<u>");
        reveal_strlit("</b>");
        reveal_strlit("</i>");
        reveal_strlit("</u>");
        reveal_strlit("<tt>");
        reveal_strlit("</tt>");
    }
    match &r.foreground {
        Some(c) => {
            out.append("<span foreground=\"#");
            append_hex_byte(out, c.r);
            append_hex_byte(out, c.g);
            append_hex_byte(out, c.b);
            out.append("\">");
            proof {
                assert(out@ =~= old(out)@ + color_open_if(r.foreground));
            }
        },
        None => {},
    }
    if r.bold {
        out.append("<b>");
    }
    if r.italic {
        out.append("<i>");
    }
    if r.underline {
        out.append("<u>");
    }
    out.append("<tt>");
    out.append(r.text.as_str());
    out.append("</tt>");
    if r.underline {
        out.append("</u>");
    }
    if r.italic {
        out.append("</i>");
    }
    if r.bold {
        out.append("</b>");
    }
    match &r.foreground {
        Some(_) => {
            out.append("</span>");
        },
        None => {},
    }
    proof {
        assert(out@ =~= old(out)@ + run_markup(*r));
    }
}

/// Serializes runs into one markup string, in document order.
pub fn serialize_runs(rs: &Vec<StyleRun>) -> (out: String)
    ensures
        out@ == runs_markup(rs@),
{
    let mut out = String::new();
    let mut i: usize = 0;
    while i < rs.len()
        invariant
            i <= rs@.len(),
            out@ == runs_markup(rs@.take(i as int)),
        decreases rs@.len() - i,
    {
        proof {
            assert(rs@.take(i + 1) =~= rs@.take(i as int).push(rs@[i as int]));
            lemma_runs_markup_snoc(rs@.take(i as int), rs@[i as int]);
        }
        append_run_markup(&mut out, &rs[i]);
        i = i + 1;
    }
    proof {
        assert(rs@.take(rs@.len() as int) =~= rs@);
    }
    out
}

} // verus!
