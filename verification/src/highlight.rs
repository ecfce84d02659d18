//! The syntax-highlighter adapter: turns a fenced code block's text and
//! optional language tag into style runs and one serialized markup string,
//! degrading to plain text when the language or theme is unknown.
//!
//! The tokenizing engine itself is the `syntect` crate; every call into it
//! goes through a trusted item whose contract states only what `syntect`'s
//! own source and documentation show.

use vstd::prelude::*;
use crate::Diagnostic;
use crate::doc::DocNode;
use crate::markup::{escape_markup, escape_seq, lemma_escape_append};
use crate::style::{Rgb, StyleRun, concat_texts, lemma_concat_texts_append, runs_markup,
    serialize_runs};

verus! {

// ---------------------------------------------------------------------------
// Declarations of the engine's types (opaque to the verifier)
// ---------------------------------------------------------------------------
/// `syntect`'s set of loaded grammars.
#[verifier::external_type_specification]
#[verifier::external_body]
pub struct ExSyntaxSet(syntect::parsing::SyntaxSet);

/// One grammar within a [`syntect::parsing::SyntaxSet`].
#[verifier::external_type_specification]
#[verifier::external_body]
pub struct ExSyntaxReference(syntect::parsing::SyntaxReference);

/// `syntect`'s set of loaded themes.
#[verifier::external_type_specification]
#[verifier::external_body]
pub struct ExThemeSet(syntect::highlighting::ThemeSet);

/// One colour theme.
#[verifier::external_type_specification]
#[verifier::external_body]
pub struct ExTheme(syntect::highlighting::Theme);

/// The style `syntect` assigns to a token: colours and font flags.
#[verifier::external_type_specification]
#[verifier::external_body]
pub struct ExStyle(syntect::highlighting::Style);

/// `syntect`'s per-block line highlighter, which carries parser state from
/// line to line.
#[verifier::external_type_specification]
#[verifier::external_body]
pub struct ExHighlightLines<'a>(syntect::easy::HighlightLines<'a>);

// ---------------------------------------------------------------------------
// Trusted wrappers around the engine
// ---------------------------------------------------------------------------
/// Relies on `syntect::parsing::SyntaxSet::load_defaults_newlines`: loads the
/// bundled grammar set.
#[verifier::external_body]
fn load_default_syntaxes() -> syntect::parsing::SyntaxSet {
    syntect::parsing::SyntaxSet::load_defaults_newlines()
}

/// Relies on `syntect::highlighting::ThemeSet::load_defaults`: loads the
/// bundled theme set.
#[verifier::external_body]
fn load_default_themes() -> syntect::highlighting::ThemeSet {
    syntect::highlighting::ThemeSet::load_defaults()
}

/// Relies on `syntect::parsing::SyntaxSet::find_syntax_by_token`: resolves a
/// language token case-insensitively to a grammar, or `None`. Which tokens
/// resolve depends on the loaded set, so nothing more is promised.
#[verifier::external_body]
fn find_syntax<'a>(
    ps: &'a syntect::parsing::SyntaxSet,
    token: &str,
) -> Option<&'a syntect::parsing::SyntaxReference> {
    ps.find_syntax_by_token(token)
}

/// Relies on `std::collections::BTreeMap::get` over the public `themes` map
/// of `syntect::highlighting::ThemeSet`: looks a theme up by name.
#[verifier::external_body]
fn find_theme<'a>(
    ts: &'a syntect::highlighting::ThemeSet,
    name: &str,
) -> Option<&'a syntect::highlighting::Theme> {
    ts.themes.get(name)
}

/// Relies on `syntect::easy::HighlightLines::new`: a fresh highlighter for
/// one code block.
#[verifier::external_body]
fn new_highlight_lines<'a>(
    syntax: &syntect::parsing::SyntaxReference,
    theme: &'a syntect::highlighting::Theme,
) -> syntect::easy::HighlightLines<'a> {
    syntect::easy::HighlightLines::new(syntax, theme)
}

/// The text of a sequence of highlighted ranges, concatenated in order.
pub open spec fn ranges_text(v: Seq<(syntect::highlighting::Style, String)>) -> Seq<char>
    decreases v.len(),
{
    if v.len() == 0 {
        Seq::empty()
    } else {
        v[0].1@ + ranges_text(v.skip(1))
    }
}

/// Relies on `syntect::easy::HighlightLines::highlight_line`: splits one line
/// into styled ranges. Its iterator documents that the concatenation of the
/// range texts is the original line; a tokenizer failure gives `None`.
#[verifier::external_body]
fn highlight_one_line(
    hl: &mut syntect::easy::HighlightLines,
    line: &str,
    ps: &syntect::parsing::SyntaxSet,
) -> (r: Option<Vec<(syntect::highlighting::Style, String)>>)
    ensures
        r matches Some(v) ==> ranges_text(v@) == line@,
{
    match hl.highlight_line(line, ps) {
        Ok(v) => Some(v.into_iter().map(|p| (p.0, p.1.to_string())).collect()),
        Err(_) => None,
    }
}

/// Relies on the public fields of `syntect::highlighting::Style` and on
/// `FontStyle::bits`: hands out the foreground colour's red, green and blue
/// components and the raw font-style bits (`BOLD = 1`, `UNDERLINE = 2`,
/// `ITALIC = 4` in `syntect`'s source).
#[verifier::external_body]
fn style_parts(st: &syntect::highlighting::Style) -> (u8, u8, u8, u8) {
    let c = st.foreground;
    (c.r, c.g, c.b, st.font_style.bits())
}

// ---------------------------------------------------------------------------
// Splitting code into lines, with their endings kept
// ---------------------------------------------------------------------------
/// The length of the first line of `s`, counting its newline; the whole of
/// `s` when it holds no newline.
pub open spec fn first_line_len(s: Seq<char>) -> nat
    decreases s.len(),
{
    if s.len() == 0 {
        0
    } else if s[0] == '\n' {
        1
    } else {
        1 + first_line_len(s.skip(1))
    }
}

/// The first line is nonempty and no longer than the text.
pub proof fn lemma_first_line_len_bounds(s: Seq<char>)
    ensures
        s.len() > 0 ==> 1 <= first_line_len(s) <= s.len(),
    decreases s.len(),
{
    if s.len() > 0 && s[0] != '\n' {
        lemma_first_line_len_bounds(s.skip(1));
        if s.len() == 1 {
            assert(s.skip(1).len() == 0);
            assert(first_line_len(s.skip(1)) == 0);
        }
    }
}

/// The lines of `s`, each keeping its trailing newline; the last line may
/// lack one. Empty text has no lines.
pub open spec fn lines_of(s: Seq<char>) -> Seq<Seq<char>>
    decreases s.len(),
    via lines_of_decreases
{
    if s.len() == 0 {
        Seq::empty()
    } else {
        seq![s.take(first_line_len(s) as int)] + lines_of(s.skip(first_line_len(s) as int))
    }
}

#[via_fn]
proof fn lines_of_decreases(s: Seq<char>) {
    lemma_first_line_len_bounds(s);
}

/// A newline at position `k`, with none before it, fixes the first line's
/// length at `k + 1`.
proof fn lemma_first_line_len_at(t: Seq<char>, k: int)
    requires
        0 <= k < t.len(),
        forall|i: int| 0 <= i < k ==> t[i] != '\n',
        t[k] == '\n',
    ensures
        first_line_len(t) == k + 1,
    decreases k,
{
    if k > 0 {
        assert forall|i: int| 0 <= i < k - 1 implies t.skip(1)[i] != '\n' by {
            assert(t.skip(1)[i] == t[i + 1]);
        }
        assert(t.skip(1)[k - 1] == t[k]);
        lemma_first_line_len_at(t.skip(1), k - 1);
    }
}

/// Text without a newline is one single line.
proof fn lemma_first_line_len_whole(t: Seq<char>)
    requires
        t.len() > 0,
        forall|i: int| 0 <= i < t.len() ==> t[i] != '\n',
    ensures
        first_line_len(t) == t.len(),
    decreases t.len(),
{
    if t.len() > 1 {
        assert forall|i: int| 0 <= i < t.skip(1).len() implies t.skip(1)[i] != '\n' by {
            assert(t.skip(1)[i] == t[i + 1]);
        }
        lemma_first_line_len_whole(t.skip(1));
    } else {
        assert(t.skip(1).len() == 0);
        assert(first_line_len(t.skip(1)) == 0);
    }
}

/// The views of a sequence of strings.
pub open spec fn views_of(v: Seq<String>) -> Seq<Seq<char>> {
    v.map_values(|x: String| x@)
}

/// Splits code into its lines, keeping each line's trailing newline; the
/// last line may lack one, exactly as [`lines_of`] says.
fn split_lines(s: &str) -> (r: Vec<String>)
    ensures
        views_of(r@) == lines_of(s@),
{
    let n = s.unicode_len();
    let mut r: Vec<String> = Vec::new();
    let mut pos: usize = 0;
    proof {
        assert(s@.skip(0) =~= s@);
        assert(views_of(r@) + lines_of(s@) =~= lines_of(s@));
    }
    while pos < n
        invariant
            pos <= n,
            n == s@.len(),
            lines_of(s@) == views_of(r@) + lines_of(s@.skip(pos as int)),
        decreases n - pos,
    {
        let ghost t = s@.skip(pos as int);
        let mut j: usize = pos;
        while j < n && s.get_char(j) != '\n'
            invariant
                pos <= j <= n,
                n == s@.len(),
                forall|i: int| pos <= i < j ==> s@[i] != '\n',
            decreases n - j,
        {
            j = j + 1;
        }
        let end: usize = if j < n {
            j + 1
        } else {
            n
        };
        proof {
            assert forall|i: int| 0 <= i < j - pos implies t[i] != '\n' by {
                assert(t[i] == s@[i + pos]);
            }
            if j < n {
                assert(t[j - pos] == s@[j as int]);
                lemma_first_line_len_at(t, j - pos);
            } else {
                lemma_first_line_len_whole(t);
            }
            assert(first_line_len(t) == end - pos);
        }
        let line = String::from_str(s.substring_char(pos, end));
        proof {
            assert(t.take(first_line_len(t) as int) =~= s@.subrange(pos as int, end as int));
            assert(t.skip(first_line_len(t) as int) =~= s@.skip(end as int));
            assert(views_of(r@.push(line)) =~= views_of(r@).push(line@));
            assert(views_of(r@) + (seq![line@] + lines_of(s@.skip(end as int))) =~= views_of(
                r@.push(line),
            ) + lines_of(s@.skip(end as int)));
        }
        r.push(line);
        pos = end;
    }
    proof {
        assert(lines_of(s@.skip(n as int)) =~= Seq::<Seq<char>>::empty());
        assert(views_of(r@) + Seq::<Seq<char>>::empty() =~= views_of(r@));
    }
    r
}

// ---------------------------------------------------------------------------
// From engine ranges to style runs
// ---------------------------------------------------------------------------
/// Whether a style run is exactly the conversion of one extracted range
/// `(red, green, blue, font bits, text)`: the text escaped, the font bits
/// decoded (bold = 1, underline = 2, italic = 4), the colour kept.
pub open spec fn run_matches_part(r: StyleRun, p: (u8, u8, u8, u8, String)) -> bool {
    &&& r.text@ == escape_seq(p.4@)
    &&& r.bold == (p.3 & 1 != 0)
    &&& r.underline == (p.3 & 2 != 0)
    &&& r.italic == (p.3 & 4 != 0)
    &&& r.foreground == Some(Rgb { r: p.0, g: p.1, b: p.2 })
}

/// The texts of extracted ranges, concatenated in order.
pub open spec fn parts_text(ps: Seq<(u8, u8, u8, u8, String)>) -> Seq<char>
    decreases ps.len(),
{
    if ps.len() == 0 {
        Seq::empty()
    } else {
        ps[0].4@ + parts_text(ps.skip(1))
    }
}

/// Lines joined back into one text.
pub open spec fn concat_lines(ls: Seq<Seq<char>>) -> Seq<char>
    decreases ls.len(),
{
    if ls.len() == 0 {
        Seq::empty()
    } else {
        ls[0] + concat_lines(ls.skip(1))
    }
}

/// Whether `a` is a subsequence of `b`: all of `a`'s lines appear in `b`, in
/// order.
pub open spec fn is_subsequence(a: Seq<Seq<char>>, b: Seq<Seq<char>>) -> bool
    decreases a.len() + b.len(),
{
    if a.len() == 0 {
        true
    } else if b.len() == 0 {
        false
    } else {
        (a[0] == b[0] && is_subsequence(a.skip(1), b.skip(1))) || is_subsequence(a, b.skip(1))
    }
}

/// Pushing the same line onto both sides keeps the subsequence.
proof fn lemma_subseq_push_both(a: Seq<Seq<char>>, b: Seq<Seq<char>>, x: Seq<char>)
    requires
        is_subsequence(a, b),
    ensures
        is_subsequence(a.push(x), b.push(x)),
    decreases b.len(),
{
    if a.len() == 0 {
        if b.len() == 0 {
            assert(a.push(x)[0] == x);
            assert(b.push(x)[0] == x);
            assert(a.push(x).skip(1) =~= Seq::<Seq<char>>::empty());
            assert(b.push(x).skip(1) =~= Seq::<Seq<char>>::empty());
            assert(is_subsequence(Seq::<Seq<char>>::empty(), Seq::<Seq<char>>::empty()));
        } else {
            lemma_subseq_push_both(a, b.skip(1), x);
            assert(b.push(x).skip(1) =~= b.skip(1).push(x));
        }
    } else {
        if a[0] == b[0] && is_subsequence(a.skip(1), b.skip(1)) {
            lemma_subseq_push_both(a.skip(1), b.skip(1), x);
            assert(a.push(x).skip(1) =~= a.skip(1).push(x));
            assert(b.push(x).skip(1) =~= b.skip(1).push(x));
            assert(a.push(x)[0] == a[0]);
            assert(b.push(x)[0] == b[0]);
        } else {
            lemma_subseq_push_both(a, b.skip(1), x);
            assert(b.push(x).skip(1) =~= b.skip(1).push(x));
        }
    }
}

/// Growing the right side keeps the subsequence.
proof fn lemma_subseq_extend(a: Seq<Seq<char>>, b: Seq<Seq<char>>, x: Seq<char>)
    requires
        is_subsequence(a, b),
    ensures
        is_subsequence(a, b.push(x)),
    decreases b.len(),
{
    if a.len() == 0 {
    } else {
        if a[0] == b[0] && is_subsequence(a.skip(1), b.skip(1)) {
            lemma_subseq_extend(a.skip(1), b.skip(1), x);
            assert(b.push(x).skip(1) =~= b.skip(1).push(x));
            assert(b.push(x)[0] == b[0]);
        } else {
            lemma_subseq_extend(a, b.skip(1), x);
            assert(b.push(x).skip(1) =~= b.skip(1).push(x));
        }
    }
}

/// Joining one more line appends it.
proof fn lemma_concat_lines_push(ls: Seq<Seq<char>>, x: Seq<char>)
    ensures
        concat_lines(ls.push(x)) == concat_lines(ls) + x,
    decreases ls.len(),
{
    if ls.len() == 0 {
        assert(ls.push(x)[0] == x);
        assert(ls.push(x).skip(1) =~= Seq::<Seq<char>>::empty());
        assert(x + concat_lines(Seq::empty()) =~= x);
        assert(concat_lines(ls) + x =~= x);
    } else {
        assert(ls.push(x).skip(1) =~= ls.skip(1).push(x));
        lemma_concat_lines_push(ls.skip(1), x);
        assert(ls[0] + (concat_lines(ls.skip(1)) + x) =~= (ls[0] + concat_lines(ls.skip(1))) + x);
    }
}

/// Range texts concatenate over appended range sequences.
proof fn lemma_parts_text_append(p1: Seq<(u8, u8, u8, u8, String)>, p2: Seq<(u8, u8, u8, u8, String)>)
    ensures
        parts_text(p1 + p2) == parts_text(p1) + parts_text(p2),
    decreases p1.len(),
{
    if p1.len() == 0 {
        assert(p1 + p2 =~= p2);
        assert(parts_text(p1) + parts_text(p2) =~= parts_text(p2));
    } else {
        assert((p1 + p2)[0] == p1[0]);
        assert((p1 + p2).skip(1) =~= p1.skip(1) + p2);
        lemma_parts_text_append(p1.skip(1), p2);
        assert(p1[0].4@ + (parts_text(p1.skip(1)) + parts_text(p2)) =~= (p1[0].4@ + parts_text(
            p1.skip(1),
        )) + parts_text(p2));
    }
}

/// Runs converted range by range carry, together, the escape of the ranges'
/// joined text.
proof fn lemma_runs_parts_text(runs: Seq<StyleRun>, parts: Seq<(u8, u8, u8, u8, String)>)
    requires
        runs.len() == parts.len(),
        forall|k: int| 0 <= k < runs.len() ==> run_matches_part(#[trigger] runs[k], parts[k]),
    ensures
        concat_texts(runs) == escape_seq(parts_text(parts)),
    decreases runs.len(),
{
    if runs.len() == 0 {
        assert(concat_texts(runs) =~= escape_seq(parts_text(parts)));
    } else {
        assert forall|k: int| 0 <= k < runs.skip(1).len() implies run_matches_part(
            #[trigger] runs.skip(1)[k],
            parts.skip(1)[k],
        ) by {
            assert(runs.skip(1)[k] == runs[k + 1]);
            assert(parts.skip(1)[k] == parts[k + 1]);
        }
        lemma_runs_parts_text(runs.skip(1), parts.skip(1));
        lemma_escape_append(parts[0].4@, parts_text(parts.skip(1)));
    }
}

/// The extracted parts carry the same texts as the ranges they came from.
proof fn lemma_parts_ranges_text(
    parts: Seq<(u8, u8, u8, u8, String)>,
    ranges: Seq<(syntect::highlighting::Style, String)>,
)
    requires
        parts.len() == ranges.len(),
        forall|k: int| 0 <= k < parts.len() ==> (#[trigger] parts[k]).4@ == ranges[k].1@,
    ensures
        parts_text(parts) == ranges_text(ranges),
    decreases parts.len(),
{
    if parts.len() == 0 {
        assert(parts_text(parts) =~= ranges_text(ranges));
    } else {
        assert forall|k: int| 0 <= k < parts.skip(1).len() implies (#[trigger] parts.skip(1)[
            k]).4@ == ranges.skip(1)[k].1@ by {
            assert(parts.skip(1)[k] == parts[k + 1]);
            assert(ranges.skip(1)[k] == ranges[k + 1]);
        }
        lemma_parts_ranges_text(parts.skip(1), ranges.skip(1));
    }
}

/// Converts extracted ranges into style runs: each range's text is escaped
/// first, the engine's font-style bits are decoded (bold = 1, underline = 2,
/// italic = 4), and the range's colour becomes the run's foreground.
pub fn runs_of_ranges(parts: &Vec<(u8, u8, u8, u8, String)>) -> (r: Vec<StyleRun>)
    ensures
        r@.len() == parts@.len(),
        forall|k: int| 0 <= k < r@.len() ==> run_matches_part(#[trigger] r@[k], parts@[k]),
{
    let mut r: Vec<StyleRun> = Vec::new();
    let mut k: usize = 0;
    while k < parts.len()
        invariant
            k <= parts@.len(),
            r@.len() == k as int,
            forall|m: int| 0 <= m < k ==> run_matches_part(#[trigger] r@[m], parts@[m]),
        decreases parts@.len() - k,
    {
        let p = &parts[k];
        r.push(
            StyleRun {
                text: escape_markup(p.4.as_str()),
                bold: p.3 & 1 != 0,
                underline: p.3 & 2 != 0,
                italic: p.3 & 4 != 0,
                foreground: Some(Rgb { r: p.0, g: p.1, b: p.2 }),
            },
        );
        k = k + 1;
    }
    r
}

/// Pulls each range's colour components, font bits and text out of the
/// engine's opaque styles.
fn parts_of_ranges(ranges: &Vec<(syntect::highlighting::Style, String)>) -> (p: Vec<(
    u8,
    u8,
    u8,
    u8,
    String,
)>)
    ensures
        p@.len() == ranges@.len(),
        forall|k: int| 0 <= k < p@.len() ==> (#[trigger] p@[k]).4@ == ranges@[k].1@,
{
    let mut p: Vec<(u8, u8, u8, u8, String)> = Vec::new();
    let mut k: usize = 0;
    while k < ranges.len()
        invariant
            k <= ranges@.len(),
            p@.len() == k as int,
            forall|m: int| 0 <= m < k ==> (#[trigger] p@[m]).4@ == ranges@[m].1@,
        decreases ranges@.len() - k,
    {
        let (cr, cg, cb, bits) = style_parts(&ranges[k].0);
        p.push((cr, cg, cb, bits, ranges[k].1.clone()));
        k = k + 1;
    }
    p
}

// ---------------------------------------------------------------------------
// Diagnostics and the code-block contract
// ---------------------------------------------------------------------------
/// The view of an optional string.
pub open spec fn opt_view(o: Option<String>) -> Option<Seq<char>> {
    match o {
        Some(s) => Some(s@),
        None => None,
    }
}

/// Whether `d` is the `UnknownLanguage` diagnostic for the given tag.
pub open spec fn is_unknown_lang(d: Diagnostic, lang: Option<Seq<char>>) -> bool {
    match d {
        Diagnostic::UnknownLanguage(l) => opt_view(l) == lang,
        _ => false,
    }
}

/// Whether `d` is the `UnknownTheme` diagnostic for the given theme name.
pub open spec fn is_unknown_theme(d: Diagnostic, theme: Seq<char>) -> bool {
    match d {
        Diagnostic::UnknownTheme(t) => t@ == theme,
        _ => false,
    }
}

/// The diagnostics an unstyled code block may carry: its language tag was
/// absent or unknown, the theme was unknown, or both, in that order.
pub open spec fn plain_code_diags(
    ds: Seq<Diagnostic>,
    lang: Option<Seq<char>>,
    theme: Seq<char>,
) -> bool {
    ||| (ds.len() == 1 && is_unknown_lang(ds[0], lang))
    ||| (ds.len() == 1 && is_unknown_theme(ds[0], theme))
    ||| (ds.len() == 2 && is_unknown_lang(ds[0], lang) && is_unknown_theme(ds[1], theme))
}

/// What holds of a compiled code block and its diagnostics, whatever the
/// engine decided: a styled block is the exact serialization of its runs,
/// carries no diagnostic, every run is coloured, and the runs' texts are,
/// together, the escape of the tokenized lines that were kept (a line the
/// tokenizer failed on is skipped, so the kept lines are a subsequence of
/// the code's lines); an unstyled block keeps the raw code as plain text,
/// has no runs, and carries the diagnostics naming what did not resolve.
pub open spec fn code_block_ok(
    lang: Option<Seq<char>>,
    code: Seq<char>,
    theme: Seq<char>,
    b: DocNode,
    ds: Seq<Diagnostic>,
) -> bool {
    &&& b matches DocNode::CodeBlock { styled, runs, markup }
    &&& (b matches DocNode::CodeBlock { styled, runs, markup } ==> {
        &&& (styled ==> lang is Some && ds.len() == 0 && markup@ == runs_markup(runs@) && (
        exists|kept: Seq<Seq<char>>, parts: Seq<(u8, u8, u8, u8, String)>|
            #![trigger concat_lines(kept), parts_text(parts)]
            {
                &&& is_subsequence(kept, lines_of(code))
                &&& runs@.len() == parts.len()
                &&& forall|k: int|
                    0 <= k < runs@.len() ==> run_matches_part(#[trigger] runs@[k], parts[k])
                &&& parts_text(parts) == concat_lines(kept)
                &&& concat_texts(runs@) == escape_seq(concat_lines(kept))
            }) && (forall|k: int|
            0 <= k < runs@.len() ==> (#[trigger] runs@[k]).foreground is Some))
        &&& (!styled ==> runs@.len() == 0 && markup@ == code && plain_code_diags(
            ds,
            lang,
            theme,
        ))
    })
}

/// The diagnostics of one code block, given how the language tag and the
/// theme name resolved: one `UnknownLanguage` when the tag is absent or
/// unknown, one `UnknownTheme` when the theme is unknown, language first.
/// Both must resolve for the block to be styled; a failure of either only
/// degrades that one block to plain text.
pub fn code_diagnostics(
    lang: &Option<String>,
    lang_resolved: bool,
    theme_name: &str,
    theme_resolved: bool,
) -> (d: Vec<Diagnostic>)
    ensures
        (lang is Some && lang_resolved && theme_resolved) ==> d@.len() == 0,
        !(lang is Some && lang_resolved) && theme_resolved ==> d@.len() == 1 && is_unknown_lang(
            d@[0],
            opt_view(*lang),
        ),
        (lang is Some && lang_resolved) && !theme_resolved ==> d@.len() == 1 && is_unknown_theme(
            d@[0],
            theme_name@,
        ),
        !(lang is Some && lang_resolved) && !theme_resolved ==> d@.len() == 2 && is_unknown_lang(
            d@[0],
            opt_view(*lang),
        ) && is_unknown_theme(d@[1], theme_name@),
{
    let mut d: Vec<Diagnostic> = Vec::new();
    let lang_ok = match lang {
        Some(_) => lang_resolved,
        None => false,
    };
    if !lang_ok {
        let tag: Option<String> = match lang {
            Some(s) => Some(s.clone()),
            None => None,
        };
        d.push(Diagnostic::UnknownLanguage(tag));
    }
    if !theme_resolved {
        d.push(Diagnostic::UnknownTheme(String::from_str(theme_name)));
    }
    d
}

// ---------------------------------------------------------------------------
// The adapter
// ---------------------------------------------------------------------------
/// The highlighting engine's registries: the bundled grammars and themes,
/// loaded once and never mutated during compilation.
pub struct Highlighter {
    ps: syntect::parsing::SyntaxSet,
    ts: syntect::highlighting::ThemeSet,
}

impl Highlighter {
    /// Loads the bundled grammar and theme registries.
    pub fn new() -> Highlighter {
        Highlighter { ps: load_default_syntaxes(), ts: load_default_themes() }
    }

    /// Compiles one fenced code block. When both the language tag and the
    /// theme resolve, the code is tokenized line by line into style runs and
    /// serialized; otherwise the block degrades to plain text and the
    /// diagnostics say what did not resolve. A tokenizer failure on one line
    /// skips that line rather than aborting the block.
    pub fn highlight_block(&self, lang: &Option<String>, code: &str, theme_name: &str) -> (r: (
        DocNode,
        Vec<Diagnostic>,
    ))
        ensures
            code_block_ok(opt_view(*lang), code@, theme_name@, r.0, r.1@),
    {
        let syntax_opt = match lang {
            Some(l) => find_syntax(&self.ps, l.as_str()),
            None => None,
        };
        let theme_opt = find_theme(&self.ts, theme_name);
        let lang_resolved = syntax_opt.is_some();
        let theme_resolved = theme_opt.is_some();
        let diags = code_diagnostics(lang, lang_resolved, theme_name, theme_resolved);
        match (syntax_opt, theme_opt) {
            (Some(syntax), Some(theme)) => {
                let mut hl = new_highlight_lines(syntax, theme);
                let mut runs: Vec<StyleRun> = Vec::new();
                let lines = split_lines(code);
                let ghost line_views = views_of(lines@);
                let ghost mut kept: Seq<Seq<char>> = Seq::empty();
                let ghost mut all_parts: Seq<(u8, u8, u8, u8, String)> = Seq::empty();
                let mut i: usize = 0;
                proof {
                    assert(line_views.take(0) =~= Seq::<Seq<char>>::empty());
                    assert(concat_texts(runs@) =~= Seq::<char>::empty());
                    assert(concat_lines(kept) =~= Seq::<char>::empty());
                    assert(parts_text(all_parts) =~= Seq::<char>::empty());
                    assert(escape_seq(concat_lines(kept)) =~= Seq::<char>::empty());
                }
                while i < lines.len()
                    invariant
                        i <= lines@.len(),
                        line_views == views_of(lines@),
                        is_subsequence(kept, line_views.take(i as int)),
                        concat_texts(runs@) == escape_seq(concat_lines(kept)),
                        runs@.len() == all_parts.len(),
                        forall|k: int|
                            0 <= k < runs@.len() ==> run_matches_part(
                                #[trigger] runs@[k],
                                all_parts[k],
                            ),
                        parts_text(all_parts) == concat_lines(kept),
                        forall|k: int|
                            0 <= k < runs@.len() ==> (#[trigger] runs@[k]).foreground is Some,
                    decreases lines@.len() - i,
                {
                    let ghost lv = line_views[i as int];
                    match highlight_one_line(&mut hl, lines[i].as_str(), &self.ps) {
                        Some(ranges) => {
                            let parts = parts_of_ranges(&ranges);
                            let mut line_runs = runs_of_ranges(&parts);
                            let ghost old_runs = runs@;
                            let ghost old_parts = all_parts;
                            let ghost lr = line_runs@;
                            runs.append(&mut line_runs);
                            proof {
                                lemma_parts_ranges_text(parts@, ranges@);
                                lemma_runs_parts_text(lr, parts@);
                                assert(lv == lines@[i as int]@);
                                assert(parts_text(parts@) == lv);
                                assert(concat_texts(lr) == escape_seq(lv));
                                lemma_concat_texts_append(old_runs, lr);
                                lemma_parts_text_append(old_parts, parts@);
                                assert(runs@ == old_runs + lr);
                                lemma_concat_lines_push(kept, lv);
                                lemma_escape_append(concat_lines(kept), lv);
                                lemma_subseq_push_both(kept, line_views.take(i as int), lv);
                                assert(line_views.take(i as int + 1) =~= line_views.take(
                                    i as int,
                                ).push(lv));
                                kept = kept.push(lv);
                                all_parts = old_parts + parts@;
                                assert(concat_texts(runs@) == escape_seq(concat_lines(kept)));
                                assert(parts_text(all_parts) == concat_lines(kept));
                                assert forall|k: int|
                                    0 <= k < runs@.len() implies run_matches_part(
                                    #[trigger] runs@[k],
                                    all_parts[k],
                                ) by {
                                    if k < old_runs.len() {
                                        assert(runs@[k] == old_runs[k]);
                                        assert(all_parts[k] == old_parts[k]);
                                    } else {
                                        assert(runs@[k] == lr[k - old_runs.len()]);
                                        assert(all_parts[k] == parts@[k - old_runs.len()]);
                                    }
                                }
                                assert forall|k: int|
                                    0 <= k < runs@.len() implies (#[trigger] runs@[
                                k]).foreground is Some by {
                                    assert(run_matches_part(runs@[k], all_parts[k]));
                                }
                            }
                        },
                        None => {
                            proof {
                                lemma_subseq_extend(kept, line_views.take(i as int), lv);
                                assert(line_views.take(i as int + 1) =~= line_views.take(
                                    i as int,
                                ).push(lv));
                            }
                        },
                    }
                    i = i + 1;
                }
                let markup = serialize_runs(&runs);
                proof {
                    assert(line_views.take(lines@.len() as int) =~= line_views);
                    assert(is_subsequence(kept, lines_of(code@)));
                    assert(parts_text(all_parts) == concat_lines(kept));
                    assert(concat_texts(runs@) == escape_seq(concat_lines(kept)));
                }
                (DocNode::CodeBlock { styled: true, runs, markup }, diags)
            },
            _ => {
                let markup = String::from_str(code);
                (DocNode::CodeBlock { styled: false, runs: Vec::new(), markup }, diags)
            },
        }
    }
}

} // verus!
