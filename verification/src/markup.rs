//! The flat markup model: escaping of text for the markup format, the
//! write-once-then-sealed label accumulator, and a scanner that defines what
//! it means for a markup string's inline tags to be balanced.

use vstd::prelude::*;

verus! {

// ---------------------------------------------------------------------------
// Escaping
// ---------------------------------------------------------------------------
/// The characters of the `&amp;` entity.
pub open spec fn amp_entity() -> Seq<char> {
    seq!['&', 'a', 'm', 'p', ';']
}

/// The characters of the `&lt;` entity.
pub open spec fn lt_entity() -> Seq<char> {
    seq!['&', 'l', 't', ';']
}

/// The characters of the `&gt;` entity.
pub open spec fn gt_entity() -> Seq<char> {
    seq!['&', 'g', 't', ';']
}

/// The characters of the `&quot;` entity.
pub open spec fn quot_entity() -> Seq<char> {
    seq!['&', 'q', 'u', 'o', 't', ';']
}

/// How one character is escaped: the four markup-special characters become
/// entities, every other character stands for itself.
pub open spec fn escape_char(c: char) -> Seq<char> {
    if c == '&' {
        amp_entity()
    } else if c == '<' {
        lt_entity()
    } else if c == '>' {
        gt_entity()
    } else if c == '"' {
        quot_entity()
    } else {
        seq![c]
    }
}

/// Text escaped for the markup format, character by character.
pub open spec fn escape_seq(s: Seq<char>) -> Seq<char>
    decreases s.len(),
{
    if s.len() == 0 {
        Seq::empty()
    } else {
        escape_char(s[0]) + escape_seq(s.skip(1))
    }
}

/// Escaping distributes over taking one more character.
pub proof fn lemma_escape_snoc(s: Seq<char>, c: char)
    ensures
        escape_seq(s.push(c)) == escape_seq(s) + escape_char(c),
    decreases s.len(),
{
    if s.len() == 0 {
        assert(s.push(c).len() == 1);
        assert(s.push(c)[0] == c);
        assert(s.push(c).skip(1) =~= Seq::empty());
        assert(escape_char(c) + escape_seq(Seq::empty()) =~= escape_char(c));
        assert(escape_seq(s.push(c)) =~= escape_char(c));
        assert(escape_seq(s) + escape_char(c) =~= escape_char(c));
    } else {
        assert(s.push(c).skip(1) =~= s.skip(1).push(c));
        lemma_escape_snoc(s.skip(1), c);
        assert(escape_char(s[0]) + (escape_seq(s.skip(1)) + escape_char(c)) =~= (escape_char(s[0])
            + escape_seq(s.skip(1))) + escape_char(c));
    }
}

/// Escaping distributes over concatenation.
pub proof fn lemma_escape_append(a: Seq<char>, b: Seq<char>)
    ensures
        escape_seq(a + b) == escape_seq(a) + escape_seq(b),
    decreases a.len(),
{
    if a.len() == 0 {
        assert(a + b =~= b);
        assert(escape_seq(a) + escape_seq(b) =~= escape_seq(b));
    } else {
        assert((a + b)[0] == a[0]);
        assert((a + b).skip(1) =~= a.skip(1) + b);
        lemma_escape_append(a.skip(1), b);
        assert(escape_char(a[0]) + (escape_seq(a.skip(1)) + escape_seq(b)) =~= (escape_char(a[0])
            + escape_seq(a.skip(1))) + escape_seq(b));
    }
}

/// Escaped text never holds an angle bracket: the only `<` and `>` in a
/// markup string are the tags the compiler itself emits.
pub proof fn lemma_escape_no_angle(s: Seq<char>)
    ensures
        forall|i: int|
            0 <= i < escape_seq(s).len() ==> escape_seq(s)[i] != '<' && escape_seq(s)[i] != '>',
    decreases s.len(),
{
    if s.len() > 0 {
        lemma_escape_no_angle(s.skip(1));
        assert forall|i: int|
            0 <= i < escape_seq(s).len() implies escape_seq(s)[i] != '<' && escape_seq(s)[i]
            != '>' by {
            let head = escape_char(s[0]);
            if i >= head.len() {
                assert(escape_seq(s)[i] == escape_seq(s.skip(1))[i - head.len()]);
            }
        }
    }
}

/// Escapes text for the markup format: `&`, `<`, `>` and `"` become
/// entities, all else is kept.
pub fn escape_markup(s: &str) -> (r: String)
    ensures
        r@ == escape_seq(s@),
{
    let n = s.unicode_len();
    let mut r = String::new();
    let mut i: usize = 0;
    while i < n
        invariant
            i <= n,
            n == s@.len(),
            r@ == escape_seq(s@.take(i as int)),
        decreases n - i,
    {
        let c = s.get_char(i);
        proof {
            assert(s@.take(i + 1) =~= s@.take(i as int).push(s@[i as int]));
            lemma_escape_snoc(s@.take(i as int), s@[i as int]);
            reveal_strlit("&amp;");
            reveal_strlit("&lt;");
            reveal_strlit("&gt;");
            reveal_strlit("&quot;");
            assert("&amp;"@ =~= amp_entity());
            assert("&lt;"@ =~= lt_entity());
            assert("&gt;"@ =~= gt_entity());
            assert("&quot;"@ =~= quot_entity());
        }
        if c == '&' {
            r.append("&amp;");
        } else if c == '<' {
            r.append("&lt;");
        } else if c == '>' {
            r.append("&gt;");
        } else if c == '"' {
            r.append("&quot;");
        } else {
            let piece = s.substring_char(i, i + 1);
            proof {
                assert(piece@ =~= seq![s@[i as int]]);
            }
            r.append(piece);
        }
        i = i + 1;
    }
    proof {
        assert(s@.take(n as int) =~= s@);
    }
    r
}

// ---------------------------------------------------------------------------
// Unescaping, and the round trip
// ---------------------------------------------------------------------------
/// Whether `s` begins with the `&amp;` entity.
pub open spec fn amp_prefix(s: Seq<char>) -> bool {
    s.len() >= 5 && s[0] == '&' && s[1] == 'a' && s[2] == 'm' && s[3] == 'p' && s[4] == ';'
}

/// Whether `s` begins with the `&lt;` entity.
pub open spec fn lt_prefix(s: Seq<char>) -> bool {
    s.len() >= 4 && s[0] == '&' && s[1] == 'l' && s[2] == 't' && s[3] == ';'
}

/// Whether `s` begins with the `&gt;` entity.
pub open spec fn gt_prefix(s: Seq<char>) -> bool {
    s.len() >= 4 && s[0] == '&' && s[1] == 'g' && s[2] == 't' && s[3] == ';'
}

/// Whether `s` begins with the `&quot;` entity.
pub open spec fn quot_prefix(s: Seq<char>) -> bool {
    s.len() >= 6 && s[0] == '&' && s[1] == 'q' && s[2] == 'u' && s[3] == 'o' && s[4] == 't' && s[5]
        == ';'
}

/// Text with the four entities folded back into their characters, greedily
/// from the left; anything else is kept as it stands.
pub open spec fn unescape_seq(s: Seq<char>) -> Seq<char>
    decreases s.len(),
{
    if s.len() == 0 {
        Seq::empty()
    } else if amp_prefix(s) {
        seq!['&'] + unescape_seq(s.skip(5))
    } else if lt_prefix(s) {
        seq!['<'] + unescape_seq(s.skip(4))
    } else if gt_prefix(s) {
        seq!['>'] + unescape_seq(s.skip(4))
    } else if quot_prefix(s) {
        seq!['"'] + unescape_seq(s.skip(6))
    } else {
        seq![s[0]] + unescape_seq(s.skip(1))
    }
}

/// The escaping round trip: unescaping escaped text gives the original text
/// back exactly, for every input.
pub proof fn lemma_escape_round_trip(s: Seq<char>)
    ensures
        unescape_seq(escape_seq(s)) == s,
    decreases s.len(),
{
    if s.len() == 0 {
        assert(unescape_seq(escape_seq(s)) =~= s);
    } else {
        let c = s[0];
        let e = escape_seq(s);
        let rest = escape_seq(s.skip(1));
        lemma_escape_round_trip(s.skip(1));
        assert(e == escape_char(c) + rest);
        if c == '&' {
            assert(amp_prefix(e));
            assert(e.skip(5) =~= rest);
            assert(seq!['&'] + s.skip(1) =~= s);
        } else if c == '<' {
            assert(!amp_prefix(e));
            assert(lt_prefix(e));
            assert(e.skip(4) =~= rest);
            assert(seq!['<'] + s.skip(1) =~= s);
        } else if c == '>' {
            assert(!amp_prefix(e) && !lt_prefix(e));
            assert(gt_prefix(e));
            assert(e.skip(4) =~= rest);
            assert(seq!['>'] + s.skip(1) =~= s);
        } else if c == '"' {
            assert(!amp_prefix(e) && !lt_prefix(e) && !gt_prefix(e));
            assert(quot_prefix(e));
            assert(e.skip(6) =~= rest);
            assert(seq!['"'] + s.skip(1) =~= s);
        } else {
            assert(e[0] == c);
            assert(!amp_prefix(e) && !lt_prefix(e) && !gt_prefix(e) && !quot_prefix(e));
            assert(e.skip(1) =~= rest);
            assert(seq![c] + s.skip(1) =~= s);
        }
    }
}

/// Folds the four entities of [`escape_markup`] back into their characters.
pub fn unescape_markup(s: &str) -> (r: String)
    ensures
        r@ == unescape_seq(s@),
{
    let n = s.unicode_len();
    let mut r = String::new();
    let mut i: usize = 0;
    proof {
        assert(s@.skip(0) =~= s@);
        assert(Seq::<char>::empty() + unescape_seq(s@) =~= unescape_seq(s@));
    }
    while i < n
        invariant
            i <= n,
            n == s@.len(),
            unescape_seq(s@) == r@ + unescape_seq(s@.skip(i as int)),
        decreases n - i,
    {
        let ghost tail = s@.skip(i as int);
        proof {
            reveal_strlit("&");
            reveal_strlit("<");
            reveal_strlit(">");
            reveal_strlit("\"");
        }
        let c = s.get_char(i);
        if c == '&' && n - i > 4 && s.get_char(i + 1) == 'a' && s.get_char(i + 2) == 'm'
            && s.get_char(i + 3) == 'p' && s.get_char(i + 4) == ';' {
            proof {
                assert(amp_prefix(tail));
                assert(tail.skip(5) =~= s@.skip(i + 5));
                assert((r@ + seq!['&']) + unescape_seq(s@.skip(i + 5)) =~= r@ + (seq!['&']
                    + unescape_seq(tail.skip(5))));
                assert("&"@ =~= seq!['&']);
            }
            r.append("&");
            i = i + 5;
        } else if c == '&' && n - i > 3 && s.get_char(i + 1) == 'l' && s.get_char(i + 2) == 't'
            && s.get_char(i + 3) == ';' {
            proof {
                assert(lt_prefix(tail));
                assert(tail.skip(4) =~= s@.skip(i + 4));
                assert((r@ + seq!['<']) + unescape_seq(s@.skip(i + 4)) =~= r@ + (seq!['<']
                    + unescape_seq(tail.skip(4))));
                assert("<"@ =~= seq!['<']);
            }
            r.append("<");
            i = i + 4;
        } else if c == '&' && n - i > 3 && s.get_char(i + 1) == 'g' && s.get_char(i + 2) == 't'
            && s.get_char(i + 3) == ';' {
            proof {
                assert(!lt_prefix(tail));
                assert(gt_prefix(tail));
                assert(tail.skip(4) =~= s@.skip(i + 4));
                assert((r@ + seq!['>']) + unescape_seq(s@.skip(i + 4)) =~= r@ + (seq!['>']
                    + unescape_seq(tail.skip(4))));
                assert(">"@ =~= seq!['>']);
            }
            r.append(">");
            i = i + 4;
        } else if c == '&' && n - i > 5 && s.get_char(i + 1) == 'q' && s.get_char(i + 2) == 'u'
            && s.get_char(i + 3) == 'o' && s.get_char(i + 4) == 't' && s.get_char(i + 5) == ';' {
            proof {
                assert(!amp_prefix(tail) && !lt_prefix(tail) && !gt_prefix(tail));
                assert(quot_prefix(tail));
                assert(tail.skip(6) =~= s@.skip(i + 6));
                assert((r@ + seq!['"']) + unescape_seq(s@.skip(i + 6)) =~= r@ + (seq!['"']
                    + unescape_seq(tail.skip(6))));
                assert("\""@ =~= seq!['"']);
            }
            r.append("\"");
            i = i + 6;
        } else {
            proof {
                assert(!amp_prefix(tail) && !lt_prefix(tail) && !gt_prefix(tail) && !quot_prefix(
                    tail,
                ));
                assert(tail.skip(1) =~= s@.skip(i + 1));
                assert((r@ + seq![tail[0]]) + unescape_seq(s@.skip(i + 1)) =~= r@ + (seq![tail[0]]
                    + unescape_seq(tail.skip(1))));
            }
            let piece = s.substring_char(i, i + 1);
            proof {
                assert(piece@ =~= seq![s@[i as int]]);
            }
            r.append(piece);
            i = i + 1;
        }
    }
    proof {
        assert(s@.skip(n as int) =~= Seq::<char>::empty());
    }
    r
}

// ---------------------------------------------------------------------------
// The label accumulator
// ---------------------------------------------------------------------------
/// A markup label: an accumulating buffer of markup text that is appended to
/// while a block's subtree is compiled and sealed exactly once when the
/// subtree is finished. A sealed label can no longer be appended to, so a
/// consumer never observes partially tagged markup.
#[derive(Debug)]
pub struct Label {
    text: String,
    sealed: bool,
}

impl Label {
    /// The markup text accumulated so far.
    pub closed spec fn text(&self) -> Seq<char> {
        self.text@
    }

    /// Whether the label has been sealed.
    pub closed spec fn is_sealed(&self) -> bool {
        self.sealed
    }

    /// A fresh, empty, unsealed label.
    pub fn new() -> (l: Label)
        ensures
            l.text() == Seq::<char>::empty(),
            !l.is_sealed(),
    {
        Label { text: String::new(), sealed: false }
    }

    /// Appends markup text; only a building label can be appended to.
    pub fn append_str(&mut self, s: &str)
        requires
            !old(self).is_sealed(),
        ensures
            final(self).text() == old(self).text() + s@,
            !final(self).is_sealed(),
    {
        self.text.append(s);
    }

    /// Seals the label; its text is final from here on.
    pub fn seal(&mut self)
        requires
            !old(self).is_sealed(),
        ensures
            final(self).text() == old(self).text(),
            final(self).is_sealed(),
    {
        self.sealed = true;
    }

    /// Hands out the finished markup of a sealed label.
    pub fn into_markup(self) -> (r: String)
        requires
            self.is_sealed(),
        ensures
            r@ == self.text(),
    {
        self.text
    }
}

// ---------------------------------------------------------------------------
// Balanced inline tags
// ---------------------------------------------------------------------------
/// The three inline span kinds whose tags the balance scanner tracks.
#[derive(Debug, Clone, Copy, PartialEq, Eq, Structural)]
pub enum TagKind {
    /// `<b>` … `</b>`
    Bold,
    /// `<i>` … `</i>`
    Italic,
    /// `<s>` … `</s>`
    Strike,
}

/// The single letter of a span tag.
pub open spec fn tag_char(t: TagKind) -> char {
    match t {
        TagKind::Bold => 'b',
        TagKind::Italic => 'i',
        TagKind::Strike => 's',
    }
}

/// The characters of an opening tag.
pub open spec fn open_tag(t: TagKind) -> Seq<char> {
    seq!['<', tag_char(t), '>']
}

/// The characters of a closing tag.
pub open spec fn close_tag(t: TagKind) -> Seq<char> {
    seq!['<', '/', tag_char(t), '>']
}

/// Whether `s` begins with the opening tag of `t`.
pub open spec fn open_tag_prefix(s: Seq<char>, t: TagKind) -> bool {
    s.len() >= 3 && s[0] == '<' && s[1] == tag_char(t) && s[2] == '>'
}

/// Whether `s` begins with the closing tag of `t`.
pub open spec fn close_tag_prefix(s: Seq<char>, t: TagKind) -> bool {
    s.len() >= 4 && s[0] == '<' && s[1] == '/' && s[2] == tag_char(t) && s[3] == '>'
}

/// Scans a markup string left to right against a stack of open spans: an
/// opening tag pushes its kind, a closing tag must match the innermost open
/// span and pops it, and any other use of `<` fails the scan. The result is
/// the stack after the scan, or `None` when a close crosses another span or
/// a stray `<` appears.
pub open spec fn scan_tags(s: Seq<char>, stack: Seq<TagKind>) -> Option<Seq<TagKind>>
    decreases s.len(),
{
    if s.len() == 0 {
        Some(stack)
    } else if s[0] != '<' {
        scan_tags(s.skip(1), stack)
    } else if open_tag_prefix(s, TagKind::Bold) {
        scan_tags(s.skip(3), stack.push(TagKind::Bold))
    } else if open_tag_prefix(s, TagKind::Italic) {
        scan_tags(s.skip(3), stack.push(TagKind::Italic))
    } else if open_tag_prefix(s, TagKind::Strike) {
        scan_tags(s.skip(3), stack.push(TagKind::Strike))
    } else if close_tag_prefix(s, TagKind::Bold) {
        if stack.len() > 0 && stack.last() == TagKind::Bold {
            scan_tags(s.skip(4), stack.drop_last())
        } else {
            Option::None
        }
    } else if close_tag_prefix(s, TagKind::Italic) {
        if stack.len() > 0 && stack.last() == TagKind::Italic {
            scan_tags(s.skip(4), stack.drop_last())
        } else {
            Option::None
        }
    } else if close_tag_prefix(s, TagKind::Strike) {
        if stack.len() > 0 && stack.last() == TagKind::Strike {
            scan_tags(s.skip(4), stack.drop_last())
        } else {
            Option::None
        }
    } else {
        Option::None
    }
}

/// A markup string is balanced when a scan from the empty stack succeeds and
/// ends with the empty stack: every opened span is closed, every close
/// matches the innermost open span, and no tags cross.
pub open spec fn balanced_markup(s: Seq<char>) -> bool {
    scan_tags(s, Seq::empty()) == Some(Seq::<TagKind>::empty())
}

/// A successful scan of `a` continues through `a + b` unchanged: scanning is
/// compositional over concatenation.
pub proof fn lemma_scan_concat(a: Seq<char>, b: Seq<char>, st: Seq<TagKind>, st2: Seq<TagKind>)
    requires
        scan_tags(a, st) == Some(st2),
    ensures
        scan_tags(a + b, st) == scan_tags(b, st2),
    decreases a.len(),
{
    if a.len() == 0 {
        assert(a + b =~= b);
    } else {
        let s = a + b;
        assert(s[0] == a[0]);
        assert(s.len() >= a.len());
        assert forall|k: int| 0 <= k < a.len() implies s[k] == a[k] by {}
        if a[0] != '<' {
            assert(s.skip(1) =~= a.skip(1) + b);
            lemma_scan_concat(a.skip(1), b, st, st2);
        } else if open_tag_prefix(a, TagKind::Bold) {
            assert(s.skip(3) =~= a.skip(3) + b);
            lemma_scan_concat(a.skip(3), b, st.push(TagKind::Bold), st2);
        } else if open_tag_prefix(a, TagKind::Italic) {
            assert(s.skip(3) =~= a.skip(3) + b);
            lemma_scan_concat(a.skip(3), b, st.push(TagKind::Italic), st2);
        } else if open_tag_prefix(a, TagKind::Strike) {
            assert(s.skip(3) =~= a.skip(3) + b);
            lemma_scan_concat(a.skip(3), b, st.push(TagKind::Strike), st2);
        } else if close_tag_prefix(a, TagKind::Bold) {
            assert(s.skip(4) =~= a.skip(4) + b);
            lemma_scan_concat(a.skip(4), b, st.drop_last(), st2);
        } else if close_tag_prefix(a, TagKind::Italic) {
            assert(s.skip(4) =~= a.skip(4) + b);
            lemma_scan_concat(a.skip(4), b, st.drop_last(), st2);
        } else if close_tag_prefix(a, TagKind::Strike) {
            assert(s.skip(4) =~= a.skip(4) + b);
            lemma_scan_concat(a.skip(4), b, st.drop_last(), st2);
        } else {
            assert(false);
        }
    }
}

/// Text without `<` scans through without touching the stack.
pub proof fn lemma_scan_text(s: Seq<char>, st: Seq<TagKind>)
    requires
        forall|i: int| 0 <= i < s.len() ==> s[i] != '<',
    ensures
        scan_tags(s, st) == Some(st),
    decreases s.len(),
{
    if s.len() > 0 {
        assert forall|i: int| 0 <= i < s.skip(1).len() implies s.skip(1)[i] != '<' by {
            assert(s.skip(1)[i] == s[i + 1]);
        }
        lemma_scan_text(s.skip(1), st);
    }
}

} // verus!
