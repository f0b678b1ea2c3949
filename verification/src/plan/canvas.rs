//! What both drawing backends share: the text sizes and the folding of text
//! onto the characters the bitmap font can draw.

use vstd::prelude::*;

use super::text::push_char;

verus! {

/// Height in pixels of one glyph of the bitmap font, at scale 1.
pub const GLYPH_H: u32 = 7;

/// The three text sizes the plan uses, as bitmap-font scales.
#[derive(Debug, Clone, Copy, PartialEq, Eq, Structural)]
pub enum TextSize {
    Small,
    Body,
    Title,
}

/// The integer bitmap-font scale of a text size.
pub open spec fn text_scale(size: TextSize) -> u32 {
    match size {
        TextSize::Small => 1,
        TextSize::Body => 2,
        TextSize::Title => 3,
    }
}

impl TextSize {
    /// The bitmap-font integer scale this size draws at.
    pub fn scale(self) -> (r: u32)
        ensures
            r == text_scale(self),
    {
        match self {
            TextSize::Small => 1,
            TextSize::Body => 2,
            TextSize::Title => 3,
        }
    }

    /// Height of a line of text at this size, in pixels.
    pub fn line_height(self) -> (r: u32)
        ensures
            r == GLYPH_H * text_scale(self),
    {
        GLYPH_H * self.scale()
    }
}

/// Whether `c` is printable ASCII, the range the bitmap font draws.
pub open spec fn printable_ascii(c: char) -> bool {
    ' ' <= c && c <= '~'
}

/// The character the bitmap font draws in place of `c`.
pub open spec fn fold_char(c: char) -> char {
    if printable_ascii(c) {
        c
    } else if ('\u{2012}' <= c && c <= '\u{2015}') || c == '\u{2212}' {
        '-'
    } else if c == '\u{2018}' || c == '\u{2019}' {
        '\''
    } else if c == '\u{201C}' || c == '\u{201D}' {
        '"'
    } else if c == '\u{2192}' {
        '>'
    } else if c == '\u{00A0}' {
        ' '
    } else {
        '?'
    }
}

/// `s` folded character by character.
pub open spec fn folded(s: Seq<char>) -> Seq<char> {
    s.map_values(|c: char| fold_char(c))
}

fn fold(c: char) -> (r: char)
    ensures
        r == fold_char(c),
{
    if ' ' <= c && c <= '~' {
        c
    } else if ('\u{2012}' <= c && c <= '\u{2015}') || c == '\u{2212}' {
        '-'
    } else if c == '\u{2018}' || c == '\u{2019}' {
        '\''
    } else if c == '\u{201C}' || c == '\u{201D}' {
        '"'
    } else if c == '\u{2192}' {
        '>'
    } else if c == '\u{00A0}' {
        ' '
    } else {
        '?'
    }
}

/// The bitmap font covers printable ASCII only, and draws anything else as a
/// box. Folding the text first turns a stray em dash into a hyphen rather
/// than a box, in both backends, so the two still agree on what they drew.
pub fn drawable_text(s: &str) -> (r: String)
    ensures
        r@ == folded(s@),
{
    let mut out = String::new();
    proof {
        broadcast use vstd::string::axiom_spec_iter;
    }
    for c in it: s.chars()
        invariant
            it.seq() == s@,
            out@ == folded(s@.take(it.index() as int)),
    {
        push_char(&mut out, fold(c));
        proof {
            assert(s@.take(it.index() + 1) =~= s@.take(it.index() as int).push(c));
        }
    }
    proof {
        assert(s@.take(s@.len() as int) =~= s@);
    }
    out
}

/// Every dash (figure dash, en dash, em dash, horizontal bar, minus sign)
/// becomes a hyphen, curly quotes become straight ones, the right arrow
/// becomes `>` and a no-break space a plain space; any other character
/// outside printable ASCII becomes `?`. This holds at each position of a
/// folded text.
pub proof fn lemma_marks_fold_to_ascii(s: Seq<char>, i: int)
    requires
        0 <= i < s.len(),
    ensures
        ('\u{2012}' <= s[i] && s[i] <= '\u{2015}') || s[i] == '\u{2212}' ==> folded(s)[i] == '-',
        s[i] == '\u{2018}' || s[i] == '\u{2019}' ==> folded(s)[i] == '\'',
        s[i] == '\u{201C}' || s[i] == '\u{201D}' ==> folded(s)[i] == '"',
        s[i] == '\u{2192}' ==> folded(s)[i] == '>',
        s[i] == '\u{00A0}' ==> folded(s)[i] == ' ',
        ' ' <= s[i] && s[i] <= '~' ==> folded(s)[i] == s[i],
        !(' ' <= s[i] && s[i] <= '~') && !('\u{2012}' <= s[i] && s[i] <= '\u{2015}') && s[i] != '\u{2212}'
            && s[i] != '\u{2018}' && s[i] != '\u{2019}' && s[i] != '\u{201C}' && s[i] != '\u{201D}'
            && s[i] != '\u{2192}' && s[i] != '\u{00A0}' ==> folded(s)[i] == '?',
{
}

/// Folding keeps the width: one character out for each character in.
pub proof fn lemma_folding_keeps_length(s: Seq<char>)
    ensures
        folded(s).len() == s.len(),
{
}

/// Everything folded is printable ASCII, which the bitmap font can draw.
pub proof fn lemma_folded_is_drawable(s: Seq<char>)
    ensures
        forall|i: int| 0 <= i < s.len() ==> printable_ascii(#[trigger] folded(s)[i]),
{
}

/// Printable ASCII text is left as it is.
pub proof fn lemma_printable_text_unchanged(s: Seq<char>)
    requires
        forall|i: int| 0 <= i < s.len() ==> printable_ascii(#[trigger] s[i]),
    ensures
        folded(s) == s,
{
    assert(folded(s) =~= s);
}

/// Folding twice is folding once.
pub proof fn lemma_folding_is_idempotent(s: Seq<char>)
    ensures
        folded(folded(s)) == folded(s),
{
    lemma_folded_is_drawable(s);
    lemma_printable_text_unchanged(folded(s));
}

} // verus!
