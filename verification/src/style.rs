//! Display styling model: colors, style attributes, styled runs, display
//! lines and rendered blocks, plus the mapper from the highlighter's raw
//! style attributes to this model.

use vstd::prelude::*;

verus! {

/// A display color: terminal default, a named palette color, or 24-bit RGB.
#[derive(Clone, Copy, Debug, PartialEq, Eq, Structural)]
pub enum ColorKind {
    Unset,
    Red,
    Green,
    Yellow,
    Blue,
    Magenta,
    Cyan,
    White,
    Rgb(u8, u8, u8),
}

/// Style attributes of one run of text: foreground and background colors
/// and the bold/italic/underline font flags.
#[derive(Clone, Copy, Debug, PartialEq, Eq, Structural)]
pub struct StyleAttributes {
    pub fg: ColorKind,
    pub bg: ColorKind,
    pub bold: bool,
    pub italic: bool,
    pub underline: bool,
}

/// The default style value, for use in specifications.
pub open spec fn spec_plain_style() -> StyleAttributes {
    StyleAttributes {
        fg: ColorKind::Unset,
        bg: ColorKind::Unset,
        bold: false,
        italic: false,
        underline: false,
    }
}

/// The style of a given foreground color with no font flags.
pub open spec fn spec_fg_style(fg: ColorKind) -> StyleAttributes {
    StyleAttributes { fg, bg: ColorKind::Unset, bold: false, italic: false, underline: false }
}

impl StyleAttributes {
    /// The default style: no color, no font modifiers.
    pub fn plain() -> (s: StyleAttributes)
        ensures
            s == spec_plain_style(),
    {
        StyleAttributes {
            fg: ColorKind::Unset,
            bg: ColorKind::Unset,
            bold: false,
            italic: false,
            underline: false,
        }
    }

    /// A style with the given foreground color and no font flags.
    pub fn with_fg(fg: ColorKind) -> (s: StyleAttributes)
        ensures
            s == spec_fg_style(fg),
    {
        StyleAttributes { fg, bg: ColorKind::Unset, bold: false, italic: false, underline: false }
    }
}

/// The raw style the highlighter reports for one run: an RGB foreground and
/// the grammar engine's font-style bit flags.
pub struct RawHighlightStyle {
    pub red: u8,
    pub green: u8,
    pub blue: u8,
    /// Font flags as reported by the grammar engine: bit 0 = bold,
    /// bit 1 = underline, bit 2 = italic.
    pub font_bits: u8,
}

/// What the style mapper produces for given raw attributes: the RGB
/// foreground is passed through and the three font flags are decoded from
/// the bit positions the grammar engine uses.
pub open spec fn spec_map_style(raw: RawHighlightStyle) -> StyleAttributes {
    StyleAttributes {
        fg: ColorKind::Rgb(raw.red, raw.green, raw.blue),
        bg: ColorKind::Unset,
        bold: raw.font_bits & 1 != 0,
        italic: raw.font_bits & 4 != 0,
        underline: raw.font_bits & 2 != 0,
    }
}

/// Style mapper: convert the highlighter's raw attributes to the display
/// styling model. Pure, total, deterministic.
pub fn map_raw_style(raw: &RawHighlightStyle) -> (s: StyleAttributes)
    ensures
        s == spec_map_style(*raw),
{
    StyleAttributes {
        fg: ColorKind::Rgb(raw.red, raw.green, raw.blue),
        bg: ColorKind::Unset,
        bold: raw.font_bits & 1 != 0,
        italic: raw.font_bits & 4 != 0,
        underline: raw.font_bits & 2 != 0,
    }
}

/// One run of identically styled text within a display line.
pub struct StyledRun {
    pub text: String,
    pub style: StyleAttributes,
}

/// One fully styled terminal row: an ordered sequence of styled runs.
/// A display line never contains an embedded newline.
pub struct DisplayLine {
    pub runs: Vec<StyledRun>,
}

/// The full rendered output for one text block at one width.
pub struct RenderedBlock {
    pub lines: Vec<DisplayLine>,
}

/// The text carried by a sequence of runs: the concatenation of the runs'
/// texts, in order.
pub open spec fn runs_text(rs: Seq<StyledRun>) -> Seq<char>
    decreases rs.len(),
{
    if rs.len() == 0 {
        Seq::empty()
    } else {
        rs[0].text@ + runs_text(rs.drop_first())
    }
}

/// The text of one display line.
pub open spec fn line_text(dl: DisplayLine) -> Seq<char> {
    runs_text(dl.runs@)
}

/// The texts of a sequence of display lines, in order.
pub open spec fn lines_texts(s: Seq<DisplayLine>) -> Seq<Seq<char>> {
    s.map_values(|dl: DisplayLine| line_text(dl))
}

/// The texts of all lines of a rendered block, in order.
pub open spec fn block_texts(b: RenderedBlock) -> Seq<Seq<char>> {
    lines_texts(b.lines@)
}

/// The runs of a sequence of display lines, in order.
pub open spec fn lines_runs(s: Seq<DisplayLine>) -> Seq<Seq<StyledRun>> {
    s.map_values(|dl: DisplayLine| dl.runs@)
}

/// The observable content of a rendered block: for each line, its runs
/// (text and style). Two blocks with the same `block_runs` cannot be told
/// apart by a reader of the output.
pub open spec fn block_runs(b: RenderedBlock) -> Seq<Seq<StyledRun>> {
    lines_runs(b.lines@)
}

/// Blocks with the same observable content carry the same line texts.
pub proof fn lemma_block_runs_texts(b1: RenderedBlock, b2: RenderedBlock)
    requires
        block_runs(b1) == block_runs(b2),
    ensures
        block_texts(b1) == block_texts(b2),
{
    assert(block_runs(b1).len() == b1.lines@.len());
    assert(block_runs(b2).len() == b2.lines@.len());
    assert(b1.lines@.len() == b2.lines@.len());
    assert forall|i: int| 0 <= i < b1.lines@.len() implies line_text(b1.lines@[i]) == line_text(
        b2.lines@[i],
    ) by {
        assert(block_runs(b1)[i] == b1.lines@[i].runs@);
        assert(block_runs(b2)[i] == b2.lines@[i].runs@);
    }
    assert(block_texts(b1) =~= block_texts(b2));
}

/// An observably identical copy of a rendered block.
pub fn clone_block(b: &RenderedBlock) -> (r: RenderedBlock)
    ensures
        block_runs(r) == block_runs(*b),
{
    let mut lines: Vec<DisplayLine> = Vec::new();
    let mut i: usize = 0;
    while i < b.lines.len()
        invariant
            i <= b.lines@.len(),
            lines@.len() == i,
            forall|k: int| 0 <= k < i ==> (#[trigger] lines@[k]).runs@ == b.lines@[k].runs@,
        decreases b.lines@.len() - i,
    {
        let src = &b.lines[i];
        let mut runs: Vec<StyledRun> = Vec::new();
        let mut j: usize = 0;
        while j < src.runs.len()
            invariant
                j <= src.runs@.len(),
                runs@.len() == j,
                forall|k: int| 0 <= k < j ==> runs@[k] == src.runs@[k],
            decreases src.runs@.len() - j,
        {
            let run = &src.runs[j];
            let copy = StyledRun { text: run.text.clone(), style: run.style };
            proof {
                assert(copy.text == run.text);
                assert(copy == src.runs@[j as int]);
            }
            runs.push(copy);
            j += 1;
        }
        proof {
            assert(runs@ =~= src.runs@);
        }
        lines.push(DisplayLine { runs });
        i += 1;
    }
    let r = RenderedBlock { lines };
    proof {
        assert(block_runs(r) =~~= block_runs(*b));
    }
    r
}

/// Appending a run appends its text.
pub proof fn lemma_runs_text_push(rs: Seq<StyledRun>, r: StyledRun)
    ensures
        runs_text(rs.push(r)) == runs_text(rs) + r.text@,
    decreases rs.len(),
{
    if rs.len() == 0 {
        assert(rs.push(r)[0] == r);
        assert(rs.push(r).drop_first() =~= Seq::<StyledRun>::empty());
        assert(runs_text(Seq::<StyledRun>::empty()) == Seq::<char>::empty());
        assert(runs_text(rs.push(r)) =~= r.text@ + Seq::<char>::empty());
        assert(runs_text(rs.push(r)) =~= r.text@);
        assert(runs_text(rs) + r.text@ =~= r.text@);
    } else {
        assert(rs.push(r).drop_first() =~= rs.drop_first().push(r));
        lemma_runs_text_push(rs.drop_first(), r);
        assert(runs_text(rs.push(r)) =~= runs_text(rs) + r.text@);
    }
}

/// Concatenating two run sequences concatenates their texts.
pub proof fn lemma_runs_text_concat(a: Seq<StyledRun>, b: Seq<StyledRun>)
    ensures
        runs_text(a + b) == runs_text(a) + runs_text(b),
    decreases a.len(),
{
    if a.len() == 0 {
        assert(a + b =~= b);
        assert(runs_text(a) + runs_text(b) =~= runs_text(b));
    } else {
        assert((a + b).drop_first() =~= a.drop_first() + b);
        lemma_runs_text_concat(a.drop_first(), b);
        assert(runs_text(a + b) =~= runs_text(a) + runs_text(b));
    }
}

} // verus!
