//! The block renderer: a single-pass state machine that turns one text
//! block into styled, width-padded display lines.
//!
//! Every line is classified as a heading, a plain Markdown line, part of a
//! fenced code region, or part of a bare JSON region. Code and JSON
//! regions come out line-numbered; fenced regions are wrapped in
//! horizontal rules (the top rule suppressed for a region that opens the
//! block); a bare JSON region runs to the end of input and a missing
//! closing delimiter is synthesized before highlighting.
//!
//! The output is pinned by two spec-level models: [`rendered_text`] fixes
//! the text of every output line exactly, and [`rendered_shapes`] with
//! [`matches_shape`] fixes the run structure the library itself decides —
//! heading runs bold in the level's color, white rules and number labels,
//! and default-styled padding runs — while grammar-driven token styles
//! are whatever the highlighter returned.

use vstd::prelude::*;
use crate::classify::close_delim;
use crate::classify::close_delim_exec;
use crate::classify::fence_tag;
use crate::classify::fence_tag_exec;
use crate::classify::heading_level_exec;
use crate::classify::is_fence_line;
use crate::classify::is_fence_line_exec;
use crate::classify::is_heading;
use crate::classify::heading_level;
use crate::classify::json_complete_exec;
use crate::classify::json_region_content;
use crate::classify::starts_json;
use crate::resolver::canon_key;
use crate::resolver::json_key;
use crate::resolver::resolve_chars;
use crate::cache::RenderCache;
use crate::highlight::HighlightError;
use crate::highlight::HighlightSession;
use crate::highlight::default_theme;
use crate::highlight::find_syntax_token;
use crate::highlight::theme_lookup;
use crate::highlight::load_syntax_set;
use crate::highlight::load_theme_set;
use crate::resolver::chars_eq;
use crate::style::ColorKind;
use crate::style::DisplayLine;
use crate::style::RenderedBlock;
use crate::style::block_runs;
use crate::style::lines_runs;
use crate::style::block_texts;
use crate::style::clone_block;
use crate::style::lemma_runs_text_concat;
use crate::textutil::chars_of;
use crate::textutil::copy_range;
use crate::textutil::split_lines_exec;
use crate::style::StyleAttributes;
use crate::style::StyledRun;
use crate::style::lemma_runs_text_push;
use crate::style::line_text;
use crate::style::runs_text;
use crate::style::spec_fg_style;
use crate::style::spec_plain_style;
use crate::textutil::dec_digits;
use crate::textutil::pad_to;
use crate::textutil::repeat_char;
use crate::textutil::rule_chars;
use crate::textutil::spaces;
use crate::textutil::split_lines;
use crate::textutil::string_of;
use crate::textutil::trim_start_spec;
use crate::textutil::to_decimal;
use vstd::string::StringExecFns;

verus! {

/// The separator between a line number and the line's content: a vertical
/// rule for ordinary languages, a plain space for JSON-flavored regions.
pub open spec fn sep_chars(json_flavor: bool) -> Seq<char> {
    if json_flavor {
        seq![' ']
    } else {
        seq![' ', '│', ' ']
    }
}

/// The line-number label for line `i` (1-based), right-aligned to width
/// `w` with spaces.
pub open spec fn num_label(i: nat, w: nat) -> Seq<char> {
    let d = dec_digits(i);
    if d.len() >= w {
        d
    } else {
        spaces((w - d.len()) as nat) + d
    }
}

/// The text of one numbered code line: label, separator and content,
/// padded to the target width.
pub open spec fn code_line_text(
    i: nat,
    numw: nat,
    json_flavor: bool,
    content: Seq<char>,
    width: nat,
) -> Seq<char> {
    pad_to(num_label(i, numw) + sep_chars(json_flavor) + content, width)
}

/// The texts of the numbered lines of a code or JSON region. The label
/// width is the digit count of the highest line number of the region.
pub open spec fn region_body_texts(content: Seq<Seq<char>>, json_flavor: bool, width: nat) -> Seq<
    Seq<char>,
> {
    let numw = dec_digits(content.len()).len();
    Seq::new(
        content.len(),
        |k: int| code_line_text((k + 1) as nat, numw, json_flavor, content[k], width),
    )
}

/// The texts of a whole rendered region: the numbered body, wrapped in
/// horizontal rules when `rules` holds, with the top rule suppressed when
/// the region is the first rendered element of the block.
pub open spec fn region_texts(
    content: Seq<Seq<char>>,
    json_flavor: bool,
    rules: bool,
    first: bool,
    width: nat,
) -> Seq<Seq<char>> {
    let body = region_body_texts(content, json_flavor, width);
    if rules {
        (if first {
            Seq::<Seq<char>>::empty()
        } else {
            seq![rule_chars(width)]
        }) + body + seq![rule_chars(width)]
    } else {
        body
    }
}

/// A fenced region with no content lines renders as a single empty
/// content line rather than nothing.
pub open spec fn nonempty_content(c: Seq<Seq<char>>) -> Seq<Seq<char>> {
    if c.len() == 0 {
        seq![Seq::<char>::empty()]
    } else {
        c
    }
}

/// Whether a fence line's language tag resolves to the JSON key.
pub open spec fn fence_is_json(l: Seq<char>) -> bool {
    canon_key(fence_tag(l)) == json_key()
}

/// The index of the first fence line at or after `k`, if any.
pub open spec fn find_fence_close(ls: Seq<Seq<char>>, k: int) -> Option<int>
    decreases ls.len() - k,
{
    if k < 0 || k >= ls.len() {
        Option::None
    } else if is_fence_line(ls[k]) {
        Option::Some(k)
    } else {
        find_fence_close(ls, k + 1)
    }
}

/// A found fence close lies at or after `k`, within the lines.
pub proof fn lemma_find_fence_close_bounds(ls: Seq<Seq<char>>, k: int)
    ensures
        match find_fence_close(ls, k) {
            Option::Some(j) => k <= j < ls.len() && is_fence_line(ls[j]),
            Option::None => true,
        },
    decreases ls.len() - k,
{
    if k < 0 || k >= ls.len() {
    } else if is_fence_line(ls[k]) {
    } else {
        lemma_find_fence_close_bounds(ls, k + 1);
    }
}

/// The texts of the display lines the renderer emits for the input lines
/// `ls` from index `i` on, where `first` says that nothing has been
/// emitted yet. One step consumes a whole fenced or bare-JSON region, or a
/// single normal line.
pub open spec fn render_from(ls: Seq<Seq<char>>, i: int, first: bool, width: nat) -> Seq<Seq<char>>
    decreases ls.len() - i,
    via render_from_decreases
{
    if i < 0 || i >= ls.len() {
        Seq::empty()
    } else {
        let l = ls[i];
        if is_fence_line(l) {
            let jf = fence_is_json(l);
            match find_fence_close(ls, i + 1) {
                Option::Some(j) => region_texts(
                    nonempty_content(ls.subrange(i + 1, j)),
                    jf,
                    true,
                    first,
                    width,
                ) + render_from(ls, j + 1, false, width),
                Option::None => region_texts(
                    nonempty_content(ls.subrange(i + 1, ls.len() as int)),
                    jf,
                    true,
                    first,
                    width,
                ),
            }
        } else if starts_json(l) {
            region_texts(
                json_region_content(l[0], ls.subrange(i, ls.len() as int)),
                true,
                false,
                first,
                width,
            )
        } else {
            seq![pad_to(l, width)] + render_from(ls, i + 1, false, width)
        }
    }
}

#[via_fn]
proof fn render_from_decreases(ls: Seq<Seq<char>>, i: int, first: bool, width: nat) {
    if 0 <= i < ls.len() {
        lemma_find_fence_close_bounds(ls, i + 1);
    }
}

/// The texts of all display lines the renderer emits for one block's
/// content at one width: the whole pipeline, at text level.
pub open spec fn rendered_text(content: Seq<char>, width: nat) -> Seq<Seq<char>> {
    render_from(split_lines(content), 0, true, width)
}

/// What the library itself decides about one output line: a heading (one
/// bold run in the level's color), a horizontal rule, a numbered code line
/// (a white label before grammar-styled content), or a plain Markdown line
/// (grammar-styled content). Grammar-driven token runs stay open; the
/// shape pins everything else, including the padding run.
pub enum LineShape {
    Heading { line: Seq<char>, level: nat },
    Rule,
    Code { label: Seq<char>, content: Seq<char> },
    Plain { line: Seq<char> },
}

/// The shape of one normal-state line: a heading or a plain line.
pub open spec fn normal_shape(l: Seq<char>) -> LineShape {
    if is_heading(l) {
        LineShape::Heading { line: l, level: heading_level(l) }
    } else {
        LineShape::Plain { line: l }
    }
}

/// The shapes of a rendered code or JSON region, in output order.
pub open spec fn region_shapes(
    content: Seq<Seq<char>>,
    json_flavor: bool,
    rules: bool,
    first: bool,
) -> Seq<LineShape> {
    let numw = dec_digits(content.len()).len();
    let body = Seq::new(
        content.len(),
        |k: int| LineShape::Code {
            label: num_label((k + 1) as nat, numw) + sep_chars(json_flavor),
            content: content[k],
        },
    );
    if rules {
        (if first {
            Seq::<LineShape>::empty()
        } else {
            seq![LineShape::Rule]
        }) + body + seq![LineShape::Rule]
    } else {
        body
    }
}

/// The shapes of the display lines the renderer emits from index `i` on;
/// the same recursion as [`render_from`], one shape per output line.
pub open spec fn shapes_from(ls: Seq<Seq<char>>, i: int, first: bool) -> Seq<LineShape>
    decreases ls.len() - i,
    via shapes_from_decreases
{
    if i < 0 || i >= ls.len() {
        Seq::empty()
    } else {
        let l = ls[i];
        if is_fence_line(l) {
            let jf = fence_is_json(l);
            match find_fence_close(ls, i + 1) {
                Option::Some(j) => region_shapes(nonempty_content(ls.subrange(i + 1, j)), jf, true, first)
                    + shapes_from(ls, j + 1, false),
                Option::None => region_shapes(
                    nonempty_content(ls.subrange(i + 1, ls.len() as int)),
                    jf,
                    true,
                    first,
                ),
            }
        } else if starts_json(l) {
            region_shapes(json_region_content(l[0], ls.subrange(i, ls.len() as int)), true, false, first)
        } else {
            seq![normal_shape(l)] + shapes_from(ls, i + 1, false)
        }
    }
}

#[via_fn]
proof fn shapes_from_decreases(ls: Seq<Seq<char>>, i: int, first: bool) {
    if 0 <= i < ls.len() {
        lemma_find_fence_close_bounds(ls, i + 1);
    }
}

/// The shapes of all display lines the renderer emits for one block's
/// content.
pub open spec fn rendered_shapes(content: Seq<char>) -> Seq<LineShape> {
    shapes_from(split_lines(content), 0, true)
}

/// Whether one output line's runs carry the library-decided structure of
/// its shape. A heading line is exactly one run of the raw line in the
/// level's bold color, a rule line one white run of dashes, and a code
/// line opens with one white run holding the number label. Whenever the
/// line's unpadded text falls short of the target width, the line ends
/// with exactly one default-styled run of the missing spaces; a line at or
/// over the width gets no padding run.
pub open spec fn matches_shape(rs: Seq<StyledRun>, sh: LineShape, width: nat) -> bool {
    match sh {
        LineShape::Heading { line, level } => {
            if line.len() >= width {
                rs.len() == 1 && rs[0].text@ == line && rs[0].style == heading_style(level)
            } else {
                &&& rs.len() == 2
                &&& rs[0].text@ == line
                &&& rs[0].style == heading_style(level)
                &&& rs[1].style == spec_plain_style()
                &&& rs[1].text@ == spaces((width - line.len()) as nat)
            }
        },
        LineShape::Rule => rs.len() == 1 && rs[0].text@ == rule_chars(width) && rs[0].style
            == spec_fg_style(ColorKind::White),
        LineShape::Code { label, content } => {
            &&& rs.len() >= 1
            &&& rs[0].text@ == label
            &&& rs[0].style == spec_fg_style(ColorKind::White)
            &&& (label.len() + content.len() < width ==> rs.len() >= 2 && rs.last().style
                == spec_plain_style() && rs.last().text@ == spaces(
                (width - label.len() - content.len()) as nat,
            ))
        },
        LineShape::Plain { line } => line.len() < width ==> rs.len() >= 1 && rs.last().style
            == spec_plain_style() && rs.last().text@ == spaces((width - line.len()) as nat),
    }
}

/// A heading line opens no fence and no bare JSON region: it starts with
/// `'#'`, which is neither whitespace, a backtick, nor an opening
/// delimiter.
pub proof fn lemma_heading_not_special(l: Seq<char>)
    requires
        is_heading(l),
    ensures
        !is_fence_line(l),
        !starts_json(l),
{
    crate::classify::lemma_count_hashes_le(l);
    assert(l[0] == '#');
    assert(trim_start_spec(l) == l);
    assert(trim_start_spec(l)[0] != '`');
}

/// The texts of a sequence of display lines.
pub open spec fn lines_texts(s: Seq<DisplayLine>) -> Seq<Seq<char>> {
    crate::style::lines_texts(s)
}

/// A run holding exactly the given characters with the given style.
fn make_run(text: &Vec<char>, style: StyleAttributes) -> (r: StyledRun)
    ensures
        r.text@ == text@,
        r.style == style,
{
    StyledRun { text: string_of(text), style }
}

/// The fixed per-level heading color: red, green, yellow, blue, magenta,
/// cyan for levels one through six.
pub open spec fn heading_color(level: nat) -> ColorKind {
    if level == 1 {
        ColorKind::Red
    } else if level == 2 {
        ColorKind::Green
    } else if level == 3 {
        ColorKind::Yellow
    } else if level == 4 {
        ColorKind::Blue
    } else if level == 5 {
        ColorKind::Magenta
    } else {
        ColorKind::Cyan
    }
}

/// The style of a heading line: the level's color, bold.
pub open spec fn heading_style(level: nat) -> StyleAttributes {
    StyleAttributes {
        fg: heading_color(level),
        bg: ColorKind::Unset,
        bold: true,
        italic: false,
        underline: false,
    }
}

/// The style of a heading line of the given level.
fn heading_style_exec(level: usize) -> (s: StyleAttributes)
    ensures
        s == heading_style(level as nat),
{
    let fg = if level == 1 {
        ColorKind::Red
    } else if level == 2 {
        ColorKind::Green
    } else if level == 3 {
        ColorKind::Yellow
    } else if level == 4 {
        ColorKind::Blue
    } else if level == 5 {
        ColorKind::Magenta
    } else {
        ColorKind::Cyan
    };
    StyleAttributes { fg, bg: ColorKind::Unset, bold: true, italic: false, underline: false }
}

/// A display line made of the given runs, right-padded with a run of
/// default-styled spaces to the target width; content already at or over
/// the width is kept unpadded, never truncated.
fn pad_line(runs: Vec<StyledRun>, len: usize, width: usize) -> (dl: DisplayLine)
    requires
        runs_text(runs@).len() == len as nat,
    ensures
        line_text(dl) == pad_to(runs_text(runs@), width as nat),
        forall|k: int| 0 <= k < runs@.len() ==> dl.runs@[k] == runs@[k],
        len >= width ==> dl.runs@ == runs@,
        len < width ==> dl.runs@.len() == runs@.len() + 1 && dl.runs@.last().style
            == spec_plain_style() && dl.runs@.last().text@ == spaces((width - len) as nat),
{
    let ghost given = runs@;
    if len < width {
        let pad = repeat_char(' ', width - len);
        proof {
            assert(pad@ =~= spaces((width - len) as nat));
        }
        let mut rs = runs;
        rs.push(make_run(&pad, StyleAttributes::plain()));
        proof {
            lemma_runs_text_push(given, rs@.last());
            assert(rs@.drop_last() =~= given);
            assert(runs_text(rs@) =~= runs_text(given) + spaces((width - len) as nat));
            assert(runs_text(rs@) =~= pad_to(runs_text(given), width as nat));
        }
        DisplayLine { runs: rs }
    } else {
        DisplayLine { runs }
    }
}

/// The horizontal rule line: a single white run of box-drawing dashes
/// spanning the target width.
fn rule_display_line(width: usize) -> (dl: DisplayLine)
    ensures
        line_text(dl) == rule_chars(width as nat),
        dl.runs@.len() == 1,
        dl.runs@[0].style == spec_fg_style(ColorKind::White),
        dl.runs@[0].text@ == rule_chars(width as nat),
{
    let dash = repeat_char('─', width);
    proof {
        assert(dash@ =~= rule_chars(width as nat));
    }
    let mut rs: Vec<StyledRun> = Vec::new();
    rs.push(make_run(&dash, StyleAttributes::with_fg(ColorKind::White)));
    proof {
        assert(rs@.drop_first() =~= Seq::<StyledRun>::empty());
        assert(runs_text(Seq::<StyledRun>::empty()) == Seq::<char>::empty());
        assert(runs_text(rs@) =~= rule_chars(width as nat));
    }
    DisplayLine { runs: rs }
}

/// A heading display line: the entire raw line as one run in the level's
/// bold color — heading lines are never token-highlighted — padded to the
/// target width.
fn heading_display_line(l: &Vec<char>, level: usize, width: usize) -> (dl: DisplayLine)
    ensures
        line_text(dl) == pad_to(l@, width as nat),
        dl.runs@.len() >= 1,
        dl.runs@[0].text@ == l@,
        dl.runs@[0].style == heading_style(level as nat),
        matches_shape(
            dl.runs@,
            LineShape::Heading { line: l@, level: level as nat },
            width as nat,
        ),
{
    let mut rs: Vec<StyledRun> = Vec::new();
    rs.push(make_run(l, heading_style_exec(level)));
    proof {
        assert(rs@.drop_first() =~= Seq::<StyledRun>::empty());
        assert(runs_text(Seq::<StyledRun>::empty()) == Seq::<char>::empty());
        assert(runs_text(rs@) =~= l@);
    }
    let dl = pad_line(rs, l.len(), width);
    proof {
        assert(dl.runs@[0] == rs@[0]);
        if l@.len() < width as nat {
            assert(dl.runs@.len() == 2);
            assert(dl.runs@.last() == dl.runs@[1]);
        }
    }
    dl
}

/// The line-number label for 1-based line `i`, right-aligned to `w`.
fn num_label_exec(i: usize, w: usize) -> (r: Vec<char>)
    ensures
        r@ == num_label(i as nat, w as nat),
{
    let d = to_decimal(i);
    if d.len() >= w {
        d
    } else {
        let mut r = repeat_char(' ', w - d.len());
        let mut dd = d;
        proof {
            assert(r@ =~= spaces((w - dd@.len()) as nat));
        }
        r.append(&mut dd);
        proof {
            assert(r@ =~= num_label(i as nat, w as nat));
        }
        r
    }
}

/// The separator between line number and content.
fn sep_exec(json_flavor: bool) -> (r: Vec<char>)
    ensures
        r@ == sep_chars(json_flavor),
{
    let mut r: Vec<char> = Vec::new();
    r.push(' ');
    if !json_flavor {
        r.push('│');
        r.push(' ');
    }
    proof {
        assert(r@ =~= sep_chars(json_flavor));
    }
    r
}

/// Render one code or JSON region: highlight each content line in a fresh
/// session keyed by the (already canonical) syntax key, prefix each line
/// with a right-aligned line number and separator, pad to the target
/// width, and wrap the region in horizontal rules when `rules` holds. With
/// no grammar for the key, lines come back as single plain runs.
pub(crate) fn render_code_region(
    set: &syntect::parsing::SyntaxSet,
    theme: &syntect::highlighting::Theme,
    key: &Vec<char>,
    content: &Vec<Vec<char>>,
    width: usize,
    rules: bool,
    first: bool,
) -> (r: Result<Vec<DisplayLine>, HighlightError>)
    requires
        content@.len() > 0,
    ensures
        r matches Ok(v) ==> lines_texts(v@) == region_texts(
            content.deep_view(),
            key@ == json_key(),
            rules,
            first,
            width as nat,
        ),
        r matches Ok(v) ==> v@.len() == region_shapes(
            content.deep_view(),
            key@ == json_key(),
            rules,
            first,
        ).len() && (forall|j: int|
            0 <= j < v@.len() ==> matches_shape(
                (#[trigger] v@[j]).runs@,
                region_shapes(content.deep_view(), key@ == json_key(), rules, first)[j],
                width as nat,
            )),
        r matches Err(e) ==> exists|k: int|
            0 <= k < content.deep_view().len() && e.line@ == #[trigger] content.deep_view()[k],
{
    let ghost cv = content.deep_view();
    let ghost jf_spec = (key@ == json_key());
    let ghost shp = region_shapes(content.deep_view(), key@ == json_key(), rules, first);
    let json_chars = chars_of("json");
    proof {
        reveal_strlit("json");
        assert("json"@ =~= json_key());
    }
    let jf = chars_eq(key, &json_chars);
    let key_str = string_of(key);
    let syntax = find_syntax_token(set, key_str.as_str());
    let mut sess = HighlightSession::start(set, syntax, theme);
    let numwv = to_decimal(content.len());
    let numw = numwv.len();
    proof {
        assert(cv.len() == content@.len());
    }
    let mut out: Vec<DisplayLine> = Vec::new();
    let ghost header: Seq<Seq<char>> = if rules && !first {
        seq![rule_chars(width as nat)]
    } else {
        Seq::<Seq<char>>::empty()
    };
    if rules && !first {
        out.push(rule_display_line(width));
    }
    let ghost body = region_body_texts(cv, jf_spec, width as nat);
    let ghost hdr_len: int = if rules && !first { 1int } else { 0int };
    let mut k: usize = 0;
    proof {
        assert(lines_texts(out@) =~~= header);
        assert(body.subrange(0, 0) =~~= Seq::<Seq<char>>::empty());
        assert(lines_texts(out@) =~~= header + body.subrange(0, 0));
        if rules && !first {
            assert(shp[0] == LineShape::Rule);
        }
    }
    while k < content.len()
        invariant
            k <= cv.len(),
            cv == content.deep_view(),
            cv.len() == content@.len(),
            cv.len() > 0,
            jf == jf_spec,
            numw as nat == dec_digits(cv.len()).len(),
            body == region_body_texts(cv, jf_spec, width as nat),
            lines_texts(out@) == header + body.subrange(0, k as int),
            shp == region_shapes(cv, jf_spec, rules, first),
            hdr_len == if rules && !first { 1int } else { 0int },
            out@.len() == hdr_len + k,
            forall|j: int|
                0 <= j < out@.len() ==> matches_shape(
                    (#[trigger] out@[j]).runs@,
                    shp[j],
                    width as nat,
                ),
        decreases cv.len() - k,
    {
        let line = &content[k];
        proof {
            assert(cv[k as int] == line@);
        }
        let hl = sess.highlight_line_runs(line);
        match hl {
            Result::Err(e) => {
                proof {
                    assert(e.line@ == cv[k as int]);
                }
                return Result::Err(e);
            },
            Result::Ok(runs_line) => {
                let mut label = num_label_exec(k + 1, numw);
                let mut sepv = sep_exec(jf);
                let ghost label0 = label@;
                label.append(&mut sepv);
                proof {
                    assert(label@ =~= num_label((k + 1) as nat, numw as nat) + sep_chars(jf_spec));
                }
                let mut line_runs: Vec<StyledRun> = Vec::new();
                line_runs.push(make_run(&label, StyleAttributes::with_fg(ColorKind::White)));
                let ghost pref = line_runs@;
                let mut rr = runs_line;
                let ghost rrv = rr@;
                line_runs.append(&mut rr);
                proof {
                    assert(line_runs@ =~= pref + rrv);
                    lemma_runs_text_concat(pref, rrv);
                    assert(pref.drop_first() =~= Seq::<StyledRun>::empty());
                    assert(runs_text(Seq::<StyledRun>::empty()) == Seq::<char>::empty());
                    assert(runs_text(pref) =~= label@);
                    assert(runs_text(line_runs@) =~= label@ + cv[k as int]);
                }
                let total = label.len().checked_add(line.len());
                let dl = match total {
                    Option::Some(t) => pad_line(line_runs, t, width),
                    Option::None => {
                        proof {
                            assert(runs_text(line_runs@).len() > usize::MAX);
                            assert(runs_text(line_runs@).len() >= width as nat);
                        }
                        DisplayLine { runs: line_runs }
                    },
                };
                proof {
                    assert(line_text(dl) == pad_to(runs_text(line_runs@), width as nat));
                    assert(num_label((k + 1) as nat, numw as nat) + sep_chars(jf_spec) + cv[k as int]
                        =~= label@ + cv[k as int]);
                    assert(line_text(dl) == body[k as int]);
                }
                proof {
                    assert(shp[hdr_len + k as int] == LineShape::Code {
                        label: num_label((k + 1) as nat, numw as nat) + sep_chars(jf_spec),
                        content: cv[k as int],
                    });
                    assert(dl.runs@[0] == line_runs@[0]);
                    assert(dl.runs@[0].text@ == num_label((k + 1) as nat, numw as nat)
                        + sep_chars(jf_spec));
                    if label@.len() + cv[k as int].len() < width as nat {
                        assert(dl.runs@.len() >= 2);
                        assert(dl.runs@.last().style == spec_plain_style());
                        assert(dl.runs@.last().text@ == spaces(
                            (width as nat - label@.len() - cv[k as int].len()) as nat,
                        ));
                    }
                    assert(matches_shape(dl.runs@, shp[hdr_len + k as int], width as nat));
                }
                let ghost prev_texts = lines_texts(out@);
                out.push(dl);
                proof {
                    assert(lines_texts(out@) =~~= prev_texts.push(line_text(dl)));
                    assert(header + body.subrange(0, k as int + 1) =~~= (header + body.subrange(
                        0,
                        k as int,
                    )).push(body[k as int]));
                }
                k += 1;
            },
        }
    }
    proof {
        assert(body.subrange(0, cv.len() as int) =~~= body);
    }
    if rules {
        let dl = rule_display_line(width);
        proof {
            assert(shp[hdr_len + cv.len() as int] == LineShape::Rule);
            assert(matches_shape(dl.runs@, shp[hdr_len + cv.len() as int], width as nat));
        }
        let ghost prev_texts = lines_texts(out@);
        out.push(dl);
        proof {
            assert(lines_texts(out@) =~~= prev_texts.push(rule_chars(width as nat)));
            assert(region_texts(cv, jf_spec, rules, first, width as nat) =~~= (header + body).push(
                rule_chars(width as nat),
            ));
            assert(out@.len() == shp.len());
        }
    } else {
        proof {
            assert(region_texts(cv, jf_spec, rules, first, width as nat) =~~= header + body);
            assert(out@.len() == shp.len());
        }
    }
    Result::Ok(out)
}

/// The index of the first fence line at or after `k`.
pub(crate) fn find_fence_close_exec(ls: &Vec<Vec<char>>, k: usize) -> (r: Option<usize>)
    ensures
        match r {
            Option::Some(j) => k <= j < ls@.len() && find_fence_close(ls.deep_view(), k as int)
                == Option::Some(j as int),
            Option::None => find_fence_close(ls.deep_view(), k as int) is None,
        },
    decreases ls@.len() - k,
{
    if k >= ls.len() {
        Option::None
    } else {
        proof {
            assert(ls.deep_view()[k as int] == ls@[k as int]@);
        }
        if is_fence_line_exec(&ls[k]) {
            Option::Some(k)
        } else {
            find_fence_close_exec(ls, k + 1)
        }
    }
}

/// A copy of the lines of `ls` between `a` (inclusive) and `b` (exclusive).
fn copy_lines(ls: &Vec<Vec<char>>, a: usize, b: usize) -> (r: Vec<Vec<char>>)
    requires
        a <= b <= ls@.len(),
    ensures
        r.deep_view() == ls.deep_view().subrange(a as int, b as int),
{
    let mut r: Vec<Vec<char>> = Vec::new();
    let mut m: usize = a;
    proof {
        assert(r.deep_view() =~~= ls.deep_view().subrange(a as int, a as int));
    }
    while m < b
        invariant
            a <= m <= b <= ls@.len(),
            ls@.len() == ls.deep_view().len(),
            r.deep_view() == ls.deep_view().subrange(a as int, m as int),
        decreases b - m,
    {
        let line = &ls[m];
        let c = copy_range(line, 0, line.len());
        proof {
            assert(ls.deep_view()[m as int] == ls@[m as int]@);
            assert(c@ =~= ls.deep_view()[m as int]);
        }
        let ghost prev = r.deep_view();
        let ghost cv = c@;
        r.push(c);
        m += 1;
        proof {
            assert(r.deep_view() =~~= prev.push(cv));
            assert(r.deep_view() =~~= ls.deep_view().subrange(a as int, m as int));
        }
    }
    r
}

/// Render a block's lines: classify each line, emit fenced and bare-JSON
/// regions through the region renderer, and emit headings and plain
/// Markdown lines padded to the target width. A fresh Markdown
/// highlighting session is started at the beginning and after each region.
#[verifier::rlimit(100)]
fn render_lines(
    set: &syntect::parsing::SyntaxSet,
    theme: &syntect::highlighting::Theme,
    md_syntax: Option<&syntect::parsing::SyntaxReference>,
    ls: &Vec<Vec<char>>,
    width: usize,
) -> (r: Result<Vec<DisplayLine>, HighlightError>)
    ensures
        r matches Ok(v) ==> lines_texts(v@) == render_from(ls.deep_view(), 0, true, width as nat),
        r matches Ok(v) ==> v@.len() == shapes_from(ls.deep_view(), 0, true).len() && (forall|
            j: int,
        |
            0 <= j < v@.len() ==> matches_shape(
                (#[trigger] v@[j]).runs@,
                shapes_from(ls.deep_view(), 0, true)[j],
                width as nat,
            )),
        (forall|k: int|
            0 <= k < ls.deep_view().len() ==> is_heading(#[trigger] ls.deep_view()[k])) ==> r
            is Ok,
        r matches Err(e) ==> ((exists|k: int|
            0 <= k < ls.deep_view().len() && e.line@ == #[trigger] ls.deep_view()[k]) || e.line@
            == Seq::<char>::empty() || e.line@ == seq!['}'] || e.line@ == seq![']']),
{
    let ghost lsv = ls.deep_view();
    let ghost w = width as nat;
    let mut out: Vec<DisplayLine> = Vec::new();
    let mut sess = HighlightSession::start(set, md_syntax, theme);
    let mut i: usize = 0;
    let ghost mut done_shapes: Seq<LineShape> = Seq::empty();
    proof {
        assert(lines_texts(out@) =~~= Seq::<Seq<char>>::empty());
        assert(render_from(lsv, 0, true, w) =~~= lines_texts(out@) + render_from(
            lsv,
            0,
            out@.len() == 0,
            w,
        ));
        assert(shapes_from(lsv, 0, true) =~~= done_shapes + shapes_from(lsv, 0, out@.len() == 0));
    }
    while i < ls.len()
        invariant
            i <= lsv.len(),
            lsv == ls.deep_view(),
            lsv.len() == ls@.len(),
            w == width as nat,
            render_from(lsv, 0, true, w) == lines_texts(out@) + render_from(
                lsv,
                i as int,
                out@.len() == 0,
                w,
            ),
            shapes_from(lsv, 0, true) == done_shapes + shapes_from(lsv, i as int, out@.len() == 0),
            done_shapes.len() == out@.len(),
            forall|j: int|
                0 <= j < out@.len() ==> matches_shape(
                    (#[trigger] out@[j]).runs@,
                    done_shapes[j],
                    w,
                ),
        decreases lsv.len() - i,
    {
        let line = &ls[i];
        let ghost first = out@.len() == 0;
        proof {
            assert(lsv[i as int] == line@);
        }
        if is_fence_line_exec(line) {
            let tag = fence_tag_exec(line);
            let ckey = resolve_chars(&tag);
            let close = find_fence_close_exec(ls, i + 1);
            let (content_raw, next_i): (Vec<Vec<char>>, usize) = match close {
                Option::Some(j) => (copy_lines(ls, i + 1, j), j + 1),
                Option::None => (copy_lines(ls, i + 1, ls.len()), ls.len()),
            };
            let ghost bound: int = if close is Some {
                close->Some_0 as int
            } else {
                lsv.len() as int
            };
            proof {
                assert(content_raw.deep_view() =~~= lsv.subrange(i as int + 1, bound));
            }
            let content = if content_raw.len() == 0 {
                let mut c: Vec<Vec<char>> = Vec::new();
                c.push(Vec::<char>::new());
                proof {
                    assert(c.deep_view() =~~= seq![Seq::<char>::empty()]);
                    assert(c.deep_view() =~~= nonempty_content(lsv.subrange(i as int + 1, bound)));
                }
                c
            } else {
                proof {
                    assert(content_raw.deep_view() =~~= nonempty_content(
                        lsv.subrange(i as int + 1, bound),
                    ));
                }
                content_raw
            };
            let is_first = out.len() == 0;
            let region = render_code_region(set, theme, &ckey, &content, width, true, is_first);
            match region {
                Result::Ok(mut v) => {
                    let ghost prev = lines_texts(out@);
                    let ghost prev_out = out@;
                    let ghost regtexts = lines_texts(v@);
                    let ghost regv = v@;
                    let ghost regshapes = region_shapes(
                        nonempty_content(lsv.subrange(i as int + 1, bound)),
                        fence_is_json(lsv[i as int]),
                        true,
                        first,
                    );
                    proof {
                        assert((ckey@ == json_key()) == fence_is_json(lsv[i as int]));
                        assert(regtexts == region_texts(
                            nonempty_content(lsv.subrange(i as int + 1, bound)),
                            fence_is_json(lsv[i as int]),
                            true,
                            first,
                            w,
                        ));
                        assert(regtexts.len() > 0);
                        assert(regv.len() == regshapes.len());
                        assert(forall|j: int|
                            0 <= j < regv.len() ==> matches_shape(
                                (#[trigger] regv[j]).runs@,
                                regshapes[j],
                                w,
                            ));
                    }
                    out.append(&mut v);
                    proof {
                        assert(lines_texts(out@) =~~= prev + regtexts);
                        assert(out@ =~~= prev_out + regv);
                        if close is Some {
                            assert(render_from(lsv, i as int, first, w) == regtexts + render_from(
                                lsv,
                                next_i as int,
                                false,
                                w,
                            ));
                            assert(shapes_from(lsv, i as int, first) == regshapes + shapes_from(
                                lsv,
                                next_i as int,
                                false,
                            ));
                        } else {
                            assert(render_from(lsv, i as int, first, w) == regtexts);
                            assert(render_from(lsv, next_i as int, false, w) =~~= Seq::<
                                Seq<char>,
                            >::empty());
                            assert(shapes_from(lsv, i as int, first) == regshapes);
                            assert(shapes_from(lsv, next_i as int, false) =~~= Seq::<
                                LineShape,
                            >::empty());
                        }
                        assert(out@.len() > 0);
                        assert(render_from(lsv, 0, true, w) =~~= lines_texts(out@) + render_from(
                            lsv,
                            next_i as int,
                            out@.len() == 0,
                            w,
                        ));
                        done_shapes = done_shapes + regshapes;
                        assert(shapes_from(lsv, 0, true) =~~= done_shapes + shapes_from(
                            lsv,
                            next_i as int,
                            out@.len() == 0,
                        ));
                        assert forall|j: int| 0 <= j < out@.len() implies matches_shape(
                            (#[trigger] out@[j]).runs@,
                            done_shapes[j],
                            w,
                        ) by {
                            if j < prev_out.len() {
                                assert(out@[j] == prev_out[j]);
                                assert(matches_shape(prev_out[j].runs@, done_shapes[j], w));
                            } else {
                                assert(out@[j] == regv[j - prev_out.len()]);
                                assert(done_shapes[j] == regshapes[j - prev_out.len()]);
                            }
                        }
                    }
                    sess = HighlightSession::start(set, md_syntax, theme);
                    i = next_i;
                },
                Result::Err(e) => {
                    proof {
                        let cvr = content.deep_view();
                        let kk = choose|kk: int| 0 <= kk < cvr.len() && e.line@ == cvr[kk];
                        if lsv.subrange(i as int + 1, bound).len() == 0 {
                            assert(cvr[kk] == Seq::<char>::empty());
                        } else {
                            assert(cvr[kk] == lsv[i as int + 1 + kk]);
                        }
                        if forall|m: int| 0 <= m < lsv.len() ==> is_heading(#[trigger] lsv[m]) {
                            assert(is_heading(lsv[i as int]));
                            lemma_heading_not_special(lsv[i as int]);
                            assert(false);
                        }
                    }
                    return Result::Err(e);
                },
            }
        } else if line.len() > 0 && (line[0] == '{' || line[0] == '[') {
            let open = line[0];
            let ghost region_ls = lsv.subrange(i as int, lsv.len() as int);
            let mut content = copy_lines(ls, i, ls.len());
            proof {
                assert(content.deep_view() =~~= region_ls);
                assert(content@.len() > 0);
            }
            let complete = json_complete_exec(open, &content);
            if !complete {
                let mut closer: Vec<char> = Vec::new();
                closer.push(close_delim_exec(open));
                proof {
                    assert(closer@ =~= seq![close_delim(open)]);
                }
                let ghost before = content.deep_view();
                content.push(closer);
                proof {
                    assert(content.deep_view() =~~= before.push(seq![close_delim(open)]));
                    assert(content.deep_view() =~~= json_region_content(open, region_ls));
                }
            } else {
                proof {
                    assert(content.deep_view() =~~= json_region_content(open, region_ls));
                }
            }
            let jkey = chars_of("json");
            proof {
                reveal_strlit("json");
                assert(jkey@ =~= json_key());
            }
            let is_first = out.len() == 0;
            let region = render_code_region(set, theme, &jkey, &content, width, false, is_first);
            match region {
                Result::Ok(mut v) => {
                    let ghost prev = lines_texts(out@);
                    let ghost prev_out = out@;
                    let ghost regtexts = lines_texts(v@);
                    let ghost regv = v@;
                    let ghost regshapes = region_shapes(
                        json_region_content(open, region_ls),
                        true,
                        false,
                        first,
                    );
                    proof {
                        assert(starts_json(lsv[i as int]));
                        assert(lsv[i as int][0] == open);
                        assert(regtexts == region_texts(
                            json_region_content(open, region_ls),
                            true,
                            false,
                            first,
                            w,
                        ));
                        assert(regtexts.len() > 0);
                        assert(regv.len() == regshapes.len());
                        assert(forall|j: int|
                            0 <= j < regv.len() ==> matches_shape(
                                (#[trigger] regv[j]).runs@,
                                regshapes[j],
                                w,
                            ));
                    }
                    out.append(&mut v);
                    proof {
                        assert(lines_texts(out@) =~~= prev + regtexts);
                        assert(out@ =~~= prev_out + regv);
                        assert(render_from(lsv, i as int, first, w) == regtexts);
                        assert(render_from(lsv, lsv.len() as int, out@.len() == 0, w) =~~= Seq::<
                            Seq<char>,
                        >::empty());
                        assert(render_from(lsv, 0, true, w) =~~= lines_texts(out@) + render_from(
                            lsv,
                            lsv.len() as int,
                            out@.len() == 0,
                            w,
                        ));
                        assert(shapes_from(lsv, i as int, first) == regshapes);
                        done_shapes = done_shapes + regshapes;
                        assert(shapes_from(lsv, lsv.len() as int, out@.len() == 0) =~~= Seq::<
                            LineShape,
                        >::empty());
                        assert(shapes_from(lsv, 0, true) =~~= done_shapes + shapes_from(
                            lsv,
                            lsv.len() as int,
                            out@.len() == 0,
                        ));
                        assert forall|j: int| 0 <= j < out@.len() implies matches_shape(
                            (#[trigger] out@[j]).runs@,
                            done_shapes[j],
                            w,
                        ) by {
                            if j < prev_out.len() {
                                assert(out@[j] == prev_out[j]);
                                assert(matches_shape(prev_out[j].runs@, done_shapes[j], w));
                            } else {
                                assert(out@[j] == regv[j - prev_out.len()]);
                                assert(done_shapes[j] == regshapes[j - prev_out.len()]);
                            }
                        }
                    }
                    i = ls.len();
                },
                Result::Err(e) => {
                    proof {
                        let cvr = content.deep_view();
                        let kk = choose|kk: int| 0 <= kk < cvr.len() && e.line@ == cvr[kk];
                        if kk < region_ls.len() {
                            assert(cvr[kk] == lsv[i as int + kk]);
                        } else {
                            assert(cvr[kk] == seq![close_delim(open)]);
                            if open == '{' {
                                assert(e.line@ == seq!['}']);
                            } else {
                                assert(e.line@ == seq![']']);
                            }
                        }
                        if forall|m: int| 0 <= m < lsv.len() ==> is_heading(#[trigger] lsv[m]) {
                            assert(is_heading(lsv[i as int]));
                            lemma_heading_not_special(lsv[i as int]);
                            assert(false);
                        }
                    }
                    return Result::Err(e);
                },
            }
        } else {
            let level = heading_level_exec(line);
            let dl: DisplayLine;
            if level > 0 {
                dl = heading_display_line(line, level, width);
                proof {
                    assert(is_heading(lsv[i as int]));
                    assert(level as nat == heading_level(lsv[i as int]));
                    assert(normal_shape(lsv[i as int]) == LineShape::Heading {
                        line: lsv[i as int],
                        level: level as nat,
                    });
                    assert(matches_shape(dl.runs@, normal_shape(lsv[i as int]), w));
                }
            } else {
                let hl = sess.highlight_line_runs(line);
                match hl {
                    Result::Ok(runs) => {
                        proof {
                            assert(runs_text(runs@).len() == line@.len());
                        }
                        let ghost runsv = runs@;
                        dl = pad_line(runs, line.len(), width);
                        proof {
                            assert(!is_heading(lsv[i as int]));
                            assert(normal_shape(lsv[i as int]) == LineShape::Plain {
                                line: lsv[i as int],
                            });
                            if lsv[i as int].len() < w {
                                assert(dl.runs@.len() == runsv.len() + 1);
                                assert(dl.runs@.last().style == spec_plain_style());
                                assert(dl.runs@.last().text@ == spaces(
                                    (w - lsv[i as int].len()) as nat,
                                ));
                            }
                            assert(matches_shape(dl.runs@, normal_shape(lsv[i as int]), w));
                        }
                    },
                    Result::Err(e) => {
                        proof {
                            assert(e.line@ == lsv[i as int]);
                            if forall|m: int| 0 <= m < lsv.len() ==> is_heading(
                                #[trigger] lsv[m],
                            ) {
                                assert(is_heading(lsv[i as int]));
                                assert(heading_level(lsv[i as int]) >= 1);
                                assert(false);
                            }
                        }
                        return Result::Err(e);
                    },
                }
            }
            proof {
                assert(line_text(dl) == pad_to(lsv[i as int], w));
            }
            let ghost prev = lines_texts(out@);
            let ghost prev_out = out@;
            out.push(dl);
            proof {
                assert(!is_fence_line(lsv[i as int]));
                assert(!starts_json(lsv[i as int]));
                assert(lines_texts(out@) =~~= prev.push(pad_to(lsv[i as int], w)));
                assert(render_from(lsv, i as int, first, w) == seq![pad_to(lsv[i as int], w)]
                    + render_from(lsv, i as int + 1, false, w));
                assert(out@.len() > 0);
                assert(render_from(lsv, 0, true, w) =~~= lines_texts(out@) + render_from(
                    lsv,
                    i as int + 1,
                    false,
                    w,
                ));
                assert(shapes_from(lsv, i as int, first) == seq![normal_shape(lsv[i as int])]
                    + shapes_from(lsv, i as int + 1, false));
                done_shapes = done_shapes.push(normal_shape(lsv[i as int]));
                assert(shapes_from(lsv, 0, true) =~~= done_shapes + shapes_from(
                    lsv,
                    i as int + 1,
                    false,
                ));
                assert forall|j: int| 0 <= j < out@.len() implies matches_shape(
                    (#[trigger] out@[j]).runs@,
                    done_shapes[j],
                    w,
                ) by {
                    if j < prev_out.len() {
                        assert(out@[j] == prev_out[j]);
                        assert(matches_shape(prev_out[j].runs@, done_shapes[j], w));
                    } else {
                        assert(out@[j] == dl);
                        assert(done_shapes[j] == normal_shape(lsv[i as int]));
                    }
                }
            }
            i += 1;
        }
    }
    proof {
        assert(render_from(lsv, lsv.len() as int, out@.len() == 0, w) =~~= Seq::<Seq<char>>::empty());
        assert(lines_texts(out@) =~~= render_from(lsv, 0, true, w));
        assert(shapes_from(lsv, lsv.len() as int, out@.len() == 0) =~~= Seq::<LineShape>::empty());
        assert(shapes_from(lsv, 0, true) =~~= done_shapes);
    }
    Result::Ok(out)
}

/// The Markdown renderer: owns the grammar and theme databases, the theme
/// selector, and the render cache keyed by block title.
pub struct MarkdownRenderer {
    syntax_set: syntect::parsing::SyntaxSet,
    theme_set: syntect::highlighting::ThemeSet,
    theme: String,
    cache: RenderCache,
}

impl MarkdownRenderer {
    /// Well-formedness: the cache keys are unique.
    pub closed spec fn wf(self) -> bool {
        self.cache.wf()
    }

    /// What the cache holds for a title: the width it was rendered at and
    /// the rendered block.
    pub closed spec fn cached(self, title: Seq<char>) -> Option<(usize, RenderedBlock)> {
        self.cache.entry_for(title)
    }

    /// The name of the selected theme.
    pub closed spec fn theme_name(self) -> Seq<char> {
        self.theme@
    }

    /// The cache hit for a title at a width: the stored block when the
    /// title is cached at exactly that width.
    pub open spec fn spec_hit(self, title: Seq<char>, width: usize) -> Option<RenderedBlock> {
        match self.cached(title) {
            Option::Some((w, b)) => if w == width {
                Option::Some(b)
            } else {
                Option::None
            },
            Option::None => Option::None,
        }
    }

    /// A renderer with the bundled grammars and themes, the default theme
    /// selector, and an empty cache.
    pub fn new() -> (r: MarkdownRenderer)
        ensures
            r.wf(),
            forall|t: Seq<char>| r.cached(t) is None,
            r.theme_name() == "base16-mocha.dark"@,
    {
        MarkdownRenderer {
            syntax_set: load_syntax_set(),
            theme_set: load_theme_set(),
            theme: String::from_str("base16-mocha.dark"),
            cache: RenderCache::new(),
        }
    }

    /// Drop the cache entry of a title. The editing side must call this
    /// whenever the block's content changes; the cache itself never
    /// inspects content.
    pub fn invalidate(&mut self, title: &String)
        requires
            old(self).wf(),
        ensures
            final (self).wf(),
            final (self).theme_name() == old(self).theme_name(),
            final (self).cached(title@) is None,
            forall|t: Seq<char>|
                t != title@ ==> final (self).cached(t) == old(self).cached(t),
    {
        self.cache.invalidate(title);
    }

    /// Render a block's content at a width, memoized by title.
    ///
    /// On a hit (same title, same width, not invalidated) the stored block
    /// comes back unchanged, without re-invoking the highlighter, and the
    /// renderer's state does not change. On a miss the block is rendered:
    /// the texts of the output lines are exactly the spec-level
    /// [`rendered_text`] of the content, every output line carries the
    /// library-decided run structure of its [`rendered_shapes`] shape
    /// (heading runs bold in the level's color, white rules and number
    /// labels, default-styled padding), and the result is stored under the
    /// title, replacing whatever the title held. Highlighting failure is
    /// the only error: it carries a line that was handed to the engine,
    /// leaves the renderer unchanged, and cannot occur at all for content
    /// the engine never sees — content whose every line is a heading,
    /// including empty content.
    pub fn render_markdown(&mut self, markdown: String, title: String, width: usize) -> (r: Result<
        RenderedBlock,
        HighlightError,
    >)
        requires
            old(self).wf(),
        ensures
            final (self).wf(),
            final (self).theme_name() == old(self).theme_name(),
            match old(self).spec_hit(title@, width) {
                Option::Some(b) => {
                    &&& r matches Ok(rb) && block_runs(rb) == block_runs(b)
                    &&& *final (self) == *old(self)
                },
                Option::None => match r {
                    Result::Ok(b) => {
                        &&& block_texts(b) == rendered_text(markdown@, width as nat)
                        &&& block_runs(b).len() == rendered_shapes(markdown@).len()
                        &&& (forall|j: int|
                            0 <= j < block_runs(b).len() ==> matches_shape(
                                #[trigger] block_runs(b)[j],
                                rendered_shapes(markdown@)[j],
                                width as nat,
                            ))
                        &&& match final (self).cached(title@) {
                            Option::Some((w, sb)) => w == width && block_runs(sb) == block_runs(b),
                            Option::None => false,
                        }
                        &&& forall|t: Seq<char>|
                            t != title@ ==> final (self).cached(t) == old(self).cached(t)
                    },
                    Result::Err(_) => *final (self) == *old(self),
                },
            },
            (forall|k: int|
                0 <= k < split_lines(markdown@).len() ==> is_heading(
                    #[trigger] split_lines(markdown@)[k],
                )) ==> r is Ok,
            r matches Err(e) ==> ((exists|k: int|
                0 <= k < split_lines(markdown@).len() && e.line@ == #[trigger] split_lines(
                    markdown@,
                )[k]) || e.line@ == Seq::<char>::empty() || e.line@ == seq!['}'] || e.line@ == seq![
                ']',
            ]),
    {
        let hit = self.cache.lookup(&title, width);
        match hit {
            Option::Some(stored) => {
                let rb = clone_block(stored);
                return Result::Ok(rb);
            },
            Option::None => {},
        }
        let cs = chars_of(markdown.as_str());
        let lines = split_lines_exec(&cs);
        let fallback = default_theme();
        let theme = match theme_lookup(&self.theme_set, self.theme.as_str()) {
            Option::Some(t) => t,
            Option::None => &fallback,
        };
        let md_syntax = find_syntax_token(&self.syntax_set, "md");
        let rendered = render_lines(&self.syntax_set, theme, md_syntax, &lines, width);
        match rendered {
            Result::Ok(dls) => {
                let block = RenderedBlock { lines: dls };
                let copy = clone_block(&block);
                proof {
                    assert(block_texts(block) == lines_texts(block.lines@));
                    assert(lines.deep_view() == split_lines(markdown@));
                    assert(block_texts(block) == rendered_text(markdown@, width as nat));
                    assert(block_runs(block) == lines_runs(block.lines@));
                    assert(block_runs(block).len() == rendered_shapes(markdown@).len());
                    assert forall|j: int| 0 <= j < block_runs(block).len() implies matches_shape(
                        #[trigger] block_runs(block)[j],
                        rendered_shapes(markdown@)[j],
                        width as nat,
                    ) by {
                        assert(block_runs(block)[j] == block.lines@[j].runs@);
                    }
                }
                self.cache.store(title, width, copy);
                Result::Ok(block)
            },
            Result::Err(e) => Result::Err(e),
        }
    }
}

impl Default for MarkdownRenderer {
    /// The same renderer as [`MarkdownRenderer::new`].
    fn default() -> (r: MarkdownRenderer)
        ensures
            r.wf(),
            forall|t: Seq<char>| r.cached(t) is None,
            r.theme_name() == "base16-mocha.dark"@,
    {
        MarkdownRenderer::new()
    }
}

} // verus!
