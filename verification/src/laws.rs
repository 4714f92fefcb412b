//! Laws of the rendering pipeline, stated and proved over the spec-level
//! model that the executable renderer is verified against.

use vstd::prelude::*;
use crate::classify::close_delim;
use crate::classify::is_fence_line;
use crate::classify::json_complete;
use crate::classify::json_region_content;
use crate::classify::starts_json;
use crate::renderer::MarkdownRenderer;
use crate::renderer::fence_is_json;
use crate::renderer::find_fence_close;
use crate::renderer::nonempty_content;
use crate::renderer::region_texts;
use crate::renderer::render_from;
use crate::renderer::rendered_text;
use crate::style::RenderedBlock;
use crate::style::block_runs;
use crate::style::block_texts;
use crate::style::lemma_block_runs_texts;
use crate::textutil::pad_to;
use crate::textutil::rule_chars;
use crate::textutil::split_lines;

verus! {

/// Padding law, from any position of the renderer: when no line of the
/// input opens a fence or a bare JSON region, and every line fits the
/// target width, the renderer emits one padded line per input line, each
/// exactly the target width wide.
pub proof fn lemma_plain_lines_width_from(ls: Seq<Seq<char>>, i: int, first: bool, width: nat)
    requires
        0 <= i,
        forall|m: int|
            0 <= m < ls.len() ==> !is_fence_line(#[trigger] ls[m]) && !starts_json(ls[m]) && ls[m].len()
                <= width,
    ensures
        render_from(ls, i, first, width).len() == if i <= ls.len() {
            ls.len() - i
        } else {
            0
        },
        forall|k: int|
            0 <= k < render_from(ls, i, first, width).len() ==> (#[trigger] render_from(
                ls,
                i,
                first,
                width,
            )[k]).len() == width,
    decreases ls.len() - i,
{
    if i >= ls.len() {
    } else {
        lemma_plain_lines_width_from(ls, i + 1, false, width);
        let out = render_from(ls, i, first, width);
        let rest = render_from(ls, i + 1, false, width);
        assert(out == seq![pad_to(ls[i], width)] + rest);
        assert(pad_to(ls[i], width).len() == width);
        assert forall|k: int| 0 <= k < out.len() implies (#[trigger] out[k]).len() == width by {
            if k == 0 {
                assert(out[0] == pad_to(ls[i], width));
            } else {
                assert(out[k] == rest[k - 1]);
            }
        }
    }
}

/// Padding law: for content in which no line opens a code fence or a bare
/// JSON region, and no line is wider than the target width, every rendered
/// display line is exactly the target width wide. (A line already wider
/// than the target width is kept unpadded rather than truncated, so such
/// inputs are left out here.)
pub proof fn lemma_plain_text_width(content: Seq<char>, width: nat)
    requires
        forall|m: int|
            0 <= m < split_lines(content).len() ==> !is_fence_line(
                #[trigger] split_lines(content)[m],
            ) && !starts_json(split_lines(content)[m]) && split_lines(content)[m].len() <= width,
    ensures
        rendered_text(content, width).len() == split_lines(content).len(),
        forall|k: int|
            0 <= k < rendered_text(content, width).len() ==> (#[trigger] rendered_text(
                content,
                width,
            )[k]).len() == width,
{
    lemma_plain_lines_width_from(split_lines(content), 0, true, width);
}

/// The first fence line in `[k, j]` is `j` itself when none lies before.
proof fn lemma_find_fence_close_at(ls: Seq<Seq<char>>, k: int, j: int)
    requires
        0 <= k <= j < ls.len(),
        is_fence_line(ls[j]),
        forall|m: int| k <= m < j ==> !is_fence_line(#[trigger] ls[m]),
    ensures
        find_fence_close(ls, k) == Option::Some(j),
    decreases j - k,
{
    if k == j {
    } else {
        lemma_find_fence_close_at(ls, k + 1, j);
    }
}

/// Fence framing law: a fenced region with a closing fence renders as its
/// numbered body wrapped in horizontal rules of exactly the target width —
/// a full-width run of box-drawing dashes below, and the same above unless
/// the region opens the block (no top rule for the first rendered
/// element). The lines after the closing fence render independently.
pub proof fn lemma_fence_block_bounded(
    ls: Seq<Seq<char>>,
    i: int,
    j: int,
    first: bool,
    width: nat,
)
    requires
        0 <= i < j < ls.len(),
        is_fence_line(ls[i]),
        is_fence_line(ls[j]),
        forall|m: int| i < m < j ==> !is_fence_line(#[trigger] ls[m]),
    ensures
        ({
            let region = region_texts(
                nonempty_content(ls.subrange(i + 1, j)),
                fence_is_json(ls[i]),
                true,
                first,
                width,
            );
            &&& render_from(ls, i, first, width) == region + render_from(ls, j + 1, false, width)
            &&& region.len() > 0
            &&& region[region.len() - 1] == rule_chars(width)
            &&& !first ==> region[0] == rule_chars(width)
            &&& rule_chars(width).len() == width
            &&& forall|c: int| 0 <= c < width ==> rule_chars(width)[c] == '─'
        }),
{
    lemma_find_fence_close_at(ls, i + 1, j);
}

/// Close-synthesis law: a bare JSON region whose opening brace or bracket
/// has no matching close by end of input is highlighted with a final line
/// holding exactly the matching closing delimiter; a region that already
/// closes is highlighted unchanged.
pub proof fn lemma_json_close_synthesized(open: char, ls: Seq<Seq<char>>)
    requires
        open == '{' || open == '[',
        ls.len() > 0,
    ensures
        close_delim('{') == '}' && close_delim('[') == ']',
        !json_complete(open, ls) ==> json_region_content(open, ls) == ls.push(
            seq![close_delim(open)],
        ),
        !json_complete(open, ls) ==> json_region_content(open, ls).last() == seq![
            close_delim(open),
        ],
        json_complete(open, ls) ==> json_region_content(open, ls) == ls,
{
}

/// Idempotence law: once a render of a title at a width stands in the
/// cache, a further render of the same title and width is a hit, so by the
/// renderer's contract it returns the stored block unchanged — without
/// re-invoking the highlighter — and leaves the renderer as it was. In
/// particular, rendering the same title, content and width twice without
/// an intervening invalidation gives observably identical blocks.
pub proof fn lemma_cache_idempotent(
    m: MarkdownRenderer,
    title: Seq<char>,
    width: usize,
    b: RenderedBlock,
)
    requires
        m.cached(title) == Option::Some((width, b)),
    ensures
        m.spec_hit(title, width) == Option::Some(b),
{
}

/// Invalidation law: after an edit is invalidated and re-rendered, the new
/// block differs from the old one whenever the two contents render to
/// different text. The hypotheses are exactly what the renderer's contract
/// gives for the two (miss) renders.
pub proof fn lemma_invalidation(
    b1: RenderedBlock,
    b2: RenderedBlock,
    c1: Seq<char>,
    c2: Seq<char>,
    width: nat,
)
    requires
        block_texts(b1) == rendered_text(c1, width),
        block_texts(b2) == rendered_text(c2, width),
        rendered_text(c1, width) != rendered_text(c2, width),
    ensures
        block_runs(b1) != block_runs(b2),
        b1 != b2,
{
    if block_runs(b1) == block_runs(b2) {
        lemma_block_runs_texts(b1, b2);
        assert(false);
    }
}

} // verus!
