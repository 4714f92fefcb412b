//! The persisted block format: a block begins with a header line
//! `"# <title>"`; a body line with a leading `'#'` is escaped as `"\#..."`
//! on save and unescaped on load, but only outside fenced-code regions —
//! fenced content is preserved exactly, including `'#'` characters.

use vstd::prelude::*;
use crate::classify::is_fence_line;
use crate::classify::is_fence_line_exec;
use crate::textutil::chars_of;
use crate::textutil::copy_range;
use crate::textutil::string_of;

verus! {

/// One stored block: its title and its body lines.
pub type BlockModel = (Seq<char>, Seq<Seq<char>>);

/// Whether a line is a block header: `"# "` followed by the title.
pub open spec fn starts_header(l: Seq<char>) -> bool {
    l.len() >= 2 && l[0] == '#' && l[1] == ' '
}

/// The title a header line carries.
pub open spec fn header_title(l: Seq<char>) -> Seq<char> {
    l.skip(2)
}

/// A body line as it is written outside a fence: a leading `'#'` is
/// escaped with a backslash so it cannot be read back as a header.
pub open spec fn spec_escape(l: Seq<char>) -> Seq<char> {
    if l.len() > 0 && l[0] == '#' {
        seq!['\\'] + l
    } else {
        l
    }
}

/// A stored line as it is read back outside a fence: one leading
/// backslash is removed.
pub open spec fn spec_unescape(l: Seq<char>) -> Seq<char> {
    if l.len() > 0 && l[0] == '\\' {
        l.drop_first()
    } else {
        l
    }
}

/// The stored lines of one block's body from index `k` on, where
/// `in_fence` tracks fenced-code regions: a fence line toggles the state,
/// and only lines outside a fence are escaped.
pub open spec fn encode_body_from(body: Seq<Seq<char>>, k: int, in_fence: bool) -> Seq<Seq<char>>
    decreases body.len() - k,
{
    if k < 0 || k >= body.len() {
        Seq::empty()
    } else {
        let l = body[k];
        let nf = if is_fence_line(l) {
            !in_fence
        } else {
            in_fence
        };
        seq![if nf {
            l
        } else {
            spec_escape(l)
        }] + encode_body_from(body, k + 1, nf)
    }
}

/// The pairing of titles with bodies, in order.
pub open spec fn blocks_of(titles: Seq<Seq<char>>, bodies: Seq<Seq<Seq<char>>>) -> Seq<
    BlockModel,
> {
    Seq::new(titles.len(), |i: int| (titles[i], bodies[i]))
}

/// The stored lines of the blocks from index `i` on: each block is its
/// header line followed by its escaped body, fences starting closed.
pub open spec fn encode_from(bs: Seq<BlockModel>, i: int) -> Seq<Seq<char>>
    decreases bs.len() - i,
{
    if i < 0 || i >= bs.len() {
        Seq::empty()
    } else {
        seq![seq!['#', ' '] + bs[i].0] + encode_body_from(bs[i].1, 0, false) + encode_from(
            bs,
            i + 1,
        )
    }
}

/// The stored lines of a sequence of blocks.
pub open spec fn encode_blocks_spec(bs: Seq<BlockModel>) -> Seq<Seq<char>> {
    encode_from(bs, 0)
}

/// The loader's state after some lines: the finished blocks, the block
/// being accumulated (absent before the first header), and whether the
/// position is inside a fenced region.
pub type DecodeState = (Seq<BlockModel>, Option<BlockModel>, bool);

/// The loader's initial state.
pub open spec fn decode_init() -> DecodeState {
    (Seq::empty(), Option::None, false)
}

/// One line of loading. A header line outside a fence finishes the block
/// in progress and starts a new one; a finished block whose title is
/// empty is dropped. Any other line toggles the fence state when it is a
/// fence line, is kept verbatim inside a fence, and is unescaped outside
/// one; lines before the first header are dropped.
pub open spec fn decode_step(st: DecodeState, l: Seq<char>) -> DecodeState {
    let (bs, cur, in_fence) = st;
    if !in_fence && starts_header(l) {
        (
            match cur {
                Option::Some(b) => if b.0.len() > 0 {
                    bs.push(b)
                } else {
                    bs
                },
                Option::None => bs,
            },
            Option::Some((header_title(l), Seq::empty())),
            in_fence,
        )
    } else {
        let nf = if is_fence_line(l) {
            !in_fence
        } else {
            in_fence
        };
        let content = if nf {
            l
        } else {
            spec_unescape(l)
        };
        match cur {
            Option::Some(b) => (bs, Option::Some((b.0, b.1.push(content))), nf),
            Option::None => (bs, Option::None, nf),
        }
    }
}

/// The loader's state after the first `i` lines.
pub open spec fn decode_fold(ls: Seq<Seq<char>>, i: int) -> DecodeState
    decreases i,
{
    if i <= 0 {
        decode_init()
    } else {
        decode_step(decode_fold(ls, i - 1), ls[i - 1])
    }
}

/// The blocks a state yields at end of input: the block in progress, if
/// any, is finished; a block with an empty title is dropped.
pub open spec fn decode_finish(st: DecodeState) -> Seq<BlockModel> {
    match st.1 {
        Option::Some(b) => if b.0.len() > 0 {
            st.0.push(b)
        } else {
            st.0
        },
        Option::None => st.0,
    }
}

/// The blocks stored in the given lines.
pub open spec fn decode_blocks_spec(ls: Seq<Seq<char>>) -> Seq<BlockModel> {
    decode_finish(decode_fold(ls, ls.len() as int))
}

/// The stored lines of the given blocks: each block's header line followed
/// by its body, with leading `'#'` escaped outside fenced regions.
pub fn encode_blocks(titles: &Vec<String>, bodies: &Vec<Vec<String>>) -> (r: Vec<String>)
    requires
        titles@.len() == bodies@.len(),
    ensures
        r.deep_view() == encode_blocks_spec(blocks_of(titles.deep_view(), bodies.deep_view())),
{
    let ghost bs = blocks_of(titles.deep_view(), bodies.deep_view());
    let mut out: Vec<String> = Vec::new();
    let mut i: usize = 0;
    proof {
        assert(out.deep_view() =~~= Seq::<Seq<char>>::empty());
        assert(encode_from(bs, 0) =~~= out.deep_view() + encode_from(bs, 0));
    }
    while i < titles.len()
        invariant
            i <= titles@.len(),
            titles@.len() == bodies@.len(),
            bs == blocks_of(titles.deep_view(), bodies.deep_view()),
            bs.len() == titles@.len(),
            encode_from(bs, 0) == out.deep_view() + encode_from(bs, i as int),
        decreases titles@.len() - i,
    {
        // header line
        let tv = chars_of(titles[i].as_str());
        let mut hv: Vec<char> = Vec::new();
        hv.push('#');
        hv.push(' ');
        let mut tvm = tv;
        hv.append(&mut tvm);
        proof {
            assert(titles.deep_view()[i as int] == titles@[i as int]@);
            assert(hv@ =~= seq!['#', ' '] + bs[i as int].0);
        }
        let ghost prev = out.deep_view();
        let ghost hvv = hv@;
        out.push(string_of(&hv));
        proof {
            assert(out.deep_view() =~~= prev.push(hvv));
        }
        // body lines
        let body = &bodies[i];
        let ghost bodyv = body.deep_view();
        proof {
            assert(bodies.deep_view()[i as int] == bodies@[i as int].deep_view());
            assert(bodyv == bs[i as int].1);
        }
        let mut in_fence = false;
        let mut k: usize = 0;
        let ghost mid = out.deep_view();
        proof {
            assert(mid + Seq::<Seq<char>>::empty() =~~= mid);
        }
        while k < body.len()
            invariant
                k <= bodyv.len(),
                bodyv == body.deep_view(),
                bodyv.len() == body@.len(),
                mid + encode_body_from(bodyv, 0, false) == out.deep_view() + encode_body_from(
                    bodyv,
                    k as int,
                    in_fence,
                ),
            decreases bodyv.len() - k,
        {
            let lv = chars_of(body[k].as_str());
            proof {
                assert(bodyv[k as int] == body@[k as int]@);
                assert(lv@ == bodyv[k as int]);
            }
            let fence = is_fence_line_exec(&lv);
            let nf = if fence {
                !in_fence
            } else {
                in_fence
            };
            let stored: Vec<char> = if !nf && lv.len() > 0 && lv[0] == '#' {
                let mut e: Vec<char> = Vec::new();
                e.push('\\');
                let mut lvm = lv;
                e.append(&mut lvm);
                proof {
                    assert(e@ =~= spec_escape(bodyv[k as int]));
                }
                e
            } else {
                proof {
                    if !nf {
                        assert(lv@ =~= spec_escape(bodyv[k as int]));
                    }
                }
                lv
            };
            let ghost prevb = out.deep_view();
            let ghost storedv = stored@;
            out.push(string_of(&stored));
            in_fence = nf;
            k += 1;
            proof {
                assert(out.deep_view() =~~= prevb.push(storedv));
                assert(out.deep_view() + encode_body_from(bodyv, k as int, in_fence) =~~= prevb + (
                seq![storedv] + encode_body_from(bodyv, k as int, in_fence)));
            }
        }
        proof {
            assert(encode_body_from(bodyv, bodyv.len() as int, in_fence) =~~= Seq::<
                Seq<char>,
            >::empty());
            assert(out.deep_view() =~~= mid + encode_body_from(bodyv, 0, false));
        }
        i += 1;
        proof {
            assert(encode_from(bs, i as int - 1) =~~= seq![seq!['#', ' '] + bs[i as int - 1].0]
                + encode_body_from(bs[i as int - 1].1, 0, false) + encode_from(bs, i as int));
            assert(encode_from(bs, 0) =~~= out.deep_view() + encode_from(bs, i as int));
        }
    }
    proof {
        assert(encode_from(bs, i as int) =~~= Seq::<Seq<char>>::empty());
        assert(out.deep_view() =~~= encode_from(bs, 0));
    }
    out
}

/// The blocks stored in the given lines: titles and bodies, in order.
pub fn decode_blocks(lines: &Vec<String>) -> (r: (Vec<String>, Vec<Vec<String>>))
    ensures
        r.0@.len() == r.1@.len(),
        blocks_of(r.0.deep_view(), r.1.deep_view()) == decode_blocks_spec(lines.deep_view()),
{
    let ghost lsv = lines.deep_view();
    let mut titles: Vec<String> = Vec::new();
    let mut bodies: Vec<Vec<String>> = Vec::new();
    let mut cur_title: Option<String> = Option::None;
    let mut cur_body: Vec<String> = Vec::new();
    let mut in_fence = false;
    let mut i: usize = 0;
    while i < lines.len()
        invariant
            i <= lsv.len(),
            lsv == lines.deep_view(),
            lsv.len() == lines@.len(),
            titles@.len() == bodies@.len(),
            decode_fold(lsv, i as int) == (
                blocks_of(titles.deep_view(), bodies.deep_view()),
                match cur_title {
                    Option::Some(t) => Option::Some((t@, cur_body.deep_view())),
                    Option::None => Option::None::<BlockModel>,
                },
                in_fence,
            ),
            cur_title is None ==> cur_body@.len() == 0,
        decreases lsv.len() - i,
    {
        let lv = chars_of(lines[i].as_str());
        proof {
            assert(lsv[i as int] == lines@[i as int]@);
            assert(lv@ == lsv[i as int]);
        }
        let ghost st = decode_fold(lsv, i as int);
        proof {
            assert(decode_fold(lsv, i as int + 1) == decode_step(st, lsv[i as int]));
        }
        let is_header = !in_fence && lv.len() >= 2 && lv[0] == '#' && lv[1] == ' ';
        if is_header {
            match cur_title {
                Option::Some(t) => {
                    if !t.as_str().is_empty() {
                        let ghost pt = titles.deep_view();
                        let ghost pb = bodies.deep_view();
                        let ghost bv = cur_body.deep_view();
                        titles.push(t);
                        bodies.push(cur_body);
                        proof {
                            assert(blocks_of(titles.deep_view(), bodies.deep_view()) =~~= blocks_of(
                                pt,
                                pb,
                            ).push((t@, bv)));
                        }
                    }
                },
                Option::None => {},
            }
            let title_chars = copy_range(&lv, 2, lv.len());
            proof {
                assert(title_chars@ =~= header_title(lsv[i as int]));
            }
            cur_title = Option::Some(string_of(&title_chars));
            cur_body = Vec::new();
            proof {
                assert(cur_body.deep_view() =~~= Seq::<Seq<char>>::empty());
            }
        } else {
            let fence = is_fence_line_exec(&lv);
            let nf = if fence {
                !in_fence
            } else {
                in_fence
            };
            in_fence = nf;
            match &cur_title {
                Option::Some(_) => {
                    let content: Vec<char> = if !nf && lv.len() > 0 && lv[0] == '\\' {
                        let c = copy_range(&lv, 1, lv.len());
                        proof {
                            assert(c@ =~= spec_unescape(lsv[i as int]));
                        }
                        c
                    } else {
                        proof {
                            if !nf {
                                assert(lv@ =~= spec_unescape(lsv[i as int]));
                            }
                        }
                        lv
                    };
                    let ghost pb = cur_body.deep_view();
                    let ghost cv = content@;
                    cur_body.push(string_of(&content));
                    proof {
                        assert(cur_body.deep_view() =~~= pb.push(cv));
                    }
                },
                Option::None => {},
            }
        }
        i += 1;
        proof {
            assert(decode_fold(lsv, i as int) == (
                blocks_of(titles.deep_view(), bodies.deep_view()),
                match cur_title {
                    Option::Some(t) => Option::Some((t@, cur_body.deep_view())),
                    Option::None => Option::None::<BlockModel>,
                },
                in_fence,
            ));
        }
    }
    match cur_title {
        Option::Some(t) => {
            if !t.as_str().is_empty() {
                let ghost pt = titles.deep_view();
                let ghost pb = bodies.deep_view();
                let ghost bv = cur_body.deep_view();
                titles.push(t);
                bodies.push(cur_body);
                proof {
                    assert(blocks_of(titles.deep_view(), bodies.deep_view()) =~~= blocks_of(
                        pt,
                        pb,
                    ).push((t@, bv)));
                }
            }
        },
        Option::None => {},
    }
    proof {
        assert(blocks_of(titles.deep_view(), bodies.deep_view()) =~~= decode_blocks_spec(lsv));
    }
    (titles, bodies)
}

} // verus!
