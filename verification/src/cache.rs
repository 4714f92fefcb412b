//! The render cache: memoizes rendered blocks keyed by block title.
//!
//! A hit requires the same title and the same width; the cache never
//! inspects content, so the editing side must invalidate a title whenever
//! that block's content changes.

use vstd::prelude::*;
use crate::style::RenderedBlock;

verus! {

/// One memoized render: the block title it is keyed by, the width it was
/// rendered at, and the rendered output.
pub struct CacheEntry {
    pub key: String,
    pub width: usize,
    pub rendered: RenderedBlock,
}

/// The first entry of `es` keyed by `k`, as the width/output pair.
pub open spec fn find_in(es: Seq<CacheEntry>, k: Seq<char>) -> Option<(usize, RenderedBlock)>
    decreases es.len(),
{
    if es.len() == 0 {
        Option::None
    } else if es[0].key@ == k {
        Option::Some((es[0].width, es[0].rendered))
    } else {
        find_in(es.drop_first(), k)
    }
}

/// No entry is found for `k` exactly when no entry carries the key `k`.
pub proof fn lemma_find_in_none(es: Seq<CacheEntry>, k: Seq<char>)
    ensures
        (find_in(es, k) is None) <==> (forall|j: int| 0 <= j < es.len() ==> es[j].key@ != k),
    decreases es.len(),
{
    if es.len() > 0 {
        lemma_find_in_none(es.drop_first(), k);
        if find_in(es, k) is None {
            assert forall|j: int| 0 <= j < es.len() implies (#[trigger] es[j]).key@ != k by {
                if j > 0 {
                    assert(es.drop_first()[j - 1] == es[j]);
                }
            }
        }
        if forall|j: int| 0 <= j < es.len() ==> (#[trigger] es[j]).key@ != k {
            assert(es[0].key@ != k);
            assert forall|j: int|
                0 <= j < es.drop_first().len() implies (#[trigger] es.drop_first()[j]).key@
                != k by {
                assert(es.drop_first()[j] == es[j + 1]);
            }
            assert(find_in(es.drop_first(), k) is None);
        }
    }
}

/// Appending an entry with a fresh key adds exactly that key.
pub proof fn lemma_find_in_push(es: Seq<CacheEntry>, e: CacheEntry, k: Seq<char>)
    requires
        find_in(es, e.key@) is None,
    ensures
        find_in(es.push(e), k) == if k == e.key@ {
            Option::Some((e.width, e.rendered))
        } else {
            find_in(es, k)
        },
    decreases es.len(),
{
    if es.len() == 0 {
        assert(es.push(e)[0] == e);
        assert(es.push(e).drop_first() =~= Seq::<CacheEntry>::empty());
        assert(find_in(Seq::<CacheEntry>::empty(), k) is None);
        assert(find_in(es, k) is None);
    } else {
        assert(es.push(e)[0] == es[0]);
        assert(es.push(e).drop_first() =~= es.drop_first().push(e));
        lemma_find_in_push(es.drop_first(), e, k);
    }
}

/// Removing the unique entry keyed by `t` removes exactly that key.
pub proof fn lemma_find_in_remove(es: Seq<CacheEntry>, i: int, k: Seq<char>)
    requires
        0 <= i < es.len(),
        forall|a: int, b: int|
            0 <= a < b < es.len() ==> (#[trigger] es[a]).key@ != (#[trigger] es[b]).key@,
    ensures
        find_in(es.remove(i), k) == if k == es[i].key@ {
            Option::None::<(usize, RenderedBlock)>
        } else {
            find_in(es, k)
        },
    decreases es.len(),
{
    if i == 0 {
        assert(es.remove(0) =~= es.drop_first());
        if k == es[0].key@ {
            assert(forall|j: int|
                0 <= j < es.drop_first().len() ==> (#[trigger] es.drop_first()[j]).key@ != k);
            lemma_find_in_none(es.drop_first(), k);
        }
    } else {
        assert(es.remove(i)[0] == es[0]);
        assert(es.remove(i).drop_first() =~= es.drop_first().remove(i - 1));
        assert(forall|j: int|
            0 <= j < es.drop_first().len() ==> es.drop_first()[j] == #[trigger] es[j + 1]);
        lemma_find_in_remove(es.drop_first(), i - 1, k);
        assert(es.drop_first()[i - 1] == es[i]);
    }
}

/// The render cache: an association of block titles to rendered output at
/// one width per title.
pub struct RenderCache {
    entries: Vec<CacheEntry>,
}

impl RenderCache {
    /// Well-formedness: titles are unique across entries.
    pub closed spec fn wf(self) -> bool {
        forall|a: int, b: int|
            0 <= a < b < self.entries@.len() ==> (#[trigger] self.entries@[a]).key@
                != (#[trigger] self.entries@[b]).key@
    }

    /// The entry stored for a title, if any: the width it was rendered at
    /// and the rendered block.
    pub closed spec fn entry_for(self, title: Seq<char>) -> Option<(usize, RenderedBlock)> {
        find_in(self.entries@, title)
    }

    /// An empty cache.
    pub fn new() -> (c: RenderCache)
        ensures
            c.wf(),
            forall|t: Seq<char>| c.entry_for(t) is None,
    {
        RenderCache { entries: Vec::new() }
    }

    /// Look a title up at a given width. Returns the stored block only on
    /// an exact hit: same title, same width.
    pub fn lookup(&self, title: &String, width: usize) -> (r: Option<&RenderedBlock>)
        ensures
            match r {
                Option::Some(b) => self.entry_for(title@) == Option::Some((width, *b)),
                Option::None => match self.entry_for(title@) {
                    Option::Some((w, _)) => w != width,
                    Option::None => true,
                },
            },
    {
        let ghost es = self.entries@;
        let mut i: usize = 0;
        proof {
            assert(es.skip(0) =~= es);
        }
        while i < self.entries.len()
            invariant
                i <= es.len(),
                es == self.entries@,
                forall|j: int| 0 <= j < i ==> (#[trigger] es[j]).key@ != title@,
                find_in(es, title@) == find_in(es.skip(i as int), title@),
            decreases es.len() - i,
        {
            proof {
                assert(es.skip(i as int)[0] == es[i as int]);
                assert(es.skip(i as int).drop_first() =~= es.skip(i as int + 1));
            }
            let e = &self.entries[i];
            if e.key.eq(title) {
                proof {
                    assert(find_in(es.skip(i as int), title@) == Option::Some((e.width, e.rendered)));
                }
                if e.width == width {
                    return Option::Some(&e.rendered);
                } else {
                    return Option::None;
                }
            }
            i += 1;
        }
        proof {
            assert(es.skip(i as int) =~= Seq::<CacheEntry>::empty());
        }
        Option::None
    }

    /// Drop whatever is stored for a title. The editing side calls this on
    /// every content change, before the next render.
    pub fn invalidate(&mut self, title: &String)
        requires
            old(self).wf(),
        ensures
            final (self).wf(),
            final (self).entry_for(title@) is None,
            forall|t: Seq<char>|
                t != title@ ==> final (self).entry_for(t) == old(self).entry_for(t),
    {
        let ghost es = self.entries@;
        let mut i: usize = 0;
        proof {
            assert(es.skip(0) =~= es);
            assert forall|a: int, b: int| 0 <= a < b < es.len() implies (#[trigger] es[a]).key@
                != (#[trigger] es[b]).key@ by {
                assert(old(self).entries@[a] == es[a]);
                assert(old(self).entries@[b] == es[b]);
            }
        }
        while i < self.entries.len()
            invariant
                i <= es.len(),
                es == self.entries@,
                old(self).entries@ == es,
                forall|a: int, b: int|
                    0 <= a < b < es.len() ==> (#[trigger] es[a]).key@ != (#[trigger] es[b]).key@,
                forall|j: int| 0 <= j < i ==> (#[trigger] es[j]).key@ != title@,
                find_in(es, title@) == find_in(es.skip(i as int), title@),
            decreases es.len() - i,
        {
            proof {
                assert(es.skip(i as int)[0] == es[i as int]);
                assert(es.skip(i as int).drop_first() =~= es.skip(i as int + 1));
            }
            let hit = self.entries[i].key.eq(title);
            if hit {
                proof {
                    lemma_find_in_remove(es, i as int, title@);
                }
                self.entries.remove(i);
                proof {
                    assert(self.entries@ =~= es.remove(i as int));
                    assert forall|t: Seq<char>| t != title@ implies find_in(self.entries@, t)
                        == find_in(es, t) by {
                        lemma_find_in_remove(es, i as int, t);
                    }
                    assert(forall|j: int|
                        0 <= j < self.entries@.len() ==> #[trigger] self.entries@[j] == if j
                            < i as int {
                            es[j]
                        } else {
                            es[j + 1]
                        });
                }
                return ;
            }
            i += 1;
        }
        proof {
            assert(es.skip(i as int) =~= Seq::<CacheEntry>::empty());
            lemma_find_in_none(es, title@);
        }
    }

    /// Store the rendered output for a title at a width, replacing
    /// whatever the title held before.
    pub fn store(&mut self, title: String, width: usize, rendered: RenderedBlock)
        requires
            old(self).wf(),
        ensures
            final (self).wf(),
            final (self).entry_for(title@) == Option::Some((width, rendered)),
            forall|t: Seq<char>|
                t != title@ ==> final (self).entry_for(t) == old(self).entry_for(t),
    {
        self.invalidate(&title);
        let ghost es = self.entries@;
        let e = CacheEntry { key: title, width, rendered };
        proof {
            lemma_find_in_none(es, e.key@);
        }
        self.entries.push(e);
        proof {
            assert forall|t: Seq<char>| true implies find_in(self.entries@, t) == if t == e.key@ {
                Option::Some((e.width, e.rendered))
            } else {
                find_in(es, t)
            } by {
                lemma_find_in_push(es, e, t);
            }
            assert(forall|j: int|
                0 <= j < es.len() ==> #[trigger] self.entries@[j] == es[j]);
            assert(self.entries@.last() == e);
        }
    }
}

} // verus!
