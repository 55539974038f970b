//! Caches that presentation rendering reuses between frames: rasterized glyphs (evicted
//! first in, first out), one RGBA canvas buffer, and the last encoded frame.
use std::collections::{HashMap, VecDeque};
use std::rc::Rc;
use vstd::prelude::*;
use crate::present::fingerprint::FrameFingerprint;

verus! {

broadcast use {
    vstd::std_specs::hash::group_hash_axioms,
    vstd::std_specs::vecdeque::group_vec_dequeue_axioms,
};

#[verifier::external_type_specification]
#[verifier::external_body]
pub struct ExMetrics(fontdue::Metrics);

// ───────────────────────────── glyphs ─────────────────────────────

/// One rasterized glyph.
#[derive(Debug)]
pub struct CachedGlyph {
    pub metrics: fontdue::Metrics,
    pub bitmap: Vec<u8>,
}

/// The key under which the glyph of `ch` at `px_hundredths` hundredths of a pixel is kept.
pub open spec fn glyph_key_s(ch: char, px_hundredths: u32) -> int {
    (ch as int) * 0x1_0000_0000 + px_hundredths as int
}

/// Packs a character and a size in hundredths of a pixel into one key; different pairs
/// give different keys.
pub fn glyph_key(ch: char, px_hundredths: u32) -> (r: u64)
    ensures
        r == glyph_key_s(ch, px_hundredths),
{
    let c: u32 = ch as u32;
    assert(c <= 0x10FFFF);
    (c as u64) * 0x1_0000_0000 + (px_hundredths as u64)
}

/// Rasterized glyphs by key, at most `max_entries` of them; when full, the glyph stored
/// first leaves first.
pub struct GlyphCache {
    entries: HashMap<u64, Rc<CachedGlyph>>,
    order: VecDeque<u64>,
    max_entries: usize,
}

impl GlyphCache {
    /// The glyphs held, by key.
    pub closed spec fn glyphs(&self) -> Map<u64, Rc<CachedGlyph>> {
        self.entries@
    }

    /// The keys held, oldest first.
    pub closed spec fn keys_by_age(&self) -> Seq<u64> {
        self.order@
    }

    /// How many glyphs the cache keeps at most.
    pub closed spec fn limit(&self) -> usize {
        self.max_entries
    }

    /// The keys held are exactly those of `keys_by_age`, each once, and there are no more
    /// of them than the limit, which is at least one.
    pub open spec fn inv(&self) -> bool {
        &&& self.limit() >= 1
        &&& self.keys_by_age().no_duplicates()
        &&& self.keys_by_age().len() <= self.limit()
        &&& self.glyphs().dom().finite()
        &&& self.glyphs().len() == self.keys_by_age().len()
        &&& forall|k: u64| #[trigger]
            self.glyphs().contains_key(k) <==> self.keys_by_age().contains(k)
    }

    /// An empty cache for at most `max_entries` glyphs (at least one).
    pub fn with_capacity(max_entries: usize) -> (r: GlyphCache)
        ensures
            r.inv(),
            r.glyphs() == Map::<u64, Rc<CachedGlyph>>::empty(),
            r.keys_by_age() == Seq::<u64>::empty(),
            r.limit() == if max_entries >= 1 { max_entries } else { 1 },
    {
        let reserve: usize = if max_entries < 256 { max_entries } else { 256 };
        let r = GlyphCache {
            entries: HashMap::with_capacity(reserve),
            order: VecDeque::with_capacity(reserve),
            max_entries: if max_entries >= 1 { max_entries } else { 1 },
        };
        assert(r.glyphs().dom() =~= Set::<u64>::empty());
        r
    }

    pub fn len(&self) -> (r: usize)
        requires
            self.inv(),
        ensures
            r == self.glyphs().len(),
    {
        self.entries.len()
    }

    pub fn is_empty(&self) -> (r: bool)
        requires
            self.inv(),
        ensures
            r == (self.glyphs().len() == 0),
    {
        self.entries.is_empty()
    }

    /// The glyph kept under `key`, if any.
    pub fn get(&self, key: u64) -> (r: Option<&Rc<CachedGlyph>>)
        requires
            self.inv(),
        ensures
            match r {
                Some(g) => self.glyphs().contains_key(key) && *g == self.glyphs()[key],
                None => !self.glyphs().contains_key(key),
            },
    {
        self.entries.get(&key)
    }

    /// Stores `g` under `key`, which is not held yet. When the cache is full, the oldest
    /// glyph leaves first.
    pub fn insert(&mut self, key: u64, g: Rc<CachedGlyph>)
        requires
            old(self).inv(),
            !old(self).glyphs().contains_key(key),
        ensures
            final(self).inv(),
            final(self).limit() == old(self).limit(),
            old(self).keys_by_age().len() < old(self).limit() ==> {
                &&& final(self).keys_by_age() == old(self).keys_by_age().push(key)
                &&& final(self).glyphs() == old(self).glyphs().insert(key, g)
            },
            old(self).keys_by_age().len() == old(self).limit() ==> {
                &&& final(self).keys_by_age() == old(self).keys_by_age().drop_first().push(key)
                &&& final(self).glyphs() == old(self).glyphs().remove(
                    old(self).keys_by_age()[0],
                ).insert(key, g)
            },
    {
        if self.entries.len() >= self.max_entries {
            let ghost before = self.order@;
            let popped = self.order.pop_front();
            if let Some(oldest) = popped {
                self.entries.remove(&oldest);
                proof {
                    assert(before.contains(oldest)) by {
                        assert(before[0] == oldest);
                    }
                    assert forall|k: u64| #[trigger]
                        self.entries@.contains_key(k) <==> self.order@.contains(k) by {
                        if self.order@.contains(k) {
                            let i = choose|i: int| 0 <= i < self.order@.len() && self.order@[i] == k;
                            assert(before[i + 1] == k);
                            assert(k != oldest);
                            assert(before.contains(k));
                        }
                        if self.entries@.contains_key(k) {
                            assert(before.contains(k));
                            let i = choose|i: int| 0 <= i < before.len() && before[i] == k;
                            assert(i != 0);
                            assert(self.order@[i - 1] == k);
                        }
                    }
                    assert(self.order@.no_duplicates()) by {
                        assert forall|i: int, j: int|
                            0 <= i < j < self.order@.len() implies self.order@[i]
                            != self.order@[j] by {
                            assert(self.order@[i] == before[i + 1]);
                            assert(self.order@[j] == before[j + 1]);
                        }
                    }
                }
            }
        }
        let ghost mid_order = self.order@;
        let ghost mid_entries = self.entries@;
        self.entries.insert(key, g);
        self.order.push_back(key);
        proof {
            assert(!mid_order.contains(key));
            assert forall|k: u64| #[trigger]
                self.entries@.contains_key(k) <==> self.order@.contains(k) by {
                if self.order@.contains(k) && k != key {
                    let i = choose|i: int| 0 <= i < self.order@.len() && self.order@[i] == k;
                    assert(i < mid_order.len());
                    assert(mid_order[i] == k);
                }
                if k != key && mid_order.contains(k) {
                    let i = choose|i: int| 0 <= i < mid_order.len() && mid_order[i] == k;
                    assert(self.order@[i] == k);
                }
                assert(self.order@[self.order@.len() - 1] == key);
            }
            assert(self.order@.no_duplicates()) by {
                assert forall|i: int, j: int|
                    0 <= i < j < self.order@.len() implies self.order@[i] != self.order@[j] by {
                    if j == self.order@.len() - 1 {
                        assert(mid_order[i] == self.order@[i]);
                    } else {
                        assert(mid_order[i] == self.order@[i]);
                        assert(mid_order[j] == self.order@[j]);
                    }
                }
            }
            assert(self.order@ == mid_order.push(key));
        }
    }

    pub fn clear(&mut self)
        requires
            old(self).inv(),
        ensures
            final(self).inv(),
            final(self).limit() == old(self).limit(),
            final(self).glyphs() == Map::<u64, Rc<CachedGlyph>>::empty(),
            final(self).keys_by_age() == Seq::<u64>::empty(),
    {
        self.entries.clear();
        self.order.clear();
        assert(self.entries@.dom() =~= Set::<u64>::empty());
    }
}

impl Default for GlyphCache {
    fn default() -> (r: GlyphCache)
        ensures
            r.inv(),
            r.glyphs() == Map::<u64, Rc<CachedGlyph>>::empty(),
            r.keys_by_age() == Seq::<u64>::empty(),
            r.limit() == 4096,
    {
        GlyphCache::with_capacity(4096)
    }
}

// ───────────────────────────── the canvas buffer ─────────────────────────────

/// `Vec::capacity`: how many elements the vector can hold without reallocating, which
/// takes in at least the elements it holds. Nothing more is stated of the value: it is
/// whatever the allocator gave.
#[verifier::external_body]
fn vec_capacity(v: &Vec<u8>) -> (r: usize)
    ensures
        r >= v@.len(),
{
    v.capacity()
}

/// Every pixel of `s` (four bytes each) is `bg`.
pub open spec fn filled_with(s: Seq<u8>, bg: [u8; 4]) -> bool {
    forall|j: int| 0 <= j < s.len() ==> #[trigger] s[j] == bg[j % 4]
}

/// Keeps one RGBA buffer between frames, so that a frame of the same size needs neither a
/// new allocation nor more than one pass to clear.
pub struct CanvasPool {
    buf: Vec<u8>,
}

impl CanvasPool {
    /// The buffer held for the next frame.
    pub closed spec fn spare(&self) -> Seq<u8> {
        self.buf@
    }

    pub fn new() -> (r: CanvasPool)
        ensures
            r.spare() == Seq::<u8>::empty(),
    {
        CanvasPool { buf: Vec::new() }
    }

    /// A `w` × `h` RGBA canvas with every pixel `bg`, built in the buffer held (which the
    /// pool gives up).
    pub fn take(&mut self, w: u32, h: u32, bg: [u8; 4]) -> (r: Vec<u8>)
        requires
            (w as int) * (h as int) * 4 <= usize::MAX,
        ensures
            r@.len() == (w as int) * (h as int) * 4,
            filled_with(r@, bg),
            final(self).spare() == Seq::<u8>::empty(),
    {
        assert((w as int) * (h as int) <= usize::MAX) by (nonlinear_arith)
            requires
                (w as int) * (h as int) * 4 <= usize::MAX,
        ;
        let needed: usize = (w as usize) * (h as usize) * 4;
        let mut buf: Vec<u8> = Vec::new();
        std::mem::swap(&mut buf, &mut self.buf);
        if buf.len() != needed {
            buf.resize(needed, 0);
        }
        let mut i: usize = 0;
        while i < needed
            invariant
                buf@.len() == needed,
                needed % 4 == 0,
                i % 4 == 0,
                i <= needed,
                forall|j: int| 0 <= j < i ==> #[trigger] buf@[j] == bg[j % 4],
            decreases needed - i,
        {
            buf.set(i, bg[0]);
            buf.set(i + 1, bg[1]);
            buf.set(i + 2, bg[2]);
            buf.set(i + 3, bg[3]);
            proof {
                assert forall|j: int| 0 <= j < i + 4 implies #[trigger] buf@[j] == bg[j % 4] by {
                    if j >= i {
                        assert(j % 4 == j - i) by {
                            vstd::arithmetic::div_mod::lemma_fundamental_div_mod_converse(
                                j,
                                4,
                                i as int / 4,
                                j - i,
                            );
                        }
                    }
                }
            }
            i = i + 4;
        }
        buf
    }

    /// Hands a used buffer back; the pool keeps whichever of it and the buffer it holds has
    /// room for more. The rooms are the buffers' capacities, which the allocator decides;
    /// [`CanvasPool::keep_roomier`] says which buffer is kept for each of them.
    pub fn return_buffer(&mut self, buf: Vec<u8>)
        ensures
            final(self).spare() == old(self).spare() || final(self).spare() == buf@,
    {
        let offered = vec_capacity(&buf);
        let held = vec_capacity(&self.buf);
        self.keep_roomier(buf, offered, held);
    }

    /// Keeps `buf` in place of the buffer held when it has more room: `offered` is the room
    /// in `buf` and `held` the room in the buffer held.
    pub fn keep_roomier(&mut self, buf: Vec<u8>, offered: usize, held: usize)
        ensures
            final(self).spare() == if offered > held {
                buf@
            } else {
                old(self).spare()
            },
    {
        if offered > held {
            self.buf = buf;
        }
    }

    /// The room in the buffer held: at least its length.
    pub fn capacity(&self) -> (r: usize)
        ensures
            r >= self.spare().len(),
    {
        vec_capacity(&self.buf)
    }
}

impl Default for CanvasPool {
    fn default() -> (r: CanvasPool)
        ensures
            r.spare() == Seq::<u8>::empty(),
    {
        CanvasPool::new()
    }
}

// ───────────────────────────── the last frame ─────────────────────────────

/// An encoded frame: its PNG bytes and their base64 text.
#[derive(Clone)]
pub struct CachedFrame {
    pub fingerprint: FrameFingerprint,
    pub png: Rc<Vec<u8>>,
    pub base64: Rc<String>,
}

/// Keeps the last frame encoded, to reuse while nothing that it shows has changed.
pub struct FrameCache {
    last: Option<CachedFrame>,
}

impl FrameCache {
    /// The frame kept, if any.
    pub closed spec fn kept(&self) -> Option<CachedFrame> {
        self.last
    }

    pub fn new() -> (r: FrameCache)
        ensures
            r.kept() is None,
    {
        FrameCache { last: None }
    }

    /// The frame kept, when its fingerprint is `fp`.
    pub fn lookup(&self, fp: &FrameFingerprint) -> (r: Option<&CachedFrame>)
        ensures
            match r {
                Some(c) => lookup_s(self.kept(), *fp) == Some(*c),
                None => lookup_s(self.kept(), *fp) is None,
            },
    {
        match &self.last {
            Some(c) => {
                if c.fingerprint == *fp {
                    Some(c)
                } else {
                    None
                }
            },
            None => None,
        }
    }

    pub fn store(&mut self, frame: CachedFrame)
        ensures
            final(self).kept() == Some(frame),
    {
        self.last = Some(frame);
    }

    pub fn clear(&mut self)
        ensures
            final(self).kept() is None,
    {
        self.last = None;
    }

    /// Whether a frame is kept.
    pub fn has_displayed(&self) -> (r: bool)
        ensures
            r == self.kept() is Some,
    {
        self.last.is_some()
    }
}

impl Default for FrameCache {
    fn default() -> (r: FrameCache)
        ensures
            r.kept() is None,
    {
        FrameCache::new()
    }
}

/// What a cache keeping `kept` answers for the fingerprint `fp`.
pub open spec fn lookup_s(kept: Option<CachedFrame>, fp: FrameFingerprint) -> Option<CachedFrame> {
    match kept {
        Some(c) => if c.fingerprint == fp {
            Some(c)
        } else {
            None
        },
        None => None,
    }
}

/// After a frame is stored, looking up its fingerprint gives it back, and any other
/// fingerprint misses; after a clear, everything misses.
pub proof fn law_lookup_after_store(frame: CachedFrame, fp: FrameFingerprint)
    ensures
        lookup_s(Some(frame), frame.fingerprint) == Some(frame),
        fp != frame.fingerprint ==> lookup_s(Some(frame), fp) is None,
        lookup_s(None, fp) is None,
{
}

} // verus!
