use std::rc::Rc;

use slidecli::present::cache::{glyph_key, CachedFrame, CachedGlyph, CanvasPool, FrameCache, GlyphCache};
use slidecli::present::fingerprint::FrameFingerprint;
use slidecli::app::App;
use slidecli::model::Presentation;

#[test]
fn canvas_pool_reuses_buffer() {
    let mut pool = CanvasPool::new();
    let buf1 = pool.take(10, 10, [1, 2, 3, 4]);
    assert_eq!(buf1.len(), 400);
    assert_eq!(&buf1[0..4], &[1, 2, 3, 4]);
    let cap1 = buf1.capacity();
    pool.return_buffer(buf1);
    let buf2 = pool.take(10, 10, [5, 6, 7, 8]);
    assert!(buf2.capacity() >= cap1);
    assert_eq!(&buf2[0..4], &[5, 6, 7, 8]);
}

#[test]
fn canvas_pool_resizes_on_larger_request() {
    let mut pool = CanvasPool::new();
    let buf1 = pool.take(4, 4, [0; 4]);
    pool.return_buffer(buf1);
    let buf2 = pool.take(8, 8, [9, 9, 9, 9]);
    assert_eq!(buf2.len(), 8 * 8 * 4);
    assert_eq!(&buf2[0..4], &[9, 9, 9, 9]);
}

#[test]
fn canvas_pool_fills_every_pixel() {
    let mut pool = CanvasPool::new();
    let buf = pool.take(3, 2, [7, 8, 9, 10]);
    assert_eq!(buf.len(), 24);
    for px in buf.chunks(4) {
        assert_eq!(px, &[7, 8, 9, 10]);
    }
    pool.return_buffer(buf);
    let smaller = pool.take(1, 1, [1, 1, 1, 1]);
    assert_eq!(smaller, vec![1, 1, 1, 1]);
}

#[test]
fn canvas_pool_keeps_the_roomier_buffer() {
    let mut pool = CanvasPool::new();
    let big: Vec<u8> = Vec::with_capacity(64);
    pool.keep_roomier(big, 64, pool.capacity());
    assert!(pool.capacity() >= 64);
    let small: Vec<u8> = Vec::with_capacity(8);
    let held = pool.capacity();
    pool.keep_roomier(small, 8, held);
    assert!(pool.capacity() >= 64);
    let buf = pool.take(2, 2, [3, 3, 3, 3]);
    assert!(buf.capacity() >= 64);
}

fn glyph(n: u8) -> Rc<CachedGlyph> {
    Rc::new(CachedGlyph { metrics: fontdue::Metrics::default(), bitmap: vec![n] })
}

#[test]
fn glyph_cache_keeps_what_it_stored() {
    let mut cache = GlyphCache::default();
    assert!(cache.is_empty());
    let key = glyph_key('A', 2400);
    assert!(cache.get(key).is_none());
    let g = glyph(1);
    cache.insert(key, g.clone());
    let hit = cache.get(key).expect("stored glyph");
    assert!(Rc::ptr_eq(hit, &g));
    assert_eq!(cache.len(), 1);
}

#[test]
fn glyph_cache_evicts_the_oldest_first() {
    let mut cache = GlyphCache::with_capacity(2);
    let a = glyph_key('A', 1600);
    let b = glyph_key('B', 1600);
    let c = glyph_key('C', 1600);
    cache.insert(a, glyph(1));
    cache.insert(b, glyph(2));
    cache.insert(c, glyph(3));
    assert_eq!(cache.len(), 2);
    assert!(cache.get(a).is_none());
    assert!(cache.get(b).is_some());
    assert!(cache.get(c).is_some());
    cache.clear();
    assert!(cache.is_empty());
}

#[test]
fn glyph_cache_of_capacity_zero_keeps_one() {
    let mut cache = GlyphCache::with_capacity(0);
    cache.insert(glyph_key('x', 1), glyph(1));
    cache.insert(glyph_key('y', 1), glyph(2));
    assert_eq!(cache.len(), 1);
}

#[test]
fn glyph_keys_tell_size_and_char_apart() {
    assert_ne!(glyph_key('A', 1600), glyph_key('A', 1601));
    assert_ne!(glyph_key('A', 1600), glyph_key('B', 1600));
    assert_eq!(glyph_key('A', 5), (65u64 << 32) + 5);
}

#[test]
fn frame_cache_hits_only_on_the_same_fingerprint() {
    let app = App::new(Presentation::demo());
    let fp = FrameFingerprint::compute(&app, (960, 576));
    let other = FrameFingerprint::compute(&app, (1280, 720));
    let mut cache = FrameCache::new();
    assert!(!cache.has_displayed());
    assert!(cache.lookup(&fp).is_none());
    cache.store(CachedFrame {
        fingerprint: fp,
        png: Rc::new(vec![1, 2, 3]),
        base64: Rc::new("AQID".to_string()),
    });
    assert!(cache.has_displayed());
    assert_eq!(cache.lookup(&fp).map(|c| c.base64.as_str()), Some("AQID"));
    assert!(cache.lookup(&other).is_none());
    cache.clear();
    assert!(cache.lookup(&fp).is_none());
}
