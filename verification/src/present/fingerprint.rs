//! A fingerprint of everything that decides what one presentation frame shows.
use std::collections::hash_map::DefaultHasher;
use std::hash::Hasher;
use vstd::prelude::*;
use vstd::std_specs::cmp::PartialEqSpecImpl;
use vstd::std_specs::hash::DefaultHasherAdditionalSpecFns;
use vstd::utf8::encode_utf8;
use crate::app::{App, AppView, ExecStatus, presented_s, wf};
use crate::model::{Block, BlockKind, BlockView, KindView, block_views};

verus! {

/// Two frames with equal fingerprints look the same.
#[derive(Debug, Clone, Copy, Hash)]
pub struct FrameFingerprint {
    pub slide_idx: usize,
    pub slide_hash: u64,
    pub font_size: u8,
    pub canvas_size: (u32, u32),
    pub selected_block: Option<usize>,
    pub running_output_hash: u64,
    pub running_status: u8,
    pub status_message_hash: u64,
}

impl PartialEq for FrameFingerprint {
    fn eq(&self, other: &Self) -> (r: bool) {
        let same_selection = match (self.selected_block, other.selected_block) {
            (Some(a), Some(b)) => a == b,
            (None, None) => true,
            _ => false,
        };
        self.slide_idx == other.slide_idx && self.slide_hash == other.slide_hash
            && self.font_size == other.font_size && self.canvas_size.0 == other.canvas_size.0
            && self.canvas_size.1 == other.canvas_size.1 && same_selection
            && self.running_output_hash == other.running_output_hash && self.running_status
            == other.running_status && self.status_message_hash == other.status_message_hash
    }
}

impl PartialEqSpecImpl for FrameFingerprint {
    open spec fn obeys_eq_spec() -> bool {
        true
    }

    open spec fn eq_spec(&self, other: &Self) -> bool {
        *self == *other
    }
}

impl Eq for FrameFingerprint {
}

/// The `n` low bytes of `x`, least significant first.
pub open spec fn le_bytes(x: nat, n: nat) -> Seq<u8>
    decreases n,
{
    if n == 0 {
        seq![]
    } else {
        seq![(x % 256) as u8] + le_bytes(x / 256, (n - 1) as nat)
    }
}

/// The chunks that feed a string to the hasher: its UTF-8 bytes, then `0xff`.
pub open spec fn str_chunks(s: Seq<char>) -> Seq<Seq<u8>> {
    seq![encode_utf8(s), seq![0xffu8]]
}

pub open spec fn kind_tag(k: KindView) -> u8 {
    match k {
        KindView::Heading { .. } => 0,
        KindView::Text => 1,
        KindView::Code { .. } => 2,
        KindView::Exec { .. } => 3,
        KindView::OutputPlaceholder => 4,
        KindView::Separator => 5,
    }
}

/// The chunks that feed one block to the hasher.
pub open spec fn block_chunks(b: BlockView) -> Seq<Seq<u8>> {
    seq![le_bytes(b.id as nat, 8), seq![kind_tag(b.kind)]] + str_chunks(b.content) + match b.kind {
        KindView::Exec { lang, signature } => str_chunks(lang) + match signature {
            Some(sig) => seq![seq![1u8]] + str_chunks(sig),
            None => seq![seq![0u8]],
        },
        KindView::Code { lang } => str_chunks(lang),
        KindView::Heading { level } => seq![seq![level]],
        _ => Seq::<Seq<u8>>::empty(),
    }
}

/// The chunks that feed a slide's blocks to the hasher.
pub open spec fn slide_chunks(bs: Seq<BlockView>) -> Seq<Seq<u8>>
    decreases bs.len(),
{
    if bs.len() == 0 {
        seq![]
    } else {
        slide_chunks(bs.drop_last()) + block_chunks(bs.last())
    }
}

pub open spec fn status_chunks(s: Option<Seq<char>>) -> Seq<Seq<u8>> {
    match s {
        Some(m) => seq![seq![1u8]] + str_chunks(m),
        None => seq![seq![0u8]],
    }
}

pub open spec fn exec_status_code_s(s: ExecStatus) -> u8 {
    match s {
        ExecStatus::Running => 1,
        ExecStatus::Completed(_) => 2,
        ExecStatus::Failed(_) => 3,
        ExecStatus::Cancelled => 4,
        ExecStatus::SpawnError => 5,
    }
}

/// The fingerprint of the frame that `v` shows on a canvas of `canvas_size` pixels.
pub open spec fn fingerprint_s(v: AppView, canvas_size: (u32, u32)) -> FrameFingerprint {
    let running = match v.running_exec {
        Some(r) => if r.slide_idx == v.current_slide {
            (
                DefaultHasher::spec_finish(str_chunks(r.buffer) + seq![le_bytes(r.scroll as nat, 8)]),
                exec_status_code_s(r.status),
            )
        } else {
            (0u64, 0u8)
        },
        None => (0u64, 0u8),
    };
    FrameFingerprint {
        slide_idx: v.current_slide,
        slide_hash: DefaultHasher::spec_finish(slide_chunks(presented_s(v).blocks)),
        font_size: v.presentation.font_size,
        canvas_size,
        selected_block: v.selected_block,
        running_output_hash: running.0,
        running_status: running.1,
        status_message_hash: DefaultHasher::spec_finish(status_chunks(v.status_message)),
    }
}

fn le_bytes_of(x: u64) -> (r: Vec<u8>)
    ensures
        r@ == le_bytes(x as nat, 8),
{
    let mut out: Vec<u8> = Vec::new();
    let mut v = x;
    let mut i: usize = 0;
    while i < 8
        invariant
            i <= 8,
            out@ + le_bytes(v as nat, (8 - i) as nat) == le_bytes(x as nat, 8),
        decreases 8 - i,
    {
        let b = (v % 256) as u8;
        let ghost rest = le_bytes((v / 256) as nat, (8 - i - 1) as nat);
        assert(le_bytes(v as nat, (8 - i) as nat) == seq![b] + rest);
        out.push(b);
        v = v / 256;
        i = i + 1;
        assert(out@ + rest =~= (out@.drop_last() + (seq![b] + rest)));
    }
    assert(out@ + le_bytes(v as nat, 0) =~= out@);
    out
}

fn write_chunk(h: &mut DefaultHasher, bytes: &[u8])
    ensures
        final(h)@ == old(h)@.push(bytes@),
{
    h.write(bytes);
}

fn write_str(h: &mut DefaultHasher, s: &String)
    ensures
        final(h)@ == old(h)@ + str_chunks(s@),
{
    write_chunk(h, s.as_str().as_bytes());
    let end: [u8; 1] = [0xff];
    write_chunk(h, &end);
    assert(end@ =~= seq![0xffu8]);
    assert(final(h)@ =~= old(h)@ + str_chunks(s@));
}

fn write_byte(h: &mut DefaultHasher, b: u8)
    ensures
        final(h)@ == old(h)@.push(seq![b]),
{
    let one: [u8; 1] = [b];
    write_chunk(h, &one);
    assert(one@ =~= seq![b]);
}

fn kind_tag_of(k: &BlockKind) -> (r: u8)
    ensures
        r == kind_tag(k@),
{
    match k {
        BlockKind::Heading { .. } => 0,
        BlockKind::Text => 1,
        BlockKind::Code { .. } => 2,
        BlockKind::Exec { .. } => 3,
        BlockKind::OutputPlaceholder => 4,
        BlockKind::Separator => 5,
    }
}

fn write_block(h: &mut DefaultHasher, b: &Block)
    ensures
        final(h)@ == old(h)@ + block_chunks(b@),
{
    let id_bytes = le_bytes_of(b.id);
    write_chunk(h, id_bytes.as_slice());
    write_byte(h, kind_tag_of(&b.kind));
    write_str(h, &b.content);
    let ghost mid = h@;
    match &b.kind {
        BlockKind::Exec { lang, signature } => {
            write_str(h, lang);
            match signature {
                Some(sig) => {
                    write_byte(h, 1);
                    write_str(h, sig);
                },
                None => {
                    write_byte(h, 0);
                },
            }
        },
        BlockKind::Code { lang } => {
            write_str(h, lang);
        },
        BlockKind::Heading { level } => {
            write_byte(h, *level);
        },
        _ => {},
    }
    assert(final(h)@ =~= old(h)@ + block_chunks(b@));
}

/// The code by which a fingerprint records how a command stands.
fn exec_status_code(s: ExecStatus) -> (r: u8)
    ensures
        r == exec_status_code_s(s),
{
    match s {
        ExecStatus::Running => 1,
        ExecStatus::Completed(_) => 2,
        ExecStatus::Failed(_) => 3,
        ExecStatus::Cancelled => 4,
        ExecStatus::SpawnError => 5,
    }
}

impl FrameFingerprint {
    /// The fingerprint of the frame that `app` shows on a canvas of `canvas_size` pixels.
    pub fn compute(app: &App, canvas_size: (u32, u32)) -> (r: FrameFingerprint)
        requires
            wf(app@),
        ensures
            r == fingerprint_s(app@, canvas_size),
    {
        let slide = app.presented_slide();
        let ghost bv = block_views(slide.blocks@);
        let mut h = DefaultHasher::new();
        let mut i: usize = 0;
        assert(bv.take(0) =~= seq![]);
        while i < slide.blocks.len()
            invariant
                bv == block_views(slide.blocks@),
                i <= bv.len(),
                h@ == slide_chunks(bv.take(i as int)),
            decreases bv.len() - i,
        {
            write_block(&mut h, &slide.blocks[i]);
            assert(bv.take(i + 1).drop_last() =~= bv.take(i as int));
            i = i + 1;
        }
        assert(bv.take(i as int) =~= bv);
        let slide_hash = h.finish();
        assert(bv == presented_s(app@).blocks);

        let (running_output_hash, running_status) = match &app.running_exec {
            Some(r) => {
                if r.slide_idx == app.current_slide {
                    let mut h2 = DefaultHasher::new();
                    write_str(&mut h2, &r.buffer);
                    let sb = le_bytes_of(r.scroll as u64);
                    write_chunk(&mut h2, sb.as_slice());
                    assert(h2@ =~= str_chunks(r.buffer@) + seq![le_bytes(r.scroll as nat, 8)]);
                    (h2.finish(), exec_status_code(r.status))
                } else {
                    (0, 0)
                }
            },
            None => (0, 0),
        };

        let mut sh = DefaultHasher::new();
        match &app.status_message {
            Some(s) => {
                write_byte(&mut sh, 1);
                write_str(&mut sh, s);
                assert(sh@ =~= status_chunks(app@.status_message));
            },
            None => {
                write_byte(&mut sh, 0);
                assert(sh@ =~= status_chunks(app@.status_message));
            },
        }
        let status_message_hash = sh.finish();

        FrameFingerprint {
            slide_idx: app.current_slide,
            slide_hash,
            font_size: app.presentation.font_size,
            canvas_size,
            selected_block: app.selected_block,
            running_output_hash,
            running_status,
            status_message_hash,
        }
    }
}

/// Equal fingerprints come from the same canvas size, slide, font size and selection: a
/// change of any of these always invalidates a frame.
pub proof fn law_fingerprint_separates(
    v1: AppView,
    c1: (u32, u32),
    v2: AppView,
    c2: (u32, u32),
)
    requires
        fingerprint_s(v1, c1) == fingerprint_s(v2, c2),
    ensures
        c1 == c2,
        v1.current_slide == v2.current_slide,
        v1.presentation.font_size == v2.presentation.font_size,
        v1.selected_block == v2.selected_block,
{
}

/// The same editor state on the same canvas always has the same fingerprint.
pub proof fn law_fingerprint_deterministic(v: AppView, c: (u32, u32), w: AppView)
    requires
        v == w,
    ensures
        fingerprint_s(v, c) == fingerprint_s(w, c),
{
}

} // verus!
