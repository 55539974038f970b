//! Where each part of a slide goes on a presentation frame: text lines, panels and rules,
//! laid out from pixel metrics that the caller derives from the font size.
use vstd::prelude::*;
use crate::model::{Block, BlockKind, BlockView, KindView};
use crate::render::{panel_lines, panel_lines_s, string_views, text_lines, text_lines_s};
use crate::text::{chars_of, extend_chars, push_str, string_from};

verus! {

/// The pixel sizes of one kind of text.
#[derive(Debug, Clone, Copy)]
pub struct TextMetrics {
    /// The height of a line.
    pub line_h: i64,
    /// How many cells fit on a line.
    pub max_chars: usize,
    /// The padding inside a panel.
    pub pad: i64,
}

/// The pixel sizes that a slide is laid out with.
#[derive(Debug, Clone, Copy)]
pub struct SlideMetrics {
    pub canvas_h: i64,
    /// The left margin of the content.
    pub margin_x: i64,
    /// Where the first block starts.
    pub top: i64,
    /// The width of the content.
    pub content_w: i64,
    pub heading1: TextMetrics,
    pub heading2: TextMetrics,
    pub text: TextMetrics,
    pub code: TextMetrics,
    pub output: TextMetrics,
    pub line_gap_body: i64,
    pub line_gap_heading: i64,
    pub block_gap: i64,
}

/// The kind of text a line is drawn as (it decides the font size and colour).
#[derive(Debug, Clone, Copy, PartialEq, Eq, Structural)]
pub enum TextStyle {
    Heading1,
    Heading2,
    Text,
    Code,
    Output,
}

/// One drawing step of a frame.
pub enum DrawOp {
    Text { x: i64, y: i64, style: TextStyle, text: String },
    Fill { x: i64, y: i64, w: i64, h: i64, color: [u8; 4] },
    Border { x: i64, y: i64, w: i64, h: i64, color: [u8; 4] },
    HLine { x: i64, y: i64, w: i64, color: [u8; 4] },
}

/// The mathematical model of a [`DrawOp`].
pub enum OpView {
    Text { x: int, y: int, style: TextStyle, text: Seq<char> },
    Fill { x: int, y: int, w: int, h: int, color: [u8; 4] },
    Border { x: int, y: int, w: int, h: int, color: [u8; 4] },
    HLine { x: int, y: int, w: int, color: [u8; 4] },
}

impl View for DrawOp {
    type V = OpView;

    open spec fn view(&self) -> OpView {
        match self {
            DrawOp::Text { x, y, style, text } => OpView::Text {
                x: *x as int,
                y: *y as int,
                style: *style,
                text: text@,
            },
            DrawOp::Fill { x, y, w, h, color } => OpView::Fill {
                x: *x as int,
                y: *y as int,
                w: *w as int,
                h: *h as int,
                color: *color,
            },
            DrawOp::Border { x, y, w, h, color } => OpView::Border {
                x: *x as int,
                y: *y as int,
                w: *w as int,
                h: *h as int,
                color: *color,
            },
            DrawOp::HLine { x, y, w, color } => OpView::HLine {
                x: *x as int,
                y: *y as int,
                w: *w as int,
                color: *color,
            },
        }
    }
}

pub open spec fn op_views(v: Seq<DrawOp>) -> Seq<OpView> {
    v.map_values(|o: DrawOp| o@)
}

pub open spec fn rule_color() -> [u8; 4] {
    [42, 42, 42, 255]
}

pub open spec fn panel_color() -> [u8; 4] {
    [24, 24, 24, 255]
}

/// The border of an exec block's panel: green when signed, red when not.
pub open spec fn exec_border(signed: bool) -> [u8; 4] {
    if signed {
        [106, 176, 76, 255]
    } else {
        [255, 107, 107, 255]
    }
}

// ───────────────────────────── text blocks ─────────────────────────────

/// The lines of `ls` from `k` on, one under another from `pen`, each drawn only while it
/// fits above `canvas_h`; and where the pen ends.
pub open spec fn text_ops(
    ls: Seq<Seq<char>>,
    k: int,
    x: int,
    pen: int,
    line_h: int,
    canvas_h: int,
    style: TextStyle,
) -> (Seq<OpView>, int)
    decreases ls.len() - k,
{
    if k < 0 || k >= ls.len() {
        (seq![], pen)
    } else if pen + line_h > canvas_h {
        text_ops(ls, k + 1, x, pen, line_h, canvas_h, style)
    } else {
        let rest = text_ops(ls, k + 1, x, pen + line_h, line_h, canvas_h, style);
        (seq![OpView::Text { x, y: pen, style, text: ls[k] }] + rest.0, rest.1)
    }
}

/// A text block at (`x`, `y`): its wrapped lines, and its height (at least one line).
pub open spec fn text_block_s(
    text: Seq<char>,
    x: int,
    y: int,
    tm: TextMetrics,
    canvas_h: int,
    style: TextStyle,
) -> (Seq<OpView>, int) {
    let r = text_ops(text_lines_s(text, tm.max_chars as int), 0, x, y, tm.line_h as int, canvas_h, style);
    (r.0, if r.1 - y >= tm.line_h { r.1 - y } else { tm.line_h as int })
}

/// The lines of `ls` from `k` on, one under another from `pen`.
pub open spec fn panel_text_ops(ls: Seq<Seq<char>>, k: int, x: int, pen: int, line_h: int, style: TextStyle) -> Seq<OpView>
    decreases ls.len() - k,
{
    if k < 0 || k >= ls.len() {
        seq![]
    } else {
        seq![OpView::Text { x, y: pen, style, text: ls[k] }] + panel_text_ops(ls, k + 1, x, pen + line_h, line_h, style)
    }
}

/// A panel at (`x`, `y`), `w` wide: a filled, bordered rectangle around the padded lines
/// of `text`; and its height.
pub open spec fn panel_s(
    text: Seq<char>,
    x: int,
    y: int,
    w: int,
    tm: TextMetrics,
    style: TextStyle,
    border: [u8; 4],
) -> (Seq<OpView>, int) {
    let ls = panel_lines_s(text, tm.max_chars as int);
    let total = ls.len() * tm.line_h + tm.pad * 2;
    (
        seq![
            OpView::Fill { x, y, w, h: total, color: panel_color() },
            OpView::Border { x, y, w, h: total, color: border },
        ] + panel_text_ops(ls, 0, x + tm.pad, y + tm.pad, tm.line_h as int, style),
        total,
    )
}

// ───────────────────────────── blocks ─────────────────────────────

pub open spec fn output_hint_s() -> Seq<char> {
    "← output will appear here"@
}

/// How many lines a block shows.
pub open spec fn shown_lines(b: BlockView, m: SlideMetrics) -> nat {
    match b.kind {
        KindView::Heading { level } => text_lines_s(
            b.content,
            (if level == 1 {
                m.heading1
            } else {
                m.heading2
            }).max_chars as int,
        ).len(),
        KindView::Text => text_lines_s(b.content, m.text.max_chars as int).len(),
        KindView::Code { .. } => panel_lines_s(b.content, m.code.max_chars as int).len(),
        KindView::Exec { .. } => panel_lines_s("$ "@ + b.content, m.code.max_chars as int).len(),
        KindView::OutputPlaceholder => panel_lines_s(
            if b.content.len() == 0 {
                output_hint_s()
            } else {
                b.content
            },
            m.output.max_chars as int,
        ).len(),
        KindView::Separator => 0,
    }
}

/// The drawing of one block from `cursor` down, and where the next block starts: a heading
/// (underlined at level one), a text block indented by 20 pixels, code, exec and output
/// panels (an exec command after `$ `, an empty output area with a hint), a rule for a
/// separator; half a block gap follows each block.
pub open spec fn block_ops(b: BlockView, cursor: int, m: SlideMetrics) -> (Seq<OpView>, int) {
    let mx = m.margin_x as int;
    let cw = m.content_w as int;
    let ch = m.canvas_h as int;
    let r: (Seq<OpView>, int) = match b.kind {
        KindView::Heading { level } => {
            let tm = if level == 1 {
                m.heading1
            } else {
                m.heading2
            };
            let st = if level == 1 {
                TextStyle::Heading1
            } else {
                TextStyle::Heading2
            };
            let t = text_block_s(b.content, mx, cursor, tm, ch, st);
            let c1 = cursor + t.1;
            if level == 1 {
                let uy = if c1 < ch - 1 {
                    c1
                } else {
                    ch - 1
                };
                (t.0.push(OpView::HLine { x: mx, y: uy, w: cw, color: rule_color() }), c1 + 4 + m.line_gap_heading)
            } else {
                (t.0, c1 + m.line_gap_heading)
            }
        },
        KindView::Text => {
            let t = text_block_s(b.content, mx + 20, cursor, m.text, ch, TextStyle::Text);
            (t.0, cursor + t.1 + m.line_gap_body)
        },
        KindView::Code { .. } => {
            let p = panel_s(b.content, mx, cursor, cw, m.code, TextStyle::Code, rule_color());
            (p.0, cursor + p.1 + m.line_gap_body)
        },
        KindView::Exec { signature, .. } => {
            let p = panel_s(
                "$ "@ + b.content,
                mx,
                cursor,
                cw,
                m.code,
                TextStyle::Code,
                exec_border(signature is Some),
            );
            (p.0, cursor + p.1 + m.line_gap_body)
        },
        KindView::OutputPlaceholder => {
            let text = if b.content.len() == 0 {
                output_hint_s()
            } else {
                b.content
            };
            let p = panel_s(text, mx, cursor, cw, m.output, TextStyle::Output, rule_color());
            (p.0, cursor + p.1 + m.line_gap_body)
        },
        KindView::Separator => (
            seq![OpView::HLine { x: mx, y: cursor, w: cw, color: rule_color() }],
            cursor + m.block_gap,
        ),
    };
    (r.0, r.1 + m.block_gap / 2)
}

/// The drawing of the blocks from `i` on, starting at `cursor`; blocks that would start
/// below the canvas are left out.
pub open spec fn layout_from(bs: Seq<BlockView>, i: int, cursor: int, m: SlideMetrics) -> Seq<OpView>
    decreases bs.len() - i,
{
    if i < 0 || i >= bs.len() || cursor > m.canvas_h {
        seq![]
    } else {
        let r = block_ops(bs[i], cursor, m);
        r.0 + layout_from(bs, i + 1, r.1, m)
    }
}

/// The sizes are small enough for the layout's arithmetic: the metrics are at most 2^16
/// (the canvas and margins 2^32) and no block shows more than 2^40 lines.
pub open spec fn metrics_ok(m: SlideMetrics) -> bool {
    &&& 0 <= m.canvas_h <= 0x1_0000_0000
    &&& 0 <= m.margin_x <= 0x1_0000_0000
    &&& 0 <= m.top <= 0x1_0000_0000
    &&& 0 <= m.content_w <= 0x1_0000_0000
    &&& text_metrics_ok(m.heading1)
    &&& text_metrics_ok(m.heading2)
    &&& text_metrics_ok(m.text)
    &&& text_metrics_ok(m.code)
    &&& text_metrics_ok(m.output)
    &&& 0 <= m.line_gap_body <= 0x10000
    &&& 0 <= m.line_gap_heading <= 0x10000
    &&& 0 <= m.block_gap <= 0x10000
}

pub open spec fn text_metrics_ok(tm: TextMetrics) -> bool {
    0 <= tm.line_h <= 0x10000 && 0 <= tm.pad <= 0x10000
}

/// The most lines a block may show.
pub const LINE_LIMIT: u64 = 0x100_0000_0000;

// ───────────────────────────── building the drawing ─────────────────────────────

fn push_op(ops: &mut Vec<DrawOp>, op: DrawOp)
    ensures
        op_views(final(ops)@) == op_views(old(ops)@).push(op@),
{
    let ghost before = op_views(ops@);
    ops.push(op);
    assert(op_views(ops@) =~= before.push(op@));
}

/// Appends a text block at (`x`, `y`) and returns its height.
fn push_text_block(
    ops: &mut Vec<DrawOp>,
    text: &str,
    x: i64,
    y: i64,
    tm: TextMetrics,
    canvas_h: i64,
    style: TextStyle,
) -> (h: i64)
    requires
        0 <= x <= 0x4_0000_0000,
        0 <= y <= 0x1_0000_0000,
        0 <= canvas_h <= 0x1_0000_0000,
        text_metrics_ok(tm),
    ensures
        op_views(final(ops)@) == op_views(old(ops)@) + text_block_s(text@, x as int, y as int, tm, canvas_h as int, style).0,
        h == text_block_s(text@, x as int, y as int, tm, canvas_h as int, style).1,
        0 <= h <= 0x1_0000_0000 + 0x10000,
{
    let ls = text_lines(text, tm.max_chars);
    let ghost lsv = string_views(ls@);
    let ghost start = op_views(ops@);
    let ghost full = text_ops(lsv, 0, x as int, y as int, tm.line_h as int, canvas_h as int, style);
    let mut pen: i64 = y;
    let mut k: usize = 0;
    while k < ls.len()
        invariant
            lsv == string_views(ls@),
            lsv == text_lines_s(text@, tm.max_chars as int),
            k <= ls@.len(),
            text_metrics_ok(tm),
            0 <= canvas_h <= 0x1_0000_0000,
            0 <= y <= 0x1_0000_0000,
            y <= pen <= (if y >= canvas_h { y } else { canvas_h }),
            full == text_ops(lsv, 0, x as int, y as int, tm.line_h as int, canvas_h as int, style),
            op_views(ops@) + text_ops(lsv, k as int, x as int, pen as int, tm.line_h as int, canvas_h as int, style).0
                == start + full.0,
            text_ops(lsv, k as int, x as int, pen as int, tm.line_h as int, canvas_h as int, style).1 == full.1,
        decreases ls@.len() - k,
    {
        if pen + tm.line_h <= canvas_h {
            let line = crate::model::copy_string(&ls[k]);
            let ghost before = op_views(ops@);
            push_op(ops, DrawOp::Text { x, y: pen, style, text: line });
            assert(lsv[k as int] == ls@[k as int]@);
            pen = pen + tm.line_h;
        }
        k = k + 1;
    }
    assert(op_views(ops@) =~= start + full.0);
    if pen - y >= tm.line_h {
        pen - y
    } else {
        tm.line_h
    }
}

/// Appends a panel at (`x`, `y`), `w` wide, and returns its height.
fn push_panel(
    ops: &mut Vec<DrawOp>,
    text: &str,
    x: i64,
    y: i64,
    w: i64,
    tm: TextMetrics,
    style: TextStyle,
    border: [u8; 4],
) -> (h: i64)
    requires
        0 <= x <= 0x1_0000_0000,
        0 <= y <= 0x1_0000_0000,
        0 <= w <= 0x1_0000_0000,
        text_metrics_ok(tm),
        panel_lines_s(text@, tm.max_chars as int).len() <= LINE_LIMIT,
    ensures
        op_views(final(ops)@) == op_views(old(ops)@) + panel_s(text@, x as int, y as int, w as int, tm, style, border).0,
        h == panel_s(text@, x as int, y as int, w as int, tm, style, border).1,
        0 <= h <= 0x100_0000_0000_0000 + 0x20000,
{
    let ls = panel_lines(text, tm.max_chars);
    let ghost lsv = string_views(ls@);
    let n: u64 = ls.len() as u64;
    assert(n * tm.line_h <= 0x100_0000_0000_0000) by (nonlinear_arith)
        requires
            n <= 0x100_0000_0000,
            0 <= tm.line_h <= 0x10000,
    ;
    assert(n * tm.line_h >= 0) by (nonlinear_arith)
        requires
            0 <= tm.line_h,
    ;
    let total: i64 = (n as i64) * tm.line_h + tm.pad * 2;
    let ghost start = op_views(ops@);
    push_op(ops, DrawOp::Fill { x, y, w, h: total, color: [24, 24, 24, 255] });
    push_op(ops, DrawOp::Border { x, y, w, h: total, color: border });
    proof {
        assert([24u8, 24, 24, 255] =~= panel_color());
    }
    let ghost head = op_views(ops@);
    let tx = x + tm.pad;
    let mut pen: i64 = y + tm.pad;
    let mut k: usize = 0;
    while k < ls.len()
        invariant
            lsv == string_views(ls@),
            n == ls@.len(),
            k <= ls@.len(),
            text_metrics_ok(tm),
            0 <= y <= 0x1_0000_0000,
            n * tm.line_h <= 0x100_0000_0000_0000,
            pen - (y + tm.pad) == k * tm.line_h,
            op_views(ops@) + panel_text_ops(lsv, k as int, tx as int, pen as int, tm.line_h as int, style)
                == head + panel_text_ops(lsv, 0, tx as int, y + tm.pad, tm.line_h as int, style),
        decreases ls@.len() - k,
    {
        assert(k * tm.line_h <= n * tm.line_h) by (nonlinear_arith)
            requires
                k < n,
                0 <= tm.line_h,
        ;
        let line = crate::model::copy_string(&ls[k]);
        push_op(ops, DrawOp::Text { x: tx, y: pen, style, text: line });
        assert(lsv[k as int] == ls@[k as int]@);
        pen = pen + tm.line_h;
        k = k + 1;
        assert(pen - (y + tm.pad) == k * tm.line_h) by (nonlinear_arith)
            requires
                pen - tm.line_h - (y + tm.pad) == (k - 1) * tm.line_h,
        ;
    }
    assert(op_views(ops@) =~= start + panel_s(text@, x as int, y as int, w as int, tm, style, border).0);
    total
}

/// The characters `$ ` and then `content`.
fn command_text(content: &str) -> (r: String)
    ensures
        r@ == "$ "@ + content@,
{
    let mut cs: Vec<char> = Vec::new();
    push_str(&mut cs, "$ ");
    extend_chars(&mut cs, chars_of(content).as_slice());
    string_from(cs.as_slice())
}

/// Appends the drawing of one block starting at `cursor` and returns where the next starts.
fn push_block(ops: &mut Vec<DrawOp>, b: &Block, cursor: i64, m: &SlideMetrics) -> (next: i64)
    requires
        metrics_ok(*m),
        0 <= cursor <= m.canvas_h,
        shown_lines(b@, *m) <= LINE_LIMIT,
    ensures
        op_views(final(ops)@) == op_views(old(ops)@) + block_ops(b@, cursor as int, *m).0,
        next == block_ops(b@, cursor as int, *m).1,
        cursor <= next <= 0x1_0000_0000 + 0x100_0000_0000_0000 + 0x80000,
{
    let mx = m.margin_x;
    let cw = m.content_w;
    let ch = m.canvas_h;
    let next = match &b.kind {
        BlockKind::Heading { level } => {
            let tm = if *level == 1 {
                m.heading1
            } else {
                m.heading2
            };
            let st = if *level == 1 {
                TextStyle::Heading1
            } else {
                TextStyle::Heading2
            };
            let h = push_text_block(ops, b.content.as_str(), mx, cursor, tm, ch, st);
            let c1 = cursor + h;
            if *level == 1 {
                let uy = if c1 < ch - 1 {
                    c1
                } else {
                    ch - 1
                };
                push_op(ops, DrawOp::HLine { x: mx, y: uy, w: cw, color: [42, 42, 42, 255] });
                proof {
                    assert([42u8, 42, 42, 255] =~= rule_color());
                }
                c1 + 4 + m.line_gap_heading
            } else {
                c1 + m.line_gap_heading
            }
        },
        BlockKind::Text => {
            let h = push_text_block(ops, b.content.as_str(), mx + 20, cursor, m.text, ch, TextStyle::Text);
            cursor + h + m.line_gap_body
        },
        BlockKind::Code { .. } => {
            let h = push_panel(ops, b.content.as_str(), mx, cursor, cw, m.code, TextStyle::Code, [42, 42, 42, 255]);
            proof {
                assert([42u8, 42, 42, 255] =~= rule_color());
            }
            cursor + h + m.line_gap_body
        },
        BlockKind::Exec { signature, .. } => {
            let text = command_text(b.content.as_str());
            let border: [u8; 4] = if signature.is_some() {
                [106, 176, 76, 255]
            } else {
                [255, 107, 107, 255]
            };
            proof {
                assert(border =~= exec_border(signature is Some));
            }
            let h = push_panel(ops, text.as_str(), mx, cursor, cw, m.code, TextStyle::Code, border);
            cursor + h + m.line_gap_body
        },
        BlockKind::OutputPlaceholder => {
            let empty = chars_of(b.content.as_str()).len() == 0;
            let text = if empty {
                crate::model::owned("← output will appear here")
            } else {
                crate::model::copy_string(&b.content)
            };
            let h = push_panel(ops, text.as_str(), mx, cursor, cw, m.output, TextStyle::Output, [42, 42, 42, 255]);
            proof {
                assert([42u8, 42, 42, 255] =~= rule_color());
            }
            cursor + h + m.line_gap_body
        },
        BlockKind::Separator => {
            push_op(ops, DrawOp::HLine { x: mx, y: cursor, w: cw, color: [42, 42, 42, 255] });
            proof {
                assert([42u8, 42, 42, 255] =~= rule_color());
            }
            cursor + m.block_gap
        },
    };
    next + m.block_gap / 2
}

/// Where every part of a slide with blocks `blocks` goes on a frame laid out with `m`:
/// blocks one under another from `m.top`, leaving out those that would start below the
/// canvas.
pub fn layout_slide(blocks: &Vec<Block>, m: &SlideMetrics) -> (r: Vec<DrawOp>)
    requires
        metrics_ok(*m),
        forall|i: int| 0 <= i < blocks@.len() ==> shown_lines(#[trigger] blocks@[i]@, *m) <= LINE_LIMIT,
    ensures
        op_views(r@) == layout_from(crate::model::block_views(blocks@), 0, m.top as int, *m),
{
    let ghost bs = crate::model::block_views(blocks@);
    let mut ops: Vec<DrawOp> = Vec::new();
    let mut cursor: i64 = m.top;
    let mut i: usize = 0;
    while i < blocks.len()
        invariant
            bs == crate::model::block_views(blocks@),
            metrics_ok(*m),
            forall|j: int| 0 <= j < blocks@.len() ==> shown_lines(#[trigger] blocks@[j]@, *m) <= LINE_LIMIT,
            i <= blocks@.len(),
            0 <= cursor,
            i < blocks@.len() ==> cursor <= 0x1_0000_0000 + 0x100_0000_0000_0000 + 0x80000,
            op_views(ops@) + layout_from(bs, i as int, cursor as int, *m) == layout_from(bs, 0, m.top as int, *m),
        decreases blocks@.len() - i,
    {
        if cursor > m.canvas_h {
            assert(layout_from(bs, i as int, cursor as int, *m) =~= Seq::<OpView>::empty());
            assert(op_views(ops@) =~= layout_from(bs, 0, m.top as int, *m));
            return ops;
        }
        let ghost before = op_views(ops@);
        assert(bs[i as int] == blocks@[i as int]@);
        let next = push_block(&mut ops, &blocks[i], cursor, m);
        assert(before + layout_from(bs, i as int, cursor as int, *m) =~= op_views(ops@) + layout_from(bs, i + 1, next as int, *m));
        cursor = next;
        i = i + 1;
    }
    assert(layout_from(bs, i as int, cursor as int, *m) =~= Seq::<OpView>::empty());
    assert(op_views(ops@) =~= layout_from(bs, 0, m.top as int, *m));
    ops
}

/// The panel of an exec block is outlined in green when the block is signed and in red
/// when it is not: its second drawing operation is that border, around the whole panel.
pub proof fn law_exec_border_shows_signature(b: BlockView, cursor: int, m: SlideMetrics)
    requires
        b.kind is Exec,
    ensures
        block_ops(b, cursor, m).0.len() >= 2,
        block_ops(b, cursor, m).0[1] matches OpView::Border { color, .. } && (if b.kind->signature is Some {
            color == [106u8, 176u8, 76u8, 255u8]
        } else {
            color == [255u8, 107u8, 107u8, 255u8]
        }),
{
}

/// A signed and an unsigned exec block with the same command differ in the colour of
/// their panel's border, and in nothing else of their drawing.
pub proof fn law_signed_and_unsigned_borders_differ(
    lang: Seq<char>,
    sig: Seq<char>,
    id: u64,
    content: Seq<char>,
    cursor: int,
    m: SlideMetrics,
)
    ensures
        ({
            let signed = BlockView { id, kind: KindView::Exec { lang, signature: Some(sig) }, content };
            let unsigned = BlockView { id, kind: KindView::Exec { lang, signature: None }, content };
            let a = block_ops(signed, cursor, m);
            let b = block_ops(unsigned, cursor, m);
            &&& a.1 == b.1
            &&& a.0.len() == b.0.len()
            &&& a.0[1] != b.0[1]
            &&& forall|k: int| 0 <= k < a.0.len() && k != 1 ==> #[trigger] a.0[k] == b.0[k]
        }),
{
    let signed = BlockView { id, kind: KindView::Exec { lang, signature: Some(sig) }, content };
    let unsigned = BlockView { id, kind: KindView::Exec { lang, signature: None }, content };
    law_exec_border_shows_signature(signed, cursor, m);
    law_exec_border_shows_signature(unsigned, cursor, m);
    let a = block_ops(signed, cursor, m);
    let b = block_ops(unsigned, cursor, m);
    assert([106u8, 176u8, 76u8, 255u8][0] != [255u8, 107u8, 107u8, 255u8][0]);
}

} // verus!
