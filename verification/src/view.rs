//! What the terminal views show, decided apart from how they are drawn: the lines of the
//! full-screen presentation view, block heights, labels and shortened titles.
use vstd::prelude::*;
use crate::app::AppMode;
use crate::model::{Block, BlockKind, BlockView, KindView, Slide};
use crate::text::{chars_of, lines, push_str, split_lines, string_from, views, extend_chars};

verus! {

// ───────────────────────────── shortening ─────────────────────────────

/// `s` when it has at most `max` characters; otherwise its first `max - 1` characters and
/// an ellipsis.
pub open spec fn truncate_s(s: Seq<char>, max: int) -> Seq<char> {
    if s.len() <= max {
        s
    } else {
        s.take(max - 1).push('…')
    }
}

/// Shortens `s` to at most `max_chars` characters, marking a cut with an ellipsis.
pub fn truncate(s: &str, max_chars: usize) -> (r: String)
    requires
        max_chars >= 1 || s@.len() == 0,
    ensures
        r@ == truncate_s(s@, max_chars as int),
{
    let chars = chars_of(s);
    if chars.len() <= max_chars {
        string_from(chars.as_slice())
    } else {
        let mut out: Vec<char> = Vec::new();
        let mut i: usize = 0;
        while i < max_chars - 1
            invariant
                max_chars >= 1,
                max_chars - 1 < chars@.len(),
                i <= max_chars - 1,
                out@ == chars@.take(i as int),
            decreases max_chars - 1 - i,
        {
            out.push(chars[i]);
            i = i + 1;
            assert(out@ =~= chars@.take(i as int));
        }
        out.push('…');
        string_from(out.as_slice())
    }
}

// ───────────────────────────── block heights in the editor ─────────────────────────────

/// The rows a block takes in the editor's canvas: headings and output areas three, a
/// separator one, any other block its line count plus its byte length over the width
/// (both counted modulo 2^16) plus two, at most eight.
pub open spec fn block_height_s(kind: KindView, content: Seq<char>, byte_len: nat, width: u16) -> int {
    match kind {
        KindView::Heading { .. } => 3,
        KindView::OutputPlaceholder => 3,
        KindView::Separator => 1,
        _ => {
            let n = lines(content).len() as int;
            let line_rows: int = if n >= 1 { n } else { 1 };
            let w: int = if width >= 1 { width as int } else { 1 };
            let h: int = (line_rows % 0x10000) + (byte_len as int % 0x10000) / w + 2;
            if h < 8 {
                h
            } else {
                8
            }
        },
    }
}

/// The rows that `block`, showing `content`, takes in a canvas `width` cells wide.
pub fn estimate_block_height(block: &Block, content: &str, width: u16) -> (r: u16)
    requires
        (if lines(content@).len() >= 1 {
            lines(content@).len() as int
        } else {
            1
        }) % 0x10000 + vstd::utf8::encode_utf8(content@).len() % 0x10000 + 2 <= u16::MAX,
    ensures
        r == block_height_s(block.kind@, content@, vstd::utf8::encode_utf8(content@).len(), width),
{
    match &block.kind {
        BlockKind::Heading { .. } => 3,
        BlockKind::OutputPlaceholder => 3,
        BlockKind::Separator => 1,
        _ => {
            let cs = chars_of(content);
            let ls = split_lines(cs.as_slice());
            let n: usize = if ls.len() >= 1 {
                ls.len()
            } else {
                1
            };
            let byte_len: usize = content.as_bytes().len();
            let line_rows: u16 = (n % 0x10000) as u16;
            let bytes16: u16 = (byte_len % 0x10000) as u16;
            let w: u16 = if width >= 1 {
                width
            } else {
                1
            };
            let wrapped: u16 = bytes16 / w;
            assert(wrapped <= bytes16);
            let h: u16 = line_rows + wrapped + 2;
            if h < 8 {
                h
            } else {
                8
            }
        },
    }
}

// ───────────────────────────── the presentation view ─────────────────────────────

/// How a line of the presentation view is drawn.
#[derive(Debug, Clone, Copy, PartialEq, Eq, Structural)]
pub enum PresentTone {
    /// A level-one heading.
    Title,
    /// A heading of a lower level.
    Subtitle,
    Body,
    /// The header of a code block.
    CodeHeader,
    /// The header of an exec block.
    ExecHeader,
    Code,
    /// The label above a command's output.
    OutputLabel,
    Output,
    /// A separator line.
    Rule,
    /// The empty line after a block.
    Blank,
}

/// One line of the presentation view.
pub struct StyledLine {
    pub text: String,
    pub tone: PresentTone,
}

pub open spec fn styled(v: Seq<StyledLine>) -> Seq<(Seq<char>, PresentTone)> {
    v.map_values(|l: StyledLine| (l.text@, l.tone))
}

/// Each of `ls` behind `prefix`, in `tone`.
pub open spec fn prefixed(prefix: Seq<char>, ls: Seq<Seq<char>>, tone: PresentTone) -> Seq<(Seq<char>, PresentTone)> {
    ls.map_values(|l: Seq<char>| (prefix + l, tone))
}

pub open spec fn blank_line() -> (Seq<char>, PresentTone) {
    (seq![], PresentTone::Blank)
}

/// The indentation of a heading of `level`.
pub open spec fn heading_indent(level: u8) -> Seq<char> {
    if level == 1 {
        seq![]
    } else if level == 2 {
        "  "@
    } else {
        "    "@
    }
}

/// The lines that one block adds to the presentation view: a heading indented by level;
/// text indented; code and exec blocks under a header line; a command's output (at most
/// ten lines) under a label when there is any; a rule for a separator. A blank line
/// follows each block, except an empty output area, which adds nothing.
pub open spec fn block_present_lines(b: BlockView) -> Seq<(Seq<char>, PresentTone)> {
    match b.kind {
        KindView::Heading { level } => seq![
            (heading_indent(level) + b.content, if level == 1 {
                PresentTone::Title
            } else {
                PresentTone::Subtitle
            }),
            blank_line(),
        ],
        KindView::Text => prefixed("  "@, lines(b.content), PresentTone::Body).push(blank_line()),
        KindView::Code { lang } => seq![("  "@ + lang + " "@, PresentTone::CodeHeader)]
            + prefixed("    "@, lines(b.content), PresentTone::Code).push(blank_line()),
        KindView::Exec { .. } => seq![("  ▶ exec "@, PresentTone::ExecHeader)] + prefixed(
            "    "@,
            lines(b.content),
            PresentTone::Code,
        ).push(blank_line()),
        KindView::OutputPlaceholder => if b.content.len() == 0 {
            seq![]
        } else {
            seq![("  [出力]"@, PresentTone::OutputLabel)] + prefixed(
                "    "@,
                lines(b.content).take(
                    if lines(b.content).len() < 10 {
                        lines(b.content).len() as int
                    } else {
                        10
                    },
                ),
                PresentTone::Output,
            ).push(blank_line())
        },
        KindView::Separator => seq![("  ────────────────────────"@, PresentTone::Rule), blank_line()],
    }
}

/// The lines of the presentation view of a slide with blocks `bs`.
pub open spec fn present_lines_s(bs: Seq<BlockView>) -> Seq<(Seq<char>, PresentTone)>
    decreases bs.len(),
{
    if bs.len() == 0 {
        seq![]
    } else {
        present_lines_s(bs.drop_last()) + block_present_lines(bs.last())
    }
}

fn push_line(out: &mut Vec<StyledLine>, text: Vec<char>, tone: PresentTone)
    ensures
        styled(final(out)@) == styled(old(out)@).push((text@, tone)),
{
    let ghost before = styled(out@);
    out.push(StyledLine { text: string_from(text.as_slice()), tone });
    assert(styled(out@) =~= before.push((text@, tone)));
}

fn push_static(out: &mut Vec<StyledLine>, text: &str, tone: PresentTone)
    ensures
        styled(final(out)@) == styled(old(out)@).push((text@, tone)),
{
    let mut cs: Vec<char> = Vec::new();
    push_str(&mut cs, text);
    push_line(out, cs, tone);
}

/// Appends the first `n` of `ls`, each behind `prefix`, in `tone`.
fn push_prefixed(out: &mut Vec<StyledLine>, prefix: &str, ls: &Vec<Vec<char>>, n: usize, tone: PresentTone)
    requires
        n <= ls@.len(),
    ensures
        styled(final(out)@) == styled(old(out)@) + prefixed(prefix@, views(ls@).take(n as int), tone),
{
    let ghost start = styled(out@);
    let mut i: usize = 0;
    while i < n
        invariant
            n <= ls@.len(),
            i <= n,
            styled(out@) == start + prefixed(prefix@, views(ls@).take(i as int), tone),
        decreases n - i,
    {
        let mut cs: Vec<char> = Vec::new();
        push_str(&mut cs, prefix);
        extend_chars(&mut cs, ls[i].as_slice());
        push_line(out, cs, tone);
        assert(prefixed(prefix@, views(ls@).take(i + 1), tone) =~= prefixed(
            prefix@,
            views(ls@).take(i as int),
            tone,
        ).push((prefix@ + ls@[i as int]@, tone)));
        i = i + 1;
    }
}

fn push_block_lines(out: &mut Vec<StyledLine>, b: &Block)
    ensures
        styled(final(out)@) == styled(old(out)@) + block_present_lines(b@),
{
    let ghost start = styled(out@);
    match &b.kind {
        BlockKind::Heading { level } => {
            let mut cs: Vec<char> = Vec::new();
            if *level == 2 {
                push_str(&mut cs, "  ");
            } else if *level != 1 {
                push_str(&mut cs, "    ");
            }
            extend_chars(&mut cs, chars_of(b.content.as_str()).as_slice());
            proof {
                reveal_strlit("  ");
                reveal_strlit("    ");
                assert(cs@ =~= heading_indent(*level) + b.content@);
            }
            push_line(out, cs, if *level == 1 {
                PresentTone::Title
            } else {
                PresentTone::Subtitle
            });
            push_line(out, Vec::new(), PresentTone::Blank);
        },
        BlockKind::Text => {
            let ls = split_lines(chars_of(b.content.as_str()).as_slice());
            push_prefixed(out, "  ", &ls, ls.len(), PresentTone::Body);
            assert(views(ls@).take(ls@.len() as int) =~= views(ls@));
            push_line(out, Vec::new(), PresentTone::Blank);
        },
        BlockKind::Code { lang } => {
            let mut cs: Vec<char> = Vec::new();
            push_str(&mut cs, "  ");
            extend_chars(&mut cs, chars_of(lang.as_str()).as_slice());
            push_str(&mut cs, " ");
            push_line(out, cs, PresentTone::CodeHeader);
            let ls = split_lines(chars_of(b.content.as_str()).as_slice());
            push_prefixed(out, "    ", &ls, ls.len(), PresentTone::Code);
            assert(views(ls@).take(ls@.len() as int) =~= views(ls@));
            push_line(out, Vec::new(), PresentTone::Blank);
        },
        BlockKind::Exec { .. } => {
            push_static(out, "  ▶ exec ", PresentTone::ExecHeader);
            let ls = split_lines(chars_of(b.content.as_str()).as_slice());
            push_prefixed(out, "    ", &ls, ls.len(), PresentTone::Code);
            assert(views(ls@).take(ls@.len() as int) =~= views(ls@));
            push_line(out, Vec::new(), PresentTone::Blank);
        },
        BlockKind::OutputPlaceholder => {
            let cs = chars_of(b.content.as_str());
            if cs.len() > 0 {
                push_static(out, "  [出力]", PresentTone::OutputLabel);
                let ls = split_lines(cs.as_slice());
                let n: usize = if ls.len() < 10 {
                    ls.len()
                } else {
                    10
                };
                push_prefixed(out, "    ", &ls, n, PresentTone::Output);
                push_line(out, Vec::new(), PresentTone::Blank);
            }
        },
        BlockKind::Separator => {
            push_static(out, "  ────────────────────────", PresentTone::Rule);
            push_line(out, Vec::new(), PresentTone::Blank);
        },
    }
    assert(styled(out@) =~= start + block_present_lines(b@));
}

/// The lines of the full-screen presentation view of `slide`, each with how to draw it.
pub fn present_lines(slide: &Slide) -> (r: Vec<StyledLine>)
    ensures
        styled(r@) == present_lines_s(slide@.blocks),
{
    let mut out: Vec<StyledLine> = Vec::new();
    let mut i: usize = 0;
    let ghost bs = slide@.blocks;
    assert(styled(out@) =~= present_lines_s(bs.take(0)));
    while i < slide.blocks.len()
        invariant
            i <= slide.blocks@.len(),
            bs == slide@.blocks,
            bs.len() == slide.blocks@.len(),
            styled(out@) == present_lines_s(bs.take(i as int)),
        decreases slide.blocks@.len() - i,
    {
        push_block_lines(&mut out, &slide.blocks[i]);
        assert(bs.take(i + 1).drop_last() =~= bs.take(i as int));
        assert(bs[i as int] == slide.blocks@[i as int]@);
        i = i + 1;
    }
    assert(bs.take(i as int) =~= bs);
    out
}

// ───────────────────────────── labels ─────────────────────────────

/// The name of a mode in the status bar.
pub fn mode_label(mode: AppMode) -> (r: &'static str)
    ensures
        r@ == match mode {
            AppMode::Normal => "編集モード"@,
            AppMode::EditingBlock => "テキスト編集"@,
            AppMode::BlockPicker => "ブロック追加"@,
            AppMode::ExecConfirm => "実行確認"@,
            AppMode::Present => "プレゼン"@,
            AppMode::PresentExecConfirm => "実行確認"@,
        },
{
    match mode {
        AppMode::Normal => "編集モード",
        AppMode::EditingBlock => "テキスト編集",
        AppMode::BlockPicker => "ブロック追加",
        AppMode::ExecConfirm => "実行確認",
        AppMode::Present => "プレゼン",
        AppMode::PresentExecConfirm => "実行確認",
    }
}

/// The icon of a slide in the sidebar: a play mark when it holds an exec block, otherwise
/// the level of a heading that opens it.
pub open spec fn slide_icon_s(blocks: Seq<BlockView>) -> Seq<char> {
    if crate::model::count_exec(blocks) > 0 {
        "▶"@
    } else if blocks.len() > 0 && blocks[0].kind == (KindView::Heading { level: 1 }) {
        "H1"@
    } else if blocks.len() > 0 && blocks[0].kind == (KindView::Heading { level: 2 }) {
        "H2"@
    } else {
        " ≡"@
    }
}

pub fn slide_icon(slide: &Slide) -> (r: &'static str)
    ensures
        r@ == slide_icon_s(slide@.blocks),
{
    if slide.exec_count() > 0 {
        return "▶";
    }
    if slide.blocks.len() > 0 {
        match &slide.blocks[0].kind {
            BlockKind::Heading { level } => {
                if *level == 1 {
                    return "H1";
                } else if *level == 2 {
                    return "H2";
                }
            },
            _ => {},
        }
    }
    " ≡"
}

// ───────────────────────────── blocks in the editor ─────────────────────────────

pub open spec fn rgb(r: u8, g: u8, b: u8) -> [u8; 3] {
    [r, g, b]
}

/// The background and border colours of a block in the editor: exec blocks are green (a
/// selected unsigned one has a warning border), output areas plain, others blue when
/// selected.
pub open spec fn block_colors_s(kind: KindView, selected: bool) -> ([u8; 3], [u8; 3]) {
    match kind {
        KindView::Exec { signature, .. } => if selected {
            (rgb(20, 50, 20), if signature is Some {
                rgb(106, 176, 76)
            } else {
                rgb(255, 107, 107)
            })
        } else {
            (rgb(20, 40, 20), rgb(58, 90, 42))
        },
        KindView::OutputPlaceholder => (rgb(36, 36, 36), rgb(42, 42, 42)),
        _ => if selected {
            (rgb(20, 30, 50), rgb(74, 158, 255))
        } else {
            (rgb(36, 36, 36), rgb(42, 42, 42))
        },
    }
}

/// The background and border colours (RGB) of a block of `kind` in the editor.
pub fn block_colors(kind: &BlockKind, selected: bool) -> (r: ([u8; 3], [u8; 3]))
    ensures
        r == block_colors_s(kind@, selected),
{
    let r = match kind {
        BlockKind::Exec { signature, .. } => {
            if selected {
                ([20, 50, 20], if signature.is_some() {
                    [106, 176, 76]
                } else {
                    [255, 107, 107]
                })
            } else {
                ([20, 40, 20], [58, 90, 42])
            }
        },
        BlockKind::OutputPlaceholder => ([36, 36, 36], [42, 42, 42]),
        _ => {
            if selected {
                ([20, 30, 50], [74, 158, 255])
            } else {
                ([36, 36, 36], [42, 42, 42])
            }
        },
    };
    assert(r.0 =~= block_colors_s(kind@, selected).0);
    assert(r.1 =~= block_colors_s(kind@, selected).1);
    r
}

pub open spec fn output_hint() -> Seq<char> {
    "← 実行時にここに stdout が表示されます"@
}

/// The text shown inside a block in the editor: the content, with a cursor mark while it
/// is edited; an exec block's command after a space; a hint in an empty output area; a
/// rule `width` cells long for a separator.
pub open spec fn block_body_s(kind: KindView, content: Seq<char>, editing: bool, width: nat) -> Seq<char> {
    match kind {
        KindView::Exec { .. } => " "@ + content,
        KindView::OutputPlaceholder => if content.len() == 0 {
            output_hint()
        } else {
            content
        },
        KindView::Separator => Seq::new(width, |i: int| '─'),
        _ => if editing {
            content.push('▋')
        } else {
            content
        },
    }
}

pub fn block_body(kind: &BlockKind, content: &str, editing: bool, width: u16) -> (r: String)
    ensures
        r@ == block_body_s(kind@, content@, editing, width as nat),
{
    let cs = chars_of(content);
    match kind {
        BlockKind::Exec { .. } => {
            let mut out: Vec<char> = Vec::new();
            out.push(' ');
            extend_chars(&mut out, cs.as_slice());
            proof {
                reveal_strlit(" ");
                assert(out@ =~= " "@ + content@);
            }
            string_from(out.as_slice())
        },
        BlockKind::OutputPlaceholder => {
            if cs.len() == 0 {
                crate::model::owned("← 実行時にここに stdout が表示されます")
            } else {
                string_from(cs.as_slice())
            }
        },
        BlockKind::Separator => {
            let mut out: Vec<char> = Vec::new();
            let mut i: u16 = 0;
            while i < width
                invariant
                    i <= width,
                    out@ == Seq::new(i as nat, |j: int| '─'),
                decreases width - i,
            {
                out.push('─');
                i = i + 1;
                assert(out@ =~= Seq::new(i as nat, |j: int| '─'));
            }
            string_from(out.as_slice())
        },
        _ => {
            let mut out = cs;
            if editing {
                out.push('▋');
            }
            string_from(out.as_slice())
        },
    }
}

} // verus!
