//! The editor's state and every operation that changes it.
use std::collections::HashMap;
use vstd::prelude::*;
use vstd::utf8::{decode_utf8, encode_utf8, is_char_boundary};
use crate::model::{
    copy_string, is_exec_kind, is_signed_kind, opt_view, owned, Block, BlockKind, BlockView,
    KindView, Presentation, PresentationView, Slide, SlideView, block_views, slide_views,
};
use crate::markdown::{
    law_full_reveal, plain_lines, reveal_count_s, reveal_marker_count, visible_reveal_content, visible_s,
};
use crate::text::{
    chars_of, extend_chars, hex, join_nl, lines, push_hex, push_str, string_from, trim, trim_s,
};

verus! {

/// What the editor is doing.
#[derive(Debug, Clone, Copy, PartialEq, Eq, Structural)]
pub enum AppMode {
    /// Moving between slides and blocks.
    Normal,
    /// Editing the text of the selected block.
    EditingBlock,
    /// Choosing the kind of a block to add.
    BlockPicker,
    /// Asking whether to run the selected exec block.
    ExecConfirm,
    /// Showing the slides full screen.
    Present,
    /// Asking, while presenting, whether to run the selected exec block.
    PresentExecConfirm,
}

/// The colour scheme of the editor.
#[derive(Debug, Clone, Copy, PartialEq, Eq, Structural)]
pub enum UiTheme {
    Dark,
    HighContrast,
}

/// The accent colour of the editor.
#[derive(Debug, Clone, Copy, PartialEq, Eq, Structural)]
pub enum AccentColor {
    Blue,
    Pink,
}

/// How a command started from an exec block stands.
#[derive(Debug, Clone, Copy, PartialEq, Eq, Structural)]
pub enum ExecStatus {
    Running,
    Completed(i32),
    Failed(i32),
    Cancelled,
    SpawnError,
}

/// A command started from an exec block, with what it printed so far.
pub struct RunningExec {
    pub slide_idx: usize,
    pub buffer: String,
    pub scroll: usize,
    pub status: ExecStatus,
    pub notified: bool,
}

/// The mathematical model of a [`RunningExec`].
pub struct RunningExecView {
    pub slide_idx: usize,
    pub buffer: Seq<char>,
    pub scroll: usize,
    pub status: ExecStatus,
    pub notified: bool,
}

impl View for RunningExec {
    type V = RunningExecView;

    open spec fn view(&self) -> RunningExecView {
        RunningExecView {
            slide_idx: self.slide_idx,
            buffer: self.buffer@,
            scroll: self.scroll,
            status: self.status,
            notified: self.notified,
        }
    }
}

/// The editor.
pub struct App {
    pub presentation: Presentation,
    pub current_slide: usize,
    pub selected_block: Option<usize>,
    pub mode: AppMode,
    pub edit_buffer: String,
    /// A byte offset into `edit_buffer`.
    pub edit_cursor: usize,
    pub status_message: Option<String>,
    pub next_block_id: u64,
    /// What each exec block printed when it was last run, by block id.
    pub exec_outputs: HashMap<u64, String>,
    pub ui_theme: UiTheme,
    pub accent_color: AccentColor,
    pub running_exec: Option<RunningExec>,
    /// How many staged reveal steps of the slide being shown are revealed.
    pub reveal_step: usize,
}

/// The mathematical model of an [`App`].
pub struct AppView {
    pub presentation: PresentationView,
    pub current_slide: usize,
    pub selected_block: Option<usize>,
    pub mode: AppMode,
    pub edit_buffer: Seq<char>,
    pub edit_cursor: usize,
    pub status_message: Option<Seq<char>>,
    pub next_block_id: u64,
    pub exec_outputs: Map<u64, String>,
    pub ui_theme: UiTheme,
    pub accent_color: AccentColor,
    pub running_exec: Option<RunningExecView>,
    pub reveal_step: usize,
}

pub open spec fn running_view(r: Option<RunningExec>) -> Option<RunningExecView> {
    match r {
        Some(x) => Some(x@),
        None => None,
    }
}

impl View for App {
    type V = AppView;

    open spec fn view(&self) -> AppView {
        AppView {
            presentation: self.presentation@,
            current_slide: self.current_slide,
            selected_block: self.selected_block,
            mode: self.mode,
            edit_buffer: self.edit_buffer@,
            edit_cursor: self.edit_cursor,
            status_message: opt_view(self.status_message),
            next_block_id: self.next_block_id,
            exec_outputs: self.exec_outputs@,
            ui_theme: self.ui_theme,
            accent_color: self.accent_color,
            running_exec: running_view(self.running_exec),
            reveal_step: self.reveal_step,
        }
    }
}

// ───────────────────────────── the model of the editor ─────────────────────────────

/// The editor shows an existing slide.
pub open spec fn wf(v: AppView) -> bool {
    v.current_slide < v.presentation.slides.len()
}

/// The slide being shown.
pub open spec fn cur(v: AppView) -> SlideView {
    v.presentation.slides[v.current_slide as int]
}

/// The selection, if any, names a block of the slide being shown.
pub open spec fn sel_valid(v: AppView) -> bool {
    match v.selected_block {
        None => true,
        Some(i) => i < cur(v).blocks.len(),
    }
}

/// `v` with the slide being shown replaced by `s`.
pub open spec fn with_cur(v: AppView, s: SlideView) -> AppView {
    AppView {
        presentation: PresentationView {
            slides: v.presentation.slides.update(v.current_slide as int, s),
            ..v.presentation
        },
        ..v
    }
}

/// `v` showing slide `c`, with its first block (if any) selected and nothing of it
/// revealed yet.
pub open spec fn show_slide(v: AppView, c: usize) -> AppView {
    AppView {
        current_slide: c,
        reveal_step: 0,
        selected_block: if v.presentation.slides[c as int].blocks.len() == 0 {
            None
        } else {
            Some(0)
        },
        ..v
    }
}

pub open spec fn prev_slide_s(v: AppView) -> AppView {
    if v.current_slide > 0 {
        show_slide(v, (v.current_slide - 1) as usize)
    } else {
        v
    }
}

pub open spec fn next_slide_s(v: AppView) -> AppView {
    if v.current_slide + 1 < v.presentation.slides.len() {
        show_slide(v, (v.current_slide + 1) as usize)
    } else {
        v
    }
}

pub open spec fn go_to_slide_s(v: AppView, idx: usize) -> AppView {
    if idx < v.presentation.slides.len() {
        show_slide(v, idx)
    } else {
        v
    }
}

pub open spec fn prev_block_s(v: AppView) -> AppView {
    match v.selected_block {
        Some(s) => if s > 0 {
            AppView { selected_block: Some((s - 1) as usize), ..v }
        } else {
            v
        },
        None => v,
    }
}

pub open spec fn next_block_s(v: AppView) -> AppView {
    let len = cur(v).blocks.len();
    match v.selected_block {
        Some(s) => if s + 1 < len {
            AppView { selected_block: Some((s + 1) as usize), ..v }
        } else {
            v
        },
        None => if len > 0 {
            AppView { selected_block: Some(0), ..v }
        } else {
            v
        },
    }
}

/// The UTF-8 bytes of the edit buffer.
pub open spec fn buffer_bytes(v: AppView) -> Seq<u8> {
    encode_utf8(v.edit_buffer)
}

pub open spec fn start_edit_s(v: AppView) -> AppView {
    match v.selected_block {
        Some(s) => {
            let content = cur(v).blocks[s as int].content;
            AppView {
                edit_buffer: content,
                edit_cursor: encode_utf8(content).len() as usize,
                mode: AppMode::EditingBlock,
                ..v
            }
        },
        None => v,
    }
}

/// A block after its text was edited to `text`: an exec block whose command changed
/// loses its signature.
pub open spec fn edited_block(b: BlockView, text: Seq<char>) -> BlockView {
    BlockView {
        id: b.id,
        kind: match b.kind {
            KindView::Exec { lang, signature } => if b.content != text {
                KindView::Exec { lang, signature: None }
            } else {
                b.kind
            },
            _ => b.kind,
        },
        content: text,
    }
}

pub open spec fn commit_edit_s(v: AppView) -> AppView {
    match v.selected_block {
        Some(s) => {
            let sl = cur(v);
            let nb = edited_block(sl.blocks[s as int], v.edit_buffer);
            let v1 = with_cur(v, SlideView { blocks: sl.blocks.update(s as int, nb), ..sl });
            AppView { mode: AppMode::Normal, ..v1 }
        },
        None => AppView { mode: AppMode::Normal, ..v },
    }
}

pub open spec fn set_mode(v: AppView, m: AppMode) -> AppView {
    AppView { mode: m, ..v }
}

pub open spec fn insert_char_s(v: AppView, ch: char) -> AppView {
    let bytes = buffer_bytes(v);
    let c = v.edit_cursor as int;
    AppView {
        edit_buffer: decode_utf8(bytes.take(c) + encode_utf8(seq![ch]) + bytes.skip(c)),
        edit_cursor: (c + encode_utf8(seq![ch]).len()) as usize,
        ..v
    }
}

/// The last character boundary before byte offset `i`.
pub open spec fn prev_boundary(bytes: Seq<u8>, i: int) -> int
    decreases i,
{
    if i <= 1 {
        0
    } else if is_char_boundary(bytes, i - 1) {
        i - 1
    } else {
        prev_boundary(bytes, i - 1)
    }
}

/// The first character boundary after byte offset `i`.
pub open spec fn next_boundary(bytes: Seq<u8>, i: int) -> int
    decreases bytes.len() - i,
{
    if i + 1 >= bytes.len() {
        i + 1
    } else if is_char_boundary(bytes, i + 1) {
        i + 1
    } else {
        next_boundary(bytes, i + 1)
    }
}

pub open spec fn delete_char_before_s(v: AppView) -> AppView {
    if v.edit_cursor > 0 {
        let bytes = buffer_bytes(v);
        let p = prev_boundary(bytes, v.edit_cursor as int);
        AppView {
            edit_buffer: decode_utf8(bytes.take(p) + bytes.skip(v.edit_cursor as int)),
            edit_cursor: p as usize,
            ..v
        }
    } else {
        v
    }
}

pub open spec fn cursor_left_s(v: AppView) -> AppView {
    if v.edit_cursor > 0 {
        AppView { edit_cursor: prev_boundary(buffer_bytes(v), v.edit_cursor as int) as usize, ..v }
    } else {
        v
    }
}

pub open spec fn cursor_right_s(v: AppView) -> AppView {
    if v.edit_cursor < buffer_bytes(v).len() {
        AppView { edit_cursor: next_boundary(buffer_bytes(v), v.edit_cursor as int) as usize, ..v }
    } else {
        v
    }
}

pub open spec fn set_status_s(v: AppView, msg: Seq<char>) -> AppView {
    AppView { status_message: Some(msg), ..v }
}

/// The selected block, if the selection names one.
pub open spec fn selected_view(v: AppView) -> Option<BlockView> {
    match v.selected_block {
        Some(i) => if i < cur(v).blocks.len() {
            Some(cur(v).blocks[i as int])
        } else {
            None
        },
        None => None,
    }
}

pub open spec fn exec_selected(v: AppView) -> bool {
    selected_view(v) is Some && is_exec_kind(selected_view(v).unwrap().kind)
}

pub open spec fn signed_selected(v: AppView) -> bool {
    selected_view(v) is Some && is_signed_kind(selected_view(v).unwrap().kind)
}

pub open spec fn unsigned_exec_message() -> Seq<char> {
    "未署名のexecブロックです。's'で署名、'a'でAI審査してください"@
}

/// The mode that running an exec block returns to: the presentation when it was asked for
/// while presenting, the editor otherwise.
pub open spec fn after_exec_mode(m: AppMode) -> AppMode {
    if m == AppMode::PresentExecConfirm {
        AppMode::Present
    } else {
        AppMode::Normal
    }
}

/// Asking, while presenting, to run the selected exec block: a signed one is confirmed
/// first, an unsigned one only gets a status message.
pub open spec fn try_present_exec_selected_s(v: AppView) -> AppView {
    if exec_selected(v) {
        if signed_selected(v) {
            set_mode(v, AppMode::PresentExecConfirm)
        } else {
            set_status_s(v, unsigned_exec_message())
        }
    } else {
        v
    }
}

pub open spec fn try_exec_selected_s(v: AppView) -> AppView {
    if exec_selected(v) {
        if signed_selected(v) {
            set_mode(v, AppMode::ExecConfirm)
        } else {
            set_status_s(v, unsigned_exec_message())
        }
    } else {
        v
    }
}

/// The development signature of a command whose UTF-8 encoding is `len` bytes long.
pub open spec fn mock_signature(len: nat) -> Seq<char> {
    "sig:ed25519:mock:"@ + hex(len * 31 + 0xdeadbeef)
}

pub open spec fn signed_message() -> Seq<char> {
    "署名しました（開発用モック署名）"@
}

pub open spec fn select_exec_message() -> Seq<char> {
    "execブロックを選択してください"@
}

pub open spec fn sign_selected_s(v: AppView) -> AppView {
    match v.selected_block {
        Some(s) => {
            let sl = cur(v);
            let b = sl.blocks[s as int];
            match b.kind {
                KindView::Exec { lang, signature } => {
                    let nb = BlockView {
                        kind: KindView::Exec {
                            lang,
                            signature: Some(mock_signature(encode_utf8(b.content).len())),
                        },
                        ..b
                    };
                    set_status_s(
                        with_cur(v, SlideView { blocks: sl.blocks.update(s as int, nb), ..sl }),
                        signed_message(),
                    )
                },
                _ => set_status_s(v, select_exec_message()),
            }
        },
        None => v,
    }
}

pub open spec fn add_block_s(v: AppView, kind: KindView) -> AppView {
    let sl = cur(v);
    let pos = match v.selected_block {
        Some(s) => s + 1,
        None => sl.blocks.len() as int,
    };
    let b = BlockView { id: v.next_block_id, kind, content: seq![] };
    let v1 = with_cur(v, SlideView { blocks: sl.blocks.insert(pos, b), ..sl });
    AppView {
        next_block_id: (v.next_block_id + 1) as u64,
        selected_block: Some(pos as usize),
        mode: AppMode::Normal,
        ..v1
    }
}

pub open spec fn new_slide_title() -> Seq<char> {
    "新しいスライド"@
}

pub open spec fn add_slide_s(v: AppView) -> AppView {
    let pos = v.current_slide + 1;
    AppView {
        presentation: PresentationView {
            slides: v.presentation.slides.insert(
                pos,
                SlideView { title: new_slide_title(), blocks: seq![] },
            ),
            ..v.presentation
        },
        current_slide: pos as usize,
        selected_block: None,
        reveal_step: 0,
        ..v
    }
}

/// `bs` with the blocks at `i` and `j` exchanged.
pub open spec fn swapped(bs: Seq<BlockView>, i: int, j: int) -> Seq<BlockView> {
    bs.update(i, bs[j]).update(j, bs[i])
}

pub open spec fn move_block_up_s(v: AppView) -> AppView {
    match v.selected_block {
        Some(s) => if s > 0 {
            let sl = cur(v);
            let v1 = with_cur(v, SlideView { blocks: swapped(sl.blocks, s as int, s - 1), ..sl });
            AppView { selected_block: Some((s - 1) as usize), ..v1 }
        } else {
            v
        },
        None => v,
    }
}

pub open spec fn move_block_down_s(v: AppView) -> AppView {
    match v.selected_block {
        Some(s) => if s + 1 < cur(v).blocks.len() {
            let sl = cur(v);
            let v1 = with_cur(v, SlideView { blocks: swapped(sl.blocks, s as int, s + 1), ..sl });
            AppView { selected_block: Some((s + 1) as usize), ..v1 }
        } else {
            v
        },
        None => v,
    }
}

pub open spec fn enter_present_s(v: AppView) -> AppView {
    AppView { mode: AppMode::Present, current_slide: 0, reveal_step: 0, ..v }
}

/// The number of staged reveal steps of a slide's blocks: the most reveal markers that any
/// of its text blocks holds.
pub open spec fn reveal_steps_s(bs: Seq<BlockView>) -> nat
    decreases bs.len(),
{
    if bs.len() == 0 {
        0
    } else {
        let rest = reveal_steps_s(bs.drop_last());
        let here = if bs.last().kind is Text {
            reveal_count_s(bs.last().content)
        } else {
            0
        };
        if here > rest {
            here
        } else {
            rest
        }
    }
}

/// Advancing in presentation mode: the next reveal step of the slide being shown, or, once
/// every step is revealed, the next slide.
pub open spec fn advance_present_s(v: AppView) -> AppView {
    if v.reveal_step < reveal_steps_s(cur(v).blocks) {
        AppView { reveal_step: (v.reveal_step + 1) as usize, ..v }
    } else {
        next_slide_s(v)
    }
}

/// What a block shows after `step` reveal steps: a text block its visible part, any other
/// block all of itself.
pub open spec fn shown_block(b: BlockView, step: nat) -> BlockView {
    if b.kind is Text {
        BlockView { content: visible_s(b.content, step), ..b }
    } else {
        b
    }
}

/// The slide being presented, with as much of its text as the reveal step shows.
pub open spec fn presented_s(v: AppView) -> SlideView {
    SlideView {
        title: cur(v).title,
        blocks: Seq::new(cur(v).blocks.len(), |j: int| shown_block(cur(v).blocks[j], v.reveal_step as nat)),
    }
}

/// The font sizes the presentation accepts: 8 to 72.
pub open spec fn clamp_font_size(n: int) -> u8 {
    if n < 8 {
        8
    } else if n > 72 {
        72
    } else {
        n as u8
    }
}

pub open spec fn set_font_size_s(v: AppView, n: int) -> AppView {
    AppView {
        presentation: PresentationView { font_size: clamp_font_size(n), ..v.presentation },
        ..v
    }
}

pub open spec fn not_signed_message() -> Seq<char> {
    "署名されていません。's'で署名してください"@
}

pub open spec fn exec_done_message() -> Seq<char> {
    "実行完了"@
}

/// The editor after it was asked to run the selected block, and the command to run, if
/// any: nothing runs without a selection, and an unsigned block is refused.
pub open spec fn prepare_exec_s(v: AppView) -> (AppView, Option<Seq<char>>) {
    match v.selected_block {
        None => (set_mode(v, after_exec_mode(v.mode)), None),
        Some(s) => if signed_selected(v) {
            (v, Some(cur(v).blocks[s as int].content))
        } else {
            (set_mode(set_status_s(v, not_signed_message()), after_exec_mode(v.mode)), None)
        },
    }
}

/// `bs` with the text `out` shown in the block after `s`, when that block is an output
/// area.
pub open spec fn with_output(bs: Seq<BlockView>, s: int, out: Seq<char>) -> Seq<BlockView> {
    if s + 1 < bs.len() && bs[s + 1].kind is OutputPlaceholder {
        bs.update(s + 1, BlockView { content: out, ..bs[s + 1] })
    } else {
        bs
    }
}

/// The editor after the selected block's command printed `out`: the output is kept under
/// the block's id and shown in the output area that follows the block.
pub open spec fn finish_exec_s(v: AppView, out: String) -> AppView {
    match v.selected_block {
        Some(s) => {
            let sl = cur(v);
            let v1 = with_cur(v, SlideView { blocks: with_output(sl.blocks, s as int, out@), ..sl });
            AppView {
                exec_outputs: v.exec_outputs.insert(sl.blocks[s as int].id, out),
                status_message: Some(exec_done_message()),
                mode: after_exec_mode(v.mode),
                ..v1
            }
        },
        None => set_mode(v, after_exec_mode(v.mode)),
    }
}

/// The largest block id of some slides (0 when there are none).
pub open spec fn max_id(ss: Seq<SlideView>) -> nat
    decreases ss.len(),
{
    if ss.len() == 0 {
        0
    } else {
        let m = max_id(ss.drop_last());
        let k = max_id_in(ss.last().blocks);
        if m >= k {
            m
        } else {
            k
        }
    }
}

pub open spec fn max_id_in(bs: Seq<BlockView>) -> nat
    decreases bs.len(),
{
    if bs.len() == 0 {
        0
    } else {
        let m = max_id_in(bs.drop_last());
        if m >= bs.last().id {
            m
        } else {
            bs.last().id as nat
        }
    }
}

pub open spec fn new_s(p: PresentationView) -> AppView {
    AppView {
        presentation: p,
        current_slide: 0,
        selected_block: if p.slides.len() > 0 && p.slides[0].blocks.len() > 0 {
            Some(0)
        } else {
            None
        },
        mode: AppMode::Normal,
        edit_buffer: seq![],
        edit_cursor: 0,
        status_message: None,
        next_block_id: (max_id(p.slides) + 1) as u64,
        exec_outputs: Map::empty(),
        ui_theme: UiTheme::Dark,
        accent_color: AccentColor::Blue,
        running_exec: None,
        reveal_step: 0,
    }
}

/// Every block id is below `next_block_id`, so the next block added gets a fresh id.
pub open spec fn ids_below(v: AppView) -> bool {
    forall|i: int, j: int|
        0 <= i < v.presentation.slides.len() && 0 <= j < v.presentation.slides[i].blocks.len()
            ==> #[trigger] v.presentation.slides[i].blocks[j].id < v.next_block_id
}

// ───────────────────────────── trusted std string operations ─────────────────────────────

/// `String::insert`: puts the UTF-8 bytes of `ch` at byte offset `idx`, which must be a
/// character boundary (the call panics otherwise).
#[verifier::external_body]
fn string_insert(s: &mut String, idx: usize, ch: char)
    requires
        is_char_boundary(encode_utf8(old(s)@), idx as int),
    ensures
        encode_utf8(final(s)@) == encode_utf8(old(s)@).take(idx as int) + encode_utf8(seq![ch])
            + encode_utf8(old(s)@).skip(idx as int),
{
    s.insert(idx, ch);
}

/// `String::drain` with its iterator dropped: removes the bytes in `from..to`, whose ends
/// must be character boundaries (the call panics otherwise).
#[verifier::external_body]
fn string_remove_range(s: &mut String, from: usize, to: usize)
    requires
        from <= to,
        is_char_boundary(encode_utf8(old(s)@), from as int),
        is_char_boundary(encode_utf8(old(s)@), to as int),
    ensures
        encode_utf8(final(s)@) == encode_utf8(old(s)@).take(from as int) + encode_utf8(
            old(s)@,
        ).skip(to as int),
{
    s.drain(from..to);
}

/// `char::len_utf8`: the number of bytes of the UTF-8 encoding of `ch`.
#[verifier::external_body]
fn char_utf8_len(ch: char) -> (r: usize)
    ensures
        r == encode_utf8(seq![ch]).len(),
{
    ch.len_utf8()
}

/// The length in bytes of a string's UTF-8 encoding.
fn byte_len(s: &String) -> (r: usize)
    ensures
        r == encode_utf8(s@).len(),
{
    s.as_str().as_bytes().len()
}

fn is_boundary(s: &String, i: usize) -> (r: bool)
    ensures
        r == is_char_boundary(encode_utf8(s@), i as int),
{
    s.as_str().is_char_boundary(i)
}

pub proof fn lemma_decode_encode(s: Seq<char>)
    ensures
        decode_utf8(encode_utf8(s)) == s,
{
    vstd::utf8::encode_utf8_decode_utf8(s);
}

proof fn lemma_valid(s: Seq<char>)
    ensures
        vstd::utf8::valid_utf8(encode_utf8(s)),
        is_char_boundary(encode_utf8(s), 0),
        is_char_boundary(encode_utf8(s), encode_utf8(s).len() as int),
{
    vstd::utf8::encode_utf8_valid_utf8(s);
    vstd::utf8::is_char_boundary_start_end_of_seq(encode_utf8(s));
}

// ───────────────────────────── command output ─────────────────────────────

/// What `String::from_utf8_lossy` makes of some bytes.
pub uninterp spec fn lossy_text(bytes: Seq<u8>) -> Seq<char>;

/// `String::from_utf8_lossy` (made owned): the text of `bytes`, each invalid sequence
/// replaced by U+FFFD. Of bytes that are valid UTF-8 it is their decoding; of others only
/// the name `lossy_text` is stated.
#[verifier::external_body]
fn text_from_bytes(bytes: &[u8]) -> (r: String)
    ensures
        r@ == lossy_text(bytes@),
        vstd::utf8::valid_utf8(bytes@) ==> r@ == decode_utf8(bytes@),
{
    String::from_utf8_lossy(bytes).into_owned()
}

pub open spec fn no_output_message() -> Seq<char> {
    "(出力なし)"@
}

/// What is shown of a command that printed `stdout` and `stderr`: its trimmed standard
/// output; when that is empty, its trimmed error output under a `[stderr]` line; when both
/// are empty, a note that nothing was printed.
pub open spec fn exec_output_s(stdout: Seq<char>, stderr: Seq<char>) -> Seq<char> {
    if stdout.len() == 0 && stderr.len() != 0 {
        "[stderr]\n"@ + trim_s(stderr)
    } else if stdout.len() == 0 {
        no_output_message()
    } else {
        trim_s(stdout)
    }
}

/// Formats what a command printed, from its decoded standard and error output.
pub fn format_exec_output(stdout: &str, stderr: &str) -> (r: String)
    ensures
        r@ == exec_output_s(stdout@, stderr@),
{
    let out = chars_of(stdout);
    let err = chars_of(stderr);
    if out.len() == 0 && err.len() != 0 {
        let mut r: Vec<char> = Vec::new();
        push_str(&mut r, "[stderr]\n");
        let t = trim(err.as_slice());
        extend_chars(&mut r, t.as_slice());
        proof {
            reveal_strlit("[stderr]\n");
        }
        string_from(r.as_slice())
    } else if out.len() == 0 {
        owned("(出力なし)")
    } else {
        let t = trim(out.as_slice());
        string_from(t.as_slice())
    }
}

/// Formats what a command printed, from the raw bytes of its standard and error output.
pub fn exec_output_text(stdout: &[u8], stderr: &[u8]) -> (r: String)
    ensures
        r@ == exec_output_s(lossy_text(stdout@), lossy_text(stderr@)),
{
    let out = text_from_bytes(stdout);
    let err = text_from_bytes(stderr);
    format_exec_output(out.as_str(), err.as_str())
}

/// What is shown of a command that could not be started, from the error's message.
pub fn exec_error_text(message: &str) -> (r: String)
    ensures
        r@ == "[実行エラー] "@ + message@,
{
    let mut r: Vec<char> = Vec::new();
    push_str(&mut r, "[実行エラー] ");
    push_str(&mut r, message);
    string_from(r.as_slice())
}

// ───────────────────────────── the editor ─────────────────────────────

/// The mode that running an exec block returns to (see [`after_exec_mode`]).
pub fn after_exec(m: AppMode) -> (r: AppMode)
    ensures
        r == after_exec_mode(m),
{
    match m {
        AppMode::PresentExecConfirm => AppMode::Present,
        _ => AppMode::Normal,
    }
}

impl App {
    /// An editor on `presentation`, showing its first slide with its first block (if any)
    /// selected.
    pub fn new(presentation: Presentation) -> (r: App)
        requires
            max_id(presentation@.slides) < u64::MAX,
        ensures
            r@ == new_s(presentation@),
            wf(r@) <==> presentation@.slides.len() > 0,
            wf(r@) ==> sel_valid(r@),
            ids_below(r@),
    {
        let ghost sv = presentation@.slides;
        let mut max: u64 = 0;
        let mut i: usize = 0;
        assert(sv.take(0) =~= seq![]);
        while i < presentation.slides.len()
            invariant
                sv == presentation@.slides,
                i <= sv.len(),
                max == max_id(sv.take(i as int)),
            decreases sv.len() - i,
        {
            let ghost bs = sv[i as int].blocks;
            let mut m: u64 = 0;
            let mut j: usize = 0;
            assert(bs.take(0) =~= seq![]);
            while j < presentation.slides[i].blocks.len()
                invariant
                    sv == presentation@.slides,
                    i < sv.len(),
                    bs == sv[i as int].blocks,
                    j <= bs.len(),
                    m == max_id_in(bs.take(j as int)),
                decreases bs.len() - j,
            {
                assert(bs[j as int] == presentation.slides@[i as int].blocks@[j as int]@);
                let id = presentation.slides[i].blocks[j].id;
                assert(bs.take(j + 1).drop_last() =~= bs.take(j as int));
                if id > m {
                    m = id;
                }
                j = j + 1;
            }
            assert(bs.take(j as int) =~= bs);
            assert(sv.take(i + 1).drop_last() =~= sv.take(i as int));
            if m > max {
                max = m;
            }
            i = i + 1;
        }
        assert(sv.take(i as int) =~= sv);
        proof {
            lemma_max_id_bounds(sv);
        }
        let selected_block = if presentation.slides.len() > 0 && presentation.slides[0].blocks.len() > 0 {
            Some(0)
        } else {
            None
        };
        App {
            presentation,
            current_slide: 0,
            selected_block,
            mode: AppMode::Normal,
            edit_buffer: String::new(),
            edit_cursor: 0,
            status_message: None,
            next_block_id: max + 1,
            exec_outputs: HashMap::new(),
            ui_theme: UiTheme::Dark,
            accent_color: AccentColor::Blue,
            running_exec: None,
            reveal_step: 0,
        }
    }

    pub fn current_slide(&self) -> (r: &Slide)
        requires
            wf(self@),
        ensures
            r@ == cur(self@),
    {
        &self.presentation.slides[self.current_slide]
    }

    pub fn current_slide_mut(&mut self) -> (r: &mut Slide)
        requires
            wf(old(self)@),
        ensures
            r@ == cur(old(self)@),
            final(self)@ == with_cur(old(self)@, final(r)@),
    {
        proof {
            lemma_slide_views_update(self.presentation.slides@, self.current_slide as int);
        }
        &mut self.presentation.slides[self.current_slide]
    }

    pub fn slide_count(&self) -> (r: usize)
        ensures
            r == self@.presentation.slides.len(),
    {
        self.presentation.slides.len()
    }

    /// The selected block, if the selection names one.
    pub fn selected_block_ref(&self) -> (r: Option<&Block>)
        requires
            wf(self@),
        ensures
            match r {
                Some(b) => selected_view(self@) == Some(b@),
                None => selected_view(self@) is None,
            },
    {
        match self.selected_block {
            Some(i) => {
                if i < self.current_slide().blocks.len() {
                    Some(&self.current_slide().blocks[i])
                } else {
                    None
                }
            },
            None => None,
        }
    }

    pub fn is_exec_selected(&self) -> (r: bool)
        requires
            wf(self@),
        ensures
            r == exec_selected(self@),
    {
        match self.selected_block_ref() {
            Some(b) => b.is_exec(),
            None => false,
        }
    }

    pub fn is_signed_selected(&self) -> (r: bool)
        requires
            wf(self@),
        ensures
            r == signed_selected(self@),
    {
        match self.selected_block_ref() {
            Some(b) => b.is_signed(),
            None => false,
        }
    }

    fn show_slide(&mut self, c: usize)
        requires
            c < old(self)@.presentation.slides.len(),
        ensures
            final(self)@ == show_slide(old(self)@, c),
    {
        self.current_slide = c;
        self.reveal_step = 0;
        let len = self.presentation.slides[c].blocks.len();
        self.selected_block = if len == 0 {
            None
        } else {
            Some(0)
        };
    }

    pub fn prev_slide(&mut self)
        requires
            wf(old(self)@),
        ensures
            final(self)@ == prev_slide_s(old(self)@),
    {
        if self.current_slide > 0 {
            self.show_slide(self.current_slide - 1);
        }
    }

    pub fn next_slide(&mut self)
        requires
            wf(old(self)@),
        ensures
            final(self)@ == next_slide_s(old(self)@),
    {
        let n = self.presentation.slides.len();
        if self.current_slide + 1 < n {
            self.show_slide(self.current_slide + 1);
        }
    }

    pub fn go_to_slide(&mut self, idx: usize)
        ensures
            final(self)@ == go_to_slide_s(old(self)@, idx),
    {
        if idx < self.presentation.slides.len() {
            self.show_slide(idx);
        }
    }

    pub fn prev_block(&mut self)
        ensures
            final(self)@ == prev_block_s(old(self)@),
    {
        if let Some(sel) = self.selected_block {
            if sel > 0 {
                self.selected_block = Some(sel - 1);
            }
        }
    }

    pub fn next_block(&mut self)
        requires
            wf(old(self)@),
            old(self)@.selected_block != Some(usize::MAX),
        ensures
            final(self)@ == next_block_s(old(self)@),
    {
        let len = self.current_slide().blocks.len();
        match self.selected_block {
            Some(sel) => {
                if sel + 1 < len {
                    self.selected_block = Some(sel + 1);
                }
            },
            None => {
                if len > 0 {
                    self.selected_block = Some(0);
                }
            },
        }
    }

    // ── editing ──

    pub fn start_edit(&mut self)
        requires
            wf(old(self)@),
            sel_valid(old(self)@),
        ensures
            final(self)@ == start_edit_s(old(self)@),
    {
        if let Some(sel) = self.selected_block {
            let content = copy_string(&self.current_slide().blocks[sel].content);
            let n = byte_len(&content);
            self.edit_buffer = content;
            self.edit_cursor = n;
            self.mode = AppMode::EditingBlock;
        }
    }

    pub fn commit_edit(&mut self)
        requires
            wf(old(self)@),
            sel_valid(old(self)@),
        ensures
            final(self)@ == commit_edit_s(old(self)@),
    {
        if let Some(sel) = self.selected_block {
            let buf = copy_string(&self.edit_buffer);
            let c = self.current_slide;
            let content_changed = self.presentation.slides[c].blocks[sel].content != buf;
            let ghost b0 = self.presentation.slides@[c as int].blocks@[sel as int]@;
            if content_changed {
                match &mut self.presentation.slides[c].blocks[sel].kind {
                    BlockKind::Exec { signature, .. } => {
                        *signature = None;
                    },
                    _ => {},
                }
            }
            self.presentation.slides[c].blocks[sel].content = buf;
            proof {
                let sl = cur(old(self)@);
                assert(self.presentation.slides@[c as int].blocks@[sel as int]@ == edited_block(b0, old(self)@.edit_buffer));
                assert(block_views(self.presentation.slides@[c as int].blocks@) =~= sl.blocks.update(sel as int, edited_block(b0, old(self)@.edit_buffer)));
                assert(slide_views(self.presentation.slides@) =~= with_cur(old(self)@, SlideView { blocks: sl.blocks.update(sel as int, edited_block(b0, old(self)@.edit_buffer)), ..sl }).presentation.slides);
            }
        }
        self.mode = AppMode::Normal;
    }

    pub fn cancel_edit(&mut self)
        ensures
            final(self)@ == set_mode(old(self)@, AppMode::Normal),
    {
        self.mode = AppMode::Normal;
    }

    /// Inserts `ch` at the cursor, which must sit on a character boundary, and moves the
    /// cursor past it.
    pub fn insert_char(&mut self, ch: char)
        requires
            is_char_boundary(buffer_bytes(old(self)@), old(self)@.edit_cursor as int),
        ensures
            final(self)@ == insert_char_s(old(self)@, ch),
            is_char_boundary(buffer_bytes(final(self)@), final(self)@.edit_cursor as int),
    {
        let cursor = self.edit_cursor;
        let ghost bytes = encode_utf8(self.edit_buffer@);
        string_insert(&mut self.edit_buffer, cursor, ch);
        let n = byte_len(&self.edit_buffer);
        let w = char_utf8_len(ch);
        proof {
            lemma_valid(old(self)@.edit_buffer);
            lemma_char_boundary_position(bytes, cursor as int);
            lemma_decode_encode(self.edit_buffer@);
            lemma_insert_keeps_boundary(old(self)@.edit_buffer, cursor as int, ch);
        }
        self.edit_cursor = cursor + w;
    }

    /// Deletes the character before the cursor, which must sit on a character boundary.
    pub fn delete_char_before(&mut self)
        requires
            is_char_boundary(buffer_bytes(old(self)@), old(self)@.edit_cursor as int),
        ensures
            final(self)@ == delete_char_before_s(old(self)@),
            is_char_boundary(buffer_bytes(final(self)@), final(self)@.edit_cursor as int),
    {
        if self.edit_cursor > 0 {
            let cursor = self.edit_cursor;
            let ghost bytes = encode_utf8(self.edit_buffer@);
            proof {
                lemma_valid(self.edit_buffer@);
                lemma_char_boundary_position(bytes, cursor as int);
            }
            let mut new_cursor = cursor - 1;
            while !is_boundary(&self.edit_buffer, new_cursor)
                invariant
                    0 <= new_cursor < cursor,
                    bytes == encode_utf8(self.edit_buffer@),
                    vstd::utf8::valid_utf8(bytes),
                    prev_boundary(bytes, cursor as int) == prev_boundary(bytes, new_cursor + 1),
                decreases new_cursor,
            {
                proof {
                    vstd::utf8::is_char_boundary_start_end_of_seq(bytes);
                }
                new_cursor = new_cursor - 1;
            }
            string_remove_range(&mut self.edit_buffer, new_cursor, cursor);
            proof {
                lemma_decode_encode(self.edit_buffer@);
                lemma_boundaries_after_remove(bytes, new_cursor as int, cursor as int);
            }
            self.edit_cursor = new_cursor;
        }
    }

    pub fn cursor_left(&mut self)
        ensures
            final(self)@ == cursor_left_s(old(self)@),
    {
        if self.edit_cursor > 0 {
            let ghost bytes = encode_utf8(self.edit_buffer@);
            proof {
                lemma_valid(self.edit_buffer@);
            }
            let start = self.edit_cursor;
            self.edit_cursor = self.edit_cursor - 1;
            while !is_boundary(&self.edit_buffer, self.edit_cursor)
                invariant
                    0 <= self.edit_cursor < start,
                    bytes == encode_utf8(self.edit_buffer@),
                    self.edit_buffer@ == old(self).edit_buffer@,
                    vstd::utf8::valid_utf8(bytes),
                    prev_boundary(bytes, start as int) == prev_boundary(bytes, self.edit_cursor + 1),
                    self@ == (AppView { edit_cursor: self.edit_cursor, ..old(self)@ }),
                decreases self.edit_cursor,
            {
                self.edit_cursor = self.edit_cursor - 1;
            }
        }
    }

    pub fn cursor_right(&mut self)
        ensures
            final(self)@ == cursor_right_s(old(self)@),
    {
        let len = byte_len(&self.edit_buffer);
        if self.edit_cursor < len {
            let ghost bytes = encode_utf8(self.edit_buffer@);
            let start = self.edit_cursor;
            self.edit_cursor = self.edit_cursor + 1;
            proof {
                lemma_valid(self.edit_buffer@);
            }
            while !is_boundary(&self.edit_buffer, self.edit_cursor)
                invariant
                    start < self.edit_cursor <= len,
                    len == bytes.len(),
                    bytes == encode_utf8(self.edit_buffer@),
                    is_char_boundary(bytes, len as int),
                    self.edit_buffer@ == old(self).edit_buffer@,
                    next_boundary(bytes, start as int) == next_boundary(bytes, self.edit_cursor - 1),
                    self@ == (AppView { edit_cursor: self.edit_cursor, ..old(self)@ }),
                decreases len - self.edit_cursor,
            {
                self.edit_cursor = self.edit_cursor + 1;
            }
        }
    }

    // ── exec blocks ──

    /// While presenting, asks to run the selected exec block when it is signed; an
    /// unsigned one only gets a status message.
    pub fn try_present_exec_selected(&mut self)
        requires
            wf(old(self)@),
        ensures
            final(self)@ == try_present_exec_selected_s(old(self)@),
    {
        if self.is_exec_selected() {
            if self.is_signed_selected() {
                self.mode = AppMode::PresentExecConfirm;
            } else {
                self.set_status(owned("未署名のexecブロックです。's'で署名、'a'でAI審査してください"));
            }
        }
    }

    /// Asks to run the selected exec block when it is signed; an unsigned one only gets
    /// a status message.
    pub fn try_exec_selected(&mut self)
        requires
            wf(old(self)@),
        ensures
            final(self)@ == try_exec_selected_s(old(self)@),
    {
        if self.is_exec_selected() {
            if self.is_signed_selected() {
                self.mode = AppMode::ExecConfirm;
            } else {
                self.set_status(owned("未署名のexecブロックです。's'で署名、'a'でAI審査してください"));
            }
        }
    }

    /// Signs the selected exec block with a development signature made from its length.
    pub fn sign_selected(&mut self)
        requires
            wf(old(self)@),
            sel_valid(old(self)@),
            old(self)@.selected_block matches Some(s) ==> encode_utf8(
                cur(old(self)@).blocks[s as int].content,
            ).len() * 31 + 0xdeadbeef <= usize::MAX,
        ensures
            final(self)@ == sign_selected_s(old(self)@),
    {
        if let Some(sel) = self.selected_block {
            let c = self.current_slide;
            let is_exec = self.presentation.slides[c].blocks[sel].is_exec();
            if is_exec {
                let content_len = byte_len(&self.presentation.slides[c].blocks[sel].content);
                let mut sig: Vec<char> = Vec::new();
                push_str(&mut sig, "sig:ed25519:mock:");
                push_hex(&mut sig, (content_len * 31 + 0xdeadbeef) as u64);
                let hash = string_from(sig.as_slice());
                let ghost b0 = self.presentation.slides@[c as int].blocks@[sel as int]@;
                match &mut self.presentation.slides[c].blocks[sel].kind {
                    BlockKind::Exec { signature, .. } => {
                        *signature = Some(hash);
                    },
                    _ => {},
                }
                proof {
                    let sl = cur(old(self)@);
                    let nb = BlockView {
                        kind: KindView::Exec {
                            lang: b0.kind->Exec_lang,
                            signature: Some(mock_signature(encode_utf8(b0.content).len())),
                        },
                        ..b0
                    };
                    assert(self.presentation.slides@[c as int].blocks@[sel as int]@ == nb);
                    assert(block_views(self.presentation.slides@[c as int].blocks@) =~= sl.blocks.update(sel as int, nb));
                    assert(slide_views(self.presentation.slides@) =~= with_cur(old(self)@, SlideView { blocks: sl.blocks.update(sel as int, nb), ..sl }).presentation.slides);
                }
                self.set_status(owned("署名しました（開発用モック署名）"));
            } else {
                self.set_status(owned("execブロックを選択してください"));
            }
        }
    }

    // ── adding and moving blocks ──

    /// Adds an empty block of `kind` after the selected block (or at the end), with a
    /// fresh id, and selects it.
    pub fn add_block(&mut self, kind: BlockKind)
        requires
            wf(old(self)@),
            sel_valid(old(self)@),
            old(self)@.next_block_id < u64::MAX,
        ensures
            final(self)@ == add_block_s(old(self)@, kind@),
            wf(final(self)@),
    {
        let id = self.next_block_id;
        self.next_block_id = self.next_block_id + 1;
        let block = Block::new(id, kind, String::new());
        let c = self.current_slide;
        let len = self.presentation.slides[c].blocks.len();
        let insert_pos = match self.selected_block {
            Some(s) => s + 1,
            None => self.presentation.slides[c].blocks.len(),
        };
        let ghost bv = block@;
        let ghost sl = cur(old(self)@);
        self.presentation.slides[c].blocks.insert(insert_pos, block);
        proof {
            assert(block_views(self.presentation.slides@[c as int].blocks@) =~= sl.blocks.insert(insert_pos as int, bv));
            assert(slide_views(self.presentation.slides@) =~= with_cur(old(self)@, SlideView { blocks: sl.blocks.insert(insert_pos as int, bv), ..sl }).presentation.slides);
        }
        self.selected_block = Some(insert_pos);
        self.mode = AppMode::Normal;
    }

    /// Adds an empty slide after the current one and shows it.
    pub fn add_slide(&mut self)
        requires
            wf(old(self)@),
        ensures
            final(self)@ == add_slide_s(old(self)@),
            wf(final(self)@),
    {
        let new_slide = Slide::new(owned("新しいスライド"));
        let n = self.presentation.slides.len();
        let pos = self.current_slide + 1;
        let ghost nv = new_slide@;
        self.presentation.slides.insert(pos, new_slide);
        assert(slide_views(self.presentation.slides@) =~= slide_views(old(self).presentation.slides@).insert(pos as int, nv));
        self.current_slide = pos;
        self.selected_block = None;
        self.reveal_step = 0;
    }

    pub fn move_block_up(&mut self)
        requires
            wf(old(self)@),
            sel_valid(old(self)@),
        ensures
            final(self)@ == move_block_up_s(old(self)@),
    {
        if let Some(sel) = self.selected_block {
            if sel > 0 {
                let c = self.current_slide;
                let ghost sl = cur(old(self)@);
                swap_with_next(&mut self.presentation.slides[c].blocks, sel - 1);
                proof {
                    assert(block_views(self.presentation.slides@[c as int].blocks@) =~= swapped(sl.blocks, sel as int, sel - 1));
                    assert(slide_views(self.presentation.slides@) =~= with_cur(old(self)@, SlideView { blocks: swapped(sl.blocks, sel as int, sel - 1), ..sl }).presentation.slides);
                }
                self.selected_block = Some(sel - 1);
            }
        }
    }

    pub fn move_block_down(&mut self)
        requires
            wf(old(self)@),
            sel_valid(old(self)@),
        ensures
            final(self)@ == move_block_down_s(old(self)@),
    {
        if let Some(sel) = self.selected_block {
            let len = self.current_slide().blocks.len();
            if sel + 1 < len {
                let c = self.current_slide;
                let ghost sl = cur(old(self)@);
                swap_with_next(&mut self.presentation.slides[c].blocks, sel);
                proof {
                    assert(block_views(self.presentation.slides@[c as int].blocks@) =~= swapped(sl.blocks, sel as int, sel + 1));
                    assert(slide_views(self.presentation.slides@) =~= with_cur(old(self)@, SlideView { blocks: swapped(sl.blocks, sel as int, sel + 1), ..sl }).presentation.slides);
                }
                self.selected_block = Some(sel + 1);
            }
        }
    }

    // ── presenting ──

    pub fn enter_present(&mut self)
        ensures
            final(self)@ == enter_present_s(old(self)@),
    {
        self.mode = AppMode::Present;
        self.current_slide = 0;
        self.reveal_step = 0;
    }

    pub fn exit_present(&mut self)
        ensures
            final(self)@ == set_mode(old(self)@, AppMode::Normal),
    {
        self.mode = AppMode::Normal;
    }

    /// The number of staged reveal steps of the slide being shown.
    pub fn reveal_steps(&self) -> (r: usize)
        requires
            wf(self@),
        ensures
            r == reveal_steps_s(cur(self@).blocks),
    {
        let slide = self.current_slide();
        let ghost bs = cur(self@).blocks;
        let mut m: usize = 0;
        let mut i: usize = 0;
        assert(bs.take(0) =~= seq![]);
        while i < slide.blocks.len()
            invariant
                bs == slide@.blocks,
                bs.len() == slide.blocks@.len(),
                i <= bs.len(),
                m == reveal_steps_s(bs.take(i as int)),
            decreases bs.len() - i,
        {
            let b = &slide.blocks[i];
            assert(bs[i as int] == b@);
            let here: usize = match b.kind {
                BlockKind::Text => reveal_marker_count(b.content.as_str()),
                _ => 0,
            };
            assert(bs.take(i + 1).drop_last() =~= bs.take(i as int));
            assert(bs.take(i + 1).last() == bs[i as int]);
            if here > m {
                m = here;
            }
            i = i + 1;
        }
        assert(bs.take(i as int) =~= bs);
        m
    }

    /// In presentation mode, reveals the next step of the slide being shown, or, once every
    /// step is revealed, goes to the next slide.
    pub fn advance_present(&mut self)
        requires
            wf(old(self)@),
        ensures
            final(self)@ == advance_present_s(old(self)@),
    {
        let n = self.reveal_steps();
        if self.reveal_step < n {
            self.reveal_step = self.reveal_step + 1;
        } else {
            self.next_slide();
        }
    }

    /// The slide being shown, with as much of its text as the reveal step shows.
    pub fn presented_slide(&self) -> (r: Slide)
        requires
            wf(self@),
        ensures
            r@ == presented_s(self@),
    {
        let slide = self.current_slide();
        let ghost bs = cur(self@).blocks;
        let ghost step = self.reveal_step as nat;
        let mut blocks: Vec<Block> = Vec::new();
        let mut i: usize = 0;
        while i < slide.blocks.len()
            invariant
                bs == slide@.blocks,
                bs.len() == slide.blocks@.len(),
                step == self.reveal_step as nat,
                i <= bs.len(),
                block_views(blocks@) == Seq::new(i as nat, |j: int| shown_block(bs[j], step)),
            decreases bs.len() - i,
        {
            let b = &slide.blocks[i];
            assert(bs[i as int] == b@);
            let content = match b.kind {
                BlockKind::Text => visible_reveal_content(b.content.as_str(), self.reveal_step),
                _ => copy_string(&b.content),
            };
            let nb = Block::new(b.id, b.kind.duplicate(), content);
            assert(nb@ == shown_block(bs[i as int], step));
            let ghost before = block_views(blocks@);
            blocks.push(nb);
            assert(block_views(blocks@) =~= before.push(nb@));
            i = i + 1;
            assert(block_views(blocks@) =~= Seq::new(i as nat, |j: int| shown_block(bs[j], step)));
        }
        let r = Slide { title: copy_string(&slide.title), blocks };
        assert(r@.blocks =~= presented_s(self@).blocks);
        r
    }

    // ── counts and status ──

    /// The number of exec blocks on the current slide.
    pub fn total_exec_count(&self) -> (r: usize)
        requires
            wf(self@),
        ensures
            r == crate::model::count_exec(cur(self@).blocks),
    {
        self.current_slide().exec_count()
    }

    /// The number of signed exec blocks on the current slide.
    pub fn total_signed_count(&self) -> (r: usize)
        requires
            wf(self@),
        ensures
            r == crate::model::count_signed(cur(self@).blocks),
    {
        self.current_slide().signed_count()
    }

    pub fn set_status(&mut self, msg: String)
        ensures
            final(self)@ == set_status_s(old(self)@, msg@),
    {
        self.status_message = Some(msg);
    }

    // ── font size ──

    /// Sets the presentation's font size, kept within 8 to 72.
    pub fn set_font_size(&mut self, size: u8)
        ensures
            final(self)@ == set_font_size_s(old(self)@, size as int),
    {
        self.presentation.font_size = if size < 8 {
            8
        } else if size > 72 {
            72
        } else {
            size
        };
    }

    pub fn increase_font_size(&mut self)
        ensures
            final(self)@ == set_font_size_s(old(self)@, old(self)@.presentation.font_size + 1),
    {
        let size = self.presentation.font_size;
        self.set_font_size(if size < 255 { size + 1 } else { size });
    }

    pub fn decrease_font_size(&mut self)
        ensures
            final(self)@ == set_font_size_s(old(self)@, old(self)@.presentation.font_size - 1),
    {
        let size = self.presentation.font_size;
        self.set_font_size(if size > 0 { size - 1 } else { size });
    }

    // ── running exec blocks ──

    /// The first half of running the selected exec block: the command to run, when a
    /// signed exec block is selected. Otherwise the editor goes back to normal mode, and
    /// an unsigned selection gets a status message.
    pub fn prepare_exec(&mut self) -> (r: Option<String>)
        requires
            wf(old(self)@),
        ensures
            final(self)@ == prepare_exec_s(old(self)@).0,
            opt_view(r) == prepare_exec_s(old(self)@).1,
    {
        let back = after_exec(self.mode);
        match self.selected_block {
            None => {
                self.mode = back;
                None
            },
            Some(sel) => {
                if !self.is_signed_selected() {
                    self.set_status(owned("署名されていません。's'で署名してください"));
                    self.mode = back;
                    return None;
                }
                Some(copy_string(&self.current_slide().blocks[sel].content))
            },
        }
    }

    /// The second half of running the selected exec block: records what its command
    /// printed and shows it in the output area that follows the block.
    pub fn finish_exec(&mut self, output: String)
        requires
            wf(old(self)@),
            sel_valid(old(self)@),
        ensures
            final(self)@ == finish_exec_s(old(self)@, output),
    {
        broadcast use vstd::std_specs::hash::group_hash_axioms;

        let back = after_exec(self.mode);
        if let Some(sel) = self.selected_block {
            let c = self.current_slide;
            let block_id = self.presentation.slides[c].blocks[sel].id;
            let shown = copy_string(&output);
            self.exec_outputs.insert(block_id, output);
            let ghost bs0 = block_views(self.presentation.slides@[c as int].blocks@);
            let n = self.presentation.slides[c].blocks.len();
            if sel + 1 < n {
                let is_output = match &self.presentation.slides[c].blocks[sel + 1].kind {
                    BlockKind::OutputPlaceholder => true,
                    _ => false,
                };
                if is_output {
                    self.presentation.slides[c].blocks[sel + 1].content = shown;
                }
            }
            proof {
                let sl = cur(old(self)@);
                assert(block_views(self.presentation.slides@[c as int].blocks@) =~= with_output(bs0, sel as int, output@));
                assert(slide_views(self.presentation.slides@) =~= with_cur(old(self)@, SlideView { blocks: with_output(sl.blocks, sel as int, output@), ..sl }).presentation.slides);
            }
            self.set_status(owned("実行完了"));
        }
        self.mode = back;
    }
}

pub proof fn lemma_slide_views_update(ss: Seq<Slide>, i: int)
    requires
        0 <= i < ss.len(),
    ensures
        forall|x: Slide| #[trigger] slide_views(ss.update(i, x)) == slide_views(ss).update(i, x@),
{
    assert forall|x: Slide| #[trigger] slide_views(ss.update(i, x)) == slide_views(ss).update(i, x@) by {
        assert(slide_views(ss.update(i, x)) =~= slide_views(ss).update(i, x@));
    }
}

/// Exchanges the blocks at `i` and `i + 1`.
fn swap_with_next(blocks: &mut Vec<Block>, i: usize)
    requires
        i + 1 < old(blocks)@.len(),
    ensures
        block_views(final(blocks)@) == swapped(block_views(old(blocks)@), i as int, i + 1),
        block_views(final(blocks)@) == swapped(block_views(old(blocks)@), i + 1, i as int),
{
    let n = blocks.len();
    let b = blocks.remove(i + 1);
    blocks.insert(i, b);
    assert(block_views(blocks@) =~= swapped(block_views(old(blocks)@), i as int, i + 1));
    assert(block_views(blocks@) =~= swapped(block_views(old(blocks)@), i + 1, i as int));
}

/// A character boundary lies within the bytes.
pub proof fn lemma_char_boundary_position(bytes: Seq<u8>, i: int)
    requires
        vstd::utf8::valid_utf8(bytes),
        is_char_boundary(bytes, i),
    ensures
        0 <= i <= bytes.len(),
{
}

/// The end of a valid UTF-8 prefix is a character boundary of the whole.
pub proof fn lemma_concat_boundary(a: Seq<u8>, b: Seq<u8>)
    requires
        vstd::utf8::valid_utf8(a),
        vstd::utf8::valid_utf8(b),
    ensures
        vstd::utf8::valid_utf8(a + b),
        is_char_boundary(a + b, a.len() as int),
    decreases a.len(),
{
    vstd::utf8::valid_utf8_concat(a, b);
    if a.len() > 0 {
        let rest = vstd::utf8::pop_first_scalar(a);
        lemma_first_scalar_prefix(a, b);
        lemma_concat_boundary(rest, b);
        assert(vstd::utf8::pop_first_scalar(a + b) =~= rest + b);
    }
}

proof fn lemma_first_scalar_prefix(a: Seq<u8>, b: Seq<u8>)
    requires
        vstd::utf8::valid_utf8(a),
        a.len() > 0,
    ensures
        vstd::utf8::length_of_first_scalar(a + b) == vstd::utf8::length_of_first_scalar(a),
        vstd::utf8::length_of_first_scalar(a) <= a.len(),
        vstd::utf8::length_of_first_scalar(a) > 0,
        vstd::utf8::valid_utf8(vstd::utf8::pop_first_scalar(a)),
{
    reveal_with_fuel(vstd::utf8::valid_utf8, 2);
    assert((a + b)[0] == a[0]);
    if a.len() >= 2 {
        assert((a + b)[1] == a[1]);
    }
    if a.len() >= 3 {
        assert((a + b)[2] == a[2]);
    }
    if a.len() >= 4 {
        assert((a + b)[3] == a[3]);
    }
}

/// After inserting the encoding of `ch` at boundary `c`, the position after it is a
/// boundary.
pub proof fn lemma_insert_keeps_boundary(s: Seq<char>, c: int, ch: char)
    requires
        is_char_boundary(encode_utf8(s), c),
    ensures
        is_char_boundary(
            encode_utf8(s).take(c) + encode_utf8(seq![ch]) + encode_utf8(s).skip(c),
            c + encode_utf8(seq![ch]).len(),
        ),
{
    let bytes = encode_utf8(s);
    vstd::utf8::encode_utf8_valid_utf8(s);
    vstd::utf8::encode_utf8_valid_utf8(seq![ch]);
    vstd::utf8::valid_utf8_split(bytes, c);
    assert(bytes.take(c) =~= bytes.subrange(0, c));
    assert(bytes.skip(c) =~= bytes.subrange(c, bytes.len() as int));
    vstd::utf8::valid_utf8_concat(bytes.take(c), encode_utf8(seq![ch]));
    lemma_concat_boundary(bytes.take(c) + encode_utf8(seq![ch]), bytes.skip(c));
}

/// After removing the bytes between boundaries `p` and `c`, `p` is a boundary.
pub proof fn lemma_boundaries_after_remove(bytes: Seq<u8>, p: int, c: int)
    requires
        vstd::utf8::valid_utf8(bytes),
        is_char_boundary(bytes, p),
        is_char_boundary(bytes, c),
        p <= c,
    ensures
        is_char_boundary(bytes.take(p) + bytes.skip(c), p),
{
    vstd::utf8::valid_utf8_split(bytes, p);
    vstd::utf8::valid_utf8_split(bytes, c);
    assert(bytes.take(p) =~= bytes.subrange(0, p));
    assert(bytes.skip(c) =~= bytes.subrange(c, bytes.len() as int));
    lemma_concat_boundary(bytes.take(p), bytes.skip(c));
}

pub proof fn lemma_max_id_bounds(ss: Seq<SlideView>)
    ensures
        forall|i: int, j: int|
            0 <= i < ss.len() && 0 <= j < ss[i].blocks.len() ==> #[trigger] ss[i].blocks[j].id
                <= max_id(ss),
    decreases ss.len(),
{
    if ss.len() > 0 {
        lemma_max_id_bounds(ss.drop_last());
        lemma_max_id_in_bounds(ss.last().blocks);
        assert forall|i: int, j: int|
            0 <= i < ss.len() && 0 <= j < ss[i].blocks.len() implies #[trigger] ss[i].blocks[j].id
                <= max_id(ss) by {
            if i < ss.len() - 1 {
                assert(ss.drop_last()[i] == ss[i]);
            }
        }
    }
}

pub proof fn lemma_max_id_in_bounds(bs: Seq<BlockView>)
    ensures
        forall|j: int| 0 <= j < bs.len() ==> #[trigger] bs[j].id <= max_id_in(bs),
    decreases bs.len(),
{
    if bs.len() > 0 {
        lemma_max_id_in_bounds(bs.drop_last());
        assert forall|j: int| 0 <= j < bs.len() implies #[trigger] bs[j].id <= max_id_in(bs) by {
            if j < bs.len() - 1 {
                assert(bs.drop_last()[j] == bs[j]);
            }
        }
    }
}

// ───────────────────────────── laws of the editor ─────────────────────────────

/// Going to the next slide and back shows the slide again, from its first block.
pub proof fn law_next_then_prev_slide(v: AppView)
    requires
        wf(v),
        v.current_slide + 1 < v.presentation.slides.len() <= usize::MAX,
    ensures
        prev_slide_s(next_slide_s(v)) == show_slide(v, v.current_slide),
        prev_slide_s(next_slide_s(v)).current_slide == v.current_slide,
{
}

/// `k` advances in presentation mode.
pub open spec fn advance_n(v: AppView, k: nat) -> AppView
    decreases k,
{
    if k == 0 {
        v
    } else {
        advance_present_s(advance_n(v, (k - 1) as nat))
    }
}

proof fn lemma_advance_n(v: AppView, k: nat)
    requires
        wf(v),
        v.reveal_step == 0,
        k <= reveal_steps_s(cur(v).blocks),
        reveal_steps_s(cur(v).blocks) <= usize::MAX,
    ensures
        advance_n(v, k) == (AppView { reveal_step: k as usize, ..v }),
    decreases k,
{
    if k > 0 {
        lemma_advance_n(v, (k - 1) as nat);
    }
}

/// A text block has no more reveal markers than its slide has reveal steps.
proof fn lemma_reveal_steps_bound(bs: Seq<BlockView>, j: int)
    requires
        0 <= j < bs.len(),
        bs[j].kind is Text,
    ensures
        reveal_count_s(bs[j].content) <= reveal_steps_s(bs),
    decreases bs.len(),
{
    if j < bs.len() - 1 {
        assert(bs.drop_last()[j] == bs[j]);
        lemma_reveal_steps_bound(bs.drop_last(), j);
    }
}

/// In presentation mode, advancing from a slide first reveals its hidden parts one step at
/// a time and stays on the slide; once every step is revealed, each text block shows all
/// its lines but the reveal markers, and advancing again goes to the next slide.
pub proof fn law_reveal_before_next_slide(v: AppView)
    requires
        wf(v),
        v.reveal_step == 0,
        reveal_steps_s(cur(v).blocks) <= usize::MAX,
    ensures
        forall|k: nat|
            k <= reveal_steps_s(cur(v).blocks) ==> #[trigger] advance_n(v, k) == (AppView {
                reveal_step: k as usize,
                ..v
            }),
        forall|j: int|
            0 <= j < cur(v).blocks.len() && cur(v).blocks[j].kind is Text ==> #[trigger] presented_s(
                advance_n(v, reveal_steps_s(cur(v).blocks)),
            ).blocks[j].content == join_nl(plain_lines(lines(cur(v).blocks[j].content), 0)),
        advance_n(v, reveal_steps_s(cur(v).blocks) + 1) == next_slide_s(
            advance_n(v, reveal_steps_s(cur(v).blocks)),
        ),
{
    let n = reveal_steps_s(cur(v).blocks);
    assert forall|k: nat| k <= n implies #[trigger] advance_n(v, k) == (AppView { reveal_step: k as usize, ..v }) by {
        lemma_advance_n(v, k);
    }
    lemma_advance_n(v, n);
    let w = advance_n(v, n);
    assert forall|j: int|
        0 <= j < cur(v).blocks.len() && cur(v).blocks[j].kind is Text implies #[trigger] presented_s(w).blocks[j].content
            == join_nl(plain_lines(lines(cur(v).blocks[j].content), 0)) by {
        lemma_reveal_steps_bound(cur(v).blocks, j);
        law_full_reveal(cur(v).blocks[j].content, n);
    }
    assert(advance_n(v, n + 1) == advance_present_s(w));
}

/// The first character boundary after `i` is after `i`, at most the end, and no offset
/// between them is a boundary.
proof fn lemma_next_boundary(bytes: Seq<u8>, i: int)
    requires
        vstd::utf8::valid_utf8(bytes),
        is_char_boundary(bytes, bytes.len() as int),
        0 <= i < bytes.len(),
    ensures
        i < next_boundary(bytes, i) <= bytes.len(),
        is_char_boundary(bytes, next_boundary(bytes, i)),
        forall|k: int| i < k < next_boundary(bytes, i) ==> !is_char_boundary(bytes, k),
    decreases bytes.len() - i,
{
    if i + 1 < bytes.len() && !is_char_boundary(bytes, i + 1) {
        lemma_next_boundary(bytes, i + 1);
    }
}

/// Moving the cursor right while editing steps over exactly one character: the new cursor
/// is the next character boundary after the old one (one byte on for ASCII text), and the
/// text is left as it was. At the end of the text the cursor stays.
pub proof fn law_cursor_right_steps_one_character(v: AppView)
    requires
        buffer_bytes(v).len() <= usize::MAX,
    ensures
        v.edit_cursor < buffer_bytes(v).len() ==> {
            let c = cursor_right_s(v).edit_cursor as int;
            &&& v.edit_cursor < c <= buffer_bytes(v).len()
            &&& is_char_boundary(buffer_bytes(v), c)
            &&& forall|k: int| v.edit_cursor < k < c ==> !is_char_boundary(buffer_bytes(v), k)
            &&& cursor_right_s(v) == (AppView { edit_cursor: c as usize, ..v })
        },
        v.edit_cursor >= buffer_bytes(v).len() ==> cursor_right_s(v) == v,
{
    if v.edit_cursor < buffer_bytes(v).len() {
        lemma_valid(v.edit_buffer);
        lemma_next_boundary(buffer_bytes(v), v.edit_cursor as int);
        let nb = next_boundary(buffer_bytes(v), v.edit_cursor as int);
        assert(cursor_right_s(v).edit_cursor == nb as usize);
        assert((nb as usize) as int == nb);
    }
}

/// Adding a slide puts an empty slide titled "新しいスライド" right after the slide that
/// was shown and shows it, with no block selected; every other slide keeps its place in
/// the order.
pub proof fn law_add_slide_after_current(v: AppView)
    requires
        wf(v),
        v.presentation.slides.len() < usize::MAX,
    ensures
        ({
            let w = add_slide_s(v);
            let c = v.current_slide as int;
            let n = v.presentation.slides.len();
            &&& w.presentation.slides.len() == n + 1
            &&& w.current_slide == c + 1
            &&& w.presentation.slides[c + 1].title == "新しいスライド"@
            &&& w.presentation.slides[c + 1].blocks.len() == 0
            &&& w.selected_block is None
            &&& forall|k: int| 0 <= k <= c ==> #[trigger] w.presentation.slides[k] == v.presentation.slides[k]
            &&& forall|k: int| c < k < n ==> #[trigger] w.presentation.slides[k + 1] == v.presentation.slides[k]
        }),
{
    let w = add_slide_s(v);
    let c = v.current_slide as int;
    let ns = SlideView { title: new_slide_title(), blocks: seq![] };
    assert(w.presentation.slides == v.presentation.slides.insert(c + 1, ns));
    reveal_strlit("新しいスライド");
    assert(w.presentation.slides[c + 1] == ns);
}

/// Moving the selected block down and then up again restores the slide and the selection.
pub proof fn law_move_down_then_up(v: AppView)
    requires
        wf(v),
        v.selected_block matches Some(s) && s + 1 < cur(v).blocks.len() <= usize::MAX,
    ensures
        move_block_up_s(move_block_down_s(v)) == v,
{
    let s = v.selected_block.unwrap();
    let sl = cur(v);
    let bs2 = swapped(sl.blocks, s as int, s + 1);
    assert(swapped(bs2, s + 1, s as int) =~= sl.blocks);
    let v1 = move_block_down_s(v);
    assert(cur(v1).blocks == bs2);
    let v2 = move_block_up_s(v1);
    assert(v2.presentation.slides =~= v.presentation.slides);
}

/// Moving the selected block up and then down again restores the slide and the selection.
pub proof fn law_move_up_then_down(v: AppView)
    requires
        wf(v),
        v.selected_block matches Some(s) && 0 < s < cur(v).blocks.len(),
    ensures
        move_block_down_s(move_block_up_s(v)) == v,
{
    let s = v.selected_block.unwrap();
    let sl = cur(v);
    let bs2 = swapped(sl.blocks, s as int, s - 1);
    assert(swapped(bs2, s - 1, s as int) =~= sl.blocks);
    let v1 = move_block_up_s(v);
    assert(cur(v1).blocks == bs2);
    let v2 = move_block_down_s(v1);
    assert(v2.presentation.slides =~= v.presentation.slides);
}

/// Typing a character and deleting the character before the cursor restores the edit
/// buffer and the cursor.
pub proof fn law_insert_then_delete(v: AppView, ch: char)
    requires
        is_char_boundary(buffer_bytes(v), v.edit_cursor as int),
        buffer_bytes(v).len() + 4 <= usize::MAX,
    ensures
        delete_char_before_s(insert_char_s(v, ch)) == v,
{
    let bytes = buffer_bytes(v);
    let c = v.edit_cursor as int;
    let x = encode_utf8(seq![ch]);
    let k = x.len() as int;
    vstd::utf8::encode_utf8_valid_utf8(v.edit_buffer);
    vstd::utf8::encode_utf8_valid_utf8(seq![ch]);
    lemma_char_boundary_position(bytes, c);
    vstd::utf8::valid_utf8_split(bytes, c);
    let a = bytes.take(c);
    let b = bytes.skip(c);
    assert(a =~= bytes.subrange(0, c));
    assert(b =~= bytes.subrange(c, bytes.len() as int));
    let xb = x + b;
    vstd::utf8::valid_utf8_concat(x, b);
    let nb = a + xb;
    vstd::utf8::valid_utf8_concat(a, xb);
    assert(a + x + b =~= nb);
    lemma_single_char_len(ch);
    // the bytes inside the new character are no boundaries, the one before it is
    assert forall|j: int| c < j < c + k implies !#[trigger] is_char_boundary(nb, j) by {
        lemma_inner_not_boundary(x, b, j - c);
        lemma_boundary_shift(a, xb, j - c);
        assert(a.len() + (j - c) == j);
    }
    lemma_concat_boundary(a, xb);
    lemma_prev_boundary_skips(nb, c, c + k);
    vstd::utf8::decode_utf8_encode_utf8(nb);
    let v1 = insert_char_s(v, ch);
    assert(buffer_bytes(v1) == nb);
    assert(v1.edit_cursor == c + k);
    assert(nb.take(c) + nb.skip(c + k) =~= bytes);
    lemma_decode_encode(v.edit_buffer);
}

/// A new block gets an id that no block had, and every id stays below the next one.
pub proof fn law_add_block_fresh_id(v: AppView, kind: KindView)
    requires
        wf(v),
        sel_valid(v),
        ids_below(v),
        v.next_block_id < u64::MAX,
    ensures
        ids_below(add_block_s(v, kind)),
        forall|i: int, j: int|
            0 <= i < v.presentation.slides.len() && 0 <= j < v.presentation.slides[i].blocks.len()
                ==> #[trigger] v.presentation.slides[i].blocks[j].id != v.next_block_id,
{
    let v1 = add_block_s(v, kind);
    let c = v.current_slide as int;
    let sl = cur(v);
    let pos = match v.selected_block {
        Some(s) => s + 1,
        None => sl.blocks.len() as int,
    };
    let b = BlockView { id: v.next_block_id, kind, content: seq![] };
    assert forall|i: int, j: int|
        0 <= i < v1.presentation.slides.len() && 0 <= j < v1.presentation.slides[i].blocks.len()
            implies #[trigger] v1.presentation.slides[i].blocks[j].id < v1.next_block_id by {
        if i == c {
            let nbs = sl.blocks.insert(pos, b);
            assert(v1.presentation.slides[i].blocks == nbs);
            if j < pos {
                assert(nbs[j] == sl.blocks[j]);
                assert(v.presentation.slides[c].blocks[j].id < v.next_block_id);
            } else if j > pos {
                assert(nbs[j] == sl.blocks[j - 1]);
                assert(v.presentation.slides[c].blocks[j - 1].id < v.next_block_id);
            }
        } else {
            assert(v1.presentation.slides[i] == v.presentation.slides[i]);
            assert(v.presentation.slides[i].blocks[j].id < v.next_block_id);
        }
    }
}

/// No two blocks of the presentation share an id.
pub open spec fn ids_unique(v: AppView) -> bool {
    forall|i1: int, j1: int, i2: int, j2: int|
        0 <= i1 < v.presentation.slides.len() && 0 <= j1 < v.presentation.slides[i1].blocks.len() && 0
            <= i2 < v.presentation.slides.len() && 0 <= j2 < v.presentation.slides[i2].blocks.len() && (i1
            != i2 || j1 != j2) ==> #[trigger] v.presentation.slides[i1].blocks[j1].id
            != #[trigger] v.presentation.slides[i2].blocks[j2].id
}

/// Where block `j` of slide `i` stood before a block was added at `pos` on slide `c`.
spec fn before_add(i: int, j: int, c: int, pos: int) -> int {
    if i == c && j > pos {
        j - 1
    } else {
        j
    }
}

/// After adding a block, every block is the new one or a block that was there before.
proof fn lemma_add_block_origin(v: AppView, kind: KindView, i: int, j: int)
    requires
        wf(v),
        sel_valid(v),
        0 <= i < add_block_s(v, kind).presentation.slides.len(),
        0 <= j < add_block_s(v, kind).presentation.slides[i].blocks.len(),
    ensures
        ({
            let c = v.current_slide as int;
            let pos = match v.selected_block {
                Some(s) => s + 1,
                None => cur(v).blocks.len() as int,
            };
            if i == c && j == pos {
                add_block_s(v, kind).presentation.slides[i].blocks[j].id == v.next_block_id
            } else {
                &&& 0 <= before_add(i, j, c, pos) < v.presentation.slides[i].blocks.len()
                &&& add_block_s(v, kind).presentation.slides[i].blocks[j].id
                    == v.presentation.slides[i].blocks[before_add(i, j, c, pos)].id
            }
        }),
{
    let c = v.current_slide as int;
    let sl = cur(v);
    let pos = match v.selected_block {
        Some(s) => s + 1,
        None => sl.blocks.len() as int,
    };
    let b = BlockView { id: v.next_block_id, kind, content: seq![] };
    let v1 = add_block_s(v, kind);
    if i == c {
        let nbs = sl.blocks.insert(pos, b);
        assert(v1.presentation.slides[i].blocks == nbs);
        if j < pos {
            assert(nbs[j] == sl.blocks[j]);
        } else if j > pos {
            assert(nbs[j] == sl.blocks[j - 1]);
        }
    } else {
        assert(v1.presentation.slides[i] == v.presentation.slides[i]);
    }
}

/// Adding a block keeps every block id distinct: the new block's id is below no other.
pub proof fn law_add_block_keeps_ids_distinct(v: AppView, kind: KindView)
    requires
        wf(v),
        sel_valid(v),
        ids_below(v),
        ids_unique(v),
        v.next_block_id < u64::MAX,
    ensures
        ids_unique(add_block_s(v, kind)),
        ids_below(add_block_s(v, kind)),
        add_block_s(v, kind).next_block_id == v.next_block_id + 1,
{
    law_add_block_fresh_id(v, kind);
    let v1 = add_block_s(v, kind);
    let c = v.current_slide as int;
    let pos = match v.selected_block {
        Some(s) => s + 1,
        None => cur(v).blocks.len() as int,
    };
    assert forall|i1: int, j1: int, i2: int, j2: int|
        0 <= i1 < v1.presentation.slides.len() && 0 <= j1 < v1.presentation.slides[i1].blocks.len() && 0
            <= i2 < v1.presentation.slides.len() && 0 <= j2 < v1.presentation.slides[i2].blocks.len() && (
        i1 != i2 || j1 != j2) implies #[trigger] v1.presentation.slides[i1].blocks[j1].id
        != #[trigger] v1.presentation.slides[i2].blocks[j2].id by {
        lemma_add_block_origin(v, kind, i1, j1);
        lemma_add_block_origin(v, kind, i2, j2);
        let n1 = i1 == c && j1 == pos;
        let n2 = i2 == c && j2 == pos;
        if n1 && !n2 {
            let k2 = before_add(i2, j2, c, pos);
            assert(v.presentation.slides[i2].blocks[k2].id < v.next_block_id);
        } else if n2 && !n1 {
            let k1 = before_add(i1, j1, c, pos);
            assert(v.presentation.slides[i1].blocks[k1].id < v.next_block_id);
        } else if !n1 && !n2 {
            let k1 = before_add(i1, j1, c, pos);
            let k2 = before_add(i2, j2, c, pos);
            assert(i1 != i2 || k1 != k2);
            assert(v.presentation.slides[i1].blocks[k1].id != v.presentation.slides[i2].blocks[k2].id);
        }
    }
}

/// Signing the selected exec block and asking to run it leads to the run confirmation.
pub proof fn law_sign_then_run(v: AppView)
    requires
        wf(v),
        sel_valid(v),
        exec_selected(v),
    ensures
        try_exec_selected_s(sign_selected_s(v)).mode == AppMode::ExecConfirm,
{
    let s = v.selected_block.unwrap();
    let v1 = sign_selected_s(v);
    assert(cur(v1).blocks[s as int].kind is Exec);
    assert(signed_selected(v1));
}

/// Committing an edit that changes an exec block's command leaves the block unsigned.
pub proof fn law_changed_command_loses_signature(v: AppView)
    requires
        wf(v),
        sel_valid(v),
        exec_selected(v),
        selected_view(v).unwrap().content != v.edit_buffer,
    ensures
        exec_selected(commit_edit_s(v)),
        !signed_selected(commit_edit_s(v)),
        selected_view(commit_edit_s(v)).unwrap().content == v.edit_buffer,
{
    let s = v.selected_block.unwrap();
    let v1 = commit_edit_s(v);
    assert(cur(v1).blocks[s as int] == edited_block(cur(v).blocks[s as int], v.edit_buffer));
}

/// Every editing operation keeps the editor on an existing slide, with a selection that
/// names one of its blocks (or nothing).
pub proof fn law_operations_keep_selection_valid(v: AppView, idx: usize, kind: KindView)
    requires
        wf(v),
        sel_valid(v),
        v.presentation.slides.len() <= usize::MAX,
        cur(v).blocks.len() < usize::MAX,
    ensures
        wf(prev_slide_s(v)) && sel_valid(prev_slide_s(v)),
        wf(next_slide_s(v)) && sel_valid(next_slide_s(v)),
        wf(go_to_slide_s(v, idx)) && sel_valid(go_to_slide_s(v, idx)),
        wf(prev_block_s(v)) && sel_valid(prev_block_s(v)),
        wf(next_block_s(v)) && sel_valid(next_block_s(v)),
        wf(move_block_up_s(v)) && sel_valid(move_block_up_s(v)),
        wf(move_block_down_s(v)) && sel_valid(move_block_down_s(v)),
        wf(commit_edit_s(v)) && sel_valid(commit_edit_s(v)),
        wf(sign_selected_s(v)) && sel_valid(sign_selected_s(v)),
        wf(add_block_s(v, kind)) && sel_valid(add_block_s(v, kind)),
        wf(add_slide_s(v)) && sel_valid(add_slide_s(v)),
        wf(advance_present_s(v)) && sel_valid(advance_present_s(v)),
{
}

/// A character's UTF-8 encoding has one to four bytes.
proof fn lemma_single_char_len(ch: char)
    ensures
        1 <= encode_utf8(seq![ch]).len() <= 4,
        vstd::utf8::length_of_first_scalar(encode_utf8(seq![ch])) == encode_utf8(seq![ch]).len(),
{
    vstd::utf8::encode_utf8_first_scalar(seq![ch]);
    vstd::utf8::encode_utf8_valid_utf8(seq![ch]);
    assert(seq![ch].drop_first() =~= Seq::<char>::empty());
    reveal_with_fuel(encode_utf8, 2);
}

/// Inside the encoding of the first character there is no boundary.
proof fn lemma_inner_not_boundary(x: Seq<u8>, b: Seq<u8>, j: int)
    requires
        vstd::utf8::valid_utf8(x),
        vstd::utf8::valid_utf8(b),
        x.len() > 0,
        vstd::utf8::length_of_first_scalar(x) == x.len(),
        0 < j < x.len(),
    ensures
        !is_char_boundary(x + b, j),
{
    lemma_first_scalar_prefix(x, b);
    vstd::utf8::valid_utf8_concat(x, b);
    assert(vstd::utf8::pop_first_scalar(x + b) =~= b);
    reveal_with_fuel(is_char_boundary, 2);
}

/// Behind a valid prefix `a`, the boundaries of `a + x` are those of `x`, shifted.
proof fn lemma_boundary_shift(a: Seq<u8>, x: Seq<u8>, j: int)
    requires
        vstd::utf8::valid_utf8(a),
        vstd::utf8::valid_utf8(x),
        j > 0,
    ensures
        is_char_boundary(a + x, a.len() + j) == is_char_boundary(x, j),
    decreases a.len(),
{
    vstd::utf8::valid_utf8_concat(a, x);
    if a.len() == 0 {
        assert(a + x =~= x);
    } else {
        lemma_first_scalar_prefix(a, x);
        let rest = vstd::utf8::pop_first_scalar(a);
        assert(vstd::utf8::pop_first_scalar(a + x) =~= rest + x);
        lemma_boundary_shift(rest, x, j);
    }
}

/// From just past `c` up to `e`, the last boundary before is `c` when nothing between
/// them is a boundary.
proof fn lemma_prev_boundary_skips(bytes: Seq<u8>, c: int, e: int)
    requires
        0 <= c < e,
        is_char_boundary(bytes, c),
        forall|j: int| c < j < e ==> !#[trigger] is_char_boundary(bytes, j),
    ensures
        prev_boundary(bytes, e) == c,
    decreases e - c,
{
    if e > c + 1 {
        lemma_prev_boundary_skips(bytes, c, e - 1);
        assert(!is_char_boundary(bytes, e - 1));
    }
}

} // verus!
