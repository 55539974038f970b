//! What each key does, in each mode of the editor.
use vstd::prelude::*;
use vstd::utf8::{encode_utf8, is_char_boundary};
use crate::app::{
    add_block_s, advance_present_s, buffer_bytes, commit_edit_s, cur, cursor_left_s, cursor_right_s,
    delete_char_before_s, enter_present_s, exec_selected, go_to_slide_s, insert_char_s,
    law_operations_keep_selection_valid, move_block_down_s, move_block_up_s, next_block_s,
    next_slide_s, prepare_exec_s, prev_block_s, prev_slide_s, sel_valid, set_font_size_s,
    set_mode, set_status_s, sign_selected_s, start_edit_s, try_exec_selected_s, try_present_exec_selected_s, wf, App,
    AppMode, AppView,
};
use crate::model::{opt_view, owned, BlockKind, KindView, SlideView};

verus! {

/// A key, as the editor tells keys apart.
#[derive(Debug, Clone, Copy, PartialEq, Eq, Structural)]
pub enum Key {
    Char(char),
    Enter,
    Esc,
    Backspace,
    Left,
    Right,
    Up,
    Down,
    PageUp,
    PageDown,
    /// Any other key.
    Other,
}

/// A key press, with the modifiers the editor looks at.
#[derive(Debug, Clone, Copy, PartialEq, Eq, Structural)]
pub struct KeyPress {
    pub code: Key,
    pub ctrl: bool,
    pub shift: bool,
}

/// What the caller does after a key was handled.
pub enum Action {
    Continue,
    Quit,
    /// Run this command with the shell, then hand its output to `App::finish_exec`.
    Run(String),
}

/// The mathematical model of an [`Action`].
pub enum Outcome {
    Stay,
    Quit,
    Run(Seq<char>),
}

pub open spec fn outcome(a: Action) -> Outcome {
    match a {
        Action::Continue => Outcome::Stay,
        Action::Quit => Outcome::Quit,
        Action::Run(c) => Outcome::Run(c@),
    }
}

/// What the editor needs before any key: it shows a slide with a valid selection and a
/// fresh id to give, the edit cursor sits on a character boundary, and the signature of any
/// block of the slide can be computed without overflow.
pub open spec fn ready(v: AppView) -> bool {
    &&& wf(v)
    &&& sel_valid(v)
    &&& v.presentation.slides.len() <= usize::MAX
    &&& cur(v).blocks.len() < usize::MAX
    &&& is_char_boundary(buffer_bytes(v), v.edit_cursor as int)
    &&& v.next_block_id < u64::MAX - 1
    &&& forall|i: int|
        0 <= i < cur(v).blocks.len() ==> encode_utf8(#[trigger] cur(v).blocks[i].content).len()
            * 31 + 0xdeadbeef <= usize::MAX
}

pub open spec fn saved_message() -> Seq<char> {
    "保存しました（未実装）"@
}

pub open spec fn review_message() -> Seq<char> {
    "AI審査: 未実装（ANTHROPIC_API_KEY があれば呼び出します）"@
}

pub open spec fn pick_exec_message() -> Seq<char> {
    "execブロックを選択してください"@
}

pub open spec fn exec_added_message() -> Seq<char> {
    "execブロックを追加しました。'e'でコマンド編集、's'で署名してから Space で実行"@
}

pub open spec fn run_cancelled_message() -> Seq<char> {
    "実行をキャンセルしました"@
}

/// Keys while moving between slides and blocks.
pub open spec fn normal_s(v: AppView, k: KeyPress) -> (AppView, Outcome) {
    if k.ctrl && k.code == Key::Char('s') {
        (set_status_s(v, saved_message()), Outcome::Stay)
    } else if k.ctrl && k.code == Key::Char('c') {
        (v, Outcome::Quit)
    } else if k.ctrl && k.code == Key::Char('q') {
        (v, Outcome::Stay)
    } else {
        match k.code {
            Key::Char(c) => if c == 'q' {
                (v, Outcome::Quit)
            } else if c == 'h' {
                (prev_slide_s(v), Outcome::Stay)
            } else if c == 'l' {
                (next_slide_s(v), Outcome::Stay)
            } else if c == 'k' {
                (prev_block_s(v), Outcome::Stay)
            } else if c == 'j' {
                (next_block_s(v), Outcome::Stay)
            } else if c == 'e' {
                (start_edit_s(v), Outcome::Stay)
            } else if c == 'n' {
                (set_mode(v, AppMode::BlockPicker), Outcome::Stay)
            } else if c == 'K' {
                (move_block_up_s(v), Outcome::Stay)
            } else if c == 'J' {
                (move_block_down_s(v), Outcome::Stay)
            } else if c == 'N' {
                (crate::app::add_slide_s(v), Outcome::Stay)
            } else if c == ' ' {
                (try_exec_selected_s(v), Outcome::Stay)
            } else if c == 's' {
                (sign_selected_s(v), Outcome::Stay)
            } else if c == 'a' {
                (set_status_s(v, if exec_selected(v) {
                    review_message()
                } else {
                    pick_exec_message()
                }), Outcome::Stay)
            } else if c == 'p' {
                (enter_present_s(v), Outcome::Stay)
            } else if '1' <= c && c <= '9' {
                (go_to_slide_s(v, (c as u32 - '1' as u32) as usize), Outcome::Stay)
            } else {
                (v, Outcome::Stay)
            },
            Key::Left => (prev_slide_s(v), Outcome::Stay),
            Key::Right => (next_slide_s(v), Outcome::Stay),
            Key::Up => (prev_block_s(v), Outcome::Stay),
            Key::Down => (next_block_s(v), Outcome::Stay),
            Key::Enter => (start_edit_s(v), Outcome::Stay),
            Key::Esc => (AppView { status_message: None, ..v }, Outcome::Stay),
            _ => (v, Outcome::Stay),
        }
    }
}

/// Keys while editing the text of a block.
pub open spec fn editing_s(v: AppView, k: KeyPress) -> AppView {
    match k.code {
        Key::Esc => set_mode(v, AppMode::Normal),
        Key::Backspace => delete_char_before_s(v),
        Key::Left => cursor_left_s(v),
        Key::Right => cursor_right_s(v),
        Key::Enter => if k.shift {
            insert_char_s(v, '\n')
        } else {
            commit_edit_s(v)
        },
        Key::Char(c) => if k.ctrl {
            if c == 'c' {
                set_mode(v, AppMode::Normal)
            } else {
                v
            }
        } else {
            insert_char_s(v, c)
        },
        _ => v,
    }
}

/// Adding a block of `kind` and editing it at once.
pub open spec fn add_and_edit_s(v: AppView, kind: KindView) -> AppView {
    start_edit_s(add_block_s(v, kind))
}

/// Keys while choosing the kind of a block to add.
pub open spec fn picker_s(v: AppView, k: KeyPress) -> AppView {
    match k.code {
        Key::Esc => set_mode(v, AppMode::Normal),
        Key::Char(c) => if c == '1' {
            add_and_edit_s(v, KindView::Heading { level: 1 })
        } else if c == '2' {
            add_and_edit_s(v, KindView::Text)
        } else if c == '3' {
            add_and_edit_s(v, KindView::Code { lang: "rust"@ })
        } else if c == '4' {
            start_edit_s(
                set_status_s(
                    add_block_s(v, KindView::Exec { lang: "bash"@, signature: None }),
                    exec_added_message(),
                ),
            )
        } else if c == '5' {
            set_mode(add_block_s(v, KindView::OutputPlaceholder), AppMode::Normal)
        } else if c == '6' {
            set_mode(add_block_s(v, KindView::Separator), AppMode::Normal)
        } else {
            v
        },
        _ => v,
    }
}

/// Keys while asking whether to run the selected exec block.
pub open spec fn confirm_s(v: AppView, k: KeyPress) -> (AppView, Outcome) {
    if k.code == Key::Char('y') || k.code == Key::Enter {
        let (v1, cmd) = prepare_exec_s(v);
        (v1, match cmd {
            Some(c) => Outcome::Run(c),
            None => Outcome::Stay,
        })
    } else if k.code == Key::Char('n') || k.code == Key::Esc {
        (set_status_s(set_mode(v, AppMode::Normal), run_cancelled_message()), Outcome::Stay)
    } else {
        (v, Outcome::Stay)
    }
}

/// Keys while asking, during the presentation, whether to run the selected exec block:
/// running or cancelling both go back to the presentation.
pub open spec fn present_confirm_s(v: AppView, k: KeyPress) -> (AppView, Outcome) {
    if k.code == Key::Char('y') || k.code == Key::Enter {
        let (v1, cmd) = prepare_exec_s(v);
        (v1, match cmd {
            Some(c) => Outcome::Run(c),
            None => Outcome::Stay,
        })
    } else if k.code == Key::Char('n') || k.code == Key::Esc {
        (set_status_s(set_mode(v, AppMode::Present), run_cancelled_message()), Outcome::Stay)
    } else {
        (v, Outcome::Stay)
    }
}

/// Keys while presenting.
pub open spec fn present_s(v: AppView, k: KeyPress) -> (AppView, Outcome) {
    if k.ctrl && k.code == Key::Char('c') {
        (v, Outcome::Quit)
    } else if k.ctrl && k.code == Key::Char('q') {
        (v, Outcome::Stay)
    } else {
        (
            match k.code {
                Key::Char(c) => if c == 'l' {
                    advance_present_s(v)
                } else if c == ' ' {
                    if exec_selected(v) {
                        try_present_exec_selected_s(v)
                    } else {
                        advance_present_s(v)
                    }
                } else if c == 'h' {
                    prev_slide_s(v)
                } else if c == 'k' {
                    prev_block_s(v)
                } else if c == 'j' {
                    next_block_s(v)
                } else if c == 's' {
                    sign_selected_s(v)
                } else if c == '+' || c == '=' {
                    set_font_size_s(v, v.presentation.font_size + 1)
                } else if c == '-' {
                    set_font_size_s(v, v.presentation.font_size - 1)
                } else if c == 'q' {
                    set_mode(v, AppMode::Normal)
                } else {
                    v
                },
                Key::Right => advance_present_s(v),
                Key::Enter => if exec_selected(v) {
                    try_present_exec_selected_s(v)
                } else {
                    advance_present_s(v)
                },
                Key::Left => prev_slide_s(v),
                Key::Backspace => prev_slide_s(v),
                Key::Up => prev_block_s(v),
                Key::Down => next_block_s(v),
                Key::Esc => set_mode(v, AppMode::Normal),
                _ => v,
            },
            Outcome::Stay,
        )
    }
}

/// What a key does in the editor `v`, by mode.
pub open spec fn handle_key_s(v: AppView, k: KeyPress) -> (AppView, Outcome) {
    match v.mode {
        AppMode::Normal => normal_s(v, k),
        AppMode::EditingBlock => (editing_s(v, k), Outcome::Stay),
        AppMode::BlockPicker => (picker_s(v, k), Outcome::Stay),
        AppMode::ExecConfirm => confirm_s(v, k),
        AppMode::Present => present_s(v, k),
        AppMode::PresentExecConfirm => present_confirm_s(v, k),
    }
}

fn handle_normal(app: &mut App, key: KeyPress) -> (r: Action)
    requires
        ready(old(app)@),
        old(app)@.mode == AppMode::Normal,
    ensures
        final(app)@ == normal_s(old(app)@, key).0,
        outcome(r) == normal_s(old(app)@, key).1,
{
    if key.ctrl {
        match key.code {
            Key::Char('s') => {
                app.set_status(owned("保存しました（未実装）"));
                return Action::Continue;
            },
            Key::Char('c') => {
                return Action::Quit;
            },
            Key::Char('q') => {
                return Action::Continue;
            },
            _ => {},
        }
    }
    match key.code {
        Key::Char(c) => {
            if c == 'q' {
                return Action::Quit;
            } else if c == 'h' {
                app.prev_slide();
            } else if c == 'l' {
                app.next_slide();
            } else if c == 'k' {
                app.prev_block();
            } else if c == 'j' {
                app.next_block();
            } else if c == 'e' {
                app.start_edit();
            } else if c == 'n' {
                app.mode = AppMode::BlockPicker;
            } else if c == 'K' {
                app.move_block_up();
            } else if c == 'J' {
                app.move_block_down();
            } else if c == 'N' {
                app.add_slide();
            } else if c == ' ' {
                app.try_exec_selected();
            } else if c == 's' {
                app.sign_selected();
            } else if c == 'a' {
                if app.is_exec_selected() {
                    app.set_status(owned("AI審査: 未実装（ANTHROPIC_API_KEY があれば呼び出します）"));
                } else {
                    app.set_status(owned("execブロックを選択してください"));
                }
            } else if c == 'p' {
                app.enter_present();
            } else if '1' <= c && c <= '9' {
                let n: u32 = (c as u32) - ('1' as u32);
                app.go_to_slide(n as usize);
            }
        },
        Key::Left => app.prev_slide(),
        Key::Right => app.next_slide(),
        Key::Up => app.prev_block(),
        Key::Down => app.next_block(),
        Key::Enter => app.start_edit(),
        Key::Esc => {
            app.status_message = None;
        },
        _ => {},
    }
    Action::Continue
}

fn handle_editing(app: &mut App, key: KeyPress)
    requires
        ready(old(app)@),
        old(app)@.mode == AppMode::EditingBlock,
    ensures
        final(app)@ == editing_s(old(app)@, key),
{
    match key.code {
        Key::Esc => app.cancel_edit(),
        Key::Backspace => app.delete_char_before(),
        Key::Left => app.cursor_left(),
        Key::Right => app.cursor_right(),
        Key::Enter => {
            if key.shift {
                app.insert_char('\n');
            } else {
                app.commit_edit();
            }
        },
        Key::Char(c) => {
            if key.ctrl {
                if c == 'c' {
                    app.cancel_edit();
                }
            } else {
                app.insert_char(c);
            }
        },
        _ => {},
    }
}

fn add_and_edit(app: &mut App, kind: BlockKind)
    requires
        ready(old(app)@),
    ensures
        final(app)@ == add_and_edit_s(old(app)@, kind@),
{
    proof {
        law_operations_keep_selection_valid(app@, 0, kind@);
    }
    app.add_block(kind);
    app.start_edit();
}

fn handle_picker(app: &mut App, key: KeyPress)
    requires
        ready(old(app)@),
        old(app)@.mode == AppMode::BlockPicker,
    ensures
        final(app)@ == picker_s(old(app)@, key),
{
    match key.code {
        Key::Esc => {
            app.mode = AppMode::Normal;
        },
        Key::Char(c) => {
            if c == '1' {
                add_and_edit(app, BlockKind::Heading { level: 1 });
            } else if c == '2' {
                add_and_edit(app, BlockKind::Text);
            } else if c == '3' {
                let lang = owned("rust");
                add_and_edit(app, BlockKind::Code { lang });
            } else if c == '4' {
                let kind = BlockKind::Exec { lang: owned("bash"), signature: None };
                proof {
                    law_operations_keep_selection_valid(app@, 0, kind@);
                }
                app.add_block(kind);
                app.set_status(
                    owned("execブロックを追加しました。'e'でコマンド編集、's'で署名してから Space で実行"),
                );
                app.start_edit();
            } else if c == '5' {
                app.add_block(BlockKind::OutputPlaceholder);
                app.mode = AppMode::Normal;
            } else if c == '6' {
                app.add_block(BlockKind::Separator);
                app.mode = AppMode::Normal;
            }
        },
        _ => {},
    }
}

fn handle_confirm(app: &mut App, key: KeyPress) -> (r: Action)
    requires
        ready(old(app)@),
        old(app)@.mode == AppMode::ExecConfirm,
    ensures
        final(app)@ == confirm_s(old(app)@, key).0,
        outcome(r) == confirm_s(old(app)@, key).1,
{
    if key.code == Key::Char('y') || key.code == Key::Enter {
        match app.prepare_exec() {
            Some(cmd) => Action::Run(cmd),
            None => Action::Continue,
        }
    } else if key.code == Key::Char('n') || key.code == Key::Esc {
        app.mode = AppMode::Normal;
        app.set_status(owned("実行をキャンセルしました"));
        Action::Continue
    } else {
        Action::Continue
    }
}

fn handle_present_confirm(app: &mut App, key: KeyPress) -> (r: Action)
    requires
        ready(old(app)@),
        old(app)@.mode == AppMode::PresentExecConfirm,
    ensures
        final(app)@ == present_confirm_s(old(app)@, key).0,
        outcome(r) == present_confirm_s(old(app)@, key).1,
{
    if key.code == Key::Char('y') || key.code == Key::Enter {
        match app.prepare_exec() {
            Some(cmd) => Action::Run(cmd),
            None => Action::Continue,
        }
    } else if key.code == Key::Char('n') || key.code == Key::Esc {
        app.mode = AppMode::Present;
        app.set_status(owned("実行をキャンセルしました"));
        Action::Continue
    } else {
        Action::Continue
    }
}

fn handle_present(app: &mut App, key: KeyPress) -> (r: Action)
    requires
        ready(old(app)@),
        old(app)@.mode == AppMode::Present,
    ensures
        final(app)@ == present_s(old(app)@, key).0,
        outcome(r) == present_s(old(app)@, key).1,
{
    if key.ctrl && key.code == Key::Char('c') {
        return Action::Quit;
    }
    if key.ctrl && key.code == Key::Char('q') {
        return Action::Continue;
    }
    match key.code {
        Key::Char(c) => {
            if c == 'l' {
                app.advance_present();
            } else if c == ' ' {
                if app.is_exec_selected() {
                    app.try_present_exec_selected();
                } else {
                    app.advance_present();
                }
            } else if c == 'h' {
                app.prev_slide();
            } else if c == 'k' {
                app.prev_block();
            } else if c == 'j' {
                app.next_block();
            } else if c == 's' {
                app.sign_selected();
            } else if c == '+' || c == '=' {
                app.increase_font_size();
            } else if c == '-' {
                app.decrease_font_size();
            } else if c == 'q' {
                app.exit_present();
            }
        },
        Key::Right => app.advance_present(),
        Key::Enter => {
            if app.is_exec_selected() {
                app.try_present_exec_selected();
            } else {
                app.advance_present();
            }
        },
        Key::Left => app.prev_slide(),
        Key::Backspace => app.prev_slide(),
        Key::Up => app.prev_block(),
        Key::Down => app.next_block(),
        Key::Esc => app.exit_present(),
        _ => {},
    }
    Action::Continue
}

/// Handles one key press: changes the editor as the mode says, and tells the caller
/// whether to quit or to run a command.
pub fn handle_key(app: &mut App, key: KeyPress) -> (r: Action)
    requires
        ready(old(app)@),
    ensures
        final(app)@ == handle_key_s(old(app)@, key).0,
        outcome(r) == handle_key_s(old(app)@, key).1,
{
    match app.mode {
        AppMode::Normal => handle_normal(app, key),
        AppMode::EditingBlock => {
            handle_editing(app, key);
            Action::Continue
        },
        AppMode::BlockPicker => {
            handle_picker(app, key);
            Action::Continue
        },
        AppMode::ExecConfirm => handle_confirm(app, key),
        AppMode::Present => handle_present(app, key),
        AppMode::PresentExecConfirm => handle_present_confirm(app, key),
    }
}

/// In the editor, shift-K moves the selected block one place towards the start of the
/// slide and keeps it selected, and shift-J one place towards the end; the other blocks and
/// slides stay where they were. At the first (for K) or last (for J) place nothing moves.
pub proof fn law_shift_keys_move_the_selected_block(v: AppView, s: int, shift: bool)
    requires
        ready(v),
        v.mode == AppMode::Normal,
        0 <= s < cur(v).blocks.len(),
        v.selected_block == Some(s as usize),
    ensures
        ({
            let up = handle_key_s(v, KeyPress { code: Key::Char('K'), ctrl: false, shift }).0;
            let bs = cur(v).blocks;
            &&& up.current_slide == v.current_slide
            &&& up.presentation.slides.len() == v.presentation.slides.len()
            &&& forall|i: int| 0 <= i < v.presentation.slides.len() && i != v.current_slide ==> #[trigger] up.presentation.slides[i] == v.presentation.slides[i]
            &&& cur(up).blocks.len() == bs.len()
            &&& if s > 0 {
                &&& cur(up).blocks[s - 1] == bs[s]
                &&& cur(up).blocks[s] == bs[s - 1]
                &&& forall|k: int| 0 <= k < bs.len() && k != s && k != s - 1 ==> #[trigger] cur(up).blocks[k] == bs[k]
                &&& up.selected_block == Some((s - 1) as usize)
            } else {
                up == v
            }
        }),
        ({
            let down = handle_key_s(v, KeyPress { code: Key::Char('J'), ctrl: false, shift }).0;
            let bs = cur(v).blocks;
            &&& down.current_slide == v.current_slide
            &&& down.presentation.slides.len() == v.presentation.slides.len()
            &&& forall|i: int| 0 <= i < v.presentation.slides.len() && i != v.current_slide ==> #[trigger] down.presentation.slides[i] == v.presentation.slides[i]
            &&& cur(down).blocks.len() == bs.len()
            &&& if s + 1 < bs.len() {
                &&& cur(down).blocks[s + 1] == bs[s]
                &&& cur(down).blocks[s] == bs[s + 1]
                &&& forall|k: int| 0 <= k < bs.len() && k != s && k != s + 1 ==> #[trigger] cur(down).blocks[k] == bs[k]
                &&& down.selected_block == Some((s + 1) as usize)
            } else {
                down == v
            }
        }),
{
    let kk = KeyPress { code: Key::Char('K'), ctrl: false, shift };
    let kj = KeyPress { code: Key::Char('J'), ctrl: false, shift };
    assert(handle_key_s(v, kk).0 == move_block_up_s(v));
    assert(handle_key_s(v, kj).0 == move_block_down_s(v));
    let bs = cur(v).blocks;
    let c = v.current_slide as int;
    if s > 0 {
        let up = move_block_up_s(v);
        let nb = crate::app::swapped(bs, s, s - 1);
        assert(up.presentation.slides == v.presentation.slides.update(c, SlideView { blocks: nb, ..cur(v) }));
        assert(cur(up).blocks == nb);
    }
    if s + 1 < bs.len() {
        let down = move_block_down_s(v);
        let nb = crate::app::swapped(bs, s, s + 1);
        assert(down.presentation.slides == v.presentation.slides.update(c, SlideView { blocks: nb, ..cur(v) }));
        assert(cur(down).blocks == nb);
    }
}

} // verus!
