use slidecli::app::{App, AppMode};
use slidecli::input::{handle_key, Action, Key, KeyPress};
use slidecli::model::{BlockKind, Presentation};

fn key(code: Key) -> KeyPress {
    KeyPress { code, ctrl: false, shift: false }
}

fn ch(c: char) -> KeyPress {
    key(Key::Char(c))
}

#[test]
fn navigation_keys_move_between_slides_and_blocks() {
    let mut app = App::new(Presentation::demo());
    assert!(matches!(handle_key(&mut app, ch('l')), Action::Continue));
    assert_eq!(app.current_slide, 1);
    handle_key(&mut app, key(Key::Left));
    assert_eq!(app.current_slide, 0);
    handle_key(&mut app, ch('j'));
    assert_eq!(app.selected_block, Some(1));
    handle_key(&mut app, ch('3'));
    assert_eq!(app.current_slide, 2);
    assert!(matches!(handle_key(&mut app, ch('q')), Action::Quit));
    let ctrl_c = KeyPress { code: Key::Char('c'), ctrl: true, shift: false };
    assert!(matches!(handle_key(&mut app, ctrl_c), Action::Quit));
}

#[test]
fn the_picker_adds_blocks_and_starts_editing() {
    let mut app = App::new(Presentation::demo());
    handle_key(&mut app, ch('n'));
    assert_eq!(app.mode, AppMode::BlockPicker);
    handle_key(&mut app, ch('2'));
    assert_eq!(app.mode, AppMode::EditingBlock);
    handle_key(&mut app, ch('h'));
    handle_key(&mut app, ch('i'));
    handle_key(&mut app, key(Key::Backspace));
    handle_key(&mut app, key(Key::Enter));
    assert_eq!(app.mode, AppMode::Normal);
    assert_eq!(app.current_slide().blocks[1].content, "h");
    handle_key(&mut app, ch('n'));
    handle_key(&mut app, ch('6'));
    assert!(matches!(app.current_slide().blocks[2].kind, BlockKind::Separator));
    assert_eq!(app.mode, AppMode::Normal);
}

#[test]
fn confirming_a_signed_block_asks_to_run_it() {
    let mut app = App::new(Presentation::demo());
    handle_key(&mut app, ch('3'));
    handle_key(&mut app, ch('j'));
    handle_key(&mut app, ch('j'));
    handle_key(&mut app, ch(' '));
    assert_eq!(app.mode, AppMode::ExecConfirm);
    match handle_key(&mut app, ch('y')) {
        Action::Run(cmd) => assert_eq!(cmd, "cargo test --release 2>&1"),
        _ => panic!("expected a command to run"),
    }
    app.finish_exec("ok".to_string());
    assert_eq!(app.mode, AppMode::Normal);
    handle_key(&mut app, ch(' '));
    handle_key(&mut app, key(Key::Esc));
    assert_eq!(app.mode, AppMode::Normal);
    assert_eq!(app.status_message.as_deref(), Some("実行をキャンセルしました"));
}

#[test]
fn presenting_changes_font_size_and_leaves_on_escape() {
    let mut app = App::new(Presentation::demo());
    handle_key(&mut app, ch('p'));
    assert_eq!(app.mode, AppMode::Present);
    let size = app.presentation.font_size;
    handle_key(&mut app, ch('+'));
    assert_eq!(app.presentation.font_size, size + 1);
    handle_key(&mut app, ch('-'));
    assert_eq!(app.presentation.font_size, size);
    handle_key(&mut app, key(Key::Enter));
    assert_eq!(app.current_slide, 1);
    handle_key(&mut app, key(Key::Backspace));
    assert_eq!(app.current_slide, 0);
    handle_key(&mut app, key(Key::Esc));
    assert_eq!(app.mode, AppMode::Normal);
}

fn staged_presentation() -> Presentation {
    let src = "# Intro\n\nfirst\n<!-- slidecli:next:start -->\nsecond\n<!-- slidecli:next:end -->\n<!-- slidecli:next:start -->\nthird\n<!-- slidecli:next:end -->\n\n---\n\n# Next\n\nbody\n";
    slidecli::markdown::deserialize(src).unwrap()
}

#[test]
fn presenting_reveals_each_step_before_the_next_slide() {
    let mut app = App::new(staged_presentation());
    handle_key(&mut app, ch('p'));
    assert_eq!(app.reveal_steps(), 2);
    assert_eq!(app.presented_slide().blocks[1].content, "first");
    handle_key(&mut app, ch(' '));
    assert_eq!(app.current_slide, 0);
    assert_eq!(app.reveal_step, 1);
    assert_eq!(app.presented_slide().blocks[1].content, "first\nsecond");
    handle_key(&mut app, ch('l'));
    assert_eq!(app.current_slide, 0);
    assert_eq!(app.presented_slide().blocks[1].content, "first\nsecond\nthird");
    handle_key(&mut app, key(Key::Right));
    assert_eq!(app.current_slide, 1);
    assert_eq!(app.reveal_step, 0);
    handle_key(&mut app, key(Key::Left));
    assert_eq!(app.current_slide, 0);
    assert_eq!(app.reveal_step, 0);
    assert_eq!(app.presented_slide().blocks[1].content, "first");
}

#[test]
fn an_empty_first_slide_selects_nothing_and_quits() {
    let mut p = Presentation::blank();
    p.slides = vec![slidecli::model::Slide::new("empty".to_string())];
    let mut app = App::new(p);
    assert_eq!(app.selected_block, None);
    assert!(matches!(handle_key(&mut app, ch('q')), Action::Quit));
}

#[test]
fn running_an_exec_block_from_the_presentation_returns_to_it() {
    let mut app = App::new(Presentation::demo());
    handle_key(&mut app, ch('p'));
    handle_key(&mut app, ch('l'));
    handle_key(&mut app, ch('l'));
    assert_eq!(app.current_slide, 2);
    handle_key(&mut app, ch('j'));
    handle_key(&mut app, ch('j'));
    assert!(app.is_exec_selected());
    handle_key(&mut app, ch(' '));
    assert_eq!(app.mode, AppMode::PresentExecConfirm);
    handle_key(&mut app, key(Key::Esc));
    assert_eq!(app.mode, AppMode::Present);
    assert_eq!(app.status_message.as_deref(), Some("実行をキャンセルしました"));
    handle_key(&mut app, key(Key::Enter));
    assert_eq!(app.mode, AppMode::PresentExecConfirm);
    match handle_key(&mut app, ch('y')) {
        Action::Run(cmd) => assert_eq!(cmd, "cargo test --release 2>&1"),
        _ => panic!("expected a command to run"),
    }
    app.finish_exec("ok".to_string());
    assert_eq!(app.mode, AppMode::Present);
    assert_eq!(app.current_slide().blocks[3].content, "ok");
}
