use slidecli::app::{
    exec_error_text, exec_output_text, format_exec_output, AccentColor, App, AppMode, UiTheme,
};
use slidecli::config::{settings_path, UiSettings, SETTINGS_FILE};
use slidecli::model::{BlockKind, Presentation};

fn demo_on_exec_slide() -> App {
    let mut app = App::new(Presentation::demo());
    app.go_to_slide(2);
    app.next_block();
    app.next_block();
    assert!(app.is_exec_selected());
    app
}

#[test]
fn new_app_selects_first_block_and_gives_fresh_ids() {
    let mut app = App::new(Presentation::demo());
    assert_eq!(app.current_slide, 0);
    assert_eq!(app.selected_block, Some(0));
    assert_eq!(app.mode, AppMode::Normal);
    app.add_block(BlockKind::Text);
    let new_id = app.current_slide().blocks[1].id;
    let max_old = Presentation::demo()
        .slides
        .iter()
        .flat_map(|s| s.blocks.iter().map(|b| b.id))
        .max()
        .unwrap();
    assert!(new_id > max_old);
}

#[test]
fn next_then_prev_slide_returns() {
    let mut app = App::new(Presentation::demo());
    app.next_slide();
    assert_eq!(app.current_slide, 1);
    app.prev_slide();
    assert_eq!(app.current_slide, 0);
    app.prev_slide();
    assert_eq!(app.current_slide, 0);
}

#[test]
fn moving_a_block_down_then_up_restores_the_slide() {
    let mut app = App::new(Presentation::demo());
    let before: Vec<u64> = app.current_slide().blocks.iter().map(|b| b.id).collect();
    app.move_block_down();
    assert_eq!(app.selected_block, Some(1));
    app.move_block_up();
    let after: Vec<u64> = app.current_slide().blocks.iter().map(|b| b.id).collect();
    assert_eq!(before, after);
    assert_eq!(app.selected_block, Some(0));
}

#[test]
fn editing_inserts_and_deletes_multibyte_characters() {
    let mut app = App::new(Presentation::demo());
    app.start_edit();
    assert_eq!(app.mode, AppMode::EditingBlock);
    let original = app.edit_buffer.clone();
    app.insert_char('é');
    app.insert_char('字');
    app.delete_char_before();
    app.delete_char_before();
    assert_eq!(app.edit_buffer, original);
    app.cursor_left();
    app.insert_char('!');
    app.commit_edit();
    assert_eq!(app.mode, AppMode::Normal);
    assert!(app.current_slide().blocks[0].content.contains('!'));
}

#[test]
fn editing_an_exec_block_drops_its_signature() {
    let mut app = demo_on_exec_slide();
    assert!(app.is_signed_selected());
    app.start_edit();
    app.insert_char('x');
    app.commit_edit();
    assert!(!app.is_signed_selected());
    app.try_exec_selected();
    assert_eq!(app.mode, AppMode::Normal);
    assert!(app.status_message.is_some());
    app.sign_selected();
    assert!(app.is_signed_selected());
    app.try_exec_selected();
    assert_eq!(app.mode, AppMode::ExecConfirm);
}

#[test]
fn mock_signature_is_made_from_the_length() {
    let mut app = demo_on_exec_slide();
    app.sign_selected();
    let len = app.selected_block_ref().unwrap().content.len();
    let expected = format!("sig:ed25519:mock:{:x}", len * 31 + 0xdeadbeef);
    match &app.selected_block_ref().unwrap().kind {
        BlockKind::Exec { signature, .. } => assert_eq!(signature.as_deref(), Some(expected.as_str())),
        _ => panic!("not an exec block"),
    }
}

#[test]
fn running_an_exec_block_records_its_output() {
    let mut app = demo_on_exec_slide();
    app.try_exec_selected();
    let cmd = app.prepare_exec().expect("signed block runs");
    assert_eq!(cmd, "cargo test --release 2>&1");
    let id = app.selected_block_ref().unwrap().id;
    app.finish_exec("done".to_string());
    assert_eq!(app.mode, AppMode::Normal);
    assert_eq!(app.exec_outputs.get(&id).map(|s| s.as_str()), Some("done"));
    assert_eq!(app.current_slide().blocks[3].content, "done");
    assert_eq!(app.status_message.as_deref(), Some("実行完了"));
}

#[test]
fn an_unsigned_block_is_not_run() {
    let mut app = demo_on_exec_slide();
    app.start_edit();
    app.insert_char(' ');
    app.commit_edit();
    assert!(app.prepare_exec().is_none());
    assert_eq!(app.status_message.as_deref(), Some("署名されていません。's'で署名してください"));
}

#[test]
fn command_output_is_trimmed_and_labelled() {
    assert_eq!(format_exec_output("  hi \n", "warn"), "hi");
    assert_eq!(format_exec_output("", " oops\n"), "[stderr]\noops");
    assert_eq!(format_exec_output("", ""), "(出力なし)");
    assert_eq!(exec_output_text(b"ok\n", b""), "ok");
    assert_eq!(exec_output_text(b"", &[0xff]), "[stderr]\n\u{fffd}");
    assert_eq!(exec_error_text("not found"), "[実行エラー] not found");
}

#[test]
fn font_size_is_kept_within_bounds() {
    let mut app = App::new(Presentation::demo());
    app.set_font_size(200);
    assert_eq!(app.presentation.font_size, 72);
    app.increase_font_size();
    assert_eq!(app.presentation.font_size, 72);
    app.set_font_size(3);
    assert_eq!(app.presentation.font_size, 8);
    app.decrease_font_size();
    assert_eq!(app.presentation.font_size, 8);
    app.increase_font_size();
    assert_eq!(app.presentation.font_size, 9);
}

#[test]
fn settings_round_trip_through_the_editor() {
    let mut app = App::new(Presentation::demo());
    let settings = UiSettings {
        font_name: "JetBrains Mono".to_string(),
        font_size: 20,
        ui_theme: UiTheme::HighContrast,
        accent_color: AccentColor::Pink,
    };
    settings.apply_to_app(&mut app);
    assert_eq!(UiSettings::from_app(&app), settings);
    let big = UiSettings { font_size: 99, ..settings.clone() };
    big.apply_to_app(&mut app);
    assert_eq!(app.presentation.font_size, 72);
    assert_eq!(settings_path(), std::path::PathBuf::from(SETTINGS_FILE));
}

#[test]
fn present_mode_starts_at_the_first_slide() {
    let mut app = App::new(Presentation::demo());
    app.next_slide();
    app.enter_present();
    assert_eq!(app.mode, AppMode::Present);
    assert_eq!(app.current_slide, 0);
    app.exit_present();
    assert_eq!(app.mode, AppMode::Normal);
}

#[test]
fn a_slide_without_reveal_markers_advances_at_once() {
    let mut app = App::new(Presentation::demo());
    app.enter_present();
    assert_eq!(app.reveal_steps(), 0);
    app.advance_present();
    assert_eq!(app.current_slide, 1);
    assert_eq!(app.presented_slide().blocks.len(), app.current_slide().blocks.len());
}
