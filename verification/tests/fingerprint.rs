use slidecli::app::App;
use slidecli::model::Presentation;
use slidecli::present::fingerprint::FrameFingerprint;

fn fp(app: &App) -> FrameFingerprint {
    FrameFingerprint::compute(app, (960, 576))
}

#[test]
fn fingerprint_stable_for_same_state() {
    let app = App::new(Presentation::demo());
    assert_eq!(fp(&app), fp(&app));
}

#[test]
fn fingerprint_changes_on_slide_change() {
    let mut app = App::new(Presentation::demo());
    let a = fp(&app);
    app.next_slide();
    let b = fp(&app);
    assert_ne!(a, b, "slide change must invalidate fingerprint");
}

#[test]
fn fingerprint_changes_on_font_size_change() {
    let mut app = App::new(Presentation::demo());
    let a = fp(&app);
    app.set_font_size(app.presentation.font_size + 1);
    let b = fp(&app);
    assert_ne!(a, b);
}

#[test]
fn fingerprint_changes_on_canvas_resize() {
    let app = App::new(Presentation::demo());
    let a = FrameFingerprint::compute(&app, (960, 576));
    let b = FrameFingerprint::compute(&app, (1280, 720));
    assert_ne!(a, b);
}

#[test]
fn fingerprint_changes_on_selected_block_change() {
    let mut app = App::new(Presentation::demo());
    let a = fp(&app);
    app.next_block();
    let b = fp(&app);
    assert_ne!(a, b);
}

#[test]
fn fingerprint_changes_on_status_message_change() {
    let mut app = App::new(Presentation::demo());
    let a = fp(&app);
    app.set_status("changed".to_string());
    let b = fp(&app);
    assert_ne!(a, b);
}
