use slidecli::app::App;
use slidecli::model::Presentation;
use slidecli::present::fingerprint::FrameFingerprint;
use slidecli::present::state::PresentState;

#[test]
fn a_shown_frame_is_skipped_until_a_redraw_is_asked_for() {
    let app = App::new(Presentation::demo());
    let fp = FrameFingerprint::compute(&app, (960, 576));
    let other = FrameFingerprint::compute(&app, (1280, 720));
    let mut state = PresentState::new();
    assert!(!state.can_skip(&fp, false));
    state.mark_rendered(fp, (120, 37));
    assert!(state.can_skip(&fp, false));
    assert!(!state.can_skip(&fp, true));
    assert!(!state.can_skip(&other, false));
    assert_eq!(state.last_term_size, Some((120, 37)));
    state.request_redraw();
    assert!(!state.can_skip(&fp, false));
    state.reset();
    assert!(state.needs_redraw);
    assert!(state.last_displayed_fingerprint.is_none());
}

#[test]
fn a_running_command_asks_for_a_redraw_each_second() {
    let mut st = PresentState::new();
    st.note_elapsed(false, None);
    assert!(!st.needs_redraw);
    st.note_elapsed(true, Some(999));
    assert!(!st.needs_redraw);
    st.note_elapsed(true, Some(1000));
    assert!(st.needs_redraw);
    let mut fresh = PresentState::new();
    fresh.note_elapsed(true, None);
    assert!(fresh.needs_redraw);
}
