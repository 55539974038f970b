//! The presentation view's redraw state.
use std::time::Instant;
use vstd::prelude::*;
use crate::present::fingerprint::FrameFingerprint;

verus! {

#[verifier::external_type_specification]
#[verifier::external_body]
pub struct ExInstant(Instant);

/// `Instant::now`: the current time; nothing is promised of its value.
#[verifier::external_body]
fn now() -> Instant {
    Instant::now()
}

/// What the presentation view remembers between frames.
#[derive(Debug)]
pub struct PresentState {
    /// A redraw was asked for (a mode change, new exec output, a resize).
    pub needs_redraw: bool,
    /// The fingerprint of the frame last shown; `None` when nothing is shown.
    pub last_displayed_fingerprint: Option<FrameFingerprint>,
    /// When the last frame was shown.
    pub last_render_at: Option<Instant>,
    /// The terminal size when the last frame was shown.
    pub last_term_size: Option<(u16, u16)>,
}

impl Default for PresentState {
    fn default() -> (r: PresentState)
        ensures
            !r.needs_redraw,
            r.last_displayed_fingerprint is None,
            r.last_render_at is None,
            r.last_term_size is None,
    {
        PresentState {
            needs_redraw: false,
            last_displayed_fingerprint: None,
            last_render_at: None,
            last_term_size: None,
        }
    }
}

impl PresentState {
    pub fn new() -> (r: PresentState)
        ensures
            !r.needs_redraw,
            r.last_displayed_fingerprint is None,
            r.last_render_at is None,
            r.last_term_size is None,
    {
        PresentState::default()
    }

    /// Forgets the last frame and asks for a redraw (on entering or leaving the view).
    pub fn reset(&mut self)
        ensures
            final(self).needs_redraw,
            final(self).last_displayed_fingerprint is None,
            final(self).last_render_at is None,
            final(self).last_term_size is None,
    {
        self.needs_redraw = true;
        self.last_displayed_fingerprint = None;
        self.last_render_at = None;
        self.last_term_size = None;
    }

    /// Records that the frame `fp` was shown on a terminal of `term_size` cells.
    pub fn mark_rendered(&mut self, fp: FrameFingerprint, term_size: (u16, u16))
        ensures
            !final(self).needs_redraw,
            final(self).last_displayed_fingerprint == Some(fp),
            final(self).last_render_at is Some,
            final(self).last_term_size == Some(term_size),
    {
        self.needs_redraw = false;
        self.last_displayed_fingerprint = Some(fp);
        self.last_render_at = Some(now());
        self.last_term_size = Some(term_size);
    }

    pub fn request_redraw(&mut self)
        ensures
            final(self).needs_redraw,
            final(self).last_displayed_fingerprint == old(self).last_displayed_fingerprint,
            final(self).last_render_at == old(self).last_render_at,
            final(self).last_term_size == old(self).last_term_size,
    {
        self.needs_redraw = true;
    }

    /// While a command runs, its elapsed time on screen changes every second: asks for a
    /// redraw once a second has passed since the last frame (`elapsed_ms`, in milliseconds),
    /// or when no frame was shown yet (`None`).
    pub fn note_elapsed(&mut self, exec_running: bool, elapsed_ms: Option<u64>)
        ensures
            final(self).needs_redraw == (old(self).needs_redraw || (exec_running && match elapsed_ms {
                Some(ms) => ms >= 1000,
                None => true,
            })),
            final(self).last_displayed_fingerprint == old(self).last_displayed_fingerprint,
            final(self).last_render_at == old(self).last_render_at,
            final(self).last_term_size == old(self).last_term_size,
    {
        if exec_running {
            let stale = match elapsed_ms {
                Some(ms) => ms >= 1000,
                None => true,
            };
            if stale {
                self.needs_redraw = true;
            }
        }
    }

    /// Whether the frame `fp` can be skipped: it is what is shown already and no redraw
    /// was asked for (and none is forced).
    pub fn can_skip(&self, fp: &FrameFingerprint, force: bool) -> (r: bool)
        ensures
            r == can_skip_s(*self, *fp, force),
    {
        if force || self.needs_redraw {
            return false;
        }
        match &self.last_displayed_fingerprint {
            Some(prev) => *prev == *fp,
            None => false,
        }
    }
}

/// Whether the frame `fp` can be skipped in the state `st`.
pub open spec fn can_skip_s(st: PresentState, fp: FrameFingerprint, force: bool) -> bool {
    !force && !st.needs_redraw && st.last_displayed_fingerprint == Some(fp)
}

/// Once a frame was shown, showing it again is skipped until a redraw is asked for or
/// forced; a frame with another fingerprint is drawn.
pub proof fn law_shown_frame_is_skipped(st: PresentState, fp: FrameFingerprint, other: FrameFingerprint)
    requires
        !st.needs_redraw,
        st.last_displayed_fingerprint == Some(fp),
    ensures
        can_skip_s(st, fp, false),
        !can_skip_s(st, fp, true),
        other != fp ==> !can_skip_s(st, other, false),
        !can_skip_s(PresentState { needs_redraw: true, ..st }, fp, false),
{
}

} // verus!
