//! The endpoint: what the status strip says and what the palette offers.

use vstd::prelude::*;

use crate::app::slots::{SlotStore, SlotStoreView};
use crate::app::status_strip::StatusStripState;
use crate::strip::StripView;
use crate::time::Instant;

pub mod api;
pub mod command_palette;
pub mod navigate;
pub mod slots;
pub mod status_strip;

verus! {

/// What the endpoint shows.
pub struct AppState {
    pub status_strip: StatusStripState,
    /// Pushed values live apart from the strip, so that they survive a new
    /// configuration.
    pub status_slots: SlotStore,
}

/// The endpoint's part of the chrome.
pub struct App {
    pub state: AppState,
    /// Bumped with each configuration: a command that was spawned under an
    /// earlier one reports to nobody.
    pub status_strip_generation: u64,
    pub next_status_clock_refresh: Option<Instant>,
    /// A redraw was asked for and not made yet.
    pub repaint_requested: bool,
}

/// The contents of the endpoint.
pub struct AppView {
    pub strip: StripView,
    pub slots: SlotStoreView,
    pub generation: u64,
    pub next_clock: Option<Instant>,
    pub repaint: bool,
}

impl View for App {
    type V = AppView;

    open spec fn view(&self) -> AppView {
        AppView {
            strip: self.state.status_strip@,
            slots: self.state.status_slots@,
            generation: self.status_strip_generation,
            next_clock: self.next_status_clock_refresh,
            repaint: self.repaint_requested,
        }
    }
}

impl App {
    pub open spec fn wf(&self) -> bool {
        self.state.status_strip.wf() && self.state.status_slots.wf()
    }

    /// An endpoint with no strip configured and nothing pushed.
    pub fn new() -> (r: App)
        ensures
            r.wf(),
            r@ == (AppView {
                strip: StripView::nothing(),
                slots: SlotStoreView::nothing(),
                generation: 0,
                next_clock: None,
                repaint: false,
            }),
    {
        App {
            state: AppState {
                status_strip: StatusStripState::default(),
                status_slots: SlotStore::default(),
            },
            status_strip_generation: 0,
            next_status_clock_refresh: None,
            repaint_requested: false,
        }
    }
}

} // verus!
