//! Interactive progressive preview: the render accumulates sample by sample and starts
//! from scratch whenever the RIB file changes on disk. Keys: q / Esc quit, s saves the
//! current accumulation next to the RIB.
//!
//! The worker that loads, renders and watches the file is told what to do next from its
//! state, and says what came of it.

use crate::output::tonemap::Tonemap;
use crate::text;
use crate::text::{copy_of, push_decimal, same_text};
use vstd::prelude::*;
use vstd::string::*;

verus! {

/// What a preview is started with.
#[derive(Debug)]
pub struct PreviewOptions {
    pub rib_file: String,
    pub width: Option<u32>,
    pub height: Option<u32>,
    pub use_metal: bool,
    pub tonemap: Tonemap,
    pub max_spp: u32,
}

/// What the worker is at.
#[derive(Clone, Copy, Debug, PartialEq, Eq, Structural)]
pub enum PreviewState {
    /// The scene is to be read.
    Loading,
    /// This sample is next.
    Sampling(u32),
    /// All samples are taken; the file is watched for edits.
    Watching,
}

/// What the worker does next.
#[derive(Clone, Copy, Debug, PartialEq, Eq, Structural)]
pub enum PreviewAction {
    Quit,
    Load,
    /// Render a sample, show the frame, and look at the file.
    Render(u32),
    /// Wait a while, and look at the file.
    Wait,
}

/// What came of it.
#[derive(Clone, Copy, Debug, PartialEq, Eq, Structural)]
pub enum PreviewEvent {
    LoadFailed,
    Loaded,
    SampleFailed,
    SampleShown { changed: bool },
    Waited { changed: bool },
}

/// What the window is told.
#[derive(Clone, Copy, Debug, PartialEq, Eq, Structural)]
pub enum PreviewStatus {
    LoadFailed,
    GpuError,
    FileChanged,
    Done(u32),
}

/// What the worker does in a state, unless it is stopped.
pub open spec fn action_in(state: PreviewState, stopped: bool) -> PreviewAction {
    if stopped {
        PreviewAction::Quit
    } else {
        match state {
            PreviewState::Loading => PreviewAction::Load,
            PreviewState::Sampling(s) => PreviewAction::Render(s),
            PreviewState::Watching => PreviewAction::Wait,
        }
    }
}

/// The state in which sample `s` is next, or none is.
pub open spec fn sampling_from(s: int, max_spp: u32) -> PreviewState {
    if s < max_spp {
        PreviewState::Sampling(s as u32)
    } else {
        PreviewState::Watching
    }
}

/// The state after an event. An event that does not belong to the state changes nothing.
pub open spec fn state_after(
    max_spp: u32,
    state: PreviewState,
    event: PreviewEvent,
) -> PreviewState {
    match (state, event) {
        (PreviewState::Loading, PreviewEvent::Loaded) => sampling_from(0, max_spp),
        (PreviewState::Sampling(_), PreviewEvent::SampleFailed) => PreviewState::Watching,
        (PreviewState::Sampling(s), PreviewEvent::SampleShown { changed }) => if changed {
            PreviewState::Loading
        } else {
            sampling_from(s + 1, max_spp)
        },
        (PreviewState::Watching, PreviewEvent::Waited { changed }) => if changed {
            PreviewState::Loading
        } else {
            state
        },
        _ => state,
    }
}

/// What the window is told of an event.
pub open spec fn told_after(max_spp: u32, state: PreviewState, event: PreviewEvent) -> Seq<
    PreviewStatus,
> {
    let done = if state_after(max_spp, state, event) is Watching {
        seq![PreviewStatus::Done(max_spp)]
    } else {
        seq![]
    };
    match (state, event) {
        (PreviewState::Loading, PreviewEvent::LoadFailed) => seq![PreviewStatus::LoadFailed],
        (PreviewState::Loading, PreviewEvent::Loaded) => done,
        (PreviewState::Sampling(_), PreviewEvent::SampleFailed) => seq![PreviewStatus::GpuError]
            + done,
        (PreviewState::Sampling(_), PreviewEvent::SampleShown { changed }) => if changed {
            seq![PreviewStatus::FileChanged]
        } else {
            done
        },
        _ => seq![],
    }
}

/// What the worker does next.
pub fn next_action(state: PreviewState, stopped: bool) -> (r: PreviewAction)
    ensures
        r == action_in(state, stopped),
{
    if stopped {
        PreviewAction::Quit
    } else {
        match state {
            PreviewState::Loading => PreviewAction::Load,
            PreviewState::Sampling(s) => PreviewAction::Render(s),
            PreviewState::Watching => PreviewAction::Wait,
        }
    }
}

fn start_sampling(s: u64, max_spp: u32) -> (r: PreviewState)
    ensures
        r == sampling_from(s as int, max_spp),
{
    if s < max_spp as u64 {
        PreviewState::Sampling(s as u32)
    } else {
        PreviewState::Watching
    }
}

/// The state after an event, and what the window is told of it.
pub fn advance(opts: &PreviewOptions, state: PreviewState, event: PreviewEvent) -> (r: (
    PreviewState,
    Vec<PreviewStatus>,
))
    ensures
        r.0 == state_after(opts.max_spp, state, event),
        r.1@ == told_after(opts.max_spp, state, event),
{
    let max: u32 = opts.max_spp;
    let mut told: Vec<PreviewStatus> = Vec::new();
    let next: PreviewState = match (state, event) {
        (PreviewState::Loading, PreviewEvent::LoadFailed) => {
            told.push(PreviewStatus::LoadFailed);
            state
        },
        (PreviewState::Loading, PreviewEvent::Loaded) => {
            let next: PreviewState = start_sampling(0, max);
            if let PreviewState::Watching = next {
                told.push(PreviewStatus::Done(max));
            }
            next
        },
        (PreviewState::Sampling(_), PreviewEvent::SampleFailed) => {
            told.push(PreviewStatus::GpuError);
            told.push(PreviewStatus::Done(max));
            PreviewState::Watching
        },
        (PreviewState::Sampling(s), PreviewEvent::SampleShown { changed }) => {
            if changed {
                told.push(PreviewStatus::FileChanged);
                PreviewState::Loading
            } else {
                let next: PreviewState = start_sampling(s as u64 + 1, max);
                if let PreviewState::Watching = next {
                    told.push(PreviewStatus::Done(max));
                }
                next
            }
        },
        (PreviewState::Watching, PreviewEvent::Waited { changed }) => {
            if changed {
                PreviewState::Loading
            } else {
                state
            }
        },
        _ => state,
    };
    assert(told@ =~= told_after(max, state, event));
    (next, told)
}

/// The text of a status.
pub open spec fn status_string(s: PreviewStatus) -> Seq<char> {
    match s {
        PreviewStatus::LoadFailed => "RIB failed to load"@,
        PreviewStatus::GpuError => "GPU error"@,
        PreviewStatus::FileChanged => "re-rendering (file changed)"@,
        PreviewStatus::Done(n) => text::decimal(n as nat) + " spp (done)"@,
    }
}

/// The text of a status.
pub fn status_text(s: PreviewStatus) -> (r: String)
    ensures
        r@ == status_string(s),
{
    match s {
        PreviewStatus::LoadFailed => copy_of("RIB failed to load"),
        PreviewStatus::GpuError => copy_of("GPU error"),
        PreviewStatus::FileChanged => copy_of("re-rendering (file changed)"),
        PreviewStatus::Done(n) => {
            let mut out: String = String::new();
            push_decimal(&mut out, n as u64);
            assert(out@ =~= text::decimal(n as nat));
            text::push_text(&mut out, " spp (done)");
            out
        },
    }
}

/// The size of the window: what was asked for, else the camera's.
pub fn window_size(opts: &PreviewOptions, camera: (u32, u32)) -> (r: (u32, u32))
    ensures
        r.0 == match opts.width {
            Some(w) => w,
            None => camera.0,
        },
        r.1 == match opts.height {
            Some(h) => h,
            None => camera.1,
        },
{
    let w: u32 = match opts.width {
        Some(w) => w,
        None => camera.0,
    };
    let h: u32 = match opts.height {
        Some(h) => h,
        None => camera.1,
    };
    (w, h)
}

/// What a key asks for.
#[derive(Clone, Copy, Debug, PartialEq, Eq, Structural)]
pub enum KeyRequest {
    Quit,
    Save,
    Nothing,
}

/// What the key of a character asks for.
pub open spec fn key_asks(key: Seq<char>) -> KeyRequest {
    if key == "q"@ {
        KeyRequest::Quit
    } else if key == "s"@ {
        KeyRequest::Save
    } else {
        KeyRequest::Nothing
    }
}

/// What the key of a character asks for.
pub fn key_request(key: &str) -> (r: KeyRequest)
    ensures
        r == key_asks(key@),
{
    if same_text(key, "q") {
        KeyRequest::Quit
    } else if same_text(key, "s") {
        KeyRequest::Save
    } else {
        KeyRequest::Nothing
    }
}

/// A pixel of the window: red above green above blue.
pub fn pack_pixel(r: u8, g: u8, b: u8) -> (v: u32)
    ensures
        v == r * 65536 + g * 256 + b,
{
    r as u32 * 65536 + g as u32 * 256 + b as u32
}

// ---- laws ------------------------------------------------------------------

/// Only samples below the largest number are ever rendered.
pub open spec fn is_reachable(max_spp: u32, state: PreviewState) -> bool {
    state matches PreviewState::Sampling(s) ==> s < max_spp
}

/// The worker stays within its samples; each is followed by the next one, or by watching
/// after the last, unless the file changed or the sample failed; and after a change it
/// starts again from the first.
pub proof fn samples_in_turn(max_spp: u32, state: PreviewState, event: PreviewEvent)
    requires
        is_reachable(max_spp, state),
    ensures
        is_reachable(max_spp, state_after(max_spp, state, event)),
        state_after(max_spp, state, event) matches PreviewState::Sampling(t) ==> ({
            ||| state_after(max_spp, state, event) == state
            ||| state matches PreviewState::Sampling(s) && t == s + 1
            ||| state is Loading && t == 0
        }),
        event == (PreviewEvent::SampleShown { changed: true }) && state is Sampling
            ==> state_after(max_spp, state, event) is Loading,
        event == (PreviewEvent::Waited { changed: true }) && state is Watching ==> state_after(
            max_spp,
            state,
            event,
        ) is Loading,
{
}

} // verus!
