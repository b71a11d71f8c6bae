//! The decisions of the frontends: frame hashes, replay, pacing and user input.

use vstd::prelude::*;
use crate::replay::Replayer;
use crate::text::{decimal, hex, push_decimal, push_hex};
use vstd::string::*;

verus! {

/// The start value of the 64-bit FNV-1a hash.
pub const FNV_OFFSET: u64 = 0xcbf2_9ce4_8422_2325;

/// The multiplier of the 64-bit FNV-1a hash.
pub const FNV_PRIME: u64 = 0x100_0000_01b3;

/// One byte hashed in.
pub open spec fn fnv_byte(h: u64, b: u8) -> u64 {
    (h ^ (b as u64)).wrapping_mul(FNV_PRIME)
}

/// One pixel hashed in, lowest byte first.
pub open spec fn fnv_pixel(h: u64, px: u32) -> u64 {
    let h0 = fnv_byte(h, (px % 0x100) as u8);
    let h1 = fnv_byte(h0, (px / 0x100 % 0x100) as u8);
    let h2 = fnv_byte(h1, (px / 0x1_0000 % 0x100) as u8);
    fnv_byte(h2, (px / 0x100_0000) as u8)
}

/// The hash of the first `n` pixels.
pub open spec fn fnv_pixels(fb: Seq<u32>, n: nat) -> u64
    decreases n,
{
    if n == 0 {
        FNV_OFFSET
    } else {
        fnv_pixel(fnv_pixels(fb, (n - 1) as nat), fb[n - 1])
    }
}

fn hash_byte(h: u64, b: u8) -> (r: u64)
    ensures
        r == fnv_byte(h, b),
{
    (h ^ (b as u64)).wrapping_mul(FNV_PRIME)
}

/// The FNV-1a hash of a frame.
pub fn hash_framebuffer(fb: &[u32]) -> (h: u64)
    ensures
        h == fnv_pixels(fb@, fb@.len()),
{
    let mut h: u64 = FNV_OFFSET;
    let mut i: usize = 0;
    while i < fb.len()
        invariant
            i <= fb@.len(),
            h == fnv_pixels(fb@, i as nat),
        decreases fb@.len() - i,
    {
        let px: u32 = fb[i];
        h = hash_byte(h, (px % 0x100) as u8);
        h = hash_byte(h, (px / 0x100 % 0x100) as u8);
        h = hash_byte(h, (px / 0x1_0000 % 0x100) as u8);
        h = hash_byte(h, (px / 0x100_0000) as u8);
        i = i + 1;
    }
    h
}

/// Whether the hash of a frame is wanted: every `n` frames.
pub fn hash_due(every: Option<u64>, frames: u64) -> (r: bool)
    ensures
        r == (every matches Some(n) && n > 0 && frames as int % n as int == 0),
{
    match every {
        Some(n) => n > 0 && frames % n == 0,
        None => false,
    }
}

/// The line that reports the hash of a frame.
pub open spec fn hash_line(frame: u64, cycle: u64, h: u64) -> Seq<char> {
    "fb_hash: frame="@ + decimal(frame as nat) + " cycle="@ + decimal(cycle as nat) + " hash="@
        + hex(h as nat, 16)
}

/// The line that reports the hash of a frame.
pub fn frame_hash_line(frame: u64, cycle: u64, fb: &[u32]) -> (s: String)
    ensures
        s@ == hash_line(frame, cycle, fnv_pixels(fb@, fb@.len())),
{
    let mut s = String::new();
    s.append("fb_hash: frame=");
    push_decimal(&mut s, frame);
    s.append(" cycle=");
    push_decimal(&mut s, cycle);
    s.append(" hash=");
    push_hex(&mut s, hash_framebuffer(fb), 16);
    assert(s@ =~= hash_line(frame, cycle, fnv_pixels(fb@, fb@.len())));
    s
}

/// Whether a replay is over: every event was applied and its last cycle has passed.
pub fn replay_done(r: &Replayer, now: u64) -> (done: bool)
    ensures
        done == (r.cursor >= r.events@.len() && (r.events@.len() > 0 ==> now
            >= r.events@.last().cycle)),
{
    r.exhausted() && now >= r.last_cycle()
}

/// How long a frame lasts, in nanoseconds.
pub const FRAME_TIME: u64 = 16_666_666;

/// How far apart shown frames are during a replay, in nanoseconds.
pub const REPLAY_PRESENT_INTERVAL: u64 = 16_000_000;

/// Whether a frame is shown: always, but during a replay only if the last one was shown long
/// enough ago.
pub fn should_present(replaying: bool, since_last: u64) -> (r: bool)
    ensures
        r == (!replaying || since_last >= REPLAY_PRESENT_INTERVAL),
{
    !replaying || since_last >= REPLAY_PRESENT_INTERVAL
}

/// How long to wait after a frame that took `elapsed` nanoseconds: up to the full frame time, but
/// not at all during a replay or without pacing.
pub fn frame_delay(vsync: bool, replaying: bool, elapsed: u64) -> (r: Option<u64>)
    ensures
        r is Some == (vsync && !replaying && elapsed <= FRAME_TIME),
        r matches Some(d) ==> d == FRAME_TIME - elapsed,
{
    if vsync && !replaying && elapsed <= FRAME_TIME {
        Some(FRAME_TIME - elapsed)
    } else {
        None
    }
}

/// The keys that mean something to the frontend itself.
#[derive(Clone, Copy, PartialEq, Eq, Structural, Debug)]
pub enum Key {
    Space,
    Escape,
    F2,
    F5,
    F9,
    Other,
}

/// What the user or the system did.
#[derive(Clone, Copy, PartialEq, Eq, Structural, Debug)]
pub enum UiEvent {
    KeyDown(Key),
    KeyUp(Key),
    /// A controller button; whether it is the right stick.
    ButtonDown(bool),
    ButtonUp,
    AxisMotion,
    /// The controller with an id is gone.
    ControllerRemoved(u32),
    /// A controller is there, known by its place among the devices.
    ControllerAdded(u32),
    /// A controller was opened and has an id.
    ControllerOpened(u32),
    Quit,
    Other,
}

/// What the frontend does about it.
#[derive(Clone, Copy, PartialEq, Eq, Structural, Debug)]
pub enum UiAction {
    Nothing,
    Stop,
    StartGdbServer,
    SaveState,
    RestoreState,
    PressKey,
    ReleaseKey,
    PressButton,
    ReleaseButton,
    MoveAxis,
    OpenController(u32),
    CloseController,
}

/// What the frontend remembers between events: whether frames are paced, and which controller is
/// in use.
#[derive(Clone, Copy, PartialEq, Eq, Structural, Debug)]
pub struct UiState {
    pub vsync: bool,
    pub controller: Option<u32>,
}

/// The next state and the action for an event. Space lifts the pacing while it is down and the
/// right stick toggles it; a second controller is ignored.
pub open spec fn ui_step(s: UiState, e: UiEvent) -> (UiState, UiAction) {
    match e {
        UiEvent::KeyDown(Key::Space) => (UiState { vsync: false, ..s }, UiAction::Nothing),
        UiEvent::KeyDown(_) => (s, UiAction::PressKey),
        UiEvent::KeyUp(Key::Escape) => (s, UiAction::Stop),
        UiEvent::KeyUp(Key::F2) => (s, UiAction::StartGdbServer),
        UiEvent::KeyUp(Key::F5) => (s, UiAction::SaveState),
        UiEvent::KeyUp(Key::F9) => (s, UiAction::RestoreState),
        UiEvent::KeyUp(Key::Space) => (UiState { vsync: true, ..s }, UiAction::Nothing),
        UiEvent::KeyUp(Key::Other) => (s, UiAction::ReleaseKey),
        UiEvent::ButtonDown(true) => (UiState { vsync: !s.vsync, ..s }, UiAction::Nothing),
        UiEvent::ButtonDown(false) => (s, UiAction::PressButton),
        UiEvent::ButtonUp => (s, UiAction::ReleaseButton),
        UiEvent::AxisMotion => (s, UiAction::MoveAxis),
        UiEvent::ControllerRemoved(which) => if s.controller == Some(which) {
            (UiState { controller: None, ..s }, UiAction::CloseController)
        } else {
            (s, UiAction::Nothing)
        },
        UiEvent::ControllerAdded(which) => if s.controller is None {
            (s, UiAction::OpenController(which))
        } else {
            (s, UiAction::Nothing)
        },
        UiEvent::ControllerOpened(id) => (
            UiState { controller: Some(id), ..s },
            UiAction::Nothing,
        ),
        UiEvent::Quit => (s, UiAction::Stop),
        UiEvent::Other => (s, UiAction::Nothing),
    }
}

impl UiState {
    /// Takes note of an event and tells what to do about it.
    pub fn handle(&mut self, e: UiEvent) -> (a: UiAction)
        ensures
            (*final(self), a) == ui_step(*old(self), e),
    {
        match e {
            UiEvent::KeyDown(Key::Space) => {
                self.vsync = false;
                UiAction::Nothing
            },
            UiEvent::KeyDown(_) => UiAction::PressKey,
            UiEvent::KeyUp(k) => match k {
                Key::Escape => UiAction::Stop,
                Key::F2 => UiAction::StartGdbServer,
                Key::F5 => UiAction::SaveState,
                Key::F9 => UiAction::RestoreState,
                Key::Space => {
                    self.vsync = true;
                    UiAction::Nothing
                },
                Key::Other => UiAction::ReleaseKey,
            },
            UiEvent::ButtonDown(right_stick) => {
                if right_stick {
                    self.vsync = !self.vsync;
                    UiAction::Nothing
                } else {
                    UiAction::PressButton
                }
            },
            UiEvent::ButtonUp => UiAction::ReleaseButton,
            UiEvent::AxisMotion => UiAction::MoveAxis,
            UiEvent::ControllerRemoved(which) => {
                if self.controller == Some(which) {
                    self.controller = None;
                    UiAction::CloseController
                } else {
                    UiAction::Nothing
                }
            },
            UiEvent::ControllerAdded(which) => {
                if self.controller.is_none() {
                    UiAction::OpenController(which)
                } else {
                    UiAction::Nothing
                }
            },
            UiEvent::ControllerOpened(id) => {
                self.controller = Some(id);
                UiAction::Nothing
            },
            UiEvent::Quit => UiAction::Stop,
            UiEvent::Other => UiAction::Nothing,
        }
    }
}

} // verus!
