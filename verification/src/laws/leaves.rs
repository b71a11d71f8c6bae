//! When a running block is left, and what the user's input does.

use vstd::prelude::*;
use crate::cpu::CoreState;
use crate::frontend::{Key, UiAction, UiEvent, UiState, ui_step};
use crate::laws::words::lemma_set_bit;
use crate::memory::{MemoryInterface, Request};

verus! {

/// Before an instruction at an even place nothing is asked. Before one at an odd place a block is
/// left if the instruction set changed, if writable memory was written, which also drops the blocks
/// recorded there, or if the bus asks for control; and nothing else changes.
pub proof fn law_when_blocks_are_left<I: MemoryInterface>(
    s: CoreState<I>,
    k: nat,
    entry_thumb: bool,
    recording: bool,
)
    ensures
        ({
            let (t, leave) = s.checked(k, entry_thumb, recording);
            let asked = CoreState { bus: I::next(s.bus, Request::TakeBlockCacheDirty), ..s };
            let thumb = s.cpsr.raw / 32 % 2 == 1;
            let dirty = I::reply(s.bus, Request::TakeBlockCacheDirty) != 0;
            let wanted = I::reply(asked.bus, Request::CachedBlockShouldAbort) != 0;
            &&& k % 2 == 0 ==> t == s && !leave
            &&& k % 2 == 1 && thumb != entry_thumb ==> t == s && leave
            &&& k % 2 == 1 && thumb == entry_thumb && !dirty ==> t == asked && leave == wanted
            &&& k % 2 == 1 && thumb == entry_thumb && dirty ==> {
                &&& leave
                &&& t == CoreState { cache: t.cache, ..asked }
                &&& t.cache.ram.dom() =~= Set::<u32>::empty()
                &&& t.cache.rom == s.cache.rom
                &&& recording ==> t.cache.recording is None
            }
        }),
{
    lemma_set_bit(s.cpsr.raw);
}

/// Holding the space bar down lifts the pacing until it is let go, the right stick toggles it, and
/// nothing else does.
pub proof fn law_pacing(s: UiState, e: UiEvent)
    ensures
        !ui_step(s, UiEvent::KeyDown(Key::Space)).0.vsync,
        ui_step(ui_step(s, UiEvent::KeyDown(Key::Space)).0, UiEvent::KeyUp(Key::Space)).0.vsync,
        ui_step(s, UiEvent::ButtonDown(true)).0.vsync == !s.vsync,
        e != UiEvent::KeyDown(Key::Space) && e != UiEvent::KeyUp(Key::Space) && e
            != UiEvent::ButtonDown(true) ==> ui_step(s, e).0.vsync == s.vsync,
{
}

/// One controller is in use at a time: a second one is ignored, the one in use is given up only when
/// it is removed, and then another may be opened.
pub proof fn law_controllers(s: UiState, place: u32, id: u32, other: u32, e: UiEvent)
    requires
        id != other,
    ensures
        ({
            let open = ui_step(UiState { controller: None, ..s }, UiEvent::ControllerAdded(place));
            let used = ui_step(open.0, UiEvent::ControllerOpened(id)).0;
            &&& open.1 == UiAction::OpenController(place)
            &&& used.controller == Some(id)
            &&& ui_step(used, UiEvent::ControllerAdded(place)) == (used, UiAction::Nothing)
            &&& ui_step(used, UiEvent::ControllerRemoved(other)) == (used, UiAction::Nothing)
            &&& ui_step(used, UiEvent::ControllerRemoved(id)) == (
                UiState { controller: None, ..used },
                UiAction::CloseController,
            )
        }),
        !(e is ControllerRemoved) && !(e is ControllerOpened) ==> ui_step(s, e).0.controller
            == s.controller,
{
}

/// The program stops on the escape key or when it is told to, and on nothing else; the other keys of
/// the frontend act when they are let go.
pub proof fn law_frontend_keys(s: UiState, e: UiEvent)
    ensures
        (ui_step(s, e).1 == UiAction::Stop) == (e == UiEvent::Quit || e == UiEvent::KeyUp(
            Key::Escape,
        )),
        (ui_step(s, e).1 == UiAction::SaveState) == (e == UiEvent::KeyUp(Key::F5)),
        (ui_step(s, e).1 == UiAction::RestoreState) == (e == UiEvent::KeyUp(Key::F9)),
        (ui_step(s, e).1 == UiAction::StartGdbServer) == (e == UiEvent::KeyUp(Key::F2)),
        (ui_step(s, e).1 == UiAction::ReleaseKey) == (e == UiEvent::KeyUp(Key::Other)),
        (ui_step(s, e).1 == UiAction::PressKey) == (e is KeyDown && e != UiEvent::KeyDown(
            Key::Space,
        )),
{
}

} // verus!
