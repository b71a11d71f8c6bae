//! Replay, trace files, status texts and the decisions of the frontends.

use rustboyadvance::cpu::Arm7tdmiCore;
use rustboyadvance::frontend::{
    frame_delay, frame_hash_line, hash_due, hash_framebuffer, replay_done, should_present, Key,
    UiAction, UiEvent, UiState,
};
use rustboyadvance::memory::SimpleMemory;
use rustboyadvance::replay::{Event, ReplayError, Replayer};
use rustboyadvance::text::{push_decimal, push_grouped, push_hex, push_padded};
use rustboyadvance::trace::{format_trace, parse_seeds, Mode, Seed};

fn recording(events: &[(u64, u16)]) -> Vec<u8> {
    let mut bytes = b"RBAREC01".to_vec();
    for (cycle, state) in events {
        bytes.extend_from_slice(&cycle.to_le_bytes());
        bytes.extend_from_slice(&state.to_le_bytes());
    }
    bytes
}

#[test]
fn recordings_load() {
    let mut bytes = recording(&[(5, 0x3FF), (0x1_0000_0002, 0x3FE)]);
    bytes.extend_from_slice(&[1, 2, 3]);
    let r = Replayer::load(&bytes).unwrap();
    assert_eq!(r.len(), 2);
    assert_eq!(r.events[0], Event { cycle: 5, state: 0x3FF });
    assert_eq!(r.events[1], Event { cycle: 0x1_0000_0002, state: 0x3FE });
    assert_eq!(r.last_cycle(), 0x1_0000_0002);
    assert!(!r.exhausted());
}

#[test]
fn bad_recordings_are_refused() {
    assert!(matches!(Replayer::load(b"RBAREC0"), Err(ReplayError::UnexpectedEof)));
    match Replayer::load(b"RBAREC02rest") {
        Err(ReplayError::MagicMismatch(m)) => assert_eq!(&m, b"RBAREC02"),
        _ => unreachable!(),
    }
}

#[test]
fn due_events_are_applied() {
    let mut r = Replayer::load(&recording(&[(5, 1), (10, 2), (10, 3), (20, 4)])).unwrap();
    let mut keys = 0x3FF;
    r.apply_due(4, &mut keys);
    assert_eq!(keys, 0x3FF);
    r.apply_due(10, &mut keys);
    assert_eq!(keys, 3);
    assert!(!replay_done(&r, 100));
    r.apply_due(20, &mut keys);
    assert_eq!(keys, 4);
    assert!(r.exhausted());
    assert!(!replay_done(&r, 19));
    assert!(replay_done(&r, 20));
    let empty = Replayer::load(b"RBAREC01").unwrap();
    assert_eq!((empty.len(), empty.last_cycle()), (0, 0));
    assert!(replay_done(&empty, 0));
}

#[test]
fn frame_hashes() {
    assert_eq!(hash_framebuffer(&[]), 0xCBF2_9CE4_8422_2325);
    // The FNV-1a hash of the four bytes "abcd".
    assert_eq!(hash_framebuffer(&[0x6463_6261]), 0xFC17_9F83_EE07_24DD);
    assert_eq!(
        frame_hash_line(60, 1234, &[]),
        "fb_hash: frame=60 cycle=1234 hash=cbf29ce484222325"
    );
    assert!(hash_due(Some(10), 30));
    assert!(!hash_due(Some(10), 31));
    assert!(!hash_due(Some(0), 30));
    assert!(!hash_due(None, 30));
}

#[test]
fn pacing() {
    assert_eq!(frame_delay(true, false, 6_666_666), Some(10_000_000));
    assert_eq!(frame_delay(true, false, 16_666_666), Some(0));
    assert_eq!(frame_delay(true, false, 16_666_667), None);
    assert_eq!(frame_delay(false, false, 0), None);
    assert_eq!(frame_delay(true, true, 0), None);
    assert!(should_present(false, 0));
    assert!(!should_present(true, 15_999_999));
    assert!(should_present(true, 16_000_000));
}

#[test]
fn user_input() {
    let mut s = UiState { vsync: true, controller: None };
    assert_eq!(s.handle(UiEvent::KeyDown(Key::Space)), UiAction::Nothing);
    assert!(!s.vsync);
    assert_eq!(s.handle(UiEvent::KeyUp(Key::Space)), UiAction::Nothing);
    assert!(s.vsync);
    assert_eq!(s.handle(UiEvent::KeyDown(Key::Escape)), UiAction::PressKey);
    assert_eq!(s.handle(UiEvent::KeyDown(Key::Other)), UiAction::PressKey);
    assert_eq!(s.handle(UiEvent::KeyUp(Key::Other)), UiAction::ReleaseKey);
    assert_eq!(s.handle(UiEvent::KeyUp(Key::Escape)), UiAction::Stop);
    assert_eq!(s.handle(UiEvent::KeyUp(Key::F2)), UiAction::StartGdbServer);
    assert_eq!(s.handle(UiEvent::KeyUp(Key::F5)), UiAction::SaveState);
    assert_eq!(s.handle(UiEvent::KeyUp(Key::F9)), UiAction::RestoreState);
    assert_eq!(s.handle(UiEvent::ButtonDown(true)), UiAction::Nothing);
    assert!(!s.vsync);
    assert_eq!(s.handle(UiEvent::ButtonDown(false)), UiAction::PressButton);
    assert_eq!(s.handle(UiEvent::ButtonUp), UiAction::ReleaseButton);
    assert_eq!(s.handle(UiEvent::AxisMotion), UiAction::MoveAxis);
    assert_eq!(s.handle(UiEvent::ControllerAdded(4)), UiAction::OpenController(4));
    assert_eq!(s.handle(UiEvent::ControllerOpened(9)), UiAction::Nothing);
    assert_eq!(s.controller, Some(9));
    assert_eq!(s.handle(UiEvent::ControllerAdded(5)), UiAction::Nothing);
    assert_eq!(s.handle(UiEvent::ControllerRemoved(8)), UiAction::Nothing);
    assert_eq!(s.handle(UiEvent::ControllerRemoved(9)), UiAction::CloseController);
    assert_eq!(s.controller, None);
    assert_eq!(s.handle(UiEvent::Quit), UiAction::Stop);
    assert_eq!(s.handle(UiEvent::Other), UiAction::Nothing);
}

#[test]
fn traces_round_trip() {
    let keys = vec![(0x0800_0104, true), (0x0000_0008, false)];
    let text = format_trace(&keys);
    // A block is known by the address fetched while its first instruction runs.
    assert_eq!(text, "08000104 thumb\n00000008 arm\n");
    let seeds = parse_seeds(&text);
    assert_eq!(seeds.len(), 2);
    assert_eq!(seeds[0], Seed { pc: 0x0800_0100, mode: Mode::Thumb });
    assert_eq!(seeds[1], Seed { pc: 0, mode: Mode::Arm });
}

#[test]
fn odd_lines_in_traces() {
    let text = "\n  080000c0   thumb extra\r\nzz thumb\n10 other\n10\nFF arm";
    let seeds = parse_seeds(text);
    assert_eq!(
        seeds,
        vec![Seed { pc: 0x0800_00BC, mode: Mode::Thumb }, Seed { pc: 0xF7, mode: Mode::Arm }]
    );
}

#[test]
fn numbers_as_text() {
    let mut s = String::new();
    push_decimal(&mut s, 0);
    push_decimal(&mut s, 18_446_744_073_709_551_615);
    push_hex(&mut s, 0xAB, 4);
    push_grouped(&mut s, 1_002_003);
    push_grouped(&mut s, 999);
    push_padded(&mut s, "ab", 4);
    push_padded(&mut s, "abcde", 4);
    assert_eq!(s, "01844674407370955161500ab1_002_003999ab  abcde");
}

#[test]
fn status_texts() {
    let mut c = Arm7tdmiCore::new(SimpleMemory::new(16));
    c.pc = 0x108;
    c.gpr[1] = 0xABC;
    let names: Vec<String> = (0..15).map(|r| format!("r{r}")).collect();
    let text = c.debug_text("psr", &names);
    let lines: Vec<&str> = text.lines().collect();
    assert_eq!(lines[0], "ARM7TDMI Core Status:");
    assert_eq!(lines[1], "\tCPSR: psr");
    assert_eq!(lines[2], "\tGeneral Purpose Registers:");
    assert_eq!(
        lines[3],
        "\u{1b}[1m\tR0  = 0x00000000\u{1b}[0m\u{1b}[1m\tR1  = 0x00000abc\u{1b}[0m\
         \u{1b}[1m\tR2  = 0x00000000\u{1b}[0m\u{1b}[1m\tR3  = 0x00000000\u{1b}[0m"
    );
    assert!(lines[6].ends_with("\u{1b}[1m\tPC  = 0x00000100\u{1b}[0m"));
    assert_eq!(lines.len(), 7);
    let text = c.display_text("psr", &names);
    assert!(text.contains("\u{1b}[1;43;30m\tR1  = 0x00000abc\u{1b}[0m"));
    assert!(text.contains("\u{1b}[1m\tR2  = 0x00000000\u{1b}[0m"));
}
