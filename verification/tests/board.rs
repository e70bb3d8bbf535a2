//! The board: painting, allocation, pins.
use agent_deck::board::session_board::SessionBoard;
use agent_deck::board::slot_allocator::{
    allocate_slots, AllocatedSlot, ScoredSession, SlotAllocatorOptions,
};
use agent_deck::board::theme::{
    clamp01, codex_theme, hex_to_rgb, lerp, lerp_hex, paint, waiting_urgency, ThemeInput,
};
use agent_deck::protocol::{
    BackendId, DeckStatus, LedFx, PolicyMode, Risk, SessionSnapshot, SLOT_COUNT,
    URGENCY_FULL_WAIT_MS,
};
use std::collections::HashMap;

fn snapshot(backend: BackendId, id: &str, status: DeckStatus, updated_at: u64) -> SessionSnapshot {
    SessionSnapshot {
        backend,
        session_id: id.into(),
        title: id.into(),
        status,
        risk: None,
        detail: None,
        waiting_since: None,
        updated_at,
        workspace_path: None,
        project_category: None,
        project_label: None,
    }
}

fn snap(id: &str, status: DeckStatus, updated_at: u64) -> ScoredSession {
    ScoredSession {
        snapshot: snapshot(BackendId::Zcode, id, status, updated_at),
        urgency: if status == DeckStatus::Waiting {
            URGENCY_FULL_WAIT_MS / 2
        } else {
            0
        },
    }
}

fn id_of(slot: &AllocatedSlot) -> &str {
    slot.session.as_ref().unwrap().snapshot.session_id.as_str()
}

#[test]
fn status_priority_order() {
    assert!(DeckStatus::Waiting.priority() > DeckStatus::Error.priority());
    assert!(DeckStatus::Error.priority() > DeckStatus::Working.priority());
    assert!(DeckStatus::Working.priority() > DeckStatus::Done.priority());
}

#[test]
fn risk_boost_values() {
    let full = URGENCY_FULL_WAIT_MS as f64;
    assert_eq!(Risk::Low.boost() as f64 / full, 0.0);
    assert_eq!(Risk::Medium.boost() as f64 / full, 0.25);
    assert_eq!(Risk::High.boost() as f64 / full, 0.5);
}

#[test]
fn statuses_rank_as_documented() {
    let order = [
        (DeckStatus::Waiting, 5),
        (DeckStatus::Error, 4),
        (DeckStatus::Working, 3),
        (DeckStatus::Done, 2),
        (DeckStatus::Idle, 1),
        (DeckStatus::Off, 0),
    ];
    for (status, priority) in order {
        assert_eq!(status.priority(), priority);
    }
}

// Painting.

#[test]
fn working_is_blue_breathe() {
    let out = paint(
        &ThemeInput {
            status: DeckStatus::Working,
            risk: None,
            waiting_since: None,
            now: 0,
        },
        &codex_theme(),
    );
    assert_eq!(out.fx, LedFx::Breathe);
    let rgb = out.rgb.unwrap();
    assert!(rgb[0] < 120);
    assert!(rgb[2] > 200);
}

#[test]
fn done_is_green_solid() {
    let out = paint(
        &ThemeInput {
            status: DeckStatus::Done,
            risk: None,
            waiting_since: None,
            now: 0,
        },
        &codex_theme(),
    );
    assert_eq!(out.fx, LedFx::Solid);
    let rgb = out.rgb.unwrap();
    assert!(rgb[1] > 200);
}

#[test]
fn error_is_red_solid() {
    let out = paint(
        &ThemeInput {
            status: DeckStatus::Error,
            risk: None,
            waiting_since: None,
            now: 0,
        },
        &codex_theme(),
    );
    assert_eq!(out.fx, LedFx::Solid);
    let rgb = out.rgb.unwrap();
    assert!(rgb[0] > 200);
    assert!(rgb[1] < 80);
}

#[test]
fn waiting_low_risk_starts_solid() {
    let out = paint(
        &ThemeInput {
            status: DeckStatus::Waiting,
            risk: Some(Risk::Low),
            waiting_since: Some(1000),
            now: 1000,
        },
        &codex_theme(),
    );
    assert_eq!(out.fx, LedFx::Solid);
}

#[test]
fn waiting_high_risk_starts_blink_slow() {
    // The boost of a high risk is half of full urgency.
    let out = paint(
        &ThemeInput {
            status: DeckStatus::Waiting,
            risk: Some(Risk::High),
            waiting_since: Some(1000),
            now: 1000,
        },
        &codex_theme(),
    );
    assert_eq!(out.fx, LedFx::BlinkSlow);
}

#[test]
fn waiting_urgency_full_after_2min() {
    let out = paint(
        &ThemeInput {
            status: DeckStatus::Waiting,
            risk: Some(Risk::Low),
            waiting_since: Some(0),
            now: 3 * 60 * 1000,
        },
        &codex_theme(),
    );
    assert_eq!(out.fx, LedFx::BlinkFast);
    let rgb = out.rgb.unwrap();
    assert!(rgb[0] > 240);
    assert!(rgb[1] < 80);
}

fn float_blend(a: u8, b: u8, t: f64) -> u8 {
    (a as f64 + (b as f64 - a as f64) * t).round() as u8
}

#[test]
fn waiting_paint_follows_the_float_formula() {
    let from = [0xFF, 0xB0, 0x74];
    let to = [0xFF, 0x22, 0x00];
    let palette = codex_theme();
    for waited in 0..=URGENCY_FULL_WAIT_MS {
        let out = paint(
            &ThemeInput {
                status: DeckStatus::Waiting,
                risk: None,
                waiting_since: Some(0),
                now: waited,
            },
            &palette,
        );
        let u = (waited as f64 / 1000.0) / 120.0;
        let rgb = [
            float_blend(from[0], to[0], u),
            float_blend(from[1], to[1], u),
            float_blend(from[2], to[2], u),
        ];
        assert_eq!(out.rgb, Some(rgb), "waited {waited}");
        assert_eq!(out.br, float_blend(80, 255, u), "waited {waited}");
        let fx = if u < 0.33 {
            LedFx::Solid
        } else if u < 0.66 {
            LedFx::BlinkSlow
        } else {
            LedFx::BlinkFast
        };
        assert_eq!(out.fx, fx, "waited {waited}");
    }
}

#[test]
fn working_paint_follows_the_float_formula() {
    let palette = codex_theme();
    let from = hex_to_rgb(palette.working);
    let to = [0x7B, 0x1F, 0xA2];
    for worked in 0..=300_000u64 {
        let out = paint(
            &ThemeInput {
                status: DeckStatus::Working,
                risk: None,
                waiting_since: Some(0),
                now: worked,
            },
            &palette,
        );
        let t = (worked as f64 / 1000.0) / 300.0;
        let rgb = [
            float_blend(from[0], to[0], t),
            float_blend(from[1], to[1], t),
            float_blend(from[2], to[2], t),
        ];
        assert_eq!(out.rgb, Some(rgb), "worked {worked}");
        assert_eq!(out.br, 180);
        assert_eq!(out.fx, LedFx::Breathe);
    }
}

#[test]
fn long_work_and_long_waits_saturate() {
    let at = |status: DeckStatus, now: u64| {
        paint(
            &ThemeInput {
                status,
                risk: None,
                waiting_since: Some(0),
                now,
            },
            &codex_theme(),
        )
    };
    assert_eq!(at(DeckStatus::Working, u64::MAX).rgb, Some([0x7B, 0x1F, 0xA2]));
    assert_eq!(at(DeckStatus::Waiting, u64::MAX).rgb, Some([0xFF, 0x22, 0x00]));
    assert_eq!(at(DeckStatus::Waiting, u64::MAX).br, 255);
    assert_eq!(at(DeckStatus::Waiting, 120_000), at(DeckStatus::Waiting, 500_000));
}

#[test]
fn other_statuses_have_fixed_colours() {
    let at = |status: DeckStatus| {
        paint(
            &ThemeInput {
                status,
                risk: Some(Risk::High),
                waiting_since: Some(1),
                now: 77,
            },
            &codex_theme(),
        )
    };
    let off = at(DeckStatus::Off);
    assert_eq!((off.rgb, off.br, off.fx), (None, 0, LedFx::Solid));
    let idle = at(DeckStatus::Idle);
    assert_eq!((idle.rgb, idle.br, idle.fx), (Some([255, 255, 255]), 60, LedFx::Solid));
    let done = at(DeckStatus::Done);
    assert_eq!((done.rgb, done.br, done.fx), (Some([0, 255, 0x4C]), 255, LedFx::Solid));
    let error = at(DeckStatus::Error);
    assert_eq!((error.rgb, error.br, error.fx), (Some([255, 0, 0x33]), 255, LedFx::Solid));
}

#[test]
fn colours_are_read_in_both_forms() {
    assert_eq!(hex_to_rgb("#304FFE"), [0x30, 0x4F, 0xFE]);
    assert_eq!(hex_to_rgb("  ##fa0 "), [0xFF, 0xAA, 0x00]);
    assert_eq!(hex_to_rgb("00ff4c"), [0x00, 0xFF, 0x4C]);
    assert_eq!(hex_to_rgb("+1+2+3"), [1, 2, 3]);
}

#[test]
fn written_colours_are_read_back() {
    for x in [0u8, 9, 10, 0x9f, 0xa0, 255] {
        for y in [0u8, 0x4e, 255] {
            for hex in [
                format!("#{x:02x}{y:02x}{x:02X}"),
                format!("{x:02X}{y:02X}{x:02x}"),
                format!(" \t#{x:02x}{y:02X}{x:02x}\n"),
            ] {
                assert_eq!(hex_to_rgb(&hex), [x, y, x], "{hex}");
            }
        }
    }
    assert_eq!(hex_to_rgb("#3aF"), hex_to_rgb("#33aaFF"));
    assert_eq!(hex_to_rgb("3aF"), hex_to_rgb("33aaFF"));
}

#[test]
fn blends_round_to_the_nearest() {
    assert_eq!(lerp(0, 10, 0, 4), 0);
    assert_eq!(lerp(0, 10, 1, 4), 3);
    assert_eq!(lerp(10, 0, 1, 4), 8);
    assert_eq!(lerp(10, 0, 4, 4), 0);
    assert_eq!(lerp_hex("#000000", "#FF8000", 1, 2), [128, 64, 0]);
    assert_eq!(clamp01(3, 4), 3);
    assert_eq!(clamp01(9, 4), 4);
}

#[test]
fn urgency_is_the_larger_of_wait_and_risk() {
    assert_eq!(waiting_urgency(Some(0), None, 30_000), 30_000);
    assert_eq!(waiting_urgency(Some(0), Some(Risk::High), 30_000), 60_000);
    assert_eq!(waiting_urgency(Some(0), Some(Risk::High), 90_000), 90_000);
    assert_eq!(waiting_urgency(Some(0), Some(Risk::Medium), 0), 30_000);
    assert_eq!(waiting_urgency(Some(9_000), None, 3_000), 0);
    assert_eq!(waiting_urgency(None, None, 500_000), 0);
    assert_eq!(waiting_urgency(Some(0), None, u64::MAX), 120_000);
}

// Allocation.

#[test]
fn waiting_takes_first_slot() {
    let sessions = vec![
        snap("w", DeckStatus::Working, 100),
        snap("wait", DeckStatus::Waiting, 100),
    ];
    let slots = allocate_slots(&sessions, &SlotAllocatorOptions::default(), 1000);
    assert_eq!(id_of(&slots[0]), "wait");
}

#[test]
fn done_is_kept_but_lowest_priority() {
    let sessions = vec![
        snap("active", DeckStatus::Working, 100),
        snap("old_done", DeckStatus::Done, 0),
    ];
    let slots = allocate_slots(&sessions, &SlotAllocatorOptions::default(), 1000);
    assert_eq!(id_of(&slots[0]), "active");
    assert_eq!(id_of(&slots[1]), "old_done");
}

#[test]
fn done_alone_still_shown() {
    let sessions = vec![snap("old", DeckStatus::Done, 0)];
    let slots = allocate_slots(&sessions, &SlotAllocatorOptions::default(), 9_999_999);
    assert_eq!(id_of(&slots[0]), "old");
}

#[test]
fn pin_reserves_slot() {
    let sessions = vec![snap("a", DeckStatus::Working, 100)];
    let mut opts = SlotAllocatorOptions::default();
    opts.pins.insert(0, "missing".into());
    let slots = allocate_slots(&sessions, &opts, 1000);
    assert!(slots[0].pinned);
    assert!(slots[0].session.is_none());
    assert_eq!(id_of(&slots[1]), "a");
}

#[test]
fn urgency_then_age_break_ties() {
    let mut calm = snap("calm", DeckStatus::Waiting, 900);
    calm.urgency = 10;
    let mut pressing = snap("pressing", DeckStatus::Waiting, 100);
    pressing.urgency = 11;
    let sessions = vec![
        snap("older", DeckStatus::Working, 100),
        calm,
        snap("newer", DeckStatus::Working, 200),
        pressing,
    ];
    let slots = allocate_slots(&sessions, &SlotAllocatorOptions::default(), 0);
    let ids: Vec<&str> = slots.iter().take(4).map(id_of).collect();
    assert_eq!(ids, ["pressing", "calm", "newer", "older"]);
    assert!(slots[4].session.is_none());
    assert_eq!(slots.len(), SLOT_COUNT);
}

#[test]
fn pinned_session_leaves_the_queue() {
    let sessions = vec![
        snap("a", DeckStatus::Waiting, 1),
        snap("b", DeckStatus::Done, 1),
        snap("c", DeckStatus::Working, 1),
    ];
    let opts = SlotAllocatorOptions {
        slot_count: 3,
        focus: Some(1),
        pins: HashMap::from([(1, "a".to_string()), (7, "b".to_string())]),
    };
    let slots = allocate_slots(&sessions, &opts, 0);
    assert_eq!(slots.len(), 3);
    assert_eq!(id_of(&slots[0]), "c");
    assert_eq!(id_of(&slots[1]), "a");
    assert!(slots[1].pinned && !slots[0].pinned && !slots[2].pinned);
    assert_eq!(id_of(&slots[2]), "b");
    let numbers: Vec<usize> = slots.iter().map(|s| s.i).collect();
    assert_eq!(numbers, [0, 1, 2]);
}

#[test]
fn last_session_of_an_id_counts() {
    let sessions = vec![
        snap("x", DeckStatus::Waiting, 1),
        snap("x", DeckStatus::Done, 2),
    ];
    let slots = allocate_slots(&sessions, &SlotAllocatorOptions::default(), 0);
    let first = slots[0].session.as_ref().unwrap();
    assert_eq!(first.snapshot.status, DeckStatus::Done);
    assert!(slots[1].session.is_none());
}

#[test]
fn no_keys_no_sessions() {
    let opts = SlotAllocatorOptions {
        slot_count: 0,
        focus: None,
        pins: HashMap::from([(0, "a".to_string())]),
    };
    assert!(allocate_slots(&[snap("a", DeckStatus::Error, 1)], &opts, 0).is_empty());
}

// The board.

#[test]
fn set_pin_reserves_slot_and_marks_board() {
    let mut board = SessionBoard::new(5);
    let mut a = snapshot(BackendId::Zcode, "a", DeckStatus::Working, 100);
    a.title = "A".into();
    let mut b = snapshot(BackendId::Zcode, "b", DeckStatus::Done, 200);
    b.title = "B".into();
    board.replace_backend_sessions(BackendId::Zcode, vec![a, b], 1000);
    // The lower-priority "b" on key 0 must stay there.
    board.set_pin(0, Some("b".into()), 1000);
    let state = board.board_state().unwrap();
    assert_eq!(state.slots[0].session_id.as_deref(), Some("b"));
    assert_eq!(state.slots[0].pinned, Some(true));
    assert_eq!(state.slots[1].session_id.as_deref(), Some("a"));
    assert_eq!(state.slots[1].pinned, Some(false));

    // Without the pin the keys are free again.
    board.set_pin(0, None, 1000);
    let state = board.board_state().unwrap();
    assert_eq!(state.slots[0].pinned, Some(false));
    assert_eq!(state.slots[0].session_id.as_deref(), Some("a"));
}

#[test]
fn working_session_paints_blue() {
    let mut board = SessionBoard::new(5);
    let mut s = snapshot(BackendId::Zcode, "s1", DeckStatus::Working, 1000);
    s.title = "t".into();
    board.replace_backend_sessions(BackendId::Zcode, vec![s], 1000);
    let led = board.led_frame().unwrap();
    let occupied = led.slots.iter().find(|s| s.rgb.is_some()).unwrap();
    assert_eq!(occupied.fx, LedFx::Breathe);
    let rgb = occupied.rgb.unwrap();
    assert!(rgb[2] > 200);
}

#[test]
fn fresh_board_has_no_frames() {
    let board = SessionBoard::default();
    assert!(board.led_frame().is_none());
    assert!(board.board_state().is_none());
    assert!(board.auto_fill());
    assert_eq!(board.focus(), 0);
    assert!(board.pins().is_empty());
    assert!(board.list_sessions().is_empty());
}

#[test]
fn refreshed_board_describes_every_key() {
    let mut board = SessionBoard::new(3);
    let mut s = snapshot(BackendId::Codex, "c", DeckStatus::Error, 9);
    s.title = "broken".into();
    s.detail = Some("why".into());
    board.upsert_session(s, 50);
    let state = board.board_state().unwrap();
    assert_eq!(state.msg_type, "board");
    assert_eq!(state.mode, PolicyMode::Act);
    assert_eq!(state.slots.len(), 3);
    assert_eq!(state.slots[0].backend, Some(BackendId::Codex));
    assert_eq!(state.slots[0].title.as_deref(), Some("broken"));
    assert_eq!(state.slots[0].detail.as_deref(), Some("why"));
    assert_eq!(state.slots[0].status, DeckStatus::Error);
    assert_eq!(state.slots[0].focused, Some(true));
    assert_eq!(state.slots[1].session_id, None);
    assert_eq!(state.slots[1].status, DeckStatus::Off);
    assert_eq!(state.slots[1].focused, Some(false));
    let led = board.led_frame().unwrap();
    assert_eq!(led.msg_type, "leds");
    assert_eq!(led.slots[0].rgb, Some([255, 0, 0x33]));
    assert_eq!(led.slots[1].rgb, None);
    assert_eq!(led.slots[1].br, 0);
    assert_eq!(led.slots[2].i, 2);
}

#[test]
fn manual_mode_shows_only_pins() {
    let mut board = SessionBoard::new(4);
    board.replace_backend_sessions(
        BackendId::Zcode,
        vec![
            snapshot(BackendId::Zcode, "a", DeckStatus::Waiting, 1),
            snapshot(BackendId::Zcode, "b", DeckStatus::Done, 2),
        ],
        10,
    );
    board.set_pin(2, Some("b".into()), 10);
    board.set_auto_fill(false, 10);
    let ids: Vec<Option<String>> =
        board.board_state().unwrap().slots.iter().map(|s| s.session_id.clone()).collect();
    assert_eq!(ids, [None, None, Some("b".to_string()), None]);
    board.set_auto_fill(true, 10);
    assert_eq!(board.board_state().unwrap().slots[0].session_id.as_deref(), Some("a"));
}

#[test]
fn a_report_replaces_only_its_backend() {
    let mut board = SessionBoard::new(8);
    board.replace_backend_sessions(
        BackendId::Zcode,
        vec![
            snapshot(BackendId::Zcode, "z1", DeckStatus::Working, 1),
            snapshot(BackendId::Zcode, "z2", DeckStatus::Working, 2),
        ],
        10,
    );
    board.replace_backend_sessions(
        BackendId::Codex,
        vec![snapshot(BackendId::Codex, "c1", DeckStatus::Waiting, 3)],
        10,
    );
    board.set_pin(4, Some("z1".into()), 10);
    // ZCode falls silent: the pinned session stays, the other one leaves.
    board.replace_backend_sessions(BackendId::Zcode, vec![], 11);
    let ids: Vec<String> = board.list_sessions().into_iter().map(|s| s.session_id).collect();
    assert_eq!(ids, ["c1", "z1"]);
    assert_eq!(board.board_state().unwrap().slots[4].session_id.as_deref(), Some("z1"));
}

#[test]
fn equal_ids_of_two_backends_are_two_sessions() {
    let mut board = SessionBoard::new(8);
    board.upsert_session(snapshot(BackendId::Zcode, "same", DeckStatus::Done, 1), 5);
    board.upsert_session(snapshot(BackendId::Workbuddy, "same", DeckStatus::Working, 2), 5);
    assert_eq!(board.list_sessions().len(), 2);
    board.upsert_session(snapshot(BackendId::Zcode, "same", DeckStatus::Error, 3), 5);
    let all = board.list_sessions();
    assert_eq!(all.len(), 2);
    assert_eq!(all[0].status, DeckStatus::Error);
    assert_eq!(board.find_session("same").unwrap().session_id, "same");
    assert!(board.find_session("other").is_none());
}

#[test]
fn many_upserts_keep_the_last_of_each() {
    let mut board = SessionBoard::new(8);
    board.upsert_sessions(
        vec![
            snapshot(BackendId::Codex, "x", DeckStatus::Working, 1),
            snapshot(BackendId::Codex, "y", DeckStatus::Idle, 1),
            snapshot(BackendId::Codex, "x", DeckStatus::Done, 2),
        ],
        5,
    );
    let all = board.list_sessions();
    assert_eq!(all.len(), 2);
    assert_eq!(all[0].session_id, "x");
    assert_eq!(all[0].status, DeckStatus::Done);
    assert!(board.led_frame().is_some());
}

#[test]
fn nothing_upserted_nothing_refreshed() {
    let mut board = SessionBoard::new(2);
    board.upsert_sessions(vec![], 5);
    assert!(board.board_state().is_none());
}

#[test]
fn focus_and_pins_beyond_the_board_are_ignored() {
    let mut board = SessionBoard::new(3);
    board.set_focus(2);
    board.set_focus(3);
    assert_eq!(board.focus(), 2);
    board.set_pin(3, Some("a".into()), 0);
    assert!(board.pins().is_empty());
    board.set_pins(HashMap::from([(1, "p".to_string())]), 0);
    assert_eq!(board.pinned_ids(), ["p"]);
}
