//! The snapshot differ and the synchronization state machine.

use meal_planner::diff::{diff_planned, CloseSignal};
use meal_planner::sync::{encode_message, parse_message, step, SyncAction, SyncEvent, SyncState};
use meal_planner::types::{DayPlan, MealPlanMessage, MealStub};

fn day(date: u64, stubs: Vec<MealStub>) -> DayPlan {
    DayPlan { date, stubs }
}

fn stub(date: u64, id: u128, leftovers: bool) -> MealStub {
    MealStub {
        date,
        id,
        leftovers,
    }
}

#[test]
fn a_vanished_date_closes_every_stub_it_held() {
    // Before: one date with one stub. After: the date is gone entirely.
    let before = vec![day(20240601, vec![stub(20240601, 0xA, false)])];
    let after: Vec<DayPlan> = vec![];
    let signals = diff_planned(&before, &after);
    assert_eq!(
        signals,
        vec![CloseSignal {
            date: 20240601,
            id: 0xA
        }]
    );
}

#[test]
fn a_vanished_stub_closes_only_itself() {
    let before = vec![day(
        20240601,
        vec![stub(20240601, 0xA, false), stub(20240601, 0xB, false)],
    )];
    let after = vec![day(20240601, vec![stub(20240601, 0xA, false)])];
    let signals = diff_planned(&before, &after);
    assert_eq!(
        signals,
        vec![CloseSignal {
            date: 20240601,
            id: 0xB
        }]
    );
}

#[test]
fn a_changed_flag_is_not_the_same_stub() {
    // Structural equality: the same date and id with a flipped leftover
    // flag counts as a different entry, so the old one closes.
    let before = vec![day(1, vec![stub(1, 0xA, false)])];
    let after = vec![day(1, vec![stub(1, 0xA, true)])];
    let signals = diff_planned(&before, &after);
    assert_eq!(signals, vec![CloseSignal { date: 1, id: 0xA }]);
}

#[test]
fn unchanged_and_new_entries_stay_silent() {
    let before = vec![day(1, vec![stub(1, 0xA, false)])];
    let after = vec![
        day(1, vec![stub(1, 0xA, false), stub(1, 0xB, false)]),
        day(2, vec![stub(2, 0xC, false)]),
    ];
    let signals = diff_planned(&before, &after);
    assert!(signals.is_empty());
}

#[test]
fn an_empty_before_snapshot_yields_no_signals() {
    let after = vec![day(1, vec![stub(1, 0xA, false)])];
    assert!(diff_planned(&vec![], &after).is_empty());
}

#[test]
fn connection_outcomes_drive_the_disconnected_state() {
    assert_eq!(
        step(SyncState::Disconnected, SyncEvent::ConnectSucceeded),
        (SyncState::Connected, SyncAction::Idle)
    );
    assert_eq!(
        step(SyncState::Disconnected, SyncEvent::ConnectFailed),
        (SyncState::Disconnected, SyncAction::Retry)
    );
}

#[test]
fn losing_the_channel_asks_for_close_backoff_and_reconnect() {
    for event in [
        SyncEvent::StreamEnded,
        SyncEvent::TransportError,
        SyncEvent::CloseFrame,
    ] {
        assert_eq!(
            step(SyncState::Connected, event),
            (SyncState::Disconnected, SyncAction::CloseThenRetry)
        );
    }
}

#[test]
fn a_wellformed_notification_is_forwarded() {
    let (state, action) = step(
        SyncState::Connected,
        SyncEvent::TextFrame("\"Update\"".to_string()),
    );
    assert_eq!(state, SyncState::Connected);
    assert_eq!(action, SyncAction::Forward(MealPlanMessage::Update));

    // Surrounding whitespace is tolerated.
    let (_, action) = step(
        SyncState::Connected,
        SyncEvent::TextFrame("  \"Update\"\n".to_string()),
    );
    assert_eq!(action, SyncAction::Forward(MealPlanMessage::Update));
}

#[test]
fn a_malformed_payload_is_ignored_and_the_channel_stays_up() {
    for text in ["", "Update", "\"update\"", "\"Update", "{\"x\":1}"] {
        let (state, action) = step(
            SyncState::Connected,
            SyncEvent::TextFrame(text.to_string()),
        );
        assert_eq!(state, SyncState::Connected);
        assert_eq!(action, SyncAction::Idle);
    }
}

#[test]
fn unexpected_frames_are_ignored() {
    for event in [SyncEvent::BinaryFrame, SyncEvent::PingFrame, SyncEvent::PongFrame] {
        assert_eq!(
            step(SyncState::Connected, event),
            (SyncState::Connected, SyncAction::Idle)
        );
    }
}

#[test]
fn the_notification_round_trips_through_the_codec() {
    let encoded = encode_message(&MealPlanMessage::Update);
    assert_eq!(encoded, "\"Update\"");
    assert_eq!(
        parse_message(&encoded),
        Some(MealPlanMessage::Update)
    );
    assert_eq!(parse_message("nonsense"), None);
}
