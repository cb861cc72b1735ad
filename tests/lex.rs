use tastlib::lex::Event::{Down, Up};
use tastlib::lex::Key::{Left, Right};
use tastlib::lex::{chord, Event, EventLog, Gesture, Key, KeyId, Pressed, PRESS_SIZE, STACK_SIZE};

#[test]
fn lex_single_key() {
    let mut stack = EventLog::new();
    stack.push(Down(Left(KeyId::K1))).unwrap();
    stack.push(Up(Left(KeyId::K1))).unwrap();

    let presses = chord(&mut stack);
    assert_eq!(stack.len(), 0);
    assert_eq!(presses.len(), 1);
    assert_eq!(Pressed(Left(KeyId::K1)), presses.as_slice()[0]);
}

#[test]
fn single_key_fail() {
    let mut stack = EventLog::new();
    stack.push(Up(Left(KeyId::K1))).unwrap();
    stack.push(Down(Left(KeyId::K1))).unwrap();

    let presses = chord(&mut stack);
    // a log may not start with a release: it is cleared, nothing resolves
    assert_eq!(stack.len(), 0);
    assert_eq!(presses.len(), 0);
}

#[test]
fn single_key_with_surplus() {
    let mut stack = EventLog::new();
    stack.push(Down(Left(KeyId::K1))).unwrap();
    stack.push(Up(Left(KeyId::K1))).unwrap();
    stack.push(Down(Left(KeyId::K2))).unwrap();

    let presses = chord(&mut stack);
    assert_eq!(stack.len(), 1);
    assert_eq!(presses.len(), 1);
    assert_eq!(Pressed(Left(KeyId::K1)), presses.as_slice()[0]);
    assert_eq!(Some(&Down(Left(KeyId::K2))), stack.first());
}

#[test]
fn two_single_weird_timing() {
    let mut stack = EventLog::new();
    stack.push(Down(Left(KeyId::K1))).unwrap();
    stack.push(Down(Left(KeyId::K2))).unwrap();
    stack.push(Up(Left(KeyId::K1))).unwrap();

    let presses = chord(&mut stack);
    assert_eq!(stack.len(), 1);
    assert_eq!(presses.len(), 1);
    assert_eq!(Pressed(Left(KeyId::K1)), presses.as_slice()[0]);

    stack.push(Up(Left(KeyId::K2))).unwrap();

    let presses = chord(&mut stack);
    assert_eq!(stack.len(), 0);
    assert_eq!(presses.len(), 1);
    assert_eq!(Pressed(Left(KeyId::K2)), presses.as_slice()[0]);
}

#[test]
fn two_single_key_strokes() {
    let mut stack = EventLog::new();
    stack.push(Down(Left(KeyId::K1))).unwrap();
    stack.push(Up(Left(KeyId::K1))).unwrap();
    stack.push(Down(Left(KeyId::K2))).unwrap();
    stack.push(Up(Left(KeyId::K2))).unwrap();

    let presses = chord(&mut stack);
    assert_eq!(stack.len(), 2);
    assert_eq!(presses.len(), 1);
    assert_eq!(Pressed(Left(KeyId::K1)), presses.as_slice()[0]);
    let presses = chord(&mut stack);
    assert_eq!(stack.len(), 0);
    assert_eq!(presses.len(), 1);
    assert_eq!(Pressed(Left(KeyId::K2)), presses.as_slice()[0]);
}

#[test]
fn two_key_chord() {
    let mut stack = EventLog::new();
    stack.push(Down(Left(KeyId::K1))).unwrap();
    stack.push(Down(Left(KeyId::K2))).unwrap();
    stack.push(Up(Left(KeyId::K2))).unwrap();
    stack.push(Up(Left(KeyId::K1))).unwrap();

    let presses = chord(&mut stack);
    assert_eq!(stack.len(), 0);
    assert_eq!(presses.len(), 2);
    assert_eq!(Pressed(Left(KeyId::K1)), presses.as_slice()[0]);
    assert_eq!(Pressed(Left(KeyId::K2)), presses.as_slice()[1]);
}

#[test]
fn two_key_chord_in_eval() {
    let mut stack = EventLog::new();
    stack.push(Down(Left(KeyId::K1))).unwrap();
    stack.push(Down(Left(KeyId::K2))).unwrap();
    stack.push(Up(Left(KeyId::K2))).unwrap();
    let presses = chord(&mut stack);
    assert_eq!(stack.len(), 3);
    assert_eq!(presses.len(), 0);

    stack.push(Up(Left(KeyId::K1))).unwrap();

    let presses = chord(&mut stack);
    assert_eq!(stack.len(), 0);
    assert_eq!(presses.len(), 2);
    assert_eq!(Pressed(Left(KeyId::K1)), presses.as_slice()[0]);
    assert_eq!(Pressed(Left(KeyId::K2)), presses.as_slice()[1]);
}

#[test]
fn two_key_chord_surplus_then_single() {
    let mut stack = EventLog::new();
    stack.push(Down(Left(KeyId::K1))).unwrap();
    stack.push(Down(Left(KeyId::K2))).unwrap();
    stack.push(Up(Left(KeyId::K2))).unwrap();
    stack.push(Up(Left(KeyId::K1))).unwrap();
    stack.push(Down(Left(KeyId::K3))).unwrap();

    let presses = chord(&mut stack);
    assert_eq!(stack.len(), 1);
    assert_eq!(presses.len(), 2);
    assert_eq!(Pressed(Left(KeyId::K1)), presses.as_slice()[0]);
    assert_eq!(Pressed(Left(KeyId::K2)), presses.as_slice()[1]);
    assert_eq!(Some(&Down(Left(KeyId::K3))), stack.first());

    stack.push(Up(Left(KeyId::K3))).unwrap();
    let presses = chord(&mut stack);
    assert_eq!(stack.len(), 0);
    assert_eq!(presses.len(), 1);
    assert_eq!(Pressed(Left(KeyId::K3)), presses.as_slice()[0]);
}

fn serde_assert(evt: Event, expected: u8) {
    let bin: u8 = evt.into();
    let parsed: Event = bin.into();
    assert_eq!(expected, bin);
    assert_eq!(evt, parsed);
}

#[test]
fn serde_test() {
    serde_assert(Event::Down(Key::Left(KeyId::K40)), 0b1110_0111);
    serde_assert(Event::Down(Key::Left(KeyId::K10)), 0b1100_1001);
    serde_assert(Event::Down(Key::Left(KeyId::K1)), 0b1100_0000);
    serde_assert(Event::Down(Key::Right(KeyId::K40)), 0b1010_0111);
    serde_assert(Event::Down(Key::Right(KeyId::K10)), 0b1000_1001);
    serde_assert(Event::Down(Key::Right(KeyId::K1)), 0b1000_0000);
    serde_assert(Event::Up(Key::Left(KeyId::K40)), 0b0110_0111);
    serde_assert(Event::Up(Key::Right(KeyId::K10)), 0b0000_1001);
    serde_assert(Event::Up(Key::Right(KeyId::K1)), 0b0000_0000);
}

#[test]
fn round_trip_every_byte_of_a_known_key() {
    for b in 0u8..=255 {
        if (b & 0b0011_1111) < 40 {
            let e = Event::from(b);
            assert_eq!(u8::from(e), b);
            assert_eq!(Event::from(u8::from(e)), e);
        }
    }
}

#[test]
fn decode_unknown_ordinal_falls_back_to_first_key() {
    assert_eq!(Event::from(0b1110_1000), Down(Left(KeyId::K1)));
    assert_eq!(Event::from(0b0011_1111), Up(Right(KeyId::K1)));
}

#[test]
fn key_conversions() {
    assert_eq!(Key::from(Up(Right(KeyId::K7))), Right(KeyId::K7));
    assert_eq!(KeyId::from(Left(KeyId::K9)), KeyId::K9);
    assert_eq!(Key::from(Pressed(Left(KeyId::K3))), Left(KeyId::K3));
}

#[test]
fn empty_log_resolves_nothing_and_stays_empty() {
    let mut stack = EventLog::new();
    let presses = chord(&mut stack);
    assert!(presses.is_empty());
    assert!(stack.is_empty());
    assert_eq!(stack.first(), None);
}

#[test]
fn root_without_release_keeps_log() {
    let mut stack = EventLog::new();
    stack.push(Down(Left(KeyId::K1))).unwrap();
    stack.push(Down(Left(KeyId::K2))).unwrap();
    stack.push(Up(Left(KeyId::K2))).unwrap();
    let presses = chord(&mut stack);
    assert_eq!(presses.len(), 0);
    assert_eq!(
        stack.as_slice(),
        &[Down(Left(KeyId::K1)), Down(Left(KeyId::K2)), Up(Left(KeyId::K2))]
    );
}

#[test]
fn release_after_seal_still_joins_when_pressed_before() {
    // K2 is pressed before K1's release and released after it
    let mut stack = EventLog::new();
    stack.push(Down(Left(KeyId::K1))).unwrap();
    stack.push(Down(Right(KeyId::K2))).unwrap();
    stack.push(Up(Left(KeyId::K1))).unwrap();
    stack.push(Up(Right(KeyId::K2))).unwrap();
    let presses = chord(&mut stack);
    assert_eq!(
        presses.as_slice(),
        &[Pressed(Left(KeyId::K1)), Pressed(Right(KeyId::K2))]
    );
    assert!(stack.is_empty());
}

#[test]
fn repeated_press_joins_once() {
    let mut stack = EventLog::new();
    stack.push(Down(Left(KeyId::K1))).unwrap();
    stack.push(Down(Left(KeyId::K2))).unwrap();
    stack.push(Up(Left(KeyId::K2))).unwrap();
    stack.push(Down(Left(KeyId::K2))).unwrap();
    stack.push(Up(Left(KeyId::K2))).unwrap();
    stack.push(Up(Left(KeyId::K1))).unwrap();
    stack.push(Down(Left(KeyId::K5))).unwrap();
    let presses = chord(&mut stack);
    assert_eq!(
        presses.as_slice(),
        &[Pressed(Left(KeyId::K1)), Pressed(Left(KeyId::K2))]
    );
    assert_eq!(stack.as_slice(), &[Down(Left(KeyId::K5))]);
}

#[test]
fn full_log_rejects_push() {
    let mut stack = EventLog::new();
    for i in 0..STACK_SIZE {
        let e = if i % 2 == 0 { Down(Left(KeyId::K1)) } else { Up(Left(KeyId::K1)) };
        assert!(stack.push(e).is_ok());
    }
    assert_eq!(stack.len(), STACK_SIZE);
    assert_eq!(stack.push(Down(Right(KeyId::K2))), Err(Down(Right(KeyId::K2))));
    assert_eq!(stack.len(), STACK_SIZE);
    stack.clear();
    assert!(stack.is_empty());
}

#[test]
fn full_gesture_rejects_push() {
    let mut g = Gesture::new();
    for _ in 0..PRESS_SIZE {
        assert!(g.push(Pressed(Left(KeyId::K1))).is_ok());
    }
    assert_eq!(g.len(), PRESS_SIZE);
    assert_eq!(g.push(Pressed(Right(KeyId::K4))), Err(Pressed(Right(KeyId::K4))));
    assert_eq!(g.len(), PRESS_SIZE);
    assert_eq!(g.as_slice()[PRESS_SIZE - 1], Pressed(Left(KeyId::K1)));
    g.clear();
    assert!(g.is_empty());
}

#[test]
fn many_keys_in_one_chord() {
    // a chord of 32 distinct keys, the root released last
    let ids = [
        KeyId::K1, KeyId::K2, KeyId::K3, KeyId::K4, KeyId::K5, KeyId::K6, KeyId::K7, KeyId::K8,
        KeyId::K9, KeyId::K10, KeyId::K11, KeyId::K12, KeyId::K13, KeyId::K14, KeyId::K15,
        KeyId::K16,
    ];
    let mut keys = Vec::new();
    for id in ids {
        keys.push(Left(id));
        keys.push(Right(id));
    }
    let mut stack = EventLog::new();
    for k in &keys {
        stack.push(Down(*k)).unwrap();
    }
    for k in keys.iter().rev() {
        stack.push(Up(*k)).unwrap();
    }
    let presses = chord(&mut stack);
    assert_eq!(presses.len(), 32);
    for (i, k) in keys.iter().enumerate() {
        assert_eq!(presses.as_slice()[i], Pressed(*k));
    }
    assert!(stack.is_empty());
}
