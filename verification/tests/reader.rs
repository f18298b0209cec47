use readpass::passstr::SecStr;
use readpass::prompt::ReadEvent;
use readpass::prompt::StepOutcome;
use readpass::prompt::enter_password_mode;
use readpass::prompt::process_event;
use readpass::prompt::process_events;

#[test]
fn three_characters_then_newline_yield_the_fold_chain() {
    let events = vec![
        ReadEvent::Received('a'),
        ReadEvent::Received('b'),
        ReadEvent::Received('c'),
        ReadEvent::Received('\n'),
    ];
    let read = process_events(&events);

    let mut expected = SecStr::new();
    expected.push('a');
    expected.push('b');
    expected.push('c');
    assert!(read == expected);
    assert_eq!(read.get_vec(), expected.get_vec());
    assert_ne!(read.get_vec(), b"abc".to_vec());
}

#[test]
fn abort_discards_everything_typed_before() {
    let aborted = vec![
        ReadEvent::Received('a'),
        ReadEvent::Received('b'),
        ReadEvent::Received('\x08'),
        ReadEvent::Received('c'),
        ReadEvent::Received('\n'),
    ];
    let plain = vec![ReadEvent::Received('c'), ReadEvent::Received('\n')];
    assert!(process_events(&aborted) == process_events(&plain));
}

#[test]
fn decode_failure_discards_everything_typed_before() {
    let failed = vec![
        ReadEvent::Received('a'),
        ReadEvent::DecodeFailed,
        ReadEvent::Received('c'),
        ReadEvent::Received('\n'),
    ];
    let plain = vec![ReadEvent::Received('c'), ReadEvent::Received('\n')];
    assert!(process_events(&failed) == process_events(&plain));
}

#[test]
fn immediate_newline_yields_the_empty_buffer() {
    let events = vec![ReadEvent::Received('\n')];
    let read = process_events(&events);
    assert!(read == SecStr::new());
    assert_eq!(read.unsecure().len(), 0);
}

#[test]
fn reading_stops_at_the_first_newline() {
    let events = vec![
        ReadEvent::Received('a'),
        ReadEvent::Received('\n'),
        ReadEvent::Received('b'),
    ];
    let shorter = vec![ReadEvent::Received('a'), ReadEvent::Received('\n')];
    assert!(process_events(&events) == process_events(&shorter));
}

#[test]
fn each_event_drives_the_expected_outcome() {
    let mut password = SecStr::new();

    let outcome = process_event(&mut password, ReadEvent::Received('x'));
    assert!(matches!(outcome, StepOutcome::Accepted));
    assert_eq!(password.unsecure().len(), 128);

    let kept = password.get_vec();
    let outcome = process_event(&mut password, ReadEvent::Received('\n'));
    assert!(matches!(outcome, StepOutcome::Finished));
    assert_eq!(password.get_vec(), kept);

    let outcome = process_event(&mut password, ReadEvent::Received('\x08'));
    assert!(matches!(outcome, StepOutcome::Retype));
    assert_eq!(password.unsecure().len(), 0);

    password.push('y');
    let outcome = process_event(&mut password, ReadEvent::DecodeFailed);
    assert!(matches!(outcome, StepOutcome::Retype));
    assert_eq!(password.unsecure().len(), 0);
}

#[test]
fn password_mode_hides_echo_and_keeps_the_original() {
    let echo: u32 = 0o10;
    let echonl: u32 = 0o100;
    let current: u32 = 0o770 | echo;
    let mode = enter_password_mode(current, echo, echonl);
    assert_eq!(mode.original, current);
    assert_eq!(mode.modified & echo, 0);
    assert_eq!(mode.modified & echonl, echonl);
    // every other flag is untouched
    assert_eq!(mode.modified & !(echo | echonl), current & !(echo | echonl));
}

#[test]
fn terminal_flags_restore_to_the_captured_value() {
    // the flags applied while reading differ from the captured ones, yet the
    // value to restore is exactly what was captured
    let current: u32 = 0o4010;
    let mode = enter_password_mode(current, 0o10, 0o100);
    assert_ne!(mode.modified, current);
    assert_eq!(mode.original, current);
}
