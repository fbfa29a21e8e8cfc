use kdft::fill::{Fill, ReadEvent};

fn run(wanted: usize, events: &[ReadEvent]) -> Fill {
    let mut state = Fill::new(wanted);
    for event in events {
        assert!(state.read_due());
        state = state.step(*event);
    }
    state
}

#[test]
fn a_buffer_is_filled_across_short_reads() {
    let state = run(
        10,
        &[ReadEvent::Bytes(4), ReadEvent::Interrupted, ReadEvent::Bytes(6)],
    );
    assert_eq!(state.filled, 10);
    assert!(!state.read_due());
    assert!(!state.ended && !state.failed);
}

#[test]
fn a_buffer_is_short_only_at_the_end() {
    let state = run(10, &[ReadEvent::Bytes(4), ReadEvent::Bytes(0)]);
    assert_eq!(state.filled, 4);
    assert!(state.ended && !state.read_due());
    let state = run(10, &[ReadEvent::Bytes(4), ReadEvent::Interrupted]);
    assert!(state.read_due());
    let state = run(10, &[ReadEvent::Bytes(4), ReadEvent::Failed]);
    assert!(state.failed && !state.read_due());
    assert!(!Fill::new(0).read_due());
}
