use hanoi_actor::State;
use hanoi_actor::StateError;

fn towers(t1: &[u8], t2: &[u8], t3: &[u8]) -> State {
    State { tower1: t1.to_vec(), tower2: t2.to_vec(), tower3: t3.to_vec() }
}

#[test]
fn encode_of_three_disc_layout() {
    let s = State::new(3);
    assert_eq!(s.encode(), vec![0x83, 0x43, 3, 2, 1, 0x40, 0x40]);
}

#[test]
fn encode_spreads_stacks_in_order() {
    let s = towers(&[3], &[2], &[1]);
    assert_eq!(s.encode(), vec![0x83, 0x41, 3, 0x41, 2, 0x41, 1]);
}

#[test]
fn round_trip_small_states() {
    let cases = vec![
        towers(&[], &[], &[]),
        State::new(1),
        State::new(5),
        towers(&[3], &[2, 1], &[]),
        towers(&[], &[], &[7, 4, 2]),
    ];
    for s in cases {
        let bytes = s.encode();
        assert_eq!(State::decode(&bytes), Ok(s));
    }
}

#[test]
fn round_trip_long_stack_uses_long_header() {
    let s = State::new(30);
    let bytes = s.encode();
    assert_eq!(bytes[0], 0x83);
    assert_eq!(bytes[1], 0x58);
    assert_eq!(bytes[2], 30);
    assert_eq!(State::decode(&bytes), Ok(s));
}

#[test]
fn equal_states_encode_identically() {
    let a = State::new(5);
    let b = towers(&[5, 4, 3, 2, 1], &[], &[]);
    assert_eq!(a.encode(), b.encode());
}

#[test]
fn initializer_layout_is_deterministic() {
    let first = State::new(5);
    let second = State::new(5);
    assert_eq!(first, second);
    assert_eq!(first.encode(), second.encode());
}

#[test]
fn decode_rejects_malformed_records() {
    let bad: Vec<Vec<u8>> = vec![
        vec![],
        vec![0x84, 0x40, 0x40, 0x40],
        vec![0x83, 0x40, 0x40],
        vec![0x83, 0x41, 0x40, 0x40],
        vec![0x83, 0x43, 3, 2, 1, 0x40],
        vec![0x83, 0x40, 0x40, 0x40, 0x00],
        vec![0x83, 0x58, 0x02, 1, 2, 0x40, 0x40],
        vec![0x83, 0x60, 0x40, 0x40],
    ];
    for b in bad {
        assert_eq!(State::decode(&b), Err(StateError::CorruptState));
    }
}

#[test]
fn decode_accepts_any_ranks() {
    let bytes = vec![0x83, 0x42, 9, 9, 0x40, 0x41, 0];
    assert_eq!(State::decode(&bytes), Ok(towers(&[9, 9], &[], &[0])));
}
