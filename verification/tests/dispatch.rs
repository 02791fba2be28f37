use hanoi_actor::inspect_bytes;
use hanoi_actor::method_of;
use hanoi_actor::parse_move_params;
use hanoi_actor::Method;
use hanoi_actor::State;
use hanoi_actor::StateError;

#[test]
fn method_numbers_map_onto_closed_set() {
    assert_eq!(method_of(1), Method::Constructor);
    assert_eq!(method_of(2), Method::Inspect);
    assert_eq!(method_of(3), Method::ApplyMove);
    assert_eq!(method_of(0), Method::Unknown);
    assert_eq!(method_of(4), Method::Unknown);
    assert_eq!(method_of(99), Method::Unknown);
}

#[test]
fn move_params_decode_ascii_digits() {
    assert_eq!(parse_move_params(&b"13".to_vec()), Ok((1, 3)));
    assert_eq!(parse_move_params(&b"93".to_vec()), Ok((9, 3)));
    assert_eq!(parse_move_params(&b"21x".to_vec()), Ok((2, 1)));
}

#[test]
fn move_params_reject_non_digits() {
    assert_eq!(parse_move_params(&b"".to_vec()), Err(StateError::InvalidStackId));
    assert_eq!(parse_move_params(&b"1".to_vec()), Err(StateError::InvalidStackId));
    assert_eq!(parse_move_params(&b"ab".to_vec()), Err(StateError::InvalidStackId));
    assert_eq!(parse_move_params(&b"1:".to_vec()), Err(StateError::InvalidStackId));
}

#[test]
fn render_shows_stacks_bottom_first() {
    let s = State::new(3);
    assert_eq!(s.render(), b"[3 2 1][][]".to_vec());
    let t = State {
        tower1: vec![255, 42, 7],
        tower2: vec![],
        tower3: vec![10],
    };
    assert_eq!(t.render(), b"[255 42 7][][10]".to_vec());
}

#[test]
fn inspect_packs_dump_as_text_block() {
    let s = State::new(3);
    let block = inspect_bytes(&s).unwrap();
    let mut expected = vec![0x6b];
    expected.extend_from_slice(b"[3 2 1][][]");
    assert_eq!(block, expected);
}
