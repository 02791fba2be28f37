use hanoi_actor::State;
use hanoi_actor::StateError;

fn towers(t1: &[u8], t2: &[u8], t3: &[u8]) -> State {
    State { tower1: t1.to_vec(), tower2: t2.to_vec(), tower3: t3.to_vec() }
}

#[test]
fn new_builds_initial_layout() {
    let s = State::new(3);
    assert_eq!(s, towers(&[3, 2, 1], &[], &[]));
    let s5 = State::new(5);
    assert_eq!(s5, towers(&[5, 4, 3, 2, 1], &[], &[]));
    let s1 = State::new(1);
    assert_eq!(s1, towers(&[1], &[], &[]));
}

#[test]
fn scenario_a_three_moves() {
    let mut s = State::new(3);
    assert_eq!(s, towers(&[3, 2, 1], &[], &[]));
    assert_eq!(s.move_disc(1, 3), Ok(()));
    assert_eq!(s, towers(&[3, 2], &[], &[1]));
    assert_eq!(s.move_disc(1, 2), Ok(()));
    assert_eq!(s, towers(&[3], &[2], &[1]));
    assert_eq!(s.move_disc(3, 2), Ok(()));
    assert_eq!(s, towers(&[3], &[2, 1], &[]));
}

#[test]
fn scenario_b_larger_on_smaller_rejected() {
    let mut s = towers(&[3], &[2, 1], &[]);
    let before = s.clone();
    assert_eq!(s.move_disc(1, 2), Err(StateError::IllegalMove));
    assert_eq!(s, before);
}

#[test]
fn is_legal_empty_source_is_false() {
    let s = State::new(3);
    assert_eq!(s.is_legal(2, 1), Ok(false));
    assert_eq!(s.is_legal(3, 2), Ok(false));
}

#[test]
fn is_legal_empty_target_is_true() {
    let s = State::new(3);
    assert_eq!(s.is_legal(1, 2), Ok(true));
    assert_eq!(s.is_legal(1, 3), Ok(true));
}

#[test]
fn is_legal_compares_top_discs() {
    let s = towers(&[3], &[2], &[1]);
    assert_eq!(s.is_legal(3, 2), Ok(true));
    assert_eq!(s.is_legal(2, 3), Ok(false));
    assert_eq!(s.is_legal(1, 1), Ok(false));
}

#[test]
fn invalid_stack_ids_are_rejected() {
    let s = State::new(3);
    assert_eq!(s.is_legal(0, 1), Err(StateError::InvalidStackId));
    assert_eq!(s.is_legal(1, 4), Err(StateError::InvalidStackId));
    let mut m = State::new(3);
    let before = m.clone();
    assert_eq!(m.move_disc(4, 1), Err(StateError::InvalidStackId));
    assert_eq!(m, before);
}

#[test]
fn moving_from_empty_stack_is_illegal() {
    let mut s = State::new(3);
    let before = s.clone();
    assert_eq!(s.move_disc(2, 3), Err(StateError::IllegalMove));
    assert_eq!(s, before);
}
