use hangman::figure::ManState;

#[test]
fn from_mistakes_zero_is_free() {
    assert_eq!(ManState::from_mistakes(0), ManState::Free);
}

#[test]
fn from_mistakes_one_to_five_is_alive() {
    assert_eq!(ManState::from_mistakes(1), ManState::Alive(0));
    assert_eq!(ManState::from_mistakes(2), ManState::Alive(1));
    assert_eq!(ManState::from_mistakes(3), ManState::Alive(2));
    assert_eq!(ManState::from_mistakes(4), ManState::Alive(3));
    assert_eq!(ManState::from_mistakes(5), ManState::Alive(4));
}

#[test]
fn from_mistakes_six_or_more_is_dead() {
    assert_eq!(ManState::from_mistakes(6), ManState::Dead);
    assert_eq!(ManState::from_mistakes(7), ManState::Dead);
    assert_eq!(ManState::from_mistakes(1000), ManState::Dead);
}
