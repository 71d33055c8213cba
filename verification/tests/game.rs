use hangman::figure::ManState;
use hangman::game::Game;
use hangman::layout::Layout;

fn qwerty_rows() -> Vec<Vec<char>> {
    vec![
        "qwertyuiop".chars().collect(),
        "asdfghjkl".chars().collect(),
        "zxcvbnm".chars().collect(),
    ]
}

fn make_game(word: &str) -> Game {
    let layout = Layout::new(qwerty_rows()).unwrap();
    Game::new(layout, word.chars().collect())
}

fn mask_of(game: &Game) -> String {
    game.masked_word().into_iter().collect()
}

#[test]
fn initial_mask_is_all_placeholders() {
    let game = make_game("cat");
    assert_eq!(mask_of(&game), "---");
    assert_eq!(game.wrong_guesses(), 0);
    assert_eq!(game.figure_state(), ManState::Free);
}

#[test]
fn revealing_c_then_t() {
    let mut game = make_game("cat");
    game.key_pressed('c');
    assert_eq!(mask_of(&game), "c--");
    game.key_pressed('t');
    assert_eq!(mask_of(&game), "c-t");
    assert_eq!(game.wrong_guesses(), 0);
}

#[test]
fn one_wrong_guess_gives_alive_zero() {
    let mut game = make_game("cat");
    game.key_pressed('z');
    assert_eq!(game.wrong_guesses(), 1);
    assert_eq!(game.figure_state(), ManState::Alive(0));
}

#[test]
fn six_wrong_guesses_give_dead() {
    let mut game = make_game("cat");
    for ch in ['z', 'x', 'q', 'w', 'v', 'b'] {
        game.key_pressed(ch);
    }
    assert_eq!(game.wrong_guesses(), 6);
    assert_eq!(game.figure_state(), ManState::Dead);
}

#[test]
fn figure_state_advances_one_stage_per_wrong_guess() {
    let mut game = make_game("cat");
    let wrong_keys = ['z', 'x', 'q', 'w', 'v', 'b'];
    let expected = [
        ManState::Alive(0),
        ManState::Alive(1),
        ManState::Alive(2),
        ManState::Alive(3),
        ManState::Alive(4),
        ManState::Dead,
    ];
    for (i, ch) in wrong_keys.iter().enumerate() {
        game.key_pressed(*ch);
        assert_eq!(game.figure_state(), expected[i]);
    }
}

#[test]
fn marking_a_cell_twice_masks_like_once() {
    let mut once = make_game("cat");
    let mut twice = make_game("cat");
    once.toggle_cell(2, 2);
    twice.toggle_cell(2, 2);
    twice.toggle_cell(2, 2);
    assert_eq!(mask_of(&once), mask_of(&twice));
    assert_eq!(once.wrong_guesses(), twice.wrong_guesses());
}

#[test]
fn marking_a_cell_reveals_all_its_occurrences_and_no_others() {
    let mut game = make_game("banana");
    game.toggle_cell(1, 0);
    assert_eq!(mask_of(&game), "-a-a-a");
}

#[test]
fn comparison_ignores_case_and_preserves_it() {
    let mut game = make_game("Cat");
    game.key_pressed('C');
    assert_eq!(mask_of(&game), "C--");
    game.key_pressed('A');
    assert_eq!(mask_of(&game), "Ca-");
}

#[test]
fn character_without_a_cell_is_ignored() {
    let mut game = make_game("cat");
    game.key_pressed('!');
    game.key_pressed('3');
    assert_eq!(mask_of(&game), "---");
    assert_eq!(game.wrong_guesses(), 0);
}

#[test]
fn out_of_range_toggle_is_ignored() {
    let mut game = make_game("cat");
    game.toggle_cell(5, 0);
    game.toggle_cell(0, 50);
    assert_eq!(mask_of(&game), "---");
    assert_eq!(game.wrong_guesses(), 0);
}

#[test]
fn word_character_outside_the_alphabet_stays_masked() {
    let mut game = make_game("c3po");
    let rows: usize = game.num_rows();
    for r in 0..rows {
        let cols: usize = game.row_len(r);
        for c in 0..cols {
            game.toggle_cell(r, c);
        }
    }
    assert_eq!(mask_of(&game), "c-po");
    assert!(!game.is_fully_revealed());
}

#[test]
fn revealing_every_letter_wins() {
    let mut game = make_game("cat");
    assert!(!game.is_fully_revealed());
    game.key_pressed('c');
    game.key_pressed('a');
    assert!(!game.is_fully_revealed());
    game.key_pressed('t');
    assert!(game.is_fully_revealed());
    assert_eq!(game.wrong_guesses(), 0);
    assert_eq!(game.figure_state(), ManState::Free);
}

#[test]
fn key_press_flips_only_its_own_flag() {
    let mut game = make_game("cat");
    game.key_pressed('q');
    let rows: usize = game.num_rows();
    for r in 0..rows {
        let cols: usize = game.row_len(r);
        for c in 0..cols {
            let expected = !(r == 0 && c == 0);
            assert_eq!(game.is_available(r, c), expected);
        }
    }
}

#[test]
fn empty_word_counts_every_guess_as_wrong() {
    let mut game = make_game("");
    assert_eq!(mask_of(&game), "");
    assert!(game.is_fully_revealed());
    game.key_pressed('a');
    assert_eq!(game.wrong_guesses(), 1);
    assert_eq!(game.figure_state(), ManState::Alive(0));
}
