use hangman::{Game, GuessOutcome, BLANK, MAX_WRONG};

fn game(word: &str) -> Game {
    Game::new(&word.to_string()).expect("a non-empty word starts a game")
}

#[test]
fn new_game_shows_only_blanks() {
    let g = game("cat");
    assert_eq!(g.public_word(), vec![BLANK, BLANK, BLANK]);
    assert_eq!(g.limbs(), 0);
    assert!(g.guesses().is_empty());
    assert_eq!(g.secret_word(), "cat");
    assert!(!g.is_over());
}

#[test]
fn empty_word_is_refused() {
    assert!(Game::new(&String::new()).is_none());
}

#[test]
fn scenario_cat_guessed_in_order_wins() {
    let mut g = game("cat");
    assert_eq!(g.register_guess('c'), GuessOutcome::SuccessfulGuess(1));
    assert_eq!(g.register_guess('a'), GuessOutcome::SuccessfulGuess(1));
    assert_eq!(g.register_guess('t'), GuessOutcome::GameWon);
    assert_eq!(g.public_word(), vec!['c', 'a', 't']);
    assert!(g.is_over());
}

#[test]
fn scenario_six_wrong_guesses_lose() {
    let mut g = game("cat");
    let guesses = ['z', 'x', 'q', 'm', 'n', 'b'];
    for (i, &c) in guesses.iter().enumerate() {
        let o = g.register_guess(c);
        if i + 1 < guesses.len() {
            assert_eq!(o, GuessOutcome::FailedGuess);
        } else {
            assert_eq!(o, GuessOutcome::OutOfTurns);
        }
    }
    assert_eq!(g.limbs(), 6);
    assert_eq!(MAX_WRONG, 6);
    assert_eq!(g.guesses(), &vec!['z', 'x', 'q', 'm', 'n', 'b']);
    assert!(g.is_over());
}

#[test]
fn scenario_same_hit_twice() {
    let mut g = game("cat");
    assert_eq!(g.register_guess('c'), GuessOutcome::SuccessfulGuess(1));
    assert_eq!(g.register_guess('c'), GuessOutcome::AlreadyGuessed('c'));
}

#[test]
fn scenario_double_letter_revealed_at_once() {
    let mut g = game("egg");
    assert_eq!(g.register_guess('g'), GuessOutcome::SuccessfulGuess(2));
    assert_eq!(g.public_word(), vec![BLANK, 'g', 'g']);
    assert!(!g.is_over());
}

#[test]
fn repeated_miss_is_counted_once() {
    let mut g = game("cat");
    assert_eq!(g.register_guess('z'), GuessOutcome::FailedGuess);
    assert_eq!(g.limbs(), 1);
    for _ in 0..3 {
        assert_eq!(g.register_guess('z'), GuessOutcome::AlreadyGuessed('z'));
        assert_eq!(g.limbs(), 1);
    }
    assert_eq!(g.guesses(), &vec!['z']);
}

#[test]
fn hit_after_other_guesses_is_already_guessed() {
    let mut g = game("banana");
    assert_eq!(g.register_guess('a'), GuessOutcome::SuccessfulGuess(3));
    assert_eq!(g.register_guess('q'), GuessOutcome::FailedGuess);
    assert_eq!(g.register_guess('n'), GuessOutcome::SuccessfulGuess(2));
    assert_eq!(g.register_guess('a'), GuessOutcome::AlreadyGuessed('a'));
    assert_eq!(g.limbs(), 1);
}

#[test]
fn guesses_after_a_loss_change_nothing() {
    let mut g = game("cat");
    for c in ['z', 'x', 'q', 'm', 'n'] {
        assert_eq!(g.register_guess(c), GuessOutcome::FailedGuess);
    }
    assert_eq!(g.register_guess('b'), GuessOutcome::OutOfTurns);
    let before = g.public_word();
    assert_eq!(g.register_guess('c'), GuessOutcome::AlreadyFinished);
    assert_eq!(g.register_guess('y'), GuessOutcome::AlreadyFinished);
    assert_eq!(g.limbs(), MAX_WRONG);
    assert_eq!(g.public_word(), before);
}

#[test]
fn guesses_after_a_win_change_nothing() {
    let mut g = game("aa");
    assert_eq!(g.register_guess('a'), GuessOutcome::GameWon);
    assert_eq!(g.register_guess('b'), GuessOutcome::AlreadyFinished);
    assert_eq!(g.limbs(), 0);
    assert_eq!(g.public_word(), vec!['a', 'a']);
}

#[test]
fn win_after_misses_and_repeats() {
    let mut g = game("tot");
    assert_eq!(g.register_guess('x'), GuessOutcome::FailedGuess);
    assert_eq!(g.register_guess('t'), GuessOutcome::SuccessfulGuess(2));
    assert_eq!(g.register_guess('t'), GuessOutcome::AlreadyGuessed('t'));
    assert_eq!(g.register_guess('x'), GuessOutcome::AlreadyGuessed('x'));
    assert_eq!(g.register_guess('o'), GuessOutcome::GameWon);
    assert_eq!(g.public_word(), vec!['t', 'o', 't']);
    assert_eq!(g.limbs(), 1);
}

#[test]
fn letters_beyond_ascii_take_one_slot_each() {
    let mut g = game("éte");
    assert_eq!(g.public_word().len(), 3);
    assert_eq!(g.register_guess('é'), GuessOutcome::SuccessfulGuess(1));
    assert_eq!(g.public_word(), vec!['é', BLANK, BLANK]);
}

#[test]
fn play_turn_applies_only_valid_lines() {
    let mut g = game("cat");
    assert_eq!(g.play_turn("  c\n"), Some(GuessOutcome::SuccessfulGuess(1)));
    assert_eq!(g.play_turn("7\n"), None);
    assert_eq!(g.play_turn("at\n"), None);
    assert_eq!(g.play_turn("\n"), None);
    assert_eq!(g.limbs(), 0);
    assert_eq!(g.play_turn("z"), Some(GuessOutcome::FailedGuess));
    assert_eq!(g.limbs(), 1);
}
