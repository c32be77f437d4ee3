use vstd::prelude::*;

use crate::text::{guess_of, parse_guess};

verus! {

/// Number of wrong guesses that ends a game in a loss.
pub const MAX_WRONG: usize = 6;

/// The character that stands for a hidden position when the word is shown.
pub const BLANK: char = '_';

/// What one guess did to a game.
#[derive(Clone, Copy, Debug, PartialEq, Eq, Structural)]
pub enum GuessOutcome {
    /// The letter was already tried (a miss, or a letter already shown); nothing changed.
    AlreadyGuessed(char),
    /// The letter was new and revealed this many positions; the game goes on.
    SuccessfulGuess(usize),
    /// The letter is not in the word; one more wrong guess was counted.
    FailedGuess,
    /// The wrong guess that used up the last turn: the game is lost.
    OutOfTurns,
    /// The guess revealed the last hidden position: the game is won.
    GameWon,
    /// The game had already ended before this guess; nothing changed.
    AlreadyFinished,
}

/// The state of a game as the contracts see it.
pub struct GameView {
    /// The word to find.
    pub secret: Seq<char>,
    /// The wrong guesses made so far, in the order they came.
    pub misses: Seq<char>,
    /// One slot per letter of the secret: the letter once found, `None` while hidden.
    pub revealed: Seq<Option<char>>,
    /// Number of wrong guesses.
    pub wrong_count: nat,
}

/// Number of positions of `s` that hold `c`.
pub open spec fn occurrences(s: Seq<char>, c: char) -> nat
    decreases s.len(),
{
    if s.len() == 0 {
        0
    } else {
        occurrences(s.drop_last(), c) + if s.last() == c {
            1nat
        } else {
            0nat
        }
    }
}

/// `revealed` with every position of `secret` that holds `c` uncovered.
pub open spec fn uncover(secret: Seq<char>, revealed: Seq<Option<char>>, c: char) -> Seq<
    Option<char>,
> {
    Seq::new(revealed.len(), |i: int| if secret[i] == c { Some(c) } else { revealed[i] })
}

/// `c` occurs nowhere in `s` exactly when it is counted zero times.
pub proof fn lemma_no_occurrence(s: Seq<char>, c: char)
    ensures
        occurrences(s, c) == 0 <==> !s.contains(c),
    decreases s.len(),
{
    if s.len() > 0 {
        lemma_no_occurrence(s.drop_last(), c);
        if s.drop_last().contains(c) {
            let k = choose|k: int| 0 <= k < s.drop_last().len() && s.drop_last()[k] == c;
            assert(s[k] == c);
        }
        if s.contains(c) && s.last() != c {
            let k = choose|k: int| 0 <= k < s.len() && s[k] == c;
            assert(s.drop_last()[k] == c);
        }
    }
}

/// The character shown for one slot of the revealed word.
pub open spec fn slot_char(o: Option<char>) -> char {
    match o {
        Some(c) => c,
        None => BLANK,
    }
}

/// No position is hidden any more.
pub open spec fn all_shown(revealed: Seq<Option<char>>) -> bool {
    forall|i: int| 0 <= i < revealed.len() ==> (#[trigger] revealed[i]) is Some
}

/// The secret with every position shown.
pub open spec fn fully_shown(secret: Seq<char>) -> Seq<Option<char>> {
    secret.map_values(|c: char| Some(c))
}

impl GameView {
    /// The state in which a game on `secret` begins.
    pub open spec fn initial(secret: Seq<char>) -> GameView {
        GameView {
            secret,
            misses: Seq::empty(),
            revealed: Seq::new(secret.len(), |i: int| None),
            wrong_count: 0,
        }
    }

    /// The game is won.
    pub open spec fn won(self) -> bool {
        all_shown(self.revealed)
    }

    /// The game is lost.
    pub open spec fn lost(self) -> bool {
        self.wrong_count >= MAX_WRONG
    }

    /// The game has ended, won or lost.
    pub open spec fn finished(self) -> bool {
        self.won() || self.lost()
    }

    /// The invariants that every reachable state keeps.
    pub open spec fn valid(self) -> bool {
        &&& self.secret.len() > 0
        &&& self.revealed.len() == self.secret.len()
        &&& forall|i: int|
            0 <= i < self.secret.len() ==> (#[trigger] self.revealed[i] is None
                || self.revealed[i] == Some(self.secret[i]))
        &&& forall|i: int, j: int|
            0 <= i < self.secret.len() && 0 <= j < self.secret.len() && self.secret[i]
                == self.secret[j] ==> #[trigger] self.revealed[i] == #[trigger] self.revealed[j]
        &&& forall|k: int|
            0 <= k < self.misses.len() ==> !self.secret.contains(#[trigger] self.misses[k])
        &&& self.misses.no_duplicates()
        &&& self.wrong_count == self.misses.len()
        &&& self.wrong_count <= MAX_WRONG
    }

    /// The letter `c` was tried before: as a miss, or as a letter now shown.
    pub open spec fn tried(self, c: char) -> bool {
        self.misses.contains(c) || self.revealed.contains(Some(c))
    }

    /// The state after guessing `c`, and what the guess yields.
    pub open spec fn step(self, c: char) -> (GameView, GuessOutcome) {
        if self.finished() {
            (self, GuessOutcome::AlreadyFinished)
        } else if self.tried(c) {
            (self, GuessOutcome::AlreadyGuessed(c))
        } else {
            let n = occurrences(self.secret, c);
            let shown = uncover(self.secret, self.revealed, c);
            if all_shown(shown) {
                (GameView { revealed: shown, ..self }, GuessOutcome::GameWon)
            } else if n > 0 {
                (GameView { revealed: shown, ..self }, GuessOutcome::SuccessfulGuess(n as usize))
            } else {
                let next = GameView {
                    misses: self.misses.push(c),
                    wrong_count: self.wrong_count + 1,
                    ..self
                };
                (next, if next.lost() {
                    GuessOutcome::OutOfTurns
                } else {
                    GuessOutcome::FailedGuess
                })
            }
        }
    }
}

/// One game of guessing the letters of a secret word.
pub struct Game {
    secret_word: String,
    letters: Vec<char>,
    guesses: Vec<char>,
    public_word: Vec<Option<char>>,
    limbs: usize,
}

impl View for Game {
    type V = GameView;

    closed spec fn view(&self) -> GameView {
        GameView {
            secret: self.letters@,
            misses: self.guesses@,
            revealed: self.public_word@,
            wrong_count: self.limbs as nat,
        }
    }
}

impl Game {
    /// The game is in a state that play can reach.
    pub closed spec fn wf(&self) -> bool {
        &&& self@.valid()
        &&& self.secret_word@ == self.letters@
    }

    /// A game in a reachable state keeps the invariants of its view.
    pub proof fn lemma_valid(&self)
        requires
            self.wf(),
        ensures
            self@.valid(),
    {
    }

    /// The secret word as it was given.
    pub closed spec fn word(&self) -> Seq<char> {
        self.secret_word@
    }

    /// Starts a game on `secret_word`: nothing shown, no guesses made.
    /// An empty word is refused.
    pub fn new(secret_word: &String) -> (r: Option<Game>)
        ensures
            r is None <==> secret_word@.len() == 0,
            r matches Some(g) ==> g.wf() && g@ == GameView::initial(secret_word@) && g.word()
                == secret_word@,
    {
        let s = secret_word.as_str();
        let len = s.unicode_len();
        if len == 0 {
            return None;
        }
        let mut letters: Vec<char> = Vec::new();
        let mut public_word: Vec<Option<char>> = Vec::new();
        let mut i: usize = 0;
        while i < len
            invariant
                len == s@.len(),
                s@ == secret_word@,
                i <= len,
                letters@ == s@.take(i as int),
                public_word@ == Seq::new(i as nat, |k: int| None::<char>),
            decreases len - i,
        {
            letters.push(s.get_char(i));
            public_word.push(None);
            i += 1;
            proof {
                assert(letters@ =~= s@.take(i as int));
                assert(public_word@ =~= Seq::new(i as nat, |k: int| None::<char>));
            }
        }
        assert(letters@ =~= s@);
        let g = Game {
            secret_word: secret_word.clone(),
            letters,
            guesses: Vec::new(),
            public_word,
            limbs: 0,
        };
        assert(g@.revealed =~= GameView::initial(secret_word@).revealed);
        Some(g)
    }

    /// The game has ended, won or lost.
    pub fn is_over(&self) -> (r: bool)
        requires
            self.wf(),
        ensures
            r == self@.finished(),
    {
        self.limbs >= MAX_WRONG || self.all_found()
    }

    fn all_found(&self) -> (r: bool)
        ensures
            r == all_shown(self@.revealed),
    {
        let mut i: usize = 0;
        while i < self.public_word.len()
            invariant
                i <= self.public_word@.len(),
                forall|k: int| 0 <= k < i ==> (#[trigger] self.public_word@[k]) is Some,
            decreases self.public_word@.len() - i,
        {
            if self.public_word[i].is_none() {
                return false;
            }
            i += 1;
        }
        true
    }

    fn missed(&self, c: char) -> (r: bool)
        ensures
            r == self@.misses.contains(c),
    {
        let mut i: usize = 0;
        while i < self.guesses.len()
            invariant
                i <= self.guesses@.len(),
                forall|k: int| 0 <= k < i ==> self.guesses@[k] != c,
            decreases self.guesses@.len() - i,
        {
            if self.guesses[i] == c {
                return true;
            }
            i += 1;
        }
        false
    }

    fn shows(&self, c: char) -> (r: bool)
        ensures
            r == self@.revealed.contains(Some(c)),
    {
        let mut i: usize = 0;
        while i < self.public_word.len()
            invariant
                i <= self.public_word@.len(),
                forall|k: int| 0 <= k < i ==> self.public_word@[k] != Some(c),
            decreases self.public_word@.len() - i,
        {
            if let Some(d) = self.public_word[i] {
                if d == c {
                    return true;
                }
            }
            i += 1;
        }
        false
    }

    /// Applies one guess: the state moves as `step` says, and its outcome is returned.
    pub fn register_guess(&mut self, guess: char) -> (r: GuessOutcome)
        requires
            old(self).wf(),
        ensures
            final(self).wf(),
            final(self).word() == old(self).word(),
            (final(self)@, r) == old(self)@.step(guess),
    {
        if self.is_over() {
            return GuessOutcome::AlreadyFinished;
        }
        if self.missed(guess) || self.shows(guess) {
            return GuessOutcome::AlreadyGuessed(guess);
        }
        let ghost v0 = self@;
        let ghost shown = uncover(v0.secret, v0.revealed, guess);
        let mut num_matches: usize = 0;
        let mut i: usize = 0;
        while i < self.letters.len()
            invariant
                shown == uncover(v0.secret, v0.revealed, guess),
                v0.valid(),
                self.secret_word == old(self).secret_word,
                self.letters@ == v0.secret,
                self.guesses@ == v0.misses,
                self.limbs == v0.wrong_count,
                self.public_word@.len() == v0.revealed.len(),
                i <= self.letters@.len(),
                forall|k: int| 0 <= k < i ==> self.public_word@[k] == shown[k],
                forall|k: int| i <= k < self.letters@.len() ==> self.public_word@[k] == v0.revealed[k],
                num_matches == occurrences(v0.secret.take(i as int), guess),
                num_matches <= i,
            decreases self.letters@.len() - i,
        {
            proof {
                assert(v0.secret.take(i + 1).drop_last() =~= v0.secret.take(i as int));
            }
            if self.letters[i] == guess {
                self.public_word[i] = Some(guess);
                num_matches += 1;
            }
            i += 1;
        }
        proof {
            assert(v0.secret.take(i as int) =~= v0.secret);
            assert(self.public_word@ =~= shown);
        }
        if self.all_found() {
            GuessOutcome::GameWon
        } else if num_matches > 0 {
            GuessOutcome::SuccessfulGuess(num_matches)
        } else {
            proof {
                lemma_no_occurrence(v0.secret, guess);
                assert(self.public_word@ =~= v0.revealed);
            }
            self.limbs += 1;
            self.guesses.push(guess);
            if self.limbs >= MAX_WRONG {
                GuessOutcome::OutOfTurns
            } else {
                GuessOutcome::FailedGuess
            }
        }
    }
    /// The secret word.
    pub fn secret_word(&self) -> (r: &String)
        ensures
            r@ == self.word(),
    {
        &self.secret_word
    }

    /// The wrong guesses so far, in the order they came.
    pub fn guesses(&self) -> (r: &Vec<char>)
        ensures
            r@ == self@.misses,
    {
        &self.guesses
    }

    /// The number of wrong guesses so far.
    pub fn limbs(&self) -> (r: usize)
        ensures
            r == self@.wrong_count,
    {
        self.limbs
    }

    /// The word as the player sees it: found letters in place, `BLANK` where still hidden.
    pub fn public_word(&self) -> (r: Vec<char>)
        ensures
            r@ == self@.revealed.map_values(|o: Option<char>| slot_char(o)),
    {
        let mut out: Vec<char> = Vec::new();
        let mut i: usize = 0;
        while i < self.public_word.len()
            invariant
                i <= self.public_word@.len(),
                out@ == self.public_word@.take(i as int).map_values(|o: Option<char>| slot_char(o)),
            decreases self.public_word@.len() - i,
        {
            let c = match self.public_word[i] {
                Some(c) => c,
                None => BLANK,
            };
            out.push(c);
            i += 1;
            assert(out@ =~= self.public_word@.take(i as int).map_values(
                |o: Option<char>| slot_char(o),
            ));
        }
        assert(self.public_word@.take(i as int) =~= self.public_word@);
        out
    }

    /// Plays one line of input: a line that holds a guess is applied as `register_guess` does;
    /// any other line changes nothing and gives `None`.
    pub fn play_turn(&mut self, line: &str) -> (r: Option<GuessOutcome>)
        requires
            old(self).wf(),
        ensures
            final(self).wf(),
            final(self).word() == old(self).word(),
            match guess_of(line@) {
                Some(g) => r == Some(old(self)@.step(g).1) && final(self)@ == old(self)@.step(g).0,
                None => r is None && final(self)@ == old(self)@,
            },
    {
        match parse_guess(line) {
            Some(g) => Some(self.register_guess(g)),
            None => None,
        }
    }
}

} // verus!
