use vstd::prelude::*;

use crate::game::{all_shown, fully_shown, uncover, GameView, GuessOutcome, MAX_WRONG};

verus! {

/// The state reached from `v` by guessing the letters of `gs` in order.
pub open spec fn play(v: GameView, gs: Seq<char>) -> GameView
    decreases gs.len(),
{
    if gs.len() == 0 {
        v
    } else {
        play(v, gs.drop_last()).step(gs.last()).0
    }
}

/// What the guess at position `i` of `gs` yields, playing from `v`.
pub open spec fn outcome_at(v: GameView, gs: Seq<char>, i: int) -> GuessOutcome {
    play(v, gs.take(i)).step(gs[i]).1
}

/// Every letter of `w` occurs among the guesses `gs`.
pub open spec fn covers(gs: Seq<char>, w: Seq<char>) -> bool {
    forall|i: int| 0 <= i < w.len() ==> gs.contains(#[trigger] w[i])
}

/// The outcome ends the game.
pub open spec fn is_terminal(o: GuessOutcome) -> bool {
    o is GameWon || o is OutOfTurns
}

/// `n` guesses of the same letter `c`.
pub open spec fn repeated(c: char, n: nat) -> Seq<char> {
    Seq::new(n, |i: int| c)
}

proof fn lemma_take_next(gs: Seq<char>, j: int)
    requires
        0 <= j < gs.len(),
    ensures
        gs.take(j + 1).drop_last() == gs.take(j),
        gs.take(j + 1).last() == gs[j],
        forall|x: char| #[trigger] gs.take(j + 1).contains(x) <==> gs.take(j).contains(x) || gs[j] == x,
{
    assert(gs.take(j + 1).drop_last() =~= gs.take(j));
    assert forall|x: char| #[trigger] gs.take(j + 1).contains(x) implies gs.take(j).contains(x)
        || gs[j] == x by {
        let k = choose|k: int| 0 <= k < j + 1 && #[trigger] gs.take(j + 1)[k] == x;
        if k < j {
            assert(gs.take(j)[k] == x);
        }
    }
    assert forall|x: char| gs.take(j).contains(x) || gs[j] == x implies #[trigger] gs.take(
        j + 1,
    ).contains(x) by {
        if gs[j] == x {
            assert(gs.take(j + 1)[j] == x);
        } else {
            let k = choose|k: int| 0 <= k < j && #[trigger] gs.take(j)[k] == x;
            assert(gs.take(j + 1)[k] == x);
        }
    }
}

/// A game starts in a valid state.
pub proof fn lemma_initial_valid(w: Seq<char>)
    requires
        w.len() > 0,
    ensures
        GameView::initial(w).valid(),
        !GameView::initial(w).lost(),
{
}

/// Every guess keeps the invariants: the revealed word keeps the secret's length, the wrong
/// count counts the distinct misses, stays within `MAX_WRONG` and never goes down, and no letter
/// once shown is hidden again.
pub proof fn lemma_step_valid(v: GameView, c: char)
    requires
        v.valid(),
    ensures
        v.step(c).0.valid(),
        v.step(c).0.secret == v.secret,
        v.step(c).0.wrong_count <= MAX_WRONG,
        v.step(c).0.wrong_count >= v.wrong_count,
        forall|x: char| v.revealed.contains(Some(x)) ==> #[trigger] v.step(c).0.revealed.contains(Some(x)),
{
    let u = v.step(c).0;
    if !v.finished() && !v.tried(c) {
        crate::game::lemma_no_occurrence(v.secret, c);
        assert forall|k: int| 0 <= k < v.misses.len() implies v.misses[k] != c by {
            if v.misses[k] == c {
                assert(v.misses.contains(c));
            }
        }
        assert forall|x: char| v.revealed.contains(Some(x)) implies #[trigger] u.revealed.contains(Some(x)) by {
            let k = choose|k: int| 0 <= k < v.revealed.len() && v.revealed[k] == Some(x);
            assert(u.revealed[k] == Some(x));
        }
    }
}

/// Once a game has ended, a guess changes nothing and yields `AlreadyFinished`.
pub proof fn lemma_finished_is_final(v: GameView, c: char)
    requires
        v.finished(),
    ensures
        v.step(c) == (v, GuessOutcome::AlreadyFinished),
{
}

/// Playing on from an ended game changes nothing.
proof fn lemma_frozen(v: GameView, gs: Seq<char>)
    requires
        v.finished(),
    ensures
        play(v, gs) == v,
    decreases gs.len(),
{
    if gs.len() > 0 {
        lemma_frozen(v, gs.drop_last());
    }
}

/// Any sequence of guesses keeps the invariants, and a letter once shown stays shown.
pub proof fn lemma_play_valid(v: GameView, gs: Seq<char>)
    requires
        v.valid(),
    ensures
        play(v, gs).valid(),
        play(v, gs).secret == v.secret,
        play(v, gs).wrong_count <= MAX_WRONG,
        forall|x: char| v.revealed.contains(Some(x)) ==> #[trigger] play(v, gs).revealed.contains(Some(x)),
    decreases gs.len(),
{
    if gs.len() > 0 {
        lemma_play_valid(v, gs.drop_last());
        lemma_step_valid(play(v, gs.drop_last()), gs.last());
    }
}

/// The wrong count never exceeds `MAX_WRONG`; the guess that brings it to `MAX_WRONG` yields
/// `OutOfTurns`, and the game has ended from then on: further guesses change nothing.
pub proof fn lemma_out_of_turns(v: GameView, c: char, later: Seq<char>)
    requires
        v.valid(),
    ensures
        v.step(c).0.wrong_count <= MAX_WRONG,
        v.wrong_count < MAX_WRONG && v.step(c).0.wrong_count == MAX_WRONG ==> {
            &&& v.step(c).1 == GuessOutcome::OutOfTurns
            &&& v.step(c).0.lost()
            &&& play(v.step(c).0, later) == v.step(c).0
        },
{
    lemma_step_valid(v, c);
    if v.step(c).0.finished() {
        lemma_frozen(v.step(c).0, later);
    }
}

/// A wrong letter guessed again, after its first wrong attempt, yields `AlreadyGuessed` on
/// every later call while the game goes on, and the wrong count does not grow any more.
pub proof fn lemma_repeated_miss(v: GameView, g: char, n: nat)
    requires
        v.valid(),
        !v.secret.contains(g),
    ensures
        play(v.step(g).0, repeated(g, n)) == v.step(g).0,
        play(v.step(g).0, repeated(g, n)).wrong_count == v.step(g).0.wrong_count,
        forall|i: int|
            0 <= i < n ==> #[trigger] outcome_at(v.step(g).0, repeated(g, n), i) == if v.step(
                g,
            ).0.finished() {
                GuessOutcome::AlreadyFinished
            } else {
                GuessOutcome::AlreadyGuessed(g)
            },
{
    let u = v.step(g).0;
    crate::game::lemma_no_occurrence(v.secret, g);
    if !u.finished() {
        assert(u.misses.contains(g)) by {
            if !v.tried(g) {
                assert(u.misses.last() == g);
            } else if !v.misses.contains(g) {
                let k = choose|k: int| 0 <= k < v.revealed.len() && v.revealed[k] == Some(g);
                assert(v.secret[k] == g);
            }
        }
    }
    lemma_repeat_fixed(u, g, n);
    assert forall|i: int| 0 <= i < n implies #[trigger] outcome_at(u, repeated(g, n), i) == if u.finished() {
        GuessOutcome::AlreadyFinished
    } else {
        GuessOutcome::AlreadyGuessed(g)
    } by {
        assert(repeated(g, n).take(i) =~= repeated(g, i as nat));
        lemma_repeat_fixed(u, g, i as nat);
    }
}

proof fn lemma_repeat_fixed(u: GameView, g: char, n: nat)
    requires
        u.finished() || u.tried(g),
    ensures
        play(u, repeated(g, n)) == u,
    decreases n,
{
    if n > 0 {
        assert(repeated(g, n).drop_last() =~= repeated(g, (n - 1) as nat));
        lemma_repeat_fixed(u, g, (n - 1) as nat);
    }
}

/// A letter that a guess has just found yields `AlreadyGuessed` whenever it is guessed again,
/// after any guesses in between, unless the game has ended by then.
pub proof fn lemma_repeated_hit(v: GameView, c: char, between: Seq<char>)
    requires
        v.valid(),
        v.step(c).1 is SuccessfulGuess,
    ensures
        ({
            let u = play(v.step(c).0, between);
            u.step(c) == (u, if u.finished() {
                GuessOutcome::AlreadyFinished
            } else {
                GuessOutcome::AlreadyGuessed(c)
            })
        }),
{
    let v1 = v.step(c).0;
    crate::game::lemma_no_occurrence(v.secret, c);
    let k = choose|k: int| 0 <= k < v.secret.len() && v.secret[k] == c;
    assert(v1.revealed[k] == Some(c));
    assert(v1.revealed.contains(Some(c)));
    lemma_step_valid(v, c);
    lemma_play_valid(v1, between);
}

/// While the guesses so far miss a letter of the word and the game is not lost, the game goes
/// on, and exactly the positions whose letter was guessed are shown.
proof fn lemma_before_cover(w: Seq<char>, gs: Seq<char>, j: int, k: int)
    requires
        w.len() > 0,
        0 <= j <= k <= gs.len(),
        !covers(gs.take(k), w),
        !play(GameView::initial(w), gs.take(k)).lost(),
    ensures
        ({
            let s = play(GameView::initial(w), gs.take(j));
            &&& s.valid()
            &&& s.secret == w
            &&& !s.finished()
            &&& forall|i: int|
                0 <= i < w.len() ==> #[trigger] s.revealed[i] == if gs.take(j).contains(w[i]) {
                    Some(w[i])
                } else {
                    None
                }
        }),
    decreases j,
{
    let v0 = GameView::initial(w);
    let s = play(v0, gs.take(j));
    lemma_play_valid(v0, gs.take(j));
    if j == 0 {
        assert(gs.take(0) =~= Seq::<char>::empty());
        assert(s == v0);
        assert(s.revealed[0] is None);
    } else {
        lemma_before_cover(w, gs, j - 1, k);
        lemma_take_next(gs, j - 1);
        let p = play(v0, gs.take(j - 1));
        let c = gs[j - 1];
        assert(s == p.step(c).0);
        crate::game::lemma_no_occurrence(w, c);
        assert forall|i: int| 0 <= i < w.len() implies #[trigger] s.revealed[i] == if gs.take(
            j,
        ).contains(w[i]) {
            Some(w[i])
        } else {
            None
        } by {
            if p.tried(c) && w[i] == c && !p.misses.contains(c) {
                let m = choose|m: int| 0 <= m < p.revealed.len() && p.revealed[m] == Some(c);
                assert(p.revealed[m] == Some(w[m]));
            }
            if p.tried(c) && w[i] == c && p.misses.contains(c) {
                let m = choose|m: int| 0 <= m < p.misses.len() && p.misses[m] == c;
                assert(w.contains(p.misses[m]));
            }
        }
        // an ended game would stay as it is up to `k`, where it is neither won nor lost
        if s.finished() {
            let i0 = choose|i: int| 0 <= i < w.len() && !gs.take(k).contains(#[trigger] w[i]);
            if gs.take(j).contains(w[i0]) {
                let m = choose|m: int| 0 <= m < j && gs.take(j)[m] == w[i0];
                assert(gs.take(k)[m] == w[i0]);
            }
            assert(s.revealed[i0] is None);
            assert(!s.won());
            assert(gs.take(k) =~= gs.take(j) + gs.subrange(j, k));
            lemma_play_concat(v0, gs.take(j), gs.subrange(j, k));
            lemma_frozen(s, gs.subrange(j, k));
        }
    }
}

proof fn lemma_play_concat(v: GameView, a: Seq<char>, b: Seq<char>)
    ensures
        play(v, a + b) == play(play(v, a), b),
    decreases b.len(),
{
    if b.len() > 0 {
        assert((a + b).drop_last() =~= a + b.drop_last());
        lemma_play_concat(v, a, b.drop_last());
    }
}

/// Guessing every letter of the word wins the game unless it was lost before: the first guess
/// by which every letter has come up yields `GameWon`, with the whole word shown, and no guess
/// before it ends the game.
pub proof fn lemma_every_letter_wins(w: Seq<char>, gs: Seq<char>, k: int)
    requires
        w.len() > 0,
        0 <= k < gs.len(),
        covers(gs.take(k + 1), w),
        !covers(gs.take(k), w),
        !play(GameView::initial(w), gs.take(k)).lost(),
    ensures
        outcome_at(GameView::initial(w), gs, k) == GuessOutcome::GameWon,
        play(GameView::initial(w), gs.take(k + 1)).revealed == fully_shown(w),
        forall|j: int| 0 <= j < k ==> !is_terminal(#[trigger] outcome_at(GameView::initial(w), gs, j)),
{
    let v0 = GameView::initial(w);
    let s = play(v0, gs.take(k));
    let c = gs[k];
    lemma_before_cover(w, gs, k, k);
    lemma_take_next(gs, k);
    crate::game::lemma_no_occurrence(w, c);
    let i0 = choose|i: int| 0 <= i < w.len() && !gs.take(k).contains(#[trigger] w[i]);
    assert(gs.take(k + 1).contains(w[i0]));
    assert(w[i0] == c);
    assert(!s.misses.contains(c)) by {
        if s.misses.contains(c) {
            let m = choose|m: int| 0 <= m < s.misses.len() && s.misses[m] == c;
            assert(w.contains(s.misses[m]));
        }
    }
    assert(!s.revealed.contains(Some(c))) by {
        if s.revealed.contains(Some(c)) {
            let m = choose|m: int| 0 <= m < s.revealed.len() && s.revealed[m] == Some(c);
            assert(s.revealed[m] == Some(w[m]));
        }
    }
    let shown = uncover(w, s.revealed, c);
    assert(all_shown(shown)) by {
        assert forall|i: int| 0 <= i < shown.len() implies (#[trigger] shown[i]) is Some by {
            assert(gs.take(k + 1).contains(w[i]));
        }
    }
    assert(play(v0, gs.take(k + 1)) == s.step(c).0);
    assert(shown =~= fully_shown(w)) by {
        assert forall|i: int| 0 <= i < w.len() implies #[trigger] shown[i] == Some(w[i]) by {
            assert(gs.take(k + 1).contains(w[i]));
        }
    }
    assert forall|j: int| 0 <= j < k implies !is_terminal(#[trigger] outcome_at(v0, gs, j)) by {
        lemma_before_cover(w, gs, j, k);
        lemma_before_cover(w, gs, j + 1, k);
        lemma_take_next(gs, j);
    }
}

} // verus!
