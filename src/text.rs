use vstd::prelude::*;

verus! {

/// Whether `c` has Unicode's White_Space property.
pub uninterp spec fn white_space(c: char) -> bool;

/// Whether `c` has Unicode's Alphabetic property.
pub uninterp spec fn alphabetic(c: char) -> bool;

/// Relies on char::is_whitespace: true exactly for the characters with the White_Space
/// property.
#[verifier::external_body]
fn is_white(c: char) -> (r: bool)
    ensures
        r == white_space(c),
{
    c.is_whitespace()
}

/// Relies on char::is_alphabetic: true exactly for the characters with the Alphabetic property.
#[verifier::external_body]
fn is_letter(c: char) -> (r: bool)
    ensures
        r == alphabetic(c),
{
    c.is_alphabetic()
}

/// Relies on str::chars, collected: the characters of `s` in order.
#[verifier::external_body]
fn chars_of(s: &str) -> (r: Vec<char>)
    ensures
        r@ == s@,
{
    s.chars().collect()
}

/// Relies on collecting chars into a String: the string of exactly those characters.
#[verifier::external_body]
fn string_of(chars: &Vec<char>) -> (r: String)
    ensures
        r@ == chars@,
{
    chars.iter().collect()
}

/// The letters of `s` with one space between each two.
pub open spec fn spaced(s: Seq<char>) -> Seq<char>
    decreases s.len(),
{
    if s.len() <= 1 {
        s
    } else {
        spaced(s.drop_last()) + seq![' ', s.last()]
    }
}

/// Writes the letters of `vec` with one space between each two.
pub fn vec_to_string(vec: &Vec<char>) -> (r: String)
    ensures
        r@ == spaced(vec@),
{
    let mut out: Vec<char> = Vec::new();
    let mut i: usize = 0;
    while i < vec.len()
        invariant
            i <= vec@.len(),
            out@ == spaced(vec@.take(i as int)),
        decreases vec@.len() - i,
    {
        proof {
            assert(vec@.take(i + 1).drop_last() =~= vec@.take(i as int));
        }
        if i > 0 {
            out.push(' ');
        }
        out.push(vec[i]);
        i += 1;
        proof {
            if i == 1 {
                assert(out@ =~= vec@.take(1));
            } else {
                assert(out@ =~= spaced(vec@.take(i as int)));
            }
        }
    }
    assert(vec@.take(i as int) =~= vec@);
    string_of(&out)
}

/// `s` without the white space at its start.
pub open spec fn trim_start(s: Seq<char>) -> Seq<char>
    decreases s.len(),
{
    if s.len() > 0 && white_space(s[0]) {
        trim_start(s.drop_first())
    } else {
        s
    }
}

/// `s` without the white space at its end.
pub open spec fn trim_end(s: Seq<char>) -> Seq<char>
    decreases s.len(),
{
    if s.len() > 0 && white_space(s.last()) {
        trim_end(s.drop_last())
    } else {
        s
    }
}

/// The guess that an input line stands for: the line without white space at either end must
/// be one alphabetic character.
pub open spec fn guess_of(line: Seq<char>) -> Option<char> {
    let t = trim_end(trim_start(line));
    if t.len() == 1 && alphabetic(t[0]) {
        Some(t[0])
    } else {
        None
    }
}

/// Reads a guess from an input line: one alphabetic character, with any white space around it.
pub fn parse_guess(line: &str) -> (r: Option<char>)
    ensures
        r == guess_of(line@),
{
    let chars = chars_of(line);
    let mut start: usize = 0;
    assert(chars@.skip(0) =~= chars@);
    while start < chars.len() && is_white(chars[start])
        invariant
            start <= chars@.len(),
            trim_start(chars@) == trim_start(chars@.skip(start as int)),
        decreases chars@.len() - start,
    {
        proof {
            assert(chars@.skip(start as int).drop_first() =~= chars@.skip(start + 1));
        }
        start += 1;
    }
    assert(trim_start(chars@) == chars@.skip(start as int));
    let mut end: usize = chars.len();
    while end > start && is_white(chars[end - 1])
        invariant
            start <= end <= chars@.len(),
            trim_end(chars@.skip(start as int)) == trim_end(chars@.subrange(start as int, end as int)),
        decreases end,
    {
        proof {
            assert(chars@.subrange(start as int, end as int).drop_last() =~= chars@.subrange(
                start as int,
                end - 1,
            ));
        }
        end -= 1;
    }
    proof {
        assert(chars@.skip(start as int) =~= chars@.subrange(start as int, chars@.len() as int));
    }
    let ghost t = chars@.subrange(start as int, end as int);
    assert(trim_end(t) == t);
    if end - start == 1 && is_letter(chars[start]) {
        assert(t[0] == chars@[start as int]);
        Some(chars[start])
    } else {
        None
    }
}

/// The length of the run of characters at the start of `s` that are not white space.
pub open spec fn word_len(s: Seq<char>) -> nat
    decreases s.len(),
{
    if s.len() == 0 || white_space(s[0]) {
        0
    } else {
        1 + word_len(s.drop_first())
    }
}

proof fn lemma_word_len_bound(s: Seq<char>)
    ensures
        word_len(s) <= s.len(),
    decreases s.len(),
{
    if s.len() > 0 && !white_space(s[0]) {
        lemma_word_len_bound(s.drop_first());
    }
}

#[via_fn]
proof fn words_of_decreases(s: Seq<char>) {
    lemma_word_len_bound(s);
}

/// The words of `s`: its maximal runs of characters that are not white space, in order.
pub open spec fn words_of(s: Seq<char>) -> Seq<Seq<char>>
    decreases s.len() via words_of_decreases
{
    if s.len() == 0 {
        Seq::empty()
    } else if white_space(s[0]) {
        words_of(s.drop_first())
    } else {
        seq![s.take(word_len(s) as int)] + words_of(s.skip(word_len(s) as int))
    }
}

/// Splits `text` into its words: the maximal runs of characters that are not white space.
pub fn split_words(text: &str) -> (r: Vec<String>)
    ensures
        r@.map_values(|w: String| w@) == words_of(text@),
{
    let chars = chars_of(text);
    let ghost s = chars@;
    let mut out: Vec<String> = Vec::new();
    let mut i: usize = 0;
    assert(s.skip(0) =~= s);
    while i < chars.len()
        invariant
            s == chars@,
            i <= s.len(),
            words_of(s) == out@.map_values(|w: String| w@) + words_of(s.skip(i as int)),
        decreases s.len() - i,
    {
        if is_white(chars[i]) {
            assert(s.skip(i as int).drop_first() =~= s.skip(i + 1));
            i += 1;
        } else {
            let start = i;
            let mut word: Vec<char> = Vec::new();
            while i < chars.len() && !is_white(chars[i])
                invariant
                    s == chars@,
                    start <= i <= s.len(),
                    word@ == s.subrange(start as int, i as int),
                    word_len(s.skip(start as int)) == (i - start) + word_len(s.skip(i as int)),
                decreases s.len() - i,
            {
                assert(s.skip(i as int).drop_first() =~= s.skip(i + 1));
                word.push(chars[i]);
                i += 1;
                assert(word@ =~= s.subrange(start as int, i as int));
            }
            let ghost rest = s.skip(start as int);
            assert(word_len(s.skip(i as int)) == 0);
            assert(rest.take(word_len(rest) as int) =~= word@);
            assert(rest.skip(word_len(rest) as int) =~= s.skip(i as int));
            let w = string_of(&word);
            let ghost before = out@.map_values(|w: String| w@);
            out.push(w);
            assert(out@.map_values(|w: String| w@) =~= before.push(word@));
            assert(words_of(rest) == seq![word@] + words_of(s.skip(i as int)));
            assert(before + words_of(rest) =~= before.push(word@) + words_of(s.skip(i as int)));
        }
    }
    assert(words_of(s.skip(i as int)) =~= Seq::<Seq<char>>::empty());
    assert(out@.map_values(|w: String| w@) + Seq::<Seq<char>>::empty() =~= out@.map_values(
        |w: String| w@,
    ));
    out
}

} // verus!
