//! Plain text as sequences of characters: searching for a literal, cutting at
//! its matches, and splitting into words at white space.

use vstd::prelude::*;

verus! {

/// The characters that carry Unicode's `White_Space` property.
pub open spec fn is_space(c: char) -> bool {
    ||| '\u{9}' <= c <= '\u{d}'
    ||| c == ' '
    ||| c == '\u{85}'
    ||| c == '\u{a0}'
    ||| c == '\u{1680}'
    ||| '\u{2000}' <= c <= '\u{200a}'
    ||| c == '\u{2028}'
    ||| c == '\u{2029}'
    ||| c == '\u{202f}'
    ||| c == '\u{205f}'
    ||| c == '\u{3000}'
}

/// No character of `s` is white space.
pub open spec fn spaceless(s: Seq<char>) -> bool {
    forall|i: int| 0 <= i < s.len() ==> !is_space(#[trigger] s[i])
}

/// `pat` stands in `s` at index `at`.
pub open spec fn occurs_at(s: Seq<char>, pat: Seq<char>, at: int) -> bool {
    &&& 0 <= at
    &&& at + pat.len() <= s.len()
    &&& s.subrange(at, at + pat.len()) == pat
}

/// `pat` stands somewhere in `s`.
pub open spec fn contains(s: Seq<char>, pat: Seq<char>) -> bool {
    exists|at: int| occurs_at(s, pat, at)
}

/// `s` begins with `pat`.
pub open spec fn starts_with(s: Seq<char>, pat: Seq<char>) -> bool {
    occurs_at(s, pat, 0)
}

/// `s` ends with `pat`.
pub open spec fn ends_with(s: Seq<char>, pat: Seq<char>) -> bool {
    occurs_at(s, pat, s.len() - pat.len())
}

/// `at` is the leftmost place at or after `from` where `pat` stands in `s`.
pub open spec fn is_first_from(s: Seq<char>, pat: Seq<char>, from: int, at: int) -> bool {
    &&& from <= at
    &&& occurs_at(s, pat, at)
    &&& forall|j: int| from <= j < at ==> !occurs_at(s, pat, j)
}

/// `pat` stands nowhere in `s` at or after `from`.
pub open spec fn absent_from(s: Seq<char>, pat: Seq<char>, from: int) -> bool {
    forall|j: int| from <= j ==> !occurs_at(s, pat, j)
}

/// Where the last piece begins when `s` is cut at the matches of a non-empty
/// `pat`. Matches are taken from the left, starting at `from`, and each is
/// looked for behind the end of the one before, so that no two overlap.
pub open spec fn last_piece_start(s: Seq<char>, pat: Seq<char>, from: int) -> int
    decreases s.len() - from,
{
    if pat.len() > 0 && exists|at: int| is_first_from(s, pat, from, at) {
        let at: int = choose|at: int| is_first_from(s, pat, from, at);
        last_piece_start(s, pat, at + pat.len())
    } else {
        from
    }
}

/// What follows the last match when `s` is cut at the matches of `pat`; all
/// of `s` when there is no match.
pub open spec fn last_piece(s: Seq<char>, pat: Seq<char>) -> Seq<char> {
    s.subrange(last_piece_start(s, pat, 0), s.len() as int)
}

/// The first index at or after `from` that holds no white space, or the
/// length of `s` when white space is all that is left.
pub open spec fn word_start(s: Seq<char>, from: int) -> int
    decreases s.len() - from,
{
    if 0 <= from < s.len() && is_space(s[from]) {
        word_start(s, from + 1)
    } else {
        from
    }
}

/// The first index at or after `from` that holds white space, or the length
/// of `s` when no white space is left.
pub open spec fn word_end(s: Seq<char>, from: int) -> int
    decreases s.len() - from,
{
    if 0 <= from < s.len() && !is_space(s[from]) {
        word_end(s, from + 1)
    } else {
        from
    }
}

/// The words of `s` from index `from` on: its longest stretches without
/// white space, in order.
pub open spec fn words_from(s: Seq<char>, from: int) -> Seq<Seq<char>>
    decreases s.len() - from,
{
    let a: int = word_start(s, from);
    let b: int = word_end(s, a);
    if 0 <= from && a < s.len() {
        proof {
            lemma_word_start_bounds(s, from);
            lemma_word_end_bounds(s, a);
        }
        seq![s.subrange(a, b)] + words_from(s, b)
    } else {
        Seq::empty()
    }
}

/// The words of `s`.
pub open spec fn words(s: Seq<char>) -> Seq<Seq<char>> {
    words_from(s, 0)
}

/// `word_start` moves forward over white space only, and stops at a
/// character that is none or at the end.
pub proof fn lemma_word_start_bounds(s: Seq<char>, from: int)
    requires
        0 <= from <= s.len(),
    ensures
        from <= word_start(s, from) <= s.len(),
        word_start(s, from) < s.len() ==> !is_space(s[word_start(s, from)]),
        forall|j: int| from <= j < word_start(s, from) ==> is_space(#[trigger] s[j]),
    decreases s.len() - from,
{
    if from < s.len() && is_space(s[from]) {
        lemma_word_start_bounds(s, from + 1);
    }
}

/// `word_end` moves forward over a word only, and stops at white space or at
/// the end.
pub proof fn lemma_word_end_bounds(s: Seq<char>, from: int)
    requires
        0 <= from <= s.len(),
    ensures
        from <= word_end(s, from) <= s.len(),
        from < s.len() && !is_space(s[from]) ==> from < word_end(s, from),
        word_end(s, from) < s.len() ==> is_space(s[word_end(s, from)]),
        forall|j: int| from <= j < word_end(s, from) ==> !is_space(#[trigger] s[j]),
    decreases s.len() - from,
{
    if from < s.len() && !is_space(s[from]) {
        lemma_word_end_bounds(s, from + 1);
    }
}

/// The first two words of `s` are what stands between the first two pairs
/// of word bounds; `s` has fewer words where a bound reaches its end.
pub proof fn lemma_first_words(s: Seq<char>)
    ensures
        ({
            let a0: int = word_start(s, 0);
            let b0: int = word_end(s, a0);
            let a1: int = word_start(s, b0);
            let b1: int = word_end(s, a1);
            &&& 0 <= a0 <= s.len()
            &&& a0 >= s.len() ==> words(s).len() == 0
            &&& a0 < s.len() ==> {
                &&& a0 < b0 <= a1 <= s.len()
                &&& words(s).len() >= 1
                &&& words(s)[0] == s.subrange(a0, b0)
                &&& a1 >= s.len() ==> words(s).len() == 1
                &&& a1 < s.len() ==> {
                    &&& a1 < b1 <= s.len()
                    &&& words(s).len() >= 2
                    &&& words(s)[1] == s.subrange(a1, b1)
                }
            }
        }),
{
    let a0: int = word_start(s, 0);
    lemma_word_start_bounds(s, 0);
    if a0 < s.len() {
        let b0: int = word_end(s, a0);
        lemma_word_end_bounds(s, a0);
        let a1: int = word_start(s, b0);
        lemma_word_start_bounds(s, b0);
        assert(words(s) == seq![s.subrange(a0, b0)] + words_from(s, b0));
        if a1 < s.len() {
            let b1: int = word_end(s, a1);
            lemma_word_end_bounds(s, a1);
            assert(words_from(s, b0) == seq![s.subrange(a1, b1)] + words_from(s, b1));
        } else {
            assert(words_from(s, b0) == Seq::<Seq<char>>::empty());
        }
    } else {
        assert(words(s) == Seq::<Seq<char>>::empty());
    }
}

/// Tells whether `c` is white space.
pub fn is_whitespace(c: char) -> (res: bool)
    ensures
        res == is_space(c),
{
    ('\u{9}' <= c && c <= '\u{d}') || c == ' ' || c == '\u{85}' || c == '\u{a0}' || c
        == '\u{1680}' || ('\u{2000}' <= c && c <= '\u{200a}') || c == '\u{2028}' || c
        == '\u{2029}' || c == '\u{202f}' || c == '\u{205f}' || c == '\u{3000}'
}

/// Copies the characters of `s` into a vector.
pub fn chars_of(s: &str) -> (res: Vec<char>)
    ensures
        res@ == s@,
{
    let mut out: Vec<char> = Vec::new();
    for c in it: s.chars()
        invariant
            out@ == it.seq().take(it.index()),
    {
        out.push(c);
    }
    out
}

/// Tells whether `pat` stands in `s` at index `at`.
pub fn matches_at(s: &Vec<char>, pat: &Vec<char>, at: usize) -> (res: bool)
    ensures
        res == occurs_at(s@, pat@, at as int),
{
    if pat.len() > s.len() || at > s.len() - pat.len() {
        return false;
    }
    let mut k: usize = 0;
    while k < pat.len()
        invariant
            k <= pat.len(),
            at + pat.len() <= s.len(),
            forall|j: int| 0 <= j < k ==> s@[at + j] == pat@[j],
        decreases pat.len() - k,
    {
        if s[at + k] != pat[k] {
            assert(s@.subrange(at as int, at + pat.len())[k as int] == s@[at + k]);
            return false;
        }
        k += 1;
    }
    assert(s@.subrange(at as int, at + pat.len()) =~= pat@);
    true
}

/// Looks for the leftmost place at or after `from` where `pat` stands in `s`.
pub fn find(s: &Vec<char>, pat: &Vec<char>, from: usize) -> (res: Option<usize>)
    ensures
        match res {
            Some(at) => is_first_from(s@, pat@, from as int, at as int),
            None => absent_from(s@, pat@, from as int),
        },
{
    if pat.len() > s.len() || from > s.len() - pat.len() {
        return None;
    }
    let last: usize = s.len() - pat.len();
    let mut at: usize = from;
    while at < last
        invariant
            from <= at <= last,
            last == s.len() - pat.len(),
            forall|j: int| from <= j < at ==> !occurs_at(s@, pat@, j),
        decreases last - at,
    {
        if matches_at(s, pat, at) {
            return Some(at);
        }
        at += 1;
    }
    if matches_at(s, pat, last) {
        Some(last)
    } else {
        None
    }
}

/// Tells whether `pat` stands somewhere in `s`.
pub fn includes(s: &Vec<char>, pat: &Vec<char>) -> (res: bool)
    ensures
        res == contains(s@, pat@),
{
    find(s, pat, 0).is_some()
}

/// Tells whether `s` ends with `pat`.
pub fn has_suffix(s: &Vec<char>, pat: &Vec<char>) -> (res: bool)
    ensures
        res == ends_with(s@, pat@),
{
    pat.len() <= s.len() && matches_at(s, pat, s.len() - pat.len())
}

/// Two first matches from the same place are the same match.
pub proof fn lemma_first_is_unique(s: Seq<char>, pat: Seq<char>, from: int, a: int, b: int)
    requires
        is_first_from(s, pat, from, a),
        is_first_from(s, pat, from, b),
    ensures
        a == b,
{
}

/// Where `pat` stands at `at`, at or after `from`, there is a leftmost match
/// from `from`, and it is no further right than `at`.
pub proof fn lemma_first_exists(s: Seq<char>, pat: Seq<char>, from: int, at: int) -> (first: int)
    requires
        from <= at,
        occurs_at(s, pat, at),
    ensures
        is_first_from(s, pat, from, first),
        first <= at,
    decreases at - from,
{
    if occurs_at(s, pat, from) {
        from
    } else {
        lemma_first_exists(s, pat, from + 1, at)
    }
}

/// Where `pat` stands at `at`, no match further left reaches over `at`, and
/// none begins behind the end of that match, every cut that starts at or
/// before `at` leaves what follows that match as the last piece.
pub proof fn lemma_last_piece_behind(s: Seq<char>, pat: Seq<char>, at: int, from: int)
    requires
        pat.len() > 0,
        0 <= from <= at,
        occurs_at(s, pat, at),
        forall|j: int| 0 <= j < at && occurs_at(s, pat, j) ==> j + pat.len() <= at,
        absent_from(s, pat, at + pat.len()),
    ensures
        last_piece_start(s, pat, from) == at + pat.len(),
    decreases at - from,
{
    let first: int = lemma_first_exists(s, pat, from, at);
    let chosen: int = choose|i: int| is_first_from(s, pat, from, i);
    lemma_first_is_unique(s, pat, from, first, chosen);
    assert(last_piece_start(s, pat, from) == last_piece_start(s, pat, first + pat.len()));
    if first == at {
        let behind: int = at + pat.len();
        assert(forall|i: int| !is_first_from(s, pat, behind, i));
        assert(last_piece_start(s, pat, behind) == behind);
    } else {
        lemma_last_piece_behind(s, pat, at, first + pat.len());
    }
}

/// A text made of a head, `pat` and a rest holds `pat`; and the rest is its
/// last piece where the rest does not hold `pat` and the head ends with a
/// character that `pat` does not have.
pub proof fn lemma_last_piece_of_marked(head: Seq<char>, pat: Seq<char>, rest: Seq<char>)
    requires
        pat.len() > 0,
        head.len() > 0,
        forall|k: int| 0 <= k < pat.len() ==> pat[k] != head.last(),
        !contains(rest, pat),
    ensures
        contains(head + pat + rest, pat),
        last_piece(head + pat + rest, pat) == rest,
{
    let s: Seq<char> = head + pat + rest;
    let at: int = head.len() as int;
    assert(s.subrange(at, at + pat.len()) =~= pat);
    assert(occurs_at(s, pat, at));
    assert forall|j: int| 0 <= j < at && occurs_at(s, pat, j) implies j + pat.len() <= at by {
        if j + pat.len() > at {
            assert(s.subrange(j, j + pat.len())[at - 1 - j] == s[at - 1]);
            assert(s[at - 1] == head.last());
        }
    }
    assert forall|j: int| at + pat.len() <= j implies !occurs_at(s, pat, j) by {
        if occurs_at(s, pat, j) {
            let k: int = j - at - pat.len();
            assert(rest.subrange(k, k + pat.len()) =~= s.subrange(j, j + pat.len()));
            assert(occurs_at(rest, pat, k));
        }
    }
    lemma_last_piece_behind(s, pat, at, 0);
    assert(s.subrange(at + pat.len(), s.len() as int) =~= rest);
}

/// Finds where the last piece of `s` begins when `s` is cut at the matches of
/// `pat`.
pub fn last_piece_at(s: &Vec<char>, pat: &Vec<char>) -> (res: usize)
    ensures
        res == last_piece_start(s@, pat@, 0),
        res <= s@.len(),
{
    if pat.len() == 0 {
        return 0;
    }
    let mut from: usize = 0;
    assert(s@.len() == s.len());
    loop
        invariant
            pat@.len() > 0,
            from <= s@.len() <= usize::MAX,
            last_piece_start(s@, pat@, from as int) == last_piece_start(s@, pat@, 0),
        ensures
            from <= s@.len(),
            from == last_piece_start(s@, pat@, 0),
        decreases s@.len() - from,
    {
        match find(s, pat, from) {
            Some(at) => {
                proof {
                    let chosen: int = choose|i: int| is_first_from(s@, pat@, from as int, i);
                    lemma_first_is_unique(s@, pat@, from as int, at as int, chosen);
                }
                from = at + pat.len();
            },
            None => {
                break ;
            },
        }
    }
    from
}

/// Finds the first index at or after `from` that holds no white space.
pub fn skip_spaces(s: &Vec<char>, from: usize) -> (res: usize)
    ensures
        res == word_start(s@, from as int),
        from <= res,
        res <= s@.len() || res == from,
{
    let mut i: usize = from;
    while i < s.len() && is_whitespace(s[i])
        invariant
            from <= i,
            i <= s@.len() || i == from,
            word_start(s@, i as int) == word_start(s@, from as int),
        decreases s@.len() - i,
    {
        i += 1;
    }
    i
}

/// Finds the first index at or after `from` that holds white space.
pub fn skip_word(s: &Vec<char>, from: usize) -> (res: usize)
    ensures
        res == word_end(s@, from as int),
        from <= res,
        res <= s@.len() || res == from,
{
    let mut i: usize = from;
    while i < s.len() && !is_whitespace(s[i])
        invariant
            from <= i,
            i <= s@.len() || i == from,
            word_end(s@, i as int) == word_end(s@, from as int),
        decreases s@.len() - i,
    {
        i += 1;
    }
    i
}

} // verus!
