//! Which lines of the log are looked at.

use crate::classify::{has_marker, is_marked};
use crate::text::{chars_of, contains, includes, matches_at, starts_with};
use vstd::prelude::*;

verus! {

/// Selects the lines of one day, or of every day whose date begins alike,
/// and among them, if a key word is given, those that hold it.
#[derive(Debug)]
pub struct Filter<'a> {
    date: &'a str,
    key_word: Option<&'a str>,
}

/// A filter with its texts as sequences of characters.
pub struct FilterView {
    pub date: Seq<char>,
    pub key_word: Option<Seq<char>>,
}

impl FilterView {
    /// The line begins with an opening bracket and the date, tells of an
    /// installation or an upgrade, and holds the key word if there is one.
    pub open spec fn accepts(self, line: Seq<char>) -> bool {
        &&& starts_with(line, seq!['['] + self.date)
        &&& has_marker(line)
        &&& match self.key_word {
            Some(key) => contains(line, key),
            None => true,
        }
    }
}

impl<'a> View for Filter<'a> {
    type V = FilterView;

    closed spec fn view(&self) -> FilterView {
        FilterView {
            date: self.date@,
            key_word: match self.key_word {
                Some(key) => Some(key@),
                None => None,
            },
        }
    }
}

impl<'a> Filter<'a> {
    /// A filter by date alone.
    pub fn new(date: &'a str) -> (res: Filter<'a>)
        ensures
            res@ == (FilterView { date: date@, key_word: None }),
    {
        Filter { date, key_word: None }
    }

    /// A filter by date and key word.
    pub fn new2(date: &'a str, key: &'a str) -> (res: Filter<'a>)
        ensures
            res@ == (FilterView { date: date@, key_word: Some(key@) }),
    {
        Filter { date, key_word: Some(key) }
    }

    /// Tells whether the filter accepts `line`.
    pub fn matches(&self, line: &str) -> (res: bool)
        ensures
            res == self@.accepts(line@),
    {
        let chars: Vec<char> = chars_of(line);
        let date: Vec<char> = chars_of(self.date);
        let mut start: Vec<char> = Vec::new();
        start.push('[');
        let mut i: usize = 0;
        while i < date.len()
            invariant
                i <= date.len(),
                start@ == seq!['['] + date@.take(i as int),
            decreases date.len() - i,
        {
            start.push(date[i]);
            assert(date@.take(i + 1) == date@.take(i as int).push(date@[i as int]));
            i += 1;
        }
        assert(date@.take(date.len() as int) == date@);
        if !matches_at(&chars, &start, 0) {
            return false;
        }
        if !is_marked(line) {
            return false;
        }
        match self.key_word {
            Some(key) => includes(&chars, &chars_of(key)),
            None => true,
        }
    }
}

/// Whether a line is accepted rests on the texts of the filter and of the
/// line alone: the same texts get the same answer, however often they are
/// asked.
pub proof fn law_matches_is_pure(a: Filter, b: Filter, x: &str, y: &str)
    requires
        a@ == b@,
        x@ == y@,
    ensures
        a@.accepts(x@) == b@.accepts(y@),
{
}

} // verus!
