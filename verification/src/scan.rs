//! Reading the log: every line in scope becomes a record, in the order of
//! the log.

use crate::classify::{classified, convert};
use crate::filter::{Filter, FilterView};
use crate::record::{views, Pkg, PkgView};
use vstd::prelude::*;

verus! {

/// Why the log yielded no records.
#[derive(Debug, Clone, Copy, PartialEq, Eq, Structural)]
pub enum ScanError {
    /// The log could not be opened.
    SourceUnavailable,
    /// The line at this index, counted from 0, was in scope and could not be
    /// read.
    Malformed(usize),
}

/// The filter accepts the line. A line that did not decode as text is never
/// in scope.
pub open spec fn in_scope(line: Option<Seq<char>>, filter: FilterView) -> bool {
    match line {
        Some(text) => filter.accepts(text),
        None => false,
    }
}

/// The line is in scope and cannot be read.
pub open spec fn offending(line: Option<Seq<char>>, filter: FilterView) -> bool {
    in_scope(line, filter) && classified(line->0) is Err
}

/// The record that a line in scope yields.
pub open spec fn record_in(line: Option<Seq<char>>, filter: FilterView) -> Option<PkgView> {
    if in_scope(line, filter) {
        match classified(line->0) {
            Ok(record) => Some(record),
            Err(_) => None,
        }
    } else {
        None
    }
}

/// The records of the lines in scope, in the order of the lines.
pub open spec fn records_of(lines: Seq<Option<Seq<char>>>, filter: FilterView) -> Seq<PkgView> {
    lines.filter_map(|line: Option<Seq<char>>| record_in(line, filter))
}

/// `at` is the index of the first line that is in scope and cannot be read.
pub open spec fn is_first_offending(
    lines: Seq<Option<Seq<char>>>,
    filter: FilterView,
    at: int,
) -> bool {
    &&& 0 <= at < lines.len()
    &&& offending(lines[at], filter)
    &&& forall|j: int| 0 <= j < at ==> !offending(#[trigger] lines[j], filter)
}

/// Reads the records of a log. `log` holds the lines of the log in their
/// order, `None` for a line that did not decode as text; `log` itself is
/// `None` where the log could not be opened.
///
/// Lines that did not decode and lines out of scope are passed over. The
/// first line in scope that cannot be read ends the scan.
pub fn execute(log: &Option<Vec<Option<String>>>, filter: &Filter) -> (res: Result<
    Vec<Pkg>,
    ScanError,
>)
    ensures
        match res {
            Ok(records) => {
                &&& log matches Some(lines)
                &&& forall|j: int|
                    0 <= j < lines.len() ==> !offending(
                        #[trigger] lines.deep_view()[j],
                        filter@,
                    )
                &&& views(records@) == records_of(lines.deep_view(), filter@)
                &&& forall|k: int| 0 <= k < records.len() ==> (#[trigger] records[k])@.wf()
            },
            Err(ScanError::SourceUnavailable) => log is None,
            Err(ScanError::Malformed(at)) => {
                &&& log matches Some(lines)
                &&& is_first_offending(lines.deep_view(), filter@, at as int)
            },
        },
{
    let lines: &Vec<Option<String>> = match log {
        Some(lines) => lines,
        None => {
            return Err(ScanError::SourceUnavailable);
        },
    };
    let ghost texts: Seq<Option<Seq<char>>> = lines.deep_view();
    let mut records: Vec<Pkg> = Vec::new();
    let mut i: usize = 0;
    assert(texts.take(0) =~= Seq::empty());
    while i < lines.len()
        invariant
            i <= lines.len(),
            *log == Some(*lines),
            texts == lines.deep_view(),
            forall|j: int| 0 <= j < i ==> !offending(#[trigger] texts[j], filter@),
            views(records@) == records_of(texts.take(i as int), filter@),
            forall|k: int| 0 <= k < records.len() ==> (#[trigger] records[k])@.wf(),
        decreases lines.len() - i,
    {
        let ghost before: Seq<Pkg> = records@;
        proof {
            assert(texts.take(i + 1).drop_last() =~= texts.take(i as int));
            assert(texts.take(i + 1).last() == texts[i as int]);
        }
        match &lines[i] {
            Some(text) => {
                assert(texts[i as int] == Some(text@));
                if filter.matches(text.as_str()) {
                    match convert(text.as_str()) {
                        Ok(record) => {
                            records.push(record);
                            assert(views(records@) =~= views(before) + seq![record@]);
                        },
                        Err(_) => {
                            return Err(ScanError::Malformed(i));
                        },
                    }
                }
            },
            None => {
                assert(texts[i as int] is None);
            },
        }
        i += 1;
    }
    assert(texts.take(lines.len() as int) =~= texts);
    Ok(records)
}

} // verus!
