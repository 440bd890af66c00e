//! Reading one log line as a transaction record.

use crate::record::{Pkg, PkgType, PkgView};
use crate::text::{
    chars_of, contains, includes, last_piece, last_piece_at, lemma_first_words,
    lemma_word_end_bounds, skip_spaces, skip_word, word_end, word_start, words,
};
use vstd::pervasive::runtime_assert;
use vstd::prelude::*;

verus! {

/// Why a line with a marker could not be read.
#[derive(Debug, Clone, Copy, PartialEq, Eq, Structural)]
pub enum ClassificationError {
    /// The name or the version is missing behind the marker, or the version
    /// does not stand in its parentheses.
    Malformed,
}

/// The text that marks the line of an installation.
pub open spec fn installed_marker() -> Seq<char> {
    " installed "@
}

/// The text that marks the line of an upgrade.
pub open spec fn upgraded_marker() -> Seq<char> {
    " upgraded "@
}

/// The line tells of an installation or of an upgrade.
pub open spec fn has_marker(line: Seq<char>) -> bool {
    contains(line, installed_marker()) || contains(line, upgraded_marker())
}

/// What a line with a marker says. The words behind the last match of the
/// marker are read: the first is the name, the second the version, with an
/// opening parenthesis before it and, for an installation, a closing one
/// behind it. A line with both markers counts as an installation.
pub open spec fn classified(line: Seq<char>) -> Result<PkgView, ClassificationError> {
    if contains(line, installed_marker()) {
        let w: Seq<Seq<char>> = words(last_piece(line, installed_marker()));
        if w.len() >= 2 && w[1].len() >= 2 && w[1].first() == '(' && w[1].last() == ')' {
            Ok(
                PkgView {
                    name: w[0],
                    version: w[1].subrange(1, w[1].len() - 1),
                    p_type: PkgType::Installed,
                },
            )
        } else {
            Err(ClassificationError::Malformed)
        }
    } else {
        let w: Seq<Seq<char>> = words(last_piece(line, upgraded_marker()));
        if w.len() >= 2 && w[1].len() >= 1 && w[1].first() == '(' {
            Ok(
                PkgView {
                    name: w[0],
                    version: w[1].subrange(1, w[1].len() as int),
                    p_type: PkgType::Upgraded,
                },
            )
        } else {
            Err(ClassificationError::Malformed)
        }
    }
}

/// The result of a classification with the record's texts as sequences.
pub open spec fn classification_view(res: Result<Pkg, ClassificationError>) -> Result<
    PkgView,
    ClassificationError,
> {
    match res {
        Ok(p) => Ok(p@),
        Err(e) => Err(e),
    }
}

/// A record that a line yields is well formed.
pub proof fn lemma_classified_wf(line: Seq<char>)
    ensures
        classified(line) matches Ok(p) ==> p.wf(),
{
    let tail: Seq<char> = if contains(line, installed_marker()) {
        last_piece(line, installed_marker())
    } else {
        last_piece(line, upgraded_marker())
    };
    lemma_first_words(tail);
    let a0: int = word_start(tail, 0);
    if a0 < tail.len() {
        let b0: int = word_end(tail, a0);
        lemma_word_end_bounds(tail, a0);
        let a1: int = word_start(tail, b0);
        if a1 < tail.len() {
            lemma_word_end_bounds(tail, a1);
        }
    }
}

/// Tells whether the line tells of an installation or of an upgrade.
pub fn is_marked(line: &str) -> (res: bool)
    ensures
        res == has_marker(line@),
{
    let chars: Vec<char> = chars_of(line);
    includes(&chars, &chars_of(" installed ")) || includes(&chars, &chars_of(" upgraded "))
}

/// Reads a log line that holds a marker as a transaction record.
///
/// A line without a marker is not for this function: it is the caller's
/// part to pass lines that the filter has accepted. Unverified code that
/// passes another line gets a panic.
pub fn convert(line: &str) -> (res: Result<Pkg, ClassificationError>)
    requires
        has_marker(line@),
    ensures
        classification_view(res) == classified(line@),
        res matches Ok(p) ==> p@.wf(),
{
    let chars: Vec<char> = chars_of(line);
    let installed: Vec<char> = chars_of(" installed ");
    let upgraded: Vec<char> = chars_of(" upgraded ");
    let is_installed: bool = includes(&chars, &installed);
    if !is_installed {
        runtime_assert(includes(&chars, &upgraded));
    }
    let marker: Vec<char> = if is_installed {
        installed
    } else {
        upgraded
    };
    proof {
        reveal_strlit(" installed ");
        reveal_strlit(" upgraded ");
        lemma_classified_wf(line@);
    }
    let start: usize = last_piece_at(&chars, &marker);
    let rest: &str = line.substring_char(start, chars.len());
    let tail: Vec<char> = chars_of(rest);
    proof {
        lemma_first_words(tail@);
    }
    let a0: usize = skip_spaces(&tail, 0);
    if a0 >= tail.len() {
        return Err(ClassificationError::Malformed);
    }
    let b0: usize = skip_word(&tail, a0);
    let a1: usize = skip_spaces(&tail, b0);
    if a1 >= tail.len() {
        return Err(ClassificationError::Malformed);
    }
    let b1: usize = skip_word(&tail, a1);
    if tail[a1] != '(' {
        return Err(ClassificationError::Malformed);
    }
    if is_installed {
        if b1 - a1 < 2 || tail[b1 - 1] != ')' {
            return Err(ClassificationError::Malformed);
        }
        let name: String = rest.substring_char(a0, b0).to_owned();
        let version: String = rest.substring_char(a1 + 1, b1 - 1).to_owned();
        proof {
            assert(version@ =~= tail@.subrange(a1 as int, b1 as int).subrange(1, b1 - a1 - 1));
        }
        Ok(Pkg { name, version, p_type: PkgType::Installed })
    } else {
        let name: String = rest.substring_char(a0, b0).to_owned();
        let version: String = rest.substring_char(a1 + 1, b1).to_owned();
        proof {
            assert(version@ =~= tail@.subrange(a1 as int, b1 as int).subrange(1, b1 - a1));
        }
        Ok(Pkg { name, version, p_type: PkgType::Upgraded })
    }
}

} // verus!
