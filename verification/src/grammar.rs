//! The lines that the package manager writes for an installation and for an
//! upgrade, and what the classifier makes of them.

use crate::classify::{classified, installed_marker, upgraded_marker, ClassificationError};
use crate::record::{PkgType, PkgView};
use crate::text::{
    contains, is_space, last_piece, lemma_first_words, lemma_last_piece_of_marked,
    lemma_word_end_bounds, lemma_word_start_bounds, occurs_at, spaceless, word_end, word_start,
    words,
};
use vstd::prelude::*;

verus! {

/// What every line begins with: the time stamp in brackets, then the tag of
/// the subsystem that wrote the line.
pub open spec fn line_head(stamp: Seq<char>) -> Seq<char> {
    seq!['['] + stamp + "] [ALPM]"@
}

/// What follows the marker of an installation: the name, then the version in
/// parentheses.
pub open spec fn installed_body(name: Seq<char>, version: Seq<char>) -> Seq<char> {
    name + " ("@ + version + ")"@
}

/// What follows the marker of an upgrade: the name, then the version that was
/// replaced, an arrow and the version that came, in parentheses.
pub open spec fn upgraded_body(name: Seq<char>, before: Seq<char>, after: Seq<char>) -> Seq<
    char,
> {
    name + " ("@ + before + " -> "@ + after + ")"@
}

/// The line of an installation.
pub open spec fn installed_line(stamp: Seq<char>, name: Seq<char>, version: Seq<char>) -> Seq<
    char,
> {
    line_head(stamp) + installed_marker() + installed_body(name, version)
}

/// The line of an upgrade.
pub open spec fn upgraded_line(
    stamp: Seq<char>,
    name: Seq<char>,
    before: Seq<char>,
    after: Seq<char>,
) -> Seq<char> {
    line_head(stamp) + upgraded_marker() + upgraded_body(name, before, after)
}

/// Where `pat` stands in `s`, `s` has there the first two characters of
/// `pat`, and the last one at the end of the match.
proof fn lemma_match_ends(s: Seq<char>, pat: Seq<char>, at: int)
    requires
        occurs_at(s, pat, at),
        pat.len() >= 2,
    ensures
        s[at] == pat[0],
        s[at + 1] == pat[1],
        s[at + pat.len() - 1] == pat.last(),
{
    let m: Seq<char> = s.subrange(at, at + pat.len());
    assert(m[0] == s[at]);
    assert(m[1] == s[at + 1]);
    assert(m[pat.len() - 1] == s[at + pat.len() - 1]);
}

/// The body of an installation line holds one blank, behind the name.
proof fn lemma_installed_body_chars(name: Seq<char>, version: Seq<char>)
    requires
        name.len() > 0,
        spaceless(name),
        spaceless(version),
    ensures
        ({
            let body: Seq<char> = installed_body(name, version);
            let n: int = name.len() as int;
            &&& body.len() == n + version.len() + 3
            &&& body.subrange(0, n) == name
            &&& body[n] == ' '
            &&& body[n + 1] == '('
            &&& body.subrange(n + 2, body.len() - 1) == version
            &&& body.last() == ')'
            &&& forall|i: int| 0 <= i < body.len() && i != n ==> !is_space(#[trigger] body[i])
        }),
{
    reveal_strlit(" (");
    reveal_strlit(")");
    let body: Seq<char> = installed_body(name, version);
    let n: int = name.len() as int;
    assert(body.subrange(0, n) =~= name);
    assert(body.subrange(n + 2, body.len() - 1) =~= version);
    assert forall|i: int| 0 <= i < body.len() && i != n implies !is_space(
        #[trigger] body[i],
    ) by {
        if i < n {
            assert(body[i] == name[i]);
        } else if i == n + 1 {
        } else if i < body.len() - 1 {
            assert(body[i] == version[i - n - 2]);
        } else {
        }
    }
}

/// The line of an installation, whatever its time stamp, yields the name and
/// the version that it was written with.
pub proof fn law_installed_line(stamp: Seq<char>, name: Seq<char>, version: Seq<char>)
    requires
        name.len() > 0,
        spaceless(name),
        spaceless(version),
    ensures
        classified(installed_line(stamp, name, version)) == Ok::<PkgView, ClassificationError>(
            PkgView { name, version, p_type: PkgType::Installed },
        ),
{
    reveal_strlit(" installed ");
    reveal_strlit("] [ALPM]");
    let marker: Seq<char> = installed_marker();
    let head: Seq<char> = line_head(stamp);
    let body: Seq<char> = installed_body(name, version);
    let n: int = name.len() as int;
    lemma_installed_body_chars(name, version);
    assert(head.last() == ']');
    assert forall|at: int| !occurs_at(body, marker, at) by {
        if occurs_at(body, marker, at) {
            lemma_match_ends(body, marker, at);
            assert(is_space(body[at]));
            assert(is_space(body[at + 10]));
        }
    }
    lemma_last_piece_of_marked(head, marker, body);
    assert(last_piece(installed_line(stamp, name, version), marker) == body);
    lemma_first_words(body);
    lemma_word_start_bounds(body, 0);
    lemma_word_end_bounds(body, 0);
    assert(word_start(body, 0) == 0);
    assert(word_end(body, 0) == n);
    lemma_word_start_bounds(body, n);
    assert(word_start(body, n) == n + 1);
    lemma_word_end_bounds(body, n + 1);
    assert(word_end(body, n + 1) == body.len());
    assert(words(body)[0] == name);
    let second: Seq<char> = words(body)[1];
    assert(second == body.subrange(n + 1, body.len() as int));
    assert(second.subrange(1, second.len() - 1) =~= version);
}

/// The body of an upgrade line holds three blanks: behind the name, and on
/// both sides of the arrow.
proof fn lemma_upgraded_body_chars(name: Seq<char>, before: Seq<char>, after: Seq<char>)
    requires
        name.len() > 0,
        spaceless(name),
        spaceless(before),
        spaceless(after),
    ensures
        ({
            let body: Seq<char> = upgraded_body(name, before, after);
            let n: int = name.len() as int;
            let o: int = n + 2 + before.len();
            &&& body.len() == o + 5 + after.len()
            &&& body.subrange(0, n) == name
            &&& body[n] == ' '
            &&& body[n + 1] == '('
            &&& body.subrange(n + 2, o) == before
            &&& body[o] == ' '
            &&& body[o + 1] == '-'
            &&& body[o + 3] == ' '
            &&& forall|i: int|
                0 <= i < body.len() && i != n && i != o && i != o + 3 ==> !is_space(
                    #[trigger] body[i],
                )
        }),
{
    reveal_strlit(" (");
    reveal_strlit(" -> ");
    reveal_strlit(")");
    let body: Seq<char> = upgraded_body(name, before, after);
    let n: int = name.len() as int;
    let o: int = n + 2 + before.len();
    assert(body.subrange(0, n) =~= name);
    assert(body.subrange(n + 2, o) =~= before);
    assert forall|i: int|
        0 <= i < body.len() && i != n && i != o && i != o + 3 implies !is_space(
        #[trigger] body[i],
    ) by {
        if i < n {
            assert(body[i] == name[i]);
        } else if i == n + 1 {
        } else if i < o {
            assert(body[i] == before[i - n - 2]);
        } else if i < o + 4 {
        } else if i < body.len() - 1 {
            assert(body[i] == after[i - o - 4]);
        } else {
        }
    }
}

/// The line of an upgrade does not hold the marker of an installation, unless
/// its time stamp holds it or the package is called `installed`.
proof fn lemma_upgraded_line_only(
    stamp: Seq<char>,
    name: Seq<char>,
    before: Seq<char>,
    after: Seq<char>,
)
    requires
        name.len() > 0,
        spaceless(name),
        spaceless(before),
        spaceless(after),
        !contains(stamp, installed_marker()),
        name != "installed"@,
    ensures
        !contains(upgraded_line(stamp, name, before, after), installed_marker()),
{
    reveal_strlit(" installed ");
    reveal_strlit(" upgraded ");
    reveal_strlit("installed");
    reveal_strlit("] [ALPM]");
    let marker: Seq<char> = installed_marker();
    let line: Seq<char> = upgraded_line(stamp, name, before, after);
    let body: Seq<char> = upgraded_body(name, before, after);
    let q: int = stamp.len() as int + 1;
    let h: int = q + 8;
    let b: int = h + 10;
    let n: int = name.len() as int;
    let o: int = n + 2 + before.len();
    lemma_upgraded_body_chars(name, before, after);
    assert(line.len() == b + body.len());
    assert forall|i: int| b <= i < line.len() implies line[i] == body[i - b] by {}
    assert forall|at: int| !occurs_at(line, marker, at) by {
        if occurs_at(line, marker, at) {
            let m: Seq<char> = line.subrange(at, at + 11);
            lemma_match_ends(line, marker, at);
            if at == 0 {
            } else if at + 11 <= q {
                assert(stamp.subrange(at - 1, at + 10) =~= m);
                assert(occurs_at(stamp, marker, at - 1));
            } else if at <= q {
                assert(m[q - at] == line[q]);
            } else if at < h + 9 {
            } else if at == h + 9 {
                if n < 9 {
                    assert(m[1 + n] == line[b + n]);
                } else if n == 9 {
                    assert forall|k: int| 0 <= k < 9 implies name[k] == "installed"@[k] by {
                        assert(m[1 + k] == line[b + k]);
                        assert(body.subrange(0, n)[k] == body[k]);
                    }
                    assert(name =~= "installed"@);
                } else {
                    assert(body.subrange(0, n)[9] == body[9]);
                    assert(line[at + 10] == name[9]);
                }
            } else {
                assert(line[at] == body[at - b]);
                assert(line[at + 1] == body[at + 1 - b]);
                assert(line[at + 10] == body[at + 10 - b]);
                assert(is_space(body[at - b]));
                assert(is_space(body[at + 10 - b]));
            }
        }
    }
}

/// The line of an upgrade yields the name and the version that was replaced;
/// the version that came is not kept. Left out are the lines that also hold
/// the marker of an installation, which are read as installations: those of
/// a package called `installed`, and those with the marker in the time stamp.
pub proof fn law_upgraded_line(
    stamp: Seq<char>,
    name: Seq<char>,
    before: Seq<char>,
    after: Seq<char>,
)
    requires
        name.len() > 0,
        spaceless(name),
        spaceless(before),
        spaceless(after),
        !contains(stamp, installed_marker()),
        name != "installed"@,
    ensures
        classified(upgraded_line(stamp, name, before, after)) == Ok::<
            PkgView,
            ClassificationError,
        >(PkgView { name, version: before, p_type: PkgType::Upgraded }),
{
    reveal_strlit(" upgraded ");
    reveal_strlit("] [ALPM]");
    let marker: Seq<char> = upgraded_marker();
    let head: Seq<char> = line_head(stamp);
    let body: Seq<char> = upgraded_body(name, before, after);
    let n: int = name.len() as int;
    let o: int = n + 2 + before.len();
    lemma_upgraded_line_only(stamp, name, before, after);
    lemma_upgraded_body_chars(name, before, after);
    assert(head.last() == ']');
    assert forall|at: int| !occurs_at(body, marker, at) by {
        if occurs_at(body, marker, at) {
            lemma_match_ends(body, marker, at);
            assert(is_space(body[at]));
            assert(is_space(body[at + 9]));
        }
    }
    lemma_last_piece_of_marked(head, marker, body);
    assert(last_piece(upgraded_line(stamp, name, before, after), marker) == body);
    lemma_first_words(body);
    lemma_word_start_bounds(body, 0);
    lemma_word_end_bounds(body, 0);
    assert(word_start(body, 0) == 0);
    assert(word_end(body, 0) == n);
    lemma_word_start_bounds(body, n);
    assert(word_start(body, n) == n + 1);
    lemma_word_end_bounds(body, n + 1);
    assert(word_end(body, n + 1) == o);
    assert(words(body)[0] == name);
    let second: Seq<char> = words(body)[1];
    assert(second == body.subrange(n + 1, o));
    assert(second.subrange(1, second.len() as int) =~= before);
}

} // verus!
