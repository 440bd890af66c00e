//! The cache of package archives, and the archive that a record asks for.

use crate::record::{views, Pkg, PkgView};
use crate::text::{chars_of, ends_with, has_suffix, matches_at, starts_with};
use vstd::prelude::*;

verus! {

/// A file of the cache directory: its name, and the path that leads to it.
#[derive(Debug)]
pub struct ArchiveFile {
    pub name: String,
    pub path: String,
}

/// A file with its texts as sequences of characters.
pub struct ArchiveView {
    pub name: Seq<char>,
    pub path: Seq<char>,
}

impl View for ArchiveFile {
    type V = ArchiveView;

    open spec fn view(&self) -> ArchiveView {
        ArchiveView { name: self.name@, path: self.path@ }
    }
}

/// What the name of a package archive ends with.
pub open spec fn archive_suffix() -> Seq<char> {
    ".pkg.tar.zst"@
}

/// The file is a package archive by its name.
pub open spec fn is_archive(file: ArchiveView) -> bool {
    ends_with(file.name, archive_suffix())
}

/// The test by which package archives are picked from a listing.
pub open spec fn archives_only() -> spec_fn(ArchiveView) -> bool {
    |file: ArchiveView| is_archive(file)
}

/// The name of the file begins with the identifier of the record's package.
pub open spec fn fits(record: PkgView, file: ArchiveView) -> bool {
    starts_with(file.name, record.identifier())
}

/// `at` is the index of the first candidate that fits the record.
pub open spec fn is_first_fit(record: PkgView, candidates: Seq<ArchiveView>, at: int) -> bool {
    &&& 0 <= at < candidates.len()
    &&& fits(record, candidates[at])
    &&& forall|j: int| 0 <= j < at ==> !fits(record, #[trigger] candidates[j])
}

/// The archive to go back to: the first candidate that fits, if any does.
pub open spec fn resolved(record: PkgView, candidates: Seq<ArchiveView>) -> Option<ArchiveView>
    decreases candidates.len(),
{
    if candidates.len() == 0 {
        None
    } else if fits(record, candidates.first()) {
        Some(candidates.first())
    } else {
        resolved(record, candidates.drop_first())
    }
}

/// The view of a file that may be there.
pub open spec fn found_view(found: Option<&ArchiveFile>) -> Option<ArchiveView> {
    match found {
        Some(file) => Some(file@),
        None => None,
    }
}

impl ArchiveFile {
    /// Tells whether the file is a package archive by its name.
    pub fn is_package(&self) -> (res: bool)
        ensures
            res == is_archive(self@),
    {
        has_suffix(&chars_of(self.name.as_str()), &chars_of(".pkg.tar.zst"))
    }
}

/// The package archives among the files of the cache directory, in the order
/// of the listing.
pub fn archives<'a>(entries: &'a Vec<ArchiveFile>) -> (res: Vec<&'a ArchiveFile>)
    ensures
        views(res@) == views(entries@).filter(archives_only()),
{
    let mut out: Vec<&'a ArchiveFile> = Vec::new();
    let ghost all: Seq<ArchiveView> = views(entries@);
    let mut i: usize = 0;
    assert(all.take(0) =~= Seq::empty());
    while i < entries.len()
        invariant
            i <= entries.len(),
            all == views(entries@),
            views(out@) == all.take(i as int).filter(archives_only()),
        decreases entries.len() - i,
    {
        let ghost before: Seq<&ArchiveFile> = out@;
        proof {
            assert(all.take(i + 1) =~= all.take(i as int).push(entries@[i as int]@));
            all.take(i as int).lemma_filter_push(entries@[i as int]@, archives_only());
        }
        if entries[i].is_package() {
            out.push(&entries[i]);
            assert(views(out@) =~= views(before).push(entries@[i as int]@));
        }
        i += 1;
    }
    assert(all.take(entries.len() as int) =~= all);
    out
}

/// Where no candidate fits the record, none is resolved.
pub proof fn lemma_resolved_none(record: PkgView, candidates: Seq<ArchiveView>)
    ensures
        resolved(record, candidates) is None <==> forall|j: int|
            0 <= j < candidates.len() ==> !fits(record, #[trigger] candidates[j]),
    decreases candidates.len(),
{
    if candidates.len() > 0 {
        let rest: Seq<ArchiveView> = candidates.drop_first();
        lemma_resolved_none(record, rest);
        if !fits(record, candidates.first()) {
            if resolved(record, rest) is None {
                assert forall|j: int| 0 <= j < candidates.len() implies !fits(
                    record,
                    #[trigger] candidates[j],
                ) by {
                    if j > 0 {
                        assert(candidates[j] == rest[j - 1]);
                    }
                }
            } else {
                let j: int = choose|j: int| 0 <= j < rest.len() && fits(record, rest[j]);
                assert(candidates[j + 1] == rest[j]);
            }
        }
    }
}

/// The candidate that is resolved is the first that fits.
pub proof fn lemma_resolved_first(record: PkgView, candidates: Seq<ArchiveView>, at: int)
    requires
        is_first_fit(record, candidates, at),
    ensures
        resolved(record, candidates) == Some(candidates[at]),
    decreases at,
{
    if at > 0 {
        let rest: Seq<ArchiveView> = candidates.drop_first();
        assert(candidates.first() == candidates[0]);
        assert forall|j: int| 0 <= j < at - 1 implies !fits(record, #[trigger] rest[j]) by {
            assert(rest[j] == candidates[j + 1]);
        }
        lemma_resolved_first(record, rest, at - 1);
    }
}

/// Among the candidates, where exactly one fits the record, that one is
/// resolved.
pub proof fn law_single_fit_is_resolved(record: PkgView, candidates: Seq<ArchiveView>, at: int)
    requires
        0 <= at < candidates.len(),
        forall|j: int|
            0 <= j < candidates.len() ==> (fits(record, #[trigger] candidates[j]) <==> j == at),
    ensures
        resolved(record, candidates) == Some(candidates[at]),
{
    lemma_resolved_first(record, candidates, at);
}

/// Looks among the candidates for the archive of the version that the record
/// names: the first whose name begins with the package identifier.
pub fn resolve<'a>(record: &Pkg, candidates: &Vec<&'a ArchiveFile>) -> (res: Option<
    &'a ArchiveFile,
>)
    ensures
        found_view(res) == resolved(record@, views(candidates@)),
        res is None <==> forall|j: int|
            0 <= j < candidates.len() ==> !fits(record@, (#[trigger] candidates@[j])@),
        res matches Some(file) ==> exists|at: int|
            is_first_fit(record@, views(candidates@), at) && *candidates@[at] == *file,
{
    let identifier: String = record.get_pkg();
    let prefix: Vec<char> = chars_of(identifier.as_str());
    let ghost all: Seq<ArchiveView> = views(candidates@);
    let mut i: usize = 0;
    while i < candidates.len()
        invariant
            i <= candidates.len(),
            all == views(candidates@),
            prefix@ == record@.identifier(),
            forall|j: int| 0 <= j < i ==> !fits(record@, #[trigger] all[j]),
        decreases candidates.len() - i,
    {
        let file: &'a ArchiveFile = candidates[i];
        if matches_at(&chars_of(file.name.as_str()), &prefix, 0) {
            proof {
                assert(is_first_fit(record@, all, i as int));
                lemma_resolved_first(record@, all, i as int);
                lemma_resolved_none(record@, all);
            }
            return Some(file);
        }
        i += 1;
    }
    proof {
        lemma_resolved_none(record@, all);
        assert forall|j: int| 0 <= j < candidates.len() implies !fits(
            record@,
            (#[trigger] candidates@[j])@,
        ) by {
            assert(all[j] == candidates@[j]@);
        }
    }
    None
}

} // verus!
