//! Taking packages back, one after the other: upgraded packages go back to
//! the archive of the version they had, installed packages are removed.
//!
//! The package manager is run by the caller. A batch says which action is
//! due, takes the result of that action, and goes on to the next record
//! whatever the result was.

use crate::archive::{archives, archives_only, resolve, resolved, ArchiveFile, ArchiveView};
use crate::record::{views, Pkg, PkgType, PkgView};
use vstd::prelude::*;

verus! {

/// The way in which a batch takes packages back.
#[derive(Debug, Clone, Copy, PartialEq, Eq, Structural)]
pub enum Reversal {
    /// Back to the version that an upgrade replaced.
    Downgrade,
    /// Off the system.
    Removal,
}

/// What the caller is to have the package manager do.
#[derive(Debug, PartialEq, Eq)]
pub enum Action {
    /// Install the archive at this path over the newer version.
    Downgrade(String),
    /// Remove the package with this identifier.
    Remove(String),
}

/// An action with its text as a sequence of characters.
pub enum ActionView {
    Downgrade(Seq<char>),
    Remove(Seq<char>),
}

impl View for Action {
    type V = ActionView;

    open spec fn view(&self) -> ActionView {
        match self {
            Action::Downgrade(path) => ActionView::Downgrade(path@),
            Action::Remove(package) => ActionView::Remove(package@),
        }
    }
}

/// How an action went: whether the package manager succeeded, and what it
/// wrote.
#[derive(Debug)]
pub struct ActionResult {
    pub success: bool,
    pub output: String,
}

/// The result of an action with its text as a sequence of characters.
pub struct ActionResultView {
    pub success: bool,
    pub output: Seq<char>,
}

impl View for ActionResult {
    type V = ActionResultView;

    open spec fn view(&self) -> ActionResultView {
        ActionResultView { success: self.success, output: self.output@ }
    }
}

/// What became of one record of a batch.
#[derive(Debug, PartialEq, Eq)]
pub enum Outcome {
    /// The action succeeded.
    Reverted,
    /// No archive of the record's version is in the cache; nothing was run.
    ArchiveNotFound,
    /// The action failed; this is what the package manager wrote.
    ExternalActionFailed(String),
}

/// An outcome with its text as a sequence of characters.
pub enum OutcomeView {
    Reverted,
    ArchiveNotFound,
    ExternalActionFailed(Seq<char>),
}

impl View for Outcome {
    type V = OutcomeView;

    open spec fn view(&self) -> OutcomeView {
        match self {
            Outcome::Reverted => OutcomeView::Reverted,
            Outcome::ArchiveNotFound => OutcomeView::ArchiveNotFound,
            Outcome::ExternalActionFailed(output) => OutcomeView::ExternalActionFailed(output@),
        }
    }
}

/// The outcome of one record, under the identifier of its package.
#[derive(Debug, PartialEq, Eq)]
pub struct Report {
    pub package: String,
    pub reversal: Reversal,
    pub outcome: Outcome,
}

/// A report with its texts as sequences of characters.
pub struct ReportView {
    pub package: Seq<char>,
    pub reversal: Reversal,
    pub outcome: OutcomeView,
}

impl View for Report {
    type V = ReportView;

    open spec fn view(&self) -> ReportView {
        ReportView { package: self.package@, reversal: self.reversal, outcome: self.outcome@ }
    }
}

impl ReportView {
    /// What the user is told of a record that was not taken back: that no
    /// archive was found, or that the action failed and what the package
    /// manager wrote. Nothing is told of a record that was taken back.
    pub open spec fn message(self) -> Option<Seq<char>> {
        match self.outcome {
            OutcomeView::Reverted => None,
            OutcomeView::ArchiveNotFound => Some(
                "pkg:"@ + self.package + " not found in local"@,
            ),
            OutcomeView::ExternalActionFailed(output) => Some(
                self.package + match self.reversal {
                    Reversal::Downgrade => " downgrade error, message:"@,
                    Reversal::Removal => " uninstall error, message:"@,
                } + output,
            ),
        }
    }
}

/// The view of a text that may be there.
pub open spec fn text_view(text: Option<String>) -> Option<Seq<char>> {
    match text {
        Some(t) => Some(t@),
        None => None,
    }
}

impl Report {
    /// The line to show the user for this report, if there is anything to
    /// tell.
    pub fn message(&self) -> (res: Option<String>)
        ensures
            text_view(res) == self@.message(),
    {
        match &self.outcome {
            Outcome::Reverted => None,
            Outcome::ArchiveNotFound => {
                let mut out = String::new();
                out.append("pkg:");
                out.append(self.package.as_str());
                out.append(" not found in local");
                assert(out@ =~= "pkg:"@ + self.package@ + " not found in local"@);
                Some(out)
            },
            Outcome::ExternalActionFailed(output) => {
                let mut out = String::new();
                out.append(self.package.as_str());
                match self.reversal {
                    Reversal::Downgrade => {
                        out.append(" downgrade error, message:");
                    },
                    Reversal::Removal => {
                        out.append(" uninstall error, message:");
                    },
                }
                out.append(output.as_str());
                assert(out@ =~= self@.message()->0);
                Some(out)
            },
        }
    }
}

/// The test by which the records of one type are picked.
pub open spec fn of_type(p_type: PkgType) -> spec_fn(PkgView) -> bool {
    |record: PkgView| record.p_type == p_type
}

/// Parts the records into the installed and the upgraded ones, each part in
/// the order of the records.
pub fn partition<'a>(records: &'a Vec<Pkg>) -> (res: (Vec<&'a Pkg>, Vec<&'a Pkg>))
    ensures
        views(res.0@) == views(records@).filter(of_type(PkgType::Installed)),
        views(res.1@) == views(records@).filter(of_type(PkgType::Upgraded)),
{
    let mut installed: Vec<&'a Pkg> = Vec::new();
    let mut upgraded: Vec<&'a Pkg> = Vec::new();
    let ghost all: Seq<PkgView> = views(records@);
    let mut i: usize = 0;
    assert(all.take(0) =~= Seq::empty());
    proof {
        reveal(Seq::filter);
    }
    while i < records.len()
        invariant
            i <= records.len(),
            all == views(records@),
            views(installed@) == all.take(i as int).filter(of_type(PkgType::Installed)),
            views(upgraded@) == all.take(i as int).filter(of_type(PkgType::Upgraded)),
        decreases records.len() - i,
    {
        let ghost installed_before: Seq<&Pkg> = installed@;
        let ghost upgraded_before: Seq<&Pkg> = upgraded@;
        proof {
            let record: PkgView = records@[i as int]@;
            assert(all.take(i + 1) =~= all.take(i as int).push(record));
            all.take(i as int).lemma_filter_push(record, of_type(PkgType::Installed));
            all.take(i as int).lemma_filter_push(record, of_type(PkgType::Upgraded));
        }
        match records[i].p_type {
            PkgType::Installed => {
                installed.push(&records[i]);
                assert(views(installed@) =~= views(installed_before).push(records@[i as int]@));
            },
            PkgType::Upgraded => {
                upgraded.push(&records[i]);
                assert(views(upgraded@) =~= views(upgraded_before).push(records@[i as int]@));
            },
        }
        i += 1;
    }
    assert(all.take(records.len() as int) =~= all);
    (installed, upgraded)
}

/// The action that a record asks for: to remove the package; or to go back
/// to the archive that is resolved for it, and nothing where none is.
pub open spec fn action_for(
    reversal: Reversal,
    record: PkgView,
    candidates: Seq<ArchiveView>,
) -> Option<ActionView> {
    match reversal {
        Reversal::Removal => Some(ActionView::Remove(record.identifier())),
        Reversal::Downgrade => match resolved(record, candidates) {
            Some(file) => Some(ActionView::Downgrade(file.path)),
            None => None,
        },
    }
}

/// The report on a record whose action gave `result`.
pub open spec fn settled(reversal: Reversal, record: PkgView, result: ActionResultView) -> ReportView {
    ReportView {
        package: record.identifier(),
        reversal,
        outcome: if result.success {
            OutcomeView::Reverted
        } else {
            OutcomeView::ExternalActionFailed(result.output)
        },
    }
}

/// The report on a record for which no archive was found.
pub open spec fn not_found(reversal: Reversal, record: PkgView) -> ReportView {
    ReportView { package: record.identifier(), reversal, outcome: OutcomeView::ArchiveNotFound }
}

/// The view of an action that may be there.
pub open spec fn action_view(action: Option<Action>) -> Option<ActionView> {
    match action {
        Some(a) => Some(a@),
        None => None,
    }
}

/// The view of a result that may be there.
pub open spec fn result_view(result: Option<ActionResult>) -> Option<ActionResultView> {
    match result {
        Some(r) => Some(r@),
        None => None,
    }
}

/// Works out the action that a record asks for.
pub fn plan(reversal: Reversal, record: &Pkg, candidates: &Vec<&ArchiveFile>) -> (res: Option<
    Action,
>)
    ensures
        action_view(res) == action_for(reversal, record@, views(candidates@)),
{
    match reversal {
        Reversal::Removal => Some(Action::Remove(record.get_pkg())),
        Reversal::Downgrade => match resolve(record, candidates) {
            Some(file) => Some(Action::Downgrade(file.path.clone())),
            None => None,
        },
    }
}

/// A batch of records that are taken back in their order, one action at a
/// time. The listing of the cache is taken once, when the batch is made.
#[derive(Debug)]
pub struct Batch<'a> {
    reversal: Reversal,
    records: Vec<&'a Pkg>,
    candidates: Vec<&'a ArchiveFile>,
    reports: Vec<Report>,
    awaiting: bool,
}

/// The state of a batch: there is one report for each record that is done
/// with, so the next record is the one at the number of reports.
pub struct BatchView {
    pub reversal: Reversal,
    pub records: Seq<PkgView>,
    pub candidates: Seq<ArchiveView>,
    pub reports: Seq<ReportView>,
    /// An action was handed out, and its result has not come in.
    pub awaiting: bool,
}

impl BatchView {
    /// The index of the next record.
    pub open spec fn cursor(self) -> int {
        self.reports.len() as int
    }

    /// Every record has its report.
    pub open spec fn finished(self) -> bool {
        self.cursor() >= self.records.len()
    }

    /// The result of an action is due.
    pub open spec fn due(self) -> bool {
        self.awaiting && !self.finished()
    }

    /// The action that the next record asks for.
    pub open spec fn next_action(self) -> Option<ActionView> {
        action_for(self.reversal, self.records[self.cursor()], self.candidates)
    }

    /// The reports are those of the first records, one for one, and say that
    /// no archive was found of just those records that ask for no action;
    /// and no result is awaited of a record that asks for none.
    pub open spec fn wf(self) -> bool {
        &&& self.reports.len() <= self.records.len()
        &&& forall|i: int|
            0 <= i < self.reports.len() ==> {
                &&& (#[trigger] self.reports[i]).package == self.records[i].identifier()
                &&& self.reports[i].reversal == self.reversal
                &&& self.reports[i].outcome is ArchiveNotFound <==> action_for(
                    self.reversal,
                    self.records[i],
                    self.candidates,
                ) is None
            }
        &&& self.awaiting ==> !self.finished() && self.next_action() is Some
    }

    /// The batch with one more report.
    pub open spec fn reported(self, report: ReportView) -> BatchView {
        BatchView { reports: self.reports.push(report), awaiting: false, ..self }
    }

    /// The batch after the records that ask for no action, from the next
    /// record on, are reported as without archive.
    pub open spec fn advanced(self) -> BatchView
        decreases self.records.len() - self.reports.len(),
    {
        if !self.finished() && self.next_action() is None {
            self.reported(not_found(self.reversal, self.records[self.cursor()])).advanced()
        } else {
            self
        }
    }

    /// One step of the batch: the state that follows, and the action that
    /// the caller is to run next, if any is left.
    ///
    /// Where a result is due and `event` brings one, the record is reported
    /// by it. Then the records that ask for no action are passed over, and
    /// the action of the first that asks for one is handed out. Where a
    /// result is due and none is brought, the same action is handed out
    /// again; a result that is not due is not looked at.
    pub open spec fn step(self, event: Option<ActionResultView>) -> (BatchView, Option<ActionView>) {
        if self.due() && event is None {
            (self, self.next_action())
        } else {
            let taken: BatchView = if self.due() {
                self.reported(settled(self.reversal, self.records[self.cursor()], event->0))
            } else {
                self
            };
            let next: BatchView = taken.advanced();
            if next.finished() {
                (BatchView { awaiting: false, ..next }, None)
            } else {
                (BatchView { awaiting: true, ..next }, next.next_action())
            }
        }
    }

    /// How many records from index `from` on ask for an action.
    pub open spec fn actions_from(self, from: int) -> nat
        decreases self.records.len() - from,
    {
        if 0 <= from < self.records.len() {
            let rest: nat = self.actions_from(from + 1);
            if action_for(self.reversal, self.records[from], self.candidates) is Some {
                rest + 1
            } else {
                rest
            }
        } else {
            0
        }
    }

    /// The batch after the caller has run it on: a first step that brings
    /// no result, then one step for each of `results`, in their order.
    pub open spec fn run(self, results: Seq<ActionResultView>) -> BatchView
        decreases results.len(),
    {
        if results.len() == 0 {
            self.step(None).0
        } else {
            self.run(results.drop_last()).step(Some(results.last())).0
        }
    }
}

impl<'a> View for Batch<'a> {
    type V = BatchView;

    closed spec fn view(&self) -> BatchView {
        BatchView {
            reversal: self.reversal,
            records: views(self.records@),
            candidates: views(self.candidates@),
            reports: views(self.reports@),
            awaiting: self.awaiting,
        }
    }
}

/// Passing over records changes nothing but the reports, leaves the batch
/// well formed, and ends at a record that asks for an action or behind the
/// last record.
pub proof fn lemma_advanced(b: BatchView)
    requires
        b.wf(),
        !b.awaiting,
    ensures
        b.advanced().wf(),
        !b.advanced().awaiting,
        b.advanced().reversal == b.reversal,
        b.advanced().records == b.records,
        b.advanced().candidates == b.candidates,
        b.advanced().cursor() >= b.cursor(),
        b.advanced().finished() || b.advanced().next_action() is Some,
    decreases b.records.len() - b.reports.len(),
{
    if !b.finished() && b.next_action() is None {
        lemma_advanced(b.reported(not_found(b.reversal, b.records[b.cursor()])));
    }
}

/// Where passing over starts is all that it rests on: two batches of the
/// same records and candidates, with as many reports, end at the same
/// record.
pub proof fn lemma_advanced_alike(a: BatchView, b: BatchView)
    requires
        a.reversal == b.reversal,
        a.records == b.records,
        a.candidates == b.candidates,
        a.cursor() == b.cursor(),
    ensures
        a.advanced().cursor() == b.advanced().cursor(),
        a.advanced().reversal == a.reversal,
        a.advanced().records == a.records,
        a.advanced().candidates == a.candidates,
        b.advanced().reversal == b.reversal,
        b.advanced().records == b.records,
        b.advanced().candidates == b.candidates,
    decreases a.records.len() - a.reports.len(),
{
    if !a.finished() && a.next_action() is None {
        let report: ReportView = not_found(a.reversal, a.records[a.cursor()]);
        lemma_advanced_alike(a.reported(report), b.reported(report));
    }
}

/// A step leaves a well-formed batch well formed, with its records and its
/// candidates, and takes no report back.
pub proof fn lemma_step_wf(b: BatchView, event: Option<ActionResultView>)
    requires
        b.wf(),
    ensures
        b.step(event).0.wf(),
        b.step(event).0.reversal == b.reversal,
        b.step(event).0.records == b.records,
        b.step(event).0.candidates == b.candidates,
        b.step(event).0.cursor() >= b.cursor(),
        b.step(event).1 is None <==> b.step(event).0.finished(),
        b.step(event).1 is Some <==> b.step(event).0.awaiting,
{
    if b.due() && event is None {
    } else {
        let taken: BatchView = if b.due() {
            b.reported(settled(b.reversal, b.records[b.cursor()], event->0))
        } else {
            b
        };
        lemma_advanced(taken);
    }
}

/// A failure does not stop the batch. Of two results of the action that is
/// due, one a success and one a failure, each has its record reported, and
/// the step goes on to the same record and hands out the same action.
pub proof fn law_failure_does_not_stop(
    b: BatchView,
    success: ActionResultView,
    failure: ActionResultView,
)
    requires
        b.wf(),
        b.due(),
        success.success,
        !failure.success,
    ensures
        b.step(Some(failure)).1 == b.step(Some(success)).1,
        b.step(Some(failure)).0.cursor() == b.step(Some(success)).0.cursor(),
        b.step(Some(failure)).0.cursor() > b.cursor(),
        b.step(Some(failure)).0.reports[b.cursor()] == settled(
            b.reversal,
            b.records[b.cursor()],
            failure,
        ),
{
    let record: PkgView = b.records[b.cursor()];
    let good: BatchView = b.reported(settled(b.reversal, record, success));
    let bad: BatchView = b.reported(settled(b.reversal, record, failure));
    lemma_advanced_alike(good, bad);
    lemma_advanced(bad);
    lemma_kept_reports(bad, b.cursor());
}

/// Passing over records keeps the reports that are there.
pub proof fn lemma_kept_reports(b: BatchView, i: int)
    requires
        0 <= i < b.reports.len(),
    ensures
        b.advanced().reports.len() >= b.reports.len(),
        b.advanced().reports[i] == b.reports[i],
    decreases b.records.len() - b.reports.len(),
{
    if !b.finished() && b.next_action() is None {
        lemma_kept_reports(b.reported(not_found(b.reversal, b.records[b.cursor()])), i);
    }
}

/// When no action is left, every record has its report, under the
/// identifier of its package; the reports without archive are those of the
/// records for which none is resolved.
pub proof fn law_finished_batch_is_complete(b: BatchView, event: Option<ActionResultView>)
    requires
        b.wf(),
        b.step(event).1 is None,
    ensures
        b.step(event).0.reports.len() == b.records.len(),
        forall|i: int|
            0 <= i < b.records.len() ==> {
                &&& (#[trigger] b.step(event).0.reports[i]).package == b.records[i].identifier()
                &&& b.step(event).0.reports[i].outcome is ArchiveNotFound <==> action_for(
                    b.reversal,
                    b.records[i],
                    b.candidates,
                ) is None
            },
{
    lemma_step_wf(b, event);
}

/// Passing over records passes over none that asks for an action.
pub proof fn lemma_advanced_actions(b: BatchView)
    ensures
        b.advanced().actions_from(b.advanced().cursor()) == b.actions_from(b.cursor()),
        b.advanced().reversal == b.reversal,
        b.advanced().records == b.records,
        b.advanced().candidates == b.candidates,
    decreases b.records.len() - b.reports.len(),
{
    if !b.finished() && b.next_action() is None {
        let next: BatchView = b.reported(not_found(b.reversal, b.records[b.cursor()]));
        lemma_advanced_actions(next);
        lemma_same_actions(b, next, next.cursor());
    }
}

/// How many records ask for an action rests on the records and the
/// candidates alone.
pub proof fn lemma_same_actions(a: BatchView, b: BatchView, from: int)
    requires
        a.reversal == b.reversal,
        a.records == b.records,
        a.candidates == b.candidates,
    ensures
        a.actions_from(from) == b.actions_from(from),
    decreases a.records.len() - from,
{
    if 0 <= from < a.records.len() {
        lemma_same_actions(a, b, from + 1);
    }
}

/// A batch that is run with as many results as its records ask for actions
/// is run to its end: where it stands in between, the actions left are as
/// many as the results left, and a result is due as long as one is left.
pub proof fn lemma_run(b: BatchView, results: Seq<ActionResultView>, total: nat)
    requires
        b.wf(),
        !b.awaiting,
        results.len() <= total,
        total == b.actions_from(b.cursor()),
    ensures
        b.run(results).wf(),
        b.run(results).reversal == b.reversal,
        b.run(results).records == b.records,
        b.run(results).candidates == b.candidates,
        b.run(results).actions_from(b.run(results).cursor()) == total - results.len(),
        b.run(results).awaiting <==> results.len() < total,
        b.run(results).finished() <==> results.len() == total,
    decreases results.len(),
{
    if results.len() == 0 {
        lemma_advanced(b);
        lemma_advanced_actions(b);
        lemma_same_actions(b.advanced(), b.run(results), b.advanced().cursor());
    } else {
        let before: BatchView = b.run(results.drop_last());
        lemma_run(b, results.drop_last(), total);
        let taken: BatchView = before.reported(
            settled(before.reversal, before.records[before.cursor()], results.last()),
        );
        lemma_same_actions(before, taken, taken.cursor());
        lemma_advanced(taken);
        lemma_advanced_actions(taken);
        lemma_same_actions(taken.advanced(), b.run(results), taken.advanced().cursor());
    }
}

/// Every record of a batch is processed, however the actions go. A batch
/// that is run from its start, with one result for each action that its
/// records ask for, ends with one report for each record, whether the
/// results tell of success or of failure.
pub proof fn law_every_record_is_processed(b: BatchView, results: Seq<ActionResultView>)
    requires
        b.wf(),
        !b.awaiting,
        results.len() == b.actions_from(b.cursor()),
    ensures
        b.run(results).finished(),
        b.run(results).reports.len() == b.records.len(),
        b.run(results).wf(),
        b.run(results).step(None).1 is None,
{
    lemma_run(b, results, b.actions_from(b.cursor()));
    lemma_step_wf(b.run(results), None);
}

/// Starts the batch that takes upgraded packages back to the version they
/// had. `entries` is the listing of the cache directory; the package
/// archives among its files are the candidates of the whole batch.
pub fn do_downgrade<'a>(upgraded: Vec<&'a Pkg>, entries: &'a Vec<ArchiveFile>) -> (res: Batch<'a>)
    ensures
        res@ == (BatchView {
            reversal: Reversal::Downgrade,
            records: views(upgraded@),
            candidates: views(entries@).filter(archives_only()),
            reports: Seq::empty(),
            awaiting: false,
        }),
        res@.wf(),
{
    let candidates: Vec<&'a ArchiveFile> = archives(entries);
    let res = Batch {
        reversal: Reversal::Downgrade,
        records: upgraded,
        candidates,
        reports: Vec::new(),
        awaiting: false,
    };
    assert(views(res.reports@) =~= Seq::empty());
    res
}

/// Starts the batch that removes installed packages.
pub fn do_uninstalled<'a>(installed: Vec<&'a Pkg>) -> (res: Batch<'a>)
    ensures
        res@ == (BatchView {
            reversal: Reversal::Removal,
            records: views(installed@),
            candidates: Seq::empty(),
            reports: Seq::empty(),
            awaiting: false,
        }),
        res@.wf(),
{
    let res = Batch {
        reversal: Reversal::Removal,
        records: installed,
        candidates: Vec::new(),
        reports: Vec::new(),
        awaiting: false,
    };
    assert(views(res.reports@) =~= Seq::empty());
    assert(views(res.candidates@) =~= Seq::empty());
    res
}

impl<'a> Batch<'a> {
    /// The reports on the records that are done with, in the order of the
    /// records.
    pub fn reports(&self) -> (res: &Vec<Report>)
        ensures
            views(res@) == self@.reports,
    {
        &self.reports
    }

    /// Takes the result of the action that is due, if `event` brings one,
    /// and hands out the action to run next; `None` when every record has
    /// its report. The first call of a batch brings no result.
    pub fn step(&mut self, event: Option<ActionResult>) -> (res: Option<Action>)
        ensures
            final(self)@ == old(self)@.step(result_view(event)).0,
            action_view(res) == old(self)@.step(result_view(event)).1,
            old(self)@.wf() ==> final(self)@.wf(),
    {
        proof {
            if self@.wf() {
                lemma_step_wf(self@, result_view(event));
            }
        }
        if self.awaiting && self.reports.len() < self.records.len() {
            let record: &'a Pkg = self.records[self.reports.len()];
            match event {
                None => {
                    return plan(self.reversal, record, &self.candidates);
                },
                Some(result) => {
                    let ghost before: Seq<Report> = self.reports@;
                    let outcome: Outcome = if result.success {
                        Outcome::Reverted
                    } else {
                        Outcome::ExternalActionFailed(result.output)
                    };
                    let report = Report {
                        package: record.get_pkg(),
                        reversal: self.reversal,
                        outcome,
                    };
                    self.reports.push(report);
                    self.awaiting = false;
                    assert(views(self.reports@) =~= views(before).push(report@));
                },
            }
        }
        let ghost taken: BatchView = self@;
        let ghost goal: (BatchView, Option<ActionView>) = old(self)@.step(result_view(event));
        assert(goal == if taken.advanced().finished() {
            (BatchView { awaiting: false, ..taken.advanced() }, None::<ActionView>)
        } else {
            (BatchView { awaiting: true, ..taken.advanced() }, taken.advanced().next_action())
        });
        while self.reports.len() < self.records.len()
            invariant
                self@.advanced() == taken.advanced(),
                self.awaiting ==> self@.finished(),
                self@.records.len() == self.records.len(),
                goal == old(self)@.step(result_view(event)),
                goal == if taken.advanced().finished() {
                    (BatchView { awaiting: false, ..taken.advanced() }, None::<ActionView>)
                } else {
                    (BatchView { awaiting: true, ..taken.advanced() }, taken.advanced().next_action())
                },
                old(self)@.wf() ==> goal.0.wf(),
            decreases self.records.len() - self.reports.len(),
        {
            let record: &'a Pkg = self.records[self.reports.len()];
            match plan(self.reversal, record, &self.candidates) {
                Some(action) => {
                    assert(self@.advanced() == self@);
                    self.awaiting = true;
                    return Some(action);
                },
                None => {
                    let ghost before: Seq<Report> = self.reports@;
                    let report = Report {
                        package: record.get_pkg(),
                        reversal: self.reversal,
                        outcome: Outcome::ArchiveNotFound,
                    };
                    self.reports.push(report);
                    assert(views(self.reports@) =~= views(before).push(report@));
                },
            }
        }
        self.awaiting = false;
        None
    }
}

} // verus!
