//! The budget gate: a running total of included bytes, and the veto on
//! candidates that would take it over the total budget.

use crate::config::AppConfig;
use crate::processing::{
    bytes_of_megabytes, extracted, lemma_included_within_limit, megabytes_to_bytes, FileStatus,
    StatusView,
};
use crate::text::{decimal, push_decimal};
use vstd::prelude::*;
use vstd::string::StringExecFns;

verus! {

/// `a + b`, or the largest value where the sum does not fit.
pub open spec fn saturating_sum(a: u64, b: u64) -> u64 {
    if a + b > u64::MAX {
        u64::MAX
    } else {
        (a + b) as u64
    }
}

/// Whether a candidate of `candidate_size` bytes fits: the running total
/// with it, saturating, does not exceed the total budget.
pub open spec fn admits(candidate_size: u64, running_total: u64, total_budget: u64) -> bool {
    saturating_sum(running_total, candidate_size) <= total_budget
}

/// Whether a candidate of `candidate_size` bytes on disk may be extracted,
/// given the bytes included so far and the total budget.
pub fn has_room(candidate_size: u64, running_total: u64, total_budget: u64) -> (ok: bool)
    ensures
        ok == admits(candidate_size, running_total, total_budget),
{
    running_total.saturating_add(candidate_size) <= total_budget
}

/// The reason given for a candidate that the budget has no room for.
pub open spec fn budget_reason(limit_mb: u64) -> Seq<char> {
    "Budget exceeded (limit="@ + decimal(limit_mb as nat) + " MB)"@
}

/// The reason given for a candidate whose metadata could not be read.
pub open spec fn metadata_reason(cause: Seq<char>) -> Seq<char> {
    "Metadata error: "@ + cause
}

/// The running total after a result: an included file adds the bytes that
/// were read of it, an omitted one nothing.
pub open spec fn used_after(used: u64, status: StatusView) -> u64 {
    match status {
        StatusView::Included { size, .. } => saturating_sum(used, size),
        StatusView::Omitted { .. } => used,
    }
}

/// The state of the budget gate during a run.
#[derive(Debug, Clone, Copy, PartialEq, Eq, Structural)]
pub struct BudgetGate {
    /// Bytes included so far.
    pub used: u64,
    /// The total budget in bytes.
    pub limit: u64,
    /// The total budget in MiB, as configured.
    pub limit_mb: u64,
}

impl BudgetGate {
    /// The budget at the start of a run, with nothing used.
    pub fn new(config: &AppConfig) -> (gate: BudgetGate)
        ensures
            gate.used == 0,
            gate.limit == megabytes_to_bytes(config.max_total_mb),
            gate.limit_mb == config.max_total_mb,
    {
        BudgetGate {
            used: 0,
            limit: bytes_of_megabytes(config.max_total_mb),
            limit_mb: config.max_total_mb,
        }
    }

    /// Whether a candidate of `size` bytes on disk may be extracted.
    pub fn check(&self, size: u64) -> (ok: bool)
        ensures
            ok == admits(size, self.used, self.limit),
    {
        has_room(size, self.used, self.limit)
    }

    /// The result for a candidate that was turned away: it is left out
    /// unread, with its known size.
    pub fn reject(&self, path: String, size: u64) -> (status: FileStatus)
        ensures
            status@ == (StatusView::Omitted {
                path: path@,
                reason: budget_reason(self.limit_mb),
                size,
            }),
    {
        let mut reason = String::from_str("Budget exceeded (limit=");
        push_decimal(&mut reason, self.limit_mb as u128);
        reason.append(" MB)");
        FileStatus::Omitted { path, reason, size }
    }

    /// Takes note of a result: the bytes read of an included file count
    /// against the budget.
    pub fn record(&mut self, status: &FileStatus)
        ensures
            final(self).used == used_after(old(self).used, status@),
            final(self).limit == old(self).limit,
            final(self).limit_mb == old(self).limit_mb,
    {
        match status {
            FileStatus::Included { size, .. } => {
                self.used = self.used.saturating_add(*size);
            },
            FileStatus::Omitted { .. } => {},
        }
    }
}

/// The result for a candidate whose metadata could not be read: it is left
/// out, with size 0.
pub fn metadata_failure(path: String, cause: &str) -> (status: FileStatus)
    ensures
        status@ == (StatusView::Omitted { path: path@, reason: metadata_reason(cause@), size: 0 }),
{
    let reason = String::from_str("Metadata error: ").concat(cause);
    FileStatus::Omitted { path, reason, size: 0 }
}

/// Sum of the sizes of the included results.
pub open spec fn included_total(results: Seq<StatusView>) -> nat
    decreases results.len(),
{
    if results.len() == 0 {
        0
    } else {
        included_total(results.drop_last()) + match results.last() {
            StatusView::Included { size, .. } => size as nat,
            StatusView::Omitted { .. } => 0nat,
        }
    }
}

/// The running total after the given results.
pub open spec fn used_after_all(results: Seq<StatusView>) -> u64
    decreases results.len(),
{
    if results.len() == 0 {
        0
    } else {
        used_after(used_after_all(results.drop_last()), results.last())
    }
}

/// Whether a result can follow on a running total of `used`, for a file
/// of `on_disk` bytes by its metadata: an included file was admitted, on a
/// sum that did not saturate, and gave no more bytes than its metadata said.
pub open spec fn step_allowed(limit: u64, on_disk: u64, used: u64, status: StatusView) -> bool {
    match status {
        StatusView::Included { size, .. } => admits(on_disk, used, limit) && used + on_disk
            <= u64::MAX && size <= on_disk,
        StatusView::Omitted { .. } => true,
    }
}

/// Whether `results` can come out of a budgeted run in which no file
/// gave more bytes than its metadata said and no sum saturated: `sizes` are
/// the sizes on disk, and each included file was admitted on the total of
/// those before it.
pub open spec fn gated_run(limit: u64, sizes: Seq<u64>, results: Seq<StatusView>) -> bool {
    &&& sizes.len() == results.len()
    &&& forall|i: int|
        0 <= i < results.len() ==> step_allowed(
            limit,
            #[trigger] sizes[i],
            used_after_all(results.take(i)),
            results[i],
        )
}

/// Budget conservation: in a budgeted run in which no file gave more
/// bytes than its metadata said and no sum saturated, the sizes of the
/// included files never add up to more than the total budget, and the
/// running total is their exact sum.
pub proof fn lemma_budget_conserved(limit: u64, sizes: Seq<u64>, results: Seq<StatusView>)
    requires
        gated_run(limit, sizes, results),
    ensures
        included_total(results) <= limit,
        used_after_all(results) == included_total(results),
    decreases results.len(),
{
    if results.len() > 0 {
        let n = results.len() - 1;
        let before = results.drop_last();
        let sizes_before = sizes.drop_last();
        assert forall|i: int| 0 <= i < before.len() implies step_allowed(
            limit,
            #[trigger] sizes_before[i],
            used_after_all(before.take(i)),
            before[i],
        ) by {
            assert(before[i] == results[i]);
            assert(sizes_before[i] == sizes[i]);
            assert(before.take(i) =~= results.take(i));
        }
        lemma_budget_conserved(limit, sizes_before, before);
        assert(results.take(n) =~= before);
        assert(step_allowed(limit, sizes[n], used_after_all(results.take(n)), results[n]));
    }
}

/// The results of a run over the given files, each with its path, its
/// size by its metadata and the bytes read of it: a file that the budget
/// has room for is extracted, and any other is turned away unread.
pub open spec fn run_results(config: AppConfig, files: Seq<(Seq<char>, u64, Seq<u8>)>) -> Seq<
    StatusView,
>
    decreases files.len(),
{
    if files.len() == 0 {
        Seq::empty()
    } else {
        let before = run_results(config, files.drop_last());
        let (path, size, bytes) = files.last();
        before.push(
            if admits(size, used_after_all(before), megabytes_to_bytes(config.max_total_mb)) {
                extracted(path, size, bytes, config)
            } else {
                StatusView::Omitted { path, reason: budget_reason(config.max_total_mb), size }
            },
        )
    }
}

/// Total budget conservation: over a whole run, the sizes of the included
/// files never add up to more than the total budget, and the running total
/// is their exact sum, where no file gave more bytes than its metadata said
/// and the budget is below the largest byte count.
pub proof fn lemma_run_within_budget(config: AppConfig, files: Seq<(Seq<char>, u64, Seq<u8>)>)
    requires
        megabytes_to_bytes(config.max_total_mb) < u64::MAX,
        forall|i: int| 0 <= i < files.len() ==> (#[trigger] files[i]).2.len() <= files[i].1,
    ensures
        run_results(config, files).len() == files.len(),
        included_total(run_results(config, files)) <= megabytes_to_bytes(config.max_total_mb),
        used_after_all(run_results(config, files)) == included_total(run_results(config, files)),
    decreases files.len(),
{
    if files.len() > 0 {
        let earlier = files.drop_last();
        assert forall|i: int| 0 <= i < earlier.len() implies (#[trigger] earlier[i]).2.len()
            <= earlier[i].1 by {
            assert(earlier[i] == files[i]);
        }
        lemma_run_within_budget(config, earlier);
        let before = run_results(config, earlier);
        let (path, size, bytes) = files.last();
        assert(files.last() == files[files.len() - 1]);
        lemma_included_within_limit(path, size, bytes, config);
        let results = run_results(config, files);
        assert(results.drop_last() =~= before);
    }
}

} // verus!
