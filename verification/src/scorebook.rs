//! Importing a bot's past Lichess games into the scorebook, and the cap the
//! runner puts on the engine flight recorder's disk use.
use vstd::prelude::*;

verus! {

/// How many games an import asks for when the request names no number.
pub const DEFAULT_IMPORT_GAMES: u32 = 1000;

/// The most games one import asks Lichess for.
pub const MAX_IMPORT_GAMES: u32 = 3000;

/// The number of games an import asks for: the request's number, or a
/// thousand, kept within 1..=3000.
pub open spec fn import_limit_spec(max: Option<u32>) -> u32 {
    let n = match max {
        Some(n) => n,
        None => 1000u32,
    };
    if n < 1 {
        1
    } else if n > 3000 {
        3000
    } else {
        n
    }
}

pub fn import_limit(max: Option<u32>) -> (limit: u32)
    ensures
        limit == import_limit_spec(max),
        1 <= limit <= 3000,
{
    let n = match max {
        Some(n) => n,
        None => DEFAULT_IMPORT_GAMES,
    };
    if n < 1 {
        1
    } else if n > MAX_IMPORT_GAMES {
        MAX_IMPORT_GAMES
    } else {
        n
    }
}

/// What became of one exported game: `None` when it could not be read as a
/// scorebook record, else whether the scorebook took it (it refuses a game
/// it already holds).
pub open spec fn count_appended(outcomes: Seq<Option<bool>>) -> nat
    decreases outcomes.len(),
{
    if outcomes.len() == 0 {
        0
    } else {
        count_appended(outcomes.drop_last()) + if outcomes.last() == Some(true) {
            1nat
        } else {
            0nat
        }
    }
}

/// The outcome of an import: how many games were added, skipped and read.
pub struct ImportReport {
    pub imported: i64,
    pub skipped: i64,
    pub scanned: i64,
}

proof fn lemma_count_appended_bound(outcomes: Seq<Option<bool>>)
    ensures
        count_appended(outcomes) <= outcomes.len(),
    decreases outcomes.len(),
{
    if outcomes.len() > 0 {
        lemma_count_appended_bound(outcomes.drop_last());
    }
}

/// Tallies an import from the outcome of each exported game, in order.
pub fn tally_import(outcomes: &Vec<Option<bool>>) -> (report: ImportReport)
    requires
        outcomes@.len() <= i64::MAX,
    ensures
        report.scanned == outcomes@.len(),
        report.imported == count_appended(outcomes@),
        report.skipped == outcomes@.len() - count_appended(outcomes@),
{
    let mut imported: i64 = 0;
    let mut skipped: i64 = 0;
    let mut i: usize = 0;
    while i < outcomes.len()
        invariant
            outcomes@.len() <= i64::MAX,
            i <= outcomes@.len(),
            imported == count_appended(outcomes@.subrange(0, i as int)),
            skipped == i - count_appended(outcomes@.subrange(0, i as int)),
        decreases outcomes.len() - i,
    {
        proof {
            let next = outcomes@.subrange(0, i + 1);
            assert(next.drop_last() =~= outcomes@.subrange(0, i as int));
            assert(next.last() == outcomes@[i as int]);
            lemma_count_appended_bound(outcomes@.subrange(0, i as int));
        }
        if outcomes[i] == Some(true) {
            imported = imported + 1;
        } else {
            skipped = skipped + 1;
        }
        i = i + 1;
    }
    proof {
        assert(outcomes@.subrange(0, outcomes@.len() as int) =~= outcomes@);
    }
    ImportReport { imported, skipped, scanned: i as i64 }
}

/// The flight recorder's total size cap, in MiB, once the runner's byte
/// ceiling applies: `None` when the configured cap already lies within the
/// ceiling, else the ceiling in whole MiB, at least one. A cap of zero means
/// no cap, so it is always replaced.
pub open spec fn capped_log_total_spec(current_mb: u64, max_bytes: u64) -> Option<u64> {
    let ceiling: u64 = if max_bytes / 1048576 < 1 {
        1
    } else {
        (max_bytes / 1048576) as u64
    };
    if current_mb != 0 && current_mb <= ceiling {
        None
    } else {
        Some(ceiling)
    }
}

pub fn capped_log_total_mb(current_mb: u64, max_bytes: u64) -> (cap: Option<u64>)
    ensures
        cap == capped_log_total_spec(current_mb, max_bytes),
{
    let whole = max_bytes / (1024 * 1024);
    let ceiling = if whole < 1 {
        1
    } else {
        whole
    };
    if current_mb != 0 && current_mb <= ceiling {
        None
    } else {
        Some(ceiling)
    }
}

} // verus!
