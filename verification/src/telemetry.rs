//! Per-game engine telemetry: the eval series recorded at each submitted
//! move, its aggregates, the configuration fingerprint and the result label.
use vstd::prelude::*;
use vstd::string::StringSliceAdditionalSpecFns;
use vstd::utf8::encode_utf8;
use crate::hex::hex_digit;
use crate::order::{join_strings, joined, lex_le_fn, sort_strings, views};
use crate::text::{push_char, push_str, u64_text, decimal};

verus! {

/// Evals are clamped so one mate line cannot dwarf every chart.
pub const EVAL_CLAMP_CP: i32 = 1000;

/// The lower end of the eval clamp.
pub const EVAL_FLOOR_CP: i32 = -1000;

/// A drop of at least this many centipawns between two consecutive eval
/// snapshots counts as a blunder.
pub const BLUNDER_DROP_CP: i64 = 200;

/// The scores of the last search report for one of our moves.
#[derive(Clone, Copy, PartialEq, Eq, Structural, Debug)]
pub struct SearchScore {
    pub score_cp: Option<i32>,
    pub mate_in: Option<i32>,
    pub depth: Option<u32>,
}

/// The eval snapshot for one submitted move, in our perspective: a mate
/// score maps to plus or minus the clamp, a centipawn score is clamped, and
/// a move without a score repeats the previous snapshot (0 when none).
pub open spec fn eval_spec(info: Option<SearchScore>, previous: Option<i32>) -> i32 {
    let fallback = match previous {
        Some(p) => p,
        None => 0i32,
    };
    match info {
        Some(i) => match i.mate_in {
            Some(m) => if m >= 0 { EVAL_CLAMP_CP } else { EVAL_FLOOR_CP },
            None => match i.score_cp {
                Some(cp) => if cp < EVAL_FLOOR_CP {
                    EVAL_FLOOR_CP
                } else if cp > EVAL_CLAMP_CP {
                    EVAL_CLAMP_CP
                } else {
                    cp
                },
                None => fallback,
            },
        },
        None => fallback,
    }
}

/// Maps the final search report of one of our moves to its eval snapshot.
pub fn eval_entry(info: Option<&SearchScore>, previous: Option<i32>) -> (eval: i32)
    ensures
        eval == eval_spec(
            match info {
                Some(i) => Some(*i),
                None => None,
            },
            previous,
        ),
        EVAL_FLOOR_CP <= eval <= EVAL_CLAMP_CP || eval == (match previous {
            Some(p) => p,
            None => 0i32,
        }),
{
    if let Some(info) = info {
        if let Some(mate) = info.mate_in {
            return if mate >= 0 {
                EVAL_CLAMP_CP
            } else {
                EVAL_FLOOR_CP
            };
        }
        if let Some(cp) = info.score_cp {
            return if cp < EVAL_FLOOR_CP {
                EVAL_FLOOR_CP
            } else if cp > EVAL_CLAMP_CP {
                EVAL_CLAMP_CP
            } else {
                cp
            };
        }
    }
    match previous {
        Some(p) => p,
        None => 0,
    }
}

/// Engine-side counters accumulated while one game runs.
pub struct TelemetryCapture {
    /// One eval snapshot per submitted move.
    pub eval_series_cp: Vec<i32>,
    /// Search depth reported at each engine-searched submission.
    pub depths: Vec<i64>,
    /// Milliseconds from detecting our turn to submitting the move.
    pub move_times_ms: Vec<i64>,
    pub book_plies: i64,
    pub engine_restarts: i64,
    pub submission_retries: i64,
    pub stream_reconnects: i64,
    pub failure_resign: bool,
    pub end_clock_ms: Option<i64>,
}

impl TelemetryCapture {
    /// A capture with no moves and all counters at zero.
    pub fn new() -> (capture: Self)
        ensures
            capture.eval_series_cp@.len() == 0,
            capture.depths@.len() == 0,
            capture.move_times_ms@.len() == 0,
            capture.book_plies == 0,
            capture.engine_restarts == 0,
            capture.submission_retries == 0,
            capture.stream_reconnects == 0,
            !capture.failure_resign,
            capture.end_clock_ms is None,
    {
        TelemetryCapture {
            eval_series_cp: Vec::new(),
            depths: Vec::new(),
            move_times_ms: Vec::new(),
            book_plies: 0,
            engine_restarts: 0,
            submission_retries: 0,
            stream_reconnects: 0,
            failure_resign: false,
            end_clock_ms: None,
        }
    }

    /// Records one submitted move: its eval snapshot, the search depth when
    /// the move came from a search that reported one, and the (non-negative)
    /// time from turn detection to submission. Book moves count toward
    /// `book_plies`.
    pub fn record_submission(&mut self, info: Option<&SearchScore>, move_time_ms: i64, from_book: bool)
        requires
            from_book ==> old(self).book_plies < i64::MAX,
        ensures
            final(self).eval_series_cp@ == old(self).eval_series_cp@.push(
                eval_spec(
                    match info {
                        Some(i) => Some(*i),
                        None => None,
                    },
                    if old(self).eval_series_cp@.len() == 0 {
                        None
                    } else {
                        Some(old(self).eval_series_cp@.last())
                    },
                ),
            ),
            final(self).depths@ == (match info {
                Some(i) => match i.depth {
                    Some(d) => old(self).depths@.push(d as i64),
                    None => old(self).depths@,
                },
                None => old(self).depths@,
            }),
            final(self).move_times_ms@ == old(self).move_times_ms@.push(
                if move_time_ms < 0 { 0i64 } else { move_time_ms },
            ),
            final(self).book_plies == old(self).book_plies + (if from_book { 1int } else { 0int }),
            final(self).engine_restarts == old(self).engine_restarts,
            final(self).submission_retries == old(self).submission_retries,
            final(self).stream_reconnects == old(self).stream_reconnects,
            final(self).failure_resign == old(self).failure_resign,
            final(self).end_clock_ms == old(self).end_clock_ms,
    {
        let n = self.eval_series_cp.len();
        let previous = if n == 0 {
            None
        } else {
            Some(self.eval_series_cp[n - 1])
        };
        let eval = eval_entry(info, previous);
        self.eval_series_cp.push(eval);
        if let Some(i) = info {
            if let Some(depth) = i.depth {
                self.depths.push(depth as i64);
            }
        }
        self.move_times_ms.push(if move_time_ms < 0 { 0 } else { move_time_ms });
        if from_book {
            self.book_plies = self.book_plies + 1;
        }
    }
}

/// An arithmetic mean kept as its exact sum and count, so that no rounding
/// happens before the value is shown.
#[derive(Clone, Copy, PartialEq, Eq, Structural, Debug)]
pub struct Mean {
    pub total: i128,
    pub count: u64,
}

/// The flattened per-game telemetry record.
pub struct GameTelemetry {
    pub eval_series_cp: Vec<i32>,
    pub avg_depth: Option<Mean>,
    pub min_depth: Option<i64>,
    pub avg_move_time_ms: Option<Mean>,
    pub max_move_time_ms: Option<i64>,
    pub end_clock_ms: Option<i64>,
    pub book_plies: i64,
    pub engine_restarts: i64,
    pub submission_retries: i64,
    pub stream_reconnects: i64,
    pub failure_resign: bool,
    pub max_eval_cp: Option<i32>,
    pub min_eval_cp: Option<i32>,
    pub blunders: u64,
    pub config_fingerprint: Option<String>,
}

pub open spec fn sum_i64(s: Seq<i64>) -> int
    decreases s.len(),
{
    if s.len() == 0 {
        0
    } else {
        sum_i64(s.drop_last()) + s.last()
    }
}

/// The least element of a sequence, `None` when it is empty.
pub open spec fn min_i64(s: Seq<i64>) -> Option<i64>
    decreases s.len(),
{
    if s.len() == 0 {
        None
    } else {
        match min_i64(s.drop_last()) {
            Some(m) => Some(if s.last() < m { s.last() } else { m }),
            None => Some(s.last()),
        }
    }
}

/// The greatest element of a sequence, `None` when it is empty.
pub open spec fn max_i64(s: Seq<i64>) -> Option<i64>
    decreases s.len(),
{
    if s.len() == 0 {
        None
    } else {
        match max_i64(s.drop_last()) {
            Some(m) => Some(if s.last() > m { s.last() } else { m }),
            None => Some(s.last()),
        }
    }
}

pub open spec fn min_i32(s: Seq<i32>) -> Option<i32>
    decreases s.len(),
{
    if s.len() == 0 {
        None
    } else {
        match min_i32(s.drop_last()) {
            Some(m) => Some(if s.last() < m { s.last() } else { m }),
            None => Some(s.last()),
        }
    }
}

pub open spec fn max_i32(s: Seq<i32>) -> Option<i32>
    decreases s.len(),
{
    if s.len() == 0 {
        None
    } else {
        match max_i32(s.drop_last()) {
            Some(m) => Some(if s.last() > m { s.last() } else { m }),
            None => Some(s.last()),
        }
    }
}

/// The mean of a sequence as sum and count, `None` when it is empty.
pub open spec fn mean_spec(s: Seq<i64>) -> Option<(int, nat)> {
    if s.len() == 0 {
        None
    } else {
        Some((sum_i64(s), s.len()))
    }
}

/// How many consecutive snapshot pairs drop by at least the blunder margin.
pub open spec fn blunder_count(s: Seq<i32>) -> nat
    decreases s.len(),
{
    if s.len() < 2 {
        0
    } else {
        blunder_count(s.drop_last()) + (if s[s.len() - 2] - s.last() >= BLUNDER_DROP_CP {
            1nat
        } else {
            0nat
        })
    }
}

proof fn lemma_sum_bound(s: Seq<i64>)
    ensures
        -0x8000_0000_0000_0000 * s.len() <= sum_i64(s) <= 0x7fff_ffff_ffff_ffff * s.len(),
    decreases s.len(),
{
    if s.len() > 0 {
        lemma_sum_bound(s.drop_last());
    }
}

fn mean_of(values: &Vec<i64>) -> (mean: Option<Mean>)
    ensures
        match mean {
            Some(m) => mean_spec(values@) == Some((m.total as int, m.count as nat)),
            None => mean_spec(values@) is None,
        },
{
    let n = values.len();
    if n == 0 {
        return None;
    }
    let mut total: i128 = 0;
    let mut i: usize = 0;
    while i < n
        invariant
            n == values@.len(),
            i <= n,
            total == sum_i64(values@.subrange(0, i as int)),
        decreases n - i,
    {
        proof {
            assert(values@.subrange(0, i + 1).drop_last() =~= values@.subrange(0, i as int));
            lemma_sum_bound(values@.subrange(0, i + 1));
            assert(n <= usize::MAX);
        }
        total = total + values[i] as i128;
        i = i + 1;
    }
    proof {
        assert(values@.subrange(0, n as int) =~= values@);
    }
    Some(Mean { total, count: n as u64 })
}

fn min_of_i64(values: &Vec<i64>) -> (m: Option<i64>)
    ensures
        m == min_i64(values@),
{
    let mut best: Option<i64> = None;
    let mut i: usize = 0;
    while i < values.len()
        invariant
            i <= values@.len(),
            best == min_i64(values@.subrange(0, i as int)),
        decreases values.len() - i,
    {
        proof {
            assert(values@.subrange(0, i + 1).drop_last() =~= values@.subrange(0, i as int));
        }
        let v = values[i];
        best = match best {
            Some(b) => Some(if v < b { v } else { b }),
            None => Some(v),
        };
        i = i + 1;
    }
    proof {
        assert(values@.subrange(0, values@.len() as int) =~= values@);
    }
    best
}

fn max_of_i64(values: &Vec<i64>) -> (m: Option<i64>)
    ensures
        m == max_i64(values@),
{
    let mut best: Option<i64> = None;
    let mut i: usize = 0;
    while i < values.len()
        invariant
            i <= values@.len(),
            best == max_i64(values@.subrange(0, i as int)),
        decreases values.len() - i,
    {
        proof {
            assert(values@.subrange(0, i + 1).drop_last() =~= values@.subrange(0, i as int));
        }
        let v = values[i];
        best = match best {
            Some(b) => Some(if v > b { v } else { b }),
            None => Some(v),
        };
        i = i + 1;
    }
    proof {
        assert(values@.subrange(0, values@.len() as int) =~= values@);
    }
    best
}

fn min_of_i32(values: &Vec<i32>) -> (m: Option<i32>)
    ensures
        m == min_i32(values@),
{
    let mut best: Option<i32> = None;
    let mut i: usize = 0;
    while i < values.len()
        invariant
            i <= values@.len(),
            best == min_i32(values@.subrange(0, i as int)),
        decreases values.len() - i,
    {
        proof {
            assert(values@.subrange(0, i + 1).drop_last() =~= values@.subrange(0, i as int));
        }
        let v = values[i];
        best = match best {
            Some(b) => Some(if v < b { v } else { b }),
            None => Some(v),
        };
        i = i + 1;
    }
    proof {
        assert(values@.subrange(0, values@.len() as int) =~= values@);
    }
    best
}

fn max_of_i32(values: &Vec<i32>) -> (m: Option<i32>)
    ensures
        m == max_i32(values@),
{
    let mut best: Option<i32> = None;
    let mut i: usize = 0;
    while i < values.len()
        invariant
            i <= values@.len(),
            best == max_i32(values@.subrange(0, i as int)),
        decreases values.len() - i,
    {
        proof {
            assert(values@.subrange(0, i + 1).drop_last() =~= values@.subrange(0, i as int));
        }
        let v = values[i];
        best = match best {
            Some(b) => Some(if v > b { v } else { b }),
            None => Some(v),
        };
        i = i + 1;
    }
    proof {
        assert(values@.subrange(0, values@.len() as int) =~= values@);
    }
    best
}

proof fn lemma_blunder_count_le(s: Seq<i32>)
    ensures
        blunder_count(s) <= s.len(),
    decreases s.len(),
{
    if s.len() >= 2 {
        lemma_blunder_count_le(s.drop_last());
    }
}

/// Counts the blunders of an eval series: consecutive snapshots whose value
/// drops by at least `BLUNDER_DROP_CP`.
pub fn count_blunders(series: &Vec<i32>) -> (count: u64)
    ensures
        count == blunder_count(series@),
{
    let n = series.len();
    if n < 2 {
        return 0;
    }
    let mut count: u64 = 0;
    let mut i: usize = 1;
    while i < n
        invariant
            n == series@.len(),
            1 <= i <= n,
            count == blunder_count(series@.subrange(0, i as int)),
        decreases n - i,
    {
        proof {
            let prefix = series@.subrange(0, i + 1);
            assert(prefix.drop_last() =~= series@.subrange(0, i as int));
            lemma_blunder_count_le(series@.subrange(0, i as int));
            assert(i <= usize::MAX);
        }
        if series[i - 1] as i64 - series[i] as i64 >= BLUNDER_DROP_CP {
            count = count + 1;
        }
        i = i + 1;
    }
    proof {
        assert(series@.subrange(0, n as int) =~= series@);
    }
    count
}

/// What `build_game_telemetry` flattens a capture into, field by field.
pub open spec fn telemetry_matches(t: GameTelemetry, c: TelemetryCapture, fingerprint: Seq<char>) -> bool {
    &&& t.eval_series_cp@ == c.eval_series_cp@
    &&& match t.avg_depth {
        Some(m) => mean_spec(c.depths@) == Some((m.total as int, m.count as nat)),
        None => mean_spec(c.depths@) is None,
    }
    &&& t.min_depth == min_i64(c.depths@)
    &&& match t.avg_move_time_ms {
        Some(m) => mean_spec(c.move_times_ms@) == Some((m.total as int, m.count as nat)),
        None => mean_spec(c.move_times_ms@) is None,
    }
    &&& t.max_move_time_ms == max_i64(c.move_times_ms@)
    &&& t.end_clock_ms == c.end_clock_ms
    &&& t.book_plies == c.book_plies
    &&& t.engine_restarts == c.engine_restarts
    &&& t.submission_retries == c.submission_retries
    &&& t.stream_reconnects == c.stream_reconnects
    &&& t.failure_resign == c.failure_resign
    &&& t.max_eval_cp == max_i32(c.eval_series_cp@)
    &&& t.min_eval_cp == min_i32(c.eval_series_cp@)
    &&& t.blunders == blunder_count(c.eval_series_cp@)
    &&& t.config_fingerprint matches Some(f) && f@ == fingerprint
}

/// Flattens the per-game counters into the persisted telemetry record.
pub fn build_game_telemetry(capture: &TelemetryCapture, config_fingerprint: String) -> (t: GameTelemetry)
    ensures
        telemetry_matches(t, *capture, config_fingerprint@),
{
    let mut series: Vec<i32> = Vec::new();
    let mut i: usize = 0;
    while i < capture.eval_series_cp.len()
        invariant
            i <= capture.eval_series_cp@.len(),
            series@ == capture.eval_series_cp@.subrange(0, i as int),
        decreases capture.eval_series_cp.len() - i,
    {
        series.push(capture.eval_series_cp[i]);
        proof {
            assert(capture.eval_series_cp@.subrange(0, i + 1) =~= capture.eval_series_cp@.subrange(
                0,
                i as int,
            ).push(capture.eval_series_cp@[i as int]));
        }
        i = i + 1;
    }
    proof {
        assert(capture.eval_series_cp@.subrange(0, capture.eval_series_cp@.len() as int)
            =~= capture.eval_series_cp@);
    }
    let blunders = count_blunders(&capture.eval_series_cp);
    GameTelemetry {
        eval_series_cp: series,
        avg_depth: mean_of(&capture.depths),
        min_depth: min_of_i64(&capture.depths),
        avg_move_time_ms: mean_of(&capture.move_times_ms),
        max_move_time_ms: max_of_i64(&capture.move_times_ms),
        end_clock_ms: capture.end_clock_ms,
        book_plies: capture.book_plies,
        engine_restarts: capture.engine_restarts,
        submission_retries: capture.submission_retries,
        stream_reconnects: capture.stream_reconnects,
        failure_resign: capture.failure_resign,
        max_eval_cp: max_of_i32(&capture.eval_series_cp),
        min_eval_cp: min_of_i32(&capture.eval_series_cp),
        blunders,
        config_fingerprint: Some(config_fingerprint),
    }
}

pub const FNV_OFFSET_BASIS: u64 = 0xcbf2_9ce4_8422_2325;

pub const FNV_PRIME: u64 = 0x0000_0100_0000_01b3;

/// FNV-1a over a byte string: start from the offset basis and, for each
/// byte, xor it in and multiply by the prime modulo 2^64.
pub open spec fn fnv1a(bytes: Seq<u8>) -> u64
    decreases bytes.len(),
{
    if bytes.len() == 0 {
        FNV_OFFSET_BASIS
    } else {
        (fnv1a(bytes.drop_last()) ^ (bytes.last() as u64)).wrapping_mul(FNV_PRIME)
    }
}

/// Deterministic FNV-1a over the UTF-8 bytes of a string.
pub fn fnv1a_64(input: &str) -> (hash: u64)
    ensures
        hash == fnv1a(encode_utf8(input@)),
{
    let bytes = input.as_bytes();
    let mut hash: u64 = FNV_OFFSET_BASIS;
    let mut i: usize = 0;
    while i < bytes.len()
        invariant
            bytes@ == input.spec_bytes(),
            i <= bytes@.len(),
            hash == fnv1a(bytes@.subrange(0, i as int)),
        decreases bytes.len() - i,
    {
        proof {
            assert(bytes@.subrange(0, i + 1).drop_last() =~= bytes@.subrange(0, i as int));
        }
        hash = (hash ^ (bytes[i] as u64)).wrapping_mul(FNV_PRIME);
        i = i + 1;
    }
    proof {
        assert(bytes@.subrange(0, bytes@.len() as int) =~= bytes@);
    }
    hash
}

/// 16 to the power `k`.
pub open spec fn pow16(k: nat) -> nat
    decreases k,
{
    if k == 0 {
        1
    } else {
        16 * pow16((k - 1) as nat)
    }
}

/// The 16 lowercase hexadecimal digits of a 64-bit value, most significant
/// first.
pub open spec fn hex16(n: u64) -> Seq<char> {
    Seq::new(16, |i: int| hex_digit(((n as nat / pow16((15 - i) as nat)) % 16) as int))
}

proof fn lemma_pow16_positive(k: nat)
    ensures
        pow16(k) >= 1,
    decreases k,
{
    if k > 0 {
        lemma_pow16_positive((k - 1) as nat);
    }
}

proof fn lemma_div_step(n: nat, k: nat)
    ensures
        (n / pow16(k)) / 16 == n / pow16(k + 1),
{
    lemma_pow16_positive(k);
    assert(pow16(k + 1) == 16 * pow16(k));
    vstd::arithmetic::div_mod::lemma_div_denominator(n as int, pow16(k) as int, 16);
    assert(pow16(k) as int * 16 == pow16(k + 1)) by (nonlinear_arith)
        requires
            pow16(k + 1) == 16 * pow16(k),
    ;
}

fn nibble(d: u64) -> (c: char)
    requires
        d < 16,
    ensures
        c == hex_digit(d as int),
{
    if d < 10 {
        (d as u8 + 48) as char
    } else {
        (d as u8 - 10 + 97) as char
    }
}

/// The zero-padded 16-digit lowercase hexadecimal of a 64-bit value.
pub fn hex16_text(n: u64) -> (text: Vec<char>)
    ensures
        text@ == hex16(n),
{
    let mut digits: Vec<char> = Vec::new();
    let mut k: usize = 0;
    let mut rest: u64 = n;
    proof {
        assert(pow16(0) == 1);
        assert(n as nat / 1 == n as nat);
    }
    while k < 16
        invariant
            k <= 16,
            rest == n as nat / pow16(k as nat),
            digits@.len() == k,
            forall|j: int| 0 <= j < k ==> #[trigger] digits@[j] == hex_digit(
                ((n as nat / pow16(j as nat)) % 16) as int,
            ),
        decreases 16 - k,
    {
        digits.push(nibble(rest % 16));
        proof {
            lemma_div_step(n as nat, k as nat);
        }
        rest = rest / 16;
        k = k + 1;
    }
    let mut text: Vec<char> = Vec::new();
    let mut j: usize = 0;
    while j < 16
        invariant
            j <= 16,
            digits@.len() == 16,
            forall|m: int| 0 <= m < 16 ==> #[trigger] digits@[m] == hex_digit(
                ((n as nat / pow16(m as nat)) % 16) as int,
            ),
            text@.len() == j,
            forall|m: int| 0 <= m < j ==> #[trigger] text@[m] == hex16(n)[m],
        decreases 16 - j,
    {
        text.push(digits[15 - j]);
        j = j + 1;
    }
    proof {
        assert(text@ =~= hex16(n));
    }
    text
}

/// An engine setup as far as its fingerprint is concerned.
pub struct EngineSetup {
    pub id: String,
    /// UCI options by name, with the value set (if any).
    pub options: Vec<(String, Option<String>)>,
    pub opening_book: Option<BookSetup>,
}

/// The opening-book configuration of an engine.
pub struct BookSetup {
    pub path: String,
    pub enabled: bool,
    pub max_plies: u32,
    pub top_move_percent: u32,
}

pub open spec fn bool_text(b: bool) -> Seq<char> {
    if b {
        "true"@
    } else {
        "false"@
    }
}

/// The `name=value` lines of the options that have a value, in order.
pub open spec fn option_lines(options: Seq<(String, Option<String>)>) -> Seq<Seq<char>>
    decreases options.len(),
{
    if options.len() == 0 {
        Seq::empty()
    } else {
        let prev = option_lines(options.drop_last());
        match options.last().1 {
            Some(v) => prev.push(options.last().0@ + "="@ + v@),
            None => prev,
        }
    }
}

pub open spec fn book_line(book: Option<BookSetup>) -> Seq<char> {
    match book {
        Some(b) => "book="@ + b.path@ + "|enabled="@ + bool_text(b.enabled) + "|maxPlies="@ + decimal(
            b.max_plies as nat,
        ) + "|percent="@ + decimal(b.top_move_percent as nat),
        None => "book=none"@,
    }
}

/// The canonical text of an engine setup: its id, its valued options in
/// sorted order, and its opening book.
pub open spec fn canonical_setup(e: EngineSetup) -> Seq<char> {
    "engine="@ + e.id@ + "\n"@ + joined(option_lines(e.options@).sort_by(lex_le_fn()), "\n"@) + "\n"@
        + book_line(e.opening_book)
}

/// The fingerprint of an engine setup: the first 12 hexadecimal digits of
/// the FNV-1a hash of its canonical UTF-8 text.
pub open spec fn setup_fingerprint(e: EngineSetup) -> Seq<char> {
    hex16(fnv1a(encode_utf8(canonical_setup(e)))).subrange(0, 12)
}

/// Stable 12-hex-digit fingerprint of an engine setup; games played under
/// the same fingerprint form one cohort.
pub fn config_fingerprint(engine: &EngineSetup) -> (fingerprint: String)
    ensures
        fingerprint@ == setup_fingerprint(*engine),
        fingerprint@.len() == 12,
{
    let mut lines: Vec<String> = Vec::new();
    let mut i: usize = 0;
    while i < engine.options.len()
        invariant
            i <= engine.options@.len(),
            views(lines@) == option_lines(engine.options@.subrange(0, i as int)),
        decreases engine.options.len() - i,
    {
        proof {
            assert(engine.options@.subrange(0, i + 1).drop_last() =~= engine.options@.subrange(
                0,
                i as int,
            ));
            assert(engine.options@.subrange(0, i + 1).last() == engine.options@[i as int]);
        }
        match &engine.options[i].1 {
            Some(v) => {
                let ghost before = views(lines@);
                let mut line = engine.options[i].0.clone();
                push_str(&mut line, "=");
                push_str(&mut line, v.as_str());
                lines.push(line);
                proof {
                    assert(views(lines@) =~= before.push(
                        engine.options@[i as int].0@ + "="@ + v@,
                    ));
                }
            },
            None => {},
        }
        i = i + 1;
    }
    proof {
        assert(engine.options@.subrange(0, engine.options@.len() as int) =~= engine.options@);
    }
    let sorted = sort_strings(&lines);
    let mut canonical = String::from_str("engine=");
    push_str(&mut canonical, engine.id.as_str());
    push_str(&mut canonical, "\n");
    let joined_options = join_strings(&sorted, "\n");
    push_str(&mut canonical, joined_options.as_str());
    push_str(&mut canonical, "\n");
    match &engine.opening_book {
        Some(b) => {
            push_str(&mut canonical, "book=");
            push_str(&mut canonical, b.path.as_str());
            push_str(&mut canonical, "|enabled=");
            push_str(&mut canonical, if b.enabled { "true" } else { "false" });
            push_str(&mut canonical, "|maxPlies=");
            let plies = u64_text(b.max_plies as u64);
            push_str(&mut canonical, plies.as_str());
            push_str(&mut canonical, "|percent=");
            let percent = u64_text(b.top_move_percent as u64);
            push_str(&mut canonical, percent.as_str());
        },
        None => push_str(&mut canonical, "book=none"),
    }
    let hash = fnv1a_64(canonical.as_str());
    let hex = hex16_text(hash);
    let mut fingerprint = String::new();
    let mut k: usize = 0;
    while k < 12
        invariant
            k <= 12,
            hex@.len() == 16,
            fingerprint@ == hex@.subrange(0, k as int),
        decreases 12 - k,
    {
        push_char(&mut fingerprint, hex[k]);
        proof {
            assert(hex@.subrange(0, k + 1) =~= hex@.subrange(0, k as int).push(hex@[k as int]));
        }
        k = k + 1;
    }
    proof {
        assert(canonical@ =~= canonical_setup(*engine));
    }
    fingerprint
}

} // verus!
