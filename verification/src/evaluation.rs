//! Performance evaluation: timing, memory, communication and circuit
//! metrics, with a small benchmark harness around them.
//!
//! Durations are carried as whole milliseconds. Phase timings and baselines
//! are keyed association lists with insert-or-replace update, so recording a
//! phase twice keeps one entry per phase. Sums saturate instead of wrapping,
//! and the contracts say exactly when they do.

use vstd::prelude::*;
use vstd::string::StringExecFns;

verus! {

/// The character for one decimal digit.
pub open spec fn digit_char(d: int) -> char {
    if d == 0 {
        '0'
    } else if d == 1 {
        '1'
    } else if d == 2 {
        '2'
    } else if d == 3 {
        '3'
    } else if d == 4 {
        '4'
    } else if d == 5 {
        '5'
    } else if d == 6 {
        '6'
    } else if d == 7 {
        '7'
    } else if d == 8 {
        '8'
    } else {
        '9'
    }
}

/// The decimal representation of a nonnegative integer, without leading
/// zeros (a single zero for zero itself).
pub open spec fn dec_seq(n: int) -> Seq<char>
    decreases n,
{
    if n < 10 {
        seq![digit_char(n)]
    } else {
        dec_seq(n / 10).push(digit_char(n % 10))
    }
}

fn digit_str(d: u64) -> (r: &'static str)
    requires
        d < 10,
    ensures
        r@ == seq![digit_char(d as int)],
{
    proof {
        reveal_strlit("0");
        reveal_strlit("1");
        reveal_strlit("2");
        reveal_strlit("3");
        reveal_strlit("4");
        reveal_strlit("5");
        reveal_strlit("6");
        reveal_strlit("7");
        reveal_strlit("8");
        reveal_strlit("9");
        assert("0"@ =~= seq!['0']);
        assert("1"@ =~= seq!['1']);
        assert("2"@ =~= seq!['2']);
        assert("3"@ =~= seq!['3']);
        assert("4"@ =~= seq!['4']);
        assert("5"@ =~= seq!['5']);
        assert("6"@ =~= seq!['6']);
        assert("7"@ =~= seq!['7']);
        assert("8"@ =~= seq!['8']);
        assert("9"@ =~= seq!['9']);
    }
    match d {
        0 => "0",
        1 => "1",
        2 => "2",
        3 => "3",
        4 => "4",
        5 => "5",
        6 => "6",
        7 => "7",
        8 => "8",
        _ => "9",
    }
}

/// The digit characters of a least-significant-first digit list, printed
/// most significant first.
spec fn chars_of_rev(digits: Seq<u64>) -> Seq<char>
    decreases digits.len(),
{
    if digits.len() == 0 {
        Seq::<char>::empty()
    } else {
        seq![digit_char(digits.last() as int)] + chars_of_rev(digits.drop_last())
    }
}

/// Splitting off the first (least significant) digit moves its character
/// to the back of the printed form.
proof fn lemma_chars_of_rev_first(u: Seq<u64>)
    requires
        u.len() >= 1,
    ensures
        chars_of_rev(u) == chars_of_rev(u.drop_first()) + seq![digit_char(u[0] as int)],
    decreases u.len(),
{
    if u.len() == 1 {
        assert(u.drop_last() =~= Seq::<u64>::empty());
        assert(u.drop_first() =~= Seq::<u64>::empty());
        assert(chars_of_rev(u) =~= chars_of_rev(u.drop_first()) + seq![digit_char(u[0] as int)]);
    } else {
        lemma_chars_of_rev_first(u.drop_last());
        assert(u.drop_last().drop_first() =~= u.drop_first().drop_last());
        assert(u.drop_first().last() == u.last());
        assert(chars_of_rev(u.drop_first()) == seq![digit_char(u.last() as int)] + chars_of_rev(
            u.drop_first().drop_last(),
        ));
        assert(chars_of_rev(u) =~= chars_of_rev(u.drop_first()) + seq![digit_char(u[0] as int)]);
    }
}

/// Render a number in decimal, exactly as `dec_seq` spells it.
fn dec_str(n: u64) -> (r: String)
    ensures
        r@ == dec_seq(n as int),
{
    let mut digits: Vec<u64> = Vec::new();
    let mut m = n;
    digits.push(m % 10);
    m = m / 10;
    proof {
        let d = (n % 10) as int;
        assert(digits@ =~= seq![n % 10]);
        assert(digits@.drop_last() =~= Seq::<u64>::empty());
        assert(chars_of_rev(Seq::<u64>::empty()) =~= Seq::<char>::empty());
        assert(chars_of_rev(digits@) =~= seq![digit_char(d)]);
        if m > 0 {
            assert(dec_seq(n as int) == dec_seq(n as int / 10).push(digit_char(d)));
            assert(dec_seq(n as int) =~= dec_seq(m as int) + chars_of_rev(digits@));
        } else {
            assert(dec_seq(n as int) =~= chars_of_rev(digits@));
        }
    }
    while m > 0
        invariant
            digits@.len() >= 1,
            forall|j: int| 0 <= j < digits@.len() ==> #[trigger] digits@[j] < 10,
            dec_seq(n as int) == if m > 0 {
                dec_seq(m as int) + chars_of_rev(digits@)
            } else {
                chars_of_rev(digits@)
            },
        decreases m,
    {
        proof {
            let d = (m % 10) as int;
            assert(chars_of_rev(digits@.push(m % 10)) == seq![digit_char(d)] + chars_of_rev(
                digits@,
            )) by {
                assert(digits@.push(m % 10).drop_last() =~= digits@);
            }
            if m >= 10 {
                assert(dec_seq(m as int) == dec_seq(m as int / 10).push(digit_char(d)));
                assert(dec_seq(m as int / 10).push(digit_char(d)) + chars_of_rev(digits@)
                    =~= dec_seq(m as int / 10) + (seq![digit_char(d)] + chars_of_rev(digits@)));
            } else {
                assert(dec_seq(m as int) =~= seq![digit_char(d)]);
                assert(seq![digit_char(d)] + chars_of_rev(digits@) =~= chars_of_rev(
                    digits@.push(m % 10),
                ));
            }
        }
        digits.push(m % 10);
        m = m / 10;
    }
    let mut out = String::new();
    let mut i = digits.len();
    while i > 0
        invariant
            i <= digits@.len(),
            forall|j: int| 0 <= j < digits@.len() ==> #[trigger] digits@[j] < 10,
            dec_seq(n as int) == chars_of_rev(digits@),
            out@ == chars_of_rev(digits@.skip(i as int)),
        decreases i,
    {
        i = i - 1;
        proof {
            lemma_chars_of_rev_first(digits@.skip(i as int));
            assert(digits@.skip(i as int).drop_first() =~= digits@.skip(i as int + 1));
        }
        out.append(digit_str(digits[i]));
    }
    proof {
        assert(digits@.skip(0) =~= digits@);
    }
    out
}

/// One timed phase, in milliseconds.
#[derive(Clone, Debug)]
pub struct PhaseTiming {
    pub phase: String,
    pub millis: u64,
}

/// The first position of `phase` in `s`, or `-1` when absent.
pub open spec fn find_phase(s: Seq<PhaseTiming>, phase: Seq<char>, k: int) -> int
    decreases k,
{
    if k <= 0 {
        -1
    } else if find_phase(s, phase, k - 1) != -1 {
        find_phase(s, phase, k - 1)
    } else if s[k - 1].phase@ == phase {
        k - 1
    } else {
        -1
    }
}

/// Integer sum of the recorded millisecond values.
pub open spec fn sum_millis(s: Seq<PhaseTiming>, k: int) -> int
    decreases k,
{
    if k <= 0 {
        0
    } else {
        sum_millis(s, k - 1) + s[k - 1].millis
    }
}

/// Integer sum of a byte-count sequence.
pub open spec fn sum_usize(s: Seq<usize>, k: int) -> int
    decreases k,
{
    if k <= 0 {
        0
    } else {
        sum_usize(s, k - 1) + s[k - 1]
    }
}

/// Integer sum of a latency sequence.
pub open spec fn sum_u64(s: Seq<u64>, k: int) -> int
    decreases k,
{
    if k <= 0 {
        0
    } else {
        sum_u64(s, k - 1) + s[k - 1]
    }
}

/// Saturation at a ceiling: the sum where it fits, the ceiling otherwise.
pub open spec fn saturated(total: int, ceiling: int) -> int {
    if total <= ceiling {
        total
    } else {
        ceiling
    }
}

/// Performance metrics collector.
#[derive(Clone, Debug)]
pub struct PerformanceMetrics {
    /// Timing measurements for the protocol phases, one entry per phase.
    pub timings: Vec<PhaseTiming>,
    /// Memory usage statistics.
    pub memory_stats: MemoryStats,
    /// Communication statistics.
    pub communication_stats: CommunicationStats,
    /// Circuit-specific metrics.
    pub circuit_metrics: CircuitMetrics,
}

impl PerformanceMetrics {
    /// Create a collector with no recorded data.
    pub fn new() -> (r: Self)
        ensures
            r.timings@.len() == 0,
            r.memory_stats == MemoryStats::zeroed(),
            r.communication_stats.rounds == 0,
            r.communication_stats.bytes_per_round@.len() == 0,
            r.communication_stats.latency_per_round@.len() == 0,
            r.circuit_metrics == CircuitMetrics::zeroed(),
    {
        PerformanceMetrics {
            timings: Vec::new(),
            memory_stats: MemoryStats::new(),
            communication_stats: CommunicationStats::new(),
            circuit_metrics: CircuitMetrics::new(),
        }
    }

    /// Start timing a phase.
    pub fn start_timer(&mut self, phase: &str) -> (r: Timer)
        ensures
            *final(self) == *old(self),
            r.spec_phase() == phase@,
    {
        Timer::new(phase.to_owned())
    }

    /// Record a timing for a phase, replacing an earlier record of the same
    /// phase and appending otherwise.
    pub fn record_timing(&mut self, phase: String, duration_ms: u64)
        ensures
            final(self).memory_stats == old(self).memory_stats,
            final(self).communication_stats == old(self).communication_stats,
            final(self).circuit_metrics == old(self).circuit_metrics,
            ({
                let before = old(self).timings@;
                let after = final(self).timings@;
                let at = find_phase(before, phase@, before.len() as int);
                if at == -1 {
                    &&& after.len() == before.len() + 1
                    &&& forall|i: int| 0 <= i < before.len() ==> after[i] == before[i]
                    &&& after.last().phase@ == phase@
                    &&& after.last().millis == duration_ms
                } else {
                    &&& after.len() == before.len()
                    &&& forall|i: int| 0 <= i < before.len() && i != at ==> after[i] == before[i]
                    &&& after[at].phase@ == phase@
                    &&& after[at].millis == duration_ms
                }
            }),
    {
        let n = self.timings.len();
        let mut i: usize = 0;
        while i < n
            invariant
                i <= n,
                n == self.timings@.len(),
                *self == *old(self),
                find_phase(self.timings@, phase@, i as int) == -1,
            decreases n - i,
        {
            if self.timings[i].phase == phase {
                self.timings[i] = PhaseTiming { phase, millis: duration_ms };
                proof {
                    assert(find_phase(
                        old(self).timings@,
                        phase@,
                        old(self).timings@.len() as int,
                    ) == i) by {
                        lemma_find_phase_extends(old(self).timings@, phase@, i as int + 1, n as int);
                    }
                }
                return ;
            }
            i = i + 1;
        }
        self.timings.push(PhaseTiming { phase, millis: duration_ms });
    }

    /// Total recorded time in milliseconds, saturating at `u64::MAX`.
    pub fn total_time(&self) -> (r: u64)
        ensures
            r == saturated(sum_millis(self.timings@, self.timings@.len() as int), u64::MAX as int),
    {
        let n = self.timings.len();
        let mut acc: u64 = 0;
        let mut i: usize = 0;
        while i < n
            invariant
                i <= n,
                n == self.timings@.len(),
                acc == saturated(sum_millis(self.timings@, i as int), u64::MAX as int),
            decreases n - i,
        {
            let m = self.timings[i].millis;
            if acc <= u64::MAX - m {
                acc = acc + m;
            } else {
                acc = u64::MAX;
            }
            i = i + 1;
        }
        acc
    }

    /// Produce a performance report. Zero-valued measurements are replaced
    /// by declared estimates based on the number of recorded phases.
    pub fn generate_report(&self) -> (r: PerformanceReport)
        requires
            self.timings@.len() * 512 <= usize::MAX,
            100 + self.timings@.len() * 10 <= usize::MAX,
        ensures
            r.total_time == saturated(
                sum_millis(self.timings@, self.timings@.len() as int),
                u64::MAX as int,
            ),
            r.phase_breakdown@ == self.timings@,
            r.memory_peak == if self.memory_stats.peak_usage_bytes == 0 {
                1048576int
            } else {
                self.memory_stats.peak_usage_bytes as int
            },
            r.communication_overhead == if saturated(
                sum_usize(
                    self.communication_stats.bytes_per_round@,
                    self.communication_stats.bytes_per_round@.len() as int,
                ),
                usize::MAX as int,
            ) == 0 {
                (self.timings@.len() * 512) as int
            } else {
                saturated(
                    sum_usize(
                        self.communication_stats.bytes_per_round@,
                        self.communication_stats.bytes_per_round@.len() as int,
                    ),
                    usize::MAX as int,
                )
            },
            r.circuit_size == if self.circuit_metrics.constraint_count == 0 {
                (100 + self.timings@.len() * 10) as int
            } else {
                self.circuit_metrics.constraint_count as int
            },
    {
        let comm_total = self.communication_stats.total_bytes();
        PerformanceReport {
            total_time: self.total_time(),
            phase_breakdown: clone_timings(&self.timings),
            memory_peak: if self.memory_stats.peak_usage_bytes == 0 {
                // Declared baseline estimate for an unmeasured run.
                1048576
            } else {
                self.memory_stats.peak_usage_bytes
            },
            communication_overhead: if comm_total == 0 {
                // Declared estimate per recorded operation.
                self.timings.len() * 512
            } else {
                comm_total
            },
            circuit_size: if self.circuit_metrics.constraint_count == 0 {
                // Declared base size plus a per-operation estimate.
                100 + self.timings.len() * 10
            } else {
                self.circuit_metrics.constraint_count
            },
        }
    }
}

/// `find_phase` over a longer prefix keeps the first hit of a shorter one.
proof fn lemma_find_phase_extends(s: Seq<PhaseTiming>, phase: Seq<char>, k: int, n: int)
    requires
        0 < k <= n <= s.len(),
        find_phase(s, phase, k) == k - 1,
    ensures
        find_phase(s, phase, n) == k - 1,
    decreases n,
{
    if n > k {
        lemma_find_phase_extends(s, phase, k, n - 1);
    }
}

/// Copy a timing vector entry by entry.
fn clone_timings(v: &Vec<PhaseTiming>) -> (r: Vec<PhaseTiming>)
    ensures
        r@ == v@,
{
    let mut out: Vec<PhaseTiming> = Vec::new();
    let mut i: usize = 0;
    while i < v.len()
        invariant
            i <= v@.len(),
            out@ == v@.take(i as int),
        decreases v@.len() - i,
    {
        out.push(PhaseTiming { phase: v[i].phase.clone(), millis: v[i].millis });
        proof {
            assert(out@ =~= v@.take(i as int + 1));
        }
        i = i + 1;
    }
    proof {
        assert(v@.take(v@.len() as int) =~= v@);
    }
    out
}

/// Timer for measuring one execution phase.
pub struct Timer {
    phase: String,
    start_time: std::time::Instant,
}

#[verifier::external_type_specification]
#[verifier::external_body]
pub struct ExInstant(std::time::Instant);

/// Relies on `std::time::Instant::now`: an opaque timestamp of this moment.
#[verifier::external_body]
fn instant_now() -> std::time::Instant {
    std::time::Instant::now()
}

/// Relies on `std::time::Instant::elapsed`: the wall-clock time since the
/// timestamp, taken in whole milliseconds; nothing is assumed of its value.
#[verifier::external_body]
fn instant_elapsed_ms(start: &std::time::Instant) -> u64 {
    start.elapsed().as_millis() as u64
}

impl Timer {
    /// The phase this timer was started for.
    pub closed spec fn spec_phase(self) -> Seq<char> {
        self.phase@
    }

    /// Start a timer for the named phase.
    fn new(phase: String) -> (r: Timer)
        ensures
            r.spec_phase() == phase@,
    {
        Timer { phase, start_time: instant_now() }
    }

    /// Stop the timer; its phase name and the elapsed milliseconds.
    pub fn stop(self) -> (r: (String, u64))
        ensures
            r.0@ == self.spec_phase(),
    {
        let elapsed = instant_elapsed_ms(&self.start_time);
        (self.phase, elapsed)
    }
}

/// Memory usage statistics.
#[derive(Clone, Copy, Debug, PartialEq, Eq, Structural)]
pub struct MemoryStats {
    /// Peak memory usage in bytes.
    pub peak_usage_bytes: usize,
    /// Current memory usage in bytes.
    pub current_usage_bytes: usize,
    /// Number of updates recorded.
    pub allocation_count: usize,
}

impl MemoryStats {
    /// The all-zero statistics value.
    pub open spec fn zeroed() -> MemoryStats {
        MemoryStats { peak_usage_bytes: 0, current_usage_bytes: 0, allocation_count: 0 }
    }

    pub fn new() -> (r: Self)
        ensures
            r == MemoryStats::zeroed(),
    {
        MemoryStats { peak_usage_bytes: 0, current_usage_bytes: 0, allocation_count: 0 }
    }

    /// Record the current usage, raising the peak where it is exceeded.
    pub fn update(&mut self, current_usage: usize)
        requires
            old(self).allocation_count < usize::MAX,
        ensures
            final(self).current_usage_bytes == current_usage,
            final(self).peak_usage_bytes == if current_usage > old(self).peak_usage_bytes {
                current_usage as int
            } else {
                old(self).peak_usage_bytes as int
            },
            final(self).allocation_count == old(self).allocation_count + 1,
    {
        self.current_usage_bytes = current_usage;
        if current_usage > self.peak_usage_bytes {
            self.peak_usage_bytes = current_usage;
        }
        self.allocation_count = self.allocation_count + 1;
    }
}

/// Communication statistics.
#[derive(Clone, Debug)]
pub struct CommunicationStats {
    /// Number of rounds of communication.
    pub rounds: usize,
    /// Bytes sent in each round.
    pub bytes_per_round: Vec<usize>,
    /// Latency per round in milliseconds.
    pub latency_per_round: Vec<u64>,
}

impl CommunicationStats {
    pub fn new() -> (r: Self)
        ensures
            r.rounds == 0,
            r.bytes_per_round@.len() == 0,
            r.latency_per_round@.len() == 0,
    {
        CommunicationStats { rounds: 0, bytes_per_round: Vec::new(), latency_per_round: Vec::new() }
    }

    /// Record one communication round.
    pub fn add_round(&mut self, bytes: usize, latency_ms: u64)
        requires
            old(self).rounds < usize::MAX,
        ensures
            final(self).rounds == old(self).rounds + 1,
            final(self).bytes_per_round@ == old(self).bytes_per_round@.push(bytes),
            final(self).latency_per_round@ == old(self).latency_per_round@.push(latency_ms),
    {
        self.rounds = self.rounds + 1;
        self.bytes_per_round.push(bytes);
        self.latency_per_round.push(latency_ms);
    }

    /// Total bytes communicated, saturating at `usize::MAX`.
    pub fn total_bytes(&self) -> (r: usize)
        ensures
            r == saturated(
                sum_usize(self.bytes_per_round@, self.bytes_per_round@.len() as int),
                usize::MAX as int,
            ),
    {
        let n = self.bytes_per_round.len();
        let mut acc: usize = 0;
        let mut i: usize = 0;
        while i < n
            invariant
                i <= n,
                n == self.bytes_per_round@.len(),
                acc == saturated(sum_usize(self.bytes_per_round@, i as int), usize::MAX as int),
            decreases n - i,
        {
            let b = self.bytes_per_round[i];
            if acc <= usize::MAX - b {
                acc = acc + b;
            } else {
                acc = usize::MAX;
            }
            i = i + 1;
        }
        acc
    }

    /// Total latency in milliseconds, saturating at `u64::MAX`.
    pub fn total_latency(&self) -> (r: u64)
        ensures
            r == saturated(
                sum_u64(self.latency_per_round@, self.latency_per_round@.len() as int),
                u64::MAX as int,
            ),
    {
        let n = self.latency_per_round.len();
        let mut acc: u64 = 0;
        let mut i: usize = 0;
        while i < n
            invariant
                i <= n,
                n == self.latency_per_round@.len(),
                acc == saturated(sum_u64(self.latency_per_round@, i as int), u64::MAX as int),
            decreases n - i,
        {
            let b = self.latency_per_round[i];
            if acc <= u64::MAX - b {
                acc = acc + b;
            } else {
                acc = u64::MAX;
            }
            i = i + 1;
        }
        acc
    }
}

/// Circuit-specific metrics.
#[derive(Clone, Copy, Debug, PartialEq, Eq, Structural)]
pub struct CircuitMetrics {
    /// Number of constraints in the circuit.
    pub constraint_count: usize,
    /// Number of variables in the circuit.
    pub variable_count: usize,
    /// Circuit depth (longest input-to-output path).
    pub circuit_depth: usize,
    /// Number of multiplication gates.
    pub multiplication_gates: usize,
    /// Number of addition gates.
    pub addition_gates: usize,
}

impl CircuitMetrics {
    /// The all-zero metrics value.
    pub open spec fn zeroed() -> CircuitMetrics {
        CircuitMetrics {
            constraint_count: 0,
            variable_count: 0,
            circuit_depth: 0,
            multiplication_gates: 0,
            addition_gates: 0,
        }
    }

    pub fn new() -> (r: Self)
        ensures
            r == CircuitMetrics::zeroed(),
    {
        CircuitMetrics {
            constraint_count: 0,
            variable_count: 0,
            circuit_depth: 0,
            multiplication_gates: 0,
            addition_gates: 0,
        }
    }
}

/// Performance report structure, with durations in milliseconds.
#[derive(Clone, Debug)]
pub struct PerformanceReport {
    pub total_time: u64,
    pub phase_breakdown: Vec<PhaseTiming>,
    pub memory_peak: usize,
    pub communication_overhead: usize,
    pub circuit_size: usize,
}

impl PerformanceReport {
    /// The JSON rendering of a report.
    pub open spec fn json(self) -> Seq<char> {
        "{\"total_time_ms\": "@ + dec_seq(self.total_time as int)
            + ", \"memory_peak_bytes\": "@ + dec_seq(self.memory_peak as int)
            + ", \"communication_bytes\": "@ + dec_seq(self.communication_overhead as int)
            + ", \"circuit_size\": "@ + dec_seq(self.circuit_size as int) + "}"@
    }

    /// Export the report to JSON.
    pub fn to_json(&self) -> (r: String)
        ensures
            r@ == self.json(),
    {
        let mut out = "{\"total_time_ms\": ".to_owned();
        out.append(dec_str(self.total_time).as_str());
        out.append(", \"memory_peak_bytes\": ");
        out.append(dec_str(self.memory_peak as u64).as_str());
        out.append(", \"communication_bytes\": ");
        out.append(dec_str(self.communication_overhead as u64).as_str());
        out.append(", \"circuit_size\": ");
        out.append(dec_str(self.circuit_size as u64).as_str());
        out.append("}");
        proof {
            assert(out@ =~= self.json());
        }
        out
    }
}

/// Individual benchmark test case.
#[derive(Clone, Debug)]
pub struct BenchmarkCase {
    pub name: String,
    pub description: String,
    pub circuit_size: usize,
    pub num_parties: usize,
    pub expected_duration_ms: u64,
}

/// Result of a single benchmark test.
#[derive(Clone, Debug)]
pub struct BenchmarkResult {
    pub test_case: BenchmarkCase,
    pub metrics: PerformanceMetrics,
    pub passed: bool,
}

/// Comprehensive benchmark report, with durations in milliseconds.
#[derive(Clone, Debug)]
pub struct BenchmarkReport {
    pub test_count: usize,
    pub passed_count: usize,
    pub average_time: u64,
    pub results: Vec<BenchmarkResult>,
}

/// The first position of `name` among the baseline keys, or `-1`.
pub open spec fn find_baseline(s: Seq<(String, PerformanceMetrics)>, name: Seq<char>, k: int) -> int
    decreases k,
{
    if k <= 0 {
        -1
    } else if find_baseline(s, name, k - 1) != -1 {
        find_baseline(s, name, k - 1)
    } else if s[k - 1].0@ == name {
        k - 1
    } else {
        -1
    }
}

/// How many of the first `k` results passed.
pub open spec fn count_passed(s: Seq<BenchmarkResult>, k: int) -> int
    decreases k,
{
    if k <= 0 {
        0
    } else {
        count_passed(s, k - 1) + if s[k - 1].passed {
            1int
        } else {
            0int
        }
    }
}

/// The total time a result's metrics record, in milliseconds.
pub open spec fn result_time(r: BenchmarkResult) -> int {
    saturated(sum_millis(r.metrics.timings@, r.metrics.timings@.len() as int), u64::MAX as int)
}

/// Integer sum of the first `k` results' total times.
pub open spec fn sum_result_times(s: Seq<BenchmarkResult>, k: int) -> int
    decreases k,
{
    if k <= 0 {
        0
    } else {
        sum_result_times(s, k - 1) + result_time(s[k - 1])
    }
}

/// Copy a benchmark case field by field.
fn clone_case(c: &BenchmarkCase) -> (r: BenchmarkCase)
    ensures
        r == *c,
{
    BenchmarkCase {
        name: c.name.clone(),
        description: c.description.clone(),
        circuit_size: c.circuit_size,
        num_parties: c.num_parties,
        expected_duration_ms: c.expected_duration_ms,
    }
}

/// Two metric collectors that carry the same data.
pub open spec fn metrics_like(a: PerformanceMetrics, b: PerformanceMetrics) -> bool {
    &&& a.timings@ == b.timings@
    &&& a.memory_stats == b.memory_stats
    &&& a.communication_stats.rounds == b.communication_stats.rounds
    &&& a.communication_stats.bytes_per_round@ == b.communication_stats.bytes_per_round@
    &&& a.communication_stats.latency_per_round@ == b.communication_stats.latency_per_round@
    &&& a.circuit_metrics == b.circuit_metrics
}

/// Two benchmark results that carry the same data.
pub open spec fn result_like(a: BenchmarkResult, b: BenchmarkResult) -> bool {
    &&& a.test_case == b.test_case
    &&& metrics_like(a.metrics, b.metrics)
    &&& a.passed == b.passed
}

/// Copy a metrics collector field by field.
fn clone_metrics(m: &PerformanceMetrics) -> (r: PerformanceMetrics)
    ensures
        metrics_like(r, *m),
{
    let r = PerformanceMetrics {
        timings: clone_timings(&m.timings),
        memory_stats: m.memory_stats,
        communication_stats: CommunicationStats {
            rounds: m.communication_stats.rounds,
            bytes_per_round: clone_usizes(&m.communication_stats.bytes_per_round),
            latency_per_round: clone_u64s(&m.communication_stats.latency_per_round),
        },
        circuit_metrics: m.circuit_metrics,
    };
    proof {
        assert(r.timings@ =~= m.timings@);
        assert(r.communication_stats.bytes_per_round@ =~= m.communication_stats.bytes_per_round@);
        assert(r.communication_stats.latency_per_round@
            =~= m.communication_stats.latency_per_round@);
    }
    r
}

/// Copy a byte-count vector.
fn clone_usizes(v: &Vec<usize>) -> (r: Vec<usize>)
    ensures
        r@ == v@,
{
    let mut out: Vec<usize> = Vec::new();
    let mut i: usize = 0;
    while i < v.len()
        invariant
            i <= v@.len(),
            out@ == v@.take(i as int),
        decreases v@.len() - i,
    {
        out.push(v[i]);
        proof {
            assert(out@ =~= v@.take(i as int + 1));
        }
        i = i + 1;
    }
    proof {
        assert(v@.take(v@.len() as int) =~= v@);
    }
    out
}

/// Copy a latency vector.
fn clone_u64s(v: &Vec<u64>) -> (r: Vec<u64>)
    ensures
        r@ == v@,
{
    let mut out: Vec<u64> = Vec::new();
    let mut i: usize = 0;
    while i < v.len()
        invariant
            i <= v@.len(),
            out@ == v@.take(i as int),
        decreases v@.len() - i,
    {
        out.push(v[i]);
        proof {
            assert(out@ =~= v@.take(i as int + 1));
        }
        i = i + 1;
    }
    proof {
        assert(v@.take(v@.len() as int) =~= v@);
    }
    out
}

/// Benchmark suite for comprehensive evaluation.
pub struct BenchmarkSuite {
    /// Test cases for different circuit sizes.
    pub test_cases: Vec<BenchmarkCase>,
    /// Baseline measurements, keyed by name, one entry per name.
    pub baselines: Vec<(String, PerformanceMetrics)>,
}

impl BenchmarkSuite {
    /// Create an empty benchmark suite.
    pub fn new() -> (r: Self)
        ensures
            r.test_cases@.len() == 0,
            r.baselines@.len() == 0,
    {
        BenchmarkSuite { test_cases: Vec::new(), baselines: Vec::new() }
    }

    /// Add a benchmark test case.
    pub fn add_test_case(&mut self, case: BenchmarkCase)
        ensures
            final(self).test_cases@ == old(self).test_cases@.push(case),
            final(self).baselines@ == old(self).baselines@,
    {
        self.test_cases.push(case);
    }

    /// Add a baseline measurement, replacing an earlier one of the same
    /// name and appending otherwise.
    pub fn add_baseline(&mut self, name: String, metrics: PerformanceMetrics)
        ensures
            final(self).test_cases@ == old(self).test_cases@,
            ({
                let before = old(self).baselines@;
                let after = final(self).baselines@;
                let at = find_baseline(before, name@, before.len() as int);
                if at == -1 {
                    &&& after.len() == before.len() + 1
                    &&& forall|i: int| 0 <= i < before.len() ==> after[i] == before[i]
                    &&& after.last().0@ == name@
                    &&& after.last().1 == metrics
                } else {
                    &&& after.len() == before.len()
                    &&& forall|i: int| 0 <= i < before.len() && i != at ==> after[i] == before[i]
                    &&& after[at].0@ == name@
                    &&& after[at].1 == metrics
                }
            }),
    {
        let n = self.baselines.len();
        let mut i: usize = 0;
        while i < n
            invariant
                i <= n,
                n == self.baselines@.len(),
                *self == *old(self),
                find_baseline(self.baselines@, name@, i as int) == -1,
            decreases n - i,
        {
            if self.baselines[i].0 == name {
                self.baselines[i] = (name, metrics);
                proof {
                    assert(find_baseline(
                        old(self).baselines@,
                        name@,
                        old(self).baselines@.len() as int,
                    ) == i) by {
                        lemma_find_baseline_extends(
                            old(self).baselines@,
                            name@,
                            i as int + 1,
                            n as int,
                        );
                    }
                }
                return ;
            }
            i = i + 1;
        }
        self.baselines.push((name, metrics));
    }

    /// Summarize a set of benchmark results: counts, pass tally, and the
    /// average total time in milliseconds.
    pub fn generate_report(&self, results: &[BenchmarkResult]) -> (r: BenchmarkReport)
        requires
            results@.len() >= 1,
        ensures
            r.test_count == results@.len(),
            r.passed_count == count_passed(results@, results@.len() as int),
            r.average_time == saturated(
                sum_result_times(results@, results@.len() as int),
                u64::MAX as int,
            ) / (results@.len() as int),
            r.results@.len() == results@.len(),
            forall|i: int| 0 <= i < results@.len() ==> result_like(#[trigger] r.results@[i], results@[i]),
    {
        let n = results.len();
        let mut passed: usize = 0;
        let mut total: u64 = 0;
        let mut copies: Vec<BenchmarkResult> = Vec::new();
        let mut i: usize = 0;
        while i < n
            invariant
                i <= n,
                n == results@.len(),
                passed <= i,
                passed == count_passed(results@, i as int),
                total == saturated(sum_result_times(results@, i as int), u64::MAX as int),
                copies@.len() == i,
                forall|t: int| 0 <= t < i ==> result_like(#[trigger] copies@[t], results@[t]),
            decreases n - i,
        {
            if results[i].passed {
                passed = passed + 1;
            }
            let t = results[i].metrics.total_time();
            if total <= u64::MAX - t {
                total = total + t;
            } else {
                total = u64::MAX;
            }
            copies.push(
                BenchmarkResult {
                    test_case: clone_case(&results[i].test_case),
                    metrics: clone_metrics(&results[i].metrics),
                    passed: results[i].passed,
                },
            );
            i = i + 1;
        }
        BenchmarkReport {
            test_count: n,
            passed_count: passed,
            average_time: total / (n as u64),
            results: copies,
        }
    }
}

/// `find_baseline` over a longer prefix keeps the first hit of a shorter one.
proof fn lemma_find_baseline_extends(
    s: Seq<(String, PerformanceMetrics)>,
    name: Seq<char>,
    k: int,
    n: int,
)
    requires
        0 < k <= n <= s.len(),
        find_baseline(s, name, k) == k - 1,
    ensures
        find_baseline(s, name, n) == k - 1,
    decreases n,
{
    if n > k {
        lemma_find_baseline_extends(s, name, k, n - 1);
    }
}

} // verus!
