//! Transfer speed tests: their limits, their course and their results.
//!
//! Times count nanoseconds from the start of a test; reported durations are milliseconds.

use crate::errors::BenchmarkError;
use crate::floats::{
    lemma_nearest_double_exact, nearest_count, nearest_double, round_to_double, spacing,
};
use crate::text::{trim, trimmed};
use vstd::prelude::*;

verus! {

/// One millisecond in nanoseconds.
pub const MILLISECOND: u64 = 1_000_000;

/// One second in nanoseconds.
pub const SECOND: u64 = 1_000_000_000;

/// The most bytes that one chunk of an upload holds.
pub const UPLOAD_CHUNK_SIZE: u64 = 65536;

/// What a speed test may do.
#[derive(Debug)]
pub struct SpeedTestOptions {
    pub url: String,
    pub duration_ms: Option<u64>,
    pub max_bytes: Option<u64>,
    pub connect_timeout_ms: Option<u64>,
    pub read_idle_timeout_ms: Option<u64>,
}

impl Clone for SpeedTestOptions {
    fn clone(&self) -> (copy: Self)
        ensures
            copy == *self,
    {
        SpeedTestOptions {
            url: self.url.clone(),
            duration_ms: self.duration_ms,
            max_bytes: self.max_bytes,
            connect_timeout_ms: self.connect_timeout_ms,
            read_idle_timeout_ms: self.read_idle_timeout_ms,
        }
    }
}

/// The result of a download test.
#[derive(Debug)]
pub struct DownloadSpeedTestResult {
    pub final_url: String,
    pub status_code: u16,
    pub content_type: Option<String>,
    pub content_length: Option<u64>,
    pub bytes_read: u64,
    pub elapsed_ms: u64,
    pub average_bytes_per_second: u64,
}

impl Clone for DownloadSpeedTestResult {
    fn clone(&self) -> (copy: Self)
        ensures
            copy == *self,
    {
        DownloadSpeedTestResult {
            final_url: self.final_url.clone(),
            status_code: self.status_code,
            content_type: match &self.content_type {
                Some(text) => Some(text.clone()),
                None => None,
            },
            content_length: self.content_length,
            bytes_read: self.bytes_read,
            elapsed_ms: self.elapsed_ms,
            average_bytes_per_second: self.average_bytes_per_second,
        }
    }
}

/// The result of an upload test.
#[derive(Debug)]
pub struct UploadSpeedTestResult {
    pub final_url: String,
    pub status_code: u16,
    pub content_type: Option<String>,
    pub bytes_sent: u64,
    pub elapsed_ms: u64,
    pub average_bytes_per_second: u64,
}

impl Clone for UploadSpeedTestResult {
    fn clone(&self) -> (copy: Self)
        ensures
            copy == *self,
    {
        UploadSpeedTestResult {
            final_url: self.final_url.clone(),
            status_code: self.status_code,
            content_type: match &self.content_type {
                Some(text) => Some(text.clone()),
                None => None,
            },
            bytes_sent: self.bytes_sent,
            elapsed_ms: self.elapsed_ms,
            average_bytes_per_second: self.average_bytes_per_second,
        }
    }
}

/// A failed speed test with the bytes that it had moved before it failed.
#[derive(Debug)]
pub struct SpeedTestFailure {
    pub message: String,
    pub bytes_down: u64,
    pub bytes_up: u64,
    pub elapsed_ms: u64,
}

/// What a failed speed test stands for.
pub struct FailureView {
    pub message: Seq<char>,
    pub bytes_down: int,
    pub bytes_up: int,
    pub elapsed_ms: int,
}

impl View for SpeedTestFailure {
    type V = FailureView;

    open spec fn view(&self) -> FailureView {
        FailureView {
            message: self.message@,
            bytes_down: self.bytes_down as int,
            bytes_up: self.bytes_up as int,
            elapsed_ms: self.elapsed_ms as int,
        }
    }
}

impl SpeedTestFailure {
    /// A failure with the progress that was made.
    pub fn new(message: String, bytes_down: u64, bytes_up: u64, elapsed_ms: u64) -> (failure: Self)
        ensures
            failure == (SpeedTestFailure { message, bytes_down, bytes_up, elapsed_ms }),
    {
        SpeedTestFailure { message, bytes_down, bytes_up, elapsed_ms }
    }
}

/// The value, moved into the range from `low` to `high`.
pub open spec fn clamped(value: int, low: int, high: int) -> int {
    if value < low {
        low
    } else if value > high {
        high
    } else {
        value
    }
}

/// Moves a value into the range from `low` to `high`.
pub fn clamp(value: u64, low: u64, high: u64) -> (result: u64)
    requires
        low <= high,
    ensures
        result == clamped(value as int, low as int, high as int),
{
    if value < low {
        low
    } else if value > high {
        high
    } else {
        value
    }
}

/// The value of an option within limits, or a default within them.
pub open spec fn limited(value: Option<u64>, default: int, low: int, high: int) -> int {
    clamped(
        match value {
            Some(value) => value as int,
            None => default,
        },
        low,
        high,
    )
}

fn limit(value: Option<u64>, default: u64, low: u64, high: u64) -> (result: u64)
    requires
        low <= high,
    ensures
        result == limited(value, default as int, low as int, high as int),
{
    match value {
        Some(value) => clamp(value, low, high),
        None => clamp(default, low, high),
    }
}

impl SpeedTestOptions {
    /// The longest time that a test may take.
    pub open spec fn duration_limit(self) -> int {
        limited(self.duration_ms, 5_000, 1_000, 30_000)
    }

    /// The most bytes that a test may move.
    pub open spec fn byte_limit(self) -> int {
        limited(self.max_bytes, 33_554_432, 1_048_576, 2_147_483_648)
    }

    /// The longest time in which a connection may come about.
    pub open spec fn connect_limit(self) -> int {
        limited(self.connect_timeout_ms, 8_000, 1_000, 30_000)
    }

    /// The longest time in which nothing may arrive.
    pub open spec fn idle_limit(self) -> int {
        limited(self.read_idle_timeout_ms, 3_000, 1_000, 15_000)
    }
}

/// Moves the wishes of a caller into safe limits; an empty address is refused.
pub fn normalize_speed_test_options(options: SpeedTestOptions) -> (result: Result<
    SpeedTestOptions,
    BenchmarkError,
>)
    ensures
        match result {
            Ok(limits) => {
                &&& trimmed(options.url@).len() > 0
                &&& limits.url@ == trimmed(options.url@)
                &&& limits.duration_ms == Some(options.duration_limit() as u64)
                &&& limits.max_bytes == Some(options.byte_limit() as u64)
                &&& limits.connect_timeout_ms == Some(options.connect_limit() as u64)
                &&& limits.read_idle_timeout_ms == Some(options.idle_limit() as u64)
            },
            Err(error) => trimmed(options.url@).len() == 0 && error == BenchmarkError::EmptySpeedUrl,
        },
{
    let url = trim(options.url.as_str());
    if url.as_str().unicode_len() == 0 {
        return Err(BenchmarkError::EmptySpeedUrl);
    }
    Ok(
        SpeedTestOptions {
            url,
            duration_ms: Some(limit(options.duration_ms, 5_000, 1_000, 30_000)),
            max_bytes: Some(limit(options.max_bytes, 33_554_432, 1_048_576, 2_147_483_648)),
            connect_timeout_ms: Some(limit(options.connect_timeout_ms, 8_000, 1_000, 30_000)),
            read_idle_timeout_ms: Some(limit(options.read_idle_timeout_ms, 3_000, 1_000, 15_000)),
        },
    )
}

/// Limits that have been applied once stay as they are.
pub proof fn law_limits_are_stable(options: SpeedTestOptions, limits: SpeedTestOptions)
    requires
        limits.duration_ms == Some(options.duration_limit() as u64),
        limits.max_bytes == Some(options.byte_limit() as u64),
        limits.connect_timeout_ms == Some(options.connect_limit() as u64),
        limits.read_idle_timeout_ms == Some(options.idle_limit() as u64),
    ensures
        limits.duration_limit() == options.duration_limit(),
        limits.byte_limit() == options.byte_limit(),
        limits.connect_limit() == options.connect_limit(),
        limits.idle_limit() == options.idle_limit(),
{
}

/// The bytes per second of a transfer; zero where no time passed. The product of bytes and
/// 1000 stops at the largest 64-bit number.
pub open spec fn average_speed(bytes: int, elapsed_ms: int) -> int {
    if elapsed_ms == 0 {
        0
    } else if bytes * 1000 > u64::MAX {
        u64::MAX as int / elapsed_ms
    } else {
        bytes * 1000 / elapsed_ms
    }
}

/// The bytes per second of a transfer.
pub fn calculate_average_speed(bytes: u64, elapsed_ms: u64) -> (speed: u64)
    ensures
        speed == average_speed(bytes as int, elapsed_ms as int),
{
    if elapsed_ms == 0 {
        return 0;
    }
    let scaled: u64 = if bytes > u64::MAX / 1000 {
        u64::MAX
    } else {
        bytes * 1000
    };
    scaled / elapsed_ms
}

/// The average speed times the time is 1000 times the bytes, up to the rounding of one division;
/// the product of bytes and 1000 stops at the largest 64-bit number.
pub proof fn law_average_is_bytes_over_time(bytes: int, elapsed_ms: int)
    requires
        bytes >= 0,
        elapsed_ms > 0,
    ensures
        average_speed(bytes, elapsed_ms) >= 0,
        average_speed(bytes, elapsed_ms) * elapsed_ms <= 1000 * bytes,
        1000 * bytes <= u64::MAX ==> 1000 * bytes < (average_speed(bytes, elapsed_ms) + 1) * elapsed_ms,
        1000 * bytes > u64::MAX ==> u64::MAX < (average_speed(bytes, elapsed_ms) + 1) * elapsed_ms,
{
    let scaled: int = if bytes * 1000 > u64::MAX {
        u64::MAX as int
    } else {
        bytes * 1000
    };
    let speed = scaled / elapsed_ms;
    assert(speed * elapsed_ms <= scaled < (speed + 1) * elapsed_ms && speed >= 0) by (nonlinear_arith)
        requires
            speed == scaled / elapsed_ms,
            elapsed_ms > 0,
            scaled >= 0,
    ;
}

/// The end of the warm-up of a test of a given length, in milliseconds.
pub open spec fn warmup_end(duration_ms: int) -> int {
    if duration_ms < 8_000 {
        duration_ms / 4
    } else {
        2_000
    }
}

/// The earliest end of a test of a given length, in milliseconds.
pub open spec fn earliest_end(duration_ms: int) -> int {
    if duration_ms < 8_000 {
        duration_ms
    } else {
        8_000
    }
}

/// The end of the warm-up and the earliest end of a test of a given length.
pub fn adaptive_speed_timing(duration_ms: u64) -> (timing: (u64, u64))
    ensures
        timing.0 == warmup_end(duration_ms as int),
        timing.1 == earliest_end(duration_ms as int),
{
    if duration_ms < 8_000 {
        return (duration_ms / 4, duration_ms);
    }
    (2_000, 8_000)
}

/// A test never ends before its warm-up, and its earliest end lies within its length.
pub proof fn law_timing_is_ordered(duration_ms: int)
    requires
        duration_ms >= 0,
    ensures
        0 <= warmup_end(duration_ms) <= earliest_end(duration_ms) <= duration_ms,
        duration_ms >= 8_000 ==> warmup_end(duration_ms) == 2_000 && earliest_end(duration_ms) == 8_000,
        duration_ms < 8_000 ==> 4 * warmup_end(duration_ms) <= duration_ms < 4 * warmup_end(duration_ms) + 4
            && earliest_end(duration_ms) == duration_ms,
{
}

/// The larger of two numbers.
pub open spec fn larger(a: int, b: int) -> int {
    if a >= b {
        a
    } else {
        b
    }
}

/// The smaller of two numbers.
pub open spec fn smaller(a: int, b: int) -> int {
    if a <= b {
        a
    } else {
        b
    }
}

/// The distance between the largest and the smallest of three numbers.
pub open spec fn spread(a: int, b: int, c: int) -> int {
    larger(a, larger(b, c)) - smaller(a, smaller(b, c))
}

/// Whether the quotient of two integers, both turned into doubles first, is at most the
/// double 0.08. That double is 5764607523034235 / 2^56 and its significand is odd, so the
/// quotient rounds to at most it exactly when it lies below the middle between that double
/// and the next larger one, which is 11529215046068471 / 2^57.
pub open spec fn quotient_at_most_eight_percent(dividend: nat, divisor: nat) -> bool {
    nearest_double(dividend) * 0x200_0000_0000_0000 < 11529215046068471 * nearest_double(divisor)
}

/// Whether three samples differ by at most eight percent of their average.
pub open spec fn samples_close(a: int, b: int, c: int) -> bool {
    let average = (a + b + c) / 3;
    a > 0 && b > 0 && c > 0 && quotient_at_most_eight_percent(spread(a, b, c) as nat, average as nat)
}

/// Whether the last three samples exist and are close to each other.
pub open spec fn samples_stable(samples: Seq<u64>) -> bool {
    let n = samples.len();
    n >= 3 && samples_close(samples[n - 3] as int, samples[n - 2] as int, samples[n - 1] as int)
}

/// Whether the last three samples can be added up, as far as they have to be: there are three, and
/// none of them is zero.
pub open spec fn recent_sum_fits(samples: Seq<u64>) -> bool {
    let n = samples.len();
    n >= 3 && samples[n - 3] > 0 && samples[n - 2] > 0 && samples[n - 1] > 0 ==> samples[n - 3] + samples[n - 2]
        + samples[n - 1] <= u64::MAX
}

fn max_of(a: u64, b: u64) -> (result: u64)
    ensures
        result == larger(a as int, b as int),
{
    if a >= b {
        a
    } else {
        b
    }
}

fn min_of(a: u64, b: u64) -> (result: u64)
    ensures
        result == smaller(a as int, b as int),
{
    if a <= b {
        a
    } else {
        b
    }
}

/// Whether the speed has settled: the last three samples are close and none of them is zero.
pub fn recent_speed_samples_stable(samples: &[u64]) -> (stable: bool)
    requires
        recent_sum_fits(samples@),
    ensures
        stable == samples_stable(samples@),
{
    let n: usize = samples.len();
    if n < 3 {
        return false;
    }
    let a: u64 = samples[n - 3];
    let b: u64 = samples[n - 2];
    let c: u64 = samples[n - 1];
    if a == 0 || b == 0 || c == 0 {
        return false;
    }
    let maximum: u64 = max_of(a, max_of(b, c));
    let minimum: u64 = min_of(a, min_of(b, c));
    let average: u64 = (a + b + c) / 3;
    let dividend: u128 = round_to_double(maximum - minimum);
    let divisor: u128 = round_to_double(average);
    dividend * 0x200_0000_0000_0000 < 11529215046068471 * divisor
}

/// Below 2 to the 52nd the test on doubles is exact: three positive samples are close when
/// their distance is at most 8/100 of their average.
pub proof fn law_close_samples_exactly(a: int, b: int, c: int)
    requires
        a > 0,
        b > 0,
        c > 0,
        (a + b + c) / 3 < 0x10_0000_0000_0000,
    ensures
        samples_close(a, b, c) <==> 25 * spread(a, b, c) <= 2 * ((a + b + c) / 3),
{
    let distance = spread(a, b, c);
    let average = (a + b + c) / 3;
    lemma_nearest_double_exact(average as nat);
    assert(a + b + c < 3 * 0x10_0000_0000_0000 + 3);
    if distance < 0x20_0000_0000_0000 {
        lemma_nearest_double_exact(distance as nat);
    } else {
        // Three positive numbers with so small an average lie close enough together.
        assert(larger(a, larger(b, c)) < a + b + c);
        lemma_nearest_double_large(distance as nat);
    }
}

/// Whether the speed has settled depends on the last three samples alone: all of them must be
/// there and positive, and, below 2 to the 52nd, no two of them may differ by more than 8/100 of
/// the average of the three.
pub proof fn law_settled_speeds_are_within_eight_percent(samples: Seq<u64>)
    ensures
        samples.len() < 3 ==> !samples_stable(samples),
        samples.len() >= 3 ==> {
            let n = samples.len();
            let a = samples[n - 3] as int;
            let b = samples[n - 2] as int;
            let c = samples[n - 1] as int;
            let average = (a + b + c) / 3;
            &&& a == 0 || b == 0 || c == 0 ==> !samples_stable(samples)
            &&& a > 0 && b > 0 && c > 0 && average < 0x10_0000_0000_0000 ==> (samples_stable(samples) <==> {
                &&& 25 * (a - b) <= 2 * average
                &&& 25 * (b - a) <= 2 * average
                &&& 25 * (a - c) <= 2 * average
                &&& 25 * (c - a) <= 2 * average
                &&& 25 * (b - c) <= 2 * average
                &&& 25 * (c - b) <= 2 * average
            })
        },
{
    if samples.len() >= 3 {
        let n = samples.len();
        let a = samples[n - 3] as int;
        let b = samples[n - 2] as int;
        let c = samples[n - 1] as int;
        if a > 0 && b > 0 && c > 0 && (a + b + c) / 3 < 0x10_0000_0000_0000 {
            law_close_samples_exactly(a, b, c);
        }
    }
}

/// The wishes of a caller are kept within their limits, and wishes that are within them are
/// granted.
pub proof fn law_wishes_are_granted_within_limits(options: SpeedTestOptions)
    ensures
        1_000 <= options.duration_limit() <= 30_000,
        1_048_576 <= options.byte_limit() <= 2_147_483_648,
        1_000 <= options.connect_limit() <= 30_000,
        1_000 <= options.idle_limit() <= 15_000,
        match options.duration_ms {
            Some(wish) => (1_000 <= wish <= 30_000 ==> options.duration_limit() == wish) && (wish < 1_000
                ==> options.duration_limit() == 1_000) && (wish > 30_000 ==> options.duration_limit()
                == 30_000),
            None => options.duration_limit() == 5_000,
        },
        match options.max_bytes {
            Some(wish) => (1_048_576 <= wish <= 2_147_483_648 ==> options.byte_limit() == wish) && (wish
                < 1_048_576 ==> options.byte_limit() == 1_048_576) && (wish > 2_147_483_648
                ==> options.byte_limit() == 2_147_483_648),
            None => options.byte_limit() == 33_554_432,
        },
        match options.connect_timeout_ms {
            Some(wish) => (1_000 <= wish <= 30_000 ==> options.connect_limit() == wish) && (wish < 1_000
                ==> options.connect_limit() == 1_000) && (wish > 30_000 ==> options.connect_limit() == 30_000),
            None => options.connect_limit() == 8_000,
        },
        match options.read_idle_timeout_ms {
            Some(wish) => (1_000 <= wish <= 15_000 ==> options.idle_limit() == wish) && (wish < 1_000
                ==> options.idle_limit() == 1_000) && (wish > 15_000 ==> options.idle_limit() == 15_000),
            None => options.idle_limit() == 3_000,
        },
{
}

proof fn lemma_spacing_at_least_one(value: nat)
    ensures
        spacing(value) >= 1,
        value >= 0x20_0000_0000_0000 ==> spacing(value) * 0x10_0000_0000_0000 <= value,
    decreases value,
{
    if value >= 0x20_0000_0000_0000 {
        lemma_spacing_at_least_one(value / 2);
        if value / 2 < 0x20_0000_0000_0000 {
            assert(spacing(value / 2) == 1);
        }
    }
}

proof fn lemma_nearest_double_large(value: nat)
    requires
        value >= 0x20_0000_0000_0000,
    ensures
        nearest_double(value) >= 0x10_0000_0000_0000,
{
    lemma_spacing_at_least_one(value);
    let unit = spacing(value);
    let count = value / unit;
    assert(count >= 0x10_0000_0000_0000) by (nonlinear_arith)
        requires
            unit >= 1,
            unit * 0x10_0000_0000_0000 <= value,
            count == value / unit,
    ;
    let rounded = nearest_count(value);
    assert(rounded * unit >= 0x10_0000_0000_0000) by (nonlinear_arith)
        requires
            unit >= 1,
            rounded >= 0x10_0000_0000_0000,
    ;
}

} // verus!
