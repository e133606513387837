//! The course of a download or upload test, one event at a time.
//!
//! The caller performs the requests and reports what happened and when; the tests here
//! decide what to do next and what the outcome is. Times count nanoseconds from the start.

use crate::errors::BenchmarkError;
use crate::speed::{
    DownloadSpeedTestResult, FailureView, MILLISECOND, SECOND, SpeedTestFailure, SpeedTestOptions,
    UPLOAD_CHUNK_SIZE, UploadSpeedTestResult, adaptive_speed_timing, average_speed,
    calculate_average_speed, earliest_end, normalize_speed_test_options,
    law_average_is_bytes_over_time, recent_speed_samples_stable, samples_stable, smaller, warmup_end,
};
use crate::text::trimmed;
use vstd::prelude::*;

verus! {

/// The bytes that a test has moved, with a speed sample for about every second.
#[derive(Debug)]
pub struct SpeedMeter {
    pub bytes: u64,
    pub warmup_bytes: u64,
    pub sampled_bytes: u64,
    pub sampled_at: u64,
    pub samples: Vec<u64>,
}

/// What a meter stands for.
#[verifier::ext_equal]
pub struct MeterView {
    pub bytes: int,
    pub warmup_bytes: int,
    pub sampled_bytes: int,
    pub sampled_at: int,
    pub samples: Seq<u64>,
}

impl View for SpeedMeter {
    type V = MeterView;

    open spec fn view(&self) -> MeterView {
        MeterView {
            bytes: self.bytes as int,
            warmup_bytes: self.warmup_bytes as int,
            sampled_bytes: self.sampled_bytes as int,
            sampled_at: self.sampled_at as int,
            samples: self.samples@,
        }
    }
}

/// Whether samples are small enough to be added up.
pub open spec fn addable(samples: Seq<u64>) -> bool {
    forall|i: int| 0 <= i < samples.len() ==> #[trigger] samples[i] <= u64::MAX / 1000
}

impl MeterView {
    /// A meter that has seen nothing.
    pub open spec fn fresh() -> MeterView {
        MeterView {
            bytes: 0,
            warmup_bytes: 0,
            sampled_bytes: 0,
            sampled_at: 0,
            samples: Seq::empty(),
        }
    }

    /// What was counted earlier is no more than what is counted now, and samples are small
    /// enough to be added up.
    pub open spec fn valid(self) -> bool {
        &&& 0 <= self.warmup_bytes <= self.bytes
        &&& 0 <= self.sampled_bytes <= self.bytes
        &&& addable(self.samples)
    }

    /// The meter after it looked at the clock: the bytes at the end of the warm-up are kept
    /// once, and a second after the last sample a new one is taken.
    pub open spec fn observed(self, now: int, warmup_at: int) -> MeterView {
        let warmup_bytes = if self.warmup_bytes == 0 && now >= warmup_at {
            self.bytes
        } else {
            self.warmup_bytes
        };
        let waited = now - self.sampled_at;
        if waited >= SECOND {
            MeterView {
                bytes: self.bytes,
                warmup_bytes,
                sampled_bytes: self.bytes,
                sampled_at: now,
                samples: self.samples.push(
                    average_speed(self.bytes - self.sampled_bytes, waited / MILLISECOND as int) as u64,
                ),
            }
        } else {
            MeterView { warmup_bytes, ..self }
        }
    }

    /// The meter after some more bytes; the count stops at the largest 64-bit number.
    pub open spec fn counted(self, length: int) -> MeterView {
        MeterView { bytes: smaller(self.bytes + length, u64::MAX as int), ..self }
    }
}

impl SpeedMeter {
    fn fresh() -> (meter: SpeedMeter)
        ensures
            meter@ == MeterView::fresh(),
            meter@.valid(),
    {
        SpeedMeter {
            bytes: 0,
            warmup_bytes: 0,
            sampled_bytes: 0,
            sampled_at: 0,
            samples: Vec::new(),
        }
    }

    fn observe(&mut self, now: u64, warmup_at: u64)
        requires
            old(self)@.valid(),
        ensures
            final(self)@ == old(self)@.observed(now as int, warmup_at as int),
            final(self)@.valid(),
    {
        if self.warmup_bytes == 0 && now >= warmup_at {
            self.warmup_bytes = self.bytes;
        }
        if now >= self.sampled_at && now - self.sampled_at >= SECOND {
            let elapsed: u64 = (now - self.sampled_at) / MILLISECOND;
            let sample: u64 = calculate_average_speed(self.bytes - self.sampled_bytes, elapsed);
            proof {
                lemma_sample_is_small((self.bytes - self.sampled_bytes) as int, elapsed as int);
            }
            self.samples.push(sample);
            self.sampled_bytes = self.bytes;
            self.sampled_at = now;
        }
    }

    fn settled(&self) -> (settled: bool)
        requires
            self@.valid(),
        ensures
            settled == samples_stable(self@.samples),
    {
        proof {
            let samples = self.samples@;
            if samples.len() >= 3 {
                let n = samples.len();
                assert(samples[n - 3] <= u64::MAX / 1000);
                assert(samples[n - 2] <= u64::MAX / 1000);
                assert(samples[n - 1] <= u64::MAX / 1000);
            }
        }
        recent_speed_samples_stable(self.samples.as_slice())
    }
}

proof fn lemma_sample_is_small(bytes: int, elapsed_ms: int)
    requires
        0 <= bytes,
        elapsed_ms >= 1000,
    ensures
        average_speed(bytes, elapsed_ms) <= u64::MAX / 1000,
{
    let scaled: int = if bytes * 1000 > u64::MAX {
        u64::MAX as int
    } else {
        bytes * 1000
    };
    assert(scaled / elapsed_ms <= u64::MAX as int / 1000) by (nonlinear_arith)
        requires
            0 <= scaled <= u64::MAX,
            elapsed_ms >= 1000,
    ;
}

/// What became of a request.
#[derive(Debug)]
pub enum RequestOutcome {
    /// The source answered with a status.
    Answered { status_code: u16, status_text: String },
    /// The request failed.
    Failed { message: String },
    /// No answer came in time.
    TimedOut,
}

/// Whether a status says that a request succeeded.
pub open spec fn succeeded(status_code: u16) -> bool {
    200 <= status_code < 300
}

impl RequestOutcome {
    /// The status of the answer, where there is one.
    pub open spec fn status(self) -> Option<u16> {
        match self {
            RequestOutcome::Answered { status_code, .. } => Some(status_code),
            _ => None,
        }
    }

    /// Why the outcome cannot be used; nothing where the source answered with success.
    pub open spec fn complaint(self, on_timeout: Seq<char>) -> Option<Seq<char>> {
        match self {
            RequestOutcome::Answered { status_code, status_text } => if succeeded(status_code) {
                None
            } else {
                Some("测速源返回异常状态码: "@ + status_text@)
            },
            RequestOutcome::Failed { message } => Some(message@),
            RequestOutcome::TimedOut => Some(on_timeout),
        }
    }

    fn accept(self, on_timeout: &str) -> (answer: Result<u16, String>)
        ensures
            match answer {
                Ok(status_code) => self.complaint(on_timeout@) is None && self.status() == Some(status_code)
                    && succeeded(status_code),
                Err(text) => self.complaint(on_timeout@) == Some(text@),
            },
    {
        match self {
            RequestOutcome::Answered { status_code, status_text } => {
                if 200 <= status_code && status_code < 300 {
                    Ok(status_code)
                } else {
                    Err("测速源返回异常状态码: ".to_owned().concat(status_text.as_str()))
                }
            },
            RequestOutcome::Failed { message } => Err(message),
            RequestOutcome::TimedOut => Err(on_timeout.to_owned()),
        }
    }
}

/// Accepts the first answer to a download request and gives its status, or says how the test
/// failed.
pub fn accept_download_answer(outcome: RequestOutcome, elapsed_ms: u64) -> (result: Result<
    u16,
    SpeedTestFailure,
>)
    ensures
        match result {
            Ok(status_code) => outcome.complaint("测速请求超时"@) is None && outcome.status() == Some(
                status_code,
            ) && succeeded(status_code),
            Err(failure) => outcome.complaint("测速请求超时"@) == Some(failure@.message) && failure@
                == (FailureView {
                message: failure@.message,
                bytes_down: 0,
                bytes_up: 0,
                elapsed_ms: elapsed_ms as int,
            }),
        },
{
    match outcome.accept("测速请求超时") {
        Ok(status_code) => Ok(status_code),
        Err(message) => Err(SpeedTestFailure::new(message, 0, 0, elapsed_ms)),
    }
}

/// What happened to a download.
#[derive(Debug)]
pub enum DownloadEvent {
    /// A piece of the body arrived.
    Chunk { length: u64 },
    /// The body came to its end.
    BodyEnded,
    /// Reading failed.
    ReadFailed { message: String },
    /// Nothing arrived for too long.
    Idle,
    /// The request was sent once more.
    Repeated { outcome: RequestOutcome },
}

/// What to do next in a download.
#[derive(Debug)]
pub enum DownloadAction {
    /// Go on with the body.
    Continue,
    /// Send the request again and wait at most so long, in nanoseconds.
    Repeat { timeout: u64 },
    /// Stop and compute the result.
    Finish,
    /// Stop with a failure that reports what was moved.
    Fail { failure: SpeedTestFailure },
    /// Stop because reading stalled before anything arrived.
    Stalled,
}

/// What a next step of a download stands for.
pub enum DownloadActionView {
    Continue,
    Repeat { timeout: int },
    Finish,
    Fail { failure: FailureView },
    Stalled,
}

impl View for DownloadAction {
    type V = DownloadActionView;

    open spec fn view(&self) -> DownloadActionView {
        match self {
            DownloadAction::Continue => DownloadActionView::Continue,
            DownloadAction::Repeat { timeout } => DownloadActionView::Repeat { timeout: *timeout as int },
            DownloadAction::Finish => DownloadActionView::Finish,
            DownloadAction::Fail { failure } => DownloadActionView::Fail { failure: failure@ },
            DownloadAction::Stalled => DownloadActionView::Stalled,
        }
    }
}

/// The head of an answer to a speed test, apart from its status.
#[derive(Debug)]
pub struct AnswerHead {
    pub final_url: String,
    pub content_type: Option<String>,
    pub content_length: Option<u64>,
}

/// The speed of a test without its warm-up, as far as the test outlasted it.
pub open spec fn effective_speed(bytes: int, warmup_bytes: int, elapsed_ms: int, warmup_ms: int) -> int {
    average_speed(
        if elapsed_ms > warmup_ms && bytes > warmup_bytes {
            bytes - warmup_bytes
        } else {
            bytes
        },
        if elapsed_ms > warmup_ms {
            elapsed_ms - warmup_ms
        } else {
            elapsed_ms
        },
    )
}

fn measure_speed(bytes: u64, warmup_bytes: u64, elapsed_ms: u64, warmup_ms: u64) -> (speed: u64)
    ensures
        speed == effective_speed(
            bytes as int,
            warmup_bytes as int,
            elapsed_ms as int,
            warmup_ms as int,
        ),
{
    let effective_bytes: u64 = if elapsed_ms > warmup_ms && bytes > warmup_bytes {
        bytes - warmup_bytes
    } else {
        bytes
    };
    let effective_elapsed: u64 = if elapsed_ms > warmup_ms {
        elapsed_ms - warmup_ms
    } else {
        elapsed_ms
    };
    calculate_average_speed(effective_bytes, effective_elapsed)
}

/// Where a test outlasts its warm-up and moved bytes after it, its speed times the time after the
/// warm-up is 1000 times the bytes moved after the warm-up, up to the rounding of one division. A
/// test that ends within its warm-up is measured as a whole.
pub proof fn law_speed_is_measured_after_the_warmup(bytes: int, warmup_bytes: int, elapsed_ms: int, warmup_ms: int)
    requires
        0 <= warmup_bytes <= bytes,
        0 <= warmup_ms,
    ensures
        ({
            let speed = effective_speed(bytes, warmup_bytes, elapsed_ms, warmup_ms);
            let moved = bytes - warmup_bytes;
            let time = elapsed_ms - warmup_ms;
            &&& time > 0 && moved > 0 ==> speed * time <= 1000 * moved
            &&& time > 0 && moved > 0 && 1000 * moved <= u64::MAX ==> 1000 * moved < (speed + 1) * time
            &&& 0 < elapsed_ms <= warmup_ms ==> speed * elapsed_ms <= 1000 * bytes
            &&& 0 < elapsed_ms <= warmup_ms && 1000 * bytes <= u64::MAX ==> 1000 * bytes < (speed + 1)
                * elapsed_ms
        }),
{
    if elapsed_ms > warmup_ms {
        if bytes > warmup_bytes {
            law_average_is_bytes_over_time(bytes - warmup_bytes, elapsed_ms - warmup_ms);
        }
    } else if elapsed_ms > 0 {
        law_average_is_bytes_over_time(bytes, elapsed_ms);
    }
}

/// Bytes moved before the end of the warm-up do not count: with the same bytes after it the speed is
/// the same, and more bytes after it never give less.
pub proof fn law_warmup_does_not_count(
    bytes: int,
    warmup_bytes: int,
    other_bytes: int,
    other_warmup_bytes: int,
    elapsed_ms: int,
    warmup_ms: int,
)
    requires
        0 <= warmup_bytes < bytes,
        0 <= other_warmup_bytes < other_bytes,
        0 <= warmup_ms < elapsed_ms,
    ensures
        bytes - warmup_bytes == other_bytes - other_warmup_bytes ==> effective_speed(
            bytes,
            warmup_bytes,
            elapsed_ms,
            warmup_ms,
        ) == effective_speed(other_bytes, other_warmup_bytes, elapsed_ms, warmup_ms),
        bytes - warmup_bytes <= other_bytes - other_warmup_bytes ==> effective_speed(
            bytes,
            warmup_bytes,
            elapsed_ms,
            warmup_ms,
        ) <= effective_speed(other_bytes, other_warmup_bytes, elapsed_ms, warmup_ms),
{
    let time = elapsed_ms - warmup_ms;
    let less: int = smaller((bytes - warmup_bytes) * 1000, u64::MAX as int);
    let more: int = smaller((other_bytes - other_warmup_bytes) * 1000, u64::MAX as int);
    if less <= more {
        assert(less / time <= more / time) by (nonlinear_arith)
            requires
                0 <= less <= more,
                time > 0,
        ;
    }
}

/// A download test in progress.
#[derive(Debug)]
pub struct DownloadTest {
    pub url: String,
    pub duration_ms: u64,
    pub max_bytes: u64,
    pub connect_timeout_ms: u64,
    pub read_idle_timeout_ms: u64,
    pub meter: SpeedMeter,
}

/// What a download test stands for.
#[verifier::ext_equal]
pub struct DownloadView {
    pub url: Seq<char>,
    pub duration_ms: int,
    pub max_bytes: int,
    pub connect_timeout_ms: int,
    pub read_idle_timeout_ms: int,
    pub meter: MeterView,
}

impl View for DownloadTest {
    type V = DownloadView;

    open spec fn view(&self) -> DownloadView {
        DownloadView {
            url: self.url@,
            duration_ms: self.duration_ms as int,
            max_bytes: self.max_bytes as int,
            connect_timeout_ms: self.connect_timeout_ms as int,
            read_idle_timeout_ms: self.read_idle_timeout_ms as int,
            meter: self.meter@,
        }
    }
}

impl DownloadView {
    /// The test that the wishes of a caller lead to.
    pub open spec fn started(options: SpeedTestOptions) -> DownloadView {
        DownloadView {
            url: trimmed(options.url@),
            duration_ms: options.duration_limit(),
            max_bytes: options.byte_limit(),
            connect_timeout_ms: options.connect_limit(),
            read_idle_timeout_ms: options.idle_limit(),
            meter: MeterView::fresh(),
        }
    }

    /// The limits are within their ranges and the meter is valid.
    pub open spec fn valid(self) -> bool {
        &&& 1_000 <= self.duration_ms <= 30_000
        &&& 1_048_576 <= self.max_bytes <= 2_147_483_648
        &&& 1_000 <= self.connect_timeout_ms <= 30_000
        &&& 1_000 <= self.read_idle_timeout_ms <= 15_000
        &&& self.meter.valid()
    }

    /// When the test ends at the latest.
    pub open spec fn deadline(self) -> int {
        self.duration_ms * MILLISECOND
    }

    /// Whether the test reads on.
    pub open spec fn reads_on(self, now: int) -> bool {
        now < self.deadline() && self.meter.bytes < self.max_bytes
    }

    /// The test after an event.
    pub open spec fn after(self, event: DownloadEvent, now: int) -> DownloadView {
        match event {
            DownloadEvent::Chunk { length } => if length == 0 {
                self
            } else {
                DownloadView {
                    meter: self.meter.counted(length as int).observed(
                        now,
                        warmup_end(self.duration_ms) * MILLISECOND,
                    ),
                    ..self
                }
            },
            _ => self,
        }
    }

    /// The failure with the bytes read so far.
    pub open spec fn failure(self, message: Seq<char>, now: int) -> FailureView {
        FailureView {
            message,
            bytes_down: self.meter.bytes,
            bytes_up: 0,
            elapsed_ms: now / MILLISECOND as int,
        }
    }

    /// What to do after an event.
    pub open spec fn decision(self, event: DownloadEvent, now: int) -> DownloadActionView {
        match event {
            DownloadEvent::Chunk { length } => if length > 0 && now >= earliest_end(self.duration_ms)
                * MILLISECOND && samples_stable(self.after(event, now).meter.samples) {
                DownloadActionView::Finish
            } else {
                DownloadActionView::Continue
            },
            DownloadEvent::BodyEnded => if self.reads_on(now) {
                DownloadActionView::Repeat {
                    timeout: smaller(
                        (self.connect_timeout_ms + self.read_idle_timeout_ms) * MILLISECOND,
                        self.deadline() - now,
                    ),
                }
            } else {
                DownloadActionView::Finish
            },
            DownloadEvent::ReadFailed { message } => DownloadActionView::Fail {
                failure: self.failure(message@, now),
            },
            DownloadEvent::Idle => if self.meter.bytes > 0 {
                DownloadActionView::Finish
            } else {
                DownloadActionView::Stalled
            },
            DownloadEvent::Repeated { outcome } => match outcome.complaint("测速请求超时"@) {
                None => DownloadActionView::Continue,
                Some(message) => if self.meter.bytes == 0 {
                    DownloadActionView::Fail { failure: self.failure(message, now) }
                } else {
                    DownloadActionView::Finish
                },
            },
        }
    }
}

impl DownloadTest {
    /// Prepares a test; an empty address is refused.
    pub fn new(options: SpeedTestOptions) -> (result: Result<DownloadTest, BenchmarkError>)
        ensures
            match result {
                Ok(test) => {
                    &&& trimmed(options.url@).len() > 0
                    &&& test@ == DownloadView::started(options)
                    &&& test@.valid()
                },
                Err(error) => trimmed(options.url@).len() == 0 && error
                    == BenchmarkError::EmptySpeedUrl,
            },
    {
        match normalize_speed_test_options(options) {
            Ok(limits) => {
                let duration_ms: u64 = limits.duration_ms.unwrap();
                let max_bytes: u64 = limits.max_bytes.unwrap();
                let connect_timeout_ms: u64 = limits.connect_timeout_ms.unwrap();
                let read_idle_timeout_ms: u64 = limits.read_idle_timeout_ms.unwrap();
                Ok(
                    DownloadTest {
                        url: limits.url,
                        duration_ms,
                        max_bytes,
                        connect_timeout_ms,
                        read_idle_timeout_ms,
                        meter: SpeedMeter::fresh(),
                    },
                )
            },
            Err(error) => Err(error),
        }
    }

    /// Whether the test reads on.
    pub fn reads_on(&self, now: u64) -> (result: bool)
        requires
            self@.valid(),
        ensures
            result == self@.reads_on(now as int),
    {
        now < self.duration_ms * MILLISECOND && self.meter.bytes < self.max_bytes
    }

    /// Takes note of an event and says what to do next.
    pub fn step(&mut self, event: DownloadEvent, now: u64) -> (action: DownloadAction)
        requires
            old(self)@.valid(),
        ensures
            final(self)@ == old(self)@.after(event, now as int),
            final(self)@.valid(),
            action@ == old(self)@.decision(event, now as int),
    {
        let elapsed_ms: u64 = now / MILLISECOND;
        match event {
            DownloadEvent::Chunk { length } => {
                if length == 0 {
                    return DownloadAction::Continue;
                }
                let (warmup_ms, minimum_ms) = adaptive_speed_timing(self.duration_ms);
                self.meter.bytes = if self.meter.bytes > u64::MAX - length {
                    u64::MAX
                } else {
                    self.meter.bytes + length
                };
                self.meter.observe(now, warmup_ms * MILLISECOND);
                if now >= minimum_ms * MILLISECOND && self.meter.settled() {
                    DownloadAction::Finish
                } else {
                    DownloadAction::Continue
                }
            },
            DownloadEvent::BodyEnded => {
                if !self.reads_on(now) {
                    return DownloadAction::Finish;
                }
                let remaining: u64 = self.duration_ms * MILLISECOND - now;
                let patience: u64 = (self.connect_timeout_ms + self.read_idle_timeout_ms) * MILLISECOND;
                DownloadAction::Repeat {
                    timeout: if patience <= remaining {
                        patience
                    } else {
                        remaining
                    },
                }
            },
            DownloadEvent::ReadFailed { message } => DownloadAction::Fail {
                failure: SpeedTestFailure::new(message, self.meter.bytes, 0, elapsed_ms),
            },
            DownloadEvent::Idle => {
                if self.meter.bytes > 0 {
                    DownloadAction::Finish
                } else {
                    DownloadAction::Stalled
                }
            },
            DownloadEvent::Repeated { outcome } => {
                match outcome.accept("测速请求超时") {
                    Ok(_) => DownloadAction::Continue,
                    Err(message) => {
                        if self.meter.bytes == 0 {
                            DownloadAction::Fail {
                                failure: SpeedTestFailure::new(message, 0, 0, elapsed_ms),
                            }
                        } else {
                            DownloadAction::Finish
                        }
                    },
                }
            },
        }
    }

    /// The outcome of a test that has finished, given the status with which its first answer was
    /// accepted.
    pub fn result(&self, status_code: u16, head: AnswerHead, elapsed_ms: u64) -> (result: Result<
        DownloadSpeedTestResult,
        SpeedTestFailure,
    >)
        requires
            self@.valid(),
            succeeded(status_code),
        ensures
            match result {
                Ok(measured) => {
                    &&& self@.meter.bytes > 0
                    &&& succeeded(measured.status_code)
                    &&& {
                        let warmup_ms: int = if self.duration_ms < 8_000 {
                            self.duration_ms as int / 4
                        } else {
                            2_000
                        };
                        let moved = self.meter.bytes - self.meter.warmup_bytes;
                        let time = elapsed_ms - warmup_ms;
                        let speed = measured.average_bytes_per_second as int;
                        &&& time > 0 && moved > 0 ==> speed * time <= 1000 * moved
                        &&& time > 0 && moved > 0 && 1000 * moved <= u64::MAX ==> 1000 * moved < (speed + 1)
                            * time
                        &&& 0 < elapsed_ms <= warmup_ms ==> speed * elapsed_ms <= 1000 * self.meter.bytes
                        &&& 0 < elapsed_ms <= warmup_ms && 1000 * self.meter.bytes <= u64::MAX ==> 1000
                            * self.meter.bytes < (speed + 1) * elapsed_ms
                    }
                    &&& measured == (DownloadSpeedTestResult {
                        final_url: head.final_url,
                        status_code,
                        content_type: head.content_type,
                        content_length: head.content_length,
                        bytes_read: self.meter.bytes,
                        elapsed_ms,
                        average_bytes_per_second: effective_speed(
                            self@.meter.bytes,
                            self@.meter.warmup_bytes,
                            elapsed_ms as int,
                            warmup_end(self@.duration_ms),
                        ) as u64,
                    })
                },
                Err(failure) => self@.meter.bytes == 0 && failure@ == (FailureView {
                    message: "未接收任何测速数据"@,
                    bytes_down: 0,
                    bytes_up: 0,
                    elapsed_ms: elapsed_ms as int,
                }),
            },
    {
        if self.meter.bytes == 0 {
            return Err(SpeedTestFailure::new("未接收任何测速数据".to_owned(), 0, 0, elapsed_ms));
        }
        let (warmup_ms, _minimum_ms) = adaptive_speed_timing(self.duration_ms);
        let average_bytes_per_second: u64 = measure_speed(
            self.meter.bytes,
            self.meter.warmup_bytes,
            elapsed_ms,
            warmup_ms,
        );
        proof {
            law_speed_is_measured_after_the_warmup(
                self.meter.bytes as int,
                self.meter.warmup_bytes as int,
                elapsed_ms as int,
                warmup_ms as int,
            );
        }
        Ok(
            DownloadSpeedTestResult {
                final_url: head.final_url,
                status_code,
                content_type: head.content_type,
                content_length: head.content_length,
                bytes_read: self.meter.bytes,
                elapsed_ms,
                average_bytes_per_second,
            },
        )
    }
}

/// An upload test in progress.
#[derive(Debug)]
pub struct UploadTest {
    pub url: String,
    pub duration_ms: u64,
    pub max_bytes: u64,
    pub connect_timeout_ms: u64,
    pub read_idle_timeout_ms: u64,
    pub meter: SpeedMeter,
}

/// What an upload test stands for.
#[verifier::ext_equal]
pub struct UploadView {
    pub url: Seq<char>,
    pub duration_ms: int,
    pub max_bytes: int,
    pub connect_timeout_ms: int,
    pub read_idle_timeout_ms: int,
    pub meter: MeterView,
}

impl View for UploadTest {
    type V = UploadView;

    open spec fn view(&self) -> UploadView {
        UploadView {
            url: self.url@,
            duration_ms: self.duration_ms as int,
            max_bytes: self.max_bytes as int,
            connect_timeout_ms: self.connect_timeout_ms as int,
            read_idle_timeout_ms: self.read_idle_timeout_ms as int,
            meter: self.meter@,
        }
    }
}

impl UploadView {
    /// The test that the wishes of a caller lead to.
    pub open spec fn started(options: SpeedTestOptions) -> UploadView {
        UploadView {
            url: trimmed(options.url@),
            duration_ms: options.duration_limit(),
            max_bytes: options.byte_limit(),
            connect_timeout_ms: options.connect_limit(),
            read_idle_timeout_ms: options.idle_limit(),
            meter: MeterView::fresh(),
        }
    }

    /// The limits are within their ranges, the meter is valid, and no more has been sent
    /// than allowed.
    pub open spec fn valid(self) -> bool {
        &&& 1_000 <= self.duration_ms <= 30_000
        &&& 1_048_576 <= self.max_bytes <= 2_147_483_648
        &&& 1_000 <= self.connect_timeout_ms <= 30_000
        &&& 1_000 <= self.read_idle_timeout_ms <= 15_000
        &&& self.meter.valid()
        &&& self.meter.bytes <= self.max_bytes
    }

    /// Whether time and bytes are left.
    pub open spec fn open_at(self, now: int) -> bool {
        now < self.duration_ms * MILLISECOND && self.meter.bytes < self.max_bytes
    }

    /// The test after its meter looked at the clock.
    pub open spec fn observed(self, now: int) -> UploadView {
        UploadView {
            meter: self.meter.observed(now, warmup_end(self.duration_ms) * MILLISECOND),
            ..self
        }
    }

    /// The size of the next chunk; nothing once the time or the bytes are used up or the
    /// speed has settled.
    pub open spec fn next_chunk(self, now: int) -> Option<int> {
        if !self.open_at(now) {
            None
        } else if now >= earliest_end(self.duration_ms) * MILLISECOND && samples_stable(
            self.observed(now).meter.samples,
        ) {
            None
        } else {
            Some(smaller(self.max_bytes - self.meter.bytes, UPLOAD_CHUNK_SIZE as int))
        }
    }

    /// The test after it was asked for the next chunk.
    pub open spec fn after(self, now: int) -> UploadView {
        if !self.open_at(now) {
            self
        } else {
            let observed = self.observed(now);
            match self.next_chunk(now) {
                Some(length) => UploadView { meter: observed.meter.counted(length), ..observed },
                None => observed,
            }
        }
    }

    /// The test after it was asked for chunks at the given times.
    pub open spec fn after_all(self, times: Seq<int>) -> UploadView
        decreases times.len(),
    {
        if times.len() == 0 {
            self
        } else {
            self.after_all(times.drop_last()).after(times.last())
        }
    }
}

impl UploadTest {
    /// Prepares a test; an empty address is refused.
    pub fn new(options: SpeedTestOptions) -> (result: Result<UploadTest, BenchmarkError>)
        ensures
            match result {
                Ok(test) => {
                    &&& trimmed(options.url@).len() > 0
                    &&& test@ == UploadView::started(options)
                    &&& test@.valid()
                },
                Err(error) => trimmed(options.url@).len() == 0 && error
                    == BenchmarkError::EmptySpeedUrl,
            },
    {
        match normalize_speed_test_options(options) {
            Ok(limits) => {
                let duration_ms: u64 = limits.duration_ms.unwrap();
                let max_bytes: u64 = limits.max_bytes.unwrap();
                let connect_timeout_ms: u64 = limits.connect_timeout_ms.unwrap();
                let read_idle_timeout_ms: u64 = limits.read_idle_timeout_ms.unwrap();
                Ok(
                    UploadTest {
                        url: limits.url,
                        duration_ms,
                        max_bytes,
                        connect_timeout_ms,
                        read_idle_timeout_ms,
                        meter: SpeedMeter::fresh(),
                    },
                )
            },
            Err(error) => Err(error),
        }
    }

    /// The size of the next chunk to send, or nothing where the body ends.
    pub fn step(&mut self, now: u64) -> (chunk: Option<u64>)
        requires
            old(self)@.valid(),
        ensures
            final(self)@ == old(self)@.after(now as int),
            final(self)@.valid(),
            match chunk {
                Some(length) => old(self)@.next_chunk(now as int) == Some(length as int),
                None => old(self)@.next_chunk(now as int) is None,
            },
    {
        if now >= self.duration_ms * MILLISECOND || self.meter.bytes >= self.max_bytes {
            return None;
        }
        let (warmup_ms, minimum_ms) = adaptive_speed_timing(self.duration_ms);
        self.meter.observe(now, warmup_ms * MILLISECOND);
        if now >= minimum_ms * MILLISECOND && self.meter.settled() {
            return None;
        }
        let left: u64 = self.max_bytes - self.meter.bytes;
        let length: u64 = if left <= UPLOAD_CHUNK_SIZE {
            left
        } else {
            UPLOAD_CHUNK_SIZE
        };
        self.meter.bytes = self.meter.bytes + length;
        Some(length)
    }

    /// How long the whole request may take, in milliseconds.
    pub fn request_timeout_ms(&self) -> (timeout: u64)
        requires
            self@.valid(),
        ensures
            timeout == self@.duration_ms + self@.connect_timeout_ms + self@.read_idle_timeout_ms,
    {
        self.duration_ms + self.connect_timeout_ms + self.read_idle_timeout_ms
    }

    /// The outcome of a test whose request came to an end.
    pub fn result(&self, outcome: RequestOutcome, head: AnswerHead, elapsed_ms: u64) -> (result:
        Result<UploadSpeedTestResult, SpeedTestFailure>)
        requires
            self@.valid(),
        ensures
            match result {
                Ok(measured) => {
                    &&& outcome.complaint("测速上传超时"@) is None
                    &&& self@.meter.bytes > 0
                    &&& succeeded(measured.status_code)
                    &&& outcome.status() == Some(measured.status_code)
                    &&& {
                        let warmup_ms: int = if self.duration_ms < 8_000 {
                            self.duration_ms as int / 4
                        } else {
                            2_000
                        };
                        let moved = self.meter.bytes - self.meter.warmup_bytes;
                        let time = elapsed_ms - warmup_ms;
                        let speed = measured.average_bytes_per_second as int;
                        &&& time > 0 && moved > 0 ==> speed * time <= 1000 * moved
                        &&& time > 0 && moved > 0 && 1000 * moved <= u64::MAX ==> 1000 * moved < (speed + 1)
                            * time
                        &&& 0 < elapsed_ms <= warmup_ms ==> speed * elapsed_ms <= 1000 * self.meter.bytes
                        &&& 0 < elapsed_ms <= warmup_ms && 1000 * self.meter.bytes <= u64::MAX ==> 1000
                            * self.meter.bytes < (speed + 1) * elapsed_ms
                    }
                    &&& measured == (UploadSpeedTestResult {
                        final_url: head.final_url,
                        status_code: measured.status_code,
                        content_type: head.content_type,
                        bytes_sent: self.meter.bytes,
                        elapsed_ms,
                        average_bytes_per_second: effective_speed(
                            self@.meter.bytes,
                            self@.meter.warmup_bytes,
                            elapsed_ms as int,
                            warmup_end(self@.duration_ms),
                        ) as u64,
                    })
                },
                Err(failure) => match outcome.complaint("测速上传超时"@) {
                    Some(message) => failure@ == (FailureView {
                        message,
                        bytes_down: 0,
                        bytes_up: self@.meter.bytes,
                        elapsed_ms: elapsed_ms as int,
                    }),
                    None => self@.meter.bytes == 0 && failure@ == (FailureView {
                        message: "未发送任何测速数据"@,
                        bytes_down: 0,
                        bytes_up: 0,
                        elapsed_ms: elapsed_ms as int,
                    }),
                },
            },
    {
        let status_code: u16 = match outcome.accept("测速上传超时") {
            Ok(status_code) => status_code,
            Err(message) => {
                return Err(SpeedTestFailure::new(message, 0, self.meter.bytes, elapsed_ms));
            },
        };
        if self.meter.bytes == 0 {
            return Err(SpeedTestFailure::new("未发送任何测速数据".to_owned(), 0, 0, elapsed_ms));
        }
        let (warmup_ms, _minimum_ms) = adaptive_speed_timing(self.duration_ms);
        let average_bytes_per_second: u64 = measure_speed(
            self.meter.bytes,
            self.meter.warmup_bytes,
            elapsed_ms,
            warmup_ms,
        );
        proof {
            law_speed_is_measured_after_the_warmup(
                self.meter.bytes as int,
                self.meter.warmup_bytes as int,
                elapsed_ms as int,
                warmup_ms as int,
            );
        }
        Ok(
            UploadSpeedTestResult {
                final_url: head.final_url,
                status_code,
                content_type: head.content_type,
                bytes_sent: self.meter.bytes,
                elapsed_ms,
                average_bytes_per_second,
            },
        )
    }
}

/// However often and whenever an upload is asked for chunks, it never sends more bytes than
/// its options allow.
pub proof fn law_upload_stays_within_its_limit(options: SpeedTestOptions, times: Seq<int>)
    ensures
        UploadView::started(options).after_all(times).meter.bytes <= options.byte_limit(),
    decreases times.len(),
{
    lemma_upload_run(UploadView::started(options), times);
}

proof fn lemma_upload_run(test: UploadView, times: Seq<int>)
    requires
        0 <= test.meter.bytes <= test.max_bytes <= 2_147_483_648,
    ensures
        0 <= test.after_all(times).meter.bytes <= test.after_all(times).max_bytes,
        test.after_all(times).max_bytes == test.max_bytes,
    decreases times.len(),
{
    if times.len() > 0 {
        lemma_upload_run(test, times.drop_last());
    }
}

/// A failed download reports the bytes that had arrived before it failed.
pub proof fn law_failed_download_keeps_its_traffic(test: DownloadView, event: DownloadEvent, now: int)
    requires
        test.valid(),
        test.decision(event, now) is Fail,
    ensures
        test.decision(event, now)->failure.bytes_down == test.after(event, now).meter.bytes,
        test.decision(event, now)->failure.bytes_up == 0,
{
}

/// Once the time is over or the bytes are used up, no event makes a download repeat its
/// request, and it reads no further.
pub proof fn law_exhausted_download_ends(test: DownloadView, event: DownloadEvent, now: int)
    requires
        test.valid(),
        now >= test.deadline() || test.meter.bytes >= test.max_bytes,
    ensures
        !test.reads_on(now),
        !(test.decision(event, now) is Repeat),
{
}

/// The bytes of all chunks among some events.
pub open spec fn chunk_bytes(events: Seq<(DownloadEvent, int)>) -> int
    decreases events.len(),
{
    if events.len() == 0 {
        0
    } else {
        chunk_bytes(events.drop_last()) + match events.last().0 {
            DownloadEvent::Chunk { length } => length as int,
            _ => 0,
        }
    }
}

impl DownloadView {
    /// The test after some events with their times.
    pub open spec fn after_all(self, events: Seq<(DownloadEvent, int)>) -> DownloadView
        decreases events.len(),
    {
        if events.len() == 0 {
            self
        } else {
            self.after_all(events.drop_last()).after(events.last().0, events.last().1)
        }
    }
}

/// A download counts every byte of every chunk, and nothing else.
pub proof fn law_downloads_count_every_byte(test: DownloadView, events: Seq<(DownloadEvent, int)>)
    requires
        test.meter.bytes >= 0,
        test.meter.bytes + chunk_bytes(events) <= u64::MAX,
    ensures
        test.after_all(events).meter.bytes == test.meter.bytes + chunk_bytes(events),
        chunk_bytes(events) >= 0,
        test.after_all(events).duration_ms == test.duration_ms,
        test.after_all(events).max_bytes == test.max_bytes,
    decreases events.len(),
{
    if events.len() > 0 {
        lemma_chunk_bytes(events.drop_last());
        law_downloads_count_every_byte(test, events.drop_last());
    }
}

proof fn lemma_chunk_bytes(events: Seq<(DownloadEvent, int)>)
    ensures
        chunk_bytes(events) >= 0,
    decreases events.len(),
{
    if events.len() > 0 {
        lemma_chunk_bytes(events.drop_last());
    }
}

/// What a chunk does to a download. The bytes at the end of the warm-up are those that had arrived
/// with the first chunk at or after it. A sample is the average speed since the last sample, at
/// least a second before. The download ends early only with settled samples, and only after its
/// minimum.
pub proof fn law_chunks_are_measured(test: DownloadView, length: u64, now: int)
    requires
        test.valid(),
        length > 0,
        test.meter.bytes + length <= u64::MAX,
        now >= 0,
    ensures
        ({
            let event = DownloadEvent::Chunk { length };
            let meter = test.meter;
            let after = test.after(event, now).meter;
            let warmup_ms: int = if test.duration_ms < 8_000 {
                test.duration_ms / 4
            } else {
                2_000
            };
            let minimum_ms: int = if test.duration_ms < 8_000 {
                test.duration_ms
            } else {
                8_000
            };
            let waited = now - meter.sampled_at;
            let n = meter.samples.len() as int;
            &&& after.bytes == meter.bytes + length
            &&& after.warmup_bytes == if meter.warmup_bytes == 0 && now >= warmup_ms * 1_000_000 {
                after.bytes
            } else {
                meter.warmup_bytes
            }
            &&& waited < 1_000_000_000 ==> after.samples == meter.samples && after.sampled_at
                == meter.sampled_at && after.sampled_bytes == meter.sampled_bytes
            &&& waited >= 1_000_000_000 ==> {
                let moved = after.bytes - meter.sampled_bytes;
                let ms = waited / 1_000_000;
                &&& after.sampled_at == now && after.sampled_bytes == after.bytes
                &&& after.samples.len() == n + 1 && after.samples.take(n) == meter.samples
                &&& after.samples[n] * ms <= 1000 * moved
                &&& 1000 * moved <= u64::MAX ==> 1000 * moved < (after.samples[n] + 1) * ms
            }
            &&& test.decision(event, now) is Finish <==> now >= minimum_ms * 1_000_000 && samples_stable(
                after.samples,
            )
            &&& test.decision(event, now) is Finish || test.decision(event, now) is Continue
        }),
{
    let meter = test.meter;
    let waited = now - meter.sampled_at;
    let after = test.after(DownloadEvent::Chunk { length }, now).meter;
    if waited >= 1_000_000_000 {
        let moved = after.bytes - meter.sampled_bytes;
        lemma_sample_is_small(moved, waited / 1_000_000);
        law_average_is_bytes_over_time(moved, waited / 1_000_000);
        assert(after.samples.take(meter.samples.len() as int) =~= meter.samples);
    }
}

/// What a download does when no chunk arrives. Only while time and bytes are left is the request
/// sent again, with no more patience than the two timeouts and the time that is left; a download
/// that got nothing fails, and one that got something ends with it; a broken one reports all that
/// had arrived.
pub proof fn law_downloads_end_with_what_they_got(
    test: DownloadView,
    message: String,
    outcome: RequestOutcome,
    now: int,
)
    requires
        test.valid(),
        now >= 0,
    ensures
        ({
            let ended = test.decision(DownloadEvent::BodyEnded, now);
            let broken = test.decision(DownloadEvent::ReadFailed { message }, now);
            let idle = test.decision(DownloadEvent::Idle, now);
            let again = test.decision(DownloadEvent::Repeated { outcome }, now);
            let left = test.duration_ms * 1_000_000 - now;
            &&& left > 0 && test.meter.bytes < test.max_bytes ==> {
                &&& ended matches DownloadActionView::Repeat { timeout }
                &&& timeout <= left
                &&& timeout <= (test.connect_timeout_ms + test.read_idle_timeout_ms) * 1_000_000
                &&& timeout == left || timeout == (test.connect_timeout_ms + test.read_idle_timeout_ms)
                    * 1_000_000
            }
            &&& left <= 0 || test.meter.bytes >= test.max_bytes ==> ended is Finish
            &&& broken == DownloadActionView::Fail {
                failure: FailureView {
                    message: message@,
                    bytes_down: test.meter.bytes,
                    bytes_up: 0,
                    elapsed_ms: now / 1_000_000,
                },
            }
            &&& idle is Finish <==> test.meter.bytes > 0
            &&& idle is Stalled <==> test.meter.bytes == 0
            &&& again is Continue <==> (outcome matches RequestOutcome::Answered { status_code, .. } && 200
                <= status_code <= 299)
            &&& again is Finish ==> test.meter.bytes > 0
            &&& again is Fail <==> test.meter.bytes == 0 && !(again is Continue)
            &&& test.after(DownloadEvent::BodyEnded, now) == test && test.after(DownloadEvent::Idle, now)
                == test && test.after(DownloadEvent::Repeated { outcome }, now) == test
        }),
{
}

/// What an upload sends. While time and bytes are left and the speed has not settled after the
/// minimum, a chunk of 64 KiB goes out, or what is left of the bytes; exactly what goes out is
/// counted. The bytes at the end of the warm-up are those that had gone out when the first chunk at
/// or after it was asked for.
pub proof fn law_uploads_send_what_they_count(test: UploadView, now: int)
    requires
        test.valid(),
        now >= 0,
    ensures
        ({
            let meter = test.meter;
            let after = test.after(now).meter;
            let chunk = test.next_chunk(now);
            let warmup_ms: int = if test.duration_ms < 8_000 {
                test.duration_ms / 4
            } else {
                2_000
            };
            let minimum_ms: int = if test.duration_ms < 8_000 {
                test.duration_ms
            } else {
                8_000
            };
            let left = test.max_bytes - meter.bytes;
            let open = now < test.duration_ms * 1_000_000 && left > 0;
            let waited = now - meter.sampled_at;
            let n = meter.samples.len() as int;
            &&& chunk is Some <==> open && !(now >= minimum_ms * 1_000_000 && samples_stable(after.samples))
            &&& chunk matches Some(length) ==> {
                &&& 0 < length <= left && length <= 65_536
                &&& length == left || length == 65_536
                &&& after.bytes == meter.bytes + length
            }
            &&& chunk is None ==> after.bytes == meter.bytes
            &&& !open ==> after == meter
            &&& open ==> after.warmup_bytes == if meter.warmup_bytes == 0 && now >= warmup_ms * 1_000_000 {
                meter.bytes
            } else {
                meter.warmup_bytes
            }
            &&& open && waited < 1_000_000_000 ==> after.samples == meter.samples && after.sampled_at
                == meter.sampled_at && after.sampled_bytes == meter.sampled_bytes
            &&& open && waited >= 1_000_000_000 ==> {
                let moved = meter.bytes - meter.sampled_bytes;
                let ms = waited / 1_000_000;
                &&& after.sampled_at == now && after.sampled_bytes == meter.bytes
                &&& after.samples.len() == n + 1 && after.samples.take(n) == meter.samples
                &&& after.samples[n] * ms <= 1000 * moved
                &&& 1000 * moved <= u64::MAX ==> 1000 * moved < (after.samples[n] + 1) * ms
            }
        }),
{
    let meter = test.meter;
    let waited = now - meter.sampled_at;
    if waited >= 1_000_000_000 {
        let after = test.after(now).meter;
        let moved = meter.bytes - meter.sampled_bytes;
        lemma_sample_is_small(moved, waited / 1_000_000);
        law_average_is_bytes_over_time(moved, waited / 1_000_000);
        if test.open_at(now) {
            assert(after.samples.take(meter.samples.len() as int) =~= meter.samples);
        }
    }
}

/// A test begins with nothing counted, at the trimmed address, and each of its limits is the wish for
/// that limit, moved into its range.
pub proof fn law_tests_begin_with_their_wishes(options: SpeedTestOptions)
    ensures
        ({
            let down = DownloadView::started(options);
            let up = UploadView::started(options);
            let wished = |wish: Option<u64>, default: int, low: int, high: int|
                {
                    let value: int = if wish is Some {
                        wish->0 as int
                    } else {
                        default
                    };
                    if value < low {
                        low
                    } else if value > high {
                        high
                    } else {
                        value
                    }
                };
            &&& down.url == trimmed(options.url@) && up.url == down.url
            &&& down.duration_ms == wished(options.duration_ms, 5_000, 1_000, 30_000)
            &&& down.max_bytes == wished(options.max_bytes, 33_554_432, 1_048_576, 2_147_483_648)
            &&& down.connect_timeout_ms == wished(options.connect_timeout_ms, 8_000, 1_000, 30_000)
            &&& down.read_idle_timeout_ms == wished(options.read_idle_timeout_ms, 3_000, 1_000, 15_000)
            &&& up.duration_ms == down.duration_ms && up.max_bytes == down.max_bytes
            &&& up.connect_timeout_ms == down.connect_timeout_ms && up.read_idle_timeout_ms
                == down.read_idle_timeout_ms
            &&& down.meter.bytes == 0 && down.meter.warmup_bytes == 0 && down.meter.sampled_bytes == 0
                && down.meter.sampled_at == 0 && down.meter.samples.len() == 0
            &&& up.meter == down.meter
        }),
{
}

} // verus!
