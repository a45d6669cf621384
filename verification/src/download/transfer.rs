//! Decisions of a single transfer: the resume request, the answer to a
//! response status, the expected size, and the progress meter that paces
//! reports and measures speed over a rolling window.
//!
//! The application performs the request and the writes; it hands the
//! library status codes, header text, chunk sizes and clock readings.

use vstd::prelude::*;
use crate::error::AppError;
use crate::storage::settings::{all_ascii_digits, sign_stripped};
use crate::text::{chars_of, concat_str, decimal_chars, decimal_value, digit_value, is_ascii_digit, lemma_decimal_monotone, u64_to_decimal};
use crate::web::opt_chars;

verus! {

/// The canonical reason phrase of an HTTP status code, where the code has
/// one.
pub uninterp spec fn http_reason_phrase(code: u16) -> Option<Seq<char>>;

/// `http::StatusCode::canonical_reason` (re-exported by reqwest) for a
/// valid code. The contract names the phrase as a function of the code and
/// says nothing of the table itself.
#[verifier::external_body]
fn reason_phrase(code: u16) -> (r: Option<String>)
    requires
        100 <= code <= 999,
    ensures
        opt_chars(r) == http_reason_phrase(code),
{
    match reqwest::StatusCode::from_u16(code) {
        Ok(status) => match status.canonical_reason() {
            Some(p) => Some(p.to_string()),
            None => None,
        },
        Err(_) => None,
    }
}

/// How a status code is displayed: the number, a space, and the reason
/// phrase or `<unknown status code>`.
pub open spec fn spec_status_line(code: u16) -> Seq<char> {
    decimal_chars(code as nat) + " "@ + match http_reason_phrase(code) {
        Some(p) => p,
        None => "<unknown status code>"@,
    }
}

/// The display of a status code, as `StatusCode`'s `Display` writes it.
pub fn status_line(code: u16) -> (r: String)
    requires
        100 <= code <= 999,
    ensures
        r@ == spec_status_line(code),
{
    let num = u64_to_decimal(code as u64);
    let head = concat_str(num.as_str(), " ");
    match reason_phrase(code) {
        Some(p) => concat_str(head.as_str(), p.as_str()),
        None => concat_str(head.as_str(), "<unknown status code>"),
    }
}

/// How the partial file is written.
#[derive(Debug, PartialEq, Eq, Structural)]
pub enum WriteMode {
    /// Continue the partial file.
    Append,
    /// Start the file afresh.
    Create,
}

/// A status is accepted when it is a success (2xx) or a partial answer.
pub open spec fn status_accepted(code: u16) -> bool {
    (200 <= code && code < 300) || code == 206
}

/// The answer to a response status: a refused status is a network error
/// that quotes it after `HTTP `; a partial answer (206) to a resume request
/// appends to the partial file, any other accepted answer starts it afresh.
pub fn response_mode(code: u16, existing: u64) -> (r: Result<WriteMode, AppError>)
    requires
        100 <= code <= 999,
    ensures
        !status_accepted(code) ==> (r matches Err(AppError::NetworkError { message })
            && message@ == "HTTP "@ + spec_status_line(code) + " - 服务器拒绝请求"@),
        status_accepted(code) ==> (r matches Ok(m)
            && (m == WriteMode::Append <==> (existing > 0 && code == 206))),
{
    if !(200 <= code && code < 300) && code != 206 {
        let line = status_line(code);
        let head = concat_str("HTTP ", line.as_str());
        return Err(AppError::NetworkError { message: concat_str(head.as_str(), " - 服务器拒绝请求") });
    }
    if existing > 0 && code == 206 {
        Ok(WriteMode::Append)
    } else {
        Ok(WriteMode::Create)
    }
}

/// The `Range` header that resumes a partial file of `existing` bytes:
/// none for an empty file.
pub fn range_header(existing: u64) -> (r: Option<String>)
    ensures
        existing == 0 ==> r is None,
        existing > 0 ==> (r matches Some(v) && v@ == "bytes="@ + decimal_chars(existing as nat) + "-"@),
{
    if existing == 0 {
        return None;
    }
    let num = u64_to_decimal(existing);
    let head = concat_str("bytes=", num.as_str());
    Some(concat_str(head.as_str(), "-"))
}

/// `str::parse::<u64>`: an optional `+`, then one or more ASCII digits
/// whose value fits.
pub open spec fn spec_parse_u64(s: Seq<char>) -> Option<u64> {
    if sign_stripped(s).len() > 0 && all_ascii_digits(sign_stripped(s))
        && decimal_value(sign_stripped(s)) <= u64::MAX {
        Some(decimal_value(sign_stripped(s)) as u64)
    } else {
        None
    }
}

/// `str::parse::<u64>`.
pub fn parse_u64(s: &str) -> (r: Option<u64>)
    ensures
        r == spec_parse_u64(s@),
{
    let c = chars_of(s);
    let n = c.len();
    let lo: usize = if n > 0 && c[0] == '+' { 1 } else { 0 };
    let ghost d = sign_stripped(s@);
    assert(d =~= c@.subrange(lo as int, n as int));
    if lo == n {
        return None;
    }
    let mut acc: u128 = 0;
    let mut k = lo;
    while k < n
        invariant
            lo <= k <= n == c@.len(),
            c@ == s@,
            d == sign_stripped(s@),
            d == c@.subrange(lo as int, n as int),
            forall|i: int| 0 <= i < k - lo ==> is_ascii_digit(#[trigger] d[i]),
            acc == decimal_value(d.take(k - lo)),
            acc <= u64::MAX,
        decreases n - k,
    {
        let ch = c[k];
        if !('0' <= ch && ch <= '9') {
            assert(!is_ascii_digit(d[k - lo]));
            return None;
        }
        assert(d.take(k - lo + 1).drop_last() =~= d.take(k - lo));
        assert(d.take(k - lo + 1).last() == ch);
        acc = acc * 10 + digit_value(ch) as u128;
        if acc > 0xFFFF_FFFF_FFFF_FFFFu128 {
            proof {
                if all_ascii_digits(d) {
                    lemma_decimal_monotone(d, k - lo + 1);
                }
            }
            return None;
        }
        k += 1;
    }
    assert(d.take(n - lo) =~= d);
    Some(acc as u64)
}

/// The size expected at the end of a transfer: the announced length of the
/// rest plus the bytes already there, where a length was announced.
pub fn expected_total(content_length: Option<u64>, existing: u64) -> (r: Option<u64>)
    requires
        content_length matches Some(len) ==> len + existing <= u64::MAX,
    ensures
        match content_length {
            Some(len) => r == Some((len + existing) as u64),
            None => r is None,
        },
{
    match content_length {
        Some(len) => Some(len + existing),
        None => None,
    }
}

/// Progress is reported at most once per this many nanoseconds (250 ms).
pub const REPORT_INTERVAL_NS: u64 = 250_000_000;

/// Speed is measured over the chunks of this many nanoseconds (5 s).
pub const SPEED_WINDOW_NS: u64 = 5_000_000_000;

/// The bytes of the chunks `s` (each a clock reading in nanoseconds and a
/// byte count).
pub open spec fn sample_bytes(s: Seq<(u64, u64)>) -> nat
    decreases s.len(),
{
    if s.len() == 0 {
        0
    } else {
        sample_bytes(s.drop_last()) + s.last().1 as nat
    }
}

/// The chunks of `s` received less than the speed window before `now`, in
/// order.
pub open spec fn recent_samples(s: Seq<(u64, u64)>, now: u64) -> Seq<(u64, u64)>
    decreases s.len(),
{
    if s.len() == 0 {
        s
    } else if now - s.last().0 < SPEED_WINDOW_NS {
        recent_samples(s.drop_last(), now).push(s.last())
    } else {
        recent_samples(s.drop_last(), now)
    }
}

/// The whole seconds since the oldest chunk of `s`, at least one.
pub open spec fn window_secs(s: Seq<(u64, u64)>, now: u64) -> int {
    if s.len() == 0 {
        1
    } else {
        let d = (now - s[0].0) / 1_000_000_000;
        if d < 1 { 1 } else { d }
    }
}

/// Bytes per second over the chunks `s`.
pub open spec fn spec_speed(s: Seq<(u64, u64)>, now: u64) -> int {
    sample_bytes(s) as int / window_secs(s, now)
}

/// Every chunk was read at or before `clock`.
pub open spec fn samples_before(s: Seq<(u64, u64)>, clock: u64) -> bool {
    forall|i: int| 0 <= i < s.len() ==> (#[trigger] s[i]).0 <= clock
}

/// Dropping chunks never adds bytes, nor a later clock reading.
pub proof fn lemma_recent_samples(s: Seq<(u64, u64)>, now: u64, clock: u64)
    requires
        samples_before(s, clock),
    ensures
        sample_bytes(recent_samples(s, now)) <= sample_bytes(s),
        samples_before(recent_samples(s, now), clock),
    decreases s.len(),
{
    if s.len() > 0 {
        let d = s.drop_last();
        assert forall|i: int| 0 <= i < d.len() implies (#[trigger] d[i]).0 <= clock by {
            assert(d[i] == s[i]);
        }
        lemma_recent_samples(d, now, clock);
        let r = recent_samples(d, now);
        if now - s.last().0 < SPEED_WINDOW_NS {
            let q = r.push(s.last());
            assert(q.drop_last() =~= r);
            assert(s[s.len() - 1].0 <= clock);
            assert forall|i: int| 0 <= i < q.len() implies (#[trigger] q[i]).0 <= clock by {
                if i < r.len() {
                    assert(q[i] == r[i]);
                }
            }
        }
    }
}

/// A prefix of the chunks holds no more bytes than all of them.
pub proof fn lemma_bytes_prefix(s: Seq<(u64, u64)>, k: int)
    requires
        0 <= k <= s.len(),
    ensures
        sample_bytes(s.take(k)) <= sample_bytes(s),
    decreases s.len(),
{
    if k < s.len() {
        lemma_bytes_prefix(s.drop_last(), k);
        assert(s.drop_last().take(k) =~= s.take(k));
    } else {
        assert(s.take(k) =~= s);
    }
}

/// What the transfer has received, and when progress was last reported.
#[derive(Debug)]
pub struct ProgressMeter {
    /// Bytes in the file, those of an earlier attempt included.
    pub downloaded: u64,
    /// The clock reading (ns) of the last report, or of the start.
    pub last_report_ns: u64,
    /// The latest clock reading (ns) the meter was given.
    pub clock_ns: u64,
    /// The chunks received since the oldest one still in the speed window:
    /// clock reading (ns) and byte count.
    pub samples: Vec<(u64, u64)>,
}

/// The meter's chunks are no more than what was received, and none is
/// later than its clock.
pub open spec fn meter_wf(m: ProgressMeter) -> bool {
    &&& sample_bytes(m.samples@) <= m.downloaded
    &&& samples_before(m.samples@, m.clock_ns)
    &&& m.last_report_ns <= m.clock_ns
}

/// A progress report: bytes in the file and bytes per second.
#[derive(Debug)]
pub struct ProgressReport {
    pub downloaded: u64,
    pub speed: u64,
}

impl ProgressMeter {
    /// The meter at the start of a transfer that resumes `existing` bytes.
    pub fn new(existing: u64, start_ns: u64) -> (r: Self)
        ensures
            meter_wf(r),
            r.downloaded == existing,
            r.last_report_ns == start_ns,
            r.clock_ns == start_ns,
            r.samples@ == Seq::<(u64, u64)>::empty(),
    {
        ProgressMeter { downloaded: existing, last_report_ns: start_ns, clock_ns: start_ns, samples: Vec::new() }
    }

    /// Record a chunk of `len` bytes received at `received_ns`, looking at
    /// the clock again at `now_ns`. Once the report interval has passed
    /// since the last report, the chunks older than the speed window are
    /// dropped and a report is due: the bytes so far and the bytes per
    /// second over the chunks that remain, counted over the whole seconds
    /// since the oldest of them (at least one).
    pub fn on_chunk(&mut self, len: u64, received_ns: u64, now_ns: u64) -> (r: Option<ProgressReport>)
        requires
            meter_wf(*old(self)),
            old(self).clock_ns <= received_ns <= now_ns,
            old(self).downloaded + len <= u64::MAX,
        ensures
            meter_wf(*final(self)),
            final(self).downloaded == old(self).downloaded + len,
            final(self).clock_ns == now_ns,
            now_ns - old(self).last_report_ns >= REPORT_INTERVAL_NS ==> {
                &&& final(self).samples@ == recent_samples(old(self).samples@.push((received_ns, len)), now_ns)
                &&& final(self).last_report_ns == now_ns
                &&& r matches Some(p)
                &&& p.downloaded == final(self).downloaded
                &&& p.speed == spec_speed(final(self).samples@, now_ns)
            },
            now_ns - old(self).last_report_ns < REPORT_INTERVAL_NS ==> {
                &&& final(self).samples@ == old(self).samples@.push((received_ns, len))
                &&& final(self).last_report_ns == old(self).last_report_ns
                &&& r is None
            },
    {
        let ghost pushed = self.samples@.push((received_ns, len));
        self.downloaded = self.downloaded + len;
        self.samples.push((received_ns, len));
        self.clock_ns = now_ns;
        assert(pushed.drop_last() =~= old(self).samples@);
        assert(samples_before(pushed, now_ns)) by {
            assert forall|i: int| 0 <= i < pushed.len() implies (#[trigger] pushed[i]).0 <= now_ns by {
                if i < pushed.len() - 1 {
                    assert(pushed[i] == old(self).samples@[i]);
                }
            }
        }
        if now_ns - self.last_report_ns < REPORT_INTERVAL_NS {
            return None;
        }
        let kept = recent_of(&self.samples, now_ns);
        proof {
            lemma_recent_samples(pushed, now_ns, now_ns);
        }
        self.samples = kept;
        self.last_report_ns = now_ns;
        let speed = speed_of(&self.samples, now_ns, self.downloaded);
        Some(ProgressReport { downloaded: self.downloaded, speed })
    }
}

fn recent_of(s: &Vec<(u64, u64)>, now: u64) -> (r: Vec<(u64, u64)>)
    requires
        samples_before(s@, now),
    ensures
        r@ == recent_samples(s@, now),
{
    let mut out: Vec<(u64, u64)> = Vec::new();
    let mut k: usize = 0;
    assert(s@.take(0) =~= Seq::<(u64, u64)>::empty());
    while k < s.len()
        invariant
            k <= s@.len(),
            samples_before(s@, now),
            out@ == recent_samples(s@.take(k as int), now),
        decreases s@.len() - k,
    {
        let x = s[k];
        assert(s@.take(k + 1).drop_last() =~= s@.take(k as int));
        assert(s@.take(k + 1).last() == x);
        assert(x.0 <= now);
        if now - x.0 < SPEED_WINDOW_NS {
            out.push(x);
        }
        k += 1;
    }
    assert(s@.take(s@.len() as int) =~= s@);
    out
}

fn speed_of(s: &Vec<(u64, u64)>, now: u64, bound: u64) -> (r: u64)
    requires
        samples_before(s@, now),
        sample_bytes(s@) <= bound,
    ensures
        r == spec_speed(s@, now),
{
    let mut sum: u64 = 0;
    let mut k: usize = 0;
    assert(s@.take(0) =~= Seq::<(u64, u64)>::empty());
    while k < s.len()
        invariant
            k <= s@.len(),
            sample_bytes(s@) <= bound,
            sum == sample_bytes(s@.take(k as int)),
        decreases s@.len() - k,
    {
        assert(s@.take(k + 1).drop_last() =~= s@.take(k as int));
        proof {
            lemma_bytes_prefix(s@, k + 1);
        }
        sum = sum + s[k].1;
        k += 1;
    }
    assert(s@.take(s@.len() as int) =~= s@);
    let secs: u64 = if s.len() == 0 {
        1
    } else {
        assert(s@[0].0 <= now);
        let d = (now - s[0].0) / 1_000_000_000;
        if d < 1 { 1 } else { d }
    };
    sum / secs
}

} // verus!
