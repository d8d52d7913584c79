//! Per-(series, tag) latency recording: an active histogram that is
//! periodically retired, packaged as an immutable `Entry`, and handed
//! through a channel to the series' single writer.
//!
//! The histogram itself comes from the `hdrhistogram` crate and is held
//! behind trusted wrappers; its abstract contents are the multiset of
//! recorded samples, each rounded to the bucket resolution.

use vstd::prelude::*;
use vstd::multiset::Multiset;
use vstd::string::StringSliceAdditionalSpecFns;
use std::sync::mpsc::Sender;
use std::time::Duration;

verus! {

// ---------------------------------------------------------------------------
// Trusted view of the outside histogram and channel types.
// ---------------------------------------------------------------------------

/// The active histogram, held opaquely: Verus sees nothing inside it;
/// everything stated about it goes through `hist_contents`.
#[verifier::external_body]
pub struct Hist {
    pub h: hdrhistogram::Histogram<u64>,
}

#[verifier::external_type_specification]
#[verifier::external_body]
#[verifier::reject_recursive_types(T)]
pub struct ExSender<T>(Sender<T>);

/// The whole seconds of a `Duration`.
pub uninterp spec fn dur_secs(d: Duration) -> u64;

/// The fractional part of a `Duration`, in nanoseconds.
pub uninterp spec fn dur_subsec_nanos(d: Duration) -> u32;

/// Relies on std::time::Duration::as_secs: the whole seconds of the
/// duration.
pub assume_specification[ Duration::as_secs ](d: &Duration) -> (r: u64)
    ensures
        r == dur_secs(*d),
;

/// Relies on std::time::Duration::subsec_nanos: the fractional part in
/// nanoseconds, documented to be below one billion.
pub assume_specification[ Duration::subsec_nanos ](d: &Duration) -> (r: u32)
    ensures
        r == dur_subsec_nanos(*d),
        r < 1_000_000_000,
;

/// The duration in whole nanoseconds.
pub fn nanos(d: Duration) -> (r: u64)
    requires
        dur_secs(d) <= (u64::MAX - 999_999_999) / 1_000_000_000,
    ensures
        r == dur_secs(d) * 1_000_000_000 + dur_subsec_nanos(d),
{
    d.as_secs() * 1_000_000_000_u64 + (d.subsec_nanos() as u64)
}

/// As `nanos`, for callers who cannot know in advance that the duration's
/// nanoseconds fit in `u64` (durations under roughly 584 years do).
pub fn nanos_checked(d: Duration) -> (r: Option<u64>)
    ensures
        match r {
            Some(n) => n == dur_secs(d) * 1_000_000_000 + dur_subsec_nanos(d),
            None => dur_secs(d) > (u64::MAX - 999_999_999) / 1_000_000_000,
        },
{
    if d.as_secs() <= (u64::MAX - 999_999_999) / 1_000_000_000 {
        Some(nanos(d))
    } else {
        None
    }
}

/// The multiset of samples a histogram holds, each rounded down to its
/// bucket's lowest equivalent value at this library's fixed configuration
/// (lowest discernible value 1, three significant digits).
pub uninterp spec fn hist_contents(h: Hist) -> Multiset<u64>;

/// The bucket-representative that recording `v` stores: the lowest value
/// the histogram does not distinguish from `v` at this library's fixed
/// configuration.
pub uninterp spec fn quantized(v: u64) -> u64;

/// Relies on hdrhistogram::Histogram::new: three significant digits are
/// a valid configuration, auto-resize is enabled, and a new histogram has
/// no samples.
#[verifier::external_body]
fn new_hist() -> (r: Hist)
    ensures
        hist_contents(r) == Multiset::<u64>::empty(),
{
    Hist { h: hdrhistogram::Histogram::new(3).unwrap() }
}

/// Relies on hdrhistogram::Histogram::record: with auto-resize enabled the
/// sample is stored in the bucket for `value`; while no bucket count has
/// reached `u64::MAX`, counts are exact.
#[verifier::external_body]
fn hist_record(h: &mut Hist, value: u64)
    ensures
        hist_contents(*old(h)).len() < u64::MAX ==> hist_contents(*final(h)) == hist_contents(
            *old(h),
        ).insert(quantized(value)),
{
    let _ = h.h.record(value);
}

/// Relies on hdrhistogram::Histogram::len: the total number of recorded
/// samples, saturating at `u64::MAX`.
#[verifier::external_body]
fn hist_len(h: &Hist) -> (r: u64)
    ensures
        hist_contents(*h).len() <= u64::MAX ==> r as int == hist_contents(*h).len() as int,
        r == 0 <==> hist_contents(*h).len() == 0,
{
    h.h.len()
}

/// Relies on hdrhistogram::Histogram::count_at: the count stored in the
/// bucket that `value` falls in.
#[verifier::external_body]
fn hist_count_at(h: &Hist, value: u64) -> (r: u64)
    ensures
        hist_contents(*h).count(quantized(value)) > 0 ==> r as int == hist_contents(*h).count(
            quantized(value),
        ) as int,
        hist_contents(*h).len() == 0 ==> r == 0,
{
    h.h.count_at(value)
}

/// Relies on hdrhistogram::Histogram::clear: all bucket counts are zeroed.
#[verifier::external_body]
fn hist_clear(h: &mut Hist)
    ensures
        hist_contents(*final(h)) == Multiset::<u64>::empty(),
{
    h.h.clear();
}

/// Relies on hdrhistogram::Histogram::new_from: same configuration, no
/// samples.
#[verifier::external_body]
fn hist_new_from(h: &Hist) -> (r: Hist)
    ensures
        hist_contents(r) == Multiset::<u64>::empty(),
{
    Hist { h: hdrhistogram::Histogram::new_from(&h.h) }
}

/// Relies on hdrhistogram::Histogram's derived Clone: an exact copy,
/// bucket counts included.
#[verifier::external_body]
fn hist_clone(h: &Hist) -> (r: Hist)
    ensures
        hist_contents(r) == hist_contents(*h),
{
    Hist { h: h.h.clone() }
}

/// Relies on std::sync::mpsc::Sender::send: hands the message to the
/// channel; the error (receiver gone) is ignored, as nothing is promised
/// about delivery.
#[verifier::external_body]
fn send_msg(tx: &Sender<Option<Entry>>, msg: Option<Entry>) {
    let _ = tx.send(msg);
}

/// Relies on std::sync::mpsc::Sender's Clone: another handle to the same
/// channel.
#[verifier::external_body]
fn clone_sender(tx: &Sender<Option<Entry>>) -> (r: Sender<Option<Entry>>) {
    tx.clone()
}

// ---------------------------------------------------------------------------
// Entries and their mathematical models.
// ---------------------------------------------------------------------------

/// One retired histogram, with its tag and wall-clock time range; produced
/// by a flush, consumed exactly once by the writer, never mutated.
pub struct Entry {
    pub tag: &'static str,
    /// Wall-clock nanoseconds at which this interval began.
    pub start: u64,
    /// Wall-clock nanoseconds at which this interval ended.
    pub end: u64,
    pub hist: Hist,
}

/// Model of an `Entry`: tag bytes, time range, recorded samples.
#[verifier::ext_equal]
pub ghost struct EntryModel {
    pub tag: Seq<u8>,
    pub start: u64,
    pub end: u64,
    pub values: Multiset<u64>,
}

impl View for Entry {
    type V = EntryModel;

    open spec fn view(&self) -> EntryModel {
        EntryModel {
            tag: self.tag.spec_bytes(),
            start: self.start,
            end: self.end,
            values: hist_contents(self.hist),
        }
    }
}

/// Model of a `HistLog`: identity, flush clock, active samples, and the
/// history of entries this handle has handed to the writer channel.
#[verifier::ext_equal]
pub ghost struct HistModel {
    pub series: Seq<u8>,
    pub tag: Seq<u8>,
    /// Flush interval, nanoseconds.
    pub freq: u64,
    /// Monotonic nanoseconds of the last flush (or creation).
    pub last_sent: u64,
    /// Samples in the active histogram.
    pub values: Multiset<u64>,
    /// Entries flushed by this handle, oldest first.
    pub sent: Seq<EntryModel>,
    /// Whether this handle has sent the writer its termination sentinel.
    pub closed: bool,
}

// ---------------------------------------------------------------------------
// Flush semantics, at the spec level.
// ---------------------------------------------------------------------------

/// A flush is due when time has advanced past the last flush by at least
/// the configured interval.
pub open spec fn should_flush(m: HistModel, loop_time: u64) -> bool {
    loop_time > m.last_sent && loop_time - m.last_sent >= m.freq
}

/// Nanoseconds since the last flush, clamped below at zero.
pub open spec fn elapsed_since_flush(m: HistModel, loop_time: u64) -> int {
    if loop_time >= m.last_sent {
        loop_time - m.last_sent
    } else {
        0
    }
}

/// The entry a flush at monotonic `loop_time` / wall `wall_now` retires:
/// it carries the active samples; its end is the wall clock now and its
/// start lies the elapsed interval earlier (clamped at zero).
pub open spec fn flush_entry(m: HistModel, loop_time: u64, wall_now: u64) -> EntryModel {
    EntryModel {
        tag: m.tag,
        start: if elapsed_since_flush(m, loop_time) <= wall_now {
            (wall_now - elapsed_since_flush(m, loop_time)) as u64
        } else {
            0
        },
        end: wall_now,
        values: m.values,
    }
}

/// Recording adds one rounded sample to the active histogram.
pub open spec fn spec_record(m: HistModel, value: u64) -> HistModel {
    HistModel { values: m.values.insert(quantized(value)), ..m }
}

/// Flushing retires the active samples as one entry and resets the flush
/// clock.
pub open spec fn spec_flush(m: HistModel, loop_time: u64, wall_now: u64) -> HistModel {
    HistModel {
        values: Multiset::empty(),
        last_sent: loop_time,
        sent: m.sent.push(flush_entry(m, loop_time, wall_now)),
        ..m
    }
}

/// What `check_send` does: flush exactly when a flush is due, otherwise
/// nothing.
pub open spec fn spec_check_send(m: HistModel, loop_time: u64, wall_now: u64) -> HistModel {
    if should_flush(m, loop_time) {
        spec_flush(m, loop_time, wall_now)
    } else {
        m
    }
}

// ---------------------------------------------------------------------------
// The recorder handle.
// ---------------------------------------------------------------------------

/// A per-(series, tag) latency recorder. It owns the active histogram;
/// the writer thread owns the receiving end of `tx`.
pub struct HistLog {
    series: &'static str,
    tag: &'static str,
    freq: u64,
    last_sent: u64,
    tx: Sender<Option<Entry>>,
    hist: Hist,
    sent: Ghost<Seq<EntryModel>>,
    closed: Ghost<bool>,
}

impl View for HistLog {
    type V = HistModel;

    closed spec fn view(&self) -> HistModel {
        HistModel {
            series: self.series.spec_bytes(),
            tag: self.tag.spec_bytes(),
            freq: self.freq,
            last_sent: self.last_sent,
            values: hist_contents(self.hist),
            sent: self.sent@,
            closed: self.closed@,
        }
    }
}

impl HistLog {
    /// A fresh recorder for `(series, tag)` flushing roughly every `freq`
    /// nanoseconds through `tx`; `now` is the current monotonic clock in
    /// nanoseconds.
    pub fn new(series: &'static str, tag: &'static str, freq: u64, tx: Sender<Option<Entry>>, now: u64) -> (r: Self)
        ensures
            r@ =~= (HistModel {
                series: series.spec_bytes(),
                tag: tag.spec_bytes(),
                freq,
                last_sent: now,
                values: Multiset::empty(),
                sent: Seq::empty(),
                closed: false,
            }),
    {
        HistLog {
            series,
            tag,
            freq,
            last_sent: now,
            tx,
            hist: new_hist(),
            sent: Ghost(Seq::empty()),
            closed: Ghost(false),
        }
    }

    /// A recorder for the same series under a new tag, sharing the writer
    /// channel; it copies the current active samples and starts its own
    /// flush clock at `now`.
    pub fn clone_with_tag(&self, tag: &'static str, now: u64) -> (r: Self)
        ensures
            r@ =~= (HistModel {
                series: self@.series,
                tag: tag.spec_bytes(),
                freq: self@.freq,
                last_sent: now,
                values: self@.values,
                sent: Seq::empty(),
                closed: false,
            }),
    {
        HistLog {
            series: self.series,
            tag,
            freq: self.freq,
            last_sent: now,
            tx: clone_sender(&self.tx),
            hist: hist_clone(&self.hist),
            sent: Ghost(Seq::empty()),
            closed: Ghost(false),
        }
    }

    /// As `clone_with_tag`, with its own flush interval.
    pub fn clone_with_tag_and_freq(&self, tag: &'static str, freq: u64, now: u64) -> (r: Self)
        ensures
            r@ =~= (HistModel {
                series: self@.series,
                tag: tag.spec_bytes(),
                freq,
                last_sent: now,
                values: self@.values,
                sent: Seq::empty(),
                closed: false,
            }),
    {
        let mut clone = self.clone_with_tag(tag, now);
        clone.freq = freq;
        clone
    }

    /// A wholly new recorder (fresh writer channel `tx`) for the same
    /// series and interval under a new tag.
    pub fn new_with_tag(&self, tag: &'static str, tx: Sender<Option<Entry>>, now: u64) -> (r: Self)
        ensures
            r@ =~= (HistModel {
                series: self@.series,
                tag: tag.spec_bytes(),
                freq: self@.freq,
                last_sent: now,
                values: Multiset::empty(),
                sent: Seq::empty(),
                closed: false,
            }),
    {
        Self::new(self.series, tag, self.freq, tx, now)
    }

    /// Adds one sample to the active histogram. Never blocks and never
    /// fails; out-of-range values saturate inside the histogram.
    pub fn record(&mut self, value: u64)
        ensures
            old(self)@.values.len() < u64::MAX ==> final(self)@ =~= spec_record(
                old(self)@,
                value,
            ),
            final(self)@ =~= (HistModel { values: final(self)@.values, ..old(self)@ }),
    {
        hist_record(&mut self.hist, value);
    }

    /// Discards the recorded samples and restarts the flush clock at `now`.
    pub fn reset(&mut self, now: u64)
        ensures
            final(self)@ =~= (HistModel {
                values: Multiset::empty(),
                last_sent: now,
                ..old(self)@
            }),
    {
        hist_clear(&mut self.hist);
        self.last_sent = now;
    }

    /// Retires the active histogram as one entry to the writer and swaps
    /// in a fresh empty one.
    fn send(&mut self, loop_time: u64, wall_now: u64)
        ensures
            final(self)@ =~= spec_flush(old(self)@, loop_time, wall_now),
    {
        let mut retired = hist_new_from(&self.hist);
        core::mem::swap(&mut self.hist, &mut retired);
        let elapsed: u64 = if loop_time >= self.last_sent {
            loop_time - self.last_sent
        } else {
            0
        };
        let start: u64 = if elapsed <= wall_now {
            wall_now - elapsed
        } else {
            0
        };
        let entry = Entry { tag: self.tag, start, end: wall_now, hist: retired };
        proof {
            assert(entry@ =~= flush_entry(old(self)@, loop_time, wall_now));
        }
        let ghost em = entry@;
        send_msg(&self.tx, Some(entry));
        self.sent = Ghost(self.sent@.push(em));
        self.last_sent = loop_time;
    }

    /// Flushes exactly once if at least the configured interval has passed
    /// since the last flush, else does nothing.
    pub fn check_send(&mut self, loop_time: u64, wall_now: u64)
        ensures
            final(self)@ =~= spec_check_send(old(self)@, loop_time, wall_now),
    {
        if loop_time > self.last_sent && loop_time - self.last_sent >= self.freq {
            self.send(loop_time, wall_now);
        }
    }

    /// Shuts this handle down: any unflushed samples are retired as one
    /// final entry, and if this is the last handle of its series the writer
    /// is told to terminate. Call exactly once, when the handle is done.
    pub fn close(&mut self, loop_time: u64, wall_now: u64, last_handle: bool)
        ensures
            old(self)@.values.len() == 0 ==> final(self)@ =~= (HistModel {
                closed: old(self)@.closed || last_handle,
                ..old(self)@
            }),
            old(self)@.values.len() != 0 ==> final(self)@ =~= (HistModel {
                closed: old(self)@.closed || last_handle,
                ..spec_flush(old(self)@, loop_time, wall_now)
            }),
    {
        if hist_len(&self.hist) > 0 {
            self.send(loop_time, wall_now);
        }
        if last_handle {
            send_msg(&self.tx, None);
            self.closed = Ghost(true);
        }
    }

    /// The number of samples in the active histogram (saturating at
    /// `u64::MAX`).
    pub fn sample_len(&self) -> (r: u64)
        ensures
            self@.values.len() <= u64::MAX ==> r as int == self@.values.len() as int,
            r == 0 <==> self@.values.len() == 0,
    {
        hist_len(&self.hist)
    }

    /// The number of samples recorded at (any value rounding to) the same
    /// bucket as `value`.
    pub fn sample_count_at(&self, value: u64) -> (r: u64)
        ensures
            self@.values.count(quantized(value)) > 0 ==> r as int == self@.values.count(
                quantized(value),
            ) as int,
            self@.values.len() == 0 ==> r == 0,
    {
        hist_count_at(&self.hist, value)
    }
}

// ---------------------------------------------------------------------------
// Laws of flushing.
// ---------------------------------------------------------------------------

/// Recording and then checking for a flush before the interval has passed
/// performs no flush: the active histogram keeps the new sample and the
/// handle sends nothing.
pub proof fn lemma_record_then_check_send_no_flush(
    m: HistModel,
    value: u64,
    loop_time: u64,
    wall_now: u64,
)
    requires
        loop_time > m.last_sent ==> loop_time - m.last_sent < m.freq,
        m.values.len() < u64::MAX,
    ensures
        spec_check_send(spec_record(m, value), loop_time, wall_now) =~= spec_record(m, value),
        spec_check_send(spec_record(m, value), loop_time, wall_now).values =~= m.values.insert(
            quantized(value),
        ),
{
}

/// A due `check_send` flushes exactly once: afterwards the active
/// histogram is empty, and exactly one entry was handed out, carrying the
/// samples that were active, with its end no earlier than its start.
pub proof fn lemma_check_send_flushes(m: HistModel, loop_time: u64, wall_now: u64)
    requires
        should_flush(m, loop_time),
    ensures
        spec_check_send(m, loop_time, wall_now).values =~= Multiset::empty(),
        spec_check_send(m, loop_time, wall_now).sent =~= m.sent.push(
            flush_entry(m, loop_time, wall_now),
        ),
        spec_check_send(m, loop_time, wall_now).sent.len() == m.sent.len() + 1,
        flush_entry(m, loop_time, wall_now).values =~= m.values,
        flush_entry(m, loop_time, wall_now).end >= flush_entry(m, loop_time, wall_now).start,
        flush_entry(m, loop_time, wall_now).tag =~= m.tag,
        spec_check_send(m, loop_time, wall_now).last_sent == loop_time,
{
}

} // verus!
