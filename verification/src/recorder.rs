//! The server-side latency recorder: decodes the request body, resolves
//! the client-type tag through the registry, keeps one `HistLog` per tag
//! (created on first sight from the master log's configuration), records
//! the clamped elapsed time, and runs the periodic flush check.

use vstd::prelude::*;
use vstd::multiset::Multiset;
use vstd::string::StringSliceAdditionalSpecFns;
use crate::hist::{HistLog, HistModel, spec_record, spec_check_send};
use crate::wire::{
    is_digits, digits_val, valid_i64, i64_val, first_idx, lemma_first_idx, find_byte, parse_u16,
    parse_i64,
};
use crate::{client_tag, spec_client_tag};

verus! {

/// What handling one request amounted to. Whatever the outcome, the
/// server still acknowledges the request (see `response_status`).
#[derive(Clone, Copy, Debug, PartialEq, Eq, Structural)]
pub enum Outcome {
    /// A sample of `elapsed` nanoseconds was recorded for `code`'s tag.
    Recorded { code: u16, elapsed: u64 },
    /// No space separator in the body.
    MalformedBody,
    /// The part before the space is not a decimal `u16`.
    BadCode,
    /// The code is not in the client-type registry.
    UnknownCode,
    /// The part after the space is not a decimal `i64`; the tag's log is
    /// still resolved (creating it on first sight) and flush-checked.
    BadTimestamp,
}

/// One tag's recorder.
pub struct TagLog {
    pub tag: &'static str,
    pub log: HistLog,
}

/// Model of the recorder: the master log and the tag-to-log mapping,
/// keyed by the tag's bytes.
#[verifier::ext_equal]
pub ghost struct RecorderModel {
    pub master: HistModel,
    pub map: Map<Seq<u8>, HistModel>,
}

/// The tag-to-log mapping a slot sequence stands for.
pub open spec fn slots_map(s: Seq<TagLog>) -> Map<Seq<u8>, HistModel>
    decreases s.len(),
{
    if s.len() == 0 {
        Map::empty()
    } else {
        slots_map(s.drop_last()).insert(s.last().tag.spec_bytes(), s.last().log@)
    }
}

/// No two slots share a tag.
pub open spec fn unique_tags(s: Seq<TagLog>) -> bool {
    forall|i: int, j: int|
        0 <= i < j < s.len() ==> (#[trigger] s[i].tag.spec_bytes()) != (
        #[trigger] s[j].tag.spec_bytes())
}

proof fn lemma_slots_map_absent(s: Seq<TagLog>, t: Seq<u8>)
    requires
        forall|i: int| 0 <= i < s.len() ==> (#[trigger] s[i].tag.spec_bytes()) != t,
    ensures
        !slots_map(s).contains_key(t),
    decreases s.len(),
{
    if s.len() > 0 {
        let d = s.drop_last();
        assert(forall|i: int| 0 <= i < d.len() ==> #[trigger] d[i] == s[i]);
        lemma_slots_map_absent(d, t);
        assert(s.last().tag.spec_bytes() == s[s.len() - 1].tag.spec_bytes());
    }
}

proof fn lemma_slots_map_at(s: Seq<TagLog>, i: int)
    requires
        unique_tags(s),
        0 <= i < s.len(),
    ensures
        slots_map(s).contains_key(s[i].tag.spec_bytes()),
        slots_map(s)[s[i].tag.spec_bytes()] == s[i].log@,
    decreases s.len(),
{
    let d = s.drop_last();
    assert(forall|k: int| 0 <= k < d.len() ==> #[trigger] d[k] == s[k]);
    if i == s.len() - 1 {
    } else {
        assert(unique_tags(d));
        lemma_slots_map_at(d, i);
        assert(s[i].tag.spec_bytes() != s[s.len() - 1].tag.spec_bytes());
    }
}

proof fn lemma_slots_map_update(s: Seq<TagLog>, i: int, v: TagLog)
    requires
        unique_tags(s),
        0 <= i < s.len(),
        v.tag.spec_bytes() == s[i].tag.spec_bytes(),
    ensures
        slots_map(s.update(i, v)) =~= slots_map(s).insert(v.tag.spec_bytes(), v.log@),
        unique_tags(s.update(i, v)),
    decreases s.len(),
{
    let t = s.update(i, v);
    assert(forall|k: int| 0 <= k < s.len() && k != i ==> #[trigger] t[k] == s[k]);
    assert(t[i] == v);
    assert(unique_tags(t));
    let d = s.drop_last();
    assert(forall|k: int| 0 <= k < d.len() ==> #[trigger] d[k] == s[k]);
    if i == s.len() - 1 {
        assert(t.drop_last() =~= d);
        assert(t.last() == v);
        assert(slots_map(t) == slots_map(d).insert(v.tag.spec_bytes(), v.log@));
        assert(slots_map(s) == slots_map(d).insert(s.last().tag.spec_bytes(), s.last().log@));
        assert(slots_map(t) =~= slots_map(s).insert(v.tag.spec_bytes(), v.log@));
    } else {
        assert(unique_tags(d));
        assert(t.drop_last() =~= d.update(i, v));
        assert(t.last() == s.last());
        lemma_slots_map_update(d, i, v);
        assert(slots_map(t) == slots_map(d.update(i, v)).insert(
            s.last().tag.spec_bytes(),
            s.last().log@,
        ));
        assert(s[i].tag.spec_bytes() != s[s.len() - 1].tag.spec_bytes());
        assert(slots_map(t) =~= slots_map(s).insert(v.tag.spec_bytes(), v.log@));
    }
}

/// Whether two strings spell the same bytes.
fn str_bytes_eq(a: &str, b: &str) -> (r: bool)
    ensures
        r == (a.spec_bytes() == b.spec_bytes()),
{
    let x = a.as_bytes();
    let y = b.as_bytes();
    if x.len() != y.len() {
        return false;
    }
    let mut k: usize = 0;
    while k < x.len()
        invariant
            x@ == a.spec_bytes(),
            y@ == b.spec_bytes(),
            x@.len() == y@.len(),
            0 <= k <= x@.len(),
            forall|j: int| 0 <= j < k ==> x@[j] == y@[j],
        decreases x@.len() - k,
    {
        if x[k] != y[k] {
            return false;
        }
        k = k + 1;
    }
    assert(x@ =~= y@);
    true
}

// ---------------------------------------------------------------------------
// Handling one request, at the spec level.
// ---------------------------------------------------------------------------

/// Elapsed time clamped below at zero: arrival before the recorded send
/// time yields zero, never a negative or wrapped value.
pub open spec fn spec_clamped(arrival: int, sent: int) -> int {
    if sent >= arrival {
        0
    } else {
        arrival - sent
    }
}

/// The model of a log created on first sight of `tag`: the master's
/// configuration (and current samples, which the master never has any of
/// in use), a fresh flush clock, an empty send history.
pub open spec fn spec_fresh_log(master: HistModel, tag: Seq<u8>, loop_time: u64) -> HistModel {
    HistModel {
        series: master.series,
        tag: tag,
        freq: master.freq,
        last_sent: loop_time,
        values: master.values,
        sent: Seq::empty(),
        closed: false,
    }
}

/// What handling a request does to the recorder, and what it reports:
/// split the body at its first space; parse the code; look the tag up in
/// the registry; on success resolve (creating on first sight) the tag's
/// log, record the clamped elapsed time if the timestamp parses, and run
/// the flush check either way.
pub open spec fn spec_handle(
    m: RecorderModel,
    body: Seq<u8>,
    wall_nanos: u64,
    loop_time: u64,
) -> (RecorderModel, Outcome) {
    match first_idx(body, 32) {
        None => (m, Outcome::MalformedBody),
        Some(i) => {
            let code_part = body.subrange(0, i);
            let ts_part = body.subrange(i + 1, body.len() as int);
            if !(is_digits(code_part) && digits_val(code_part) <= u16::MAX as int) {
                (m, Outcome::BadCode)
            } else {
                let code = digits_val(code_part) as u16;
                match spec_client_tag(code) {
                    None => (m, Outcome::UnknownCode),
                    Some(tag) => {
                        let tb = tag.spec_bytes();
                        let m0 = if m.map.contains_key(tb) {
                            m.map[tb]
                        } else {
                            spec_fresh_log(m.master, tb, loop_time)
                        };
                        if valid_i64(ts_part) {
                            let elapsed = spec_clamped(wall_nanos as int, i64_val(ts_part));
                            let m1 = spec_check_send(
                                spec_record(m0, elapsed as u64),
                                loop_time,
                                wall_nanos,
                            );
                            (
                                RecorderModel { map: m.map.insert(tb, m1), ..m },
                                Outcome::Recorded { code, elapsed: elapsed as u64 },
                            )
                        } else {
                            let m1 = spec_check_send(m0, loop_time, wall_nanos);
                            (
                                RecorderModel { map: m.map.insert(tb, m1), ..m },
                                Outcome::BadTimestamp,
                            )
                        }
                    },
                }
            }
        },
    }
}

/// No sample overflows in sight: every histogram in the recorder is below
/// the saturation point of its counters.
pub open spec fn bounded(m: RecorderModel) -> bool {
    m.master.values.len() < u64::MAX && forall|t: Seq<u8>|
        m.map.contains_key(t) ==> (#[trigger] m.map[t]).values.len() < u64::MAX
}

// ---------------------------------------------------------------------------
// The recorder.
// ---------------------------------------------------------------------------

/// Per-server state: the master log and one log per observed client-type
/// tag, all sharing the master's writer.
pub struct Recorder {
    master: HistLog,
    slots: Vec<TagLog>,
}

impl View for Recorder {
    type V = RecorderModel;

    closed spec fn view(&self) -> RecorderModel {
        RecorderModel { master: self.master@, map: slots_map(self.slots@) }
    }
}

impl Recorder {
    /// The recorder's slots carry pairwise distinct tags.
    pub closed spec fn wf(&self) -> bool {
        unique_tags(self.slots@)
    }

    /// A recorder around a master log; no tags have been observed yet.
    pub fn new(master: HistLog) -> (r: Self)
        ensures
            r.wf(),
            r@.master =~= master@,
            r@.map =~= Map::<Seq<u8>, HistModel>::empty(),
    {
        Recorder { master, slots: Vec::new() }
    }

    /// The index of `tag`'s slot, if one exists.
    fn find_slot(&self, tag: &str) -> (r: Option<usize>)
        ensures
            match r {
                Some(i) => i < self.slots@.len() && self.slots@[i as int].tag.spec_bytes()
                    == tag.spec_bytes(),
                None => forall|i: int|
                    0 <= i < self.slots@.len() ==> (
                    #[trigger] self.slots@[i].tag.spec_bytes()) != tag.spec_bytes(),
            },
    {
        let mut k: usize = 0;
        while k < self.slots.len()
            invariant
                0 <= k <= self.slots@.len(),
                forall|i: int|
                    0 <= i < k ==> (#[trigger] self.slots@[i].tag.spec_bytes())
                        != tag.spec_bytes(),
            decreases self.slots@.len() - k,
        {
            if str_bytes_eq(self.slots[k].tag, tag) {
                return Some(k);
            }
            k = k + 1;
        }
        None
    }

    /// Handles one inbound request body, arrived at wall-clock
    /// `wall_nanos` and monotonic `loop_time` (both nanoseconds). Always
    /// returns an outcome — a malformed request never fails the server.
    pub fn handle_request(&mut self, body: &[u8], wall_nanos: u64, loop_time: u64) -> (out:
        Outcome)
        requires
            old(self).wf(),
            wall_nanos <= i64::MAX as u64,
        ensures
            final(self).wf(),
            out == spec_handle(old(self)@, body@, wall_nanos, loop_time).1,
            bounded(old(self)@) ==> final(self)@ =~~= spec_handle(
                old(self)@,
                body@,
                wall_nanos,
                loop_time,
            ).0,
            (out is MalformedBody || out is BadCode || out is UnknownCode) ==> final(self)@
                =~~= old(self)@,
    {
        proof {
            lemma_first_idx(body@, 32);
        }
        let i = match find_byte(body, 32) {
            None => {
                return Outcome::MalformedBody;
            },
            Some(i) => i,
        };
        let blen = body.len();
        assert(i < blen);
        let code_part = &body[0..i];
        let ts_part = &body[i + 1..blen];
        assert(code_part@ =~= body@.subrange(0, i as int));
        assert(ts_part@ =~= body@.subrange(i + 1, body@.len() as int));
        let code = match parse_u16(code_part) {
            None => {
                return Outcome::BadCode;
            },
            Some(c) => c,
        };
        let tag = match client_tag(code) {
            None => {
                return Outcome::UnknownCode;
            },
            Some(t) => t,
        };
        let ghost m = self@;
        let ghost tb = tag.spec_bytes();
        let idx: usize = match self.find_slot(tag) {
            Some(k) => {
                proof {
                    lemma_slots_map_at(self.slots@, k as int);
                }
                k
            },
            None => {
                proof {
                    lemma_slots_map_absent(self.slots@, tb);
                }
                let fresh = self.master.clone_with_tag(tag, loop_time);
                let k = self.slots.len();
                self.slots.push(TagLog { tag, log: fresh });
                proof {
                    assert(self.slots@.drop_last() =~= old(self).slots@);
                    assert(unique_tags(self.slots@));
                    assert(self@.map =~= m.map.insert(tb, spec_fresh_log(m.master, tb, loop_time)));
                }
                k
            },
        };
        let ghost slots_before = self.slots@;
        let ghost m0 = self.slots@[idx as int].log@;
        proof {
            lemma_slots_map_at(self.slots@, idx as int);
        }
        assert(idx < self.slots.len());
        let slot = &mut self.slots[idx];
        let out: Outcome;
        match parse_i64(ts_part) {
            None => {
                slot.log.check_send(loop_time, wall_nanos);
                out = Outcome::BadTimestamp;
            },
            Some(sent) => {
                let elapsed = clamped_elapsed(wall_nanos as i64, sent);
                slot.log.record(elapsed);
                slot.log.check_send(loop_time, wall_nanos);
                out = Outcome::Recorded { code, elapsed };
            },
        }
        proof {
            assert(final(slot).tag == slots_before[idx as int].tag);
            assert(self.slots@ =~= slots_before.update(idx as int, *final(slot)));
            lemma_slots_map_update(slots_before, idx as int, *final(slot));
        }
        out
    }

    /// The number of samples the given code's log holds at (values
    /// rounding to the same bucket as) `value`; zero if the code is
    /// unknown or not yet seen.
    pub fn sample_count_at(&self, code: u16, value: u64) -> (r: u64)
        requires
            self.wf(),
        ensures
            match spec_client_tag(code) {
                Some(tag) => {
                    if self@.map.contains_key(tag.spec_bytes()) {
                        let vs = self@.map[tag.spec_bytes()].values;
                        (vs.count(crate::hist::quantized(value)) > 0 ==> r as int == vs.count(
                            crate::hist::quantized(value),
                        ) as int) && (vs.len() == 0 ==> r == 0)
                    } else {
                        r == 0
                    }
                },
                None => r == 0,
            },
    {
        let tag = match client_tag(code) {
            None => {
                return 0;
            },
            Some(t) => t,
        };
        match self.find_slot(tag) {
            None => {
                proof {
                    lemma_slots_map_absent(self.slots@, tag.spec_bytes());
                }
                0
            },
            Some(k) => {
                proof {
                    lemma_slots_map_at(self.slots@, k as int);
                }
                self.slots[k].log.sample_count_at(value)
            },
        }
    }

    /// The total number of samples the given code's log holds; zero if
    /// the code is unknown or not yet seen.
    pub fn sample_len(&self, code: u16) -> (r: u64)
        requires
            self.wf(),
        ensures
            match spec_client_tag(code) {
                Some(tag) => {
                    if self@.map.contains_key(tag.spec_bytes()) {
                        let vs = self@.map[tag.spec_bytes()].values;
                        (vs.len() <= u64::MAX ==> r as int == vs.len() as int) && (r == 0 <==> vs.len() == 0)
                    } else {
                        r == 0
                    }
                },
                None => r == 0,
            },
    {
        let tag = match client_tag(code) {
            None => {
                return 0;
            },
            Some(t) => t,
        };
        match self.find_slot(tag) {
            None => {
                proof {
                    lemma_slots_map_absent(self.slots@, tag.spec_bytes());
                }
                0
            },
            Some(k) => {
                proof {
                    lemma_slots_map_at(self.slots@, k as int);
                }
                self.slots[k].log.sample_len()
            },
        }
    }
}

/// Clamped elapsed time: `arrival - sent`, but never below zero, and
/// never wrapping however far apart the two are.
pub fn clamped_elapsed(arrival: i64, sent: i64) -> (r: u64)
    ensures
        r as int == spec_clamped(arrival as int, sent as int),
{
    if sent >= arrival {
        0
    } else if sent >= 0 {
        (arrival - sent) as u64
    } else {
        let mag: u64 = ((-(sent + 1)) as u64) + 1;
        assert(mag as int == -(sent as int));
        if arrival >= 0 {
            (arrival as u64) + mag
        } else {
            mag - ((-arrival) as u64)
        }
    }
}

/// Whatever the outcome, the server acknowledges the request with an
/// empty success response.
pub fn response_status(out: Outcome) -> (r: u16)
    ensures
        r == 204,
{
    match out {
        Outcome::Recorded { .. } => 204,
        Outcome::MalformedBody => 204,
        Outcome::BadCode => 204,
        Outcome::UnknownCode => 204,
        Outcome::BadTimestamp => 204,
    }
}

// ---------------------------------------------------------------------------
// Laws of request handling.
// ---------------------------------------------------------------------------

/// Handling a request touches at most the resolved tag's log: every other
/// tag's histogram is exactly as before. In particular, concurrent tags
/// never contaminate each other.
pub proof fn lemma_handle_isolates_tags(
    m: RecorderModel,
    body: Seq<u8>,
    wall_nanos: u64,
    loop_time: u64,
    t: Seq<u8>,
)
    requires
        m.map.contains_key(t),
        match spec_client_tag(spec_handle_code(body)) {
            Some(tag) => tag.spec_bytes() != t,
            None => true,
        },
    ensures
        spec_handle(m, body, wall_nanos, loop_time).0.map.contains_key(t),
        spec_handle(m, body, wall_nanos, loop_time).0.map[t] == m.map[t],
{
}

/// The code a body names, if its shape is valid (zero otherwise; only
/// used to state which tag a request resolves to).
pub open spec fn spec_handle_code(body: Seq<u8>) -> u16 {
    match first_idx(body, 32) {
        None => 0,
        Some(i) => {
            let code_part = body.subrange(0, i);
            if is_digits(code_part) && digits_val(code_part) <= u16::MAX as int {
                digits_val(code_part) as u16
            } else {
                0
            }
        },
    }
}

/// A request whose code is not in the registry records nothing and leaves
/// the tag mapping untouched, yet is still acknowledged with 204.
pub proof fn lemma_unknown_code_changes_nothing(
    m: RecorderModel,
    body: Seq<u8>,
    wall_nanos: u64,
    loop_time: u64,
)
    requires
        spec_handle(m, body, wall_nanos, loop_time).1 is UnknownCode,
    ensures
        spec_handle(m, body, wall_nanos, loop_time).0 =~~= m,
{
}

} // verus!
