use vstd::prelude::*;

use crate::ids::{MetricId, SensorId};
use crate::protocol::MetricValue;
use crate::state::SensorStateEvent;

verus! {

/// Number of samples a livedata window keeps.
pub const LIVEDATA_WINDOW_LIMIT: usize = 50;

/// Timestamps strictly ascending.
pub open spec fn sorted<V>(s: Seq<(u64, V)>) -> bool {
    forall|i: int, j: int| 0 <= i < j < s.len() ==> s[i].0 < s[j].0
}

/// Number of samples older than `t`.
pub open spec fn count_below<V>(s: Seq<(u64, V)>, t: u64) -> nat
    decreases s.len(),
{
    if s.len() == 0 {
        0
    } else {
        count_below(s.drop_last(), t) + if s.last().0 < t {
            1nat
        } else {
            0nat
        }
    }
}

/// The samples with `(t, v)` put in timestamp order, replacing a sample at `t`.
pub open spec fn sorted_insert<V>(s: Seq<(u64, V)>, t: u64, v: V) -> Seq<(u64, V)> {
    let p = count_below(s, t) as int;
    if p < s.len() && s[p].0 == t {
        s.update(p, (t, v))
    } else {
        s.insert(p, (t, v))
    }
}

/// The window after a push: the sample goes in by timestamp, and when that
/// leaves one sample too many, the oldest leaves.
pub open spec fn window_push<V>(s: Seq<(u64, V)>, t: u64, v: V) -> Seq<(u64, V)> {
    let m = sorted_insert(s, t, v);
    if m.len() > LIVEDATA_WINDOW_LIMIT {
        m.drop_first()
    } else {
        m
    }
}

proof fn lemma_count_below<V>(s: Seq<(u64, V)>, t: u64, p: int)
    requires
        0 <= p <= s.len(),
        forall|i: int| 0 <= i < p ==> (#[trigger] s[i]).0 < t,
        forall|i: int| p <= i < s.len() ==> (#[trigger] s[i]).0 >= t,
    ensures
        count_below(s, t) == p,
    decreases s.len(),
{
    if s.len() > 0 {
        let s0 = s.drop_last();
        let p0 = if p == s.len() {
            p - 1
        } else {
            p
        };
        assert forall|i: int| 0 <= i < p0 implies (#[trigger] s0[i]).0 < t by {
            assert(s0[i] == s[i]);
        }
        assert forall|i: int| p0 <= i < s0.len() implies (#[trigger] s0[i]).0 >= t by {
            assert(s0[i] == s[i]);
        }
        lemma_count_below(s0, t, p0);
        assert(s.last() == s[s.len() - 1]);
    }
}

/// A bounded, timestamp-ordered series of samples for one metric.
pub struct MetricLivedataWindow<V> {
    data: Vec<(u64, V)>,
}

impl<V: Copy> View for MetricLivedataWindow<V> {
    type V = Seq<(u64, V)>;

    closed spec fn view(&self) -> Seq<(u64, V)> {
        self.data@
    }
}

impl<V: Copy> MetricLivedataWindow<V> {
    pub open spec fn wf(&self) -> bool {
        sorted(self@) && self@.len() <= LIVEDATA_WINDOW_LIMIT
    }

    pub fn new() -> (r: Self)
        ensures
            r.wf(),
            r@ == Seq::<(u64, V)>::empty(),
    {
        MetricLivedataWindow { data: Vec::new() }
    }

    /// Adds a sample, replacing one with the same timestamp; the window then
    /// keeps at most its limit of the newest samples.
    pub fn push_data(&mut self, timestamp: u64, value: V)
        requires
            old(self).wf(),
        ensures
            final(self).wf(),
            final(self)@ == window_push(old(self)@, timestamp, value),
    {
        let ghost s = self@;
        let n = self.data.len();
        let mut p: usize = 0;
        while p < n && self.data[p].0 < timestamp
            invariant
                n == self.data@.len(),
                self.data@ == s,
                sorted(s),
                0 <= p <= n,
                forall|i: int| 0 <= i < p ==> (#[trigger] s[i]).0 < timestamp,
            decreases n - p,
        {
            p += 1;
        }
        proof {
            assert forall|i: int| p <= i < s.len() implies (#[trigger] s[i]).0 >= timestamp by {
                if i > p {
                    assert(s[p as int].0 < s[i].0);
                }
            }
            lemma_count_below(s, timestamp, p as int);
        }
        if p < n && self.data[p].0 == timestamp {
            self.data.set(p, (timestamp, value));
            proof {
                assert(self.data@ =~= sorted_insert(s, timestamp, value));
            }
        } else {
            self.data.insert(p, (timestamp, value));
            proof {
                assert(self.data@ =~= sorted_insert(s, timestamp, value));
                assert forall|i: int, j: int| 0 <= i < j < self.data@.len() implies self.data@[i].0
                    < self.data@[j].0 by {
                    if j < p {
                    } else if j == p {
                    } else if i < p {
                        assert(self.data@[j] == s[j - 1]);
                    } else if i == p {
                        assert(self.data@[j] == s[j - 1]);
                    } else {
                        assert(self.data@[i] == s[i - 1]);
                        assert(self.data@[j] == s[j - 1]);
                    }
                }
            }
            if self.data.len() > LIVEDATA_WINDOW_LIMIT {
                let ghost m = self.data@;
                self.data.remove(0);
                proof {
                    assert(self.data@ =~= m.drop_first());
                    assert forall|i: int, j: int| 0 <= i < j < self.data@.len() implies self.data@[i].0
                        < self.data@[j].0 by {
                        assert(self.data@[i] == m[i + 1]);
                        assert(self.data@[j] == m[j + 1]);
                    }
                }
            }
        }
    }

    /// The samples, oldest first.
    pub fn data(&self) -> (r: Vec<(u64, V)>)
        ensures
            r@ == self@,
    {
        let mut r: Vec<(u64, V)> = Vec::new();
        let mut i: usize = 0;
        while i < self.data.len()
            invariant
                0 <= i <= self.data@.len(),
                r@ == self.data@.take(i as int),
            decreases self.data@.len() - i,
        {
            r.push(self.data[i]);
            i += 1;
            proof {
                assert(r@ =~= self.data@.take(i as int));
            }
        }
        proof {
            assert(self.data@.take(i as int) =~= self.data@);
        }
        r
    }

    pub fn len(&self) -> (r: usize)
        ensures
            r == self@.len(),
    {
        self.data.len()
    }

    /// Timestamp of the oldest sample.
    pub fn min_timestamp(&self) -> (r: Option<u64>)
        ensures
            self@.len() == 0 ==> r is None,
            self@.len() > 0 ==> r == Some(self@[0].0),
    {
        if self.data.len() == 0 {
            None
        } else {
            Some(self.data[0].0)
        }
    }

    /// Timestamp of the newest sample.
    pub fn max_timestamp(&self) -> (r: Option<u64>)
        ensures
            self@.len() == 0 ==> r is None,
            self@.len() > 0 ==> r == Some(self@.last().0),
    {
        let n = self.data.len();
        if n == 0 {
            None
        } else {
            Some(self.data[n - 1].0)
        }
    }

    /// Value of the newest sample.
    pub fn last_value(&self) -> (r: Option<V>)
        ensures
            self@.len() == 0 ==> r is None,
            self@.len() > 0 ==> r == Some(self@.last().1),
    {
        let n = self.data.len();
        if n == 0 {
            None
        } else {
            Some(self.data[n - 1].1)
        }
    }
}


/// The window after pushing `samples`, in order, onto `s`.
pub open spec fn push_all<V>(s: Seq<(u64, V)>, samples: Seq<(u64, V)>) -> Seq<(u64, V)>
    decreases samples.len(),
{
    if samples.len() == 0 {
        s
    } else {
        let x = samples.last();
        window_push(push_all(s, samples.drop_last()), x.0, x.1)
    }
}

pub open spec fn distinct_timestamps<V>(samples: Seq<(u64, V)>) -> bool {
    forall|i: int, j: int| 0 <= i < j < samples.len() ==> samples[i].0 != samples[j].0
}

pub open spec fn holds<V>(w: Seq<(u64, V)>, x: (u64, V)) -> bool {
    exists|i: int| 0 <= i < w.len() && w[i] == x
}

pub open spec fn older_than_all<V>(w: Seq<(u64, V)>, t: u64) -> bool {
    forall|i: int| 0 <= i < w.len() ==> t < (#[trigger] w[i]).0
}

proof fn lemma_count_below_split<V>(s: Seq<(u64, V)>, t: u64)
    requires
        sorted(s),
    ensures
        count_below(s, t) <= s.len(),
        forall|i: int| 0 <= i < count_below(s, t) ==> (#[trigger] s[i]).0 < t,
        forall|i: int| count_below(s, t) <= i < s.len() ==> (#[trigger] s[i]).0 >= t,
    decreases s.len(),
{
    if s.len() > 0 {
        let s0 = s.drop_last();
        assert forall|i: int, j: int| 0 <= i < j < s0.len() implies s0[i].0 < s0[j].0 by {
            assert(s0[i] == s[i] && s0[j] == s[j]);
        }
        lemma_count_below_split(s0, t);
        let p0 = count_below(s0, t);
        assert forall|i: int| 0 <= i < p0 implies (#[trigger] s[i]).0 < t by {
            assert(s0[i] == s[i]);
        }
        assert forall|i: int| p0 <= i < s0.len() implies (#[trigger] s[i]).0 >= t by {
            assert(s0[i] == s[i]);
        }
        if s.last().0 < t {
            assert forall|i: int| 0 <= i < s.len() implies (#[trigger] s[i]).0 < t by {
                if i < s.len() - 1 {
                    assert(s[i].0 < s[s.len() - 1].0);
                }
            }
            if p0 < s0.len() {
                assert(s[p0 as int].0 >= t);
                assert(s[p0 as int].0 < t);
            }
        }
    }
}

/// Pushing keeps the window sorted and within its limit.
pub proof fn lemma_window_push_wf<V>(s: Seq<(u64, V)>, t: u64, v: V)
    requires
        sorted(s),
        s.len() <= LIVEDATA_WINDOW_LIMIT,
    ensures
        sorted(window_push(s, t, v)),
        window_push(s, t, v).len() <= LIVEDATA_WINDOW_LIMIT,
{
    lemma_count_below_split(s, t);
    let p = count_below(s, t) as int;
    let m = sorted_insert(s, t, v);
    if p < s.len() && s[p].0 == t {
        assert forall|i: int, j: int| 0 <= i < j < m.len() implies m[i].0 < m[j].0 by {
        }
    } else {
        assert forall|i: int, j: int| 0 <= i < j < m.len() implies m[i].0 < m[j].0 by {
            if j < p {
            } else if j == p {
            } else if i < p {
                assert(m[j] == s[j - 1]);
            } else if i == p {
                assert(m[j] == s[j - 1]);
            } else {
                assert(m[i] == s[i - 1]);
                assert(m[j] == s[j - 1]);
            }
        }
    }
    let w = window_push(s, t, v);
    if m.len() > LIVEDATA_WINDOW_LIMIT {
        assert forall|i: int, j: int| 0 <= i < j < w.len() implies w[i].0 < w[j].0 by {
            assert(w[i] == m[i + 1] && w[j] == m[j + 1]);
        }
    }
}

pub open spec fn min_nat(a: nat, b: nat) -> nat {
    if a < b {
        a
    } else {
        b
    }
}

/// Pushing samples with distinct timestamps onto an empty window, in any
/// order, leaves the newest of them up to the limit, ascending by timestamp:
/// every sample kept was pushed, and every sample left out is older than
/// every sample kept.
pub proof fn lemma_window_keeps_newest<V>(samples: Seq<(u64, V)>)
    requires
        distinct_timestamps(samples),
    ensures
        sorted(push_all(Seq::empty(), samples)),
        push_all(Seq::empty(), samples).len() == min_nat(samples.len(), LIVEDATA_WINDOW_LIMIT as nat),
        forall|i: int|
            0 <= i < push_all(Seq::empty(), samples).len() ==> holds(
                samples,
                #[trigger] push_all(Seq::empty(), samples)[i],
            ),
        forall|k: int|
            0 <= k < samples.len() ==> holds(push_all(Seq::empty(), samples), #[trigger] samples[k])
                || older_than_all(push_all(Seq::empty(), samples), samples[k].0),
        push_all(Seq::empty(), samples).len() < LIVEDATA_WINDOW_LIMIT ==> forall|k: int|
            0 <= k < samples.len() ==> holds(push_all(Seq::empty(), samples), #[trigger] samples[k]),
    decreases samples.len(),
{
    let e = Seq::<(u64, V)>::empty();
    let n = samples.len();
    if n > 0 {
        let prev = samples.drop_last();
        assert forall|i: int, j: int| 0 <= i < j < prev.len() implies prev[i].0 != prev[j].0 by {
            assert(prev[i] == samples[i] && prev[j] == samples[j]);
        }
        lemma_window_keeps_newest(prev);
        let w0 = push_all(e, prev);
        let x = samples.last();
        let t = x.0;
        let w = push_all(e, samples);
        assert(w == window_push(w0, x.0, x.1));
        lemma_window_push_wf(w0, t, x.1);
        lemma_count_below_split(w0, t);
        let p = count_below(w0, t) as int;
        // `t` is new to the window.
        assert forall|i: int| 0 <= i < w0.len() implies (#[trigger] w0[i]).0 != t by {
            assert(holds(samples.drop_last(), w0[i]));
            let k = choose|k: int| 0 <= k < prev.len() && prev[k] == w0[i];
            assert(samples[k] == prev[k]);
        }
        let m = w0.insert(p, x);
        assert(sorted_insert(w0, t, x.1) == m) by {
            if p < w0.len() {
                assert(w0[p].0 != t);
            }
        }
        assert(m[p] == x);
        assert forall|i: int| 0 <= i < p implies #[trigger] m[i] == w0[i] by {}
        assert forall|i: int| p < i < m.len() implies #[trigger] m[i] == w0[i - 1] by {}
        // Every sample in the window was pushed.
        assert forall|i: int| 0 <= i < w.len() implies holds(samples, #[trigger] w[i]) by {
            let j = if m.len() > LIVEDATA_WINDOW_LIMIT {
                i + 1
            } else {
                i
            };
            assert(w[i] == m[j]);
            if j == p {
                assert(samples[n - 1] == x);
            } else {
                let i0 = if j < p {
                    j
                } else {
                    j - 1
                };
                assert(m[j] == w0[i0]);
                assert(holds(prev, w0[i0]));
                let k = choose|k: int| 0 <= k < prev.len() && prev[k] == w0[i0];
                assert(samples[k] == prev[k]);
            }
        }
        if m.len() > LIVEDATA_WINDOW_LIMIT {
            // The window was full: the oldest of `m` left.
            assert(w0.len() == LIVEDATA_WINDOW_LIMIT);
            assert forall|i: int| 0 <= i < w.len() implies #[trigger] w[i] == m[i + 1] by {}
            assert forall|k: int| 0 <= k < n implies holds(w, #[trigger] samples[k])
                || older_than_all(w, samples[k].0) by {
                let y = samples[k];
                if k == n - 1 {
                    if p == 0 {
                        assert forall|i: int| 0 <= i < w.len() implies y.0 < (#[trigger] w[i]).0 by {
                            assert(w[i] == w0[i]);
                            assert(w0[i].0 >= t);
                            assert(w0[i].0 != t);
                        }
                    } else {
                        assert(w[p - 1] == x);
                    }
                } else {
                    assert(prev[k] == y);
                    if holds(w0, y) {
                        let i0 = choose|i0: int| 0 <= i0 < w0.len() && w0[i0] == y;
                        if i0 < p {
                            if i0 > 0 {
                                assert(w[i0 - 1] == y);
                            } else {
                                // `y` was the oldest and left: it is older than the rest and than `x`.
                                assert forall|i: int| 0 <= i < w.len() implies y.0 < (#[trigger] w[i]).0 by {
                                    if i + 1 < p {
                                        assert(w[i] == w0[i + 1]);
                                    } else if i + 1 == p {
                                        assert(w[i] == x);
                                    } else {
                                        assert(w[i] == w0[i]);
                                    }
                                }
                            }
                        } else {
                            assert(w[i0] == y);
                        }
                    } else {
                        assert(older_than_all(w0, y.0));
                        assert forall|i: int| 0 <= i < w.len() implies y.0 < (#[trigger] w[i]).0 by {
                            if i + 1 < p {
                                assert(w[i] == w0[i + 1]);
                            } else if i + 1 == p {
                                assert(w[i] == x);
                                assert(y.0 < w0[0].0);
                            } else {
                                assert(w[i] == w0[i]);
                            }
                        }
                    }
                }
            }
        } else {
            assert(w == m);
            assert forall|k: int| 0 <= k < n implies holds(w, #[trigger] samples[k]) by {
                let y = samples[k];
                if k == n - 1 {
                    assert(w[p] == x);
                } else {
                    assert(prev[k] == y);
                    let i0 = choose|i0: int| 0 <= i0 < w0.len() && w0[i0] == y;
                    if i0 < p {
                        assert(w[i0] == y);
                    } else {
                        assert(w[i0 + 1] == y);
                    }
                }
            }
        }
    }
}


/// Milliseconds in a day.
pub const DAY_MILLIS: u64 = 86_400_000;

/// Whether two timestamps (milliseconds since the epoch) fall on one UTC day.
pub fn same_utc_day(a: u64, b: u64) -> (r: bool)
    ensures
        r == (a / DAY_MILLIS == b / DAY_MILLIS),
{
    a / DAY_MILLIS == b / DAY_MILLIS
}

/// The label format of a window spanning `min_ts` to `max_ts`: the time of
/// day alone when both fall on one day, else the date too.
pub fn label_format(min_ts: u64, max_ts: u64) -> (r: &'static str)
    ensures
        same_day_format(min_ts, max_ts) ==> r@ == "%H:%M:%S"@,
        !same_day_format(min_ts, max_ts) ==> r@ == "%H:%M:%S %d-%m-%y"@,
{
    if same_utc_day(min_ts, max_ts) {
        "%H:%M:%S"
    } else {
        "%H:%M:%S %d-%m-%y"
    }
}

pub open spec fn same_day_format(min_ts: u64, max_ts: u64) -> bool {
    min_ts / DAY_MILLIS == max_ts / DAY_MILLIS
}

/// The text chrono writes for a UTC time in a strftime format.
pub uninterp spec fn utc_text(ms: u64, format: Seq<char>) -> Seq<char>;

/// The last millisecond chrono can represent: the end of its last year, 262142.
pub const LAST_UTC_MILLIS: u64 = 8_210_266_876_799_999;

/// Relies on chrono's `DateTime::<Utc>::from_timestamp_millis` (`None` only past
/// its last year) and `DateTime::format(..).to_string()`, which cannot fail
/// for these two formats.
#[verifier::external_body]
fn format_utc(ms: u64, format: &str) -> (r: Option<String>)
    requires
        ms <= i64::MAX as u64,
        format@ == "%H:%M:%S"@ || format@ == "%H:%M:%S %d-%m-%y"@,
    ensures
        r matches Some(t) ==> t@ == utc_text(ms, format@),
        ms <= LAST_UTC_MILLIS ==> r is Some,
{
    chrono::DateTime::from_timestamp_millis(ms as i64).map(|d| d.format(format).to_string())
}

impl<V: Copy> MetricLivedataWindow<V> {
    /// The labels of the oldest and newest timestamps, in the format
    /// `label_format` picks for them; `None` exactly for an empty window or a
    /// timestamp past the calendar's last year.
    pub fn timestamp_labels(&self) -> (r: Option<(String, String)>)
        ensures
            self@.len() == 0 ==> r is None,
            self@.len() > 0 && self@[0].0 <= LAST_UTC_MILLIS && self@.last().0 <= LAST_UTC_MILLIS
                ==> r is Some,
            r matches Some((a, b)) ==> self@.len() > 0 && {
                let (lo, hi) = (self@[0].0, self@.last().0);
                let f = if same_day_format(lo, hi) {
                    "%H:%M:%S"@
                } else {
                    "%H:%M:%S %d-%m-%y"@
                };
                a@ == utc_text(lo, f) && b@ == utc_text(hi, f)
            },
    {
        let n = self.data.len();
        if n == 0 {
            return None;
        }
        let lo = self.data[0].0;
        let hi = self.data[n - 1].0;
        if lo > i64::MAX as u64 || hi > i64::MAX as u64 {
            return None;
        }
        let f = label_format(lo, hi);
        match (format_utc(lo, f), format_utc(hi, f)) {
            (Some(a), Some(b)) => Some((a, b)),
            _ => None,
        }
    }
}

/// Position of the first window for `key`, or -1.
pub open spec fn key_index<V>(s: Seq<((SensorId, MetricId), Seq<(u64, V)>)>, key: (SensorId, MetricId)) -> int
    decreases s.len(),
{
    if s.len() == 0 {
        -1
    } else {
        let r = key_index(s.drop_last(), key);
        if r >= 0 {
            r
        } else if s.last().0 == key {
            s.len() - 1
        } else {
            -1
        }
    }
}

/// The windows whose key satisfies `keep`, in order.
pub open spec fn retained<V>(s: Seq<((SensorId, MetricId), Seq<(u64, V)>)>, keep: spec_fn((SensorId, MetricId)) -> bool) -> Seq<
    ((SensorId, MetricId), Seq<(u64, V)>),
>
    decreases s.len(),
{
    if s.len() == 0 {
        Seq::empty()
    } else {
        let r = retained(s.drop_last(), keep);
        if keep(s.last().0) {
            r.push(s.last())
        } else {
            r
        }
    }
}

/// The windows after a sample for `key`: its window takes the sample, and a
/// key without a window gets a new one at the end.
pub open spec fn accept_spec<V>(
    s: Seq<((SensorId, MetricId), Seq<(u64, V)>)>,
    key: (SensorId, MetricId),
    ts: u64,
    v: V,
) -> Seq<((SensorId, MetricId), Seq<(u64, V)>)> {
    let i = key_index(s, key);
    if i < 0 {
        s.push((key, window_push(Seq::empty(), ts, v)))
    } else {
        s.update(i, (key, window_push(s[i].1, ts, v)))
    }
}

/// Keys of sensors other than `sid`.
pub open spec fn not_of_sensor(sid: SensorId) -> spec_fn((SensorId, MetricId)) -> bool {
    |k: (SensorId, MetricId)| k.0 != sid
}

/// Keys other than (`sid`, `mid`).
pub open spec fn not_of_metric(sid: SensorId, mid: MetricId) -> spec_fn((SensorId, MetricId)) -> bool {
    |k: (SensorId, MetricId)| k != (sid, mid)
}

/// A numeric livedata value, as a chart takes it; a double as its IEEE 754 bits.
#[derive(Clone, Copy, Debug, PartialEq, Eq, Structural)]
pub enum Sample {
    Integer(i64),
    Double(u64),
    Boolean(bool),
}

/// The numeric sample of a value; text has none.
pub open spec fn sample_of(v: MetricValue) -> Option<Sample> {
    match v {
        MetricValue::Integer(i) => Some(Sample::Integer(i)),
        MetricValue::Double(b) => Some(Sample::Double(b)),
        MetricValue::Boolean(b) => Some(Sample::Boolean(b)),
        MetricValue::String(_) => None,
    }
}

pub fn numeric_sample(v: &MetricValue) -> (r: Option<Sample>)
    ensures
        r == sample_of(*v),
{
    match v {
        MetricValue::Integer(i) => Some(Sample::Integer(*i)),
        MetricValue::Double(b) => Some(Sample::Double(*b)),
        MetricValue::Boolean(b) => Some(Sample::Boolean(*b)),
        MetricValue::String(_) => None,
    }
}

/// What a state event does to the windows: a numeric livedata value goes into
/// its window (text is rejected), a deleted sensor or metric takes its
/// windows along, and every other event leaves them.
pub open spec fn apply_event_spec(s: Seq<((SensorId, MetricId), Seq<(u64, Sample)>)>, e: SensorStateEvent) -> Seq<
    ((SensorId, MetricId), Seq<(u64, Sample)>),
> {
    match e {
        SensorStateEvent::Livedata { sensor_id, metric_id, value, timestamp } => match sample_of(value) {
            Some(x) => accept_spec(s, (sensor_id, metric_id), timestamp, x),
            None => s,
        },
        SensorStateEvent::SensorDeleted { sensor_id } => retained(s, not_of_sensor(sensor_id)),
        SensorStateEvent::MetricDeleted { sensor_id, metric_id } => retained(
            s,
            not_of_metric(sensor_id, metric_id),
        ),
        _ => s,
    }
}

/// The live windows of every (sensor, metric) that has had a numeric sample.
pub struct LivedataWindows<V> {
    entries: Vec<((SensorId, MetricId), MetricLivedataWindow<V>)>,
}

impl<V: Copy> View for LivedataWindows<V> {
    type V = Seq<((SensorId, MetricId), Seq<(u64, V)>)>;

    closed spec fn view(&self) -> Seq<((SensorId, MetricId), Seq<(u64, V)>)> {
        Seq::new(self.entries@.len(), |i: int| (self.entries@[i].0, self.entries@[i].1@))
    }
}

proof fn lemma_key_index_prefix<V>(s: Seq<((SensorId, MetricId), Seq<(u64, V)>)>, key: (SensorId, MetricId), k: int)
    requires
        0 <= k <= s.len(),
        key_index(s.take(k), key) >= 0,
    ensures
        key_index(s, key) == key_index(s.take(k), key),
    decreases s.len() - k,
{
    if k < s.len() {
        assert(s.take(k + 1).drop_last() =~= s.take(k));
        lemma_key_index_prefix(s, key, k + 1);
    } else {
        assert(s.take(k) =~= s);
    }
}

proof fn lemma_key_index_range<V>(s: Seq<((SensorId, MetricId), Seq<(u64, V)>)>, key: (SensorId, MetricId))
    ensures
        -1 <= key_index(s, key) < s.len(),
        key_index(s, key) >= 0 ==> s[key_index(s, key)].0 == key,
    decreases s.len(),
{
    if s.len() > 0 {
        lemma_key_index_range(s.drop_last(), key);
    }
}

impl<V: Copy> LivedataWindows<V> {
    pub open spec fn wf(&self) -> bool {
        forall|i: int| 0 <= i < self@.len() ==> sorted(#[trigger] self@[i].1) && self@[i].1.len() <= LIVEDATA_WINDOW_LIMIT
    }

    pub closed spec fn entries_wf(&self) -> bool {
        forall|i: int| 0 <= i < self.entries@.len() ==> (#[trigger] self.entries@[i]).1.wf()
    }

    pub fn new() -> (r: Self)
        ensures
            r@ == Seq::<((SensorId, MetricId), Seq<(u64, V)>)>::empty(),
            r.entries_wf(),
    {
        let r = LivedataWindows { entries: Vec::new() };
        proof {
            assert(r@ =~= Seq::<((SensorId, MetricId), Seq<(u64, V)>)>::empty());
        }
        r
    }

    fn find(&self, key: (SensorId, MetricId)) -> (r: Option<usize>)
        ensures
            key_index(self@, key) < 0 <==> r is None,
            r matches Some(k) ==> k == key_index(self@, key),
    {
        let n = self.entries.len();
        let mut i: usize = 0;
        while i < n
            invariant
                n == self@.len(),
                0 <= i <= n,
                key_index(self@.take(i as int), key) == -1,
            decreases n - i,
        {
            proof {
                assert(self@.take(i + 1).drop_last() =~= self@.take(i as int));
            }
            if self.entries[i].0.0 == key.0 && self.entries[i].0.1 == key.1 {
                proof {
                    lemma_key_index_prefix(self@, key, i as int + 1);
                }
                return Some(i);
            }
            i += 1;
        }
        proof {
            assert(self@.take(n as int) =~= self@);
        }
        None
    }

    /// Feeds a numeric sample to the window of (`sensor_id`, `metric_id`),
    /// which is created on its first sample.
    pub fn accept(&mut self, sensor_id: SensorId, metric_id: MetricId, timestamp: u64, value: V)
        requires
            old(self).entries_wf(),
        ensures
            final(self).entries_wf(),
            final(self)@ == accept_spec(old(self)@, (sensor_id, metric_id), timestamp, value),
    {
        let key = (sensor_id, metric_id);
        let ghost s = self@;
        proof {
            lemma_key_index_range(s, key);
        }
        match self.find(key) {
            Some(i) => {
                let mut w = MetricLivedataWindow { data: Vec::new() };
                std::mem::swap(&mut w, &mut self.entries[i].1);
                w.push_data(timestamp, value);
                self.entries.set(i, (key, w));
                proof {
                    assert(self@ =~= s.update(i as int, (key, window_push(s[i as int].1, timestamp, value))));
                }
            },
            None => {
                let mut w = MetricLivedataWindow::new();
                w.push_data(timestamp, value);
                self.entries.push((key, w));
                proof {
                    assert(self@ =~= s.push((key, window_push(Seq::empty(), timestamp, value))));
                }
            },
        }
    }
}

impl<V: Copy> LivedataWindows<V> {
    /// Removes the windows whose key fails `keep`, keeping the order of the rest.
    fn retain_keys(&mut self, keep: Ghost<spec_fn((SensorId, MetricId)) -> bool>, sensor_id: SensorId, metric: Option<MetricId>)
        requires
            old(self).entries_wf(),
            forall|k: (SensorId, MetricId)|
                #[trigger] keep@(k) == !(k.0 == sensor_id && (metric is None || k.1 == metric->Some_0)),
        ensures
            final(self).entries_wf(),
            final(self)@ == retained(old(self)@, keep@),
    {
        let ghost s = self@;
        let mut i: usize = 0;
        let ghost mut k: int = 0;
        proof {
            assert(s.take(0) =~= Seq::<((SensorId, MetricId), Seq<(u64, V)>)>::empty());
            assert(self@ =~= retained(s.take(0), keep@) + s.skip(0));
        }
        while i < self.entries.len()
            invariant
                self.entries_wf(),
                forall|q: (SensorId, MetricId)|
                    #[trigger] keep@(q) == !(q.0 == sensor_id && (metric is None || q.1 == metric->Some_0)),
                0 <= k <= s.len(),
                i == retained(s.take(k), keep@).len(),
                self@ == retained(s.take(k), keep@) + s.skip(k),
            decreases s.len() - k,
        {
            let key = self.entries[i].0;
            let drop = key.0 == sensor_id && match metric {
                None => true,
                Some(m) => key.1 == m,
            };
            proof {
                assert(self@[i as int] == s[k]);
                assert(s.take(k + 1).drop_last() =~= s.take(k));
                assert(s.take(k + 1).last() == s[k]);
                assert(keep@(key) == !drop);
            }
            if drop {
                let ghost before = self@;
                let ghost r0 = retained(s.take(k), keep@);
                self.entries.remove(i);
                proof {
                    assert(self@ =~= before.remove(i as int));
                    assert(retained(s.take(k + 1), keep@) == r0);
                    assert(before.remove(i as int) =~= r0 + s.skip(k + 1)) by {
                        assert forall|j: int| 0 <= j < before.len() - 1 implies before.remove(i as int)[j]
                            == (r0 + s.skip(k + 1))[j] by {
                            if j < i {
                                assert(before[j] == r0[j]);
                            } else {
                                assert(before[j + 1] == s.skip(k)[j + 1 - i]);
                                assert(s.skip(k)[j + 1 - i] == s.skip(k + 1)[j - i]);
                            }
                        }
                    }
                }
            } else {
                i += 1;
                proof {
                    assert(self@ =~= retained(s.take(k + 1), keep@) + s.skip(k + 1));
                }
            }
            proof {
                k = k + 1;
            }
        }
        proof {
            assert(k == s.len()) by {
                if k < s.len() {
                    assert(self@.len() == retained(s.take(k), keep@).len() + s.len() - k);
                }
            }
            assert(s.take(k) =~= s);
            assert(self@ =~= retained(s, keep@));
        }
    }

    /// Drops every window of a deleted sensor.
    pub fn drop_sensor(&mut self, sensor_id: SensorId)
        requires
            old(self).entries_wf(),
        ensures
            final(self).entries_wf(),
            final(self)@ == retained(old(self)@, not_of_sensor(sensor_id)),
    {
        self.retain_keys(Ghost(not_of_sensor(sensor_id)), sensor_id, None);
    }

    /// Drops the window of a deleted metric.
    pub fn drop_metric(&mut self, sensor_id: SensorId, metric_id: MetricId)
        requires
            old(self).entries_wf(),
        ensures
            final(self).entries_wf(),
            final(self)@ == retained(old(self)@, not_of_metric(sensor_id, metric_id)),
    {
        self.retain_keys(
            Ghost(not_of_metric(sensor_id, metric_id)),
            sensor_id,
            Some(metric_id),
        );
    }

    /// The samples of (`sensor_id`, `metric_id`), oldest first, if it has a window.
    pub fn samples(&self, sensor_id: SensorId, metric_id: MetricId) -> (r: Option<Vec<(u64, V)>>)
        ensures
            key_index(self@, (sensor_id, metric_id)) < 0 ==> r is None,
            key_index(self@, (sensor_id, metric_id)) >= 0 ==> (r matches Some(v) && v@ == self@[key_index(
                self@,
                (sensor_id, metric_id),
            )].1),
    {
        proof {
            lemma_key_index_range(self@, (sensor_id, metric_id));
        }
        match self.find((sensor_id, metric_id)) {
            None => None,
            Some(i) => Some(self.entries[i].1.data()),
        }
    }

    /// The window of (`sensor_id`, `metric_id`), if it has one.
    pub fn window(&self, sensor_id: SensorId, metric_id: MetricId) -> (r: Option<&MetricLivedataWindow<V>>)
        ensures
            key_index(self@, (sensor_id, metric_id)) < 0 ==> r is None,
            key_index(self@, (sensor_id, metric_id)) >= 0 ==> (r matches Some(w) && w@ == self@[key_index(
                self@,
                (sensor_id, metric_id),
            )].1),
    {
        proof {
            lemma_key_index_range(self@, (sensor_id, metric_id));
        }
        match self.find((sensor_id, metric_id)) {
            None => None,
            Some(i) => Some(&self.entries[i].1),
        }
    }
}


impl LivedataWindows<Sample> {
    /// Brings the windows up to date with one state event.
    pub fn apply_event(&mut self, event: &SensorStateEvent)
        requires
            old(self).entries_wf(),
        ensures
            final(self).entries_wf(),
            final(self)@ == apply_event_spec(old(self)@, *event),
    {
        match event {
            SensorStateEvent::Livedata { sensor_id, metric_id, value, timestamp } => {
                match numeric_sample(value) {
                    Some(x) => self.accept(*sensor_id, *metric_id, *timestamp, x),
                    None => {},
                }
            },
            SensorStateEvent::SensorDeleted { sensor_id } => self.drop_sensor(*sensor_id),
            SensorStateEvent::MetricDeleted { sensor_id, metric_id } => self.drop_metric(*sensor_id, *metric_id),
            _ => {},
        }
    }
}

} // verus!
