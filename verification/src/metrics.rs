//! An explicit metrics collector: operation counters, named timers and a
//! header line, handed to the components that report into it.

use vstd::prelude::*;
use vstd::string::*;

verus! {

/// Number of counter slots of a collector. Slots `0..4` are resettable
/// counters, slot `i + 4` is the running total that belongs to slot `i`.
pub const COUNTER_SLOTS: usize = 8;

/// Number of counters that have a running total beside them.
pub const COUNTER_PAIRS: usize = 4;

/// A named point in time, in milliseconds on the caller's clock.
pub struct Timer {
    pub name: String,
    pub started_ms: u128,
}

/// Counters, timers and the header line of one profiling session.
pub struct Collector {
    counters: Vec<u64>,
    timers: Vec<Timer>,
    header: String,
}

/// The names in `timers` are pairwise different.
pub open spec fn distinct_timers(timers: Seq<Timer>) -> bool {
    forall|i: int, j: int|
        0 <= i < j < timers.len() ==> (#[trigger] timers[i]).name@ != (#[trigger] timers[j]).name@
}

/// The start time recorded under `name`, if there is one.
pub open spec fn timer_lookup(timers: Seq<Timer>, name: Seq<char>) -> Option<u128> {
    if exists|i: int| 0 <= i < timers.len() && (#[trigger] timers[i]).name@ == name {
        let i = choose|i: int| 0 <= i < timers.len() && (#[trigger] timers[i]).name@ == name;
        Some(timers[i].started_ms)
    } else {
        None
    }
}

impl Collector {
    /// The eight counter values, by slot.
    pub closed spec fn counters(&self) -> Seq<u64> {
        self.counters@
    }

    /// The start time of each named timer.
    pub closed spec fn timers(&self) -> Map<Seq<char>, u128> {
        Map::new(
            |name: Seq<char>| timer_lookup(self.timers@, name) is Some,
            |name: Seq<char>| timer_lookup(self.timers@, name)->0,
        )
    }

    /// The header that is put before each reported message.
    pub closed spec fn header(&self) -> Seq<char> {
        self.header@
    }

    /// A collector has all its counter slots and no timer name twice.
    pub closed spec fn wf(&self) -> bool {
        &&& self.counters@.len() == COUNTER_SLOTS
        &&& distinct_timers(self.timers@)
    }

    /// A collector with all counters at zero, no timers and an empty header.
    pub fn new() -> (collector: Collector)
        ensures
            collector.wf(),
            collector.counters() == Seq::new(COUNTER_SLOTS as nat, |i: int| 0u64),
            collector.timers() == Map::<Seq<char>, u128>::empty(),
            collector.header() == Seq::<char>::empty(),
    {
        let mut counters: Vec<u64> = Vec::new();
        let mut i: usize = 0;
        while i < COUNTER_SLOTS
            invariant
                i <= COUNTER_SLOTS,
                counters@ == Seq::new(i as nat, |k: int| 0u64),
            decreases COUNTER_SLOTS - i,
        {
            counters.push(0);
            i += 1;
            assert(counters@ =~= Seq::new(i as nat, |k: int| 0u64));
        }
        let collector = Collector { counters, timers: Vec::new(), header: String::new() };
        assert(collector.timers() =~= Map::<Seq<char>, u128>::empty());
        collector
    }
}

/// Counts one operation in slot `id` and in its running total.
/// Both counters wrap round at `u64::MAX`.
pub fn inc(collector: &mut Collector, id: usize)
    requires
        old(collector).wf(),
        id < COUNTER_PAIRS,
    ensures
        final(collector).wf(),
        final(collector).counters() == old(collector).counters().update(
            id as int,
            old(collector).counters()[id as int].wrapping_add(1),
        ).update(id + 4, old(collector).counters()[id + 4].wrapping_add(1)),
        final(collector).timers() == old(collector).timers(),
        final(collector).header() == old(collector).header(),
{
    let low = collector.counters[id].wrapping_add(1);
    collector.counters.set(id, low);
    let high = collector.counters[id + 4].wrapping_add(1);
    collector.counters.set(id + 4, high);
}

/// The value of counter `id`.
pub fn get(collector: &Collector, id: usize) -> (value: u64)
    requires
        collector.wf(),
        id < COUNTER_SLOTS,
    ensures
        value == collector.counters()[id as int],
{
    collector.counters[id]
}

/// Sets counter `id` back to zero and leaves the others as they are.
pub fn reset(collector: &mut Collector, id: usize)
    requires
        old(collector).wf(),
        id < COUNTER_SLOTS,
    ensures
        final(collector).wf(),
        final(collector).counters() == old(collector).counters().update(id as int, 0),
        final(collector).timers() == old(collector).timers(),
        final(collector).header() == old(collector).header(),
{
    collector.counters.set(id, 0);
}

/// The name of the timer that is started at the first report.
pub open spec fn session_timer() -> Seq<char> {
    "g0"@
}

/// The name of the timer that is started anew at each report.
pub open spec fn report_timer() -> Seq<char> {
    "gtimer"@
}

/// The milliseconds from `since` to `now`; none where `now` is the earlier.
pub open spec fn elapsed(now: u128, since: u128) -> u128 {
    if now >= since {
        (now - since) as u128
    } else {
        0
    }
}

/// The distance between two numbers.
pub open spec fn distance(a: int, b: int) -> int {
    if a > b {
        a - b
    } else {
        b - a
    }
}

/// The milliseconds from `since` to `now`; none where `now` is the earlier.
pub fn elapsed_ms(now: u128, since: u128) -> (ms: u128)
    ensures
        ms == elapsed(now, since),
{
    if now >= since {
        now - since
    } else {
        0
    }
}

/// The unit in which a count is shown.
#[derive(Clone, Copy, Debug, PartialEq, Eq, Structural)]
pub enum Unit {
    One,
    Kilo,
    Mega,
    Giga,
}

/// A count and the unit in which it is shown: the text is the count
/// divided by `divisor`, with one decimal, and the unit's letter.
#[derive(Clone, Copy, Debug, PartialEq, Eq, Structural)]
pub struct Scaled {
    pub count: u64,
    pub divisor: u64,
    pub unit: Unit,
}

/// The unit for a count: the largest of thousand, million and billion that
/// the count reaches.
pub open spec fn unit_for(count: u64) -> Unit {
    if count > 999_999_999 {
        Unit::Giga
    } else if count > 999_999 {
        Unit::Mega
    } else if count > 999 {
        Unit::Kilo
    } else {
        Unit::One
    }
}

/// What one unit is worth.
pub open spec fn worth(unit: Unit) -> u64 {
    match unit {
        Unit::One => 1,
        Unit::Kilo => 1_000,
        Unit::Mega => 1_000_000,
        Unit::Giga => 1_000_000_000,
    }
}

/// Picks the unit in which the count `n` is shown.
pub fn hum(n: u64) -> (scaled: Scaled)
    ensures
        scaled.count == n,
        scaled.unit == unit_for(n),
        scaled.divisor == worth(unit_for(n)),
{
    if n > 999_999_999 {
        Scaled { count: n, divisor: 1_000_000_000, unit: Unit::Giga }
    } else if n > 999_999 {
        Scaled { count: n, divisor: 1_000_000, unit: Unit::Mega }
    } else if n > 999 {
        Scaled { count: n, divisor: 1_000, unit: Unit::Kilo }
    } else {
        Scaled { count: n, divisor: 1, unit: Unit::One }
    }
}

impl Unit {
    /// The letter that is put behind a count in this unit.
    pub fn letter(&self) -> (letter: &'static str)
        ensures
            letter@ == (match *self {
                Unit::One => ""@,
                Unit::Kilo => "k"@,
                Unit::Mega => "m"@,
                Unit::Giga => "g"@,
            }),
    {
        match self {
            Unit::One => "",
            Unit::Kilo => "k",
            Unit::Mega => "m",
            Unit::Giga => "g",
        }
    }
}

/// How a time is shown.
#[derive(Clone, Copy, Debug, PartialEq, Eq, Structural)]
pub enum Shown {
    /// As whole milliseconds.
    Millis(u128),
    /// As seconds with one decimal, from this many milliseconds.
    Seconds(u128),
}

/// Picks how the time `ms` is shown: as seconds from one second on.
pub fn th(ms: u128) -> (shown: Shown)
    ensures
        shown == (if ms > 999 {
            Shown::Seconds(ms)
        } else {
            Shown::Millis(ms)
        }),
{
    if ms > 999 {
        Shown::Seconds(ms)
    } else {
        Shown::Millis(ms)
    }
}

/// The counts that a flush reports: additions and multiplications, each
/// since the last flush and in all.
#[derive(Clone, Copy, Debug, PartialEq, Eq, Structural)]
pub struct FlushReport {
    pub additions: u64,
    pub additions_total: u64,
    pub multiplications: u64,
    pub multiplications_total: u64,
}

/// What a flush reports of these counters.
pub open spec fn flush_report(counters: Seq<u64>) -> FlushReport {
    FlushReport {
        additions: counters[0],
        additions_total: counters[4],
        multiplications: counters[2],
        multiplications_total: counters[6],
    }
}

/// The counters after a flush: the first three are back at zero.
pub open spec fn flushed(counters: Seq<u64>) -> Seq<u64> {
    counters.update(0, 0).update(1, 0).update(2, 0)
}

impl Collector {
    /// The place of the timer `name`, if there is one.
    fn find_timer(&self, name: &String) -> (place: Option<usize>)
        requires
            self.wf(),
        ensures
            match place {
                Some(i) => i < self.timers@.len() && self.timers@[i as int].name@ == name@
                    && timer_lookup(self.timers@, name@) == Some(
                    self.timers@[i as int].started_ms,
                ),
                None => timer_lookup(self.timers@, name@) is None,
            },
    {
        let total: usize = self.timers.len();
        let mut i: usize = 0;
        while i < total
            invariant
                i <= total == self.timers@.len(),
                distinct_timers(self.timers@),
                forall|k: int| 0 <= k < i ==> (#[trigger] self.timers@[k]).name@ != name@,
            decreases total - i,
        {
            if self.timers[i].name == *name {
                proof {
                    let found = choose|k: int|
                        0 <= k < self.timers@.len() && (#[trigger] self.timers@[k]).name@
                            == name@;
                    assert(found == i) by {
                        if found < i {
                            assert(self.timers@[found].name@ != self.timers@[i as int].name@);
                        } else if found > i {
                            assert(self.timers@[i as int].name@ != self.timers@[found].name@);
                        }
                    }
                }
                return Some(i);
            }
            i += 1;
        }
        None
    }

    /// The start time of the timer `name`, if there is one.
    pub fn timer(&self, name: &str) -> (started: Option<u128>)
        requires
            self.wf(),
        ensures
            started == (if self.timers().contains_key(name@) {
                Some(self.timers()[name@])
            } else {
                None
            }),
    {
        let key = String::from_str(name);
        match self.find_timer(&key) {
            Some(i) => Some(self.timers[i].started_ms),
            None => None,
        }
    }

    /// Starts the timer `name` at `now`, whether it ran before or not.
    pub fn set_timer(&mut self, name: &str, now: u128)
        requires
            old(self).wf(),
        ensures
            final(self).wf(),
            final(self).timers() == old(self).timers().insert(name@, now),
            final(self).counters() == old(self).counters(),
            final(self).header() == old(self).header(),
    {
        let key = String::from_str(name);
        let ghost before = self.timers@;
        match self.find_timer(&key) {
            Some(i) => {
                self.timers.set(i, Timer { name: key, started_ms: now });
                proof {
                    let after = self.timers@;
                    assert forall|k: int| 0 <= k < after.len() implies (#[trigger] after[k]).name@
                        == before[k].name@ by {}
                    assert(distinct_timers(after));
                    lemma_lookup_after_update(before, after, i as int, name@, now);
                }
            },
            None => {
                self.timers.push(Timer { name: key, started_ms: now });
                proof {
                    let after = self.timers@;
                    assert forall|a: int, b: int| 0 <= a < b < after.len() implies (
                    #[trigger] after[a]).name@ != (#[trigger] after[b]).name@ by {
                        if b < before.len() {
                            assert(after[a] == before[a] && after[b] == before[b]);
                        } else {
                            assert(after[a] == before[a]);
                            if before[a].name@ == name@ {
                                assert(timer_lookup(before, name@) is Some);
                            }
                        }
                    }
                    lemma_lookup_after_push(before, after, name@, now);
                }
            },
        }
        assert(self.timers() =~= old(self).timers().insert(name@, now));
    }
}

proof fn lemma_lookup_after_update(
    before: Seq<Timer>,
    after: Seq<Timer>,
    place: int,
    name: Seq<char>,
    now: u128,
)
    requires
        distinct_timers(before),
        distinct_timers(after),
        0 <= place < before.len(),
        after.len() == before.len(),
        before[place].name@ == name,
        after[place].name@ == name,
        after[place].started_ms == now,
        forall|k: int| 0 <= k < before.len() && k != place ==> after[k] == before[k],
    ensures
        forall|other: Seq<char>|
            #[trigger] timer_lookup(after, other) == (if other == name {
                Some(now)
            } else {
                timer_lookup(before, other)
            }),
{
    assert forall|other: Seq<char>|
        #[trigger] timer_lookup(after, other) == (if other == name {
            Some(now)
        } else {
            timer_lookup(before, other)
        }) by {
        lemma_lookup_unique(after);
        lemma_lookup_unique(before);
        if other == name {
            assert(after[place].name@ == other);
        } else if exists|k: int| 0 <= k < before.len() && (#[trigger] before[k]).name@ == other {
            let k = choose|k: int| 0 <= k < before.len() && (#[trigger] before[k]).name@ == other;
            assert(after[k] == before[k]);
            assert(after[k].name@ == other);
        } else if exists|k: int| 0 <= k < after.len() && (#[trigger] after[k]).name@ == other {
            let k = choose|k: int| 0 <= k < after.len() && (#[trigger] after[k]).name@ == other;
            assert(before[k] == after[k]);
            assert(before[k].name@ == other);
        }
    }
}

proof fn lemma_lookup_after_push(
    before: Seq<Timer>,
    after: Seq<Timer>,
    name: Seq<char>,
    now: u128,
)
    requires
        distinct_timers(before),
        distinct_timers(after),
        after.len() == before.len() + 1,
        timer_lookup(before, name) is None,
        after[before.len() as int].name@ == name,
        after[before.len() as int].started_ms == now,
        forall|k: int| 0 <= k < before.len() ==> after[k] == before[k],
    ensures
        forall|other: Seq<char>|
            #[trigger] timer_lookup(after, other) == (if other == name {
                Some(now)
            } else {
                timer_lookup(before, other)
            }),
{
    assert forall|other: Seq<char>|
        #[trigger] timer_lookup(after, other) == (if other == name {
            Some(now)
        } else {
            timer_lookup(before, other)
        }) by {
        lemma_lookup_unique(after);
        lemma_lookup_unique(before);
        if other == name {
            assert(after[before.len() as int].name@ == other);
        } else if exists|k: int| 0 <= k < before.len() && (#[trigger] before[k]).name@ == other {
            let k = choose|k: int| 0 <= k < before.len() && (#[trigger] before[k]).name@ == other;
            assert(after[k] == before[k]);
            assert(after[k].name@ == other);
        } else if exists|k: int| 0 <= k < after.len() && (#[trigger] after[k]).name@ == other {
            let k = choose|k: int| 0 <= k < after.len() && (#[trigger] after[k]).name@ == other;
            assert(k < before.len());
            assert(before[k] == after[k]);
            assert(before[k].name@ == other);
        }
    }
}

/// Among timers with different names, a name is looked up at its one place.
proof fn lemma_lookup_unique(timers: Seq<Timer>)
    requires
        distinct_timers(timers),
    ensures
        forall|k: int|
            0 <= k < timers.len() ==> timer_lookup(timers, (#[trigger] timers[k]).name@) == Some(
                timers[k].started_ms,
            ),
{
    assert forall|k: int| 0 <= k < timers.len() implies timer_lookup(
        timers,
        (#[trigger] timers[k]).name@,
    ) == Some(timers[k].started_ms) by {
        let name = timers[k].name@;
        let found = choose|i: int| 0 <= i < timers.len() && (#[trigger] timers[i]).name@ == name;
        if found < k {
            assert(timers[found].name@ != timers[k].name@);
        } else if found > k {
            assert(timers[k].name@ != timers[found].name@);
        }
    }
}

/// Reports the counts of additions and multiplications and sets the first
/// three counters back to zero.
pub fn flush(collector: &mut Collector) -> (report: FlushReport)
    requires
        old(collector).wf(),
    ensures
        final(collector).wf(),
        report == flush_report(old(collector).counters()),
        final(collector).counters() == flushed(old(collector).counters()),
        final(collector).timers() == old(collector).timers(),
        final(collector).header() == old(collector).header(),
{
    let report = FlushReport {
        additions: get(collector, 0),
        additions_total: get(collector, 4),
        multiplications: get(collector, 2),
        multiplications_total: get(collector, 6),
    };
    let mut i: usize = 0;
    while i < 3
        invariant
            i <= 3,
            collector.wf(),
            collector.timers() == old(collector).timers(),
            collector.header() == old(collector).header(),
            collector.counters().len() == COUNTER_SLOTS,
            forall|k: int|
                0 <= k < COUNTER_SLOTS ==> collector.counters()[k] == (if k < i {
                    0
                } else {
                    old(collector).counters()[k]
                }),
        decreases 3 - i,
    {
        reset(collector, i);
        i += 1;
    }
    assert(collector.counters() =~= flushed(old(collector).counters()));
    report
}

/// Starts the timer `name` at `now` and flushes the counters.
pub fn start(collector: &mut Collector, name: &str, now: u128) -> (report: FlushReport)
    requires
        old(collector).wf(),
    ensures
        final(collector).wf(),
        report == flush_report(old(collector).counters()),
        final(collector).counters() == flushed(old(collector).counters()),
        final(collector).timers() == old(collector).timers().insert(name@, now),
        final(collector).header() == old(collector).header(),
{
    collector.set_timer(name, now);
    flush(collector)
}

/// Ends a measurement: where the timer `name` was started, flushes the
/// counters and gives the report and the milliseconds since the start;
/// where it was not, leaves the collector as it is.
pub fn end(collector: &mut Collector, name: &str, now: u128) -> (outcome: Option<
    (FlushReport, u128),
>)
    requires
        old(collector).wf(),
    ensures
        final(collector).wf(),
        final(collector).timers() == old(collector).timers(),
        final(collector).header() == old(collector).header(),
        match outcome {
            Some((report, ms)) => {
                &&& old(collector).timers().contains_key(name@)
                &&& report == flush_report(old(collector).counters())
                &&& ms == elapsed(now, old(collector).timers()[name@])
                &&& final(collector).counters() == flushed(old(collector).counters())
            },
            None => {
                &&& !old(collector).timers().contains_key(name@)
                &&& final(collector).counters() == old(collector).counters()
            },
        },
{
    match collector.timer(name) {
        None => None,
        Some(started) => {
            let report = flush(collector);
            Some((report, elapsed_ms(now, started)))
        },
    }
}

/// Sets the header to `h` and a blank.
pub fn hint(collector: &mut Collector, h: &str)
    requires
        old(collector).wf(),
    ensures
        final(collector).wf(),
        final(collector).header() == h@ + " "@,
        final(collector).counters() == old(collector).counters(),
        final(collector).timers() == old(collector).timers(),
{
    collector.header = String::from_str(h).concat(" ");
}

/// What a report outside a probe shows.
#[derive(Debug, PartialEq, Eq)]
pub struct PeekReport {
    /// Milliseconds since the session timer was started.
    pub session_ms: u128,
    /// The header, then the message.
    pub line: String,
    /// Milliseconds since the last report of a probe; none before the first.
    pub since_report_ms: u128,
    /// Multiplications since the last report of a probe.
    pub multiplications: u64,
}

/// Reports on the session at `now`, without changing it.
pub fn peek(collector: &Collector, msg: &str, now: u128) -> (report: PeekReport)
    requires
        collector.wf(),
        collector.timers().contains_key(session_timer()),
        collector.counters()[2] >= collector.counters()[1],
    ensures
        report.session_ms == elapsed(now, collector.timers()[session_timer()]),
        report.line@ == collector.header() + msg@,
        report.since_report_ms == (if collector.timers().contains_key(report_timer()) {
            elapsed(now, collector.timers()[report_timer()])
        } else {
            0
        }),
        report.multiplications == collector.counters()[2] - collector.counters()[1],
{
    let since_report_ms: u128 = match collector.timer("gtimer") {
        None => 0,
        Some(started) => elapsed_ms(now, started),
    };
    let session_ms: u128 = match collector.timer("g0") {
        None => 0,
        Some(started) => elapsed_ms(now, started),
    };
    let multiplications: u64 = get(collector, 2) - get(collector, 1);
    let line = collector.header.clone().concat(msg);
    PeekReport { session_ms, line, since_report_ms, multiplications }
}

/// A variable that a probe was told of.
#[derive(Debug)]
pub struct Apvar {
    pub name: String,
    pub shape: String,
    pub len: usize,
    pub dynamic: bool,
}

/// A variable of a probe as contracts speak of it.
pub struct ApvarView {
    pub name: Seq<char>,
    pub shape: Seq<char>,
    pub len: usize,
    pub dynamic: bool,
}

impl View for Apvar {
    type V = ApvarView;

    open spec fn view(&self) -> ApvarView {
        ApvarView { name: self.name@, shape: self.shape@, len: self.len, dynamic: self.dynamic }
    }
}

/// A probe: the time and the count of multiplications at which it was
/// set, the operation it watches and the variables it was told of.
#[derive(Debug)]
pub struct Ap {
    t: u128,
    c: u64,
    op: String,
    vars: Vec<Apvar>,
}

/// Whether a variable called `name` is among `vars`.
pub open spec fn has_var(vars: Seq<ApvarView>, name: Seq<char>) -> bool {
    exists|i: int| 0 <= i < vars.len() && (#[trigger] vars[i]).name == name
}

/// The variables after one called `name` was told of: as before where the
/// name was known, else with the new one at the end.
pub open spec fn with_var(vars: Seq<ApvarView>, var: ApvarView) -> Seq<ApvarView> {
    if has_var(vars, var.name) {
        vars
    } else {
        vars.push(var)
    }
}

/// The line that a report shows for a variable: a star where it is
/// dynamic, its name, a colon and a blank, its shape.
pub open spec fn var_label(var: ApvarView) -> Seq<char> {
    (if var.dynamic {
        "*"@
    } else {
        ""@
    }) + var.name + ": "@ + var.shape
}

/// One line of a probe's report: a variable's label and its length.
#[derive(Debug, PartialEq, Eq)]
pub struct VarLine {
    pub label: String,
    pub len: usize,
}

/// What a probe reports.
#[derive(Debug, PartialEq, Eq)]
pub struct ApReport {
    /// Milliseconds since the session timer was started.
    pub session_ms: u128,
    /// Milliseconds since the probe was set.
    pub own_ms: u128,
    /// Whether the last report is longer ago than the probe was set.
    pub later: bool,
    /// The distance between the two in milliseconds.
    pub gap_ms: u128,
    /// Multiplications since the probe was set.
    pub multiplications: u64,
    /// The distance between that and the multiplications since the last report.
    pub multiplications_gap: u64,
    /// The header of the session.
    pub header: String,
    /// The message.
    pub msg: String,
    /// One line for each variable, in the order in which they were told.
    pub vars: Vec<VarLine>,
}

impl Ap {
    /// The time at which the probe was set.
    pub closed spec fn started(&self) -> u128 {
        self.t
    }

    /// The count of multiplications at which the probe was set.
    pub closed spec fn count(&self) -> u64 {
        self.c
    }

    /// The count of multiplications at which the probe was set.
    pub fn base_count(&self) -> (count: u64)
        ensures
            count == self.count(),
    {
        self.c
    }

    /// The operation that the probe watches.
    pub closed spec fn op(&self) -> Seq<char> {
        self.op@
    }

    /// The variables that the probe was told of, in order.
    pub closed spec fn vars(&self) -> Seq<ApvarView> {
        self.vars@.map_values(|var: Apvar| var@)
    }

    fn knows(&self, name: &String) -> (known: bool)
        ensures
            known == has_var(self.vars(), name@),
    {
        let total: usize = self.vars.len();
        let mut i: usize = 0;
        while i < total
            invariant
                i <= total == self.vars@.len(),
                forall|k: int| 0 <= k < i ==> (#[trigger] self.vars()[k]).name != name@,
            decreases total - i,
        {
            if self.vars[i].name == *name {
                assert(self.vars()[i as int].name == name@);
                return true;
            }
            i += 1;
        }
        false
    }

    fn tell(&mut self, name: &str, shape: &str, len: usize, dynamic: bool)
        ensures
            final(self).vars() == with_var(
                old(self).vars(),
                ApvarView { name: name@, shape: shape@, len, dynamic },
            ),
            final(self).started() == old(self).started(),
            final(self).count() == old(self).count(),
            final(self).op() == old(self).op(),
    {
        let key = String::from_str(name);
        if !self.knows(&key) {
            let ghost before = self.vars();
            self.vars.push(Apvar { name: key, shape: String::from_str(shape), len, dynamic });
            assert(self.vars() =~= before.push(
                ApvarView { name: name@, shape: shape@, len, dynamic },
            ));
        }
    }

    /// Tells the probe of a variable of fixed size. A name that the probe
    /// knows keeps what was told first.
    pub fn set_const(&mut self, name: &str, shape: &str, len: usize) -> (probe: &mut Self)
        ensures
            probe.vars() == with_var(
                old(self).vars(),
                ApvarView { name: name@, shape: shape@, len, dynamic: false },
            ),
            probe.started() == old(self).started(),
            probe.count() == old(self).count(),
            probe.op() == old(self).op(),
            *final(self) == *final(probe),
    {
        self.tell(name, shape, len, false);
        self
    }

    /// Tells the probe of a variable of changing size. A name that the
    /// probe knows keeps what was told first.
    pub fn set_dynmc(&mut self, name: &str, shape: &str, len: usize) -> (probe: &mut Self)
        ensures
            probe.vars() == with_var(
                old(self).vars(),
                ApvarView { name: name@, shape: shape@, len, dynamic: true },
            ),
            probe.started() == old(self).started(),
            probe.count() == old(self).count(),
            probe.op() == old(self).op(),
            *final(self) == *final(probe),
    {
        self.tell(name, shape, len, true);
        self
    }

    /// Names the operation that the probe watches.
    pub fn set_op(&mut self, s: &str) -> (probe: &mut Self)
        ensures
            probe.op() == s@,
            probe.vars() == old(self).vars(),
            probe.started() == old(self).started(),
            probe.count() == old(self).count(),
            *final(self) == *final(probe),
    {
        self.op = String::from_str(s);
        self
    }

    /// Sets the probe anew at `now`: it takes the collector's count of
    /// multiplications and forgets its variables and its operation.
    pub fn reset(&mut self, collector: &Collector, now: u128)
        requires
            collector.wf(),
        ensures
            final(self).started() == now,
            final(self).count() == collector.counters()[2],
            final(self).vars() == Seq::<ApvarView>::empty(),
            final(self).op() == Seq::<char>::empty(),
    {
        self.t = now;
        self.c = get(collector, 2);
        self.vars = Vec::new();
        self.op = String::new();
        assert(self.vars() =~= Seq::<ApvarView>::empty());
    }

    /// One line for each variable of the probe.
    fn var_lines(&self) -> (lines: Vec<VarLine>)
        ensures
            lines@.len() == self.vars().len(),
            forall|i: int|
                0 <= i < lines@.len() ==> (#[trigger] lines@[i]).label@ == var_label(
                    self.vars()[i],
                ) && lines@[i].len == self.vars()[i].len,
    {
        let total: usize = self.vars.len();
        let mut lines: Vec<VarLine> = Vec::new();
        let mut i: usize = 0;
        while i < total
            invariant
                i <= total == self.vars@.len(),
                lines@.len() == i,
                forall|k: int|
                    0 <= k < i ==> (#[trigger] lines@[k]).label@ == var_label(self.vars()[k])
                        && lines@[k].len == self.vars()[k].len,
            decreases total - i,
        {
            let var = &self.vars[i];
            let mark = if var.dynamic {
                "*"
            } else {
                ""
            };
            let label = String::from_str(mark).concat(var.name.as_str()).concat(": ").concat(
                var.shape.as_str(),
            );
            assert(label@ == var_label(self.vars()[i as int]));
            lines.push(VarLine { label, len: var.len });
            i += 1;
        }
        lines
    }

    /// Reports on the probe at `now`, then records the report in the
    /// collector and sets the probe anew. The session timer is started
    /// where it was not; counter 1 takes the count of multiplications; the
    /// report timer is started anew.
    pub fn peek(&mut self, collector: &mut Collector, msg: &str, now: u128) -> (report: ApReport)
        requires
            old(collector).wf(),
            old(collector).counters()[2] >= old(collector).counters()[1],
            old(collector).counters()[2] >= old(self).count(),
        ensures
            final(collector).wf(),
            report.session_ms == (if old(collector).timers().contains_key(session_timer()) {
                elapsed(now, old(collector).timers()[session_timer()])
            } else {
                0
            }),
            report.own_ms == elapsed(now, old(self).started()),
            report.later == (since_report(old(collector).timers(), old(self).started(), now)
                > report.own_ms),
            report.gap_ms == distance(
                since_report(old(collector).timers(), old(self).started(), now) as int,
                report.own_ms as int,
            ),
            report.multiplications == old(collector).counters()[2] - old(self).count(),
            report.multiplications_gap == distance(
                old(collector).counters()[2] - old(collector).counters()[1],
                old(collector).counters()[2] - old(self).count(),
            ),
            report.header@ == old(collector).header(),
            report.msg@ == msg@,
            report.vars@.len() == old(self).vars().len(),
            forall|i: int|
                0 <= i < report.vars@.len() ==> (#[trigger] report.vars@[i]).label@ == var_label(
                    old(self).vars()[i],
                ) && report.vars@[i].len == old(self).vars()[i].len,
            final(collector).counters() == old(collector).counters().update(
                1,
                old(collector).counters()[2],
            ),
            final(collector).timers() == (if old(collector).timers().contains_key(
                session_timer(),
            ) {
                old(collector).timers()
            } else {
                old(collector).timers().insert(session_timer(), now)
            }).insert(report_timer(), now),
            final(collector).header() == old(collector).header(),
            final(self).started() == now,
            final(self).count() == old(collector).counters()[2],
            final(self).vars() == Seq::<ApvarView>::empty(),
            final(self).op() == Seq::<char>::empty(),
    {
        proof {
            reveal_strlit("g0");
            reveal_strlit("gtimer");
            assert(session_timer() != report_timer()) by {
                assert(session_timer().len() == 2);
                assert(report_timer().len() == 6);
            }
        }
        let session_start: u128 = match collector.timer("g0") {
            Some(started) => started,
            None => {
                collector.set_timer("g0", now);
                now
            },
        };
        let own_ms: u128 = elapsed_ms(now, self.t);
        let since_report_ms: u128 = match collector.timer("gtimer") {
            None => own_ms,
            Some(started) => elapsed_ms(now, started),
        };
        let session_ms: u128 = elapsed_ms(now, session_start);
        let multiplications_now: u64 = get(collector, 2);
        let since_report: u64 = multiplications_now - get(collector, 1);
        let multiplications: u64 = multiplications_now - self.c;
        let later: bool = since_report_ms > own_ms;
        let report = ApReport {
            session_ms,
            own_ms,
            later,
            gap_ms: if later {
                since_report_ms - own_ms
            } else {
                own_ms - since_report_ms
            },
            multiplications,
            multiplications_gap: if since_report > multiplications {
                since_report - multiplications
            } else {
                multiplications - since_report
            },
            header: collector.header.clone(),
            msg: String::from_str(msg),
            vars: self.var_lines(),
        };
        collector.counters.set(1, multiplications_now);
        collector.set_timer("gtimer", now);
        self.reset(collector, now);
        report
    }
}

/// The milliseconds since the last report of a probe; where there was
/// none, since the probe was set.
pub open spec fn since_report(
    timers: Map<Seq<char>, u128>,
    probe_started: u128,
    now: u128,
) -> u128 {
    if timers.contains_key(report_timer()) {
        elapsed(now, timers[report_timer()])
    } else {
        elapsed(now, probe_started)
    }
}

/// A probe set at `now`, with the collector's count of multiplications, no
/// operation and no variables.
pub fn poke(collector: &Collector, now: u128) -> (probe: Ap)
    requires
        collector.wf(),
    ensures
        probe.started() == now,
        probe.count() == collector.counters()[2],
        probe.op() == Seq::<char>::empty(),
        probe.vars() == Seq::<ApvarView>::empty(),
{
    let probe = Ap { t: now, c: get(collector, 2), op: String::new(), vars: Vec::new() };
    assert(probe.vars() =~= Seq::<ApvarView>::empty());
    probe
}

} // verus!
