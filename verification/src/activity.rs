//! Usage-activity tracking: per-application focus time, switch counts and
//! recency, with exponential decay of the persisted history.
//!
//! Time is carried as integer Unix milliseconds.  The surrounding
//! application runs the one-second foreground sampler, reads the clock,
//! serialises the database, and computes the floating-point decay factor; it
//! hands the factor in as an integer fraction `num / den`, so every state
//! change of the tracker is plain integer logic and is verified.

use crate::text::{lower, str_bytes, subvec, to_lower};
use crate::windows::{custom_names_of, spec_categorize, string_bytes, AppCategory};
use vstd::prelude::*;
use vstd::pervasive::VecAdditionalExecFns;
use vstd::string::StringSliceAdditionalSpecFns;

verus! {

/// One foreground-window change, as sampled by the application's poller.
#[derive(Debug, Clone)]
pub struct FocusEvent {
    pub process_name: String,
    pub title: String,
    pub timestamp_ms: u64,
}

/// Per-application session data; in memory only, reset on restart.
#[derive(Debug, Clone, Copy, PartialEq, Eq, Structural)]
pub struct SessionActivity {
    pub focus_ms: u64,
    pub switch_count: u32,
    pub last_focus_ms: u64,
    pub category: AppCategory,
}

/// Per-application persisted data.
#[derive(Debug, Clone)]
pub struct AppRecord {
    pub total_focus_ms: u64,
    pub total_switches: u64,
    pub last_focus_ms: u64,
    pub category: String,
    pub last_title: String,
}

/// The persisted record, with its strings abstracted to their characters.
pub struct RecordModel {
    pub total_focus_ms: u64,
    pub total_switches: u64,
    pub last_focus_ms: u64,
    pub category: Seq<char>,
    pub last_title: Seq<char>,
}

/// An `AppRecord`'s abstract value.
pub open spec fn record_model(r: AppRecord) -> RecordModel {
    RecordModel {
        total_focus_ms: r.total_focus_ms,
        total_switches: r.total_switches,
        last_focus_ms: r.last_focus_ms,
        category: r.category@,
        last_title: r.last_title@,
    }
}

/// The persisted activity database: one record per application, keyed by the
/// lower-cased process name (as bytes), plus the moment decay last ran.
/// Keys and records correspond by position.
#[derive(Debug)]
pub struct ActivityDb {
    pub keys: Vec<Vec<u8>>,
    pub records: Vec<AppRecord>,
    pub last_decay_ms: u64,
}

/// The database's abstract value.
pub struct DbModel {
    pub keys: Seq<Seq<u8>>,
    pub records: Seq<RecordModel>,
    pub last_decay_ms: u64,
}

impl ActivityDb {
    /// As many keys as records.
    pub open spec fn wf(self) -> bool {
        self.keys@.len() == self.records@.len()
    }

    /// The database's abstract value.
    pub open spec fn model(self) -> DbModel {
        DbModel {
            keys: custom_names_of(self.keys@),
            records: self.records@.map_values(|r: AppRecord| record_model(r)),
            last_decay_ms: self.last_decay_ms,
        }
    }

    /// An empty database that has never decayed.
    pub fn new() -> (r: ActivityDb)
        ensures
            r.wf(),
            r.model().keys.len() == 0,
            r.model().records.len() == 0,
            r.model().last_decay_ms == 0,
    {
        ActivityDb { keys: Vec::new(), records: Vec::new(), last_decay_ms: 0 }
    }

    /// Insert a record under the lower-cased `name`, replacing the first
    /// record already stored under that key.
    pub fn insert_record(&mut self, name: &str, record: AppRecord)
        requires
            old(self).wf(),
        ensures
            final(self).wf(),
            final(self).model() == spec_insert_record(
                old(self).model(),
                lower(name.spec_bytes()),
                record_model(record),
            ),
    {
        let key = to_lower(&str_bytes(name));
        match find_index(&self.keys, &key) {
            Some(i) => {
                self.records.set(i, record);
                proof {
                    assert(final(self).model().keys =~= spec_insert_record(
                        old(self).model(),
                        lower(name.spec_bytes()),
                        record_model(record),
                    ).keys);
                    assert(final(self).model().records =~= spec_insert_record(
                        old(self).model(),
                        lower(name.spec_bytes()),
                        record_model(record),
                    ).records);
                }
            },
            None => {
                self.keys.push(key);
                self.records.push(record);
                proof {
                    assert(final(self).model().keys =~= spec_insert_record(
                        old(self).model(),
                        lower(name.spec_bytes()),
                        record_model(record),
                    ).keys);
                    assert(final(self).model().records =~= spec_insert_record(
                        old(self).model(),
                        lower(name.spec_bytes()),
                        record_model(record),
                    ).records);
                }
            },
        }
    }
}

/// Insertion into the key/record table: replace the first record under the
/// key, or append a new entry.
pub open spec fn spec_insert_record(m: DbModel, key: Seq<u8>, r: RecordModel) -> DbModel {
    match find_key(m.keys, key) {
        Option::Some(i) => DbModel {
            keys: m.keys,
            records: m.records.update(i, r),
            last_decay_ms: m.last_decay_ms,
        },
        Option::None => DbModel {
            keys: m.keys.push(key),
            records: m.records.push(r),
            last_decay_ms: m.last_decay_ms,
        },
    }
}

/// Index of the first entry stored under `key`, if any.
pub open spec fn find_key(keys: Seq<Seq<u8>>, key: Seq<u8>) -> Option<int>
    decreases keys.len(),
{
    if keys.len() == 0 {
        Option::None
    } else if keys[0] == key {
        Option::Some(0int)
    } else {
        match find_key(keys.drop_first(), key) {
            Option::None => Option::None,
            Option::Some(i) => Option::Some(i + 1),
        }
    }
}

proof fn lemma_find_key_props(keys: Seq<Seq<u8>>, key: Seq<u8>)
    ensures
        match find_key(keys, key) {
            Option::Some(i) => 0 <= i < keys.len() && keys[i] == key && (forall|j: int|
                0 <= j < i ==> keys[j] != key),
            Option::None => forall|j: int| 0 <= j < keys.len() ==> keys[j] != key,
        },
    decreases keys.len(),
{
    if keys.len() > 0 && keys[0] != key {
        let t = keys.drop_first();
        lemma_find_key_props(t, key);
        match find_key(t, key) {
            Option::Some(i) => {
                assert(keys[i + 1] == t[i]);
                assert forall|j: int| 0 <= j < i + 1 implies keys[j] != key by {
                    if j > 0 {
                        assert(t[j - 1] != key);
                    }
                }
            },
            Option::None => {
                assert forall|j: int| 0 <= j < keys.len() implies keys[j] != key by {
                    if j > 0 {
                        assert(t[j - 1] != key);
                    }
                }
            },
        }
    }
}

/// Position of the first entry stored under `key`, if any.
fn find_index(keys: &Vec<Vec<u8>>, key: &Vec<u8>) -> (r: Option<usize>)
    ensures
        match r {
            Option::Some(i) => find_key(custom_names_of(keys@), key@) == Option::Some(i as int)
                && i < keys@.len(),
            Option::None => find_key(custom_names_of(keys@), key@) is None,
        },
{
    proof {
        lemma_find_key_props(custom_names_of(keys@), key@);
    }
    let mut i: usize = 0;
    while i < keys.len()
        invariant
            i <= keys@.len(),
            forall|j: int| 0 <= j < i ==> custom_names_of(keys@)[j] != key@,
            match find_key(custom_names_of(keys@), key@) {
                Option::Some(k) => 0 <= k < keys@.len() && custom_names_of(keys@)[k] == key@ && (
                forall|j: int| 0 <= j < k ==> custom_names_of(keys@)[j] != key@),
                Option::None => forall|j: int|
                    0 <= j < keys@.len() ==> custom_names_of(keys@)[j] != key@,
            },
        decreases keys@.len() - i,
    {
        if crate::text::bytes_eq(keys[i].as_slice(), key.as_slice()) {
            proof {
                assert(custom_names_of(keys@)[i as int] == key@);
            }
            return Some(i);
        }
        i = i + 1;
    }
    None
}

/// Addition that stops at the largest representable value.
pub open spec fn sat_add_u64(a: u64, b: u64) -> u64 {
    if a + b > u64::MAX {
        u64::MAX
    } else {
        (a + b) as u64
    }
}

/// Addition that stops at the largest representable value.
pub open spec fn sat_add_u32(a: u32, b: u32) -> u32 {
    if a + b > u32::MAX {
        u32::MAX
    } else {
        (a + b) as u32
    }
}

/// Milliseconds from `start` to `now`, floored at zero against clock skew.
pub open spec fn elapsed_ms(now: u64, start: u64) -> u64 {
    if now >= start {
        (now - start) as u64
    } else {
        0
    }
}

/// The tracker's abstract state: the session table, the persisted database,
/// the open focus interval, and the two maintenance gates.
pub struct TrackerModel {
    pub session_keys: Seq<Seq<u8>>,
    pub session_vals: Seq<SessionActivity>,
    pub db: DbModel,
    pub current_focus: Option<(Seq<u8>, u64)>,
    pub last_save_ms: u64,
    pub decay_gate_ms: u64,
}

/// Close the open focus interval at `now`: credit the elapsed time to the
/// previously focused application's session entry and persisted record,
/// where they exist.
pub open spec fn spec_close_focus(m: TrackerModel, now: u64) -> TrackerModel {
    match m.current_focus {
        Option::None => m,
        Option::Some((key, start)) => {
            let e = elapsed_ms(now, start);
            let svals = match find_key(m.session_keys, key) {
                Option::Some(i) => m.session_vals.update(
                    i,
                    SessionActivity {
                        focus_ms: sat_add_u64(m.session_vals[i].focus_ms, e),
                        switch_count: m.session_vals[i].switch_count,
                        last_focus_ms: m.session_vals[i].last_focus_ms,
                        category: m.session_vals[i].category,
                    },
                ),
                Option::None => m.session_vals,
            };
            let recs = match find_key(m.db.keys, key) {
                Option::Some(i) => m.db.records.update(
                    i,
                    RecordModel {
                        total_focus_ms: sat_add_u64(m.db.records[i].total_focus_ms, e),
                        total_switches: m.db.records[i].total_switches,
                        last_focus_ms: m.db.records[i].last_focus_ms,
                        category: m.db.records[i].category,
                        last_title: m.db.records[i].last_title,
                    },
                ),
                Option::None => m.db.records,
            };
            TrackerModel {
                session_keys: m.session_keys,
                session_vals: svals,
                db: DbModel { keys: m.db.keys, records: recs, last_decay_ms: m.db.last_decay_ms },
                current_focus: m.current_focus,
                last_save_ms: m.last_save_ms,
                decay_gate_ms: m.decay_gate_ms,
            }
        },
    }
}

/// One focus change: close the previous interval at the event's timestamp,
/// open an interval for the newly focused application, count the switch, and
/// refresh the session entry and persisted record.
pub open spec fn spec_record_event(m: TrackerModel, ev: FocusEvent) -> TrackerModel {
    let key = lower(string_bytes(ev.process_name));
    let cat = spec_categorize(key);
    let m1 = spec_close_focus(m, ev.timestamp_ms);
    let (skeys, svals, entry_cat): (Seq<Seq<u8>>, Seq<SessionActivity>, AppCategory) =
        match find_key(m1.session_keys, key) {
        Option::Some(i) => (
            m1.session_keys,
            m1.session_vals.update(
                i,
                SessionActivity {
                    focus_ms: m1.session_vals[i].focus_ms,
                    switch_count: sat_add_u32(m1.session_vals[i].switch_count, 1),
                    last_focus_ms: ev.timestamp_ms,
                    category: m1.session_vals[i].category,
                },
            ),
            m1.session_vals[i].category,
        ),
        Option::None => (
            m1.session_keys.push(key),
            m1.session_vals.push(
                SessionActivity {
                    focus_ms: 0,
                    switch_count: 1,
                    last_focus_ms: ev.timestamp_ms,
                    category: cat,
                },
            ),
            cat,
        ),
    };
    let (dkeys, drecs): (Seq<Seq<u8>>, Seq<RecordModel>) = match find_key(m1.db.keys, key) {
        Option::Some(i) => (
            m1.db.keys,
            m1.db.records.update(
                i,
                RecordModel {
                    total_focus_ms: m1.db.records[i].total_focus_ms,
                    total_switches: sat_add_u64(m1.db.records[i].total_switches, 1),
                    last_focus_ms: ev.timestamp_ms,
                    category: entry_cat.spec_display_name(),
                    last_title: ev.title@,
                },
            ),
        ),
        Option::None => (
            m1.db.keys.push(key),
            m1.db.records.push(
                RecordModel {
                    total_focus_ms: 0,
                    total_switches: 1,
                    last_focus_ms: ev.timestamp_ms,
                    category: entry_cat.spec_display_name(),
                    last_title: ev.title@,
                },
            ),
        ),
    };
    TrackerModel {
        session_keys: skeys,
        session_vals: svals,
        db: DbModel { keys: dkeys, records: drecs, last_decay_ms: m1.db.last_decay_ms },
        current_focus: Option::Some((key, ev.timestamp_ms)),
        last_save_ms: m1.last_save_ms,
        decay_gate_ms: m1.decay_gate_ms,
    }
}

/// The events of the first `n`, applied in arrival order.
pub open spec fn spec_record_events(m: TrackerModel, es: Seq<FocusEvent>, n: int) -> TrackerModel
    decreases n,
{
    if n <= 0 {
        m
    } else {
        spec_record_event(spec_record_events(m, es, n - 1), es[n - 1])
    }
}

/// Credit the open interval up to `now` without closing it: the interval
/// restarts at `now`.
pub open spec fn spec_flush(m: TrackerModel, now: u64) -> TrackerModel {
    match m.current_focus {
        Option::None => m,
        Option::Some((key, start)) => {
            let c = spec_close_focus(m, now);
            TrackerModel {
                session_keys: c.session_keys,
                session_vals: c.session_vals,
                db: c.db,
                current_focus: Option::Some((key, now)),
                last_save_ms: c.last_save_ms,
                decay_gate_ms: c.decay_gate_ms,
            }
        },
    }
}

/// One maintenance tick at `now`: apply the pending focus events in order;
/// when at least a minute has passed since the last save, flush the open
/// interval and ask the caller to save; when at least an hour has passed
/// since the last decay, ask the caller to decay.
pub open spec fn spec_tick(m: TrackerModel, es: Seq<FocusEvent>, now: u64) -> (
    TrackerModel,
    bool,
    bool,
) {
    let m1 = spec_record_events(m, es, es.len() as int);
    let save_due = elapsed_ms(now, m1.last_save_ms) >= 60_000;
    let m2 = if save_due {
        let f = spec_flush(m1, now);
        TrackerModel {
            session_keys: f.session_keys,
            session_vals: f.session_vals,
            db: f.db,
            current_focus: f.current_focus,
            last_save_ms: now,
            decay_gate_ms: f.decay_gate_ms,
        }
    } else {
        m1
    };
    let decay_due = elapsed_ms(now, m2.decay_gate_ms) >= 3_600_000;
    let m3 = if decay_due {
        TrackerModel {
            session_keys: m2.session_keys,
            session_vals: m2.session_vals,
            db: m2.db,
            current_focus: m2.current_focus,
            last_save_ms: m2.last_save_ms,
            decay_gate_ms: now,
        }
    } else {
        m2
    };
    (m3, save_due, decay_due)
}

/// One record decayed by the factor `num / den` (both counters truncate).
pub open spec fn spec_decay_record(r: RecordModel, num: u64, den: u64) -> RecordModel
    recommends
        1 <= den,
        num <= den,
{
    RecordModel {
        total_focus_ms: ((r.total_focus_ms as int * num as int) / (den as int)) as u64,
        total_switches: ((r.total_switches as int * num as int) / (den as int)) as u64,
        last_focus_ms: r.last_focus_ms,
        category: r.category,
        last_title: r.last_title,
    }
}

/// A decayed record is pruned when less than one second of focus remains and
/// its switch count has reached zero.
pub open spec fn spec_pruned(r: RecordModel) -> bool {
    r.total_focus_ms < 1000 && r.total_switches == 0
}

/// The first `n` records decayed, with the dead entries pruned.
pub open spec fn spec_decay_prefix(
    keys: Seq<Seq<u8>>,
    recs: Seq<RecordModel>,
    num: u64,
    den: u64,
    n: int,
) -> (Seq<Seq<u8>>, Seq<RecordModel>)
    decreases n,
{
    if n <= 0 {
        (Seq::empty(), Seq::empty())
    } else {
        let rest = spec_decay_prefix(keys, recs, num, den, n - 1);
        let d = spec_decay_record(recs[n - 1], num, den);
        if spec_pruned(d) {
            rest
        } else {
            (rest.0.push(keys[n - 1]), rest.1.push(d))
        }
    }
}

/// Decay at `now` with factor `num / den`: when a baseline exists and more
/// than the minimal threshold has elapsed since it, every record's counters
/// are scaled by the factor and dead entries are pruned; the baseline always
/// moves to `now`, so an immediate second decay changes nothing.
pub open spec fn spec_apply_decay(m: TrackerModel, now: u64, num: u64, den: u64) -> TrackerModel {
    let last = m.db.last_decay_ms;
    let db = if last > 0 && now > last && now - last > 86_400 {
        let d = spec_decay_prefix(m.db.keys, m.db.records, num, den, m.db.keys.len() as int);
        DbModel { keys: d.0, records: d.1, last_decay_ms: now }
    } else {
        DbModel { keys: m.db.keys, records: m.db.records, last_decay_ms: now }
    };
    TrackerModel {
        session_keys: m.session_keys,
        session_vals: m.session_vals,
        db,
        current_focus: m.current_focus,
        last_save_ms: m.last_save_ms,
        decay_gate_ms: m.decay_gate_ms,
    }
}

/// Addition that stops at the largest representable value.
pub fn sat_add64(a: u64, b: u64) -> (r: u64)
    ensures
        r == sat_add_u64(a, b),
{
    if a > u64::MAX - b {
        u64::MAX
    } else {
        a + b
    }
}

/// Addition that stops at the largest representable value.
pub fn sat_add32(a: u32, b: u32) -> (r: u32)
    ensures
        r == sat_add_u32(a, b),
{
    if a > u32::MAX - b {
        u32::MAX
    } else {
        a + b
    }
}

fn elapsed_since(now: u64, start: u64) -> (r: u64)
    ensures
        r == elapsed_ms(now, start),
{
    if now >= start {
        now - start
    } else {
        0
    }
}

/// What a maintenance tick asks the caller to do: serialise the database,
/// and run a decay pass (the caller computes the factor and calls
/// `apply_decay`).
#[derive(Debug, Clone, Copy, PartialEq, Eq, Structural)]
pub struct TickActions {
    pub save: bool,
    pub decay: bool,
}

/// The usage-activity tracker: the in-memory session table, the persisted
/// database, the open focus interval, and the save/decay gates.  Session
/// keys and values correspond by position.
#[derive(Debug)]
pub struct ActivityTracker {
    pub session_keys: Vec<Vec<u8>>,
    pub session_vals: Vec<SessionActivity>,
    pub db: ActivityDb,
    pub current_focus: Option<(Vec<u8>, u64)>,
    pub last_save_ms: u64,
    pub decay_gate_ms: u64,
}

impl ActivityTracker {
    /// As many session keys as values, and a well-formed database.
    pub open spec fn wf(self) -> bool {
        self.session_keys@.len() == self.session_vals@.len() && self.db.wf()
    }

    /// The tracker's abstract state.
    pub open spec fn model(self) -> TrackerModel {
        TrackerModel {
            session_keys: custom_names_of(self.session_keys@),
            session_vals: self.session_vals@,
            db: self.db.model(),
            current_focus: match self.current_focus {
                Option::Some((k, t)) => Option::Some((k@, t)),
                Option::None => Option::None,
            },
            last_save_ms: self.last_save_ms,
            decay_gate_ms: self.decay_gate_ms,
        }
    }

    /// Start tracking at `now_ms` over a previously loaded database: an
    /// empty session, no open interval, and both maintenance gates primed.
    pub fn new(db: ActivityDb, now_ms: u64) -> (r: ActivityTracker)
        requires
            db.wf(),
        ensures
            r.wf(),
            r.model().session_keys.len() == 0,
            r.model().session_vals.len() == 0,
            r.model().db == db.model(),
            r.model().current_focus is None,
            r.model().last_save_ms == now_ms,
            r.model().decay_gate_ms == now_ms,
    {
        ActivityTracker {
            session_keys: Vec::new(),
            session_vals: Vec::new(),
            db,
            current_focus: None,
            last_save_ms: now_ms,
            decay_gate_ms: now_ms,
        }
    }

    /// Credit the open interval up to `now` into the session entry and the
    /// persisted record of the previously focused application.
    fn close_focus(&mut self, now: u64)
        requires
            old(self).wf(),
        ensures
            final(self).wf(),
            final(self).model() == spec_close_focus(old(self).model(), now),
    {
        let (key, start) = match &self.current_focus {
            Some(p) => (subvec(&p.0, 0, p.0.len()), p.1),
            None => {
                return ;
            },
        };
        proof {
            assert(key@ =~= old(self).current_focus->Some_0.0@);
        }
        let e = elapsed_since(now, start);
        match find_index(&self.session_keys, &key) {
            Some(i) => {
                let v = self.session_vals[i];
                self.session_vals.set(
                    i,
                    SessionActivity {
                        focus_ms: sat_add64(v.focus_ms, e),
                        switch_count: v.switch_count,
                        last_focus_ms: v.last_focus_ms,
                        category: v.category,
                    },
                );
            },
            None => {},
        }
        match find_index(&self.db.keys, &key) {
            Some(i) => {
                let focus = self.db.records[i].total_focus_ms;
                let switches = self.db.records[i].total_switches;
                let last_focus = self.db.records[i].last_focus_ms;
                let category = self.db.records[i].category.clone();
                let last_title = self.db.records[i].last_title.clone();
                self.db.records.set(
                    i,
                    AppRecord {
                        total_focus_ms: sat_add64(focus, e),
                        total_switches: switches,
                        last_focus_ms: last_focus,
                        category,
                        last_title,
                    },
                );
            },
            None => {},
        }
        proof {
            let m = spec_close_focus(old(self).model(), now);
            assert(final(self).model().session_vals =~= m.session_vals);
            assert(final(self).model().db.records =~= m.db.records);
        }
    }

    /// Apply one focus-change event: close the previous interval at the
    /// event's timestamp, open an interval for the new application, count
    /// the switch, and refresh its session entry and persisted record.
    pub fn record_event(&mut self, ev: &FocusEvent)
        requires
            old(self).wf(),
        ensures
            final(self).wf(),
            final(self).model() == spec_record_event(old(self).model(), *ev),
    {
        let key = to_lower(&str_bytes(ev.process_name.as_str()));
        let cat = crate::windows::categorize_process(ev.process_name.as_str());
        self.close_focus(ev.timestamp_ms);
        let ghost m1 = spec_close_focus(old(self).model(), ev.timestamp_ms);
        let entry_cat: AppCategory = match find_index(&self.session_keys, &key) {
            Some(i) => {
                let v = self.session_vals[i];
                self.session_vals.set(
                    i,
                    SessionActivity {
                        focus_ms: v.focus_ms,
                        switch_count: sat_add32(v.switch_count, 1),
                        last_focus_ms: ev.timestamp_ms,
                        category: v.category,
                    },
                );
                v.category
            },
            None => {
                self.session_keys.push(subvec(&key, 0, key.len()));
                self.session_vals.push(
                    SessionActivity {
                        focus_ms: 0,
                        switch_count: 1,
                        last_focus_ms: ev.timestamp_ms,
                        category: cat,
                    },
                );
                cat
            },
        };
        match find_index(&self.db.keys, &key) {
            Some(i) => {
                let focus = self.db.records[i].total_focus_ms;
                let switches = self.db.records[i].total_switches;
                self.db.records.set(
                    i,
                    AppRecord {
                        total_focus_ms: focus,
                        total_switches: sat_add64(switches, 1),
                        last_focus_ms: ev.timestamp_ms,
                        category: entry_cat.display_name().to_owned(),
                        last_title: ev.title.clone(),
                    },
                );
            },
            None => {
                self.db.keys.push(subvec(&key, 0, key.len()));
                self.db.records.push(
                    AppRecord {
                        total_focus_ms: 0,
                        total_switches: 1,
                        last_focus_ms: ev.timestamp_ms,
                        category: entry_cat.display_name().to_owned(),
                        last_title: ev.title.clone(),
                    },
                );
            },
        }
        self.current_focus = Some((key, ev.timestamp_ms));
        proof {
            let m = spec_record_event(old(self).model(), *ev);
            assert(final(self).model().session_keys =~~= m.session_keys);
            assert(final(self).model().session_vals =~= m.session_vals);
            assert(final(self).model().db.keys =~~= m.db.keys);
            assert(final(self).model().db.records =~= m.db.records);
        }
    }

    /// Credit the open interval up to `now` without closing it.
    pub fn flush_current_focus(&mut self, now: u64)
        requires
            old(self).wf(),
        ensures
            final(self).wf(),
            final(self).model() == spec_flush(old(self).model(), now),
    {
        let has_focus = match &self.current_focus {
            Some(_) => true,
            None => false,
        };
        if !has_focus {
            return ;
        }
        self.close_focus(now);
        let key = match &self.current_focus {
            Some(p) => subvec(&p.0, 0, p.0.len()),
            None => {
                return ;
            },
        };
        proof {
            assert(key@ =~= old(self).current_focus->Some_0.0@);
        }
        self.current_focus = Some((key, now));
    }

    /// One maintenance tick: apply the pending focus events in arrival
    /// order; every 60 seconds flush the open interval and ask the caller to
    /// save; every hour ask the caller to run a decay pass.
    #[verifier::rlimit(50)]
    pub fn update(&mut self, events: &Vec<FocusEvent>, now_ms: u64) -> (r: TickActions)
        requires
            old(self).wf(),
        ensures
            final(self).wf(),
            final(self).model() == spec_tick(old(self).model(), events@, now_ms).0,
            r.save == spec_tick(old(self).model(), events@, now_ms).1,
            r.decay == spec_tick(old(self).model(), events@, now_ms).2,
    {
        let mut i: usize = 0;
        while i < events.len()
            invariant
                i <= events@.len(),
                self.wf(),
                self.model() == spec_record_events(old(self).model(), events@, i as int),
            decreases events@.len() - i,
        {
            self.record_event(&events[i]);
            i = i + 1;
        }
        let save_due = elapsed_since(now_ms, self.last_save_ms) >= 60_000;
        if save_due {
            self.flush_current_focus(now_ms);
            self.last_save_ms = now_ms;
        }
        let decay_due = elapsed_since(now_ms, self.decay_gate_ms) >= 3_600_000;
        if decay_due {
            self.decay_gate_ms = now_ms;
        }
        TickActions { save: save_due, decay: decay_due }
    }

    /// Run one decay pass at `now_ms` with the factor `num / den` (at most
    /// one): when a baseline exists and the minimal threshold has elapsed,
    /// every record's counters are scaled and dead entries pruned; the
    /// baseline always moves to `now_ms`.
    pub fn apply_decay(&mut self, now_ms: u64, num: u64, den: u64)
        requires
            old(self).wf(),
            1 <= den,
            num <= den,
        ensures
            final(self).wf(),
            final(self).model() == spec_apply_decay(old(self).model(), now_ms, num, den),
    {
        let last = self.db.last_decay_ms;
        if last > 0 && now_ms > last && now_ms - last > 86_400 {
            let mut new_keys: Vec<Vec<u8>> = Vec::new();
            let mut new_recs: Vec<AppRecord> = Vec::new();
            let n = self.db.keys.len();
            let ghost okeys = self.db.model().keys;
            let ghost orecs = self.db.model().records;
            let mut i: usize = 0;
            while i < n
                invariant
                    i <= n,
                    1 <= den,
                    num <= den,
                    n == self.db.keys@.len(),
                    self.db.wf(),
                    okeys == self.db.model().keys,
                    orecs == self.db.model().records,
                    custom_names_of(new_keys@) == spec_decay_prefix(
                        okeys,
                        orecs,
                        num,
                        den,
                        i as int,
                    ).0,
                    new_recs@.map_values(|r: AppRecord| record_model(r)) == spec_decay_prefix(
                        okeys,
                        orecs,
                        num,
                        den,
                        i as int,
                    ).1,
                decreases n - i,
            {
                let r = &self.db.records[i];
                proof {
                    assert((r.total_focus_ms as int) * (num as int) <= (r.total_focus_ms as int)
                        * (den as int)) by (nonlinear_arith)
                        requires
                            num <= den,
                            0 <= r.total_focus_ms,
                    ;
                    assert((r.total_focus_ms as int) * (den as int) / (den as int)
                        == r.total_focus_ms as int) by (nonlinear_arith)
                        requires
                            1 <= den,
                    ;
                    vstd::arithmetic::div_mod::lemma_div_is_ordered(
                        (r.total_focus_ms as int) * (num as int),
                        (r.total_focus_ms as int) * (den as int),
                        den as int,
                    );
                    assert((r.total_switches as int) * (num as int) <= (r.total_switches as int)
                        * (den as int)) by (nonlinear_arith)
                        requires
                            num <= den,
                            0 <= r.total_switches,
                    ;
                    assert((r.total_switches as int) * (den as int) / (den as int)
                        == r.total_switches as int) by (nonlinear_arith)
                        requires
                            1 <= den,
                    ;
                    vstd::arithmetic::div_mod::lemma_div_is_ordered(
                        (r.total_switches as int) * (num as int),
                        (r.total_switches as int) * (den as int),
                        den as int,
                    );
                    vstd::arithmetic::div_mod::lemma_div_pos_is_pos(
                        (r.total_focus_ms as int) * (num as int),
                        den as int,
                    );
                    vstd::arithmetic::div_mod::lemma_div_pos_is_pos(
                        (r.total_switches as int) * (num as int),
                        den as int,
                    );
                    assert(0 <= (r.total_focus_ms as int) * (num as int)) by (nonlinear_arith);
                    assert(0 <= (r.total_switches as int) * (num as int)) by (nonlinear_arith);
                    assert((r.total_focus_ms as int) * (num as int)
                        < 0x1_0000_0000_0000_0000_0000_0000_0000_0000) by (nonlinear_arith)
                        requires
                            r.total_focus_ms <= 0xffff_ffff_ffff_ffff,
                            num <= 0xffff_ffff_ffff_ffff,
                    ;
                    assert((r.total_switches as int) * (num as int)
                        < 0x1_0000_0000_0000_0000_0000_0000_0000_0000) by (nonlinear_arith)
                        requires
                            r.total_switches <= 0xffff_ffff_ffff_ffff,
                            num <= 0xffff_ffff_ffff_ffff,
                    ;
                }
                let focus2: u64 = (((r.total_focus_ms as u128) * (num as u128)) / (
                den as u128)) as u64;
                let switches2: u64 = (((r.total_switches as u128) * (num as u128)) / (
                den as u128)) as u64;
                if !(focus2 < 1000 && switches2 == 0) {
                    let key_copy = subvec(&self.db.keys[i], 0, self.db.keys[i].len());
                    new_keys.push(key_copy);
                    new_recs.push(
                        AppRecord {
                            total_focus_ms: focus2,
                            total_switches: switches2,
                            last_focus_ms: r.last_focus_ms,
                            category: r.category.clone(),
                            last_title: r.last_title.clone(),
                        },
                    );
                }
                proof {
                    assert(custom_names_of(new_keys@) =~~= spec_decay_prefix(
                        okeys,
                        orecs,
                        num,
                        den,
                        i as int + 1,
                    ).0);
                    assert(new_recs@.map_values(|r2: AppRecord| record_model(r2))
                        =~= spec_decay_prefix(okeys, orecs, num, den, i as int + 1).1);
                }
                i = i + 1;
            }
            self.db.keys = new_keys;
            self.db.records = new_recs;
            proof {
                lemma_decay_prefix_lens(okeys, orecs, num, den, n as int);
            }
        }
        self.db.last_decay_ms = now_ms;
    }

    /// The combined usage of one application: session plus persisted focus
    /// time, session plus persisted switch count, and the persisted
    /// last-focus timestamp (zero when the application was never recorded).
    pub fn usage_totals(&self, process_name: &str) -> (r: (u64, u64, u64))
        requires
            self.wf(),
        ensures
            ({
                let t = spec_usage_totals(self.model(), lower(string_bytes_of(process_name)));
                r.0 == t.0 && r.1 == t.1 && r.2 == t.2
            }),
    {
        let key = to_lower(&str_bytes(process_name));
        let (sf, ssw) = match find_index(&self.session_keys, &key) {
            Some(i) => (self.session_vals[i].focus_ms, self.session_vals[i].switch_count as u64),
            None => (0u64, 0u64),
        };
        let (df, dsw, dlast) = match find_index(&self.db.keys, &key) {
            Some(i) => (
                self.db.records[i].total_focus_ms,
                self.db.records[i].total_switches,
                self.db.records[i].last_focus_ms,
            ),
            None => (0u64, 0u64, 0u64),
        };
        (sat_add64(sf, df), sat_add64(ssw, dsw), dlast)
    }

    /// The session entries ordered by descending focus time (stable on
    /// ties), each as the application key and its session data.
    pub fn session_stats(&self) -> (r: Vec<(Vec<u8>, SessionActivity)>)
        requires
            self.wf(),
        ensures
            ({
                let order = crate::arrange::spec_sort_desc(
                    self.model().session_vals.len() as int,
                    self.model().session_vals.map_values(|v: SessionActivity| v.focus_ms),
                );
                &&& r@.len() == self.model().session_vals.len()
                &&& forall|k: int|
                    0 <= k < r@.len() ==> 0 <= #[trigger] order[k]
                        < self.model().session_vals.len() && r@[k].0@
                        == self.model().session_keys[order[k]] && r@[k].1
                        == self.model().session_vals[order[k]]
            }),
    {
        let mut scores: Vec<u64> = Vec::new();
        let mut i: usize = 0;
        while i < self.session_vals.len()
            invariant
                i <= self.session_vals@.len(),
                scores@.len() == i,
                forall|j: int| 0 <= j < i ==> #[trigger] scores@[j] == self.session_vals@[j].focus_ms,
            decreases self.session_vals@.len() - i,
        {
            scores.push(self.session_vals[i].focus_ms);
            i = i + 1;
        }
        proof {
            assert(scores@ =~= self.model().session_vals.map_values(
                |v: SessionActivity| v.focus_ms,
            ));
        }
        let pos = crate::arrange::sort_indices_desc(&scores);
        let mut r: Vec<(Vec<u8>, SessionActivity)> = Vec::new();
        let mut k: usize = 0;
        while k < pos.len()
            invariant
                k <= pos@.len(),
                self.wf(),
                scores@.len() == self.session_vals@.len(),
                crate::arrange::idxs_of(pos@) == crate::arrange::spec_sort_desc(
                    scores@.len() as int,
                    scores@,
                ),
                forall|j: int| 0 <= j < pos@.len() ==> #[trigger] pos@[j] < scores@.len(),
                r@.len() == k,
                forall|j: int|
                    0 <= j < k ==> #[trigger] r@[j].0@ == custom_names_of(self.session_keys@)[
                        pos@[j] as int
                    ] && r@[j].1 == self.session_vals@[pos@[j] as int],
            decreases pos@.len() - k,
        {
            let idx = pos[k];
            let key_copy = subvec(&self.session_keys[idx], 0, self.session_keys[idx].len());
            r.push((key_copy, self.session_vals[idx]));
            k = k + 1;
        }
        proof {
            let order = crate::arrange::spec_sort_desc(
                self.model().session_vals.len() as int,
                self.model().session_vals.map_values(|v: SessionActivity| v.focus_ms),
            );
            assert forall|j: int| 0 <= j < r@.len() implies 0 <= #[trigger] order[j]
                < self.model().session_vals.len() && r@[j].0@ == self.model().session_keys[
                order[j]
            ] && r@[j].1 == self.model().session_vals[order[j]] by {
                assert(order[j] == crate::arrange::idxs_of(pos@)[j]);
                assert(crate::arrange::idxs_of(pos@)[j] == pos@[j] as int);
            }
        }
        r
    }
}

/// The UTF-8 bytes of a borrowed string.
pub open spec fn string_bytes_of(s: &str) -> Seq<u8> {
    s.spec_bytes()
}

/// Session-plus-persisted focus milliseconds and switch counts, and the
/// persisted last-focus timestamp, of the application stored under `key`.
pub open spec fn spec_usage_totals(m: TrackerModel, key: Seq<u8>) -> (u64, u64, u64) {
    let sf = match find_key(m.session_keys, key) {
        Option::Some(i) => m.session_vals[i].focus_ms,
        Option::None => 0u64,
    };
    let ssw = match find_key(m.session_keys, key) {
        Option::Some(i) => m.session_vals[i].switch_count as u64,
        Option::None => 0u64,
    };
    let (df, dsw, dlast): (u64, u64, u64) = match find_key(m.db.keys, key) {
        Option::Some(i) => (
            m.db.records[i].total_focus_ms,
            m.db.records[i].total_switches,
            m.db.records[i].last_focus_ms,
        ),
        Option::None => (0u64, 0u64, 0u64),
    };
    (sat_add_u64(sf, df), sat_add_u64(ssw, dsw), dlast)
}

proof fn lemma_decay_prefix_lens(
    keys: Seq<Seq<u8>>,
    recs: Seq<RecordModel>,
    num: u64,
    den: u64,
    n: int,
)
    ensures
        spec_decay_prefix(keys, recs, num, den, n).0.len() == spec_decay_prefix(
            keys,
            recs,
            num,
            den,
            n,
        ).1.len(),
    decreases n,
{
    if n > 0 {
        lemma_decay_prefix_lens(keys, recs, num, den, n - 1);
    }
}

/// Decay is idempotent at one instant: the first pass moves the baseline to
/// `now`, so a second pass with no elapsed time is suppressed by the
/// elapsed-time guard and changes nothing, whatever its factor.
pub proof fn lemma_decay_idempotent(
    m: TrackerModel,
    now: u64,
    num1: u64,
    den1: u64,
    num2: u64,
    den2: u64,
)
    ensures
        spec_apply_decay(spec_apply_decay(m, now, num1, den1), now, num2, den2)
            == spec_apply_decay(m, now, num1, den1),
{
}

proof fn lemma_decay_prefix_no_prune(
    keys: Seq<Seq<u8>>,
    recs: Seq<RecordModel>,
    num: u64,
    den: u64,
    n: int,
)
    requires
        0 <= n <= keys.len(),
        n <= recs.len(),
        forall|i: int| 0 <= i < n ==> !spec_pruned(spec_decay_record(#[trigger] recs[i], num, den)),
    ensures
        spec_decay_prefix(keys, recs, num, den, n).0 == keys.take(n),
        spec_decay_prefix(keys, recs, num, den, n).1 == Seq::new(
            n as nat,
            |i: int| spec_decay_record(recs[i], num, den),
        ),
    decreases n,
{
    if n <= 0 {
        assert(spec_decay_prefix(keys, recs, num, den, n).0 =~= keys.take(n));
        assert(spec_decay_prefix(keys, recs, num, den, n).1 =~= Seq::new(
            n as nat,
            |i: int| spec_decay_record(recs[i], num, den),
        ));
    } else {
        lemma_decay_prefix_no_prune(keys, recs, num, den, n - 1);
        assert(spec_decay_prefix(keys, recs, num, den, n).0 =~= keys.take(n));
        assert(spec_decay_prefix(keys, recs, num, den, n).1 =~= Seq::new(
            n as nat,
            |i: int| spec_decay_record(recs[i], num, den),
        ));
    }
}

/// A due decay pass with factor one half halves every record's focus time
/// and switch count exactly (integer floor); records with at least two
/// seconds of focus survive the pruning.
pub proof fn lemma_decay_halves(m: TrackerModel, now: u64)
    requires
        m.db.last_decay_ms > 0,
        now > m.db.last_decay_ms,
        now - m.db.last_decay_ms > 86_400,
        m.db.keys.len() == m.db.records.len(),
        forall|i: int|
            0 <= i < m.db.records.len() ==> (#[trigger] m.db.records[i]).total_focus_ms >= 2000,
    ensures
        spec_apply_decay(m, now, 1, 2).db.keys == m.db.keys,
        spec_apply_decay(m, now, 1, 2).db.records.len() == m.db.records.len(),
        forall|i: int|
            0 <= i < m.db.records.len() ==> (#[trigger] spec_apply_decay(
                m,
                now,
                1,
                2,
            ).db.records[i]).total_focus_ms == m.db.records[i].total_focus_ms / 2,
        forall|i: int|
            0 <= i < m.db.records.len() ==> (#[trigger] spec_apply_decay(
                m,
                now,
                1,
                2,
            ).db.records[i]).total_switches == m.db.records[i].total_switches / 2,
{
    let n = m.db.records.len() as int;
    assert forall|i: int| 0 <= i < n implies !spec_pruned(
        spec_decay_record(#[trigger] m.db.records[i], 1, 2),
    ) by {
        let r = m.db.records[i];
        assert((r.total_focus_ms as int) * 1 == r.total_focus_ms as int);
        assert(r.total_focus_ms as int / 2 >= 1000);
    }
    lemma_decay_prefix_no_prune(m.db.keys, m.db.records, 1, 2, n);
    assert(m.db.keys.take(n) =~= m.db.keys);
    assert forall|i: int| 0 <= i < n implies (#[trigger] spec_apply_decay(
        m,
        now,
        1,
        2,
    ).db.records[i]).total_focus_ms == m.db.records[i].total_focus_ms / 2 by {
        let r = m.db.records[i];
        assert((r.total_focus_ms as int) * 1 == r.total_focus_ms as int);
    }
    assert forall|i: int| 0 <= i < n implies (#[trigger] spec_apply_decay(
        m,
        now,
        1,
        2,
    ).db.records[i]).total_switches == m.db.records[i].total_switches / 2 by {
        let r = m.db.records[i];
        assert((r.total_switches as int) * 1 == r.total_switches as int);
    }
}

} // verus!
