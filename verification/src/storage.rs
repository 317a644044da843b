//! The keyed record store.
//!
//! All persisted state is a single mapping from a tagged key to a typed
//! record.  Keys carry the entity kind and, for per-plan entities, the plan
//! identifier; the two counter keys have no discriminator.  Every write
//! refreshes the record's retention horizon to a fixed long duration,
//! uniformly, never selectively.
//!
//! The store is kept as a vector of entries with pairwise distinct keys; its
//! abstract value (the view) is the finite map from keys to records.

use vstd::prelude::*;

use crate::types::{
    CompletionRecord, DischargeOrder, DischargePlan, DmeOrder, EducationRecord,
    FollowUpAppointment, HomeHealthArrangement, ReadinessScore, ReadmissionRisk, SnfCoordination,
};

verus! {

/// Retention horizon (in ledger-equivalent ticks, about one year) that every
/// write re-establishes for the record it touches.
pub const YEAR_IN_LEDGERS: u32 = 6_307_200;

/// The closed key space of the store.  Each `(u64)`-carrying variant is
/// keyed by a plan identifier; the two counter keys are global.
#[derive(Clone, Copy, Debug, PartialEq, Eq, Structural)]
pub enum StorageKey {
    Counter,
    AppointmentCounter,
    Plan(u64),
    Readiness(u64),
    Orders(u64),
    HomeHealth(u64),
    Dme(u64),
    Appointments(u64),
    Education(u64),
    SnfCoord(u64),
    Completed(u64),
    Risk(u64),
}

/// A typed payload.  The store only ever holds a payload under a key of the
/// matching kind (see [`kind_matches`]).
#[derive(Debug)]
pub enum Record {
    Count(u64),
    Plan(DischargePlan),
    Readiness(ReadinessScore),
    Orders(Vec<DischargeOrder>),
    HomeHealth(HomeHealthArrangement),
    Dme(Vec<DmeOrder>),
    Appointments(Vec<FollowUpAppointment>),
    Education(Vec<EducationRecord>),
    SnfCoord(SnfCoordination),
    Completed(CompletionRecord),
    Risk(ReadmissionRisk),
}

/// Which payload variant belongs under which key kind.
pub open spec fn kind_matches(key: StorageKey, rec: Record) -> bool {
    match key {
        StorageKey::Counter => rec is Count,
        StorageKey::AppointmentCounter => rec is Count,
        StorageKey::Plan(_) => rec is Plan,
        StorageKey::Readiness(_) => rec is Readiness,
        StorageKey::Orders(_) => rec is Orders,
        StorageKey::HomeHealth(_) => rec is HomeHealth,
        StorageKey::Dme(_) => rec is Dme,
        StorageKey::Appointments(_) => rec is Appointments,
        StorageKey::Education(_) => rec is Education,
        StorageKey::SnfCoord(_) => rec is SnfCoord,
        StorageKey::Completed(_) => rec is Completed,
        StorageKey::Risk(_) => rec is Risk,
    }
}

/// One stored entry: a key, its payload, and the remaining retention
/// horizon, refreshed on every write.
#[derive(Debug)]
struct StoreEntry {
    key: StorageKey,
    value: Record,
    ttl: u32,
}

/// `s[i]` holds key `k`.
spec fn entry_with_key(s: Seq<StoreEntry>, k: StorageKey, i: int) -> bool {
    0 <= i < s.len() && s[i].key == k
}

/// Some entry of `s` holds key `k`.
spec fn seq_has_key(s: Seq<StoreEntry>, k: StorageKey) -> bool {
    exists|i: int| entry_with_key(s, k, i)
}

/// The index of the entry holding key `k` (unique when keys are distinct).
spec fn seq_index_of(s: Seq<StoreEntry>, k: StorageKey) -> int {
    choose|i: int| entry_with_key(s, k, i)
}

/// The map abstraction of an entry sequence.
spec fn seq_as_map(s: Seq<StoreEntry>) -> Map<StorageKey, Record> {
    Map::new(|k: StorageKey| seq_has_key(s, k), |k: StorageKey| s[seq_index_of(s, k)].value)
}

/// The value of a counter record in `m` under `key`: counters start at 0
/// for an unseen key.
pub open spec fn count_at(m: Map<StorageKey, Record>, key: StorageKey) -> u64 {
    if m.contains_key(key) {
        match m[key] {
            Record::Count(c) => c,
            _ => 0,
        }
    } else {
        0
    }
}

/// The stored discharge plan of `id`, if any.
pub open spec fn plan_at(m: Map<StorageKey, Record>, id: u64) -> Option<DischargePlan> {
    if m.contains_key(StorageKey::Plan(id)) {
        match m[StorageKey::Plan(id)] {
            Record::Plan(p) => Some(p),
            _ => None,
        }
    } else {
        None
    }
}

/// The stored readiness assessment of plan `id`, if any.
pub open spec fn readiness_at(m: Map<StorageKey, Record>, id: u64) -> Option<ReadinessScore> {
    if m.contains_key(StorageKey::Readiness(id)) {
        match m[StorageKey::Readiness(id)] {
            Record::Readiness(r) => Some(r),
            _ => None,
        }
    } else {
        None
    }
}

/// The discharge order list of plan `id` (empty when absent).
pub open spec fn orders_at(m: Map<StorageKey, Record>, id: u64) -> Seq<DischargeOrder> {
    if m.contains_key(StorageKey::Orders(id)) {
        match m[StorageKey::Orders(id)] {
            Record::Orders(v) => v@,
            _ => Seq::empty(),
        }
    } else {
        Seq::empty()
    }
}

/// The stored home health arrangement of plan `id`, if any.
pub open spec fn home_health_at(m: Map<StorageKey, Record>, id: u64) -> Option<
    HomeHealthArrangement,
> {
    if m.contains_key(StorageKey::HomeHealth(id)) {
        match m[StorageKey::HomeHealth(id)] {
            Record::HomeHealth(h) => Some(h),
            _ => None,
        }
    } else {
        None
    }
}

/// The durable-medical-equipment order list of plan `id` (empty when absent).
pub open spec fn dme_at(m: Map<StorageKey, Record>, id: u64) -> Seq<DmeOrder> {
    if m.contains_key(StorageKey::Dme(id)) {
        match m[StorageKey::Dme(id)] {
            Record::Dme(v) => v@,
            _ => Seq::empty(),
        }
    } else {
        Seq::empty()
    }
}

/// The follow-up appointment list of plan `id` (empty when absent).
pub open spec fn appointments_at(m: Map<StorageKey, Record>, id: u64) -> Seq<
    FollowUpAppointment,
> {
    if m.contains_key(StorageKey::Appointments(id)) {
        match m[StorageKey::Appointments(id)] {
            Record::Appointments(v) => v@,
            _ => Seq::empty(),
        }
    } else {
        Seq::empty()
    }
}

/// The education record list of plan `id` (empty when absent).
pub open spec fn education_at(m: Map<StorageKey, Record>, id: u64) -> Seq<EducationRecord> {
    if m.contains_key(StorageKey::Education(id)) {
        match m[StorageKey::Education(id)] {
            Record::Education(v) => v@,
            _ => Seq::empty(),
        }
    } else {
        Seq::empty()
    }
}

/// The stored facility coordination of plan `id`, if any.
pub open spec fn snf_at(m: Map<StorageKey, Record>, id: u64) -> Option<SnfCoordination> {
    if m.contains_key(StorageKey::SnfCoord(id)) {
        match m[StorageKey::SnfCoord(id)] {
            Record::SnfCoord(c) => Some(c),
            _ => None,
        }
    } else {
        None
    }
}

/// The write-once completion record of plan `id`, if any.
pub open spec fn completion_at(m: Map<StorageKey, Record>, id: u64) -> Option<CompletionRecord> {
    if m.contains_key(StorageKey::Completed(id)) {
        match m[StorageKey::Completed(id)] {
            Record::Completed(c) => Some(c),
            _ => None,
        }
    } else {
        None
    }
}

/// The stored readmission risk record of plan `id`, if any.
pub open spec fn risk_at(m: Map<StorageKey, Record>, id: u64) -> Option<ReadmissionRisk> {
    if m.contains_key(StorageKey::Risk(id)) {
        match m[StorageKey::Risk(id)] {
            Record::Risk(r) => Some(r),
            _ => None,
        }
    } else {
        None
    }
}

/// `a` and `b` agree on every key but `k`.
pub open spec fn agrees_except(
    a: Map<StorageKey, Record>,
    b: Map<StorageKey, Record>,
    k: StorageKey,
) -> bool {
    forall|k2: StorageKey|
        k2 != k ==> (#[trigger] a.contains_key(k2) == b.contains_key(k2) && (a.contains_key(k2)
            ==> a[k2] == b[k2]))
}

/// `a` and `b` agree on every key but `k1` and `k2`.
pub open spec fn agrees_except2(
    a: Map<StorageKey, Record>,
    b: Map<StorageKey, Record>,
    k1: StorageKey,
    k2: StorageKey,
) -> bool {
    forall|k3: StorageKey|
        k3 != k1 && k3 != k2 ==> (#[trigger] a.contains_key(k3) == b.contains_key(k3) && (
        a.contains_key(k3) ==> a[k3] == b[k3]))
}

/// With pairwise distinct keys, any entry holding `k` is the one
/// `seq_index_of` picks.
proof fn lemma_index_of_unique(s: Seq<StoreEntry>, k: StorageKey, i: int)
    requires
        forall|p: int, q: int| 0 <= p < q < s.len() ==> s[p].key != s[q].key,
        entry_with_key(s, k, i),
    ensures
        seq_index_of(s, k) == i,
        seq_has_key(s, k),
{
    let j = seq_index_of(s, k);
    assert(entry_with_key(s, k, j));
    if i < j {
        assert(s[i].key != s[j].key);
    } else if j < i {
        assert(s[j].key != s[i].key);
    }
}

/// The persistent keyed record store.
pub struct Storage {
    entries: Vec<StoreEntry>,
}

impl View for Storage {
    type V = Map<StorageKey, Record>;

    closed spec fn view(&self) -> Map<StorageKey, Record> {
        seq_as_map(self.entries@)
    }
}

impl Storage {
    /// Well-formedness: keys pairwise distinct, every payload under a key of
    /// its kind, and every entry at the full retention horizon (each write
    /// re-establishes it, and writes are the only mutations).
    pub closed spec fn wf(self) -> bool {
        &&& forall|p: int, q: int|
            0 <= p < q < self.entries@.len() ==> self.entries@[p].key != self.entries@[q].key
        &&& forall|i: int|
            0 <= i < self.entries@.len() ==> kind_matches(
                #[trigger] self.entries@[i].key,
                self.entries@[i].value,
            )
        &&& forall|i: int| 0 <= i < self.entries@.len() ==> #[trigger] self.entries@[i].ttl == YEAR_IN_LEDGERS
    }

    /// The retention horizon currently recorded for `key` (0 when absent).
    pub closed spec fn retention(self, key: StorageKey) -> u32 {
        if seq_has_key(self.entries@, key) {
            self.entries@[seq_index_of(self.entries@, key)].ttl
        } else {
            0
        }
    }

    /// An empty store.
    pub fn new() -> (r: Storage)
        ensures
            r.wf(),
            r@ == Map::<StorageKey, Record>::empty(),
    {
        let r = Storage { entries: Vec::new() };
        proof {
            assert(r@ =~= Map::<StorageKey, Record>::empty());
        }
        r
    }

    /// The position of the entry holding `key`, if one exists.
    fn find_index(&self, key: &StorageKey) -> (r: Option<usize>)
        requires
            self.wf(),
        ensures
            match r {
                Some(i) => entry_with_key(self.entries@, *key, i as int) && self@.contains_key(
                    *key,
                ) && seq_index_of(self.entries@, *key) == i as int,
                None => !self@.contains_key(*key),
            },
    {
        let n = self.entries.len();
        let mut i: usize = 0;
        while i < n
            invariant
                n == self.entries@.len(),
                i <= n,
                self.wf(),
                forall|j: int| 0 <= j < i ==> self.entries@[j].key != *key,
            decreases n - i,
        {
            if self.entries[i].key == *key {
                proof {
                    lemma_index_of_unique(self.entries@, *key, i as int);
                }
                return Some(i);
            }
            i += 1;
        }
        proof {
            assert(!seq_has_key(self.entries@, *key));
        }
        None
    }

    /// Whether a record is stored under `key`.
    pub fn has(&self, key: &StorageKey) -> (r: bool)
        requires
            self.wf(),
        ensures
            r == self@.contains_key(*key),
    {
        self.find_index(key).is_some()
    }

    /// A typed read: the record under `key`, or `None` when the key is
    /// absent (never an error).
    pub fn get(&self, key: &StorageKey) -> (r: Option<&Record>)
        requires
            self.wf(),
        ensures
            match r {
                Some(v) => self@.contains_key(*key) && *v == self@[*key] && kind_matches(*key, *v),
                None => !self@.contains_key(*key),
            },
    {
        match self.find_index(key) {
            Some(i) => {
                let entry = &self.entries[i];
                proof {
                    assert(kind_matches(self.entries@[i as int].key, self.entries@[i as int].value));
                }
                Some(&entry.value)
            },
            None => None,
        }
    }

    /// Unconditional overwrite: stores `value` under `key`, creating the
    /// entry if absent, and refreshes the retention horizon.
    pub fn set(&mut self, key: StorageKey, value: Record)
        requires
            old(self).wf(),
            kind_matches(key, value),
        ensures
            final(self).wf(),
            final(self)@ == old(self)@.insert(key, value),
            final(self).retention(key) == YEAR_IN_LEDGERS,
    {
        let ghost s_old = self.entries@;
        let ghost gval = value;
        let entry = StoreEntry { key, value, ttl: YEAR_IN_LEDGERS };
        match self.find_index(&key) {
            Some(i) => {
                self.entries[i] = entry;
                proof {
                    let s_new = self.entries@;
                    assert(forall|j: int| 0 <= j < s_new.len() ==> s_new[j].key == s_old[j].key);
                    assert forall|k2: StorageKey| #[trigger]
                        seq_as_map(s_new).contains_key(k2) == old(self)@.insert(
                            key,
                            gval,
                        ).contains_key(k2) && (seq_as_map(s_new).contains_key(k2)
                            ==> seq_as_map(s_new)[k2] == old(self)@.insert(key, gval)[k2]) by {
                        if seq_has_key(s_new, k2) {
                            let j = seq_index_of(s_new, k2);
                            assert(entry_with_key(s_new, k2, j));
                            assert(entry_with_key(s_old, k2, j));
                            lemma_index_of_unique(s_old, k2, j);
                            if k2 == key {
                                lemma_index_of_unique(s_new, k2, i as int);
                            } else {
                                assert(j != i);
                                assert(s_new[j] == s_old[j]);
                            }
                        }
                        if seq_has_key(s_old, k2) {
                            let j = seq_index_of(s_old, k2);
                            assert(entry_with_key(s_old, k2, j));
                            assert(entry_with_key(s_new, s_new[j].key, j));
                        }
                        if k2 == key {
                            assert(entry_with_key(s_new, key, i as int));
                        }
                    }
                    assert(self@ =~= old(self)@.insert(key, gval));
                    lemma_index_of_unique(s_new, key, i as int);
                }
            },
            None => {
                self.entries.push(entry);
                proof {
                    let s_new = self.entries@;
                    let n = s_old.len() as int;
                    assert(forall|j: int| 0 <= j < n ==> s_new[j] == s_old[j]);
                    assert(s_new[n] == entry);
                    assert forall|p: int, q: int| 0 <= p < q < s_new.len() implies s_new[p].key
                        != s_new[q].key by {
                        if q == n {
                            assert(entry_with_key(s_old, s_old[p].key, p));
                            if s_old[p].key == key {
                                assert(seq_has_key(s_old, key));
                            }
                        }
                    }
                    assert forall|k2: StorageKey| #[trigger]
                        seq_as_map(s_new).contains_key(k2) == old(self)@.insert(
                            key,
                            gval,
                        ).contains_key(k2) && (seq_as_map(s_new).contains_key(k2)
                            ==> seq_as_map(s_new)[k2] == old(self)@.insert(key, gval)[k2]) by {
                        if seq_has_key(s_new, k2) {
                            let j = seq_index_of(s_new, k2);
                            assert(entry_with_key(s_new, k2, j));
                            if j < n {
                                assert(entry_with_key(s_old, k2, j));
                                lemma_index_of_unique(s_old, k2, j);
                                lemma_index_of_unique(s_new, k2, j);
                            } else {
                                assert(k2 == key);
                                lemma_index_of_unique(s_new, key, n);
                            }
                        }
                        if seq_has_key(s_old, k2) {
                            let j = seq_index_of(s_old, k2);
                            assert(entry_with_key(s_old, k2, j));
                            assert(entry_with_key(s_new, k2, j));
                        }
                        if k2 == key {
                            assert(entry_with_key(s_new, key, n));
                        }
                    }
                    assert(self@ =~= old(self)@.insert(key, gval));
                    lemma_index_of_unique(s_new, key, n);
                }
            },
        }
    }

    /// The expiry-extension policy, uniformly applied: every stored record
    /// stands at the full retention horizon, because every write refreshes
    /// it and writes are the only mutations.
    pub proof fn lemma_uniform_retention(s: Storage, key: StorageKey)
        requires
            s.wf(),
            s@.contains_key(key),
        ensures
            s.retention(key) == YEAR_IN_LEDGERS,
    {
        let i = seq_index_of(s.entries@, key);
        assert(entry_with_key(s.entries@, key, i));
    }

    /// Returns the plan counter's current value and persists it incremented
    /// by one: the same value is never returned twice.
    pub fn get_and_increment_counter(&mut self) -> (r: u64)
        requires
            old(self).wf(),
            count_at(old(self)@, StorageKey::Counter) < u64::MAX,
        ensures
            final(self).wf(),
            r == count_at(old(self)@, StorageKey::Counter),
            final(self)@ == old(self)@.insert(StorageKey::Counter, Record::Count((r + 1) as u64)),
    {
        let counter: u64 = match self.get(&StorageKey::Counter) {
            Some(Record::Count(c)) => *c,
            _ => 0,
        };
        self.set(StorageKey::Counter, Record::Count(counter + 1));
        counter
    }

    /// Returns the appointment counter's current value and persists it
    /// incremented by one; independent of the plan counter.
    pub fn get_and_increment_appointment_counter(&mut self) -> (r: u64)
        requires
            old(self).wf(),
            count_at(old(self)@, StorageKey::AppointmentCounter) < u64::MAX,
        ensures
            final(self).wf(),
            r == count_at(old(self)@, StorageKey::AppointmentCounter),
            final(self)@ == old(self)@.insert(
                StorageKey::AppointmentCounter,
                Record::Count((r + 1) as u64),
            ),
    {
        let counter: u64 = match self.get(&StorageKey::AppointmentCounter) {
            Some(Record::Count(c)) => *c,
            _ => 0,
        };
        self.set(StorageKey::AppointmentCounter, Record::Count(counter + 1));
        counter
    }

    /// Stores a fresh, not yet completed plan under `discharge_plan_id`.
    pub fn save_discharge_plan(
        &mut self,
        discharge_plan_id: u64,
        patient_id: [u8; 32],
        admission_date: u64,
        expected_discharge_date: u64,
        discharge_destination: u32,
        created_at: u64,
    )
        requires
            old(self).wf(),
        ensures
            final(self).wf(),
            final(self)@ == old(self)@.insert(
                StorageKey::Plan(discharge_plan_id),
                Record::Plan(
                    (DischargePlan {
                        patient_id,
                        admission_date,
                        expected_discharge_date,
                        discharge_destination,
                        created_at,
                        is_completed: false,
                    }),
                ),
            ),
    {
        let plan = DischargePlan {
            patient_id,
            admission_date,
            expected_discharge_date,
            discharge_destination,
            created_at,
            is_completed: false,
        };
        self.set(StorageKey::Plan(discharge_plan_id), Record::Plan(plan));
    }

    /// Whether a plan was ever created under `discharge_plan_id`.
    pub fn discharge_plan_exists(&self, discharge_plan_id: u64) -> (r: bool)
        requires
            self.wf(),
        ensures
            r == plan_at(self@, discharge_plan_id) is Some,
    {
        self.has(&StorageKey::Plan(discharge_plan_id))
    }

    /// Overwrites the plan's readiness assessment (last write wins).
    pub fn save_readiness_assessment(&mut self, discharge_plan_id: u64, readiness: ReadinessScore)
        requires
            old(self).wf(),
        ensures
            final(self).wf(),
            final(self)@ == old(self)@.insert(
                StorageKey::Readiness(discharge_plan_id),
                Record::Readiness(readiness),
            ),
    {
        self.set(StorageKey::Readiness(discharge_plan_id), Record::Readiness(readiness));
    }

    /// Appends one order to the plan's order list (whole list read, extended,
    /// and written back).
    pub fn add_discharge_order(
        &mut self,
        discharge_plan_id: u64,
        order_type: u32,
        order_details_hash: [u8; 32],
        created_at: u64,
    )
        requires
            old(self).wf(),
        ensures
            final(self).wf(),
            agrees_except(final(self)@, old(self)@, StorageKey::Orders(discharge_plan_id)),
            final(self)@.contains_key(StorageKey::Orders(discharge_plan_id)),
            orders_at(final(self)@, discharge_plan_id) == orders_at(
                old(self)@,
                discharge_plan_id,
            ).push((DischargeOrder { order_type, order_details_hash, created_at })),
    {
        let order = DischargeOrder { order_type, order_details_hash, created_at };
        let mut orders: Vec<DischargeOrder> = match self.get(
            &StorageKey::Orders(discharge_plan_id),
        ) {
            Some(Record::Orders(v)) => copy_vec(v),
            _ => Vec::new(),
        };
        orders.push(order);
        self.set(StorageKey::Orders(discharge_plan_id), Record::Orders(orders));
    }

    /// Overwrites the plan's home health arrangement (last write wins).
    pub fn save_home_health_arrangement(
        &mut self,
        discharge_plan_id: u64,
        agency_id: [u8; 32],
        service_type: u32,
        frequency_per_week: u32,
        duration_weeks: u32,
        arranged_at: u64,
    )
        requires
            old(self).wf(),
        ensures
            final(self).wf(),
            final(self)@ == old(self)@.insert(
                StorageKey::HomeHealth(discharge_plan_id),
                Record::HomeHealth(
                    (HomeHealthArrangement {
                        agency_id,
                        service_type,
                        frequency_per_week,
                        duration_weeks,
                        arranged_at,
                    }),
                ),
            ),
    {
        let arrangement = HomeHealthArrangement {
            agency_id,
            service_type,
            frequency_per_week,
            duration_weeks,
            arranged_at,
        };
        self.set(StorageKey::HomeHealth(discharge_plan_id), Record::HomeHealth(arrangement));
    }

    /// Appends one equipment order to the plan's durable-medical-equipment
    /// list.
    pub fn save_dme_order(
        &mut self,
        discharge_plan_id: u64,
        equipment_type: u32,
        supplier_id: [u8; 32],
        delivery_date: u64,
        ordered_at: u64,
    )
        requires
            old(self).wf(),
        ensures
            final(self).wf(),
            agrees_except(final(self)@, old(self)@, StorageKey::Dme(discharge_plan_id)),
            final(self)@.contains_key(StorageKey::Dme(discharge_plan_id)),
            dme_at(final(self)@, discharge_plan_id) == dme_at(old(self)@, discharge_plan_id).push(
                (DmeOrder { equipment_type, supplier_id, delivery_date, ordered_at }),
            ),
    {
        let dme = DmeOrder { equipment_type, supplier_id, delivery_date, ordered_at };
        let mut dme_orders: Vec<DmeOrder> = match self.get(&StorageKey::Dme(discharge_plan_id)) {
            Some(Record::Dme(v)) => copy_vec(v),
            _ => Vec::new(),
        };
        dme_orders.push(dme);
        self.set(StorageKey::Dme(discharge_plan_id), Record::Dme(dme_orders));
    }

    /// Appends one appointment to the plan's appointment list.  The assigned
    /// appointment identifier is returned to the caller by the allocator and
    /// is not part of the stored entry.
    pub fn save_followup_appointment(
        &mut self,
        discharge_plan_id: u64,
        _appointment_id: u64,
        appointment: FollowUpAppointment,
    )
        requires
            old(self).wf(),
        ensures
            final(self).wf(),
            agrees_except(final(self)@, old(self)@, StorageKey::Appointments(discharge_plan_id)),
            final(self)@.contains_key(StorageKey::Appointments(discharge_plan_id)),
            appointments_at(final(self)@, discharge_plan_id) == appointments_at(
                old(self)@,
                discharge_plan_id,
            ).push(appointment),
    {
        let mut appointments: Vec<FollowUpAppointment> = match self.get(
            &StorageKey::Appointments(discharge_plan_id),
        ) {
            Some(Record::Appointments(v)) => copy_vec(v),
            _ => Vec::new(),
        };
        appointments.push(appointment);
        self.set(StorageKey::Appointments(discharge_plan_id), Record::Appointments(appointments));
    }

    /// Appends one education record to the plan's education list.
    pub fn save_education_record(
        &mut self,
        discharge_plan_id: u64,
        education_topic: u32,
        materials_hash: [u8; 32],
        completed: bool,
        provided_at: u64,
    )
        requires
            old(self).wf(),
        ensures
            final(self).wf(),
            agrees_except(final(self)@, old(self)@, StorageKey::Education(discharge_plan_id)),
            final(self)@.contains_key(StorageKey::Education(discharge_plan_id)),
            education_at(final(self)@, discharge_plan_id) == education_at(
                old(self)@,
                discharge_plan_id,
            ).push((EducationRecord { education_topic, materials_hash, completed, provided_at })),
    {
        let record = EducationRecord { education_topic, materials_hash, completed, provided_at };
        let mut records: Vec<EducationRecord> = match self.get(
            &StorageKey::Education(discharge_plan_id),
        ) {
            Some(Record::Education(v)) => copy_vec(v),
            _ => Vec::new(),
        };
        records.push(record);
        self.set(StorageKey::Education(discharge_plan_id), Record::Education(records));
    }

    /// Overwrites the plan's facility coordination record (last write wins).
    pub fn save_snf_coordination(
        &mut self,
        discharge_plan_id: u64,
        snf_id: [u8; 32],
        bed_reserved: bool,
        transfer_date: u64,
        medical_summary_hash: [u8; 32],
        coordinated_at: u64,
    )
        requires
            old(self).wf(),
        ensures
            final(self).wf(),
            final(self)@ == old(self)@.insert(
                StorageKey::SnfCoord(discharge_plan_id),
                Record::SnfCoord(
                    (SnfCoordination {
                        snf_id,
                        bed_reserved,
                        transfer_date,
                        medical_summary_hash,
                        coordinated_at,
                    }),
                ),
            ),
    {
        let coordination = SnfCoordination {
            snf_id,
            bed_reserved,
            transfer_date,
            medical_summary_hash,
            coordinated_at,
        };
        self.set(StorageKey::SnfCoord(discharge_plan_id), Record::SnfCoord(coordination));
    }

    /// Marks the plan completed and stores its write-once completion record.
    /// A dependent record is only ever written for an existing plan.
    pub fn mark_discharge_completed(
        &mut self,
        discharge_plan_id: u64,
        actual_discharge_date: u64,
        discharge_summary_hash: [u8; 32],
    )
        requires
            old(self).wf(),
            plan_at(old(self)@, discharge_plan_id) is Some,
        ensures
            final(self).wf(),
            final(self)@ == old(self)@.insert(
                StorageKey::Plan(discharge_plan_id),
                Record::Plan(
                    (DischargePlan {
                        is_completed: true,
                        ..plan_at(old(self)@, discharge_plan_id)->0
                    }),
                ),
            ).insert(
                StorageKey::Completed(discharge_plan_id),
                Record::Completed(
                    (CompletionRecord { actual_discharge_date, discharge_summary_hash }),
                ),
            ),
    {
        let plan: DischargePlan = match self.get(&StorageKey::Plan(discharge_plan_id)) {
            Some(Record::Plan(p)) => *p,
            _ => DischargePlan {
                patient_id: [0; 32],
                admission_date: 0,
                expected_discharge_date: 0,
                discharge_destination: 0,
                created_at: 0,
                is_completed: false,
            },
        };
        let updated = DischargePlan { is_completed: true, ..plan };
        self.set(StorageKey::Plan(discharge_plan_id), Record::Plan(updated));
        let completion = CompletionRecord { actual_discharge_date, discharge_summary_hash };
        self.set(StorageKey::Completed(discharge_plan_id), Record::Completed(completion));
    }

    /// Whether the plan has been completed; a missing plan counts as not
    /// completed.
    pub fn is_discharge_completed(&self, discharge_plan_id: u64) -> (r: bool)
        requires
            self.wf(),
        ensures
            r == match plan_at(self@, discharge_plan_id) {
                Some(p) => p.is_completed,
                None => false,
            },
    {
        match self.get(&StorageKey::Plan(discharge_plan_id)) {
            Some(Record::Plan(p)) => p.is_completed,
            _ => false,
        }
    }

    /// Overwrites the plan's readmission risk record (last write wins).
    pub fn save_readmission_risk(
        &mut self,
        discharge_plan_id: u64,
        risk_factors: u32,
        risk_score: u32,
        tracked_at: u64,
    )
        requires
            old(self).wf(),
        ensures
            final(self).wf(),
            final(self)@ == old(self)@.insert(
                StorageKey::Risk(discharge_plan_id),
                Record::Risk((ReadmissionRisk { risk_factors, risk_score, tracked_at })),
            ),
    {
        let risk = ReadmissionRisk { risk_factors, risk_score, tracked_at };
        self.set(StorageKey::Risk(discharge_plan_id), Record::Risk(risk));
    }
}

/// An element-wise copy: reads return independent copies, never shared
/// references into the store.
pub(crate) fn copy_vec<T: Copy>(v: &Vec<T>) -> (r: Vec<T>)
    ensures
        r@ == v@,
{
    let mut r: Vec<T> = Vec::new();
    let n = v.len();
    let mut i: usize = 0;
    while i < n
        invariant
            i <= n,
            n == v@.len(),
            r@ == v@.subrange(0, i as int),
        decreases n - i,
    {
        r.push(v[i]);
        proof {
            assert(r@ =~= v@.subrange(0, i as int + 1));
        }
        i += 1;
    }
    proof {
        assert(r@ =~= v@);
    }
    r
}

} // verus!
