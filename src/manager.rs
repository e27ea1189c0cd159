use vstd::prelude::*;

use crate::addr::BDAddr;
use crate::peripheral::{Peripheral, PeripheralView};

verus! {

/// A notification that the registry changed for one address.
#[derive(Clone, Copy, Debug, Eq)]
pub enum CentralEvent {
    DeviceDiscovered(BDAddr),
    DeviceUpdated(BDAddr),
}

impl CentralEvent {
    pub open spec fn address_spec(self) -> BDAddr {
        match self {
            CentralEvent::DeviceDiscovered(a) => a,
            CentralEvent::DeviceUpdated(a) => a,
        }
    }

    /// The address the event is about.
    pub fn address(&self) -> (r: BDAddr)
        ensures
            r == self.address_spec(),
    {
        match self {
            CentralEvent::DeviceDiscovered(a) => *a,
            CentralEvent::DeviceUpdated(a) => *a,
        }
    }
}

impl PartialEq for CentralEvent {
    fn eq(&self, o: &CentralEvent) -> (r: bool) {
        match (self, o) {
            (CentralEvent::DeviceDiscovered(a), CentralEvent::DeviceDiscovered(b)) => a == b,
            (CentralEvent::DeviceUpdated(a), CentralEvent::DeviceUpdated(b)) => a == b,
            _ => false,
        }
    }
}

impl vstd::std_specs::cmp::PartialEqSpecImpl for CentralEvent {
    open spec fn obeys_eq_spec() -> bool {
        true
    }

    open spec fn eq_spec(&self, o: &CentralEvent) -> bool {
        *self == *o
    }
}

/// Which of the two things an upsert did.
#[derive(Clone, Copy, Debug, PartialEq, Eq, Structural)]
pub enum Upsert {
    Inserted,
    Replaced,
}

/// Whether some record in `s` has address `a`.
pub open spec fn has_record(s: Seq<PeripheralView>, a: BDAddr) -> bool {
    exists|i: int| 0 <= i < s.len() && (#[trigger] s[i]).address == a
}

/// No two records in `s` share an address.
pub open spec fn distinct_addresses(s: Seq<PeripheralView>) -> bool {
    forall|i: int, j: int|
        0 <= i < s.len() && 0 <= j < s.len() && i != j ==> (#[trigger] s[i]).address
            != (#[trigger] s[j]).address
}

/// Whether `i` is the first position in `s` that holds address `a`.
pub open spec fn first_at(s: Seq<PeripheralView>, a: BDAddr, i: int) -> bool {
    &&& 0 <= i < s.len()
    &&& s[i].address == a
    &&& forall|j: int| 0 <= j < i ==> (#[trigger] s[j]).address != a
}

/// The first position of a record for `a` in `s`, meaningful when there is one.
pub open spec fn index_of(s: Seq<PeripheralView>, a: BDAddr) -> int {
    choose|i: int| first_at(s, a, i)
}

/// The record for `a` in `s`, if any.
pub open spec fn record_for(s: Seq<PeripheralView>, a: BDAddr) -> Option<PeripheralView> {
    if has_record(s, a) {
        Some(s[index_of(s, a)])
    } else {
        None
    }
}

/// `s` with `p` put in place of the record for its address, or added at the end
/// when there is none.
pub open spec fn upsert_spec(s: Seq<PeripheralView>, p: PeripheralView) -> Seq<PeripheralView> {
    if has_record(s, p.address) {
        s.update(index_of(s, p.address), p)
    } else {
        s.push(p)
    }
}

/// Whether `upsert_spec(s, p)` inserts or replaces.
pub open spec fn upsert_kind(s: Seq<PeripheralView>, p: PeripheralView) -> Upsert {
    if has_record(s, p.address) {
        Upsert::Replaced
    } else {
        Upsert::Inserted
    }
}

/// A position that holds `a` with none before it is the one `index_of` picks.
pub proof fn lemma_first_is_index(s: Seq<PeripheralView>, a: BDAddr, i: int)
    requires
        first_at(s, a, i),
    ensures
        has_record(s, a),
        index_of(s, a) == i,
{
    assert(s[i].address == a);
    let k = index_of(s, a);
    assert(first_at(s, a, k));
    if k < i {
        assert(s[k].address != a);
    } else if k > i {
        assert(s[i].address != a);
    }
}

/// Where some record has address `a`, `index_of` picks one that has it.
pub proof fn lemma_index_of(s: Seq<PeripheralView>, a: BDAddr)
    requires
        has_record(s, a),
    ensures
        0 <= index_of(s, a) < s.len(),
        s[index_of(s, a)].address == a,
{
    let i = choose|i: int| 0 <= i < s.len() && (#[trigger] s[i]).address == a;
    lemma_first_exists(s, a, i);
    let k = choose|k: int| first_at(s, a, k);
    lemma_first_is_index(s, a, k);
}

proof fn lemma_first_exists(s: Seq<PeripheralView>, a: BDAddr, i: int)
    requires
        0 <= i < s.len(),
        s[i].address == a,
    ensures
        exists|k: int| first_at(s, a, k),
    decreases i,
{
    if exists|j: int| 0 <= j < i && (#[trigger] s[j]).address == a {
        let j = choose|j: int| 0 <= j < i && (#[trigger] s[j]).address == a;
        lemma_first_exists(s, a, j);
    } else {
        assert(first_at(s, a, i));
    }
}

/// In a sequence with distinct addresses, the record with address `a` is the one
/// that `index_of` picks.
pub proof fn lemma_index_unique(s: Seq<PeripheralView>, a: BDAddr, i: int)
    requires
        distinct_addresses(s),
        0 <= i < s.len(),
        s[i].address == a,
    ensures
        has_record(s, a),
        index_of(s, a) == i,
{
    assert forall|j: int| 0 <= j < i implies (#[trigger] s[j]).address != a by {
        assert(s[j].address != s[i].address);
    }
    lemma_first_is_index(s, a, i);
}

/// An upsert keeps the addresses distinct and keeps every address it found.
pub proof fn lemma_upsert_keeps(s: Seq<PeripheralView>, p: PeripheralView)
    requires
        distinct_addresses(s),
    ensures
        distinct_addresses(upsert_spec(s, p)),
        has_record(upsert_spec(s, p), p.address),
        record_for(upsert_spec(s, p), p.address) == Some(p),
        forall|b: BDAddr| #[trigger]
            has_record(upsert_spec(s, p), b) <==> (has_record(s, b) || b == p.address),
        forall|b: BDAddr|
            b != p.address ==> #[trigger] record_for(upsert_spec(s, p), b) == record_for(s, b),
{
    let t = upsert_spec(s, p);
    if has_record(s, p.address) {
        lemma_index_of(s, p.address);
    }
    let k = if has_record(s, p.address) {
        index_of(s, p.address)
    } else {
        s.len() as int
    };
    assert(t[k] == p);
    assert(forall|j: int| 0 <= j < t.len() && j != k ==> t[j] == s[j]);
    assert forall|i: int, j: int|
        0 <= i < t.len() && 0 <= j < t.len() && i != j implies (#[trigger] t[i]).address
        != (#[trigger] t[j]).address by {
        if i != k && j != k {
            assert(s[i].address != s[j].address);
        } else if i == k {
            if has_record(s, p.address) {
                assert(s[k].address == p.address);
                assert(s[j].address != s[k].address);
            } else {
                assert(!(0 <= j < s.len() && s[j].address == p.address));
            }
        } else {
            if has_record(s, p.address) {
                assert(s[k].address == p.address);
                assert(s[i].address != s[k].address);
            } else {
                assert(!(0 <= i < s.len() && s[i].address == p.address));
            }
        }
    }
    lemma_index_unique(t, p.address, k);
    assert forall|b: BDAddr| #[trigger]
        has_record(t, b) <==> (has_record(s, b) || b == p.address) by {
        if has_record(s, b) {
            lemma_index_of(s, b);
            let i = index_of(s, b);
            assert(t[i].address == b);
        }
        if has_record(t, b) && b != p.address {
            lemma_index_of(t, b);
            let i = index_of(t, b);
            assert(s[i].address == b);
        }
    }
    assert forall|b: BDAddr| b != p.address implies #[trigger] record_for(t, b) == record_for(s, b) by {
        if has_record(s, b) {
            lemma_index_of(s, b);
            let i = index_of(s, b);
            assert(t[i] == s[i]);
            lemma_index_unique(t, b, i);
        }
    }
}

/// The shared registry: one record per address, and the events not yet consumed.
pub struct AdapterManager {
    peripherals: Vec<Peripheral>,
    events: Vec<CentralEvent>,
    receiver_taken: bool,
}

/// Handed out once: whoever holds it consumes the events.
pub struct EventReceiver {
    claimed: bool,
}

impl AdapterManager {
    /// The records, in the order their addresses were first seen.
    pub closed spec fn records(&self) -> Seq<PeripheralView> {
        self.peripherals@.map_values(|p: Peripheral| p@)
    }

    /// The events emitted and not yet consumed, oldest first.
    pub closed spec fn events(&self) -> Seq<CentralEvent> {
        self.events@
    }

    pub closed spec fn receiver_taken(&self) -> bool {
        self.receiver_taken
    }

    /// Addresses are distinct, and every pending event names an address that has a
    /// record.
    pub open spec fn wf(&self) -> bool {
        &&& distinct_addresses(self.records())
        &&& forall|k: int|
            0 <= k < self.events().len() ==> has_record(
                self.records(),
                (#[trigger] self.events()[k]).address_spec(),
            )
    }

    pub fn new() -> (r: AdapterManager)
        ensures
            r.wf(),
            r.records() == Seq::<PeripheralView>::empty(),
            r.events() == Seq::<CentralEvent>::empty(),
            !r.receiver_taken(),
    {
        let r = AdapterManager { peripherals: Vec::new(), events: Vec::new(), receiver_taken: false };
        assert(r.records() =~= Seq::<PeripheralView>::empty());
        r
    }

    fn find(&self, a: &BDAddr) -> (r: Option<usize>)
        ensures
            match r {
                Some(i) => i < self.records().len() && i == index_of(self.records(), *a)
                    && has_record(self.records(), *a),
                None => !has_record(self.records(), *a),
            },
    {
        let mut i: usize = 0;
        while i < self.peripherals.len()
            invariant
                i <= self.peripherals.len(),
                forall|j: int| 0 <= j < i ==> (#[trigger] self.records()[j]).address != *a,
            decreases self.peripherals.len() - i,
        {
            if self.peripherals[i].address() == *a {
                proof {
                    lemma_first_is_index(self.records(), *a, i as int);
                }
                return Some(i);
            }
            i += 1;
        }
        None
    }

    /// Whether a record for `a` exists.
    pub fn has_peripheral(&self, a: &BDAddr) -> (r: bool)
        ensures
            r == has_record(self.records(), *a),
    {
        self.find(a).is_some()
    }

    /// Puts `p` in place of the record for its address, or adds it when there is
    /// none, and says which it did.
    pub fn upsert(&mut self, p: Peripheral) -> (r: Upsert)
        requires
            old(self).wf(),
        ensures
            final(self).wf(),
            final(self).records() == upsert_spec(old(self).records(), p@),
            r == upsert_kind(old(self).records(), p@),
            final(self).events() == old(self).events(),
            final(self).receiver_taken() == old(self).receiver_taken(),
    {
        proof {
            lemma_upsert_keeps(self.records(), p@);
        }
        let ghost pv = p@;
        let a = p.address();
        let r = match self.find(&a) {
            Some(i) => {
                self.peripherals.set(i, p);
                assert(self.records() =~= upsert_spec(old(self).records(), pv));
                Upsert::Replaced
            },
            None => {
                self.peripherals.push(p);
                assert(self.records() =~= upsert_spec(old(self).records(), pv));
                Upsert::Inserted
            },
        };
        assert forall|k: int| 0 <= k < self.events().len() implies has_record(
            self.records(),
            (#[trigger] self.events()[k]).address_spec(),
        ) by {
            assert(has_record(old(self).records(), old(self).events()[k].address_spec()));
            assert(has_record(upsert_spec(old(self).records(), pv), old(self).events()[k].address_spec()));
        }
        r
    }

    /// Adds the record of an address not seen before.
    pub fn add_peripheral(&mut self, p: Peripheral)
        requires
            old(self).wf(),
            !has_record(old(self).records(), p@.address),
        ensures
            final(self).wf(),
            final(self).records() == old(self).records().push(p@),
            final(self).events() == old(self).events(),
            final(self).receiver_taken() == old(self).receiver_taken(),
    {
        self.upsert(p);
    }

    /// Replaces the record of an address already present.
    pub fn update_peripheral(&mut self, p: Peripheral)
        requires
            old(self).wf(),
            has_record(old(self).records(), p@.address),
        ensures
            final(self).wf(),
            final(self).records() == old(self).records().update(
                index_of(old(self).records(), p@.address),
                p@,
            ),
            final(self).events() == old(self).events(),
            final(self).receiver_taken() == old(self).receiver_taken(),
    {
        self.upsert(p);
    }

    /// Queues an event; its address must already have a record, so that a
    /// consumer who sees the event finds the record.
    pub fn emit(&mut self, e: CentralEvent)
        requires
            old(self).wf(),
            has_record(old(self).records(), e.address_spec()),
        ensures
            final(self).wf(),
            final(self).records() == old(self).records(),
            final(self).events() == old(self).events().push(e),
            final(self).receiver_taken() == old(self).receiver_taken(),
    {
        self.events.push(e);
        assert forall|k: int| 0 <= k < self.events().len() implies has_record(
            self.records(),
            (#[trigger] self.events()[k]).address_spec(),
        ) by {
            if k < old(self).events().len() {
                assert(self.events()[k] == old(self).events()[k]);
            }
        }
    }

    /// A copy of the record for `a`, if there is one.
    pub fn peripheral(&self, a: &BDAddr) -> (r: Option<Peripheral>)
        ensures
            match r {
                Some(p) => record_for(self.records(), *a) == Some(p@),
                None => record_for(self.records(), *a) is None,
            },
    {
        match self.find(a) {
            Some(i) => Some(self.peripherals[i].snapshot()),
            None => None,
        }
    }

    /// Copies of all records, in the order their addresses were first seen.
    pub fn peripherals(&self) -> (r: Vec<Peripheral>)
        ensures
            r@.map_values(|p: Peripheral| p@) == self.records(),
    {
        let mut r: Vec<Peripheral> = Vec::new();
        let mut i: usize = 0;
        while i < self.peripherals.len()
            invariant
                i <= self.peripherals.len(),
                r.len() == i,
                self.records().len() == self.peripherals.len(),
                forall|j: int| 0 <= j < i ==> (#[trigger] r@[j])@ == self.records()[j],
            decreases self.peripherals.len() - i,
        {
            let q = self.peripherals[i].snapshot();
            assert(q@ == self.records()[i as int]);
            r.push(q);
            i += 1;
        }
        assert(r@.map_values(|p: Peripheral| p@) =~= self.records());
        r
    }

    /// The single event receiver: the first call gets it, later calls get `None`.
    pub fn event_receiver(&mut self) -> (r: Option<EventReceiver>)
        ensures
            r is Some <==> !old(self).receiver_taken(),
            final(self).receiver_taken(),
            final(self).records() == old(self).records(),
            final(self).events() == old(self).events(),
    {
        if self.receiver_taken {
            None
        } else {
            self.receiver_taken = true;
            Some(EventReceiver { claimed: true })
        }
    }

    /// Takes the oldest pending event, if any.
    pub fn next_event(&mut self, rx: &EventReceiver) -> (r: Option<CentralEvent>)
        requires
            old(self).wf(),
        ensures
            final(self).wf(),
            final(self).records() == old(self).records(),
            final(self).receiver_taken() == old(self).receiver_taken(),
            old(self).events().len() == 0 ==> r is None && final(self).events() == old(self).events(),
            old(self).events().len() > 0 ==> r == Some(old(self).events()[0])
                && final(self).events() == old(self).events().drop_first(),
    {
        if self.events.len() == 0 {
            None
        } else {
            let e = self.events.remove(0);
            assert(self.events() =~= old(self).events().drop_first());
            assert forall|k: int| 0 <= k < self.events().len() implies has_record(
                self.records(),
                (#[trigger] self.events()[k]).address_spec(),
            ) by {
                assert(self.events()[k] == old(self).events()[k + 1]);
            }
            Some(e)
        }
    }
}

} // verus!
