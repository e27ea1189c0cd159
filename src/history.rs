use vstd::prelude::*;

use crate::adapter::{emitted_spec, handle_spec, AdapterView};
use crate::addr::BDAddr;
use crate::manager::{has_record, lemma_upsert_keeps, record_for, CentralEvent};
use crate::peripheral::{address_of, record_of, AdvertisementView, PeripheralView};

verus! {

/// The adapter after the callbacks `advs`, in order.
pub open spec fn run(m: AdapterView, advs: Seq<AdvertisementView>) -> AdapterView
    decreases advs.len(),
{
    if advs.len() == 0 {
        m
    } else {
        handle_spec(run(m, advs.drop_last()), advs.last())
    }
}

/// Whether some callback in `advs` carries address `a`.
pub open spec fn seen(advs: Seq<AdvertisementView>, a: BDAddr) -> bool {
    exists|j: int| 0 <= j < advs.len() && address_of(#[trigger] advs[j]) == Some(a)
}

/// The addresses that the callbacks `advs` carry.
pub open spec fn addresses_seen(advs: Seq<AdvertisementView>) -> Set<BDAddr> {
    Set::new(|a: BDAddr| seen(advs, a))
}

/// One callback keeps the adapter well formed and leaves the scan state alone;
/// the addresses with a record grow by the callback's address when it emits.
pub proof fn lemma_handle_keeps_wf(m: AdapterView, adv: AdvertisementView)
    requires
        m.wf(),
    ensures
        handle_spec(m, adv).wf(),
        handle_spec(m, adv).scanning == m.scanning,
        forall|b: BDAddr| #[trigger]
            has_record(handle_spec(m, adv).records, b) <==> (has_record(m.records, b) || (
            m.scanning && address_of(adv) == Some(b))),
{
    match emitted_spec(m, adv) {
        None => {},
        Some(e) => {
            let p = record_of(e.address_spec(), adv);
            lemma_upsert_keeps(m.records, p);
            let t = handle_spec(m, adv);
            assert forall|k: int| 0 <= k < t.events.len() implies has_record(
                t.records,
                (#[trigger] t.events[k]).address_spec(),
            ) by {
                if k < m.events.len() {
                    assert(t.events[k] == m.events[k]);
                }
            }
        },
    }
}

/// A callback whose payload has no usable address changes no record, emits no
/// event, and leaves the scan running.
pub proof fn lemma_malformed_changes_nothing(m: AdapterView, adv: AdvertisementView)
    requires
        address_of(adv) is None,
    ensures
        emitted_spec(m, adv) is None,
        handle_spec(m, adv) == m,
        handle_spec(m, adv).scanning == m.scanning,
{
}

/// A run keeps the adapter well formed and leaves the scan state alone.
pub proof fn lemma_run_wf(m: AdapterView, advs: Seq<AdvertisementView>)
    requires
        m.wf(),
    ensures
        run(m, advs).wf(),
        run(m, advs).scanning == m.scanning,
    decreases advs.len(),
{
    if advs.len() > 0 {
        lemma_run_wf(m, advs.drop_last());
        lemma_handle_keeps_wf(run(m, advs.drop_last()), advs.last());
    }
}

/// During a scan, an address has a record after a run exactly when it had one
/// before or some callback of the run carried it: records are never lost.
pub proof fn lemma_run_has(m: AdapterView, advs: Seq<AdvertisementView>, a: BDAddr)
    requires
        m.wf(),
        m.scanning,
    ensures
        has_record(run(m, advs).records, a) <==> (has_record(m.records, a) || seen(advs, a)),
    decreases advs.len(),
{
    if advs.len() > 0 {
        let d = advs.drop_last();
        lemma_run_has(m, d, a);
        lemma_run_wf(m, d);
        lemma_handle_keeps_wf(run(m, d), advs.last());
        if seen(advs, a) {
            let j = choose|j: int| 0 <= j < advs.len() && address_of(#[trigger] advs[j]) == Some(a);
            if j < d.len() {
                assert(d[j] == advs[j]);
            }
        }
        if seen(d, a) {
            let j = choose|j: int| 0 <= j < d.len() && address_of(#[trigger] d[j]) == Some(a);
            assert(d[j] == advs[j]);
        }
        assert(address_of(advs.last()) == Some(a) ==> address_of(advs[advs.len() - 1]) == Some(a));
    }
}

/// Uniqueness: after any run of callbacks during a scan in which some callback
/// carries address `a`, exactly one record has address `a`.
pub proof fn lemma_one_record_per_address(m: AdapterView, advs: Seq<AdvertisementView>, a: BDAddr)
    requires
        m.wf(),
        m.scanning,
        seen(advs, a),
    ensures
        has_record(run(m, advs).records, a),
        forall|i: int, j: int|
            0 <= i < run(m, advs).records.len() && 0 <= j < run(m, advs).records.len()
                && (#[trigger] run(m, advs).records[i]).address == a
                && (#[trigger] run(m, advs).records[j]).address == a ==> i == j,
{
    lemma_run_has(m, advs, a);
    lemma_run_wf(m, advs);
}

/// Classification: during a scan, the callback at position `k` that carries
/// address `a` emits exactly one event, `DeviceDiscovered(a)` when `a` had no
/// record and no earlier callback carried it, and `DeviceUpdated(a)` otherwise.
pub proof fn lemma_event_classification(m: AdapterView, advs: Seq<AdvertisementView>, k: int)
    requires
        m.wf(),
        m.scanning,
        0 <= k < advs.len(),
        address_of(advs[k]) is Some,
    ensures
        ({
            let a = address_of(advs[k])->Some_0;
            let before = run(m, advs.take(k));
            let e = if has_record(m.records, a) || seen(advs.take(k), a) {
                CentralEvent::DeviceUpdated(a)
            } else {
                CentralEvent::DeviceDiscovered(a)
            };
            &&& emitted_spec(before, advs[k]) == Some(e)
            &&& run(m, advs.take(k + 1)).events == before.events.push(e)
        }),
{
    let a = address_of(advs[k])->Some_0;
    lemma_run_has(m, advs.take(k), a);
    lemma_run_wf(m, advs.take(k));
    assert(advs.take(k + 1).drop_last() =~= advs.take(k));
    assert(advs.take(k + 1).last() == advs[k]);
}

/// Publish after mutate: when a callback emits an event, the record for its
/// address is already the one that callback describes, and every queued event
/// names an address that has a record.
pub proof fn lemma_publish_after_mutate(m: AdapterView, adv: AdvertisementView)
    requires
        m.wf(),
    ensures
        handle_spec(m, adv).wf(),
        emitted_spec(m, adv) is Some ==> {
            let a = emitted_spec(m, adv)->Some_0.address_spec();
            record_for(handle_spec(m, adv).records, a) == Some(record_of(a, adv))
        },
{
    lemma_handle_keeps_wf(m, adv);
    if emitted_spec(m, adv) is Some {
        let a = emitted_spec(m, adv)->Some_0.address_spec();
        lemma_upsert_keeps(m.records, record_of(a, adv));
    }
}

/// No lost update: during a scan, the record for `a` after a run is the one that
/// the last callback carrying `a` describes.
pub proof fn lemma_latest_callback_wins(
    m: AdapterView,
    advs: Seq<AdvertisementView>,
    a: BDAddr,
    j: int,
)
    requires
        m.wf(),
        m.scanning,
        0 <= j < advs.len(),
        address_of(advs[j]) == Some(a),
        forall|i: int| j < i < advs.len() ==> address_of(#[trigger] advs[i]) != Some(a),
    ensures
        record_for(run(m, advs).records, a) == Some(record_of(a, advs[j])),
    decreases advs.len(),
{
    let d = advs.drop_last();
    lemma_run_wf(m, d);
    let before = run(m, d);
    if j == advs.len() - 1 {
        lemma_publish_after_mutate(before, advs.last());
    } else {
        assert forall|i: int| j < i < d.len() implies address_of(#[trigger] d[i]) != Some(a) by {
            assert(d[i] == advs[i]);
        }
        lemma_latest_callback_wins(m, d, a, j);
        assert(address_of(advs[advs.len() - 1]) != Some(a));
        match emitted_spec(before, advs.last()) {
            None => {},
            Some(e) => {
                lemma_upsert_keeps(before.records, record_of(e.address_spec(), advs.last()));
            },
        }
    }
}

/// During a scan, each callback with a usable address emits exactly one event.
pub proof fn lemma_run_event_count(m: AdapterView, advs: Seq<AdvertisementView>)
    requires
        m.wf(),
        m.scanning,
        forall|j: int| 0 <= j < advs.len() ==> address_of(#[trigger] advs[j]) is Some,
    ensures
        run(m, advs).events.len() == m.events.len() + advs.len(),
    decreases advs.len(),
{
    if advs.len() > 0 {
        let d = advs.drop_last();
        assert forall|j: int| 0 <= j < d.len() implies address_of(#[trigger] d[j]) is Some by {
            assert(d[j] == advs[j]);
        }
        lemma_run_event_count(m, d);
        lemma_run_wf(m, d);
        assert(address_of(advs[advs.len() - 1]) is Some);
    }
}

/// Counts: starting from an empty adapter that is scanning, `M` callbacks that
/// all carry usable addresses, `K` of them distinct, leave exactly `K` records
/// and emit exactly `M` events.
pub proof fn lemma_record_and_event_counts(m: AdapterView, advs: Seq<AdvertisementView>)
    requires
        m.records == Seq::<PeripheralView>::empty(),
        m.events == Seq::<CentralEvent>::empty(),
        m.scanning,
        forall|j: int| 0 <= j < advs.len() ==> address_of(#[trigger] advs[j]) is Some,
    ensures
        addresses_seen(advs).finite(),
        run(m, advs).records.len() == addresses_seen(advs).len(),
        run(m, advs).events.len() == advs.len(),
{
    lemma_run_event_count(m, advs);
    lemma_run_wf(m, advs);
    let recs = run(m, advs).records;
    let addrs = recs.map_values(|p: PeripheralView| p.address);
    assert forall|b: BDAddr| #[trigger] addrs.contains(b) <==> addresses_seen(advs).contains(b) by {
        lemma_run_has(m, advs, b);
        if addrs.contains(b) {
            let i = choose|i: int| 0 <= i < addrs.len() && addrs[i] == b;
            assert(recs[i].address == b);
        }
        if has_record(recs, b) {
            let i = choose|i: int| 0 <= i < recs.len() && (#[trigger] recs[i]).address == b;
            assert(addrs[i] == b);
        }
    }
    assert(addrs.to_set() =~= addresses_seen(advs));
    assert(addrs.no_duplicates()) by {
        assert forall|i: int, j: int| 0 <= i < addrs.len() && 0 <= j < addrs.len() && i != j implies addrs[i]
            != addrs[j] by {
            assert(recs[i].address != recs[j].address);
        }
    }
    addrs.unique_seq_to_set();
}

} // verus!
