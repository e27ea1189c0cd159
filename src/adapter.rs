use vstd::prelude::*;

use crate::addr::BDAddr;
use crate::error::Error;
use crate::manager::{
    has_record, lemma_upsert_keeps, record_for, upsert_spec, distinct_addresses, AdapterManager, CentralEvent,
    EventReceiver, Upsert,
};
use crate::peripheral::{address_of, record_of, Advertisement, AdvertisementView, Peripheral, PeripheralView};

verus! {

/// Mathematical value of an adapter: the records, the pending events, and whether
/// a scan is running.
pub ghost struct AdapterView {
    pub records: Seq<PeripheralView>,
    pub events: Seq<CentralEvent>,
    pub scanning: bool,
}

impl AdapterView {
    /// Addresses are distinct, and every pending event names an address that has a
    /// record.
    pub open spec fn wf(self) -> bool {
        &&& distinct_addresses(self.records)
        &&& forall|k: int|
            0 <= k < self.events.len() ==> has_record(
                self.records,
                (#[trigger] self.events[k]).address_spec(),
            )
    }
}

/// The event that one callback with `adv` emits: none while idle or when the
/// payload has no usable address; otherwise `DeviceDiscovered` for an address
/// without a record and `DeviceUpdated` for one with a record.
pub open spec fn emitted_spec(m: AdapterView, adv: AdvertisementView) -> Option<CentralEvent> {
    if !m.scanning {
        None
    } else {
        match address_of(adv) {
            None => None,
            Some(a) => Some(
                if has_record(m.records, a) {
                    CentralEvent::DeviceUpdated(a)
                } else {
                    CentralEvent::DeviceDiscovered(a)
                },
            ),
        }
    }
}

/// The adapter after one callback with `adv`: the record is upserted first, then
/// the event is queued.
pub open spec fn handle_spec(m: AdapterView, adv: AdvertisementView) -> AdapterView {
    match emitted_spec(m, adv) {
        None => m,
        Some(e) => AdapterView {
            records: upsert_spec(m.records, record_of(e.address_spec(), adv)),
            events: m.events.push(e),
            scanning: m.scanning,
        },
    }
}

/// The central: a peripheral registry fed by the discovery callbacks of a scan.
pub struct Adapter {
    manager: AdapterManager,
    scanning: bool,
}

impl View for Adapter {
    type V = AdapterView;

    closed spec fn view(&self) -> AdapterView {
        AdapterView {
            records: self.manager.records(),
            events: self.manager.events(),
            scanning: self.scanning,
        }
    }
}

impl Adapter {
    #[verifier::type_invariant]
    spec fn inv(&self) -> bool {
        self.manager.wf()
    }

    /// Whether the event receiver has been handed out.
    pub closed spec fn receiver_taken(&self) -> bool {
        self.manager.receiver_taken()
    }

    /// An idle adapter with no records and no events.
    pub fn new() -> (r: Adapter)
        ensures
            r@.records == Seq::<PeripheralView>::empty(),
            r@.events == Seq::<CentralEvent>::empty(),
            !r@.scanning,
            !r.receiver_taken(),
            r@.wf(),
    {
        Adapter { manager: AdapterManager::new(), scanning: false }
    }

    pub fn is_scanning(&self) -> (r: bool)
        ensures
            r == self@.scanning,
    {
        self.scanning
    }

    /// Starts a scan. While one runs this succeeds and does nothing else;
    /// otherwise it asks the radio through `engage` and is scanning exactly when
    /// that succeeded, whose result it returns.
    pub fn start_scan<F: FnOnce() -> Result<(), Error>>(&mut self, engage: F) -> (r: Result<(), Error>)
        requires
            engage.requires(()),
        ensures
            old(self)@.scanning ==> r is Ok && final(self)@ == old(self)@,
            !old(self)@.scanning ==> engage.ensures((), r),
            final(self)@.scanning == (old(self)@.scanning || r is Ok),
            final(self)@.records == old(self)@.records,
            final(self)@.events == old(self)@.events,
            final(self).receiver_taken() == old(self).receiver_taken(),
            final(self)@.wf(),
    {
        proof {
            use_type_invariant(&*self);
        }
        if self.scanning {
            return Ok(());
        }
        let r = engage();
        if r.is_ok() {
            self.scanning = true;
        }
        r
    }

    /// Stops the scan. While idle this succeeds and does nothing else; otherwise
    /// it asks the radio through `disengage` and is idle exactly when that
    /// succeeded, whose result it returns. Once idle, callbacks change nothing.
    pub fn stop_scan<F: FnOnce() -> Result<(), Error>>(&mut self, disengage: F) -> (r: Result<(), Error>)
        requires
            disengage.requires(()),
        ensures
            !old(self)@.scanning ==> r is Ok && final(self)@ == old(self)@,
            old(self)@.scanning ==> disengage.ensures((), r),
            final(self)@.scanning == (old(self)@.scanning && r is Err),
            final(self)@.records == old(self)@.records,
            final(self)@.events == old(self)@.events,
            final(self).receiver_taken() == old(self).receiver_taken(),
            final(self)@.wf(),
    {
        proof {
            use_type_invariant(&*self);
        }
        if !self.scanning {
            return Ok(());
        }
        let r = disengage();
        if r.is_ok() {
            self.scanning = false;
        }
        r
    }

    /// The discovery callback: normalises the address, upserts the record built
    /// from the advertisement, then queues `DeviceDiscovered` or `DeviceUpdated`
    /// and returns it. A payload without a usable address, or a callback while
    /// idle, changes nothing and emits nothing.
    pub fn on_advertisement(&mut self, adv: &Advertisement) -> (r: Option<CentralEvent>)
        ensures
            final(self)@ == handle_spec(old(self)@, adv@),
            r == emitted_spec(old(self)@, adv@),
            r is Some ==> record_for(final(self)@.records, r->Some_0.address_spec()) == Some(
                record_of(r->Some_0.address_spec(), adv@),
            ),
            final(self).receiver_taken() == old(self).receiver_taken(),
            final(self)@.wf(),
    {
        proof {
            use_type_invariant(&*self);
        }
        if !self.scanning {
            return None;
        }
        match adv.address() {
            None => None,
            Some(a) => {
                let p = Peripheral::from_advertisement(a, adv);
                let mut m = AdapterManager::new();
                std::mem::swap(&mut m, &mut self.manager);
                proof {
                    lemma_upsert_keeps(m.records(), p@);
                }
                let e = match m.upsert(p) {
                    Upsert::Inserted => CentralEvent::DeviceDiscovered(a),
                    Upsert::Replaced => CentralEvent::DeviceUpdated(a),
                };
                m.emit(e);
                std::mem::swap(&mut m, &mut self.manager);
                Some(e)
            },
        }
    }

    /// Copies of all records, in the order their addresses were first seen.
    pub fn peripherals(&self) -> (r: Vec<Peripheral>)
        ensures
            r@.map_values(|p: Peripheral| p@) == self@.records,
    {
        self.manager.peripherals()
    }

    /// A copy of the record for `a`, if there is one.
    pub fn peripheral(&self, a: BDAddr) -> (r: Option<Peripheral>)
        ensures
            match r {
                Some(p) => record_for(self@.records, a) == Some(p@),
                None => record_for(self@.records, a) is None,
            },
    {
        self.manager.peripheral(&a)
    }

    /// The single event receiver: the first call gets it, later calls get `None`.
    pub fn event_receiver(&mut self) -> (r: Option<EventReceiver>)
        ensures
            r is Some <==> !old(self).receiver_taken(),
            final(self).receiver_taken(),
            final(self)@ == old(self)@,
    {
        proof {
            use_type_invariant(&*self);
        }
        let mut m = AdapterManager::new();
        std::mem::swap(&mut m, &mut self.manager);
        let r = m.event_receiver();
        std::mem::swap(&mut m, &mut self.manager);
        r
    }

    /// Takes the oldest pending event, if any.
    pub fn next_event(&mut self, rx: &EventReceiver) -> (r: Option<CentralEvent>)
        ensures
            final(self)@.records == old(self)@.records,
            final(self)@.scanning == old(self)@.scanning,
            final(self).receiver_taken() == old(self).receiver_taken(),
            old(self)@.events.len() == 0 ==> r is None && final(self)@.events == old(self)@.events,
            old(self)@.events.len() > 0 ==> r == Some(old(self)@.events[0])
                && final(self)@.events == old(self)@.events.drop_first(),
            final(self)@.wf(),
    {
        proof {
            use_type_invariant(&*self);
        }
        let mut m = AdapterManager::new();
        std::mem::swap(&mut m, &mut self.manager);
        let r = m.next_event(rx);
        std::mem::swap(&mut m, &mut self.manager);
        r
    }

    /// Accepted for the central's interface; this radio binding has no control
    /// for active scanning, so it changes nothing.
    pub fn active(&self, enabled: bool) {
    }

    /// Accepted for the central's interface; this radio binding has no control
    /// for duplicate filtering, so it changes nothing.
    pub fn filter_duplicates(&self, enabled: bool) {
    }
}

} // verus!
