use vstd::prelude::*;

use crate::addr::{addr_spec, to_addr, BDAddr, MAX_ADDR_VALUE};

verus! {

/// What the radio stack hands over for one received advertisement.
#[derive(Clone, Debug)]
pub struct Advertisement {
    /// The sender's address as the radio stack reports it, if it could read one.
    pub bluetooth_address: Option<u64>,
    pub local_name: Option<String>,
    pub signal_strength: Option<i16>,
    pub data: Vec<u8>,
}

/// A discovered remote device: its address and the advertised properties last seen.
#[derive(Clone, Debug)]
pub struct Peripheral {
    address: BDAddr,
    local_name: Option<String>,
    signal_strength: Option<i16>,
    data: Vec<u8>,
}

/// Mathematical value of a peripheral record.
pub ghost struct PeripheralView {
    pub address: BDAddr,
    pub local_name: Option<String>,
    pub signal_strength: Option<i16>,
    pub data: Seq<u8>,
}

/// Mathematical value of an advertisement.
pub ghost struct AdvertisementView {
    pub bluetooth_address: Option<u64>,
    pub local_name: Option<String>,
    pub signal_strength: Option<i16>,
    pub data: Seq<u8>,
}

impl View for Advertisement {
    type V = AdvertisementView;

    open spec fn view(&self) -> AdvertisementView {
        AdvertisementView {
            bluetooth_address: self.bluetooth_address,
            local_name: self.local_name,
            signal_strength: self.signal_strength,
            data: self.data@,
        }
    }
}

impl View for Peripheral {
    type V = PeripheralView;

    closed spec fn view(&self) -> PeripheralView {
        PeripheralView {
            address: self.address,
            local_name: self.local_name,
            signal_strength: self.signal_strength,
            data: self.data@,
        }
    }
}

/// The address an advertisement comes from, when it carries a usable one.
pub open spec fn address_of(adv: AdvertisementView) -> Option<BDAddr> {
    match adv.bluetooth_address {
        Some(v) => if v <= MAX_ADDR_VALUE {
            Some(addr_spec(v))
        } else {
            None
        },
        None => None,
    }
}

/// The record that an advertisement from `address` describes.
pub open spec fn record_of(address: BDAddr, adv: AdvertisementView) -> PeripheralView {
    PeripheralView {
        address,
        local_name: adv.local_name,
        signal_strength: adv.signal_strength,
        data: adv.data,
    }
}

fn copy_bytes(v: &Vec<u8>) -> (r: Vec<u8>)
    ensures
        r@ == v@,
{
    let mut r: Vec<u8> = Vec::with_capacity(v.len());
    let mut i: usize = 0;
    while i < v.len()
        invariant
            i <= v.len(),
            r@ == v@.subrange(0, i as int),
        decreases v.len() - i,
    {
        r.push(v[i]);
        i += 1;
    }
    assert(r@ =~= v@);
    r
}

fn copy_name(n: &Option<String>) -> (r: Option<String>)
    ensures
        r == *n,
{
    match n {
        Some(s) => Some(s.clone()),
        None => None,
    }
}

impl Advertisement {
    /// Reads and normalises the sender's address; `None` when the payload has no
    /// usable one (missing, or wider than six bytes).
    pub fn address(&self) -> (r: Option<BDAddr>)
        ensures
            r == address_of(self@),
    {
        match self.bluetooth_address {
            Some(v) => if v <= MAX_ADDR_VALUE {
                Some(to_addr(v))
            } else {
                None
            },
            None => None,
        }
    }
}

impl Peripheral {
    /// The record for `address` built from the properties that `adv` carries.
    pub fn from_advertisement(address: BDAddr, adv: &Advertisement) -> (r: Peripheral)
        ensures
            r@ == record_of(address, adv@),
    {
        Peripheral {
            address,
            local_name: copy_name(&adv.local_name),
            signal_strength: adv.signal_strength,
            data: copy_bytes(&adv.data),
        }
    }

    /// A copy of this record that shares nothing with it.
    pub fn snapshot(&self) -> (r: Peripheral)
        ensures
            r@ == self@,
    {
        Peripheral {
            address: self.address,
            local_name: copy_name(&self.local_name),
            signal_strength: self.signal_strength,
            data: copy_bytes(&self.data),
        }
    }

    pub fn address(&self) -> (r: BDAddr)
        ensures
            r == self@.address,
    {
        self.address
    }

    pub fn local_name(&self) -> (r: Option<String>)
        ensures
            r == self@.local_name,
    {
        copy_name(&self.local_name)
    }

    pub fn signal_strength(&self) -> (r: Option<i16>)
        ensures
            r == self@.signal_strength,
    {
        self.signal_strength
    }

    pub fn data(&self) -> (r: Vec<u8>)
        ensures
            r@ == self@.data,
    {
        copy_bytes(&self.data)
    }
}

} // verus!
