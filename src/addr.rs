use vstd::prelude::*;

verus! {

/// Largest value that fits in a six-byte hardware address.
pub const MAX_ADDR_VALUE: u64 = 0xffff_ffff_ffff;

/// A six-byte hardware address, least significant byte first.
#[derive(Clone, Copy, Debug, Eq, Hash)]
pub struct BDAddr {
    pub address: [u8; 6],
}

/// The address whose bytes, least significant first, spell out `v`.
pub open spec fn addr_spec(v: u64) -> BDAddr {
    BDAddr {
        address: [
            (v % 0x100) as u8,
            ((v / 0x100) % 0x100) as u8,
            ((v / 0x1_0000) % 0x100) as u8,
            ((v / 0x100_0000) % 0x100) as u8,
            ((v / 0x1_0000_0000) % 0x100) as u8,
            ((v / 0x100_0000_0000) % 0x100) as u8,
        ],
    }
}

impl PartialEq for BDAddr {
    /// Exact byte equality.
    fn eq(&self, o: &BDAddr) -> (r: bool) {
        let a = &self.address;
        let b = &o.address;
        let r = a[0] == b[0] && a[1] == b[1] && a[2] == b[2] && a[3] == b[3] && a[4] == b[4]
            && a[5] == b[5];
        proof {
            if r {
                assert(self.address =~= o.address);
            }
        }
        r
    }
}

impl vstd::std_specs::cmp::PartialEqSpecImpl for BDAddr {
    open spec fn obeys_eq_spec() -> bool {
        true
    }

    open spec fn eq_spec(&self, o: &BDAddr) -> bool {
        self.address == o.address
    }
}

impl BDAddr {
    /// Builds an address from its six bytes, least significant first.
    pub fn new(address: [u8; 6]) -> (r: BDAddr)
        ensures
            r.address == address,
    {
        BDAddr { address }
    }
}

/// Splits the low 48 bits of `v` into an address, least significant byte first.
pub fn to_addr(v: u64) -> (r: BDAddr)
    requires
        v <= MAX_ADDR_VALUE,
    ensures
        r == addr_spec(v),
{
    let b0 = (v & 0xff) as u8;
    let b1 = ((v >> 8u64) & 0xff) as u8;
    let b2 = ((v >> 16u64) & 0xff) as u8;
    let b3 = ((v >> 24u64) & 0xff) as u8;
    let b4 = ((v >> 32u64) & 0xff) as u8;
    let b5 = ((v >> 40u64) & 0xff) as u8;
    assert(v & 0xff == v % 0x100) by (bit_vector);
    assert((v >> 8u64) & 0xff == (v / 0x100) % 0x100) by (bit_vector);
    assert((v >> 16u64) & 0xff == (v / 0x1_0000) % 0x100) by (bit_vector);
    assert((v >> 24u64) & 0xff == (v / 0x100_0000) % 0x100) by (bit_vector);
    assert((v >> 32u64) & 0xff == (v / 0x1_0000_0000) % 0x100) by (bit_vector);
    assert((v >> 40u64) & 0xff == (v / 0x100_0000_0000) % 0x100) by (bit_vector);
    BDAddr { address: [b0, b1, b2, b3, b4, b5] }
}

} // verus!
