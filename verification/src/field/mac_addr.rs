//! A MAC address: six octets, stored most significant first.

use vstd::prelude::*;

verus! {

/// A 48-bit hardware address, as carried by MAC-typed flow fields.
#[derive(Debug, Clone, Copy, PartialEq, Eq, Structural)]
pub struct MacAddr {
    pub a: u8,
    pub b: u8,
    pub c: u8,
    pub d: u8,
    pub e: u8,
    pub f: u8,
}

impl MacAddr {
    /// The six octets of the address, in wire order.
    pub open spec fn spec_octets(self) -> Seq<u8> {
        seq![self.a, self.b, self.c, self.d, self.e, self.f]
    }

    /// The address with the given octets, in wire order.
    pub open spec fn spec_new(b1: u8, b2: u8, b3: u8, b4: u8, b5: u8, b6: u8) -> MacAddr {
        MacAddr { a: b1, b: b2, c: b3, d: b4, e: b5, f: b6 }
    }

    pub fn new(b1: u8, b2: u8, b3: u8, b4: u8, b5: u8, b6: u8) -> (r: MacAddr)
        ensures
            r == MacAddr::spec_new(b1, b2, b3, b4, b5, b6),
    {
        MacAddr { a: b1, b: b2, c: b3, d: b4, e: b5, f: b6 }
    }

    pub fn octets(&self) -> (r: [u8; 6])
        ensures
            r@ == self.spec_octets(),
    {
        let r = [self.a, self.b, self.c, self.d, self.e, self.f];
        proof {
            assert(r@ =~= self.spec_octets());
        }
        r
    }

    /// The octets as an owned vector, in wire order.
    pub fn octets_vec(&self) -> (r: Vec<u8>)
        ensures
            r@ == self.spec_octets(),
    {
        let mut r: Vec<u8> = Vec::new();
        r.push(self.a);
        r.push(self.b);
        r.push(self.c);
        r.push(self.d);
        r.push(self.e);
        r.push(self.f);
        proof {
            assert(r@ =~= self.spec_octets());
        }
        r
    }
}

} // verus!
