//! BN254 G2 points: 128 bytes big-endian in EIP-197 order `x1 || x0 || y1 || y0`.
use vstd::prelude::*;
use crate::g1::bytes_eq;

verus! {

/// A G2 point in EIP-197 big-endian order.
#[derive(Clone, Copy, Debug)]
pub struct G2(pub [u8; 128]);

/// The generator of G2 in EIP-197 big-endian order.
pub const G2_GENERATOR: [u8; 128] = [
            0x19, 0x8e, 0x93, 0x93, 0x92, 0x0d, 0x48, 0x3a, 0x72, 0x60, 0xbf, 0xb7, 0x31, 0xfb,
            0x5d, 0x25, 0xf1, 0xaa, 0x49, 0x33, 0x35, 0xa9, 0xe7, 0x12, 0x97, 0xe4, 0x85, 0xb7,
            0xae, 0xf3, 0x12, 0xc2, 0x18, 0x00, 0xde, 0xef, 0x12, 0x1f, 0x1e, 0x76, 0x42, 0x6a,
            0x00, 0x66, 0x5e, 0x5c, 0x44, 0x79, 0x67, 0x43, 0x22, 0xd4, 0xf7, 0x5e, 0xda, 0xdd,
            0x46, 0xde, 0xbd, 0x5c, 0xd9, 0x92, 0xf6, 0xed, 0x09, 0x06, 0x89, 0xd0, 0x58, 0x5f,
            0xf0, 0x75, 0xec, 0x9e, 0x99, 0xad, 0x69, 0x0c, 0x33, 0x95, 0xbc, 0x4b, 0x31, 0x33,
            0x70, 0xb3, 0x8e, 0xf3, 0x55, 0xac, 0xda, 0xdc, 0xd1, 0x22, 0x97, 0x5b, 0x12, 0xc8,
            0x5e, 0xa5, 0xdb, 0x8c, 0x6d, 0xeb, 0x4a, 0xab, 0x71, 0x80, 0x8d, 0xcb, 0x40, 0x8f,
            0xe3, 0xd1, 0xe7, 0x69, 0x0c, 0x43, 0xd3, 0x7b, 0x4c, 0xe6, 0xcc, 0x01, 0x66, 0xfa,
            0x7d, 0xaa,
];

impl G2 {
    /// The generator of G2.
    pub fn generator() -> (res: G2)
        ensures
            res.0 == G2_GENERATOR,
    {
        G2(G2_GENERATOR)
    }
}

impl PartialEq for G2 {
    fn eq(&self, other: &G2) -> (res: bool) {
        bytes_eq(&self.0, &other.0)
    }
}

impl vstd::std_specs::cmp::PartialEqSpecImpl for G2 {
    open spec fn obeys_eq_spec() -> bool {
        true
    }

    open spec fn eq_spec(&self, other: &G2) -> bool {
        self.0@ == other.0@
    }
}

impl Eq for G2 {
}

} // verus!
