//! Byte-preserving holder for parts that are not modelled in depth (slide
//! masters, layouts, themes), so packages round-trip losslessly.

use vstd::prelude::*;
use crate::bytes::to_vec;

verus! {

/// A presentation part held as raw XML bytes.
#[derive(Debug, Clone, PartialEq)]
pub struct RawPart {
    pub xml: Vec<u8>,
}

impl RawPart {
    /// Hold a copy of `xml`.
    pub fn from_xml(xml: &[u8]) -> (r: RawPart)
        ensures
            r.xml@ == xml@,
    {
        RawPart { xml: to_vec(xml) }
    }

    /// The held bytes.
    pub fn to_xml(&self) -> (r: Vec<u8>)
        ensures
            r@ == self.xml@,
    {
        to_vec(self.xml.as_slice())
    }
}

/// A part read from bytes writes back exactly those bytes.
pub proof fn lemma_raw_part_round_trip(xml: Seq<u8>, part: RawPart, out: Seq<u8>)
    requires
        part.xml@ == xml,
        out == part.xml@,
    ensures
        out == xml,
{
}

} // verus!
