//! Field-level building blocks: the 4-byte type/length unit, the typed field
//! value codec, and one decoded field instance.

mod field_value;
mod mac_addr;
mod type_length_field;

pub use field_value::{classify, is_bits_id, is_bytes_id, is_ipv4_id, is_ipv6_id, is_mac_id,
    is_numeric_id, is_string_id, spec_classify, spec_field_value, spec_field_value_bytes,
    spec_uint_from_bytes, lemma_field_value_round_trip, lemma_uint_from_bytes_val, lemma_uint_width_round_trip, FieldCategory,
    FieldValue, FieldValueV, Ipv4Addr, Ipv6Addr, UInt, UIntV};
pub use mac_addr::MacAddr;
pub use type_length_field::TypeLengthField;

use crate::error::{NetFlowError, ParseResult};
use vstd::prelude::*;
use vstd::slice::slice_subrange;

verus! {

/// One decoded field instance: its type identifier, the declared width that
/// is authoritative for re-encoding, and the decoded value.
#[derive(Debug, Clone)]
pub struct FlowField {
    pub type_id: u16,
    pub length: u16,
    pub value: FieldValue,
}

/// The mathematical model of a `FlowField`.
pub struct FlowFieldV {
    pub type_id: u16,
    pub length: u16,
    pub value: FieldValueV,
}

impl View for FlowField {
    type V = FlowFieldV;

    open spec fn view(&self) -> FlowFieldV {
        FlowFieldV { type_id: self.type_id, length: self.length, value: self.value@ }
    }
}

impl FlowFieldV {
    /// The wire form: the value serialized at the declared width.
    pub open spec fn spec_to_bytes(self) -> Seq<u8> {
        spec_field_value_bytes(self.value, self.length)
    }

    /// A canonical field: its encoding hits exactly the declared width, and
    /// decoding that encoding yields the value back.  Every field produced
    /// by decoding satisfies this.
    pub open spec fn wf(self) -> bool {
        &&& self.spec_to_bytes().len() == self.length
        &&& spec_field_value(self.type_id, self.spec_to_bytes()) == Ok::<
            FieldValueV,
            NetFlowError,
        >(self.value)
    }
}

/// The field of type `type_id` and declared width `length` read from the
/// head of `s`, with the remainder.  Fails with `InvalidLength` when fewer
/// than `length` bytes remain; otherwise fails exactly when the value codec
/// rejects the field's bytes.
pub open spec fn spec_flow_field(type_id: u16, length: u16, s: Seq<u8>) -> Result<
    (FlowFieldV, Seq<u8>),
    NetFlowError,
> {
    if s.len() < length {
        Err(NetFlowError::InvalidLength)
    } else {
        match spec_field_value(type_id, s.take(length as int)) {
            Ok(v) => Ok((FlowFieldV { type_id, length, value: v }, s.skip(length as int))),
            Err(e) => Err(e),
        }
    }
}

impl FlowField {
    pub fn new(type_id: u16, length: u16, value: FieldValue) -> (r: FlowField)
        ensures
            r@ == (FlowFieldV { type_id, length, value: value@ }),
    {
        FlowField { type_id, length, value }
    }

    /// Decodes one field of the declared width from the head of `bytes`.
    /// A decoded field is canonical: it re-encodes to the bytes it was read
    /// from.
    pub fn from_bytes(type_id: u16, length: u16, bytes: &[u8]) -> (r: ParseResult<FlowField>)
        ensures
            match r {
                Ok((rest, f)) => spec_flow_field(type_id, length, bytes@) == Ok::<
                    _,
                    NetFlowError,
                >((f@, rest@)) && f@.wf() && f@.type_id == type_id && f@.length == length,
                Err(e) => spec_flow_field(type_id, length, bytes@) == Err::<
                    (FlowFieldV, Seq<u8>),
                    _,
                >(e),
            },
    {
        if (length as usize) <= bytes.len() {
            let head = slice_subrange(bytes, 0, length as usize);
            proof {
                assert(bytes@.subrange(0, length as int) =~= bytes@.take(length as int));
                lemma_field_value_round_trip(type_id, bytes@.take(length as int), length);
            }
            match FieldValue::new(type_id, head) {
                Ok(v) => {
                    let rest = slice_subrange(bytes, length as usize, bytes.len());
                    proof {
                        assert(bytes@.subrange(length as int, bytes@.len() as int) =~= bytes@.skip(
                            length as int,
                        ));
                    }
                    Ok((rest, FlowField { type_id, length, value: v }))
                },
                Err(e) => Err(e),
            }
        } else {
            Err(NetFlowError::InvalidLength)
        }
    }

    /// The wire form: the value serialized at the declared width.
    pub fn to_bytes(&self) -> (r: Vec<u8>)
        ensures
            r@ == self@.spec_to_bytes(),
    {
        self.value.to_bytes(self.length)
    }

    /// The number of bytes `to_bytes` yields.
    pub fn byte_length(&self) -> (r: usize)
        ensures
            r == self@.spec_to_bytes().len(),
    {
        self.to_bytes().len()
    }
}

/// A canonical field followed by any tail decodes back to itself, leaving
/// the tail unconsumed.
pub proof fn lemma_flow_field_round_trip(f: FlowFieldV, tail: Seq<u8>)
    requires
        f.wf(),
    ensures
        spec_flow_field(f.type_id, f.length, f.spec_to_bytes() + tail) == Ok::<
            _,
            NetFlowError,
        >((f, tail)),
{
    let s = f.spec_to_bytes() + tail;
    assert(s.take(f.length as int) =~= f.spec_to_bytes());
    assert(s.skip(f.length as int) =~= tail);
}

} // verus!
