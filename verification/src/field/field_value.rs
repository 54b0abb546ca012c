//! The typed field-value codec: classifies a field-type identifier into a
//! value category and converts raw bytes to and from a typed value for that
//! category.

use super::mac_addr::MacAddr;
use crate::error::NetFlowError;
use crate::util::{be_bytes, be_val, lemma_be_bytes_of_be_val, lemma_be_bytes_pad,
    lemma_be_bytes_zero, lemma_be_val_bound, lemma_pow256_increases, pow256, read_be, write_be};
use vstd::prelude::*;
use vstd::slice::{slice_index_get, slice_subrange, slice_to_vec};
use vstd::string::StrSliceExecFns;
use vstd::utf8::{decode_utf8, encode_utf8, encode_utf8_decode_utf8, valid_utf8};

verus! {

/// The value category of a field-type identifier: which shape of value its
/// bytes decode into.
#[derive(Debug, Clone, Copy, PartialEq, Eq, Structural)]
pub enum FieldCategory {
    /// An unsigned integer of the declared width.
    Numeric,
    /// An opaque byte array, kept as-is.
    OpaqueBytes,
    /// A 4-byte IPv4 address.
    Ipv4,
    /// A 16-byte IPv6 address.
    Ipv6,
    /// A 6-byte MAC address.
    Mac,
    /// A UTF-8 string.
    Text,
    /// Bit flags, decoded like a numeric field.
    Flags,
}

/// Identifiers whose value is an unsigned integer.
pub open spec fn is_numeric_id(t: u16) -> bool {
    (1 <= t && t <= 7) || t == 10 || t == 13 || t == 14 || t == 16 || t == 17 || (19 <= t && t
        <= 26) || (29 <= t && t <= 43) || (46 <= t && t <= 55) || (58 <= t && t <= 61) || (64 <= t
        && t <= 79) || (85 <= t && t <= 89) || (91 <= t && t <= 94) || t == 96 || (98 <= t && t
        <= 100) || (102 <= t && t <= 104)
}

/// Identifiers whose value is an opaque byte array.
pub open spec fn is_bytes_id(t: u16) -> bool {
    t == 90
}

/// Identifiers whose value is an IPv4 address.
pub open spec fn is_ipv4_id(t: u16) -> bool {
    t == 8 || t == 12 || t == 15 || t == 18 || t == 44 || t == 45
}

/// Identifiers whose value is an IPv6 address.
pub open spec fn is_ipv6_id(t: u16) -> bool {
    t == 27 || t == 28 || t == 62 || t == 63
}

/// Identifiers whose value is a MAC address.
pub open spec fn is_mac_id(t: u16) -> bool {
    t == 56 || t == 57 || t == 80 || t == 81
}

/// Identifiers whose value is a UTF-8 string.
pub open spec fn is_string_id(t: u16) -> bool {
    t == 82 || t == 83 || t == 84
}

/// Identifiers whose value is a set of bit flags.
pub open spec fn is_bits_id(t: u16) -> bool {
    t == 95
}

/// The category of any type identifier.  Identifiers absent from every
/// classification set fall back to opaque bytes.
pub open spec fn spec_classify(t: u16) -> FieldCategory {
    if is_numeric_id(t) {
        FieldCategory::Numeric
    } else if is_bytes_id(t) {
        FieldCategory::OpaqueBytes
    } else if is_ipv4_id(t) {
        FieldCategory::Ipv4
    } else if is_ipv6_id(t) {
        FieldCategory::Ipv6
    } else if is_mac_id(t) {
        FieldCategory::Mac
    } else if is_string_id(t) {
        FieldCategory::Text
    } else if is_bits_id(t) {
        FieldCategory::Flags
    } else {
        FieldCategory::OpaqueBytes
    }
}

/// Classifies a type identifier.  Defined for every `u16`: unknown
/// identifiers map to `OpaqueBytes`.
pub fn classify(t: u16) -> (r: FieldCategory)
    ensures
        r == spec_classify(t),
{
    if (1 <= t && t <= 7) || t == 10 || t == 13 || t == 14 || t == 16 || t == 17 || (19 <= t && t
        <= 26) || (29 <= t && t <= 43) || (46 <= t && t <= 55) || (58 <= t && t <= 61) || (64 <= t
        && t <= 79) || (85 <= t && t <= 89) || (91 <= t && t <= 94) || t == 96 || (98 <= t && t
        <= 100) || (102 <= t && t <= 104) {
        FieldCategory::Numeric
    } else if t == 90 {
        FieldCategory::OpaqueBytes
    } else if t == 8 || t == 12 || t == 15 || t == 18 || t == 44 || t == 45 {
        FieldCategory::Ipv4
    } else if t == 27 || t == 28 || t == 62 || t == 63 {
        FieldCategory::Ipv6
    } else if t == 56 || t == 57 || t == 80 || t == 81 {
        FieldCategory::Mac
    } else if t == 82 || t == 83 || t == 84 {
        FieldCategory::Text
    } else if t == 95 {
        FieldCategory::Flags
    } else {
        FieldCategory::OpaqueBytes
    }
}

/// An IPv4 address, held as its 32-bit value in host order.
#[derive(Debug, Clone, Copy, PartialEq, Eq, Structural)]
pub struct Ipv4Addr {
    pub bits: u32,
}

/// An IPv6 address, held as its 128-bit value in host order.
#[derive(Debug, Clone, Copy, PartialEq, Eq, Structural)]
pub struct Ipv6Addr {
    pub bits: u128,
}

/// An unsigned integer read from a field of declared width.  The variant
/// records the smallest fixed width that holds the declared width: widths
/// past 16 bytes keep the raw bytes.
#[derive(Debug, Clone)]
pub enum UInt {
    UInt8(u8),
    UInt16(u16),
    UInt32(u32),
    UInt64(u64),
    UInt128(u128),
    UIntFlex(Vec<u8>),
}

/// The mathematical model of a `UInt`.
pub enum UIntV {
    UInt8(u8),
    UInt16(u16),
    UInt32(u32),
    UInt64(u64),
    UInt128(u128),
    UIntFlex(Seq<u8>),
}

impl View for UInt {
    type V = UIntV;

    open spec fn view(&self) -> UIntV {
        match self {
            UInt::UInt8(n) => UIntV::UInt8(*n),
            UInt::UInt16(n) => UIntV::UInt16(*n),
            UInt::UInt32(n) => UIntV::UInt32(*n),
            UInt::UInt64(n) => UIntV::UInt64(*n),
            UInt::UInt128(n) => UIntV::UInt128(*n),
            UInt::UIntFlex(v) => UIntV::UIntFlex(v@),
        }
    }
}

impl UIntV {
    /// The numeric value carried, whatever the width.
    pub open spec fn val(self) -> nat {
        match self {
            UIntV::UInt8(n) => n as nat,
            UIntV::UInt16(n) => n as nat,
            UIntV::UInt32(n) => n as nat,
            UIntV::UInt64(n) => n as nat,
            UIntV::UInt128(n) => n as nat,
            UIntV::UIntFlex(s) => be_val(s),
        }
    }

    /// The encoding at a declared width: the value's big-endian bytes,
    /// left-truncated or left-padded with zeros to exactly `length` bytes.
    pub open spec fn spec_to_bytes(self, length: u16) -> Seq<u8> {
        be_bytes(self.val(), length as nat)
    }
}

/// The integer read from `s` as big-endian, in the width class of `s`'s
/// length: 1 byte, 2 bytes, up to 4, up to 8, up to 16, else kept raw.
pub open spec fn spec_uint_from_bytes(s: Seq<u8>) -> UIntV {
    if s.len() == 1 {
        UIntV::UInt8(s[0])
    } else if s.len() == 2 {
        UIntV::UInt16(be_val(s) as u16)
    } else if 2 < s.len() && s.len() <= 4 {
        UIntV::UInt32(be_val(s) as u32)
    } else if 4 < s.len() && s.len() <= 8 {
        UIntV::UInt64(be_val(s) as u64)
    } else if 8 < s.len() && s.len() <= 16 {
        UIntV::UInt128(be_val(s) as u128)
    } else {
        UIntV::UIntFlex(s)
    }
}

/// The value of a decoded integer is the big-endian value of its bytes.
pub proof fn lemma_uint_from_bytes_val(s: Seq<u8>)
    ensures
        spec_uint_from_bytes(s).val() == be_val(s),
{
    lemma_be_val_bound(s);
    assert(pow256(2) == 0x10000 && pow256(4) == 0x100000000 && pow256(8) == 0x10000000000000000
        && pow256(16) == 0x100000000000000000000000000000000) by {
        reveal_with_fuel(pow256, 17);
    }
    if s.len() == 0 {
        assert(s =~= Seq::<u8>::empty());
    } else if s.len() == 1 {
        assert(s.drop_last() =~= Seq::<u8>::empty());
        assert(be_val(Seq::<u8>::empty()) == 0);
        assert(be_val(s) == be_val(s.drop_last()) * 256 + s.last());
        assert(s.last() == s[0]);
    } else if s.len() == 2 {
    } else if s.len() <= 4 {
        lemma_pow256_increases(s.len(), 4);
    } else if s.len() <= 8 {
        lemma_pow256_increases(s.len(), 8);
    } else if s.len() <= 16 {
        lemma_pow256_increases(s.len(), 16);
    }
}

/// Re-encoding an integer at the very width it was decoded from
/// reproduces the original bytes exactly: a value read from a 3-byte field
/// and encoded with declared length 3 yields those 3 bytes, not 4.
pub proof fn lemma_uint_width_round_trip(raw: Seq<u8>, length: u16)
    requires
        raw.len() == length,
    ensures
        spec_uint_from_bytes(raw).spec_to_bytes(length) == raw,
{
    lemma_uint_from_bytes_val(raw);
    lemma_be_bytes_of_be_val(raw, raw.len());
    assert(raw.skip(0) =~= raw);
}

impl UInt {
    /// Reads an unsigned integer from raw field bytes, big-endian, choosing
    /// the width class from the byte count.
    pub fn from_bytes(bytes: &[u8]) -> (r: UInt)
        ensures
            r@ == spec_uint_from_bytes(bytes@),
    {
        let len = bytes.len();
        proof {
            lemma_be_val_bound(bytes@);
            if len <= 16 {
                lemma_pow256_increases(bytes@.len(), 16);
            }
            assert(pow256(2) == 0x10000 && pow256(4) == 0x100000000 && pow256(8)
                == 0x10000000000000000 && pow256(16) == 0x100000000000000000000000000000000) by {
                reveal_with_fuel(pow256, 17);
            }
            assert(bytes@.subrange(0, len as int) =~= bytes@);
        }
        if len == 1 {
            UInt::UInt8(*slice_index_get(bytes, 0))
        } else if len == 2 {
            UInt::UInt16(read_be(bytes, 2) as u16)
        } else if len > 2 && len <= 4 {
            UInt::UInt32(read_be(bytes, len) as u32)
        } else if len > 4 && len <= 8 {
            UInt::UInt64(read_be(bytes, len) as u64)
        } else if len > 8 && len <= 16 {
            UInt::UInt128(read_be(bytes, len))
        } else {
            UInt::UIntFlex(slice_to_vec(bytes))
        }
    }

    /// Serializes at the declared width: natural big-endian bytes, with
    /// leading bytes dropped or zero bytes prepended to reach `length`.
    pub fn to_bytes(&self, length: u16) -> (r: Vec<u8>)
        ensures
            r@ == self@.spec_to_bytes(length),
            r@.len() == length,
    {
        let l = length as usize;
        match self {
            UInt::UInt8(n) => write_be(*n as u128, l),
            UInt::UInt16(n) => write_be(*n as u128, l),
            UInt::UInt32(n) => write_be(*n as u128, l),
            UInt::UInt64(n) => write_be(*n as u128, l),
            UInt::UInt128(n) => write_be(*n, l),
            UInt::UIntFlex(arr) => {
                if arr.len() >= l {
                    let s = slice_subrange(arr.as_slice(), arr.len() - l, arr.len());
                    let out = slice_to_vec(s);
                    proof {
                        lemma_be_bytes_of_be_val(arr@, l as nat);
                        assert(arr@.subrange((arr@.len() - l) as int, arr@.len() as int)
                            =~= arr@.skip((arr@.len() - l) as int));
                    }
                    out
                } else {
                    let mut out = write_be(0, l - arr.len());
                    let mut tail = slice_to_vec(arr.as_slice());
                    out.append(&mut tail);
                    proof {
                        lemma_be_bytes_pad(arr@, l as nat);
                        lemma_be_bytes_zero((l - arr@.len()) as nat);
                        assert(out@ =~= be_bytes(be_val(arr@), l as nat));
                    }
                    out
                }
            },
        }
    }
}

/// One decoded field value, tagged by its category.
#[derive(Debug, Clone)]
pub enum FieldValue {
    NumField(UInt),
    ByteArray(Vec<u8>),
    Ipv4Addr(Ipv4Addr),
    Ipv6Addr(Ipv6Addr),
    MacAddr(MacAddr),
    String(String),
    Unknown(Vec<u8>),
}

/// The mathematical model of a `FieldValue`.
pub enum FieldValueV {
    NumField(UIntV),
    ByteArray(Seq<u8>),
    Ipv4Addr(u32),
    Ipv6Addr(u128),
    MacAddr(MacAddr),
    String(Seq<char>),
    Unknown(Seq<u8>),
}

impl View for FieldValue {
    type V = FieldValueV;

    open spec fn view(&self) -> FieldValueV {
        match self {
            FieldValue::NumField(u) => FieldValueV::NumField(u@),
            FieldValue::ByteArray(a) => FieldValueV::ByteArray(a@),
            FieldValue::Ipv4Addr(ip) => FieldValueV::Ipv4Addr(ip.bits),
            FieldValue::Ipv6Addr(ip) => FieldValueV::Ipv6Addr(ip.bits),
            FieldValue::MacAddr(m) => FieldValueV::MacAddr(*m),
            FieldValue::String(s) => FieldValueV::String(s@),
            FieldValue::Unknown(a) => FieldValueV::Unknown(a@),
        }
    }
}

/// The value decoded from `raw` for a field of type `type_id`: a pure
/// function of the classification.  Address and MAC categories demand their
/// exact width; the string category demands valid UTF-8.
pub open spec fn spec_field_value(type_id: u16, raw: Seq<u8>) -> Result<
    FieldValueV,
    NetFlowError,
> {
    match spec_classify(type_id) {
        FieldCategory::Numeric => Ok(FieldValueV::NumField(spec_uint_from_bytes(raw))),
        FieldCategory::Flags => Ok(FieldValueV::NumField(spec_uint_from_bytes(raw))),
        FieldCategory::OpaqueBytes => Ok(FieldValueV::ByteArray(raw)),
        FieldCategory::Ipv4 => if raw.len() == 4 {
            Ok(FieldValueV::Ipv4Addr(be_val(raw) as u32))
        } else {
            Err(NetFlowError::InvalidLength)
        },
        FieldCategory::Ipv6 => if raw.len() == 16 {
            Ok(FieldValueV::Ipv6Addr(be_val(raw) as u128))
        } else {
            Err(NetFlowError::InvalidLength)
        },
        FieldCategory::Mac => if raw.len() == 6 {
            Ok(FieldValueV::MacAddr(
                MacAddr::spec_new(raw[0], raw[1], raw[2], raw[3], raw[4], raw[5]),
            ))
        } else {
            Err(NetFlowError::InvalidLength)
        },
        FieldCategory::Text => if valid_utf8(raw) {
            Ok(FieldValueV::String(decode_utf8(raw)))
        } else {
            Err(NetFlowError::InvalidFieldValue)
        },
    }
}

/// The wire form of a value re-encoded at the declared width.  Numeric
/// values are truncated or zero-padded to `length`; the other categories
/// keep their natural byte form.
pub open spec fn spec_field_value_bytes(v: FieldValueV, length: u16) -> Seq<u8> {
    match v {
        FieldValueV::NumField(u) => u.spec_to_bytes(length),
        FieldValueV::ByteArray(a) => a,
        FieldValueV::Ipv4Addr(x) => be_bytes(x as nat, 4),
        FieldValueV::Ipv6Addr(x) => be_bytes(x as nat, 16),
        FieldValueV::MacAddr(m) => m.spec_octets(),
        FieldValueV::String(s) => encode_utf8(s),
        FieldValueV::Unknown(a) => a,
    }
}

/// Relies on `String::from_utf8`: it succeeds exactly when the bytes are
/// valid UTF-8, and the returned string then holds exactly those bytes.
#[verifier::external_body]
fn string_from_utf8(bytes: Vec<u8>) -> (r: Option<String>)
    ensures
        r is Some <==> valid_utf8(bytes@),
        r matches Some(s) ==> encode_utf8(s@) == bytes@,
{
    String::from_utf8(bytes).ok()
}

impl FieldValue {
    /// Decodes raw field bytes according to the type identifier's category.
    pub fn new(type_id: u16, value: &[u8]) -> (r: Result<FieldValue, NetFlowError>)
        ensures
            match r {
                Ok(v) => spec_field_value(type_id, value@) == Ok::<FieldValueV, NetFlowError>(v@),
                Err(e) => spec_field_value(type_id, value@) == Err::<FieldValueV, NetFlowError>(e),
            },
    {
        match classify(type_id) {
            FieldCategory::Numeric => Ok(FieldValue::NumField(UInt::from_bytes(value))),
            FieldCategory::Flags => Ok(FieldValue::NumField(UInt::from_bytes(value))),
            FieldCategory::OpaqueBytes => Ok(FieldValue::ByteArray(slice_to_vec(value))),
            FieldCategory::Ipv4 => {
                if value.len() == 4 {
                    let x = read_be(value, 4);
                    proof {
                        assert(value@.subrange(0, 4) =~= value@);
                        assert(pow256(4) == 0x100000000) by {
                            reveal_with_fuel(pow256, 5);
                        }
                    }
                    Ok(FieldValue::Ipv4Addr(Ipv4Addr { bits: x as u32 }))
                } else {
                    Err(NetFlowError::InvalidLength)
                }
            },
            FieldCategory::Ipv6 => {
                if value.len() == 16 {
                    let x = read_be(value, 16);
                    proof {
                        assert(value@.subrange(0, 16) =~= value@);
                    }
                    Ok(FieldValue::Ipv6Addr(Ipv6Addr { bits: x }))
                } else {
                    Err(NetFlowError::InvalidLength)
                }
            },
            FieldCategory::Mac => {
                if value.len() == 6 {
                    Ok(FieldValue::MacAddr(
                        MacAddr::new(
                            *slice_index_get(value, 0),
                            *slice_index_get(value, 1),
                            *slice_index_get(value, 2),
                            *slice_index_get(value, 3),
                            *slice_index_get(value, 4),
                            *slice_index_get(value, 5),
                        ),
                    ))
                } else {
                    Err(NetFlowError::InvalidLength)
                }
            },
            FieldCategory::Text => {
                match string_from_utf8(slice_to_vec(value)) {
                    Some(s) => {
                        proof {
                            encode_utf8_decode_utf8(s@);
                        }
                        Ok(FieldValue::String(s))
                    },
                    None => Err(NetFlowError::InvalidFieldValue),
                }
            },
        }
    }

    /// Serializes this value at the declared width.
    pub fn to_bytes(&self, length: u16) -> (r: Vec<u8>)
        ensures
            r@ == spec_field_value_bytes(self@, length),
    {
        match self {
            FieldValue::NumField(uint) => uint.to_bytes(length),
            FieldValue::ByteArray(array) => slice_to_vec(array.as_slice()),
            FieldValue::Ipv4Addr(ipv4) => write_be(ipv4.bits as u128, 4),
            FieldValue::Ipv6Addr(ipv6) => write_be(ipv6.bits, 16),
            FieldValue::MacAddr(mac) => mac.octets_vec(),
            FieldValue::String(s) => s.as_str().as_bytes_vec(),
            FieldValue::Unknown(array) => slice_to_vec(array.as_slice()),
        }
    }
}

/// Decoding raw bytes and re-encoding at their own length reproduces them,
/// and re-decoding the encoding yields the same value: the field-value
/// codec round-trips on every input it accepts.
pub proof fn lemma_field_value_round_trip(type_id: u16, raw: Seq<u8>, length: u16)
    requires
        raw.len() == length,
    ensures
        spec_field_value(type_id, raw) matches Ok(v) ==> spec_field_value_bytes(v, length) == raw
            && spec_field_value(type_id, spec_field_value_bytes(v, length)) == Ok::<
            FieldValueV,
            NetFlowError,
        >(v),
{
    if spec_field_value(type_id, raw) is Ok {
        let v = spec_field_value(type_id, raw)->Ok_0;
        match spec_classify(type_id) {
            FieldCategory::Numeric | FieldCategory::Flags => {
                lemma_uint_from_bytes_val(raw);
                lemma_be_bytes_of_be_val(raw, raw.len());
                assert(raw.skip(0) =~= raw);
                assert(spec_field_value_bytes(v, length) == raw);
            },
            FieldCategory::Ipv4 => {
                lemma_be_val_bound(raw);
                assert(pow256(4) == 0x100000000) by {
                    reveal_with_fuel(pow256, 5);
                }
                lemma_be_bytes_of_be_val(raw, 4);
                assert(raw.skip(0) =~= raw);
                assert(spec_field_value_bytes(v, length) == raw);
            },
            FieldCategory::Ipv6 => {
                lemma_be_val_bound(raw);
                assert(pow256(16) == 0x100000000000000000000000000000000) by {
                    reveal_with_fuel(pow256, 17);
                }
                lemma_be_bytes_of_be_val(raw, 16);
                assert(raw.skip(0) =~= raw);
                assert(spec_field_value_bytes(v, length) == raw);
            },
            FieldCategory::Mac => {
                assert(spec_field_value_bytes(v, length) =~= raw);
            },
            FieldCategory::Text => {
                vstd::utf8::decode_utf8_encode_utf8(raw);
                assert(spec_field_value_bytes(v, length) == raw);
            },
            FieldCategory::OpaqueBytes => {},
        }
    }
}

} // verus!
