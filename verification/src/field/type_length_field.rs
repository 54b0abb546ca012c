//! The 4-byte wire unit of every template: a field-type identifier followed
//! by the declared byte length of that field.

use crate::error::{NetFlowError, ParseResult};
use crate::util::{be_bytes, be_val, lemma_be_bytes_len, lemma_be_val_be_bytes,
    lemma_be_val_bound, pow256, take_u16, u16_to_bytes};
use vstd::prelude::*;

verus! {

/// One (type identifier, declared byte length) pair: the atom of a template.
#[derive(Debug, Clone, Copy, PartialEq, Eq, Structural)]
pub struct TypeLengthField {
    pub type_id: u16,
    pub length: u16,
}

impl TypeLengthField {
    /// The 4-byte wire form: both fields big-endian.
    pub open spec fn spec_to_bytes(self) -> Seq<u8> {
        be_bytes(self.type_id as nat, 2) + be_bytes(self.length as nat, 2)
    }

    /// The field described by the first 4 bytes of `s`.
    pub open spec fn spec_parse(s: Seq<u8>) -> TypeLengthField
        recommends
            s.len() >= 4,
    {
        TypeLengthField {
            type_id: be_val(s.subrange(0, 2)) as u16,
            length: be_val(s.subrange(2, 4)) as u16,
        }
    }

    /// `count` fields parsed back to back, with the unconsumed remainder;
    /// fails when fewer than `4 * count` bytes are available.
    pub open spec fn spec_parse_many(count: nat, s: Seq<u8>) -> Result<
        (Seq<TypeLengthField>, Seq<u8>),
        NetFlowError,
    >
        decreases count,
    {
        if count == 0 {
            Ok((Seq::empty(), s))
        } else if s.len() < 4 {
            Err(NetFlowError::UnexpectedIncomplete)
        } else {
            match Self::spec_parse_many((count - 1) as nat, s.skip(4)) {
                Ok((v, rest)) => Ok((seq![Self::spec_parse(s)] + v, rest)),
                Err(e) => Err(e),
            }
        }
    }

    /// The concatenated wire form of a sequence of fields.
    pub open spec fn spec_encode_many(ts: Seq<TypeLengthField>) -> Seq<u8>
        decreases ts.len(),
    {
        if ts.len() == 0 {
            Seq::empty()
        } else {
            ts.first().spec_to_bytes() + Self::spec_encode_many(ts.drop_first())
        }
    }

    pub fn new(type_id: u16, length: u16) -> (r: TypeLengthField)
        ensures
            r == (TypeLengthField { type_id, length }),
    {
        TypeLengthField { type_id, length }
    }

    /// Parses `count` fields from the head of `data`.  Decoding `n` fields
    /// consumes exactly `4 * n` bytes and yields a sequence of length `n`;
    /// it fails, with `UnexpectedIncomplete`, exactly when fewer bytes remain.
    pub fn parse_bytes(count: usize, data: &[u8]) -> (r: ParseResult<Vec<TypeLengthField>>)
        ensures
            match r {
                Ok((rest, v)) => Self::spec_parse_many(count as nat, data@) == Ok::<
                    _,
                    NetFlowError,
                >((v@, rest@)),
                Err(e) => Self::spec_parse_many(count as nat, data@) == Err::<
                    (Seq<TypeLengthField>, Seq<u8>),
                    _,
                >(e),
            },
        decreases count,
    {
        if count == 0 {
            let v: Vec<TypeLengthField> = Vec::new();
            assert(v@ =~= Seq::<TypeLengthField>::empty());
            Ok((data, v))
        } else {
            match take_u16(data) {
                Err(e) => Err(e),
                Ok((r1, type_id)) => match take_u16(r1) {
                    Err(e) => {
                        proof {
                            if data@.len() >= 4 {
                                assert(r1@.len() >= 2);
                            }
                        }
                        Err(e)
                    },
                    Ok((r2, length)) => {
                        let field = TypeLengthField { type_id, length };
                        proof {
                            lemma_be_val_bound(data@.subrange(0, 2));
                            lemma_be_val_bound(data@.subrange(2, 4));
                            assert(pow256(2) == 0x10000) by {
                                reveal_with_fuel(pow256, 3);
                            }
                            assert(r1@.subrange(0, 2) =~= data@.subrange(2, 4));
                            assert(r2@ =~= data@.skip(4));
                            assert(field == Self::spec_parse(data@));
                        }
                        match Self::parse_bytes(count - 1, r2) {
                            Err(e) => Err(e),
                            Ok((rest, tail)) => {
                                let ghost tail0 = tail@;
                                let mut out: Vec<TypeLengthField> = Vec::new();
                                out.push(field);
                                let mut tail = tail;
                                out.append(&mut tail);
                                proof {
                                    assert(out@ =~= seq![Self::spec_parse(data@)] + tail0);
                                }
                                Ok((rest, out))
                            },
                        }
                    },
                },
            }
        }
    }

    /// The 4-byte wire form of this field.
    pub fn to_bytes(&self) -> (r: Vec<u8>)
        ensures
            r@ == self.spec_to_bytes(),
            r@.len() == 4,
    {
        let mut bytes = u16_to_bytes(self.type_id);
        let mut tail = u16_to_bytes(self.length);
        bytes.append(&mut tail);
        proof {
            assert(bytes@ =~= self.spec_to_bytes());
        }
        bytes
    }

    /// Re-reading an encoded field, with any bytes following it, yields the
    /// field itself.
    pub proof fn lemma_round_trip(t: TypeLengthField, tail: Seq<u8>)
        ensures
            t.spec_to_bytes().len() == 4,
            Self::spec_parse(t.spec_to_bytes() + tail) == t,
    {
        lemma_be_bytes_len(t.type_id as nat, 2);
        lemma_be_bytes_len(t.length as nat, 2);
        assert(pow256(2) == 0x10000) by {
            reveal_with_fuel(pow256, 3);
        }
        lemma_be_val_be_bytes(t.type_id as nat, 2);
        lemma_be_val_be_bytes(t.length as nat, 2);
        let s = t.spec_to_bytes() + tail;
        assert(s.subrange(0, 2) =~= be_bytes(t.type_id as nat, 2));
        assert(s.subrange(2, 4) =~= be_bytes(t.length as nat, 2));
    }

    /// Appending one field appends its 4 bytes.
    pub proof fn lemma_encode_many_push(ts: Seq<TypeLengthField>, t: TypeLengthField)
        ensures
            Self::spec_encode_many(ts.push(t)) == Self::spec_encode_many(ts) + t.spec_to_bytes(),
        decreases ts.len(),
    {
        if ts.len() == 0 {
            assert(ts.push(t).drop_first() =~= Seq::<TypeLengthField>::empty());
            assert(ts.push(t).first() == t);
            assert(Self::spec_encode_many(Seq::<TypeLengthField>::empty()) =~= Seq::<u8>::empty());
            assert(Self::spec_encode_many(ts.push(t)) =~= Self::spec_encode_many(ts)
                + t.spec_to_bytes());
        } else {
            Self::lemma_encode_many_push(ts.drop_first(), t);
            assert(ts.push(t).drop_first() =~= ts.drop_first().push(t));
            assert(ts.push(t).first() == ts.first());
            assert(Self::spec_encode_many(ts.push(t)) =~= Self::spec_encode_many(ts)
                + t.spec_to_bytes());
        }
    }

    /// Encoding then parsing a field list, with any trailing bytes, yields
    /// the list and the trailing bytes: `4 * n` bytes round-trip exactly.
    pub proof fn lemma_parse_many_round_trip(ts: Seq<TypeLengthField>, tail: Seq<u8>)
        ensures
            Self::spec_encode_many(ts).len() == 4 * ts.len(),
            Self::spec_parse_many(ts.len(), Self::spec_encode_many(ts) + tail) == Ok::<
                _,
                NetFlowError,
            >((ts, tail)),
        decreases ts.len(),
    {
        if ts.len() == 0 {
            assert(Self::spec_encode_many(ts) + tail =~= tail);
            assert(ts =~= Seq::<TypeLengthField>::empty());
        } else {
            let first = ts.first();
            let rest = ts.drop_first();
            Self::lemma_round_trip(first, Self::spec_encode_many(rest) + tail);
            Self::lemma_parse_many_round_trip(rest, tail);
            let s = Self::spec_encode_many(ts) + tail;
            assert(s =~= first.spec_to_bytes() + (Self::spec_encode_many(rest) + tail));
            assert(s.skip(4) =~= Self::spec_encode_many(rest) + tail);
            assert(Self::spec_parse(s) == Self::spec_parse(
                first.spec_to_bytes() + (Self::spec_encode_many(rest) + tail),
            )) by {
                assert(s.subrange(0, 2) =~= (first.spec_to_bytes() + (Self::spec_encode_many(rest)
                    + tail)).subrange(0, 2));
                assert(s.subrange(2, 4) =~= (first.spec_to_bytes() + (Self::spec_encode_many(rest)
                    + tail)).subrange(2, 4));
            }
            assert(seq![first] + rest =~= ts);
        }
    }

    /// Parsing `n` fields succeeds exactly when `4 * n` bytes remain, and
    /// then consumes exactly `4 * n` bytes, yielding `n` fields, each read
    /// from its own 4-byte slot.
    pub proof fn lemma_parse_many_consumes(count: nat, s: Seq<u8>)
        ensures
            Self::spec_parse_many(count, s) is Ok <==> s.len() >= 4 * count,
            Self::spec_parse_many(count, s) matches Ok((v, rest)) ==> v.len() == count && rest
                =~= s.skip(4 * count as int) && (forall|i: int|
                0 <= i < count ==> v[i] == Self::spec_parse(s.skip(4 * i))),
        decreases count,
    {
        if count > 0 && s.len() >= 4 {
            Self::lemma_parse_many_consumes((count - 1) as nat, s.skip(4));
            if s.len() >= 4 * count {
                let (v0, rest0) = Self::spec_parse_many((count - 1) as nat, s.skip(4))->Ok_0;
                assert(s.skip(4).skip(4 * (count - 1)) =~= s.skip(4 * count as int));
                let v = seq![Self::spec_parse(s)] + v0;
                assert forall|i: int| 0 <= i < count implies v[i] == Self::spec_parse(
                    s.skip(4 * i),
                ) by {
                    if i == 0 {
                        assert(s.skip(0) =~= s);
                    } else {
                        assert(v[i] == v0[i - 1]);
                        assert(s.skip(4).skip(4 * (i - 1)) =~= s.skip(4 * i));
                    }
                }
            }
        }
    }
}

} // verus!
