//! The option-template flowset: flowset id 1, carrying one option-template
//! item, aligned to 4 bytes with two zero bytes when needed.

use super::option_template_item::{lemma_option_template_item_facts,
    lemma_option_template_item_round_trip, spec_parse_option_template_item, OptionTemplateItem,
    OptionTemplateItemV};
use crate::error::{NetFlowError, ParseResult};
use crate::field::TypeLengthField;
use vstd::arithmetic::div_mod::{lemma_fundamental_div_mod,
    lemma_fundamental_div_mod_converse_mod};
use crate::util::{be_bytes, be_val, lemma_be_bytes_len, lemma_be_val_be_bytes,
    lemma_be_val_bound, pow256, take_u16, u16_to_bytes};
use vstd::prelude::*;

verus! {

/// The flowset id that marks an option-template flowset.
pub const OPTION_FLOWSET_ID: u16 = 1;

/// A decoded option-template flowset: one option-template item, plus the
/// padding flag that controls re-encoding alignment.
#[derive(Debug, Clone)]
pub struct OptionTemplate {
    pub flowset_id: u16,
    pub length: u16,
    pub templates: OptionTemplateItem,
    pub is_padding: bool,
}

/// The mathematical model of an `OptionTemplate`.
pub struct OptionTemplateV {
    pub flowset_id: u16,
    pub length: u16,
    pub templates: OptionTemplateItemV,
    pub is_padding: bool,
}

impl View for OptionTemplate {
    type V = OptionTemplateV;

    open spec fn view(&self) -> OptionTemplateV {
        OptionTemplateV {
            flowset_id: self.flowset_id,
            length: self.length,
            templates: self.templates@,
            is_padding: self.is_padding,
        }
    }
}

impl OptionTemplateV {
    /// The two zero bytes emitted when the padding flag is set and the item
    /// leaves the flowset unaligned.
    pub open spec fn spec_pad(self) -> Seq<u8> {
        if self.is_padding && self.templates.spec_to_bytes().len() % 4 != 0 {
            seq![0u8, 0u8]
        } else {
            Seq::empty()
        }
    }

    /// The wire form: flowset id, a length recomputed from the item and the
    /// padding, then the item and the padding.
    pub open spec fn spec_to_bytes(self) -> Seq<u8> {
        let body = self.templates.spec_to_bytes() + self.spec_pad();
        be_bytes(self.flowset_id as nat, 2) + be_bytes((body.len() + 4) as nat, 2) + body
    }

    /// A canonical option template: flowset id 1, a well-formed item, the
    /// padding flag agreeing with the declared length, and a declared
    /// length that equals the encoded size and fits 16 bits.  Every decoded
    /// option template satisfies this.
    pub open spec fn wf(self) -> bool {
        &&& self.flowset_id == OPTION_FLOWSET_ID
        &&& self.templates.wf()
        &&& self.length == 4 + self.templates.spec_byte_size() + self.spec_pad().len()
        &&& self.length <= 0xFFFF
    }
}

/// An option-template flowset read from the head of `s`: flowset id 1, a
/// declared length, one option-template item filling `length - 4` bytes
/// with any excess consumed as padding.  The padding flag records whether
/// such excess was consumed.
pub open spec fn spec_parse_option_template(s: Seq<u8>) -> Result<
    (OptionTemplateV, Seq<u8>),
    NetFlowError,
> {
    if s.len() < 2 {
        Err(NetFlowError::UnexpectedIncomplete)
    } else {
        let flowset_id = be_val(s.subrange(0, 2)) as u16;
        if flowset_id == OPTION_FLOWSET_ID {
            if s.len() < 4 {
                Err(NetFlowError::UnexpectedIncomplete)
            } else {
                let length = be_val(s.subrange(2, 4)) as u16;
                if length < 4 {
                    Err(NetFlowError::InvalidLength)
                } else {
                    match spec_parse_option_template_item((length - 4) as u16, s.skip(4)) {
                        Ok((item, rest)) => {
                            let scope_len = be_val(s.subrange(6, 8));
                            let option_len = be_val(s.subrange(8, 10));
                            let is_padding = length - 10 - scope_len - option_len != 0;
                            Ok(
                                (
                                    OptionTemplateV {
                                        flowset_id,
                                        length,
                                        templates: item,
                                        is_padding,
                                    },
                                    rest,
                                ),
                            )
                        },
                        Err(e) => Err(e),
                    }
                }
            }
        } else {
            Err(NetFlowError::InvalidLength)
        }
    }
}

impl OptionTemplate {
    /// The 4 bytes of flowset id and length that precede the item.
    pub fn get_header_len() -> (r: u16)
        ensures
            r == 4,
    {
        4
    }

    /// An option template over the given item, with padding enabled; the
    /// length field is the wire length the encoder emits: the 4-byte
    /// flowset header, the item, and the two alignment bytes the enabled
    /// padding flag adds.  The result is canonical.
    pub fn new(template: OptionTemplateItem) -> (r: OptionTemplate)
        requires
            template@.wf(),
            4 + template@.spec_byte_size() + 2 <= 0xFFFF,
        ensures
            r@ == (OptionTemplateV {
                flowset_id: OPTION_FLOWSET_ID,
                length: (4 + template@.spec_byte_size() + 2) as u16,
                templates: template@,
                is_padding: true,
            }),
            r@.wf(),
    {
        let length = Self::get_header_len() + 6 + template.option_count * 4 + template.scope_count
            * 4 + 2;
        proof {
            // the item's wire size is 2 mod 4, so the flag emits two bytes
            let sc = template@.scope_count as int;
            let oc = template@.option_count as int;
            assert(6 + 4 * sc + 4 * oc == (sc + oc + 1) * 4 + 2) by (nonlinear_arith);
            lemma_fundamental_div_mod_converse_mod(6 + 4 * sc + 4 * oc, 4, sc + oc + 1, 2);
            lemma_option_item_bytes_len(template@);
        }
        OptionTemplate {
            flowset_id: OPTION_FLOWSET_ID,
            length,
            templates: template,
            is_padding: true,
        }
    }

    /// Decodes an option-template flowset from the head of `data`.  The
    /// result is canonical: re-encoding it reproduces the consumed bytes'
    /// shape, padding included.
    pub fn from_bytes(data: &[u8]) -> (r: ParseResult<OptionTemplate>)
        ensures
            match r {
                Ok((rest, ot)) => spec_parse_option_template(data@) == Ok::<_, NetFlowError>(
                    (ot@, rest@),
                ) && ot@.templates.wf(),
                Err(e) => spec_parse_option_template(data@) == Err::<
                    (OptionTemplateV, Seq<u8>),
                    _,
                >(e),
            },
    {
        match take_u16(data) {
            Err(e) => Err(e),
            Ok((r1, flowset_id)) => {
                proof {
                    lemma_be_val_bound(data@.subrange(0, 2));
                    assert(pow256(2) == 0x10000) by {
                        reveal_with_fuel(pow256, 3);
                    }
                }
                if flowset_id == OPTION_FLOWSET_ID {
                    match take_u16(r1) {
                        Err(e) => Err(e),
                        Ok((r2, length)) => {
                            proof {
                                lemma_be_val_bound(data@.subrange(2, 4));
                                assert(r1@.subrange(0, 2) =~= data@.subrange(2, 4));
                                assert(r2@ =~= data@.skip(4));
                            }
                            if length < 4 {
                                Err(NetFlowError::InvalidLength)
                            } else {
                                match OptionTemplateItem::from_bytes(length - 4, r2) {
                                    Err(e) => Err(e),
                                    Ok((rest, option_item)) => {
                                        proof {
                                            assert(r2@.subrange(2, 4) =~= data@.subrange(6, 8));
                                            assert(r2@.subrange(4, 6) =~= data@.subrange(8, 10));
                                            lemma_be_val_bound(data@.subrange(6, 8));
                                            lemma_be_val_bound(data@.subrange(8, 10));
                                        }
                                        let scope_len = read_u16_at(data, 6);
                                        let option_len = read_u16_at(data, 8);
                                        let is_padding = (length as u32) != 10 + (scope_len as u32)
                                            + (option_len as u32);
                                        Ok(
                                            (
                                                rest,
                                                OptionTemplate {
                                                    flowset_id,
                                                    length,
                                                    templates: option_item,
                                                    is_padding,
                                                },
                                            ),
                                        )
                                    },
                                }
                            }
                        },
                    }
                } else {
                    Err(NetFlowError::InvalidLength)
                }
            },
        }
    }

    /// The wire form: flowset id, recomputed length, the item, then two
    /// zero bytes when the padding flag asks for alignment.
    pub fn to_bytes(&self) -> (r: Vec<u8>)
        requires
            self@.templates.wf(),
            4 + self@.templates.spec_byte_size() + 2 <= 0xFFFF,
        ensures
            r@ == self@.spec_to_bytes(),
    {
        let mut bytes = u16_to_bytes(self.flowset_id);
        let mut option = self.templates.to_bytes();
        proof {
            lemma_option_item_bytes_len(self@.templates);
        }
        if self.is_padding && option.len() % 4 != 0 {
            option.push(0);
            option.push(0);
        }
        proof {
            assert(option@ =~= self@.templates.spec_to_bytes() + self@.spec_pad());
        }
        let length = Self::get_header_len() + option.len() as u16;
        let mut length_bytes = u16_to_bytes(length);
        bytes.append(&mut length_bytes);
        bytes.append(&mut option);
        proof {
            assert(bytes@ =~= self@.spec_to_bytes());
        }
        bytes
    }

    /// The number of bytes `to_bytes` yields.
    pub fn byte_length(&self) -> (r: usize)
        requires
            self@.templates.wf(),
            4 + self@.templates.spec_byte_size() + 2 <= 0xFFFF,
        ensures
            r == self@.spec_to_bytes().len(),
    {
        self.to_bytes().len()
    }

    /// Whether re-encoding will align the flowset with two zero bytes.
    pub fn is_padding(&self) -> (r: bool)
        ensures
            r == self@.is_padding,
    {
        self.is_padding
    }

    /// Sets the padding flag: the round-trip control knob.
    pub fn set_padding(&mut self, flag: bool)
        ensures
            final(self)@ == (OptionTemplateV {
                flowset_id: old(self)@.flowset_id,
                length: old(self)@.length,
                templates: old(self)@.templates,
                is_padding: flag,
            }),
    {
        self.is_padding = flag;
    }
}

/// Reads the big-endian `u16` at byte offset `off` of `data`.
fn read_u16_at(data: &[u8], off: usize) -> (r: u16)
    requires
        off + 2 <= data@.len(),
    ensures
        r == be_val(data@.subrange(off as int, off + 2)),
{
    proof {
        lemma_be_val_bound(data@.subrange(off as int, off + 2));
        assert(pow256(2) == 0x10000) by {
            reveal_with_fuel(pow256, 3);
        }
    }
    let rest = vstd::slice::slice_subrange(data, off, data.len());
    match take_u16(rest) {
        Ok((_, v)) => {
            proof {
                assert(rest@.subrange(0, 2) =~= data@.subrange(off as int, off + 2));
            }
            v
        },
        Err(_) => {
            proof {
                assert(false);
            }
            0
        },
    }
}

/// A well-formed item's encoding has its declared wire size.
pub proof fn lemma_option_item_bytes_len(v: OptionTemplateItemV)
    requires
        v.wf(),
    ensures
        v.spec_to_bytes().len() == v.spec_byte_size(),
{
    lemma_be_bytes_len(v.template_id as nat, 2);
    lemma_be_bytes_len(4 * (v.scope_count as nat), 2);
    lemma_be_bytes_len(4 * (v.option_count as nat), 2);
    lemma_encode_many_len(v.scopes);
    lemma_encode_many_len(v.options);
}

/// The encoded slots occupy 4 bytes each.
pub proof fn lemma_encode_many_len(ts: Seq<TypeLengthField>)
    ensures
        TypeLengthField::spec_encode_many(ts).len() == 4 * ts.len(),
{
    TypeLengthField::lemma_parse_many_round_trip(ts, Seq::empty());
}

/// A decoded option template is canonical whenever the wire is standard:
/// declared scope and option byte lengths that are multiples of 4, and a
/// trailing padding of exactly zero or two bytes.  On such inputs encoding
/// is a left inverse of decoding; other inputs are accepted but re-encode
/// to the standard shape instead.
pub proof fn lemma_option_template_parse_wf(s: Seq<u8>)
    ensures
        spec_parse_option_template(s) matches Ok((v, rest)) ==> {
            let scope_len = be_val(s.subrange(6, 8));
            let option_len = be_val(s.subrange(8, 10));
            let pad = v.length - 10 - scope_len - option_len;
            (scope_len % 4 == 0 && option_len % 4 == 0 && (pad == 0 || pad == 2)) ==> v.wf()
        },
{
    if spec_parse_option_template(s) is Ok {
        let (v, rest) = spec_parse_option_template(s)->Ok_0;
        let length = be_val(s.subrange(2, 4)) as u16;
        lemma_option_template_item_facts((length - 4) as u16, s.skip(4));
        let scope_len = be_val(s.subrange(6, 8));
        let option_len = be_val(s.subrange(8, 10));
        let pad = v.length - 10 - scope_len - option_len;
        assert(s.subrange(6, 8) =~= s.skip(4).subrange(2, 4));
        assert(s.subrange(8, 10) =~= s.skip(4).subrange(4, 6));
        if scope_len % 4 == 0 && option_len % 4 == 0 && (pad == 0 || pad == 2) {
            let sc = v.templates.scope_count as int;
            let oc = v.templates.option_count as int;
            assert(4 * sc == scope_len && 4 * oc == option_len) by {
                lemma_fundamental_div_mod(scope_len as int, 4);
                lemma_fundamental_div_mod(option_len as int, 4);
            }
            assert(v.templates.spec_byte_size() % 4 == 2) by {
                assert(6 + 4 * sc + 4 * oc == (sc + oc + 1) * 4 + 2) by (nonlinear_arith);
                lemma_fundamental_div_mod_converse_mod(6 + 4 * sc + 4 * oc, 4, sc + oc + 1, 2);
            }
            lemma_option_item_bytes_len(v.templates);
        }
    }
}

/// An encoded canonical option template, decoded with any trailing bytes,
/// yields the template back, padding flag included: encode is a right
/// inverse of decode.
pub proof fn lemma_option_template_round_trip(v: OptionTemplateV, tail: Seq<u8>)
    requires
        v.wf(),
    ensures
        spec_parse_option_template(v.spec_to_bytes() + tail) == Ok::<_, NetFlowError>((v, tail)),
{
    lemma_option_item_bytes_len(v.templates);
    let item_bytes = v.templates.spec_to_bytes();
    let pad = v.spec_pad();
    let body = item_bytes + pad;
    let s = v.spec_to_bytes() + tail;
    lemma_be_bytes_len(v.flowset_id as nat, 2);
    lemma_be_bytes_len((body.len() + 4) as nat, 2);
    assert(pow256(2) == 0x10000) by {
        reveal_with_fuel(pow256, 3);
    }
    lemma_be_val_be_bytes(v.flowset_id as nat, 2);
    lemma_be_val_be_bytes((body.len() + 4) as nat, 2);
    assert(s.subrange(0, 2) =~= be_bytes(v.flowset_id as nat, 2));
    assert(s.subrange(2, 4) =~= be_bytes((body.len() + 4) as nat, 2));
    assert(v.length == body.len() + 4);
    lemma_option_template_item_round_trip(v.templates, (v.length - 4) as u16, pad, tail);
    assert(s.skip(4) =~= v.templates.spec_to_bytes() + pad + tail);
    let scope_len_bytes = be_bytes(4 * (v.templates.scope_count as nat), 2);
    let option_len_bytes = be_bytes(4 * (v.templates.option_count as nat), 2);
    lemma_be_bytes_len(v.templates.template_id as nat, 2);
    lemma_be_val_be_bytes(4 * (v.templates.scope_count as nat), 2);
    lemma_be_val_be_bytes(4 * (v.templates.option_count as nat), 2);
    assert(item_bytes.len() % 4 == 2) by {
        let sc = v.templates.scope_count as int;
        let oc = v.templates.option_count as int;
        assert(6 + 4 * sc + 4 * oc == (sc + oc + 1) * 4 + 2) by (nonlinear_arith);
        lemma_fundamental_div_mod_converse_mod(6 + 4 * sc + 4 * oc, 4, sc + oc + 1, 2);
    }
    lemma_be_bytes_len(4 * (v.templates.scope_count as nat), 2);
    lemma_be_bytes_len(4 * (v.templates.option_count as nat), 2);
    assert(s.subrange(6, 8) =~= scope_len_bytes);
    assert(s.subrange(8, 10) =~= option_len_bytes);
    assert(v.length - 10 - 4 * (v.templates.scope_count as int) - 4 * (
    v.templates.option_count as int) == pad.len());
}

} // verus!
