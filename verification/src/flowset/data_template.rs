//! The data-template flowset: flowset id 0, carrying one or more template
//! declarations back to back.

use super::data_template_item::{data_template_item_views, data_template_items_wf,
    lemma_data_template_items_facts, lemma_data_template_items_round_trip, lemma_items_bytes_len,
    spec_items_bytes, spec_items_size, spec_parse_data_template_items, DataTemplateItem,
    DataTemplateItemV};
use crate::error::{NetFlowError, ParseResult};
use crate::util::{be_bytes, be_val, lemma_be_bytes_len, lemma_be_val_be_bytes,
    lemma_be_val_bound, pow256, take_u16, u16_to_bytes};
use vstd::prelude::*;

verus! {

/// The flowset id that marks a data-template flowset.
pub const TEMPLATE_FLOWSET_ID: u16 = 0;

/// A decoded data-template flowset: one or more template items.
#[derive(Debug, Clone)]
pub struct DataTemplate {
    pub flowset_id: u16,
    pub length: u16,
    pub templates: Vec<DataTemplateItem>,
}

/// The mathematical model of a `DataTemplate`.
pub struct DataTemplateV {
    pub flowset_id: u16,
    pub length: u16,
    pub templates: Seq<DataTemplateItemV>,
}

impl View for DataTemplate {
    type V = DataTemplateV;

    open spec fn view(&self) -> DataTemplateV {
        DataTemplateV {
            flowset_id: self.flowset_id,
            length: self.length,
            templates: data_template_item_views(self.templates@),
        }
    }
}

impl DataTemplateV {
    /// The wire form: flowset id, a length recomputed from the items, then
    /// the items.  Data templates carry no padding.
    pub open spec fn spec_to_bytes(self) -> Seq<u8> {
        let body = spec_items_bytes(self.templates);
        be_bytes(self.flowset_id as nat, 2) + be_bytes((body.len() + 4) as nat, 2) + body
    }

    /// A canonical data template: flowset id 0, well-formed items, and a
    /// declared length that equals the encoded size and fits 16 bits.
    /// Every decoded data template satisfies this.
    pub open spec fn wf(self) -> bool {
        &&& self.flowset_id == TEMPLATE_FLOWSET_ID
        &&& data_template_items_wf(self.templates)
        &&& self.length == 4 + spec_items_size(self.templates)
        &&& self.length <= 0xFFFF
    }
}

/// A data-template flowset read from the head of `s`: flowset id, declared
/// length, then items filling `length - 4` bytes.  A flowset id other than
/// 0 is rejected with `InvalidLength` after the items are read, as is a
/// declared length under 4.
pub open spec fn spec_parse_data_template(s: Seq<u8>) -> Result<
    (DataTemplateV, Seq<u8>),
    NetFlowError,
> {
    if s.len() < 4 {
        Err(NetFlowError::UnexpectedIncomplete)
    } else {
        let flowset_id = be_val(s.subrange(0, 2)) as u16;
        let length = be_val(s.subrange(2, 4)) as u16;
        if length < 4 {
            Err(NetFlowError::InvalidLength)
        } else {
            match spec_parse_data_template_items((length - 4) as u16, s.skip(4)) {
                Ok((items, rest)) => if flowset_id == TEMPLATE_FLOWSET_ID {
                    Ok((DataTemplateV { flowset_id, length, templates: items }, rest))
                } else {
                    Err(NetFlowError::InvalidLength)
                },
                Err(e) => Err(e),
            }
        }
    }
}

impl DataTemplate {
    /// A data template over the given items; the length field is the wire
    /// length: the 4-byte flowset header plus the items' wire sizes.
    pub fn new(templates: Vec<DataTemplateItem>) -> (r: DataTemplate)
        requires
            4 + spec_items_bytes(data_template_item_views(templates@)).len() <= 0xFFFF,
        ensures
            r@ == (DataTemplateV {
                flowset_id: TEMPLATE_FLOWSET_ID,
                length: (4 + spec_items_bytes(data_template_item_views(templates@)).len()) as u16,
                templates: data_template_item_views(templates@),
            }),
    {
        let ghost views = data_template_item_views(templates@);
        let mut length: usize = 0;
        let mut i: usize = 0;
        proof {
            assert(views.take(0) =~= Seq::<DataTemplateItemV>::empty());
            lemma_items_bytes_prefix(views, 0);
        }
        while i < templates.len()
            invariant
                views == data_template_item_views(templates@),
                i <= views.len(),
                length == spec_items_bytes(views.take(i as int)).len(),
                spec_items_bytes(views).len() + 4 <= 0xFFFF,
            decreases views.len() - i,
        {
            proof {
                assert(views.take(i + 1) =~= views.take(i as int).push(views[i as int]));
                lemma_items_bytes_push(views.take(i as int), views[i as int]);
                lemma_items_bytes_prefix(views, i + 1);
            }
            length = length + templates[i].byte_length();
            i = i + 1;
        }
        proof {
            assert(views.take(views.len() as int) =~= views);
        }
        DataTemplate { flowset_id: TEMPLATE_FLOWSET_ID, length: (length + 4) as u16, templates }
    }

    /// Decodes a data-template flowset from the head of `data`.  The result
    /// is canonical: re-encoding it reproduces a well-formed wire image.
    pub fn from_bytes(data: &[u8]) -> (r: ParseResult<DataTemplate>)
        ensures
            match r {
                Ok((rest, dt)) => spec_parse_data_template(data@) == Ok::<_, NetFlowError>(
                    (dt@, rest@),
                ) && dt@.wf(),
                Err(e) => spec_parse_data_template(data@) == Err::<
                    (DataTemplateV, Seq<u8>),
                    _,
                >(e),
            },
    {
        match take_u16(data) {
            Err(e) => Err(e),
            Ok((r1, flowset_id)) => match take_u16(r1) {
                Err(e) => {
                    proof {
                        if data@.len() >= 4 {
                            assert(r1@.len() >= 2);
                        }
                    }
                    Err(e)
                },
                Ok((r2, flowset_length)) => {
                    proof {
                        lemma_be_val_bound(data@.subrange(0, 2));
                        lemma_be_val_bound(data@.subrange(2, 4));
                        assert(pow256(2) == 0x10000) by {
                            reveal_with_fuel(pow256, 3);
                        }
                        assert(r1@.subrange(0, 2) =~= data@.subrange(2, 4));
                        assert(r2@ =~= data@.skip(4));
                        lemma_data_template_items_facts((flowset_length - 4) as u16, data@.skip(4));
                    }
                    if flowset_length < 4 {
                        Err(NetFlowError::InvalidLength)
                    } else {
                        match DataTemplateItem::parse_bytes(flowset_length - 4, r2) {
                            Err(e) => Err(e),
                            Ok((rest, templates)) => {
                                if flowset_id == TEMPLATE_FLOWSET_ID {
                                    Ok((
                                        rest,
                                        DataTemplate {
                                            flowset_id: TEMPLATE_FLOWSET_ID,
                                            length: flowset_length,
                                            templates,
                                        },
                                    ))
                                } else {
                                    Err(NetFlowError::InvalidLength)
                                }
                            },
                        }
                    }
                },
            },
        }
    }

    /// The wire form: flowset id, recomputed length, then the items.
    pub fn to_bytes(&self) -> (r: Vec<u8>)
        requires
            4 + spec_items_bytes(self@.templates).len() <= 0xFFFF,
        ensures
            r@ == self@.spec_to_bytes(),
    {
        let mut bytes = u16_to_bytes(self.flowset_id);
        let ghost views = self@.templates;
        let mut body: Vec<u8> = Vec::new();
        let mut i: usize = 0;
        proof {
            assert(views.take(0) =~= Seq::<DataTemplateItemV>::empty());
            lemma_items_bytes_prefix(views, 0);
        }
        while i < self.templates.len()
            invariant
                views == self@.templates,
                i <= views.len(),
                body@ == spec_items_bytes(views.take(i as int)),
                spec_items_bytes(views).len() + 4 <= 0xFFFF,
            decreases views.len() - i,
        {
            let mut item_bytes = self.templates[i].to_bytes();
            body.append(&mut item_bytes);
            proof {
                assert(views.take(i + 1) =~= views.take(i as int).push(views[i as int]));
                lemma_items_bytes_push(views.take(i as int), views[i as int]);
                lemma_items_bytes_prefix(views, i + 1);
            }
            i = i + 1;
        }
        proof {
            assert(views.take(views.len() as int) =~= views);
        }
        let mut length_bytes = u16_to_bytes((body.len() + 4) as u16);
        bytes.append(&mut length_bytes);
        bytes.append(&mut body);
        proof {
            assert(bytes@ =~= self@.spec_to_bytes());
        }
        bytes
    }

    /// The number of bytes `to_bytes` yields.
    pub fn byte_length(&self) -> (r: usize)
        requires
            4 + spec_items_bytes(self@.templates).len() <= 0xFFFF,
        ensures
            r == self@.spec_to_bytes().len(),
    {
        self.to_bytes().len()
    }
}

/// A prefix of the item sequence encodes to a prefix of the bytes.
pub proof fn lemma_items_bytes_prefix(items: Seq<DataTemplateItemV>, k: int)
    requires
        0 <= k <= items.len(),
    ensures
        spec_items_bytes(items.take(k)).len() <= spec_items_bytes(items).len(),
    decreases k,
{
    if k == 0 {
        assert(items.take(0) =~= Seq::<DataTemplateItemV>::empty());
    } else {
        lemma_items_bytes_prefix(items.drop_first(), k - 1);
        assert(items.take(k).first() == items.first());
        assert(items.take(k).drop_first() =~= items.drop_first().take(k - 1));
    }
}

/// Appending one item appends its encoding.
pub proof fn lemma_items_bytes_push(items: Seq<DataTemplateItemV>, item: DataTemplateItemV)
    ensures
        spec_items_bytes(items.push(item)) == spec_items_bytes(items) + item.spec_to_bytes(),
    decreases items.len(),
{
    if items.len() == 0 {
        assert(items.push(item).drop_first() =~= Seq::<DataTemplateItemV>::empty());
        assert(items.push(item).first() == item);
        assert(spec_items_bytes(Seq::<DataTemplateItemV>::empty()) =~= Seq::<u8>::empty());
        assert(spec_items_bytes(items.push(item)) =~= spec_items_bytes(items)
            + item.spec_to_bytes());
    } else {
        lemma_items_bytes_push(items.drop_first(), item);
        assert(items.push(item).drop_first() =~= items.drop_first().push(item));
        assert(items.push(item).first() == items.first());
        assert(spec_items_bytes(items.push(item)) =~= spec_items_bytes(items)
            + item.spec_to_bytes());
    }
}

/// An encoded canonical data template, decoded with any trailing bytes,
/// yields the template back: encode is a right inverse of decode.
pub proof fn lemma_data_template_round_trip(v: DataTemplateV, tail: Seq<u8>)
    requires
        v.wf(),
    ensures
        spec_parse_data_template(v.spec_to_bytes() + tail) == Ok::<_, NetFlowError>((v, tail)),
{
    let body = spec_items_bytes(v.templates);
    lemma_items_bytes_len(v.templates);
    let s = v.spec_to_bytes() + tail;
    lemma_be_bytes_len(v.flowset_id as nat, 2);
    lemma_be_bytes_len((body.len() + 4) as nat, 2);
    assert(pow256(2) == 0x10000) by {
        reveal_with_fuel(pow256, 3);
    }
    lemma_be_val_be_bytes(v.flowset_id as nat, 2);
    lemma_be_val_be_bytes((body.len() + 4) as nat, 2);
    assert(s.subrange(0, 2) =~= be_bytes(v.flowset_id as nat, 2));
    assert(s.subrange(2, 4) =~= be_bytes((body.len() + 4) as nat, 2));
    lemma_data_template_items_round_trip(v.templates, tail);
    assert(s.skip(4) =~= body + tail);
}

} // verus!
