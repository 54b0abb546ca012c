//! One template declaration: an ordered list of type/length slots under a
//! template id, and the record codec it induces.

use super::record::{fields_wf, flow_field_views, record_views, Record, RecordV};
use super::template_parser::{lemma_record_fields_facts, lemma_record_fields_round_trip,
    lemma_sum_lengths_nonneg, record_fields_match,
    lemma_sum_lengths_push, lemma_sum_lengths_split, parse_records_against, spec_record_fields,
    spec_records, sum_lengths, TemplateParser};
use crate::error::{NetFlowError, ParseResult};
use crate::field::{FlowField, FlowFieldV, TypeLengthField};
use crate::util::{be_bytes, be_val, lemma_be_bytes_len, lemma_be_val_be_bytes,
    lemma_be_val_bound, pow256, take_u16, u16_to_bytes};
use vstd::prelude::*;

verus! {

/// One template: a template id and its ordered list of field slots.
#[derive(Debug, Clone)]
pub struct DataTemplateItem {
    pub template_id: u16,
    pub field_count: u16,
    pub fields: Vec<TypeLengthField>,
}

/// The mathematical model of a `DataTemplateItem`.
pub struct DataTemplateItemV {
    pub template_id: u16,
    pub field_count: u16,
    pub fields: Seq<TypeLengthField>,
}

impl View for DataTemplateItem {
    type V = DataTemplateItemV;

    open spec fn view(&self) -> DataTemplateItemV {
        DataTemplateItemV {
            template_id: self.template_id,
            field_count: self.field_count,
            fields: self.fields@,
        }
    }
}

/// The views of a sequence of template items.
pub open spec fn data_template_item_views(s: Seq<DataTemplateItem>) -> Seq<DataTemplateItemV> {
    Seq::new(s.len(), |i: int| s[i]@)
}

impl DataTemplateItemV {
    /// The wire form: template id, field count, then each slot's 4 bytes.
    pub open spec fn spec_to_bytes(self) -> Seq<u8> {
        be_bytes(self.template_id as nat, 2) + be_bytes(self.field_count as nat, 2)
            + TypeLengthField::spec_encode_many(self.fields)
    }

    /// The declared field count agrees with the list, and the item's wire
    /// size fits a 16-bit length field.  Every decoded item satisfies this.
    pub open spec fn wf(self) -> bool {
        &&& self.field_count == self.fields.len()
        &&& 4 + 4 * (self.field_count as int) <= 0xFFFF
    }

    /// The item's wire size: its 4-byte header plus its slots.
    pub open spec fn spec_byte_size(self) -> int {
        4 + 4 * (self.field_count as int)
    }
}

/// Every item of the sequence is well formed.
pub open spec fn data_template_items_wf(items: Seq<DataTemplateItemV>) -> bool {
    forall|i: int| 0 <= i < items.len() ==> (#[trigger] items[i]).wf()
}

/// The concatenated wire form of a sequence of template items.
pub open spec fn spec_items_bytes(items: Seq<DataTemplateItemV>) -> Seq<u8>
    decreases items.len(),
{
    if items.len() == 0 {
        Seq::empty()
    } else {
        items.first().spec_to_bytes() + spec_items_bytes(items.drop_first())
    }
}

/// The summed wire sizes of a sequence of template items.
pub open spec fn spec_items_size(items: Seq<DataTemplateItemV>) -> int
    decreases items.len(),
{
    if items.len() == 0 {
        0
    } else {
        items.first().spec_byte_size() + spec_items_size(items.drop_first())
    }
}

/// For well-formed items the encoded bytes have exactly the summed size.
pub proof fn lemma_items_bytes_len(items: Seq<DataTemplateItemV>)
    requires
        data_template_items_wf(items),
    ensures
        spec_items_bytes(items).len() == spec_items_size(items),
        spec_items_size(items) >= 0,
    decreases items.len(),
{
    if items.len() > 0 {
        let first = items.first();
        assert(first.wf());
        lemma_be_bytes_len(first.template_id as nat, 2);
        lemma_be_bytes_len(first.field_count as nat, 2);
        TypeLengthField::lemma_parse_many_round_trip(first.fields, Seq::empty());
        assert(data_template_items_wf(items.drop_first())) by {
            assert forall|i: int| 0 <= i < items.drop_first().len() implies (#[trigger] items
                .drop_first()[i]).wf() by {
                assert(items.drop_first()[i] == items[i + 1]);
            }
        }
        lemma_items_bytes_len(items.drop_first());
    }
}

/// One template item parsed against the available byte budget `length`: the
/// 4-byte header, then `field_count` slots.  Fails with `InvalidLength`
/// when the budget cannot cover the slots.
pub open spec fn spec_parse_data_template_item(length: u16, s: Seq<u8>) -> Result<
    (DataTemplateItemV, Seq<u8>),
    NetFlowError,
> {
    if s.len() < 4 {
        Err(NetFlowError::UnexpectedIncomplete)
    } else {
        let template_id = be_val(s.subrange(0, 2)) as u16;
        let field_count = be_val(s.subrange(2, 4)) as u16;
        if 4 + 4 * (field_count as int) <= length as int {
            match TypeLengthField::spec_parse_many(field_count as nat, s.skip(4)) {
                Ok((fields, rest)) => Ok(
                    (DataTemplateItemV { template_id, field_count, fields }, rest),
                ),
                Err(e) => Err(e),
            }
        } else {
            Err(NetFlowError::InvalidLength)
        }
    }
}

/// Template items parsed back to back until exactly `total` bytes of budget
/// are consumed.
pub open spec fn spec_parse_data_template_items(total: u16, s: Seq<u8>) -> Result<
    (Seq<DataTemplateItemV>, Seq<u8>),
    NetFlowError,
>
    decreases total,
{
    if total == 0 {
        Ok((Seq::empty(), s))
    } else {
        match spec_parse_data_template_item(total, s) {
            Ok((item, rest)) => {
                match spec_parse_data_template_items((total - item.spec_byte_size()) as u16, rest) {
                    Ok((v, r)) => Ok((seq![item] + v, r)),
                    Err(e) => Err(e),
                }
            },
            Err(e) => Err(e),
        }
    }
}

/// A parsed item is well formed, fits its budget, and consumed exactly its
/// wire size.
pub proof fn lemma_data_template_item_facts(length: u16, s: Seq<u8>)
    ensures
        spec_parse_data_template_item(length, s) matches Ok((v, rest)) ==> {
            &&& v.wf()
            &&& 4 <= v.spec_byte_size() <= length
            &&& s.len() >= v.spec_byte_size()
            &&& rest == s.skip(v.spec_byte_size())
        },
{
    if spec_parse_data_template_item(length, s) is Ok {
        let field_count = be_val(s.subrange(2, 4)) as u16;
        TypeLengthField::lemma_parse_many_consumes(field_count as nat, s.skip(4));
        let (v, rest) = spec_parse_data_template_item(length, s)->Ok_0;
        assert(s.skip(4).skip(4 * field_count as int) =~= s.skip(4 + 4 * field_count as int));
    }
}

/// An encoded well-formed item, decoded with any sufficient budget and any
/// trailing bytes, yields the item back.
pub proof fn lemma_data_template_item_round_trip(v: DataTemplateItemV, length: u16, tail: Seq<u8>)
    requires
        v.wf(),
        v.spec_byte_size() <= length,
    ensures
        v.spec_to_bytes().len() == v.spec_byte_size(),
        spec_parse_data_template_item(length, v.spec_to_bytes() + tail) == Ok::<
            _,
            NetFlowError,
        >((v, tail)),
{
    let s = v.spec_to_bytes() + tail;
    lemma_be_bytes_len(v.template_id as nat, 2);
    lemma_be_bytes_len(v.field_count as nat, 2);
    assert(pow256(2) == 0x10000) by {
        reveal_with_fuel(pow256, 3);
    }
    lemma_be_val_be_bytes(v.template_id as nat, 2);
    lemma_be_val_be_bytes(v.field_count as nat, 2);
    TypeLengthField::lemma_parse_many_round_trip(v.fields, tail);
    assert(s.subrange(0, 2) =~= be_bytes(v.template_id as nat, 2));
    assert(s.subrange(2, 4) =~= be_bytes(v.field_count as nat, 2));
    assert(s.skip(4) =~= TypeLengthField::spec_encode_many(v.fields) + tail);
}

/// Parsed item sequences are well formed, their summed wire sizes equal
/// the budget consumed, and exactly that many bytes were consumed.
pub proof fn lemma_data_template_items_facts(total: u16, s: Seq<u8>)
    ensures
        spec_parse_data_template_items(total, s) matches Ok((v, rest)) ==> {
            &&& data_template_items_wf(v)
            &&& spec_items_size(v) == total
            &&& s.len() >= total
            &&& rest == s.skip(total as int)
        },
    decreases total,
{
    if total == 0 {
        if spec_parse_data_template_items(total, s) is Ok {
            assert(spec_items_size(Seq::<DataTemplateItemV>::empty()) == 0);
            assert(s.skip(0) =~= s);
        }
    } else if spec_parse_data_template_items(total, s) is Ok {
        lemma_data_template_item_facts(total, s);
        let (item, rest1) = spec_parse_data_template_item(total, s)->Ok_0;
        let c = item.spec_byte_size();
        lemma_data_template_items_facts((total - c) as u16, rest1);
        let (v1, rest2) = spec_parse_data_template_items((total - c) as u16, rest1)->Ok_0;
        let v = seq![item] + v1;
        assert(v.first() == item);
        assert(v.drop_first() =~= v1);
        assert forall|i: int| 0 <= i < v.len() implies (#[trigger] v[i]).wf() by {
            if i > 0 {
                assert(v[i] == v1[i - 1]);
            }
        }
        assert(s.skip(c).skip((total - c) as int) =~= s.skip(total as int));
    }
}

/// An encoded well-formed item sequence, decoded with its summed size as
/// the budget, yields the sequence back.
pub proof fn lemma_data_template_items_round_trip(items: Seq<DataTemplateItemV>, tail: Seq<u8>)
    requires
        data_template_items_wf(items),
        spec_items_size(items) <= 0xFFFF,
    ensures
        spec_parse_data_template_items(
            spec_items_size(items) as u16,
            spec_items_bytes(items) + tail,
        ) == Ok::<_, NetFlowError>((items, tail)),
    decreases items.len(),
{
    lemma_items_bytes_len(items);
    if items.len() == 0 {
        assert(spec_items_bytes(items) + tail =~= tail);
        assert(items =~= Seq::<DataTemplateItemV>::empty());
    } else {
        let first = items.first();
        let rest_items = items.drop_first();
        assert(first.wf());
        assert(data_template_items_wf(rest_items)) by {
            assert forall|i: int| 0 <= i < rest_items.len() implies (#[trigger] rest_items[i]).wf()
                by {
                assert(rest_items[i] == items[i + 1]);
            }
        }
        lemma_items_bytes_len(rest_items);
        let total = spec_items_size(items);
        let s = spec_items_bytes(items) + tail;
        lemma_data_template_item_round_trip(first, total as u16, spec_items_bytes(rest_items)
            + tail);
        assert(s =~= first.spec_to_bytes() + (spec_items_bytes(rest_items) + tail));
        lemma_data_template_items_round_trip(rest_items, tail);
        assert((total - first.spec_byte_size()) as u16 == spec_items_size(rest_items) as u16);
        assert(seq![first] + rest_items =~= items);
    }
}

impl DataTemplateItem {
    /// A template item over the given slots; the field count is taken from
    /// the list.
    pub fn new(template_id: u16, fields: Vec<TypeLengthField>) -> (r: DataTemplateItem)
        requires
            fields@.len() <= 0xFFFF,
        ensures
            r@ == (DataTemplateItemV {
                template_id,
                field_count: fields@.len() as u16,
                fields: fields@,
            }),
    {
        let field_count = fields.len() as u16;
        DataTemplateItem { template_id, field_count, fields }
    }

    /// Decodes one template item against the byte budget `length`.
    pub fn from_bytes(length: u16, data: &[u8]) -> (r: ParseResult<DataTemplateItem>)
        ensures
            match r {
                Ok((rest, item)) => spec_parse_data_template_item(length, data@) == Ok::<
                    _,
                    NetFlowError,
                >((item@, rest@)) && item@.wf() && 4 <= item@.spec_byte_size() <= length
                    && rest@ == data@.skip(item@.spec_byte_size()),
                Err(e) => spec_parse_data_template_item(length, data@) == Err::<
                    (DataTemplateItemV, Seq<u8>),
                    _,
                >(e),
            },
    {
        proof {
            lemma_data_template_item_facts(length, data@);
        }
        match take_u16(data) {
            Err(e) => Err(e),
            Ok((r1, template_id)) => match take_u16(r1) {
                Err(e) => {
                    proof {
                        if data@.len() >= 4 {
                            assert(r1@.len() >= 2);
                        }
                    }
                    Err(e)
                },
                Ok((r2, field_count)) => {
                    proof {
                        lemma_be_val_bound(data@.subrange(0, 2));
                        lemma_be_val_bound(data@.subrange(2, 4));
                        assert(pow256(2) == 0x10000) by {
                            reveal_with_fuel(pow256, 3);
                        }
                        assert(r1@.subrange(0, 2) =~= data@.subrange(2, 4));
                        assert(r2@ =~= data@.skip(4));
                    }
                    if (length as u64) >= 4 + 4 * (field_count as u64) {
                        match TypeLengthField::parse_bytes(field_count as usize, r2) {
                            Err(e) => Err(e),
                            Ok((rest, fields)) => Ok(
                                (rest, DataTemplateItem { template_id, field_count, fields }),
                            ),
                        }
                    } else {
                        Err(NetFlowError::InvalidLength)
                    }
                },
            },
        }
    }

    /// Decodes template items back to back until the byte budget `length`
    /// is exhausted: one data-template flowset may declare several.
    pub fn parse_bytes(length: u16, data: &[u8]) -> (r: ParseResult<Vec<DataTemplateItem>>)
        ensures
            match r {
                Ok((rest, items)) => spec_parse_data_template_items(length, data@) == Ok::<
                    _,
                    NetFlowError,
                >((data_template_item_views(items@), rest@)) && data_template_items_wf(
                    data_template_item_views(items@),
                ),
                Err(e) => spec_parse_data_template_items(length, data@) == Err::<
                    (Seq<DataTemplateItemV>, Seq<u8>),
                    _,
                >(e),
            },
        decreases length,
    {
        if length == 0 {
            let items: Vec<DataTemplateItem> = Vec::new();
            assert(data_template_item_views(items@) =~= Seq::<DataTemplateItemV>::empty());
            Ok((data, items))
        } else {
            match Self::from_bytes(length, data) {
                Err(e) => Err(e),
                Ok((rest, item)) => {
                    let consumed: u16 = 4 + 4 * item.field_count;
                    match Self::parse_bytes(length - consumed, rest) {
                        Err(e) => Err(e),
                        Ok((rest2, tail_items)) => {
                            let ghost tail0 = data_template_item_views(tail_items@);
                            let mut items: Vec<DataTemplateItem> = Vec::new();
                            items.push(item);
                            let mut tail_items = tail_items;
                            items.append(&mut tail_items);
                            proof {
                                assert(data_template_item_views(items@) =~= seq![item@] + tail0);
                                assert(data_template_items_wf(seq![item@] + tail0)) by {
                                    assert forall|i: int|
                                        0 <= i < (seq![item@] + tail0).len() implies (
                                    #[trigger] (seq![item@] + tail0)[i]).wf() by {
                                        if i > 0 {
                                            assert((seq![item@] + tail0)[i] == tail0[i - 1]);
                                        }
                                    }
                                }
                            }
                            Ok((rest2, items))
                        },
                    }
                },
            }
        }
    }

    /// Decodes template items back to back; the older name of
    /// `parse_bytes`.
    pub fn to_vec(length: u16, data: &[u8]) -> (r: ParseResult<Vec<DataTemplateItem>>)
        ensures
            match r {
                Ok((rest, items)) => spec_parse_data_template_items(length, data@) == Ok::<
                    _,
                    NetFlowError,
                >((data_template_item_views(items@), rest@)) && data_template_items_wf(
                    data_template_item_views(items@),
                ),
                Err(e) => spec_parse_data_template_items(length, data@) == Err::<
                    (Seq<DataTemplateItemV>, Seq<u8>),
                    _,
                >(e),
            },
    {
        Self::parse_bytes(length, data)
    }

    /// The summed wire size of the slots: 4 bytes per slot.
    pub fn get_fields_len(&self) -> (r: u16)
        requires
            self@.wf(),
        ensures
            r == 4 * (self@.field_count as int),
    {
        self.field_count * 4
    }

    /// The wire form: template id, field count, then each slot.
    pub fn to_bytes(&self) -> (r: Vec<u8>)
        ensures
            r@ == self@.spec_to_bytes(),
    {
        let mut bytes = u16_to_bytes(self.template_id);
        let mut count_bytes = u16_to_bytes(self.field_count);
        bytes.append(&mut count_bytes);
        let ghost fseq = self.fields@;
        let mut i: usize = 0;
        while i < self.fields.len()
            invariant
                fseq == self.fields@,
                i <= fseq.len(),
                bytes@ == be_bytes(self@.template_id as nat, 2) + be_bytes(
                    self@.field_count as nat,
                    2,
                ) + TypeLengthField::spec_encode_many(fseq.take(i as int)),
            decreases fseq.len() - i,
        {
            let mut field_bytes = self.fields[i].to_bytes();
            bytes.append(&mut field_bytes);
            proof {
                assert(fseq.take(i + 1) =~= fseq.take(i as int).push(fseq[i as int]));
                TypeLengthField::lemma_encode_many_push(fseq.take(i as int), fseq[i as int]);
                assert(bytes@ =~= be_bytes(self@.template_id as nat, 2) + be_bytes(
                    self@.field_count as nat,
                    2,
                ) + TypeLengthField::spec_encode_many(fseq.take(i + 1)));
            }
            i = i + 1;
        }
        proof {
            assert(fseq.take(fseq.len() as int) =~= fseq);
        }
        bytes
    }

    /// The number of bytes `to_bytes` yields.
    pub fn byte_length(&self) -> (r: usize)
        ensures
            r == self@.spec_to_bytes().len(),
    {
        self.to_bytes().len()
    }

    /// Decodes `length / width` records back to back from `payload`
    /// against this template.
    pub fn parse_dataflows<'a>(&self, length: u16, payload: &'a [u8]) -> (r: ParseResult<
        'a,
        Vec<Record>,
    >)
        requires
            self@.wf(),
            0 < sum_lengths(self@.fields) <= 0xFFFF,
        ensures
            match r {
                Ok((rest, recs)) => spec_records(
                    *self,
                    (length as int / sum_lengths(self@.fields)) as nat,
                    payload@,
                ) == Ok::<_, NetFlowError>((record_views(recs@), rest@)),
                Err(e) => spec_records(
                    *self,
                    (length as int / sum_lengths(self@.fields)) as nat,
                    payload@,
                ) == Err::<(Seq<RecordV>, Seq<u8>), _>(e),
            },
    {
        parse_records_against(self, length, payload)
    }
}

impl TemplateParser for DataTemplateItem {
    open spec fn spec_id(&self) -> u16 {
        self@.template_id
    }

    open spec fn spec_width(&self) -> int {
        sum_lengths(self@.fields)
    }

    open spec fn spec_wf(&self) -> bool {
        self@.wf()
    }

    open spec fn spec_record(&self, s: Seq<u8>) -> Result<(RecordV, Seq<u8>), NetFlowError> {
        match spec_record_fields(self@.fields, s) {
            Ok((fs, rest)) => Ok((RecordV::Data { fields: fs }, rest)),
            Err(e) => Err(e),
        }
    }

    open spec fn spec_matches(&self, rec: RecordV) -> bool {
        rec matches RecordV::Data { fields } && record_fields_match(self@.fields, fields)
    }

    proof fn lemma_record_facts(&self, s: Seq<u8>) {
        lemma_record_fields_facts(self@.fields, s);
    }

    proof fn lemma_record_round_trip(&self, rec: RecordV, tail: Seq<u8>) {
        let fields = rec->Data_fields;
        lemma_record_fields_round_trip(self@.fields, fields, tail);
    }

    fn get_id(&self) -> (r: u16) {
        self.template_id
    }

    fn get_template_len(&self) -> (r: u16) {
        let ghost fseq = self.fields@;
        let mut acc: u16 = 0;
        let mut i: usize = 0;
        proof {
            assert(fseq.take(0) =~= Seq::<TypeLengthField>::empty());
        }
        while i < self.fields.len()
            invariant
                fseq == self.fields@,
                i <= fseq.len(),
                acc == sum_lengths(fseq.take(i as int)),
                sum_lengths(fseq) <= 0xFFFF,
            decreases fseq.len() - i,
        {
            proof {
                assert(fseq.take(i + 1) =~= fseq.take(i as int).push(fseq[i as int]));
                lemma_sum_lengths_push(fseq.take(i as int), fseq[i as int]);
                lemma_sum_lengths_split(fseq, i + 1);
                lemma_sum_lengths_nonneg(fseq.skip(i + 1));
            }
            acc = acc + self.fields[i].length;
            i = i + 1;
        }
        proof {
            assert(fseq.take(fseq.len() as int) =~= fseq);
        }
        acc
    }

    fn parse_dataflow<'a>(&self, payload: &'a [u8]) -> (r: ParseResult<'a, Record>) {
        let ghost fseq = self.fields@;
        let mut rest: &[u8] = payload;
        let mut fields: Vec<FlowField> = Vec::new();
        let mut i: usize = 0;
        proof {
            assert(flow_field_views(fields@) =~= Seq::<FlowFieldV>::empty());
            assert(fseq.skip(0) =~= fseq);
        }
        while i < self.fields.len()
            invariant
                fseq == self.fields@,
                i <= fseq.len(),
                fields_wf(flow_field_views(fields@)),
                spec_record_fields(fseq, payload@) == (match spec_record_fields(
                    fseq.skip(i as int),
                    rest@,
                ) {
                    Ok(p) => Ok::<_, NetFlowError>((flow_field_views(fields@) + p.0, p.1)),
                    Err(e) => Err::<(Seq<FlowFieldV>, Seq<u8>), _>(e),
                }),
            decreases fseq.len() - i,
        {
            let tlf = self.fields[i];
            proof {
                assert(fseq.skip(i as int).first() == fseq[i as int]);
                assert(fseq.skip(i as int).drop_first() =~= fseq.skip(i + 1));
            }
            match FlowField::from_bytes(tlf.type_id, tlf.length, rest) {
                Ok((next, flow_field)) => {
                    let ghost fields0 = flow_field_views(fields@);
                    fields.push(flow_field);
                    rest = next;
                    proof {
                        assert(flow_field_views(fields@) =~= fields0.push(flow_field@));
                        assert forall|j: int|
                            0 <= j < flow_field_views(fields@).len() implies (
                        #[trigger] flow_field_views(fields@)[j]).wf() by {
                            if j < fields0.len() {
                                assert(flow_field_views(fields@)[j] == fields0[j]);
                            }
                        }
                        if spec_record_fields(fseq.skip(i + 1), next@) is Ok {
                            let p = spec_record_fields(fseq.skip(i + 1), next@)->Ok_0;
                            assert(fields0 + (seq![flow_field@] + p.0) =~= flow_field_views(
                                fields@,
                            ) + p.0);
                        }
                    }
                    i = i + 1;
                },
                Err(e) => {
                    return Err(e);
                },
            }
        }
        proof {
            assert(fseq.skip(fseq.len() as int) =~= Seq::<TypeLengthField>::empty());
            assert(flow_field_views(fields@) + Seq::<FlowFieldV>::empty()
                =~= flow_field_views(fields@));
        }
        let rec = Record::make_data(fields);
        Ok((rest, rec))
    }
}

} // verus!
