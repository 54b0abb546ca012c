//! One option-template declaration: scope slots and option slots under a
//! template id, and the record codec it induces.

use super::record::{fields_wf, flow_field_views, record_views, spec_fields_bytes, Record,
    RecordV};
use super::template_parser::{lemma_record_fields_facts, lemma_record_fields_round_trip,
    lemma_sum_lengths_nonneg, record_fields_match,
    lemma_sum_lengths_push, lemma_sum_lengths_split, parse_records_against, spec_record_fields,
    spec_records, sum_lengths, TemplateParser};
use crate::error::{NetFlowError, ParseResult};
use crate::field::{FlowField, FlowFieldV, TypeLengthField};
use crate::util::{be_bytes, be_val, lemma_be_bytes_len, lemma_be_val_be_bytes,
    lemma_be_val_bound, pow256, take_u16, u16_to_bytes};
use vstd::prelude::*;
use vstd::slice::slice_subrange;

verus! {

/// One option template: scope slots, then option slots, under an id.
#[derive(Debug, Clone)]
pub struct OptionTemplateItem {
    pub template_id: u16,
    pub scope_count: u16,
    pub option_count: u16,
    pub scopes: Vec<TypeLengthField>,
    pub options: Vec<TypeLengthField>,
}

/// The mathematical model of an `OptionTemplateItem`.
pub struct OptionTemplateItemV {
    pub template_id: u16,
    pub scope_count: u16,
    pub option_count: u16,
    pub scopes: Seq<TypeLengthField>,
    pub options: Seq<TypeLengthField>,
}

impl View for OptionTemplateItem {
    type V = OptionTemplateItemV;

    open spec fn view(&self) -> OptionTemplateItemV {
        OptionTemplateItemV {
            template_id: self.template_id,
            scope_count: self.scope_count,
            option_count: self.option_count,
            scopes: self.scopes@,
            options: self.options@,
        }
    }
}

impl OptionTemplateItemV {
    /// The wire form: template id, scope byte length, option byte length,
    /// then the scope slots and the option slots.
    pub open spec fn spec_to_bytes(self) -> Seq<u8> {
        be_bytes(self.template_id as nat, 2) + be_bytes(4 * (self.scope_count as nat), 2)
            + be_bytes(4 * (self.option_count as nat), 2) + TypeLengthField::spec_encode_many(
            self.scopes,
        ) + TypeLengthField::spec_encode_many(self.options)
    }

    /// The declared counts agree with the lists, and the item's wire size
    /// fits the 16-bit length fields.  Every decoded item satisfies this.
    pub open spec fn wf(self) -> bool {
        &&& self.scope_count == self.scopes.len()
        &&& self.option_count == self.options.len()
        &&& 6 + 4 * (self.scope_count as int) + 4 * (self.option_count as int) <= 0xFFFF
    }

    /// The item's wire size: its 6-byte header plus all slots.
    pub open spec fn spec_byte_size(self) -> int {
        6 + 4 * (self.scope_count as int) + 4 * (self.option_count as int)
    }
}

/// One option-template item parsed against the byte budget `length`: the
/// 6-byte header, the scope and option slots, then any remaining budget
/// consumed and discarded as alignment padding.
pub open spec fn spec_parse_option_template_item(length: u16, s: Seq<u8>) -> Result<
    (OptionTemplateItemV, Seq<u8>),
    NetFlowError,
> {
    if s.len() < 6 {
        Err(NetFlowError::UnexpectedIncomplete)
    } else {
        let template_id = be_val(s.subrange(0, 2)) as u16;
        let scope_len = be_val(s.subrange(2, 4)) as u16;
        let option_len = be_val(s.subrange(4, 6)) as u16;
        if 6 + scope_len as int + option_len as int <= length as int {
            let scope_count = (scope_len / 4) as u16;
            let option_count = (option_len / 4) as u16;
            match TypeLengthField::spec_parse_many(scope_count as nat, s.skip(6)) {
                Ok((scopes, r1)) => match TypeLengthField::spec_parse_many(
                    option_count as nat,
                    r1,
                ) {
                    Ok((options, r2)) => {
                        let pad = length - 6 - scope_len - option_len;
                        if r2.len() < pad {
                            Err(NetFlowError::InvalidLength)
                        } else {
                            Ok(
                                (
                                    OptionTemplateItemV {
                                        template_id,
                                        scope_count,
                                        option_count,
                                        scopes,
                                        options,
                                    },
                                    r2.skip(pad),
                                ),
                            )
                        }
                    },
                    Err(e) => Err(e),
                },
                Err(e) => Err(e),
            }
        } else {
            Err(NetFlowError::InvalidLength)
        }
    }
}

/// The views of a sequence of option-template items.
pub open spec fn option_template_item_views(s: Seq<OptionTemplateItem>) -> Seq<
    OptionTemplateItemV,
> {
    Seq::new(s.len(), |i: int| s[i]@)
}

/// Every item of the sequence is well formed.
pub open spec fn option_template_items_wf(items: Seq<OptionTemplateItemV>) -> bool {
    forall|i: int| 0 <= i < items.len() ==> (#[trigger] items[i]).wf()
}

/// Option-template items parsed back to back, each item's header and slots
/// counted against the byte budget until it is exhausted.
pub open spec fn spec_parse_option_template_items(total: u16, s: Seq<u8>) -> Result<
    (Seq<OptionTemplateItemV>, Seq<u8>),
    NetFlowError,
>
    decreases total,
{
    if total == 0 {
        Ok((Seq::empty(), s))
    } else {
        match spec_parse_option_template_item(total, s) {
            Ok((item, rest)) => {
                match spec_parse_option_template_items(
                    (total - item.spec_byte_size()) as u16,
                    rest,
                ) {
                    Ok((v, r)) => Ok((seq![item] + v, r)),
                    Err(e) => Err(e),
                }
            },
            Err(e) => Err(e),
        }
    }
}

/// A parsed option-template item is well formed.
pub proof fn lemma_option_template_item_facts(length: u16, s: Seq<u8>)
    ensures
        spec_parse_option_template_item(length, s) matches Ok((v, rest)) ==> v.wf()
            && v.spec_byte_size() <= length && rest.len() + 6 <= s.len(),
{
    if spec_parse_option_template_item(length, s) is Ok {
        let scope_len = be_val(s.subrange(2, 4)) as u16;
        let option_len = be_val(s.subrange(4, 6)) as u16;
        let scope_count = (scope_len / 4) as u16;
        let option_count = (option_len / 4) as u16;
        TypeLengthField::lemma_parse_many_consumes(scope_count as nat, s.skip(6));
        let (scopes, r1) = TypeLengthField::spec_parse_many(scope_count as nat, s.skip(6))->Ok_0;
        TypeLengthField::lemma_parse_many_consumes(option_count as nat, r1);
    }
}

/// An encoded well-formed item, followed by `pad` bytes that the budget
/// covers and then any tail, decodes back to the item, consuming the pad.
pub proof fn lemma_option_template_item_round_trip(
    v: OptionTemplateItemV,
    length: u16,
    pad: Seq<u8>,
    tail: Seq<u8>,
)
    requires
        v.wf(),
        length == v.spec_byte_size() + pad.len(),
    ensures
        v.spec_to_bytes().len() == v.spec_byte_size(),
        spec_parse_option_template_item(length, v.spec_to_bytes() + pad + tail) == Ok::<
            _,
            NetFlowError,
        >((v, tail)),
{
    let s = v.spec_to_bytes() + pad + tail;
    lemma_be_bytes_len(v.template_id as nat, 2);
    lemma_be_bytes_len(4 * (v.scope_count as nat), 2);
    lemma_be_bytes_len(4 * (v.option_count as nat), 2);
    assert(pow256(2) == 0x10000) by {
        reveal_with_fuel(pow256, 3);
    }
    lemma_be_val_be_bytes(v.template_id as nat, 2);
    lemma_be_val_be_bytes(4 * (v.scope_count as nat), 2);
    lemma_be_val_be_bytes(4 * (v.option_count as nat), 2);
    TypeLengthField::lemma_parse_many_round_trip(v.scopes, TypeLengthField::spec_encode_many(
        v.options,
    ) + (pad + tail));
    TypeLengthField::lemma_parse_many_round_trip(v.options, pad + tail);
    assert(s.subrange(0, 2) =~= be_bytes(v.template_id as nat, 2));
    assert(s.subrange(2, 4) =~= be_bytes(4 * (v.scope_count as nat), 2));
    assert(s.subrange(4, 6) =~= be_bytes(4 * (v.option_count as nat), 2));
    assert((4 * (v.scope_count as int)) / 4 == v.scope_count as int);
    assert((4 * (v.option_count as int)) / 4 == v.option_count as int);
    assert(s.skip(6) =~= TypeLengthField::spec_encode_many(v.scopes)
        + (TypeLengthField::spec_encode_many(v.options) + (pad + tail)));
    let r2 = pad + tail;
    assert(r2.skip(pad.len() as int) =~= tail);
}

impl OptionTemplateItem {
    /// An option-template item over the given slots; the counts are taken
    /// from the lists.
    pub fn new(template_id: u16, scopes: Vec<TypeLengthField>, options: Vec<TypeLengthField>) -> (r:
        OptionTemplateItem)
        requires
            scopes@.len() <= 0xFFFF,
            options@.len() <= 0xFFFF,
        ensures
            r@ == (OptionTemplateItemV {
                template_id,
                scope_count: scopes@.len() as u16,
                option_count: options@.len() as u16,
                scopes: scopes@,
                options: options@,
            }),
    {
        let scope_count = scopes.len() as u16;
        let option_count = options.len() as u16;
        OptionTemplateItem { template_id, scope_count, option_count, scopes, options }
    }

    /// Decodes one option-template item against the byte budget `length`,
    /// consuming any remaining budget as alignment padding.
    pub fn from_bytes(length: u16, data: &[u8]) -> (r: ParseResult<OptionTemplateItem>)
        ensures
            match r {
                Ok((rest, item)) => spec_parse_option_template_item(length, data@) == Ok::<
                    _,
                    NetFlowError,
                >((item@, rest@)) && item@.wf() && item@.spec_byte_size() <= length,
                Err(e) => spec_parse_option_template_item(length, data@) == Err::<
                    (OptionTemplateItemV, Seq<u8>),
                    _,
                >(e),
            },
    {
        proof {
            lemma_option_template_item_facts(length, data@);
        }
        match take_u16(data) {
            Err(e) => Err(e),
            Ok((r1, template_id)) => match take_u16(r1) {
                Err(e) => {
                    proof {
                        if data@.len() >= 6 {
                            assert(r1@.len() >= 2);
                        }
                    }
                    Err(e)
                },
                Ok((r2, scope_len)) => match take_u16(r2) {
                    Err(e) => {
                        proof {
                            if data@.len() >= 6 {
                                assert(r2@.len() >= 2);
                            }
                        }
                        Err(e)
                    },
                    Ok((r3, option_len)) => {
                        proof {
                            lemma_be_val_bound(data@.subrange(0, 2));
                            lemma_be_val_bound(data@.subrange(2, 4));
                            lemma_be_val_bound(data@.subrange(4, 6));
                            assert(pow256(2) == 0x10000) by {
                                reveal_with_fuel(pow256, 3);
                            }
                            assert(r1@.subrange(0, 2) =~= data@.subrange(2, 4));
                            assert(r2@.subrange(0, 2) =~= data@.subrange(4, 6));
                            assert(r3@ =~= data@.skip(6));
                        }
                        if 6 + (scope_len as u32) + (option_len as u32) <= length as u32 {
                            let scope_count = scope_len / 4;
                            let option_count = option_len / 4;
                            match TypeLengthField::parse_bytes(scope_count as usize, r3) {
                                Err(e) => Err(e),
                                Ok((r4, scopes)) => {
                                    match TypeLengthField::parse_bytes(option_count as usize, r4) {
                                        Err(e) => Err(e),
                                        Ok((r5, options)) => {
                                            let pad = (length - 6 - scope_len - option_len)
                                                as usize;
                                            if r5.len() < pad {
                                                Err(NetFlowError::InvalidLength)
                                            } else {
                                                let rest = slice_subrange(r5, pad, r5.len());
                                                proof {
                                                    assert(r5@.subrange(
                                                        pad as int,
                                                        r5@.len() as int,
                                                    ) =~= r5@.skip(pad as int));
                                                }
                                                Ok(
                                                    (
                                                        rest,
                                                        OptionTemplateItem {
                                                            template_id,
                                                            scope_count,
                                                            option_count,
                                                            scopes,
                                                            options,
                                                        },
                                                    ),
                                                )
                                            }
                                        },
                                    }
                                },
                            }
                        } else {
                            Err(NetFlowError::InvalidLength)
                        }
                    },
                },
            },
        }
    }

    /// Decodes option-template items back to back until the byte budget
    /// `length` is exhausted.
    pub fn to_vec(length: u16, data: &[u8]) -> (r: ParseResult<Vec<OptionTemplateItem>>)
        ensures
            match r {
                Ok((rest, items)) => spec_parse_option_template_items(length, data@) == Ok::<
                    _,
                    NetFlowError,
                >((option_template_item_views(items@), rest@)) && option_template_items_wf(
                    option_template_item_views(items@),
                ),
                Err(e) => spec_parse_option_template_items(length, data@) == Err::<
                    (Seq<OptionTemplateItemV>, Seq<u8>),
                    _,
                >(e),
            },
        decreases length,
    {
        if length == 0 {
            let items: Vec<OptionTemplateItem> = Vec::new();
            assert(option_template_item_views(items@) =~= Seq::<OptionTemplateItemV>::empty());
            Ok((data, items))
        } else {
            match Self::from_bytes(length, data) {
                Err(e) => Err(e),
                Ok((rest, item)) => {
                    let consumed: u16 = 6 + item.scope_count * 4 + item.option_count * 4;
                    match Self::to_vec(length - consumed, rest) {
                        Err(e) => Err(e),
                        Ok((rest2, tail_items)) => {
                            let ghost tail0 = option_template_item_views(tail_items@);
                            let mut items: Vec<OptionTemplateItem> = Vec::new();
                            items.push(item);
                            let mut tail_items = tail_items;
                            items.append(&mut tail_items);
                            proof {
                                assert(option_template_item_views(items@) =~= seq![item@] + tail0);
                                assert(option_template_items_wf(seq![item@] + tail0)) by {
                                    assert forall|i: int|
                                        0 <= i < (seq![item@] + tail0).len() implies (
                                    #[trigger] (seq![item@] + tail0)[i]).wf() by {
                                        if i > 0 {
                                            assert((seq![item@] + tail0)[i] == tail0[i - 1]);
                                        }
                                    }
                                }
                            }
                            Ok((rest2, items))
                        },
                    }
                },
            }
        }
    }

    /// The summed wire size of the slots: 4 bytes per scope or option slot.
    pub fn get_fields_len(&self) -> (r: u16)
        requires
            self@.wf(),
        ensures
            r == 4 * (self@.scope_count as int) + 4 * (self@.option_count as int),
    {
        self.scope_count * 4 + self.option_count * 4
    }

    /// The wire form: id, scope byte length, option byte length, then the
    /// slots.  Alignment padding belongs to the enclosing flowset, not to
    /// the item.
    pub fn to_bytes(&self) -> (r: Vec<u8>)
        requires
            self@.wf(),
        ensures
            r@ == self@.spec_to_bytes(),
    {
        let mut bytes = u16_to_bytes(self.template_id);
        let mut scope_len_bytes = u16_to_bytes(self.scope_count * 4);
        bytes.append(&mut scope_len_bytes);
        let mut option_len_bytes = u16_to_bytes(self.option_count * 4);
        bytes.append(&mut option_len_bytes);
        let ghost sseq = self.scopes@;
        let ghost oseq = self.options@;
        let ghost header = be_bytes(self@.template_id as nat, 2) + be_bytes(
            4 * (self@.scope_count as nat),
            2,
        ) + be_bytes(4 * (self@.option_count as nat), 2);
        let mut i: usize = 0;
        proof {
            assert(sseq.take(0) =~= Seq::<TypeLengthField>::empty());
            assert(bytes@ =~= header + TypeLengthField::spec_encode_many(sseq.take(0)));
        }
        while i < self.scopes.len()
            invariant
                sseq == self.scopes@,
                i <= sseq.len(),
                header == be_bytes(self@.template_id as nat, 2) + be_bytes(
                    4 * (self@.scope_count as nat),
                    2,
                ) + be_bytes(4 * (self@.option_count as nat), 2),
                bytes@ == header + TypeLengthField::spec_encode_many(sseq.take(i as int)),
            decreases sseq.len() - i,
        {
            let mut field_bytes = self.scopes[i].to_bytes();
            bytes.append(&mut field_bytes);
            proof {
                assert(sseq.take(i + 1) =~= sseq.take(i as int).push(sseq[i as int]));
                TypeLengthField::lemma_encode_many_push(sseq.take(i as int), sseq[i as int]);
                assert(bytes@ =~= header + TypeLengthField::spec_encode_many(sseq.take(i + 1)));
            }
            i = i + 1;
        }
        proof {
            assert(sseq.take(sseq.len() as int) =~= sseq);
        }
        let mut j: usize = 0;
        proof {
            assert(oseq.take(0) =~= Seq::<TypeLengthField>::empty());
            assert(bytes@ =~= header + TypeLengthField::spec_encode_many(sseq)
                + TypeLengthField::spec_encode_many(oseq.take(0)));
        }
        while j < self.options.len()
            invariant
                sseq == self.scopes@,
                oseq == self.options@,
                j <= oseq.len(),
                header == be_bytes(self@.template_id as nat, 2) + be_bytes(
                    4 * (self@.scope_count as nat),
                    2,
                ) + be_bytes(4 * (self@.option_count as nat), 2),
                bytes@ == header + TypeLengthField::spec_encode_many(sseq)
                    + TypeLengthField::spec_encode_many(oseq.take(j as int)),
            decreases oseq.len() - j,
        {
            let mut field_bytes = self.options[j].to_bytes();
            bytes.append(&mut field_bytes);
            proof {
                assert(oseq.take(j + 1) =~= oseq.take(j as int).push(oseq[j as int]));
                TypeLengthField::lemma_encode_many_push(oseq.take(j as int), oseq[j as int]);
                assert(bytes@ =~= header + TypeLengthField::spec_encode_many(sseq)
                    + TypeLengthField::spec_encode_many(oseq.take(j + 1)));
            }
            j = j + 1;
        }
        proof {
            assert(oseq.take(oseq.len() as int) =~= oseq);
            assert(bytes@ =~= self@.spec_to_bytes());
        }
        bytes
    }

    /// The number of bytes `to_bytes` yields.
    pub fn byte_length(&self) -> (r: usize)
        requires
            self@.wf(),
        ensures
            r == self@.spec_to_bytes().len(),
    {
        self.to_bytes().len()
    }

    /// Decodes `length / width` records back to back from `payload`
    /// against this template.
    pub fn parse_dataflows<'a>(&self, length: u16, payload: &'a [u8]) -> (r: ParseResult<
        'a,
        Vec<Record>,
    >)
        requires
            self@.wf(),
            0 < sum_lengths(self@.scopes) + sum_lengths(self@.options) <= 0xFFFF,
        ensures
            match r {
                Ok((rest, recs)) => spec_records(
                    *self,
                    (length as int / (sum_lengths(self@.scopes) + sum_lengths(
                        self@.options,
                    ))) as nat,
                    payload@,
                ) == Ok::<_, NetFlowError>((record_views(recs@), rest@)),
                Err(e) => spec_records(
                    *self,
                    (length as int / (sum_lengths(self@.scopes) + sum_lengths(
                        self@.options,
                    ))) as nat,
                    payload@,
                ) == Err::<(Seq<RecordV>, Seq<u8>), _>(e),
            },
    {
        parse_records_against(self, length, payload)
    }
}

impl TemplateParser for OptionTemplateItem {
    open spec fn spec_id(&self) -> u16 {
        self@.template_id
    }

    open spec fn spec_width(&self) -> int {
        sum_lengths(self@.scopes) + sum_lengths(self@.options)
    }

    open spec fn spec_wf(&self) -> bool {
        self@.wf()
    }

    open spec fn spec_record(&self, s: Seq<u8>) -> Result<(RecordV, Seq<u8>), NetFlowError> {
        match spec_record_fields(self@.scopes, s) {
            Ok((sf, r1)) => match spec_record_fields(self@.options, r1) {
                Ok((of, r2)) => Ok(
                    (RecordV::OptionData { scope_fields: sf, option_fields: of }, r2),
                ),
                Err(e) => Err(e),
            },
            Err(e) => Err(e),
        }
    }

    open spec fn spec_matches(&self, rec: RecordV) -> bool {
        &&& rec matches RecordV::OptionData { scope_fields, option_fields }
        &&& record_fields_match(self@.scopes, scope_fields)
        &&& record_fields_match(self@.options, option_fields)
    }

    proof fn lemma_record_facts(&self, s: Seq<u8>) {
        lemma_record_fields_facts(self@.scopes, s);
        if spec_record_fields(self@.scopes, s) is Ok {
            let (sf, r1) = spec_record_fields(self@.scopes, s)->Ok_0;
            lemma_record_fields_facts(self@.options, r1);
            if spec_record_fields(self@.options, r1) is Ok {
                let (of, r2) = spec_record_fields(self@.options, r1)->Ok_0;
                let w1 = sum_lengths(self@.scopes);
                let w2 = sum_lengths(self@.options);
                assert(s.skip(w1).skip(w2) =~= s.skip(w1 + w2));
                assert(s.take(w1) + s.skip(w1).take(w2) =~= s.take(w1 + w2));
            }
        }
    }

    proof fn lemma_record_round_trip(&self, rec: RecordV, tail: Seq<u8>) {
        let scope_fields = rec->OptionData_scope_fields;
        let option_fields = rec->OptionData_option_fields;
        lemma_record_fields_round_trip(
            self@.scopes,
            scope_fields,
            spec_fields_bytes(option_fields) + tail,
        );
        lemma_record_fields_round_trip(self@.options, option_fields, tail);
        let s = rec.spec_to_bytes() + tail;
        assert(s =~= spec_fields_bytes(scope_fields) + (spec_fields_bytes(option_fields) + tail));
    }

    fn get_id(&self) -> (r: u16) {
        self.template_id
    }

    fn get_template_len(&self) -> (r: u16) {
        proof {
            lemma_sum_lengths_nonneg(self@.scopes);
            lemma_sum_lengths_nonneg(self@.options);
        }
        let scope_part = sum_tlf_lengths(&self.scopes);
        let option_part = sum_tlf_lengths(&self.options);
        scope_part + option_part
    }

    fn parse_dataflow<'a>(&self, payload: &'a [u8]) -> (r: ParseResult<'a, Record>) {
        match parse_record_fields(&self.scopes, payload) {
            Err(e) => Err(e),
            Ok((r1, scope_fields)) => match parse_record_fields(&self.options, r1) {
                Err(e) => Err(e),
                Ok((r2, option_fields)) => Ok(
                    (r2, Record::make_option(scope_fields, option_fields)),
                ),
            },
        }
    }
}

/// The summed declared widths of the given slots.
fn sum_tlf_lengths(fields: &Vec<TypeLengthField>) -> (r: u16)
    requires
        0 <= sum_lengths(fields@) <= 0xFFFF,
    ensures
        r == sum_lengths(fields@),
{
    let ghost fseq = fields@;
    let mut acc: u16 = 0;
    let mut i: usize = 0;
    proof {
        assert(fseq.take(0) =~= Seq::<TypeLengthField>::empty());
    }
    while i < fields.len()
        invariant
            fseq == fields@,
            i <= fseq.len(),
            acc == sum_lengths(fseq.take(i as int)),
            sum_lengths(fseq) <= 0xFFFF,
        decreases fseq.len() - i,
    {
        proof {
            assert(fseq.take(i + 1) =~= fseq.take(i as int).push(fseq[i as int]));
            lemma_sum_lengths_push(fseq.take(i as int), fseq[i as int]);
            lemma_sum_lengths_split(fseq, i + 1);
            lemma_sum_lengths_nonneg(fseq.skip(i + 1));
        }
        acc = acc + fields[i].length;
        i = i + 1;
    }
    proof {
        assert(fseq.take(fseq.len() as int) =~= fseq);
    }
    acc
}

/// Decodes one field per slot from the head of `payload`, in order.
fn parse_record_fields<'a>(fields: &Vec<TypeLengthField>, payload: &'a [u8]) -> (r: ParseResult<
    'a,
    Vec<FlowField>,
>)
    ensures
        match r {
            Ok((rest, fs)) => spec_record_fields(fields@, payload@) == Ok::<_, NetFlowError>(
                (flow_field_views(fs@), rest@),
            ) && fields_wf(flow_field_views(fs@)),
            Err(e) => spec_record_fields(fields@, payload@) == Err::<
                (Seq<FlowFieldV>, Seq<u8>),
                _,
            >(e),
        },
{
    let ghost fseq = fields@;
    let mut rest: &[u8] = payload;
    let mut out: Vec<FlowField> = Vec::new();
    let mut i: usize = 0;
    proof {
        assert(flow_field_views(out@) =~= Seq::<FlowFieldV>::empty());
        assert(fseq.skip(0) =~= fseq);
    }
    while i < fields.len()
        invariant
            fseq == fields@,
            i <= fseq.len(),
            fields_wf(flow_field_views(out@)),
            spec_record_fields(fseq, payload@) == (match spec_record_fields(
                fseq.skip(i as int),
                rest@,
            ) {
                Ok(p) => Ok::<_, NetFlowError>((flow_field_views(out@) + p.0, p.1)),
                Err(e) => Err::<(Seq<FlowFieldV>, Seq<u8>), _>(e),
            }),
        decreases fseq.len() - i,
    {
        let tlf = fields[i];
        proof {
            assert(fseq.skip(i as int).first() == fseq[i as int]);
            assert(fseq.skip(i as int).drop_first() =~= fseq.skip(i + 1));
        }
        match FlowField::from_bytes(tlf.type_id, tlf.length, rest) {
            Ok((next, flow_field)) => {
                let ghost out0 = flow_field_views(out@);
                out.push(flow_field);
                rest = next;
                proof {
                    assert(flow_field_views(out@) =~= out0.push(flow_field@));
                    assert forall|j: int| 0 <= j < flow_field_views(out@).len() implies (
                    #[trigger] flow_field_views(out@)[j]).wf() by {
                        if j < out0.len() {
                            assert(flow_field_views(out@)[j] == out0[j]);
                        }
                    }
                    if spec_record_fields(fseq.skip(i + 1), next@) is Ok {
                        let p = spec_record_fields(fseq.skip(i + 1), next@)->Ok_0;
                        assert(out0 + (seq![flow_field@] + p.0) =~= flow_field_views(out@) + p.0);
                    }
                }
                i = i + 1;
            },
            Err(e) => {
                return Err(e);
            },
        }
    }
    proof {
        assert(fseq.skip(fseq.len() as int) =~= Seq::<TypeLengthField>::empty());
        assert(flow_field_views(out@) + Seq::<FlowFieldV>::empty() =~= flow_field_views(out@));
    }
    Ok((rest, out))
}

} // verus!
