//! Flowsets: the tagged sections of a NetFlow v9 packet body, and the
//! template-driven record codec.

mod data_flow;
mod data_template;
mod data_template_item;
mod option_template;
mod option_template_item;
mod record;
mod template_parser;

pub use data_flow::{data_flow_records_wf, find_template_idx, lemma_data_flow_raw_round_trip,
    lemma_data_flow_records_round_trip, lemma_find_template_idx, lemma_records_bytes_push,
    lemma_spec_records_facts, lemma_spec_records_round_trip, spec_parse_data_flow_raw,
    spec_parse_data_flow_with, spec_records_bytes, DataFlow, DataFlowV};
pub use data_template::{lemma_data_template_round_trip, lemma_items_bytes_prefix,
    lemma_items_bytes_push, spec_parse_data_template, DataTemplate, DataTemplateV,
    TEMPLATE_FLOWSET_ID};
pub use data_template_item::{data_template_item_views, data_template_items_wf,
    lemma_data_template_item_facts, lemma_data_template_item_round_trip,
    lemma_data_template_items_facts, lemma_data_template_items_round_trip, lemma_items_bytes_len,
    spec_items_bytes, spec_items_size, spec_parse_data_template_item,
    spec_parse_data_template_items, DataTemplateItem, DataTemplateItemV};
pub use option_template::{lemma_encode_many_len, lemma_option_item_bytes_len,
    lemma_option_template_parse_wf, lemma_option_template_round_trip, spec_parse_option_template, OptionTemplate,
    OptionTemplateV, OPTION_FLOWSET_ID};
pub use option_template_item::{lemma_option_template_item_facts,
    lemma_option_template_item_round_trip, option_template_item_views, option_template_items_wf,
    spec_parse_option_template_item, spec_parse_option_template_items, OptionTemplateItem,
    OptionTemplateItemV};
pub use record::{fields_to_bytes, fields_wf, flow_field_views, lemma_fields_bytes_push,
    record_views, records_wf, spec_fields_bytes, DataRecord, OptionRecord, Record, RecordV};
pub use template_parser::{lemma_record_fields_facts, lemma_record_fields_round_trip,
    lemma_sum_lengths_nonneg, lemma_sum_lengths_push, lemma_sum_lengths_split,
    parse_records_against, record_fields_match, spec_record_fields, spec_records, sum_lengths,
    TemplateParser};

use crate::error::{NetFlowError, ParseResult};
use crate::util::{be_val, lemma_be_bytes_len, lemma_be_val_be_bytes, lemma_be_val_bound, pow256,
    take_u16};
use vstd::prelude::*;

verus! {

/// One section of a NetFlow v9 packet body, tagged by its leading 16-bit
/// flowset id: template declarations, an option-template declaration, or
/// data.
#[derive(Debug, Clone)]
pub enum FlowSet {
    DataTemplate(DataTemplate),
    OptionTemplate(OptionTemplate),
    DataFlow(DataFlow),
}

/// The mathematical model of a `FlowSet`.
pub enum FlowSetV {
    DataTemplate(DataTemplateV),
    OptionTemplate(OptionTemplateV),
    DataFlow(DataFlowV),
}

impl View for FlowSet {
    type V = FlowSetV;

    open spec fn view(&self) -> FlowSetV {
        match self {
            FlowSet::DataTemplate(dt) => FlowSetV::DataTemplate(dt@),
            FlowSet::OptionTemplate(ot) => FlowSetV::OptionTemplate(ot@),
            FlowSet::DataFlow(df) => FlowSetV::DataFlow(df@),
        }
    }
}

impl FlowSetV {
    /// The wire form of the active variant.
    pub open spec fn spec_to_bytes(self) -> Seq<u8> {
        match self {
            FlowSetV::DataTemplate(dt) => dt.spec_to_bytes(),
            FlowSetV::OptionTemplate(ot) => ot.spec_to_bytes(),
            FlowSetV::DataFlow(df) => df.spec_to_bytes(),
        }
    }

    /// A canonical flowset, as the sequence decoder produces it.  A data
    /// flowset here is the template-less kind and must not collide with the
    /// reserved template ids.
    pub open spec fn wf(self) -> bool {
        match self {
            FlowSetV::DataTemplate(dt) => dt.wf(),
            FlowSetV::OptionTemplate(ot) => ot.wf(),
            FlowSetV::DataFlow(df) => df.wf_raw() && df.flowset_id != TEMPLATE_FLOWSET_ID
                && df.flowset_id != OPTION_FLOWSET_ID,
        }
    }

    /// Whether the encoded length fields can hold this value's wire size.
    pub open spec fn encodable(self) -> bool {
        match self {
            FlowSetV::DataTemplate(dt) => 4 + spec_items_bytes(dt.templates).len() <= 0xFFFF,
            FlowSetV::OptionTemplate(ot) => ot.templates.wf() && 4 + ot.templates.spec_byte_size()
                + 2 <= 0xFFFF,
            FlowSetV::DataFlow(df) => 4 + df.spec_data().len() + df.spec_pad().len() <= 0xFFFF,
        }
    }
}

/// One flowset read from the head of `s`, dispatched on the peeked flowset
/// id: 0 decodes as a data template, 1 as an option template, and any other
/// id as a template-less data flowset.
pub open spec fn spec_parse_flow_set(s: Seq<u8>) -> Result<(FlowSetV, Seq<u8>), NetFlowError> {
    if s.len() < 2 {
        Err(NetFlowError::UnexpectedIncomplete)
    } else {
        let id = be_val(s.subrange(0, 2)) as u16;
        if id == TEMPLATE_FLOWSET_ID {
            match spec_parse_data_template(s) {
                Ok((dt, rest)) => Ok((FlowSetV::DataTemplate(dt), rest)),
                Err(e) => Err(e),
            }
        } else if id == OPTION_FLOWSET_ID {
            match spec_parse_option_template(s) {
                Ok((ot, rest)) => Ok((FlowSetV::OptionTemplate(ot), rest)),
                Err(e) => Err(e),
            }
        } else {
            match spec_parse_data_flow_raw(s) {
                Ok((df, rest)) => Ok((FlowSetV::DataFlow(df), rest)),
                Err(e) => Err(e),
            }
        }
    }
}

/// A successful flowset read consumes at least one byte.
pub proof fn lemma_flow_set_consumes(s: Seq<u8>)
    ensures
        spec_parse_flow_set(s) matches Ok((fs, rest)) ==> rest.len() < s.len(),
{
    if spec_parse_flow_set(s) is Ok {
        let id = be_val(s.subrange(0, 2)) as u16;
        if id == TEMPLATE_FLOWSET_ID {
            let length = be_val(s.subrange(2, 4)) as u16;
            lemma_data_template_items_facts((length - 4) as u16, s.skip(4));
        } else if id == OPTION_FLOWSET_ID {
            let length = be_val(s.subrange(2, 4)) as u16;
            lemma_option_template_item_facts((length - 4) as u16, s.skip(4));
        } else {
        }
    }
}

/// Flowsets read back to back until the input is exhausted.
pub open spec fn spec_parse_flow_sets(s: Seq<u8>) -> Result<(Seq<FlowSetV>, Seq<u8>), NetFlowError>
    decreases s.len(),
{
    if s.len() == 0 {
        Ok((Seq::empty(), s))
    } else {
        match spec_parse_flow_set(s) {
            Ok((fs, rest)) => if rest.len() < s.len() {
                match spec_parse_flow_sets(rest) {
                    Ok((v, r)) => Ok((seq![fs] + v, r)),
                    Err(e) => Err(e),
                }
            } else {
                Err(NetFlowError::InvalidLength)
            },
            Err(e) => Err(e),
        }
    }
}

/// The views of a sequence of flowsets.
pub open spec fn flow_set_views(s: Seq<FlowSet>) -> Seq<FlowSetV> {
    Seq::new(s.len(), |i: int| s[i]@)
}

/// The concatenated wire form of a sequence of flowsets.
pub open spec fn spec_flow_sets_bytes(vs: Seq<FlowSetV>) -> Seq<u8>
    decreases vs.len(),
{
    if vs.len() == 0 {
        Seq::empty()
    } else {
        vs.first().spec_to_bytes() + spec_flow_sets_bytes(vs.drop_first())
    }
}

/// Appending one flowset appends its encoding.
pub proof fn lemma_flow_sets_bytes_push(vs: Seq<FlowSetV>, fs: FlowSetV)
    ensures
        spec_flow_sets_bytes(vs.push(fs)) == spec_flow_sets_bytes(vs) + fs.spec_to_bytes(),
    decreases vs.len(),
{
    if vs.len() == 0 {
        assert(vs.push(fs).drop_first() =~= Seq::<FlowSetV>::empty());
        assert(vs.push(fs).first() == fs);
        assert(spec_flow_sets_bytes(Seq::<FlowSetV>::empty()) =~= Seq::<u8>::empty());
        assert(spec_flow_sets_bytes(vs.push(fs)) =~= spec_flow_sets_bytes(vs)
            + fs.spec_to_bytes());
    } else {
        lemma_flow_sets_bytes_push(vs.drop_first(), fs);
        assert(vs.push(fs).drop_first() =~= vs.drop_first().push(fs));
        assert(vs.push(fs).first() == vs.first());
        assert(spec_flow_sets_bytes(vs.push(fs)) =~= spec_flow_sets_bytes(vs)
            + fs.spec_to_bytes());
    }
}

impl FlowSet {
    /// Decodes one flowset from the head of `data`, dispatching on the
    /// peeked flowset id without consuming it.
    pub fn from_bytes(data: &[u8]) -> (r: ParseResult<FlowSet>)
        ensures
            match r {
                Ok((rest, fs)) => spec_parse_flow_set(data@) == Ok::<_, NetFlowError>(
                    (fs@, rest@),
                ),
                Err(e) => spec_parse_flow_set(data@) == Err::<(FlowSetV, Seq<u8>), _>(e),
            },
    {
        match take_u16(data) {
            Err(e) => Err(e),
            Ok((_, id)) => {
                proof {
                    lemma_be_val_bound(data@.subrange(0, 2));
                    assert(pow256(2) == 0x10000) by {
                        reveal_with_fuel(pow256, 3);
                    }
                }
                if id == TEMPLATE_FLOWSET_ID {
                    match DataTemplate::from_bytes(data) {
                        Ok((next, template)) => Ok((next, FlowSet::DataTemplate(template))),
                        Err(e) => Err(e),
                    }
                } else if id == OPTION_FLOWSET_ID {
                    match OptionTemplate::from_bytes(data) {
                        Ok((next, option)) => Ok((next, FlowSet::OptionTemplate(option))),
                        Err(e) => Err(e),
                    }
                } else {
                    match DataFlow::from_bytes_notemplate(data) {
                        Ok((next, flow)) => Ok((next, FlowSet::DataFlow(flow))),
                        Err(e) => Err(e),
                    }
                }
            },
        }
    }

    /// Decodes flowsets back to back until `data` is exhausted.
    pub fn parse_bytes(data: &[u8]) -> (r: ParseResult<Vec<FlowSet>>)
        ensures
            match r {
                Ok((rest, sets)) => spec_parse_flow_sets(data@) == Ok::<_, NetFlowError>(
                    (flow_set_views(sets@), rest@),
                ) && rest@.len() == 0,
                Err(e) => spec_parse_flow_sets(data@) == Err::<(Seq<FlowSetV>, Seq<u8>), _>(e),
            },
    {
        let mut rest: &[u8] = data;
        let mut sets: Vec<FlowSet> = Vec::new();
        proof {
            assert(flow_set_views(sets@) =~= Seq::<FlowSetV>::empty());
        }
        while rest.len() > 0
            invariant
                spec_parse_flow_sets(data@) == (match spec_parse_flow_sets(rest@) {
                    Ok(p) => Ok::<_, NetFlowError>((flow_set_views(sets@) + p.0, p.1)),
                    Err(e) => Err::<(Seq<FlowSetV>, Seq<u8>), _>(e),
                }),
            decreases rest@.len(),
        {
            proof {
                lemma_flow_set_consumes(rest@);
            }
            match FlowSet::from_bytes(rest) {
                Ok((next, flowset)) => {
                    let ghost sets0 = flow_set_views(sets@);
                    sets.push(flowset);
                    rest = next;
                    proof {
                        assert(flow_set_views(sets@) =~= sets0.push(flowset@));
                        if spec_parse_flow_sets(next@) is Ok {
                            let p = spec_parse_flow_sets(next@)->Ok_0;
                            assert(sets0 + (seq![flowset@] + p.0) =~= flow_set_views(sets@) + p.0);
                        }
                    }
                },
                Err(e) => {
                    return Err(e);
                },
            }
        }
        proof {
            assert(rest@ =~= Seq::<u8>::empty());
            assert(flow_set_views(sets@) + Seq::<FlowSetV>::empty() =~= flow_set_views(sets@));
        }
        Ok((rest, sets))
    }

    /// The wire form of the active variant.
    pub fn to_bytes(&self) -> (r: Vec<u8>)
        requires
            self@.encodable(),
        ensures
            r@ == self@.spec_to_bytes(),
    {
        match self {
            FlowSet::DataTemplate(template) => template.to_bytes(),
            FlowSet::OptionTemplate(template) => template.to_bytes(),
            FlowSet::DataFlow(dataflow) => dataflow.to_bytes(),
        }
    }

    /// Whether this flowset carries template declarations.
    pub fn is_template(&self) -> (r: bool)
        ensures
            r == (self@ is DataTemplate),
    {
        match self {
            FlowSet::DataTemplate(_) => true,
            _ => false,
        }
    }

    /// Whether this flowset carries an option-template declaration.
    pub fn is_option(&self) -> (r: bool)
        ensures
            r == (self@ is OptionTemplate),
    {
        match self {
            FlowSet::OptionTemplate(_) => true,
            _ => false,
        }
    }

    /// Whether this flowset carries data records.
    pub fn is_dataflow(&self) -> (r: bool)
        ensures
            r == (self@ is DataFlow),
    {
        match self {
            FlowSet::DataFlow(_) => true,
            _ => false,
        }
    }

    /// The number of bytes `to_bytes` yields.
    pub fn byte_length(&self) -> (r: usize)
        requires
            self@.encodable(),
        ensures
            r == self@.spec_to_bytes().len(),
    {
        self.to_bytes().len()
    }
}

impl From<DataFlow> for FlowSet {
    fn from(data: DataFlow) -> (r: Self) {
        FlowSet::DataFlow(data)
    }
}

impl vstd::std_specs::convert::FromSpecImpl<DataFlow> for FlowSet {
    open spec fn obeys_from_spec() -> bool {
        true
    }

    open spec fn from_spec(v: DataFlow) -> Self {
        FlowSet::DataFlow(v)
    }
}

impl From<OptionTemplate> for FlowSet {
    fn from(option: OptionTemplate) -> (r: Self) {
        FlowSet::OptionTemplate(option)
    }
}

impl vstd::std_specs::convert::FromSpecImpl<OptionTemplate> for FlowSet {
    open spec fn obeys_from_spec() -> bool {
        true
    }

    open spec fn from_spec(v: OptionTemplate) -> Self {
        FlowSet::OptionTemplate(v)
    }
}

impl From<DataTemplate> for FlowSet {
    fn from(template: DataTemplate) -> (r: Self) {
        FlowSet::DataTemplate(template)
    }
}

impl vstd::std_specs::convert::FromSpecImpl<DataTemplate> for FlowSet {
    open spec fn obeys_from_spec() -> bool {
        true
    }

    open spec fn from_spec(v: DataTemplate) -> Self {
        FlowSet::DataTemplate(v)
    }
}

/// An encoded canonical data-template flowset parses back as a flowset.
#[verifier::spinoff_prover]
#[verifier::rlimit(60)]
proof fn lemma_flow_set_round_trip_template(dt: DataTemplateV, tail: Seq<u8>)
    requires
        dt.wf(),
    ensures
        spec_parse_flow_set(dt.spec_to_bytes() + tail) == Ok::<_, NetFlowError>(
            (FlowSetV::DataTemplate(dt), tail),
        ),
        dt.spec_to_bytes().len() >= 4,
{
    let s = dt.spec_to_bytes() + tail;
    lemma_data_template_round_trip(dt, tail);
    lemma_items_bytes_len(dt.templates);
    lemma_be_bytes_len(dt.flowset_id as nat, 2);
    lemma_be_bytes_len((spec_items_bytes(dt.templates).len() + 4) as nat, 2);
    assert(pow256(2) == 0x10000) by {
        reveal_with_fuel(pow256, 3);
    }
    lemma_be_val_be_bytes(dt.flowset_id as nat, 2);
    assert(s.subrange(0, 2) =~= crate::util::be_bytes(dt.flowset_id as nat, 2));
}

/// An encoded canonical option-template flowset parses back as a flowset.
#[verifier::spinoff_prover]
#[verifier::rlimit(60)]
proof fn lemma_flow_set_round_trip_option(ot: OptionTemplateV, tail: Seq<u8>)
    requires
        ot.wf(),
    ensures
        spec_parse_flow_set(ot.spec_to_bytes() + tail) == Ok::<_, NetFlowError>(
            (FlowSetV::OptionTemplate(ot), tail),
        ),
        ot.spec_to_bytes().len() >= 4,
{
    let s = ot.spec_to_bytes() + tail;
    lemma_option_template_round_trip(ot, tail);
    lemma_option_item_bytes_len(ot.templates);
    lemma_be_bytes_len(ot.flowset_id as nat, 2);
    lemma_be_bytes_len((ot.templates.spec_to_bytes().len() + ot.spec_pad().len() + 4) as nat, 2);
    assert(pow256(2) == 0x10000) by {
        reveal_with_fuel(pow256, 3);
    }
    lemma_be_val_be_bytes(ot.flowset_id as nat, 2);
    assert(s.subrange(0, 2) =~= crate::util::be_bytes(ot.flowset_id as nat, 2));
}

/// An encoded canonical template-less data flowset parses back as a
/// flowset.
#[verifier::spinoff_prover]
#[verifier::rlimit(60)]
proof fn lemma_flow_set_round_trip_dataflow(df: DataFlowV, tail: Seq<u8>)
    requires
        df.wf_raw(),
        df.flowset_id != TEMPLATE_FLOWSET_ID,
        df.flowset_id != OPTION_FLOWSET_ID,
    ensures
        spec_parse_flow_set(df.spec_to_bytes() + tail) == Ok::<_, NetFlowError>(
            (FlowSetV::DataFlow(df), tail),
        ),
        df.spec_to_bytes().len() >= 4,
{
    let s = df.spec_to_bytes() + tail;
    lemma_data_flow_raw_round_trip(df, tail);
    lemma_be_bytes_len(df.flowset_id as nat, 2);
    assert(df.spec_pad() =~= Seq::<u8>::empty());
    lemma_be_bytes_len((df.spec_data().len() + df.spec_pad().len() + 4) as nat, 2);
    assert(pow256(2) == 0x10000) by {
        reveal_with_fuel(pow256, 3);
    }
    lemma_be_val_be_bytes(df.flowset_id as nat, 2);
    assert(s.subrange(0, 2) =~= crate::util::be_bytes(df.flowset_id as nat, 2));
}

/// An encoded canonical flowset, decoded with any trailing bytes, yields
/// the flowset back: encode is a right inverse of decode for every flowset
/// variant.
pub proof fn lemma_flow_set_round_trip(v: FlowSetV, tail: Seq<u8>)
    requires
        v.wf(),
    ensures
        spec_parse_flow_set(v.spec_to_bytes() + tail) == Ok::<_, NetFlowError>((v, tail)),
        v.spec_to_bytes().len() >= 4,
{
    match v {
        FlowSetV::DataTemplate(dt) => lemma_flow_set_round_trip_template(dt, tail),
        FlowSetV::OptionTemplate(ot) => lemma_flow_set_round_trip_option(ot, tail),
        FlowSetV::DataFlow(df) => lemma_flow_set_round_trip_dataflow(df, tail),
    }
}

/// Encoding canonical flowsets back to back and decoding the whole yields
/// the same flowsets: the flowset sequence codec round-trips.
pub proof fn lemma_flow_sets_round_trip(vs: Seq<FlowSetV>)
    requires
        forall|i: int| 0 <= i < vs.len() ==> (#[trigger] vs[i]).wf(),
    ensures
        spec_parse_flow_sets(spec_flow_sets_bytes(vs)) == Ok::<_, NetFlowError>(
            (vs, Seq::<u8>::empty()),
        ),
    decreases vs.len(),
{
    if vs.len() == 0 {
        assert(spec_flow_sets_bytes(vs) =~= Seq::<u8>::empty());
        assert(vs =~= Seq::<FlowSetV>::empty());
    } else {
        let first = vs.first();
        let rest_vs = vs.drop_first();
        assert(first.wf());
        assert(forall|i: int|
            0 <= i < rest_vs.len() ==> (#[trigger] rest_vs[i]) == vs[i + 1] && vs[i + 1].wf());
        let rest_bytes = spec_flow_sets_bytes(rest_vs);
        lemma_flow_set_round_trip(first, rest_bytes);
        lemma_flow_sets_round_trip(rest_vs);
        let s = spec_flow_sets_bytes(vs);
        assert(s =~= first.spec_to_bytes() + rest_bytes);
        assert(seq![first] + rest_vs =~= vs);
    }
}

} // verus!
