//! Decoded records: the typed contents of one data or option-data instance.

use crate::field::{FlowField, FlowFieldV};
use vstd::prelude::*;

verus! {

/// The views of a sequence of decoded fields.
pub open spec fn flow_field_views(s: Seq<FlowField>) -> Seq<FlowFieldV> {
    Seq::new(s.len(), |i: int| s[i]@)
}

/// The concatenated wire form of a sequence of fields, in declared order.
pub open spec fn spec_fields_bytes(fs: Seq<FlowFieldV>) -> Seq<u8>
    decreases fs.len(),
{
    if fs.len() == 0 {
        Seq::empty()
    } else {
        fs.first().spec_to_bytes() + spec_fields_bytes(fs.drop_first())
    }
}

/// Appending one field appends its encoding.
pub proof fn lemma_fields_bytes_push(fs: Seq<FlowFieldV>, f: FlowFieldV)
    ensures
        spec_fields_bytes(fs.push(f)) == spec_fields_bytes(fs) + f.spec_to_bytes(),
    decreases fs.len(),
{
    if fs.len() == 0 {
        assert(fs.push(f).drop_first() =~= Seq::<FlowFieldV>::empty());
        assert(fs.push(f).first() == f);
        assert(spec_fields_bytes(Seq::<FlowFieldV>::empty()) =~= Seq::<u8>::empty());
        assert(spec_fields_bytes(fs.push(f)) =~= spec_fields_bytes(fs) + f.spec_to_bytes());
    } else {
        lemma_fields_bytes_push(fs.drop_first(), f);
        assert(fs.push(f).drop_first() =~= fs.drop_first().push(f));
        assert(fs.push(f).first() == fs.first());
        assert(spec_fields_bytes(fs.push(f)) =~= spec_fields_bytes(fs) + f.spec_to_bytes());
    }
}

/// Every field of the sequence is canonical.
pub open spec fn fields_wf(fs: Seq<FlowFieldV>) -> bool {
    forall|i: int| 0 <= i < fs.len() ==> (#[trigger] fs[i]).wf()
}

/// The views of a sequence of records.
pub open spec fn record_views(s: Seq<Record>) -> Seq<RecordV> {
    Seq::new(s.len(), |i: int| s[i]@)
}

/// Every record of the sequence is canonical.
pub open spec fn records_wf(rs: Seq<RecordV>) -> bool {
    forall|i: int| 0 <= i < rs.len() ==> (#[trigger] rs[i]).wf()
}

/// A record holding one data instance's decoded fields.
#[derive(Debug, Clone)]
pub struct DataRecord {
    pub fields: Vec<FlowField>,
}

/// A record holding one option-data instance's decoded scope and option
/// fields.
#[derive(Debug, Clone)]
pub struct OptionRecord {
    pub scope_fields: Vec<FlowField>,
    pub option_fields: Vec<FlowField>,
}

/// One decoded record: data or option data.
#[derive(Debug, Clone)]
pub enum Record {
    Data(DataRecord),
    OptionData(OptionRecord),
}

/// The mathematical model of a `Record`.
pub enum RecordV {
    Data { fields: Seq<FlowFieldV> },
    OptionData { scope_fields: Seq<FlowFieldV>, option_fields: Seq<FlowFieldV> },
}

impl View for Record {
    type V = RecordV;

    open spec fn view(&self) -> RecordV {
        match self {
            Record::Data(d) => RecordV::Data { fields: flow_field_views(d.fields@) },
            Record::OptionData(o) => RecordV::OptionData {
                scope_fields: flow_field_views(o.scope_fields@),
                option_fields: flow_field_views(o.option_fields@),
            },
        }
    }
}

impl RecordV {
    /// The wire form: every field's encoding, in declared order; for option
    /// data, scope fields first.
    pub open spec fn spec_to_bytes(self) -> Seq<u8> {
        match self {
            RecordV::Data { fields } => spec_fields_bytes(fields),
            RecordV::OptionData { scope_fields, option_fields } => spec_fields_bytes(scope_fields)
                + spec_fields_bytes(option_fields),
        }
    }

    /// Every field of the record is canonical.
    pub open spec fn wf(self) -> bool {
        match self {
            RecordV::Data { fields } => fields_wf(fields),
            RecordV::OptionData { scope_fields, option_fields } => fields_wf(scope_fields)
                && fields_wf(option_fields),
        }
    }
}

/// The concatenated encodings of the given fields.
pub fn fields_to_bytes(fields: &Vec<FlowField>) -> (r: Vec<u8>)
    ensures
        r@ == spec_fields_bytes(flow_field_views(fields@)),
{
    let ghost vs = flow_field_views(fields@);
    let mut bytes: Vec<u8> = Vec::new();
    assert(bytes@ =~= spec_fields_bytes(vs.take(0)));
    for i in 0..fields.len()
        invariant
            vs == flow_field_views(fields@),
            bytes@ == spec_fields_bytes(vs.take(i as int)),
    {
        let mut b = fields[i].to_bytes();
        bytes.append(&mut b);
        proof {
            assert(vs.take(i + 1) =~= vs.take(i as int).push(fields@[i as int]@));
            lemma_fields_bytes_push(vs.take(i as int), fields@[i as int]@);
        }
    }
    proof {
        assert(vs.take(fields@.len() as int) =~= vs);
    }
    bytes
}

impl Record {
    /// Wraps decoded fields as a data record.
    pub fn make_data(fields: Vec<FlowField>) -> (r: Record)
        ensures
            r@ == (RecordV::Data { fields: flow_field_views(fields@) }),
    {
        Record::Data(DataRecord { fields })
    }

    /// Wraps decoded scope and option fields as an option-data record.
    pub fn make_option(scopes: Vec<FlowField>, options: Vec<FlowField>) -> (r: Record)
        ensures
            r@ == (RecordV::OptionData {
                scope_fields: flow_field_views(scopes@),
                option_fields: flow_field_views(options@),
            }),
    {
        Record::OptionData(OptionRecord { scope_fields: scopes, option_fields: options })
    }

    /// The wire form of this record.
    pub fn to_bytes(&self) -> (r: Vec<u8>)
        ensures
            r@ == self@.spec_to_bytes(),
    {
        match self {
            Record::Data(data) => fields_to_bytes(&data.fields),
            Record::OptionData(option) => {
                let mut bytes = fields_to_bytes(&option.scope_fields);
                let mut tail = fields_to_bytes(&option.option_fields);
                bytes.append(&mut tail);
                bytes
            },
        }
    }

    /// The number of bytes `to_bytes` yields.
    pub fn byte_length(&self) -> (r: usize)
        ensures
            r == self@.spec_to_bytes().len(),
    {
        self.to_bytes().len()
    }
}

} // verus!
