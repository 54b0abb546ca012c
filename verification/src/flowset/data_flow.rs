//! The data flowset: raw record bytes when no template is known, or
//! template-decoded records, with 4-byte alignment padding.

use super::record::{record_views, records_wf, Record, RecordV};
use super::template_parser::{parse_records_against, spec_records, TemplateParser};
use crate::error::{NetFlowError, ParseResult};
use crate::util::{be_bytes, be_val, lemma_be_bytes_len, lemma_be_bytes_zero,
    lemma_be_val_be_bytes, lemma_be_val_bound, pow256, take_u16, u16_to_bytes, write_be};
use vstd::arithmetic::div_mod::{lemma_fundamental_div_mod, lemma_fundamental_div_mod_converse_div,
    lemma_fundamental_div_mod_converse_mod};
use vstd::prelude::*;
use vstd::slice::{slice_subrange, slice_to_vec};

verus! {

/// The concatenated wire form of a sequence of records.
pub open spec fn spec_records_bytes(recs: Seq<RecordV>) -> Seq<u8>
    decreases recs.len(),
{
    if recs.len() == 0 {
        Seq::empty()
    } else {
        recs.first().spec_to_bytes() + spec_records_bytes(recs.drop_first())
    }
}

/// Appending one record appends its encoding.
pub proof fn lemma_records_bytes_push(recs: Seq<RecordV>, rec: RecordV)
    ensures
        spec_records_bytes(recs.push(rec)) == spec_records_bytes(recs) + rec.spec_to_bytes(),
    decreases recs.len(),
{
    if recs.len() == 0 {
        assert(recs.push(rec).drop_first() =~= Seq::<RecordV>::empty());
        assert(recs.push(rec).first() == rec);
        assert(spec_records_bytes(Seq::<RecordV>::empty()) =~= Seq::<u8>::empty());
        assert(spec_records_bytes(recs.push(rec)) =~= spec_records_bytes(recs)
            + rec.spec_to_bytes());
    } else {
        lemma_records_bytes_push(recs.drop_first(), rec);
        assert(recs.push(rec).drop_first() =~= recs.drop_first().push(rec));
        assert(recs.push(rec).first() == recs.first());
        assert(spec_records_bytes(recs.push(rec)) =~= spec_records_bytes(recs)
            + rec.spec_to_bytes());
    }
}

/// `n` records read against a well-formed template consume exactly
/// `n * width` bytes, are canonical, and re-encode to the consumed bytes.
pub proof fn lemma_spec_records_facts<T: TemplateParser>(t: T, n: nat, s: Seq<u8>)
    requires
        t.spec_wf(),
    ensures
        spec_records(t, n, s) matches Ok((recs, rest)) ==> {
            &&& recs.len() == n
            &&& 0 <= n * t.spec_width() <= s.len()
            &&& rest == s.skip(n * t.spec_width())
            &&& records_wf(recs)
            &&& spec_records_bytes(recs) == s.take(n * t.spec_width())
        },
    decreases n,
{
    let w = t.spec_width();
    if n == 0 {
        if spec_records(t, n, s) is Ok {
            assert(n * w == 0) by (nonlinear_arith)
                requires
                    n == 0,
            ;
            assert(s.skip(0) =~= s);
            assert(spec_records_bytes(Seq::<RecordV>::empty()) =~= Seq::<u8>::empty());
            assert(s.take(0) =~= Seq::<u8>::empty());
        }
    } else if spec_records(t, n, s) is Ok {
        t.lemma_record_facts(s);
        let (rec, rest1) = t.spec_record(s)->Ok_0;
        lemma_spec_records_facts(t, (n - 1) as nat, rest1);
        let (v1, rest2) = spec_records(t, (n - 1) as nat, rest1)->Ok_0;
        assert(n * w == w + (n - 1) * w) by (nonlinear_arith);
        assert((n - 1) * w >= 0) by (nonlinear_arith)
            requires
                n >= 1,
                w >= 0,
        ;
        let recs = seq![rec] + v1;
        assert(recs.first() == rec);
        assert(recs.drop_first() =~= v1);
        assert(s.skip(w).skip((n - 1) * w) =~= s.skip(n * w));
        assert forall|i: int| 0 <= i < recs.len() implies (#[trigger] recs[i]).wf() by {
            if i > 0 {
                assert(recs[i] == v1[i - 1]);
            }
        }
        assert(spec_records_bytes(recs) == rec.spec_to_bytes() + spec_records_bytes(v1));
        assert(rec.spec_to_bytes() == s.take(w));
        assert(spec_records_bytes(v1) == rest1.take((n - 1) * w));
        assert(s.take(w) + s.skip(w).take((n - 1) * w) =~= s.take(n * w));
    }
}

/// Canonical records of the template's shape, encoded back to back and
/// followed by any tail, decode back to themselves.
pub proof fn lemma_spec_records_round_trip<T: TemplateParser>(t: T, recs: Seq<RecordV>, tail: Seq<
    u8,
>)
    requires
        t.spec_wf(),
        forall|i: int| 0 <= i < recs.len() ==> (#[trigger] recs[i]).wf(),
        forall|i: int| 0 <= i < recs.len() ==> t.spec_matches(#[trigger] recs[i]),
    ensures
        spec_records_bytes(recs).len() == recs.len() * t.spec_width(),
        spec_records(t, recs.len(), spec_records_bytes(recs) + tail) == Ok::<_, NetFlowError>(
            (recs, tail),
        ),
    decreases recs.len(),
{
    if recs.len() == 0 {
        assert(spec_records_bytes(recs) + tail =~= tail);
        assert(recs =~= Seq::<RecordV>::empty());
        assert(recs.len() * t.spec_width() == 0) by (nonlinear_arith)
            requires
                recs.len() == 0,
        ;
    } else {
        let first = recs.first();
        let rest = recs.drop_first();
        assert(first.wf() && t.spec_matches(first));
        assert(forall|i: int|
            0 <= i < rest.len() ==> (#[trigger] rest[i]) == recs[i + 1] && recs[i + 1].wf()
                && t.spec_matches(recs[i + 1]));
        lemma_spec_records_round_trip(t, rest, tail);
        t.lemma_record_round_trip(first, spec_records_bytes(rest) + tail);
        let s = spec_records_bytes(recs) + tail;
        assert(s =~= first.spec_to_bytes() + (spec_records_bytes(rest) + tail));
        assert(seq![first] + rest =~= recs);
        assert(recs.len() * t.spec_width() == t.spec_width() + rest.len() * t.spec_width())
            by (nonlinear_arith)
            requires
                recs.len() >= 1,
                rest.len() == recs.len() - 1,
        ;
    }
}

/// A canonical template-decoded data flowset with respect to template `t`:
/// the records have the template's shape, the kept raw record area is their
/// encoding plus the zero padding, the declared length covers exactly that,
/// the padding is shorter than one record, and the padding flag agrees with
/// the length's alignment.  Decoding a standard wire image (whole records,
/// zero padding shorter than a record) produces such a value.
pub open spec fn data_flow_records_wf<T: TemplateParser>(t: T, v: DataFlowV) -> bool {
    let recs = v.records->0;
    let w = t.spec_width();
    &&& v.records is Some
    &&& records_wf(recs)
    &&& (forall|i: int| 0 <= i < recs.len() ==> t.spec_matches(#[trigger] recs[i]))
    &&& v.record_bytes == spec_records_bytes(recs) + v.spec_pad()
    &&& v.length == 4 + spec_records_bytes(recs).len() + v.spec_pad().len()
    &&& v.spec_pad().len() < w
    &&& (!v.is_padding ==> spec_records_bytes(recs).len() % 4 != 0)
}

/// An encoded canonical template-decoded data flowset, decoded against a
/// template list whose first match for its flowset id is the template it
/// was built from, yields the flowset back: the template-driven record
/// codec round-trips.
pub proof fn lemma_data_flow_records_round_trip<T: TemplateParser>(
    ts: Seq<T>,
    v: DataFlowV,
    tail: Seq<u8>,
)
    requires
        find_template_idx(ts, v.flowset_id) >= 0,
        ts[find_template_idx(ts, v.flowset_id)].spec_wf(),
        ts[find_template_idx(ts, v.flowset_id)].spec_width() > 0,
        data_flow_records_wf(ts[find_template_idx(ts, v.flowset_id)], v),
    ensures
        spec_parse_data_flow_with(ts, v.spec_to_bytes() + tail) == Ok::<_, NetFlowError>(
            (v, tail),
        ),
{
    let idx = find_template_idx(ts, v.flowset_id);
    let t = ts[idx];
    let w = t.spec_width();
    let recs = v.records->0;
    let k = recs.len() as int;
    let pad = v.spec_pad();
    lemma_spec_records_round_trip(t, recs, pad + tail);
    let data = spec_records_bytes(recs);
    let body = v.spec_data() + pad;
    assert(v.spec_data() == data);
    let s = v.spec_to_bytes() + tail;
    lemma_be_bytes_len(v.flowset_id as nat, 2);
    lemma_be_bytes_len((body.len() + 4) as nat, 2);
    assert(pow256(2) == 0x10000) by {
        reveal_with_fuel(pow256, 3);
    }
    lemma_be_val_be_bytes(v.flowset_id as nat, 2);
    lemma_be_val_be_bytes((body.len() + 4) as nat, 2);
    assert(s.subrange(0, 2) =~= be_bytes(v.flowset_id as nat, 2));
    assert(s.subrange(2, 4) =~= be_bytes((body.len() + 4) as nat, 2));
    assert(v.length == body.len() + 4);
    assert(s.skip(4) =~= data + (pad + tail));
    assert((v.length - 4) as int == k * w + pad.len());
    lemma_fundamental_div_mod_converse_div(k * w + pad.len() as int, w, k, pad.len() as int);
    lemma_fundamental_div_mod_converse_mod(k * w + pad.len() as int, w, k, pad.len() as int);
    assert((v.length - 4) as int / w == k);
    assert((v.length - 4) as int % w == pad.len());
    assert(spec_records(t, ((v.length - 4) as int / w) as nat, s.skip(4)) == Ok::<
        _,
        NetFlowError,
    >((recs, pad + tail)));
    let r2 = pad + tail;
    assert(r2.skip(pad.len() as int) =~= tail);
    assert(s.subrange(4, v.length as int) =~= data + pad);
    assert(v.record_bytes == s.subrange(4, v.length as int));
    // the padding flag survives the round trip
    if v.is_padding {
        if data.len() % 4 == 0 {
            assert(pad.len() == 0);
            assert(v.length % 4 == 0);
        } else {
            assert(pad.len() != 0);
        }
    } else {
        assert(pad.len() == 0);
        assert(v.length % 4 != 0);
    }
}

/// The index of the first template in `ts` whose id is `id`, or a negative
/// value when none matches.
pub open spec fn find_template_idx<T: TemplateParser>(ts: Seq<T>, id: u16) -> int
    decreases ts.len(),
{
    if ts.len() == 0 {
        -1
    } else if ts.first().spec_id() == id {
        0
    } else {
        let r = find_template_idx(ts.drop_first(), id);
        if r < 0 {
            -1
        } else {
            r + 1
        }
    }
}

/// The found index is the first match; a negative result means no match.
pub proof fn lemma_find_template_idx<T: TemplateParser>(ts: Seq<T>, id: u16)
    ensures
        find_template_idx(ts, id) >= 0 ==> {
            &&& find_template_idx(ts, id) < ts.len()
            &&& ts[find_template_idx(ts, id)].spec_id() == id
            &&& forall|j: int|
                0 <= j < find_template_idx(ts, id) ==> (#[trigger] ts[j]).spec_id() != id
        },
        find_template_idx(ts, id) < 0 ==> forall|j: int|
            0 <= j < ts.len() ==> (#[trigger] ts[j]).spec_id() != id,
    decreases ts.len(),
{
    if ts.len() > 0 && ts.first().spec_id() != id {
        lemma_find_template_idx(ts.drop_first(), id);
        let r = find_template_idx(ts.drop_first(), id);
        assert forall|j: int| 0 <= j < ts.len() && (r < 0 || j < r + 1) implies (
        #[trigger] ts[j]).spec_id() != id by {
            if j > 0 {
                assert(ts[j] == ts.drop_first()[j - 1]);
            }
        }
    }
}

/// A decoded data flowset.  It holds either raw record bytes (no template
/// was available) or template-decoded records, never neither; the raw bytes
/// of the record area are kept in both cases.
#[derive(Debug, Clone)]
pub struct DataFlow {
    pub flowset_id: u16,
    pub length: u16,
    pub record_bytes: Vec<u8>,
    pub records: Option<Vec<Record>>,
    pub is_padding: bool,
}

/// The mathematical model of a `DataFlow`.
pub struct DataFlowV {
    pub flowset_id: u16,
    pub length: u16,
    pub record_bytes: Seq<u8>,
    pub records: Option<Seq<RecordV>>,
    pub is_padding: bool,
}

impl View for DataFlow {
    type V = DataFlowV;

    open spec fn view(&self) -> DataFlowV {
        DataFlowV {
            flowset_id: self.flowset_id,
            length: self.length,
            record_bytes: self.record_bytes@,
            records: match &self.records {
                Some(recs) => Some(record_views(recs@)),
                None => None,
            },
            is_padding: self.is_padding,
        }
    }
}

impl DataFlowV {
    /// The record area that re-encoding emits: the records' encodings when
    /// they were decoded, else the raw bytes.
    pub open spec fn spec_data(self) -> Seq<u8> {
        match self.records {
            Some(recs) => spec_records_bytes(recs),
            None => self.record_bytes,
        }
    }

    /// The zero bytes that align the flowset to 4 bytes when the padding
    /// flag is set.
    pub open spec fn spec_pad(self) -> Seq<u8> {
        if self.is_padding {
            Seq::new(((4 - self.spec_data().len() % 4) % 4) as nat, |i: int| 0u8)
        } else {
            Seq::empty()
        }
    }

    /// The wire form: flowset id, a length recomputed from the record area
    /// and the padding, then the record area and the padding.
    pub open spec fn spec_to_bytes(self) -> Seq<u8> {
        let body = self.spec_data() + self.spec_pad();
        be_bytes(self.flowset_id as nat, 2) + be_bytes((body.len() + 4) as nat, 2) + body
    }

    /// A canonical template-less data flowset, as template-less decoding
    /// produces it: raw bytes only, a length that covers them exactly, and
    /// the padding flag derived from the length's alignment.
    pub open spec fn wf_raw(self) -> bool {
        &&& self.records is None
        &&& self.length == 4 + self.record_bytes.len()
        &&& self.is_padding == (self.length % 4 == 0)
    }
}

/// A data flowset read from the head of `s` with no template available:
/// the record area is kept opaque.  The declared length must cover its own
/// header and be covered by the input.
pub open spec fn spec_parse_data_flow_raw(s: Seq<u8>) -> Result<
    (DataFlowV, Seq<u8>),
    NetFlowError,
> {
    if s.len() < 4 {
        Err(NetFlowError::UnexpectedIncomplete)
    } else {
        let flowset_id = be_val(s.subrange(0, 2)) as u16;
        let length = be_val(s.subrange(2, 4)) as u16;
        if length < 4 || s.len() < length {
            Err(NetFlowError::InvalidLength)
        } else {
            Ok(
                (
                    DataFlowV {
                        flowset_id,
                        length,
                        record_bytes: s.subrange(4, length as int),
                        records: None,
                        is_padding: length % 4 == 0,
                    },
                    s.skip(length as int),
                ),
            )
        }
    }
}

/// A data flowset read from the head of `s` against the templates `ts`:
/// the template whose id equals the flowset id decodes
/// `(length - 4) / width` records, and the remainder of the record area is
/// consumed as padding.  Fails with `TemplateNotFound` when no id matches.
pub open spec fn spec_parse_data_flow_with<T: TemplateParser>(ts: Seq<T>, s: Seq<u8>) -> Result<
    (DataFlowV, Seq<u8>),
    NetFlowError,
> {
    if s.len() < 4 {
        Err(NetFlowError::UnexpectedIncomplete)
    } else {
        let flowset_id = be_val(s.subrange(0, 2)) as u16;
        let length = be_val(s.subrange(2, 4)) as u16;
        let idx = find_template_idx(ts, flowset_id);
        if idx < 0 {
            Err(NetFlowError::TemplateNotFound)
        } else if length < 4 {
            Err(NetFlowError::InvalidLength)
        } else {
            let t = ts[idx];
            let count = ((length - 4) as int / t.spec_width()) as nat;
            match spec_records(t, count, s.skip(4)) {
                Ok((recs, r2)) => {
                    let padding = (length - 4) as int % t.spec_width();
                    if r2.len() < padding {
                        Err(NetFlowError::InvalidLength)
                    } else {
                        Ok(
                            (
                                DataFlowV {
                                    flowset_id,
                                    length,
                                    record_bytes: s.subrange(4, length as int),
                                    records: Some(recs),
                                    is_padding: padding != 0 || length % 4 == 0,
                                },
                                r2.skip(padding),
                            ),
                        )
                    }
                },
                Err(e) => Err(e),
            }
        }
    }
}

impl DataFlow {
    /// A data flowset over already-decoded records, with padding enabled;
    /// the length field is the wire length the encoder emits: the 4-byte
    /// flowset header, the records' encodings, and the zero bytes that
    /// align them to a 4-byte boundary.
    pub fn new(flowset_id: u16, records: Vec<Record>) -> (r: DataFlow)
        requires
            spec_records_bytes(record_views(records@)).len() + 8 <= 0xFFFF,
        ensures
            r@ == (DataFlowV {
                flowset_id,
                length: (4 + spec_records_bytes(record_views(records@)).len() + (4
                    - spec_records_bytes(record_views(records@)).len() % 4) % 4) as u16,
                record_bytes: spec_records_bytes(record_views(records@)),
                records: Some(record_views(records@)),
                is_padding: true,
            }),
    {
        let bytes = records_to_bytes(&records);
        let pad_len = (4 - bytes.len() % 4) % 4;
        let length = (bytes.len() + pad_len + 4) as u16;
        DataFlow { flowset_id, length, record_bytes: bytes, records: Some(records), is_padding: true }
    }

    /// Decodes a data flowset with no template available: the record area
    /// is kept as opaque bytes and `records` is absent.
    pub fn from_bytes_notemplate(data: &[u8]) -> (r: ParseResult<DataFlow>)
        ensures
            match r {
                Ok((rest, df)) => spec_parse_data_flow_raw(data@) == Ok::<_, NetFlowError>(
                    (df@, rest@),
                ) && df@.wf_raw(),
                Err(e) => spec_parse_data_flow_raw(data@) == Err::<(DataFlowV, Seq<u8>), _>(e),
            },
    {
        match take_u16(data) {
            Err(e) => Err(e),
            Ok((r1, flowset_id)) => match take_u16(r1) {
                Err(e) => {
                    proof {
                        if data@.len() >= 4 {
                            assert(r1@.len() >= 2);
                        }
                    }
                    Err(e)
                },
                Ok((r2, length)) => {
                    proof {
                        lemma_be_val_bound(data@.subrange(0, 2));
                        lemma_be_val_bound(data@.subrange(2, 4));
                        assert(pow256(2) == 0x10000) by {
                            reveal_with_fuel(pow256, 3);
                        }
                        assert(r1@.subrange(0, 2) =~= data@.subrange(2, 4));
                        assert(r2@ =~= data@.skip(4));
                    }
                    if length < 4 || data.len() < length as usize {
                        Err(NetFlowError::InvalidLength)
                    } else {
                        let record_len = (length - 4) as usize;
                        let record_bytes = slice_subrange(r2, 0, record_len);
                        let rest = slice_subrange(r2, record_len, r2.len());
                        proof {
                            assert(r2@.subrange(0, record_len as int) =~= data@.subrange(
                                4,
                                length as int,
                            ));
                            assert(r2@.subrange(record_len as int, r2@.len() as int) =~= data@.skip(
                                length as int,
                            ));
                        }
                        Ok(
                            (
                                rest,
                                DataFlow {
                                    flowset_id,
                                    length,
                                    record_bytes: slice_to_vec(record_bytes),
                                    records: None,
                                    is_padding: length % 4 == 0,
                                },
                            ),
                        )
                    }
                },
            },
        }
    }

    /// Decodes a data flowset against a caller-supplied template list: the
    /// template whose id equals the flowset id drives the record codec.
    #[verifier::spinoff_prover]
    pub fn from_bytes<'a, T: TemplateParser>(data: &'a [u8], templates: &'a [T]) -> (r:
        ParseResult<'a, DataFlow>)
        requires
            forall|i: int|
                0 <= i < templates@.len() ==> (#[trigger] templates@[i]).spec_wf() && 0
                    < templates@[i].spec_width() <= 0xFFFF,
        ensures
            match r {
                Ok((rest, df)) => spec_parse_data_flow_with(templates@, data@) == Ok::<
                    _,
                    NetFlowError,
                >((df@, rest@)) && (df@.records matches Some(recs) && records_wf(recs)),
                Err(e) => spec_parse_data_flow_with(templates@, data@) == Err::<
                    (DataFlowV, Seq<u8>),
                    _,
                >(e),
            },
    {
        match take_u16(data) {
            Err(e) => Err(e),
            Ok((r1, flowset_id)) => match take_u16(r1) {
                Err(e) => {
                    proof {
                        if data@.len() >= 4 {
                            assert(r1@.len() >= 2);
                        }
                    }
                    Err(e)
                },
                Ok((r2, length)) => {
                    proof {
                        lemma_be_val_bound(data@.subrange(0, 2));
                        lemma_be_val_bound(data@.subrange(2, 4));
                        assert(pow256(2) == 0x10000) by {
                            reveal_with_fuel(pow256, 3);
                        }
                        assert(r1@.subrange(0, 2) =~= data@.subrange(2, 4));
                        assert(r2@ =~= data@.skip(4));
                        lemma_find_template_idx(templates@, flowset_id);
                    }
                    let ghost gidx = find_template_idx(templates@, flowset_id);
                    let n = templates.len();
                    let mut idx: usize = 0;
                    let mut found = false;
                    while idx < n && !found
                        invariant
                            n == templates@.len(),
                            idx <= n,
                            found ==> idx < n && templates@[idx as int].spec_id() == flowset_id
                                && (forall|j: int|
                                0 <= j < idx ==> (#[trigger] templates@[j]).spec_id()
                                    != flowset_id),
                            !found ==> forall|j: int|
                                0 <= j < idx ==> (#[trigger] templates@[j]).spec_id() != flowset_id,
                        decreases n - idx + (if found { 0int } else { 1int }),
                    {
                        if slice_index_get_ref(templates, idx).get_id() == flowset_id {
                            found = true;
                        } else {
                            idx = idx + 1;
                        }
                    }
                    if !found {
                        proof {
                            assert(gidx < 0);
                        }
                        Err(NetFlowError::TemplateNotFound)
                    } else {
                        proof {
                            assert(gidx == idx);
                        }
                        let template = slice_index_get_ref(templates, idx);
                        if length < 4 {
                            Err(NetFlowError::InvalidLength)
                        } else {
                            let ghost w = template.spec_width();
                            let width = template.get_template_len();
                            match parse_records_against(template, length - 4, r2) {
                                Err(e) => Err(e),
                                Ok((after_records, records)) => {
                                    let ghost count = ((length - 4) as int / w) as nat;
                                    proof {
                                        lemma_spec_records_facts(
                                            *template,
                                            count,
                                            data@.skip(4),
                                        );
                                        lemma_fundamental_div_mod((length - 4) as int, w);
                                    }
                                    let padding = ((length - 4) % width) as usize;
                                    if after_records.len() < padding {
                                        Err(NetFlowError::InvalidLength)
                                    } else {
                                        proof {
                                            assert((length - 4) as int == count * w + padding);
                                            assert(count * w <= data@.skip(4).len());
                                            assert(after_records@ == data@.skip(4).skip(
                                                count * w,
                                            ));
                                            assert(r2@.len() >= (length - 4) as int);
                                        }
                                        let rest = slice_subrange(
                                            after_records,
                                            padding,
                                            after_records.len(),
                                        );
                                        let record_bytes = slice_subrange(
                                            r2,
                                            0,
                                            (length - 4) as usize,
                                        );
                                        proof {
                                            assert(after_records@.subrange(
                                                padding as int,
                                                after_records@.len() as int,
                                            ) =~= after_records@.skip(padding as int));
                                            assert(r2@.subrange(0, (length - 4) as int)
                                                =~= data@.subrange(4, length as int));
                                        }
                                        let is_padding = padding != 0 || length % 4 == 0;
                                        Ok(
                                            (
                                                rest,
                                                DataFlow {
                                                    flowset_id,
                                                    length,
                                                    record_bytes: slice_to_vec(record_bytes),
                                                    records: Some(records),
                                                    is_padding,
                                                },
                                            ),
                                        )
                                    }
                                },
                            }
                        }
                    }
                },
            },
        }
    }

    /// The stray bytes after the last whole record in a record area of
    /// `payload_len - 4` bytes: what decoding treats as padding.
    pub fn get_padding_size(payload_len: u16, template_len: u16) -> (r: u16)
        requires
            payload_len >= 4,
            template_len > 0,
        ensures
            r == (payload_len - 4) as int % template_len as int,
    {
        (payload_len - 4) % template_len
    }

    /// Skips the padding that `get_padding_size` measures.
    pub fn remove_padding<'a>(length: u16, template_len: u16, payload: &'a [u8]) -> (r: &'a [u8])
        requires
            length >= 4,
            template_len > 0,
            payload@.len() >= (length - 4) as int % template_len as int,
        ensures
            r@ == payload@.skip((length - 4) as int % template_len as int),
    {
        let padding = Self::get_padding_size(length, template_len);
        let r = slice_subrange(payload, padding as usize, payload.len());
        proof {
            assert(payload@.subrange(padding as int, payload@.len() as int) =~= payload@.skip(
                padding as int,
            ));
        }
        r
    }

    /// Whether re-encoding will align the flowset with zero bytes.
    pub fn is_padding(&self) -> (r: bool)
        ensures
            r == self@.is_padding,
    {
        self.is_padding
    }

    /// Sets the padding flag: the round-trip control knob.
    pub fn set_padding(&mut self, is_padding: bool)
        ensures
            final(self)@ == (DataFlowV {
                flowset_id: old(self)@.flowset_id,
                length: old(self)@.length,
                record_bytes: old(self)@.record_bytes,
                records: old(self)@.records,
                is_padding,
            }),
    {
        self.is_padding = is_padding;
    }

    /// The wire form: flowset id, recomputed length, the record area, then
    /// zero padding to a 4-byte boundary when the padding flag is set.
    pub fn to_bytes(&self) -> (r: Vec<u8>)
        requires
            4 + self@.spec_data().len() + self@.spec_pad().len() <= 0xFFFF,
        ensures
            r@ == self@.spec_to_bytes(),
    {
        let mut bytes = u16_to_bytes(self.flowset_id);
        let mut body: Vec<u8> = match &self.records {
            Some(records) => records_to_bytes(records),
            None => slice_to_vec(self.record_bytes.as_slice()),
        };
        if self.is_padding {
            let pad_len = (4 - body.len() % 4) % 4;
            let mut pad = write_be(0, pad_len);
            proof {
                lemma_be_bytes_zero(pad_len as nat);
            }
            body.append(&mut pad);
        }
        proof {
            assert(body@ =~= self@.spec_data() + self@.spec_pad());
        }
        let mut length_bytes = u16_to_bytes((body.len() + 4) as u16);
        bytes.append(&mut length_bytes);
        bytes.append(&mut body);
        proof {
            assert(bytes@ =~= self@.spec_to_bytes());
        }
        bytes
    }

    /// The number of bytes `to_bytes` yields.
    pub fn byte_length(&self) -> (r: usize)
        requires
            4 + self@.spec_data().len() + self@.spec_pad().len() <= 0xFFFF,
        ensures
            r == self@.spec_to_bytes().len(),
    {
        self.to_bytes().len()
    }
}

/// Reads one element of a slice by reference.
fn slice_index_get_ref<T>(s: &[T], i: usize) -> (r: &T)
    requires
        i < s@.len(),
    ensures
        *r == s@[i as int],
{
    vstd::slice::slice_index_get(s, i)
}

/// The concatenated encodings of the given records.
fn records_to_bytes(records: &Vec<Record>) -> (r: Vec<u8>)
    ensures
        r@ == spec_records_bytes(record_views(records@)),
{
    let ghost vs = record_views(records@);
    let mut bytes: Vec<u8> = Vec::new();
    let mut i: usize = 0;
    proof {
        assert(vs.take(0) =~= Seq::<RecordV>::empty());
        assert(bytes@ =~= spec_records_bytes(vs.take(0)));
    }
    while i < records.len()
        invariant
            vs == record_views(records@),
            i <= vs.len(),
            bytes@ == spec_records_bytes(vs.take(i as int)),
        decreases vs.len() - i,
    {
        let mut b = records[i].to_bytes();
        bytes.append(&mut b);
        proof {
            assert(vs.take(i + 1) =~= vs.take(i as int).push(records@[i as int]@));
            lemma_records_bytes_push(vs.take(i as int), records@[i as int]@);
        }
        i = i + 1;
    }
    proof {
        assert(vs.take(vs.len() as int) =~= vs);
    }
    bytes
}

/// An encoded canonical template-less data flowset, decoded with any
/// trailing bytes, yields the flowset back: encode is a right inverse of
/// template-less decode.
pub proof fn lemma_data_flow_raw_round_trip(v: DataFlowV, tail: Seq<u8>)
    requires
        v.wf_raw(),
    ensures
        spec_parse_data_flow_raw(v.spec_to_bytes() + tail) == Ok::<_, NetFlowError>((v, tail)),
{
    let s = v.spec_to_bytes() + tail;
    lemma_be_bytes_len(v.flowset_id as nat, 2);
    assert(v.spec_pad() =~= Seq::<u8>::empty());
    let body = v.spec_data() + v.spec_pad();
    assert(body =~= v.record_bytes);
    lemma_be_bytes_len((body.len() + 4) as nat, 2);
    assert(pow256(2) == 0x10000) by {
        reveal_with_fuel(pow256, 3);
    }
    lemma_be_val_be_bytes(v.flowset_id as nat, 2);
    lemma_be_val_be_bytes((body.len() + 4) as nat, 2);
    assert(s.subrange(0, 2) =~= be_bytes(v.flowset_id as nat, 2));
    assert(s.subrange(2, 4) =~= be_bytes((body.len() + 4) as nat, 2));
    assert(s.subrange(4, v.length as int) =~= v.record_bytes);
    assert(s.skip(v.length as int) =~= tail);
}

} // verus!
