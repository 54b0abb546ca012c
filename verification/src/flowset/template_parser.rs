//! The shared capability of the two template item kinds: identifying
//! themselves, measuring one record's byte width, and decoding records.

use super::record::{record_views, records_wf, spec_fields_bytes, Record, RecordV};
use crate::error::{NetFlowError, ParseResult};
use crate::field::{lemma_field_value_round_trip, spec_flow_field, FlowFieldV, TypeLengthField};
use vstd::prelude::*;

verus! {

/// The sum of the declared byte widths of the given template slots.
pub open spec fn sum_lengths(fields: Seq<TypeLengthField>) -> int
    decreases fields.len(),
{
    if fields.len() == 0 {
        0
    } else {
        fields.first().length + sum_lengths(fields.drop_first())
    }
}

pub proof fn lemma_sum_lengths_nonneg(fields: Seq<TypeLengthField>)
    ensures
        sum_lengths(fields) >= 0,
    decreases fields.len(),
{
    if fields.len() > 0 {
        lemma_sum_lengths_nonneg(fields.drop_first());
    }
}

pub proof fn lemma_sum_lengths_push(fields: Seq<TypeLengthField>, f: TypeLengthField)
    ensures
        sum_lengths(fields.push(f)) == sum_lengths(fields) + f.length,
    decreases fields.len(),
{
    if fields.len() == 0 {
        assert(fields.push(f).drop_first() =~= Seq::<TypeLengthField>::empty());
        assert(sum_lengths(Seq::<TypeLengthField>::empty()) == 0);
    } else {
        lemma_sum_lengths_push(fields.drop_first(), f);
        assert(fields.push(f).drop_first() =~= fields.drop_first().push(f));
        assert(fields.push(f).first() == fields.first());
    }
}

/// The sum over a prefix never exceeds the sum over the whole.
pub proof fn lemma_sum_lengths_split(fields: Seq<TypeLengthField>, k: int)
    requires
        0 <= k <= fields.len(),
    ensures
        sum_lengths(fields.take(k)) + sum_lengths(fields.skip(k)) == sum_lengths(fields),
    decreases k,
{
    if k == 0 {
        assert(fields.take(0) =~= Seq::<TypeLengthField>::empty());
        assert(sum_lengths(Seq::<TypeLengthField>::empty()) == 0);
        assert(fields.skip(0) =~= fields);
    } else {
        lemma_sum_lengths_split(fields.drop_first(), k - 1);
        assert(fields.take(k).first() == fields.first());
        assert(fields.take(k).drop_first() =~= fields.drop_first().take(k - 1));
        assert(fields.skip(k) =~= fields.drop_first().skip(k - 1));
    }
}

/// One record's fields read from the head of `s`: one decoded field per
/// template slot, each of its declared width, in order.
pub open spec fn spec_record_fields(fields: Seq<TypeLengthField>, s: Seq<u8>) -> Result<
    (Seq<FlowFieldV>, Seq<u8>),
    NetFlowError,
>
    decreases fields.len(),
{
    if fields.len() == 0 {
        Ok((Seq::empty(), s))
    } else {
        match spec_flow_field(fields.first().type_id, fields.first().length, s) {
            Ok((f, rest)) => match spec_record_fields(fields.drop_first(), rest) {
                Ok((v, r)) => Ok((seq![f] + v, r)),
                Err(e) => Err(e),
            },
            Err(e) => Err(e),
        }
    }
}

/// A successful record read consumes exactly the summed field widths, its
/// fields are canonical, and they re-encode to the consumed bytes.
pub proof fn lemma_record_fields_facts(fields: Seq<TypeLengthField>, s: Seq<u8>)
    ensures
        spec_record_fields(fields, s) matches Ok((v, rest)) ==> {
            &&& v.len() == fields.len()
            &&& 0 <= sum_lengths(fields) <= s.len()
            &&& rest == s.skip(sum_lengths(fields))
            &&& (forall|i: int|
                0 <= i < v.len() ==> (#[trigger] v[i]).wf() && v[i].type_id
                    == fields[i].type_id && v[i].length == fields[i].length)
            &&& spec_fields_bytes(v) == s.take(sum_lengths(fields))
        },
    decreases fields.len(),
{
    lemma_sum_lengths_nonneg(fields);
    if fields.len() == 0 {
        if spec_record_fields(fields, s) is Ok {
            assert(s.skip(0) =~= s);
            assert(spec_fields_bytes(Seq::<FlowFieldV>::empty()) =~= Seq::<u8>::empty());
            assert(s.take(0) =~= Seq::<u8>::empty());
        }
    } else {
        let t = fields.first();
        if spec_record_fields(fields, s) is Ok {
            let (f, rest1) = spec_flow_field(t.type_id, t.length, s)->Ok_0;
            lemma_field_value_round_trip(t.type_id, s.take(t.length as int), t.length);
            lemma_record_fields_facts(fields.drop_first(), rest1);
            let (v1, rest2) = spec_record_fields(fields.drop_first(), rest1)->Ok_0;
            let w1 = sum_lengths(fields.drop_first());
            assert(rest1 == s.skip(t.length as int));
            assert(s.skip(t.length as int).skip(w1) =~= s.skip(t.length + w1));
            let v = seq![f] + v1;
            assert forall|i: int| 0 <= i < v.len() implies (#[trigger] v[i]).wf() && v[i].type_id
                == fields[i].type_id && v[i].length == fields[i].length by {
                if i == 0 {
                    assert(v[0] == f);
                } else {
                    assert(v[i] == v1[i - 1]);
                    assert(fields.drop_first()[i - 1] == fields[i]);
                }
            }
            assert(spec_fields_bytes(v) == f.spec_to_bytes() + spec_fields_bytes(v1)) by {
                assert(v.first() == f);
                assert(v.drop_first() =~= v1);
            }
            assert(f.spec_to_bytes() == s.take(t.length as int));
            assert(spec_fields_bytes(v1) == rest1.take(w1));
            assert(s.take(t.length as int) + s.skip(t.length as int).take(w1) =~= s.take(
                t.length + w1,
            ));
        }
    }
}

/// Whether decoded fields line up with the template slots: one field per
/// slot, with the slot's type identifier and declared width.
pub open spec fn record_fields_match(fields: Seq<TypeLengthField>, fs: Seq<FlowFieldV>) -> bool {
    &&& fs.len() == fields.len()
    &&& forall|i: int|
        0 <= i < fs.len() ==> (#[trigger] fs[i]).type_id == fields[i].type_id && fs[i].length
            == fields[i].length
}

/// Canonical fields that line up with the template slots, followed by any
/// tail, decode back to themselves.
pub proof fn lemma_record_fields_round_trip(
    fields: Seq<TypeLengthField>,
    fs: Seq<FlowFieldV>,
    tail: Seq<u8>,
)
    requires
        record_fields_match(fields, fs),
        forall|i: int| 0 <= i < fs.len() ==> (#[trigger] fs[i]).wf(),
    ensures
        spec_fields_bytes(fs).len() == sum_lengths(fields),
        spec_record_fields(fields, spec_fields_bytes(fs) + tail) == Ok::<_, NetFlowError>(
            (fs, tail),
        ),
    decreases fields.len(),
{
    if fields.len() == 0 {
        assert(fs =~= Seq::<FlowFieldV>::empty());
        assert(spec_fields_bytes(fs) + tail =~= tail);
    } else {
        let f = fs.first();
        let t = fields.first();
        assert(f.wf());
        assert(f.type_id == t.type_id && f.length == t.length);
        let fs1 = fs.drop_first();
        assert(record_fields_match(fields.drop_first(), fs1)) by {
            assert forall|i: int| 0 <= i < fs1.len() implies (#[trigger] fs1[i]).type_id
                == fields.drop_first()[i].type_id && fs1[i].length
                == fields.drop_first()[i].length by {
                assert(fs1[i] == fs[i + 1]);
                assert(fields.drop_first()[i] == fields[i + 1]);
            }
        }
        assert(forall|i: int| 0 <= i < fs1.len() ==> (#[trigger] fs1[i]) == fs[i + 1]);
        lemma_record_fields_round_trip(fields.drop_first(), fs1, tail);
        crate::field::lemma_flow_field_round_trip(f, spec_fields_bytes(fs1) + tail);
        let s = spec_fields_bytes(fs) + tail;
        assert(spec_fields_bytes(fs) == f.spec_to_bytes() + spec_fields_bytes(fs1)) by {
            assert(fs.drop_first() =~= fs1);
        }
        assert(s =~= f.spec_to_bytes() + (spec_fields_bytes(fs1) + tail));
        assert(seq![f] + fs1 =~= fs);
    }
}

/// A template that data flowsets are decoded against.  Both template item
/// kinds expose this capability.
pub trait TemplateParser: Sized {
    /// The template id that data flowsets reference.
    spec fn spec_id(&self) -> u16;

    /// One record's byte width: the sum of the declared field widths.
    spec fn spec_width(&self) -> int;

    /// Internal consistency: the stored counts agree with the field lists
    /// and the item's wire size fits the 16-bit length fields.
    spec fn spec_wf(&self) -> bool;

    /// The record read from the head of `s` against this template, with the
    /// unconsumed remainder.
    spec fn spec_record(&self, s: Seq<u8>) -> Result<(RecordV, Seq<u8>), NetFlowError>;

    /// Whether a record has this template's shape: the right record kind,
    /// one field per slot, each with the slot's type and width.
    spec fn spec_matches(&self, rec: RecordV) -> bool;

    /// A successful record read consumes exactly the template's width,
    /// yields a record of this template's shape, and the record re-encodes
    /// to the consumed bytes.
    proof fn lemma_record_facts(&self, s: Seq<u8>)
        requires
            self.spec_wf(),
        ensures
            self.spec_record(s) matches Ok((rec, rest)) ==> {
                &&& 0 <= self.spec_width() <= s.len()
                &&& rest == s.skip(self.spec_width())
                &&& rec.wf()
                &&& self.spec_matches(rec)
                &&& rec.spec_to_bytes() == s.take(self.spec_width())
            },
    ;

    /// A canonical record of this template's shape, followed by any tail,
    /// decodes back to itself; its encoding has exactly the template width.
    proof fn lemma_record_round_trip(&self, rec: RecordV, tail: Seq<u8>)
        requires
            self.spec_wf(),
            self.spec_matches(rec),
            rec.wf(),
        ensures
            rec.spec_to_bytes().len() == self.spec_width(),
            self.spec_record(rec.spec_to_bytes() + tail) == Ok::<_, NetFlowError>((rec, tail)),
    ;

    /// The template id.
    fn get_id(&self) -> (r: u16)
        ensures
            r == self.spec_id(),
    ;

    /// One record's byte width.
    fn get_template_len(&self) -> (r: u16)
        requires
            self.spec_wf(),
            self.spec_width() <= 0xFFFF,
        ensures
            r == self.spec_width(),
    ;

    /// Decodes one record from the head of `payload`.
    fn parse_dataflow<'a>(&self, payload: &'a [u8]) -> (r: ParseResult<'a, Record>)
        requires
            self.spec_wf(),
        ensures
            match r {
                Ok((rest, rec)) => self.spec_record(payload@) == Ok::<_, NetFlowError>(
                    (rec@, rest@),
                ) && rec@.wf(),
                Err(e) => self.spec_record(payload@) == Err::<(RecordV, Seq<u8>), _>(e),
            },
    ;

}

/// `n` records read back to back from `s` against the template `t`.
pub open spec fn spec_records<T: TemplateParser>(t: T, n: nat, s: Seq<u8>) -> Result<
    (Seq<RecordV>, Seq<u8>),
    NetFlowError,
>
    decreases n,
{
    if n == 0 {
        Ok((Seq::empty(), s))
    } else {
        match t.spec_record(s) {
            Ok((rec, rest)) => match spec_records(t, (n - 1) as nat, rest) {
                Ok((v, r)) => Ok((seq![rec] + v, r)),
                Err(e) => Err(e),
            },
            Err(e) => Err(e),
        }
    }
}

/// The shared body of `parse_dataflows`: reads `length / width` records in
/// order, aborting on the first failure.
pub fn parse_records_against<'a, T: TemplateParser>(t: &T, length: u16, payload: &'a [u8]) -> (r:
    ParseResult<'a, Vec<Record>>)
    requires
        t.spec_wf(),
        0 < t.spec_width() <= 0xFFFF,
    ensures
        r matches Ok((rest, recs)) ==> spec_records(
            *t,
            (length as int / t.spec_width()) as nat,
            payload@,
        ) == Ok::<_, NetFlowError>((record_views(recs@), rest@)) && records_wf(
            record_views(recs@),
        ),
        r matches Err(e) ==> spec_records(*t, (length as int / t.spec_width()) as nat, payload@)
            == Err::<(Seq<RecordV>, Seq<u8>), _>(e),
{
    let width = t.get_template_len();
    let record_count = length / width;
    let ghost n0 = (length as int / t.spec_width()) as nat;
    let mut rest: &[u8] = payload;
    let mut record_vec: Vec<Record> = Vec::new();
    let mut i: u16 = 0;
    assert(record_views(record_vec@) =~= Seq::<RecordV>::empty());
    while i < record_count
        invariant
            t.spec_wf(),
            0 < t.spec_width() <= 0xFFFF,
            i <= record_count,
            n0 == record_count,
            n0 == length as int / t.spec_width(),
            records_wf(record_views(record_vec@)),
            spec_records(*t, n0, payload@) == (match spec_records(*t, (n0 - i) as nat, rest@) {
                Ok(p) => Ok::<_, NetFlowError>((record_views(record_vec@) + p.0, p.1)),
                Err(e) => Err::<(Seq<RecordV>, Seq<u8>), _>(e),
            }),
        decreases record_count - i,
    {
        match t.parse_dataflow(rest) {
            Ok((next, rec)) => {
                let ghost recs0 = record_vec@;
                record_vec.push(rec);
                rest = next;
                proof {
                    assert(record_views(record_vec@) =~= record_views(recs0).push(rec@));
                    assert forall|j: int|
                        0 <= j < record_views(record_vec@).len() implies (
                    #[trigger] record_views(record_vec@)[j]).wf() by {
                        if j < recs0.len() {
                            assert(record_views(record_vec@)[j] == record_views(recs0)[j]);
                        }
                    }
                    if spec_records(*t, (n0 - i - 1) as nat, next@) is Ok {
                        let p = spec_records(*t, (n0 - i - 1) as nat, next@)->Ok_0;
                        assert(record_views(recs0) + (seq![rec@] + p.0) =~= record_views(
                            record_vec@,
                        ) + p.0);
                    }
                }
                i = i + 1;
            },
            Err(e) => {
                proof {
                    assert(n0 - i >= 1);
                    assert(spec_records(*t, (n0 - i) as nat, rest@) == Err::<
                        (Seq<RecordV>, Seq<u8>),
                        NetFlowError,
                    >(e));
                    assert(spec_records(*t, n0, payload@) == Err::<
                        (Seq<RecordV>, Seq<u8>),
                        NetFlowError,
                    >(e));
                }
                return Err(e);
            },
        }
    }
    assert(rest@ =~= spec_records(*t, 0, rest@)->Ok_0.1);
    assert(record_views(record_vec@) + Seq::<RecordV>::empty() =~= record_views(record_vec@));
    Ok((rest, record_vec))
}

} // verus!
