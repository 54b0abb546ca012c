//! The NetFlow v9 packet: a fixed 20-byte header followed by an ordered
//! sequence of flowsets.

use crate::error::NetFlowError;
use crate::flowset::{flow_set_views, lemma_flow_sets_bytes_push, lemma_flow_sets_round_trip,
    spec_flow_sets_bytes, spec_parse_flow_sets, FlowSet, FlowSetV, OptionTemplateV, DataFlowV};
use crate::util::{be_bytes, be_val, lemma_be_bytes_len, lemma_be_val_be_bytes,
    lemma_be_val_bound, pow256, take_u16, take_u32, u16_to_bytes, u32_to_bytes};
use vstd::prelude::*;

verus! {

/// A decoded NetFlow v9 packet: the header fields and the flowsets.  The
/// `count` field is carried from the wire and is not validated against the
/// number of flowsets.
#[derive(Debug, Clone)]
pub struct NetFlow9 {
    pub version: u16,
    pub count: u16,
    pub sys_uptime: u32,
    pub timestamp: u32,
    pub flow_sequence: u32,
    pub source_id: u32,
    pub flow_sets: Vec<FlowSet>,
}

/// The mathematical model of a `NetFlow9` packet.
pub struct NetFlow9V {
    pub version: u16,
    pub count: u16,
    pub sys_uptime: u32,
    pub timestamp: u32,
    pub flow_sequence: u32,
    pub source_id: u32,
    pub flow_sets: Seq<FlowSetV>,
}

impl View for NetFlow9 {
    type V = NetFlow9V;

    open spec fn view(&self) -> NetFlow9V {
        NetFlow9V {
            version: self.version,
            count: self.count,
            sys_uptime: self.sys_uptime,
            timestamp: self.timestamp,
            flow_sequence: self.flow_sequence,
            source_id: self.source_id,
            flow_sets: flow_set_views(self.flow_sets@),
        }
    }
}

impl NetFlow9V {
    /// The wire form: the 20-byte header, then each flowset's encoding.
    pub open spec fn spec_to_bytes(self) -> Seq<u8> {
        be_bytes(self.version as nat, 2) + be_bytes(self.count as nat, 2) + be_bytes(
            self.sys_uptime as nat,
            4,
        ) + be_bytes(self.timestamp as nat, 4) + be_bytes(self.flow_sequence as nat, 4) + be_bytes(
            self.source_id as nat,
            4,
        ) + spec_flow_sets_bytes(self.flow_sets)
    }

    /// A canonical packet: version 9 with canonical flowsets.  Every
    /// decoded packet satisfies this up to each flowset's own canonicity.
    pub open spec fn wf(self) -> bool {
        &&& self.version == 9
        &&& forall|i: int| 0 <= i < self.flow_sets.len() ==> (#[trigger] self.flow_sets[i]).wf()
    }

    /// Whether every flowset's encoded length fields can hold its size.
    pub open spec fn encodable(self) -> bool {
        forall|i: int|
            0 <= i < self.flow_sets.len() ==> (#[trigger] self.flow_sets[i]).encodable()
    }
}

/// A packet decoded from `payload`: a version field that must equal 9, the
/// remaining header fields, then flowsets until the input is exhausted.
pub open spec fn spec_parse_netflow(s: Seq<u8>) -> Result<NetFlow9V, NetFlowError> {
    if s.len() < 2 {
        Err(NetFlowError::UnexpectedIncomplete)
    } else {
        let version = be_val(s.subrange(0, 2)) as u16;
        if version == 9 {
            if s.len() < 20 {
                Err(NetFlowError::UnexpectedIncomplete)
            } else {
                let count = be_val(s.subrange(2, 4)) as u16;
                let sys_uptime = be_val(s.subrange(4, 8)) as u32;
                let timestamp = be_val(s.subrange(8, 12)) as u32;
                let flow_sequence = be_val(s.subrange(12, 16)) as u32;
                let source_id = be_val(s.subrange(16, 20)) as u32;
                match spec_parse_flow_sets(s.skip(20)) {
                    Ok((sets, _)) => Ok(
                        NetFlow9V {
                            version,
                            count,
                            sys_uptime,
                            timestamp,
                            flow_sequence,
                            source_id,
                            flow_sets: sets,
                        },
                    ),
                    Err(e) => Err(e),
                }
            }
        } else {
            Err(NetFlowError::InvalidFieldValue)
        }
    }
}

impl NetFlow9 {
    /// A packet over the given flowsets; the count field is the number of
    /// flowsets, and the version is 9.
    pub fn new(
        sys_uptime: u32,
        timestamp: u32,
        flow_sequence: u32,
        source_id: u32,
        flowsets: Vec<FlowSet>,
    ) -> (r: NetFlow9)
        requires
            flowsets@.len() <= 0xFFFF,
        ensures
            r@ == (NetFlow9V {
                version: 9,
                count: flowsets@.len() as u16,
                sys_uptime,
                timestamp,
                flow_sequence,
                source_id,
                flow_sets: flow_set_views(flowsets@),
            }),
    {
        let count = flowsets.len() as u16;
        NetFlow9 {
            version: 9,
            count,
            sys_uptime,
            timestamp,
            flow_sequence,
            source_id,
            flow_sets: flowsets,
        }
    }

    /// Decodes a packet: rejects any version other than 9 with
    /// `InvalidFieldValue`, then reads the header fields and the flowsets.
    pub fn from_bytes(payload: &[u8]) -> (r: Result<NetFlow9, NetFlowError>)
        ensures
            match r {
                Ok(packet) => spec_parse_netflow(payload@) == Ok::<_, NetFlowError>(packet@),
                Err(e) => spec_parse_netflow(payload@) == Err::<NetFlow9V, _>(e),
            },
    {
        proof {
            lemma_be_val_bound(payload@.subrange(0, 2));
            lemma_be_val_bound(payload@.subrange(2, 4));
            lemma_be_val_bound(payload@.subrange(4, 8));
            lemma_be_val_bound(payload@.subrange(8, 12));
            lemma_be_val_bound(payload@.subrange(12, 16));
            lemma_be_val_bound(payload@.subrange(16, 20));
            assert(pow256(2) == 0x10000 && pow256(4) == 0x100000000) by {
                reveal_with_fuel(pow256, 5);
            }
        }
        match take_u16(payload) {
            Err(e) => Err(e),
            Ok((rest, version)) => {
                if version == 9 {
                    match take_u16(rest) {
                        Err(e) => {
                            proof {
                                if payload@.len() >= 20 {
                                    assert(rest@.len() >= 2);
                                }
                            }
                            Err(e)
                        },
                        Ok((rest, count)) => match take_u32(rest) {
                            Err(e) => {
                                proof {
                                    if payload@.len() >= 20 {
                                        assert(rest@.len() >= 4);
                                    }
                                }
                                Err(e)
                            },
                            Ok((rest, sys_uptime)) => match take_u32(rest) {
                                Err(e) => {
                                    proof {
                                        if payload@.len() >= 20 {
                                            assert(rest@.len() >= 4);
                                        }
                                    }
                                    Err(e)
                                },
                                Ok((rest, timestamp)) => match take_u32(rest) {
                                    Err(e) => {
                                        proof {
                                            if payload@.len() >= 20 {
                                                assert(rest@.len() >= 4);
                                            }
                                        }
                                        Err(e)
                                    },
                                    Ok((rest, flow_sequence)) => match take_u32(rest) {
                                        Err(e) => {
                                            proof {
                                                if payload@.len() >= 20 {
                                                    assert(rest@.len() >= 4);
                                                }
                                            }
                                            Err(e)
                                        },
                                        Ok((rest, source_id)) => {
                                            proof {
                                                assert(payload@.subrange(2, 4) =~= payload@.skip(
                                                    2,
                                                ).subrange(0, 2));
                                                assert(payload@.subrange(4, 8) =~= payload@.skip(
                                                    4,
                                                ).subrange(0, 4));
                                                assert(payload@.subrange(8, 12) =~= payload@.skip(
                                                    8,
                                                ).subrange(0, 4));
                                                assert(payload@.subrange(12, 16) =~= payload@.skip(
                                                    12,
                                                ).subrange(0, 4));
                                                assert(payload@.subrange(16, 20) =~= payload@.skip(
                                                    16,
                                                ).subrange(0, 4));
                                                assert(payload@.skip(2).skip(2) =~= payload@.skip(
                                                    4,
                                                ));
                                                assert(payload@.skip(4).skip(4) =~= payload@.skip(
                                                    8,
                                                ));
                                                assert(payload@.skip(8).skip(4) =~= payload@.skip(
                                                    12,
                                                ));
                                                assert(payload@.skip(12).skip(4) =~= payload@.skip(
                                                    16,
                                                ));
                                                assert(payload@.skip(16).skip(4) =~= payload@.skip(
                                                    20,
                                                ));
                                            }
                                            match FlowSet::parse_bytes(rest) {
                                                Err(e) => Err(e),
                                                Ok((_rest, flow_sets)) => Ok(
                                                    NetFlow9 {
                                                        version,
                                                        count,
                                                        sys_uptime,
                                                        timestamp,
                                                        flow_sequence,
                                                        source_id,
                                                        flow_sets,
                                                    },
                                                ),
                                            }
                                        },
                                    },
                                },
                            },
                        },
                    }
                } else {
                    Err(NetFlowError::InvalidFieldValue)
                }
            },
        }
    }

    /// The wire form: the header fields big-endian, then each flowset.
    pub fn to_bytes(&self) -> (r: Vec<u8>)
        requires
            self@.encodable(),
        ensures
            r@ == self@.spec_to_bytes(),
    {
        let mut bytes = u16_to_bytes(self.version);
        let mut count_bytes = u16_to_bytes(self.count);
        bytes.append(&mut count_bytes);
        let mut buf = u32_to_bytes(self.sys_uptime);
        bytes.append(&mut buf);
        let mut buf = u32_to_bytes(self.timestamp);
        bytes.append(&mut buf);
        let mut buf = u32_to_bytes(self.flow_sequence);
        bytes.append(&mut buf);
        let mut buf = u32_to_bytes(self.source_id);
        bytes.append(&mut buf);
        let ghost header = bytes@;
        let ghost vs = flow_set_views(self.flow_sets@);
        let mut i: usize = 0;
        proof {
            assert(vs.take(0) =~= Seq::<FlowSetV>::empty());
            assert(bytes@ =~= header + spec_flow_sets_bytes(vs.take(0)));
        }
        while i < self.flow_sets.len()
            invariant
                self@.encodable(),
                vs == flow_set_views(self.flow_sets@),
                i <= vs.len(),
                bytes@ == header + spec_flow_sets_bytes(vs.take(i as int)),
            decreases vs.len() - i,
        {
            proof {
                assert(self@.flow_sets == vs);
                assert(self@.flow_sets[i as int].encodable());
                assert(self.flow_sets@[i as int]@ == vs[i as int]);
            }
            let mut set_bytes = self.flow_sets[i].to_bytes();
            bytes.append(&mut set_bytes);
            proof {
                assert(vs.take(i + 1) =~= vs.take(i as int).push(vs[i as int]));
                lemma_flow_sets_bytes_push(vs.take(i as int), vs[i as int]);
                assert(bytes@ =~= header + spec_flow_sets_bytes(vs.take(i + 1)));
            }
            i = i + 1;
        }
        proof {
            assert(vs.take(vs.len() as int) =~= vs);
            assert(bytes@ =~= self@.spec_to_bytes());
        }
        bytes
    }

    /// The number of bytes `to_bytes` yields.
    pub fn byte_length(&self) -> (r: usize)
        requires
            self@.encodable(),
        ensures
            r == self@.spec_to_bytes().len(),
    {
        self.to_bytes().len()
    }

    /// Whether every flowset that carries a padding flag has it set.
    pub fn is_padding(&self) -> (r: bool)
        ensures
            r == spec_all_padding(self@.flow_sets),
    {
        let ghost vs = self@.flow_sets;
        let mut i: usize = 0;
        let mut all = true;
        while i < self.flow_sets.len()
            invariant
                vs == self@.flow_sets,
                i <= vs.len(),
                all == spec_all_padding(vs.take(i as int)),
            decreases vs.len() - i,
        {
            let flag = match &self.flow_sets[i] {
                FlowSet::DataFlow(dataflow) => dataflow.is_padding(),
                FlowSet::OptionTemplate(option) => option.is_padding(),
                _ => true,
            };
            proof {
                assert(vs.take(i + 1) =~= vs.take(i as int).push(vs[i as int]));
                lemma_all_padding_push(vs.take(i as int), vs[i as int]);
            }
            all = all && flag;
            i = i + 1;
        }
        proof {
            assert(vs.take(vs.len() as int) =~= vs);
        }
        all
    }

    /// Sets the padding flag on every option-template and data flowset.
    pub fn set_padding(&mut self, is_padding: bool)
        ensures
            final(self)@.version == old(self)@.version,
            final(self)@.count == old(self)@.count,
            final(self)@.sys_uptime == old(self)@.sys_uptime,
            final(self)@.timestamp == old(self)@.timestamp,
            final(self)@.flow_sequence == old(self)@.flow_sequence,
            final(self)@.source_id == old(self)@.source_id,
            final(self)@.flow_sets == Seq::new(
                old(self)@.flow_sets.len(),
                |i: int| spec_with_padding(old(self)@.flow_sets[i], is_padding),
            ),
    {
        let ghost vs0 = self@.flow_sets;
        let mut updated: Vec<FlowSet> = Vec::new();
        proof {
            assert(flow_set_views(self.flow_sets@) =~= vs0.skip(0));
            assert(flow_set_views(updated@) =~= Seq::new(
                0nat,
                |j: int| spec_with_padding(vs0[j], is_padding),
            ));
        }
        while self.flow_sets.len() > 0
            invariant
                self.version == old(self).version,
                self.count == old(self).count,
                self.sys_uptime == old(self).sys_uptime,
                self.timestamp == old(self).timestamp,
                self.flow_sequence == old(self).flow_sequence,
                self.source_id == old(self).source_id,
                vs0 == old(self)@.flow_sets,
                updated@.len() + self.flow_sets@.len() == vs0.len(),
                flow_set_views(self.flow_sets@) == vs0.skip(updated@.len() as int),
                flow_set_views(updated@) == Seq::new(
                    updated@.len(),
                    |j: int| spec_with_padding(vs0[j], is_padding),
                ),
            decreases self.flow_sets@.len(),
        {
            let ghost i = updated@.len() as int;
            let ghost prev = self.flow_sets@;
            let flowset = self.flow_sets.remove(0);
            proof {
                assert(flow_set_views(prev)[0] == flowset@);
                assert(flowset@ == vs0[i]);
                assert forall|j: int| 0 <= j < self.flow_sets@.len() implies flow_set_views(
                    self.flow_sets@,
                )[j] == vs0.skip(i + 1)[j] by {
                    assert(self.flow_sets@[j] == prev[j + 1]);
                    assert(flow_set_views(prev)[j + 1] == prev[j + 1]@);
                }
                assert(flow_set_views(self.flow_sets@) =~= vs0.skip(i + 1));
            }
            let ghost updated0 = flow_set_views(updated@);
            match flowset {
                FlowSet::DataFlow(mut dataflow) => {
                    dataflow.set_padding(is_padding);
                    updated.push(FlowSet::DataFlow(dataflow));
                },
                FlowSet::OptionTemplate(mut option) => {
                    option.set_padding(is_padding);
                    updated.push(FlowSet::OptionTemplate(option));
                },
                other => {
                    updated.push(other);
                },
            }
            proof {
                assert(flow_set_views(updated@) =~= updated0.push(
                    spec_with_padding(vs0[i], is_padding),
                ));
                assert(flow_set_views(updated@) =~= Seq::new(
                    (i + 1) as nat,
                    |j: int| spec_with_padding(vs0[j], is_padding),
                ));
            }
        }
        self.flow_sets = updated;
        proof {
            assert(flow_set_views(self.flow_sets@) == Seq::new(
                vs0.len(),
                |j: int| spec_with_padding(vs0[j], is_padding),
            ));
        }
    }
}

/// The flowset with its padding flag forced, where it carries one.
pub open spec fn spec_with_padding(fs: FlowSetV, is_padding: bool) -> FlowSetV {
    match fs {
        FlowSetV::DataFlow(df) => FlowSetV::DataFlow(
            DataFlowV {
                flowset_id: df.flowset_id,
                length: df.length,
                record_bytes: df.record_bytes,
                records: df.records,
                is_padding,
            },
        ),
        FlowSetV::OptionTemplate(ot) => FlowSetV::OptionTemplate(
            OptionTemplateV {
                flowset_id: ot.flowset_id,
                length: ot.length,
                templates: ot.templates,
                is_padding,
            },
        ),
        other => other,
    }
}

/// Whether every flowset that carries a padding flag has it set.
pub open spec fn spec_all_padding(vs: Seq<FlowSetV>) -> bool
    decreases vs.len(),
{
    if vs.len() == 0 {
        true
    } else {
        spec_all_padding(vs.drop_last()) && (match vs.last() {
            FlowSetV::DataFlow(df) => df.is_padding,
            FlowSetV::OptionTemplate(ot) => ot.is_padding,
            _ => true,
        })
    }
}

proof fn lemma_all_padding_push(vs: Seq<FlowSetV>, fs: FlowSetV)
    ensures
        spec_all_padding(vs.push(fs)) == (spec_all_padding(vs) && (match fs {
            FlowSetV::DataFlow(df) => df.is_padding,
            FlowSetV::OptionTemplate(ot) => ot.is_padding,
            _ => true,
        })),
{
    assert(vs.push(fs).drop_last() =~= vs);
    assert(vs.push(fs).last() == fs);
}

/// Encoding a canonical packet and decoding the result yields the packet
/// back: the full-packet codec round-trips.
pub proof fn lemma_netflow_round_trip(v: NetFlow9V)
    requires
        v.wf(),
    ensures
        spec_parse_netflow(v.spec_to_bytes()) == Ok::<_, NetFlowError>(v),
{
    let s = v.spec_to_bytes();
    lemma_be_bytes_len(v.version as nat, 2);
    lemma_be_bytes_len(v.count as nat, 2);
    lemma_be_bytes_len(v.sys_uptime as nat, 4);
    lemma_be_bytes_len(v.timestamp as nat, 4);
    lemma_be_bytes_len(v.flow_sequence as nat, 4);
    lemma_be_bytes_len(v.source_id as nat, 4);
    assert(pow256(2) == 0x10000 && pow256(4) == 0x100000000) by {
        reveal_with_fuel(pow256, 5);
    }
    lemma_be_val_be_bytes(v.version as nat, 2);
    lemma_be_val_be_bytes(v.count as nat, 2);
    lemma_be_val_be_bytes(v.sys_uptime as nat, 4);
    lemma_be_val_be_bytes(v.timestamp as nat, 4);
    lemma_be_val_be_bytes(v.flow_sequence as nat, 4);
    lemma_be_val_be_bytes(v.source_id as nat, 4);
    assert(s.subrange(0, 2) =~= be_bytes(v.version as nat, 2));
    assert(s.subrange(2, 4) =~= be_bytes(v.count as nat, 2));
    assert(s.subrange(4, 8) =~= be_bytes(v.sys_uptime as nat, 4));
    assert(s.subrange(8, 12) =~= be_bytes(v.timestamp as nat, 4));
    assert(s.subrange(12, 16) =~= be_bytes(v.flow_sequence as nat, 4));
    assert(s.subrange(16, 20) =~= be_bytes(v.source_id as nat, 4));
    lemma_flow_sets_round_trip(v.flow_sets);
    assert(s.skip(20) =~= spec_flow_sets_bytes(v.flow_sets));
}

} // verus!
