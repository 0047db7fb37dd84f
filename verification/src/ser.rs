use vstd::prelude::*;

use crate::codec::{lemma_writer_run_append, writer_run, writer_step, Frame, Tok};
use crate::writer::EventWriter;
use crate::{Error, EventV, PlistEvent, WriteResult};

verus! {

/// The writer moved from one state to another by accepting exactly these
/// events.
pub open spec fn writer_advanced(
    os: Seq<Frame>,
    ot: Seq<Tok>,
    ns: Seq<Frame>,
    nt: Seq<Tok>,
    evs: Seq<EventV>,
) -> bool {
    &&& writer_run(os, evs) is Some
    &&& ns == writer_run(os, evs)->Some_0.0
    &&& nt == ot + writer_run(os, evs)->Some_0.1
}

/// The generic-value-to-event bridge: it translates the primitives,
/// sequences, mappings, optionals and tagged variants of a "describe your
/// structure" protocol into events on the writer. `events` models every
/// event emitted so far.
pub struct Serializer {
    writer: EventWriter,
    events: Ghost<Seq<EventV>>,
}

impl Serializer {
    /// Every event emitted so far.
    pub closed spec fn events_v(&self) -> Seq<EventV> {
        self.events@
    }

    pub closed spec fn wstack(&self) -> Seq<Frame> {
        self.writer.stack_v()
    }

    pub closed spec fn wtokens(&self) -> Seq<Tok> {
        self.writer.tokens_v()
    }

    /// The whole effect of one bridge call that emits `evs`: success exactly
    /// when the writer accepts them, the event log extended by them, and the
    /// writer advanced over them.
    pub open spec fn emits(self, post: Self, evs: Seq<EventV>, r: WriteResult<()>) -> bool {
        &&& (r is Ok <==> writer_run(self.wstack(), evs) is Some)
        &&& (r is Ok ==> post.events_v() == self.events_v() + evs && writer_advanced(
            self.wstack(),
            self.wtokens(),
            post.wstack(),
            post.wtokens(),
            evs,
        ))
        &&& (r matches Err(e) ==> e == Error::InvalidData)
    }

    pub fn new(writer: EventWriter) -> (s: Serializer)
        ensures
            s.events_v() == Seq::<EventV>::empty(),
            s.wstack() == writer.stack_v(),
            s.wtokens() == writer.tokens_v(),
    {
        Serializer { writer, events: Ghost(Seq::empty()) }
    }

    pub fn into_inner(self) -> (w: EventWriter)
        ensures
            w.stack_v() == self.wstack(),
            w.tokens_v() == self.wtokens(),
    {
        self.writer
    }

    fn emit(&mut self, event: PlistEvent) -> (r: WriteResult<()>)
        ensures
            old(self).emits(*final (self), seq![event@], r),
            r is Err ==> final (self).events_v() == old(self).events_v() && final (self).wstack()
                == old(self).wstack() && final (self).wtokens() == old(self).wtokens(),
    {
        let ghost ev = event@;
        proof {
            assert(seq![ev][0] == ev);
            assert(seq![ev].skip(1) =~= Seq::<EventV>::empty());
        }
        let res = self.writer.write(&event);
        match res {
            Ok(()) => {
                self.events = Ghost(self.events@.push(ev));
                proof {
                    assert(writer_step(old(self).wstack(), ev) is Some);
                    let q = writer_step(old(self).wstack(), ev)->Some_0;
                    assert(writer_run(q.0, seq![ev].skip(1)) == (Some((q.0, Seq::<Tok>::empty()))));
                    assert(writer_run(old(self).wstack(), seq![ev]) == (Some((
                        q.0,
                        q.1 + Seq::<Tok>::empty(),
                    ))));
                    assert(q.1 + Seq::<Tok>::empty() =~= q.1);
                    assert(old(self).events_v().push(ev) =~= old(self).events_v() + seq![ev]);
                }
                Ok(())
            },
            Err(e) => {
                proof {
                    assert(writer_step(old(self).wstack(), ev) is None);
                }
                Err(e)
            },
        }
    }

    pub fn serialize_bool(&mut self, v: bool) -> (r: WriteResult<()>)
        ensures
            old(self).emits(*final (self), seq![EventV::BooleanValue(v)], r),
    {
        self.emit(PlistEvent::BooleanValue(v))
    }

    pub fn serialize_i64(&mut self, v: i64) -> (r: WriteResult<()>)
        ensures
            old(self).emits(*final (self), seq![EventV::IntegerValue(v)], r),
    {
        self.emit(PlistEvent::IntegerValue(v))
    }

    /// An unsigned value is carried in the signed integer element, wrapping
    /// two's-complement.
    pub fn serialize_u64(&mut self, v: u64) -> (r: WriteResult<()>)
        ensures
            old(self).emits(*final (self), seq![EventV::IntegerValue(v as i64)], r),
    {
        self.emit(PlistEvent::IntegerValue(v as i64))
    }

    pub fn serialize_str(&mut self, v: &str) -> (r: WriteResult<()>)
        ensures
            old(self).emits(*final (self), seq![EventV::StringValue(v@)], r),
    {
        self.emit(PlistEvent::StringValue(v.to_owned()))
    }

    /// A real number arrives as its decimal text.
    pub fn serialize_real(&mut self, v: &str) -> (r: WriteResult<()>)
        ensures
            old(self).emits(*final (self), seq![EventV::RealValue(v@)], r),
    {
        self.emit(PlistEvent::RealValue(v.to_owned()))
    }

    pub fn serialize_bytes(&mut self, v: &[u8]) -> (r: WriteResult<()>)
        ensures
            old(self).emits(*final (self), seq![EventV::DataValue(v@)], r),
    {
        self.emit(PlistEvent::DataValue(vstd::slice::slice_to_vec(v)))
    }

    /// A unit value is a content-free marker: the empty string.
    pub fn serialize_unit(&mut self) -> (r: WriteResult<()>)
        ensures
            old(self).emits(*final (self), seq![EventV::StringValue(""@)], r),
    {
        let r = self.emit(PlistEvent::StringValue(String::new()));
        proof {
            reveal_strlit("");
            assert(""@ =~= Seq::<char>::empty());
        }
        r
    }

    /// Open the single-entry dictionary that encodes an absent or tagged
    /// value: its one key is the marker or variant name; the caller
    /// serializes the payload, then closes with `end_single_key_dict`.
    pub fn begin_single_key_dict(&mut self, key: &str) -> (r: WriteResult<()>)
        ensures
            old(self).emits(
                *final (self),
                seq![EventV::StartDictionary(Some(1u64)), EventV::StringValue(key@)],
                r,
            ),
    {
        let ghost st0 = old(self).wstack();
        let ghost d = seq![EventV::StartDictionary(Some(1u64)), EventV::StringValue(key@)];
        proof {
            reveal_with_fuel(writer_run, 3);
            assert(d.skip(1) =~= seq![d[1]]);
            assert(seq![d[1]].skip(1) =~= Seq::<EventV>::empty());
            assert(seq![d[0]].skip(1) =~= Seq::<EventV>::empty());
        }
        let r1 = self.emit(PlistEvent::StartDictionary(Some(1)));
        match r1 {
            Err(e) => {
                proof {
                    assert(writer_run(st0, d) is None);
                }
                return Err(e);
            },
            Ok(()) => {},
        }
        let ghost p = writer_step(st0, d[0])->Some_0;
        let r2 = self.emit(PlistEvent::StringValue(key.to_owned()));
        match r2 {
            Err(e) => {
                proof {
                    assert(writer_step(p.0, d[1]) is None);
                    assert(writer_run(st0, d) is None);
                }
                return Err(e);
            },
            Ok(()) => {},
        }
        proof {
            let q = writer_step(p.0, d[1])->Some_0;
            assert(writer_run(p.0, d.skip(1)) == (Some((q.0, q.1 + Seq::<Tok>::empty()))));
            assert(writer_run(st0, d) == (Some((q.0, p.1 + (q.1 + Seq::<Tok>::empty())))));
            assert(q.1 + Seq::<Tok>::empty() =~= q.1);
            assert(p.1 + Seq::<Tok>::empty() =~= p.1);
            assert(self.events_v() =~= old(self).events_v() + d);
            assert((old(self).wtokens() + p.1) + q.1 =~= old(self).wtokens() + (p.1 + q.1));
        }
        Ok(())
    }

    pub fn end_single_key_dict(&mut self) -> (r: WriteResult<()>)
        ensures
            old(self).emits(*final (self), seq![EventV::EndDictionary], r),
    {
        self.emit(PlistEvent::EndDictionary)
    }

    /// A variant with no payload: its name keyed to the empty string.
    pub fn serialize_unit_variant(&mut self, variant: &str) -> (r: WriteResult<()>)
        ensures
            old(self).emits(
                *final (self),
                seq![
                    EventV::StartDictionary(Some(1u64)),
                    EventV::StringValue(variant@),
                    EventV::StringValue(""@),
                    EventV::EndDictionary,
                ],
                r,
            ),
    {
        let ghost st0 = old(self).wstack();
        let ghost d2 = seq![EventV::StartDictionary(Some(1u64)), EventV::StringValue(variant@)];
        let ghost tail = seq![EventV::StringValue(""@), EventV::EndDictionary];
        let ghost d4 = seq![
            EventV::StartDictionary(Some(1u64)),
            EventV::StringValue(variant@),
            EventV::StringValue(""@),
            EventV::EndDictionary,
        ];
        proof {
            reveal_with_fuel(writer_run, 3);
            assert(d4 =~= d2 + tail);
            assert(tail.skip(1) =~= seq![tail[1]]);
            assert(seq![tail[1]].skip(1) =~= Seq::<EventV>::empty());
            lemma_writer_run_append(st0, d2, tail);
        }
        let r1 = self.begin_single_key_dict(variant);
        match r1 {
            Err(e) => {
                proof {
                    assert(writer_run(st0, d4) is None);
                }
                return Err(e);
            },
            Ok(()) => {},
        }
        let ghost p = writer_run(st0, d2)->Some_0;
        let r2 = self.serialize_unit();
        match r2 {
            Err(e) => {
                proof {
                    assert(writer_step(p.0, tail[0]) is None);
                    assert(writer_run(p.0, tail) is None);
                    assert(writer_run(st0, d4) is None);
                }
                return Err(e);
            },
            Ok(()) => {},
        }
        let ghost q = writer_step(p.0, tail[0])->Some_0;
        let r3 = self.end_single_key_dict();
        match r3 {
            Err(e) => {
                proof {
                    assert(writer_step(q.0, tail[1]) is None);
                    assert(writer_run(q.0, tail.skip(1)) is None);
                    assert(writer_run(p.0, tail) is None);
                    assert(writer_run(st0, d4) is None);
                }
                return Err(e);
            },
            Ok(()) => {},
        }
        proof {
            let z = writer_step(q.0, tail[1])->Some_0;
            assert(writer_run(q.0, tail.skip(1)) == (Some((z.0, z.1 + Seq::<Tok>::empty()))));
            assert(writer_run(p.0, tail) == (Some((z.0, q.1 + (z.1 + Seq::<Tok>::empty())))));
            assert(writer_run(st0, d4) is Some);
            let w = writer_run(st0, d4)->Some_0;
            assert(w.0 == z.0);
            assert(w.1 =~= p.1 + q.1 + z.1);
            assert(self.events_v() =~= old(self).events_v() + d4);
            assert(self.wtokens() =~= old(self).wtokens() + w.1);
        }
        Ok(())
    }

    /// An absent optional value: the single-entry dictionary `None` with an
    /// empty string as its content-free payload.
    pub fn serialize_none(&mut self) -> (r: WriteResult<()>)
        ensures
            old(self).emits(
                *final (self),
                seq![
                    EventV::StartDictionary(Some(1u64)),
                    EventV::StringValue("None"@),
                    EventV::StringValue(""@),
                    EventV::EndDictionary,
                ],
                r,
            ),
    {
        self.serialize_unit_variant("None")
    }

    /// A present optional value opens the single-entry dictionary `Some`;
    /// the payload follows, then `end_single_key_dict`.
    pub fn begin_some(&mut self) -> (r: WriteResult<()>)
        ensures
            old(self).emits(
                *final (self),
                seq![EventV::StartDictionary(Some(1u64)), EventV::StringValue("Some"@)],
                r,
            ),
    {
        self.begin_single_key_dict("Some")
    }

    /// A sequence forwards its statically known length as the hint.
    pub fn begin_seq(&mut self, len: Option<u64>) -> (r: WriteResult<()>)
        ensures
            old(self).emits(*final (self), seq![EventV::StartArray(len)], r),
    {
        self.emit(PlistEvent::StartArray(len))
    }

    pub fn end_seq(&mut self) -> (r: WriteResult<()>)
        ensures
            old(self).emits(*final (self), seq![EventV::EndArray], r),
    {
        self.emit(PlistEvent::EndArray)
    }

    /// A mapping forwards its statically known length as the hint; its pairs
    /// follow in iteration order, key then value, never reordered.
    pub fn begin_map(&mut self, len: Option<u64>) -> (r: WriteResult<()>)
        ensures
            old(self).emits(*final (self), seq![EventV::StartDictionary(len)], r),
    {
        self.emit(PlistEvent::StartDictionary(len))
    }

    pub fn end_map(&mut self) -> (r: WriteResult<()>)
        ensures
            old(self).emits(*final (self), seq![EventV::EndDictionary], r),
    {
        self.emit(PlistEvent::EndDictionary)
    }
}

} // verus!
