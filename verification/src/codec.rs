use vstd::prelude::*;

use crate::text::{fmt_i64, is_real_lit, parse_i64};
use crate::{valid_date, EventV, ParserError, PlistDate};

verus! {

/// One token of the tag-level XML transport, the interface between the
/// streaming codec and the XML tokenizer and emitter.
pub enum Tok {
    Start(Seq<char>),
    Text(Seq<char>),
    End(Seq<char>),
    Eof,
    Truncated,
    Fault,
    IoFault,
    Skip,
}

/// What the base64 encoder (line-wrapped MIME variant) returns for a byte
/// buffer: a function of the bytes alone.
pub uninterp spec fn base64_text(b: Seq<u8>) -> Seq<char>;

/// What the base64 decoder returns for a text: the bytes, or nothing when
/// the text is not valid base64.
pub uninterp spec fn base64_decode(s: Seq<char>) -> Option<Seq<u8>>;

/// What formatting a calendar instant as RFC 3339 text returns.
pub uninterp spec fn rfc3339_text(d: PlistDate) -> Seq<char>;

/// What parsing text as an RFC 3339 timestamp, normalized to UTC, returns.
pub uninterp spec fn rfc3339_parse(s: Seq<char>) -> Option<PlistDate>;

// ------------------------------------------------------------------
// The writer's state machine
// ------------------------------------------------------------------
/// One open construct of the writer: the document root, an array, or a
/// dictionary in one of its two phases.
#[derive(Clone, Copy, Debug, PartialEq, Eq, Structural)]
pub enum Frame {
    Root,
    Array,
    DictKey,
    DictValue,
}

pub open spec fn elem_toks(n: Seq<char>, text: Seq<char>) -> Seq<Tok> {
    seq![Tok::Start(n), Tok::Text(text), Tok::End(n)]
}

/// The tokens a scalar event writes, or nothing when the event's payload
/// cannot be encoded.
pub open spec fn scalar_toks(e: EventV) -> Option<Seq<Tok>> {
    match e {
        EventV::BooleanValue(b) => Some(
            if b {
                seq![Tok::Start("true"@), Tok::End("true"@)]
            } else {
                seq![Tok::Start("false"@), Tok::End("false"@)]
            },
        ),
        EventV::IntegerValue(i) => Some(elem_toks("integer"@, fmt_i64(i as int))),
        EventV::RealValue(s) => if is_real_lit(s) {
            Some(elem_toks("real"@, s))
        } else {
            None
        },
        EventV::StringValue(s) => Some(elem_toks("string"@, s)),
        EventV::DataValue(b) => Some(elem_toks("data"@, base64_text(b))),
        EventV::DateValue(d) => if valid_date(d) {
            Some(elem_toks("date"@, rfc3339_text(d)))
        } else {
            None
        },
        _ => None,
    }
}

/// After a value completes, a stack holding only the root frame means the
/// single top-level value is done: the root element closes.
pub open spec fn close_root(st: Seq<Frame>, ts: Seq<Tok>) -> (Seq<Frame>, Seq<Tok>) {
    if st.len() == 1 && st[0] == Frame::Root {
        (Seq::<Frame>::empty(), ts.push(Tok::End("plist"@)))
    } else {
        (st, ts)
    }
}

/// The writer's transition: from a frame stack and one event to the next
/// stack and the tokens written, or nothing when the event is illegal there.
/// An empty stack means no document was started: the root element opens
/// first and wraps the single top-level value.
pub open spec fn writer_step(st: Seq<Frame>, e: EventV) -> Option<(Seq<Frame>, Seq<Tok>)> {
    let st0 = if st.len() == 0 {
        seq![Frame::Root]
    } else {
        st
    };
    let pre: Seq<Tok> = if st.len() == 0 {
        seq![Tok::Start("plist"@)]
    } else {
        Seq::<Tok>::empty()
    };
    if st0.last() == Frame::DictKey {
        match e {
            EventV::StringValue(s) => Some(
                (st0.update(st0.len() - 1, Frame::DictValue), pre + elem_toks("key"@, s)),
            ),
            EventV::EndDictionary => Some(close_root(st0.drop_last(), pre.push(Tok::End("dict"@)))),
            _ => None,
        }
    } else {
        let st1 = if st0.last() == Frame::DictValue {
            st0.update(st0.len() - 1, Frame::DictKey)
        } else {
            st0
        };
        match e {
            EventV::StartArray(_) => Some((st1.push(Frame::Array), pre.push(Tok::Start("array"@)))),
            EventV::EndArray => if st1.last() == Frame::Array {
                Some(close_root(st1.drop_last(), pre.push(Tok::End("array"@))))
            } else {
                None
            },
            EventV::StartDictionary(_) => Some(
                (st1.push(Frame::DictKey), pre.push(Tok::Start("dict"@))),
            ),
            EventV::EndDictionary => None,
            EventV::StartPlist => None,
            EventV::EndPlist => None,
            _ => match scalar_toks(e) {
                Some(ts) => Some(close_root(st1, pre + ts)),
                None => None,
            },
        }
    }
}

/// The writer run over a whole event sequence: the final stack and every
/// token written, or nothing as soon as one event is illegal.
pub open spec fn writer_run(st: Seq<Frame>, evs: Seq<EventV>) -> Option<(Seq<Frame>, Seq<Tok>)>
    decreases evs.len(),
{
    if evs.len() == 0 {
        Some((st, Seq::<Tok>::empty()))
    } else {
        match writer_step(st, evs[0]) {
            Some(p) => match writer_run(p.0, evs.skip(1)) {
                Some(q) => Some((q.0, p.1 + q.1)),
                None => None,
            },
            None => None,
        }
    }
}

// ------------------------------------------------------------------
// The reader's state machine
// ------------------------------------------------------------------
/// The leaf kinds whose element encloses text content.
#[derive(Clone, Copy, Debug, PartialEq, Eq, Structural)]
pub enum CKind {
    Txt,
    Int,
    Real,
    Data,
    Date,
}

/// Where the reader stands: between elements, expecting the text content of
/// a leaf element, or finished (cleanly or by the first error).
pub enum RMode {
    Normal,
    Content(CKind),
    Done,
}

pub struct RState {
    pub stack: Seq<Seq<char>>,
    pub mode: RMode,
}

/// What one step of the reader hands out: an event or error, or the clean
/// end of the sequence.
pub enum ROut {
    Item(Result<EventV, ParserError>),
    End,
}

pub open spec fn init_rstate() -> RState {
    RState { stack: Seq::<Seq<char>>::empty(), mode: RMode::Normal }
}

/// The event a leaf element's text content decodes to.
pub open spec fn content_event(k: CKind, s: Seq<char>) -> Result<EventV, ParserError> {
    match k {
        CKind::Txt => Ok(EventV::StringValue(s)),
        CKind::Int => match parse_i64(s) {
            Some(i) => Ok(EventV::IntegerValue(i)),
            None => Err(ParserError::InvalidData),
        },
        CKind::Real => if is_real_lit(s) {
            Ok(EventV::RealValue(s))
        } else {
            Err(ParserError::InvalidData)
        },
        CKind::Data => match base64_decode(s) {
            Some(b) => Ok(EventV::DataValue(b)),
            None => Err(ParserError::InvalidData),
        },
        CKind::Date => match rfc3339_parse(s) {
            Some(d) => Ok(EventV::DateValue(d)),
            None => Err(ParserError::InvalidData),
        },
    }
}

pub open spec fn start_action(st: RState, n: Seq<char>) -> (RState, Option<ROut>) {
    let pushed = RState { stack: st.stack.push(n), mode: RMode::Normal };
    if n == "plist"@ {
        (pushed, Some(ROut::Item(Ok(EventV::StartPlist))))
    } else if n == "array"@ {
        (pushed, Some(ROut::Item(Ok(EventV::StartArray(None)))))
    } else if n == "dict"@ {
        (pushed, Some(ROut::Item(Ok(EventV::StartDictionary(None)))))
    } else if n == "key"@ || n == "string"@ {
        (RState { stack: st.stack.push(n), mode: RMode::Content(CKind::Txt) }, None)
    } else if n == "true"@ {
        (pushed, Some(ROut::Item(Ok(EventV::BooleanValue(true)))))
    } else if n == "false"@ {
        (pushed, Some(ROut::Item(Ok(EventV::BooleanValue(false)))))
    } else if n == "data"@ {
        (RState { stack: st.stack.push(n), mode: RMode::Content(CKind::Data) }, None)
    } else if n == "date"@ {
        (RState { stack: st.stack.push(n), mode: RMode::Content(CKind::Date) }, None)
    } else if n == "integer"@ {
        (RState { stack: st.stack.push(n), mode: RMode::Content(CKind::Int) }, None)
    } else if n == "real"@ {
        (RState { stack: st.stack.push(n), mode: RMode::Content(CKind::Real) }, None)
    } else {
        (
            RState { stack: st.stack.push(n), mode: RMode::Done },
            Some(ROut::Item(Err(ParserError::InvalidData))),
        )
    }
}

pub open spec fn end_action(st: RState, n: Seq<char>) -> (RState, Option<ROut>) {
    if st.stack.len() == 0 {
        (
            RState { stack: st.stack, mode: RMode::Done },
            Some(ROut::Item(Err(ParserError::InvalidData))),
        )
    } else if st.stack.last() != n {
        (
            RState { stack: st.stack.drop_last(), mode: RMode::Done },
            Some(ROut::Item(Err(ParserError::InvalidData))),
        )
    } else {
        let popped = RState { stack: st.stack.drop_last(), mode: RMode::Normal };
        if n == "array"@ {
            (popped, Some(ROut::Item(Ok(EventV::EndArray))))
        } else if n == "dict"@ {
            (popped, Some(ROut::Item(Ok(EventV::EndDictionary))))
        } else if n == "plist"@ {
            (popped, Some(ROut::Item(Ok(EventV::EndPlist))))
        } else {
            (popped, None)
        }
    }
}

/// The reader's transition over one transport token.
pub open spec fn reader_step(st: RState, t: Tok) -> (RState, Option<ROut>) {
    match st.mode {
        RMode::Done => (st, Some(ROut::End)),
        RMode::Normal => match t {
            Tok::Start(n) => start_action(st, n),
            Tok::End(n) => end_action(st, n),
            Tok::Text(_) => (st, None),
            Tok::Skip => (st, None),
            Tok::Eof => if st.stack.len() == 0 {
                (RState { stack: st.stack, mode: RMode::Done }, Some(ROut::End))
            } else {
                (
                    RState { stack: st.stack, mode: RMode::Done },
                    Some(ROut::Item(Err(ParserError::UnexpectedEof))),
                )
            },
            Tok::Truncated => (
                RState { stack: st.stack, mode: RMode::Done },
                Some(ROut::Item(Err(ParserError::UnexpectedEof))),
            ),
            Tok::Fault => (
                RState { stack: st.stack, mode: RMode::Done },
                Some(ROut::Item(Err(ParserError::InvalidData))),
            ),
            Tok::IoFault => (
                RState { stack: st.stack, mode: RMode::Done },
                Some(ROut::Item(Err(ParserError::Io))),
            ),
        },
        RMode::Content(k) => match t {
            Tok::Text(s) => match content_event(k, s) {
                Ok(e) => (
                    RState { stack: st.stack, mode: RMode::Normal },
                    Some(ROut::Item(Ok(e))),
                ),
                Err(er) => (
                    RState { stack: st.stack, mode: RMode::Done },
                    Some(ROut::Item(Err(er))),
                ),
            },
            _ => (
                RState { stack: st.stack, mode: RMode::Done },
                Some(ROut::Item(Err(ParserError::InvalidData))),
            ),
        },
    }
}

pub open spec fn opt_out(o: Option<ROut>) -> Seq<ROut> {
    match o {
        Some(x) => seq![x],
        None => Seq::<ROut>::empty(),
    }
}

/// The reader run over a token sequence: the final state and everything
/// handed out along the way.
pub open spec fn reader_run(st: RState, ts: Seq<Tok>) -> (RState, Seq<ROut>)
    decreases ts.len(),
{
    if ts.len() == 0 {
        (st, Seq::<ROut>::empty())
    } else {
        let first = reader_step(st, ts[0]);
        let rest = reader_run(first.0, ts.skip(1));
        (rest.0, opt_out(first.1) + rest.1)
    }
}

/// Length hints are advisory: the markup carries no counts, so a read-back
/// container start always carries none.
pub open spec fn erase_hint(e: EventV) -> EventV {
    match e {
        EventV::StartArray(_) => EventV::StartArray(None),
        EventV::StartDictionary(_) => EventV::StartDictionary(None),
        _ => e,
    }
}

/// Running the writer over concatenated event sequences runs it over each
/// in turn, failing as soon as either part fails.
pub proof fn lemma_writer_run_append(st: Seq<Frame>, a: Seq<EventV>, b: Seq<EventV>)
    ensures
        writer_run(st, a + b) == (match writer_run(st, a) {
            Some(p) => match writer_run(p.0, b) {
                Some(q) => Some::<(Seq<Frame>, Seq<Tok>)>((q.0, p.1 + q.1)),
                None => None,
            },
            None => None,
        }),
    decreases a.len(),
{
    if a.len() == 0 {
        assert(a + b =~= b);
        match writer_run(st, b) {
            Some(q) => {
                assert(Seq::<Tok>::empty() + q.1 =~= q.1);
            },
            None => {},
        }
    } else {
        assert((a + b)[0] == a[0]);
        assert((a + b).skip(1) =~= a.skip(1) + b);
        match writer_step(st, a[0]) {
            None => {},
            Some(p1) => {
                lemma_writer_run_append(p1.0, a.skip(1), b);
                match writer_run(p1.0, a.skip(1)) {
                    None => {},
                    Some(pr) => {
                        match writer_run(pr.0, b) {
                            None => {},
                            Some(q) => {
                                assert(p1.1 + (pr.1 + q.1) =~= (p1.1 + pr.1) + q.1);
                            },
                        }
                    },
                }
            },
        }
    }
}

/// Running the reader over concatenated token sequences runs it over each
/// in turn.
pub proof fn lemma_reader_run_append(st: RState, a: Seq<Tok>, b: Seq<Tok>)
    ensures
        reader_run(st, a + b).0 == reader_run(reader_run(st, a).0, b).0,
        reader_run(st, a + b).1 == reader_run(st, a).1 + reader_run(reader_run(st, a).0, b).1,
    decreases a.len(),
{
    if a.len() == 0 {
        assert(a + b =~= b);
        assert(reader_run(st, a).1 + reader_run(reader_run(st, a).0, b).1 =~= reader_run(
            st,
            b,
        ).1);
    } else {
        let first = reader_step(st, a[0]);
        assert((a + b)[0] == a[0]);
        assert((a + b).skip(1) =~= a.skip(1) + b);
        lemma_reader_run_append(first.0, a.skip(1), b);
        assert(opt_out(first.1) + (reader_run(first.0, a.skip(1)).1 + reader_run(
            reader_run(first.0, a.skip(1)).0,
            b,
        ).1) =~= (opt_out(first.1) + reader_run(first.0, a.skip(1)).1) + reader_run(
            reader_run(first.0, a.skip(1)).0,
            b,
        ).1);
    }
}

} // verus!
