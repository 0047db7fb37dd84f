use vstd::prelude::*;

use crate::codec::{
    base64_decode, base64_text, close_root, content_event, elem_toks, erase_hint, init_rstate,
    lemma_reader_run_append, reader_run, reader_step, rfc3339_parse, rfc3339_text, scalar_toks,
    start_action, writer_run, writer_step, CKind, Frame, RMode, ROut, RState, Tok,
};
use crate::text::lemma_fmt_parse_i64;
use crate::{valid_date, EventV, ParserError, PlistDate};

verus! {

// ------------------------------------------------------------------
// Dictionary alternation and balanced nesting
// ------------------------------------------------------------------
/// Inside an open dictionary that expects a key, any event but a string (the
/// key) or the dictionary's end — in particular any value event with no
/// preceding key — is rejected with nothing written.
pub proof fn lemma_dict_key_phase_rejects(st: Seq<Frame>, e: EventV)
    requires
        st.len() > 0,
        st.last() == Frame::DictKey,
        !(e is StringValue),
        !(e is EndDictionary),
    ensures
        writer_step(st, e) is None,
{
}

/// A dictionary that still owes the value of its last key cannot close: the
/// closing event is rejected.
pub proof fn lemma_dict_value_phase_rejects_end(st: Seq<Frame>)
    requires
        st.len() > 0,
        st.last() == Frame::DictValue,
    ensures
        writer_step(st, EventV::EndDictionary) is None,
{
}

/// The writer rejects a closing event whose kind does not match the
/// innermost open construct, and any closer with no construct open.
pub proof fn lemma_writer_rejects_mismatched_closer(st: Seq<Frame>, e: EventV)
    requires
        e is EndArray || e is EndDictionary,
        e is EndArray ==> !(st.len() > 0 && st.last() == Frame::Array),
        e is EndDictionary ==> !(st.len() > 0 && st.last() == Frame::DictKey),
    ensures
        writer_step(st, e) is None,
{
}

/// The reader rejects a closing tag whose name does not match the innermost
/// open element, and any closing tag with no element open.
pub proof fn lemma_reader_rejects_mismatched_closer(st: RState, n: Seq<char>)
    requires
        st.mode is Normal,
        st.stack.len() == 0 || st.stack.last() != n,
    ensures
        reader_step(st, Tok::End(n)).1 == Some(ROut::Item(Err(ParserError::InvalidData))),
{
}

/// The reader rejects a tag it does not recognize, wherever it stands.
pub proof fn lemma_reader_rejects_unknown_tag(st: RState, n: Seq<char>)
    requires
        st.mode is Normal,
        n != "plist"@ && n != "array"@ && n != "dict"@ && n != "key"@ && n != "string"@ && n
            != "true"@ && n != "false"@ && n != "data"@ && n != "date"@ && n != "integer"@ && n
            != "real"@,
    ensures
        reader_step(st, Tok::Start(n)).1 == Some(ROut::Item(Err(ParserError::InvalidData))),
{
}

/// Input that ends with elements still open is an unexpected end of file,
/// whether the transport reports a clean end or a truncation.
pub proof fn lemma_reader_truncation(st: RState)
    requires
        st.mode is Normal,
        st.stack.len() > 0,
    ensures
        reader_step(st, Tok::Eof).1 == Some(ROut::Item(Err(ParserError::UnexpectedEof))),
        reader_step(st, Tok::Truncated).1 == Some(ROut::Item(Err(ParserError::UnexpectedEof))),
{
}

// ------------------------------------------------------------------
// Round trip
// ------------------------------------------------------------------
/// The outside base64 codec inverts: decoding what the encoder produced
/// gives the bytes back. The trusted wrappers state the instance of this at
/// every call; the codec is an outside collaborator, so the law takes it as
/// a hypothesis.
pub open spec fn data_codec_inverts() -> bool {
    forall|b: Seq<u8>| #[trigger] base64_decode(base64_text(b)) == Some(b)
}

/// The outside RFC 3339 codec inverts on valid dates, in the same sense.
pub open spec fn date_codec_inverts() -> bool {
    forall|d: PlistDate| valid_date(d) ==> #[trigger] rfc3339_parse(rfc3339_text(d)) == Some(d)
}

/// The element name a writer frame opens.
pub open spec fn frame_name(f: Frame) -> Seq<char> {
    match f {
        Frame::Root => "plist"@,
        Frame::Array => "array"@,
        Frame::DictKey => "dict"@,
        Frame::DictValue => "dict"@,
    }
}

/// The reader state that corresponds to a writer stack mid-document.
pub open spec fn mkr(st: Seq<Frame>) -> RState {
    RState { stack: st.map_values(|f: Frame| frame_name(f)), mode: RMode::Normal }
}

/// What the reader hands out for one accepted writer event: the document
/// start when the event opened the document, the event with its hint erased,
/// the document end when the event completed the single top-level value.
pub open spec fn echoes(s0: Seq<Frame>, s1: Seq<Frame>, e: EventV) -> Seq<ROut> {
    let pre: Seq<ROut> = if s0.len() == 0 {
        seq![ROut::Item(Ok(EventV::StartPlist))]
    } else {
        seq![]
    };
    let post: Seq<ROut> = if s1.len() == 0 {
        seq![ROut::Item(Ok(EventV::EndPlist))]
    } else {
        seq![]
    };
    pre + seq![ROut::Item(Ok(erase_hint(e)))] + post
}

/// What the reader hands out over a whole accepted event sequence.
pub open spec fn echoes_run(s0: Seq<Frame>, evs: Seq<EventV>) -> Seq<ROut>
    decreases evs.len(),
{
    if evs.len() == 0 || writer_step(s0, evs[0]) is None {
        seq![]
    } else {
        let s1 = writer_step(s0, evs[0])->Some_0.0;
        echoes(s0, s1, evs[0]) + echoes_run(s1, evs.skip(1))
    }
}

proof fn lemma_tags()
    ensures
        "plist"@.len() == 5 && "array"@.len() == 5 && "dict"@.len() == 4 && "key"@.len() == 3
            && "string"@.len() == 6 && "true"@.len() == 4 && "false"@.len() == 5 && "data"@.len()
            == 4 && "date"@.len() == 4 && "integer"@.len() == 7 && "real"@.len() == 4,
        "plist"@[0] == 'p' && "array"@[0] == 'a' && "false"@[0] == 'f',
        "dict"@[0] == 'd' && "true"@[0] == 't' && "data"@[0] == 'd' && "date"@[0] == 'd'
            && "real"@[0] == 'r',
        "data"@[2] == 't' && "date"@[2] == 't' && "dict"@[1] == 'i' && "data"@[1] == 'a'
            && "date"@[1] == 'a' && "data"@[3] == 'a' && "date"@[3] == 'e',
{
    reveal_strlit("plist");
    reveal_strlit("array");
    reveal_strlit("dict");
    reveal_strlit("key");
    reveal_strlit("string");
    reveal_strlit("true");
    reveal_strlit("false");
    reveal_strlit("data");
    reveal_strlit("date");
    reveal_strlit("integer");
    reveal_strlit("real");
}

/// Reading the tokens of one leaf element yields exactly its event.
proof fn lemma_elem_echo(rs: RState, tag: Seq<char>, text: Seq<char>, k: CKind, ev: EventV)
    requires
        rs.mode is Normal,
        start_action(rs, tag) == (RState { stack: rs.stack.push(tag), mode: RMode::Content(k) }, None::<ROut>),
        content_event(k, text) == Ok::<EventV, ParserError>(ev),
        tag != "array"@ && tag != "dict"@ && tag != "plist"@,
    ensures
        reader_run(rs, elem_toks(tag, text)) == (rs, seq![ROut::Item(Ok(ev))]),
{
    reveal_with_fuel(reader_run, 5);
    let toks = elem_toks(tag, text);
    let st1 = reader_step(rs, toks[0]).0;
    assert(toks[0] == Tok::Start(tag));
    assert(st1 == RState { stack: rs.stack.push(tag), mode: RMode::Content(k) });
    let st2 = reader_step(st1, toks[1]).0;
    assert(toks[1] == Tok::Text(text));
    assert(st2 == RState { stack: rs.stack.push(tag), mode: RMode::Normal });
    assert(toks[2] == Tok::End(tag));
    let fin = reader_step(st2, toks[2]);
    assert(st2.stack.last() == tag);
    assert(st2.stack.drop_last() =~= rs.stack);
    assert(fin.0 == rs);
    assert(fin.1 is None);
    assert(toks.skip(1).skip(1).skip(1) =~= Seq::<Tok>::empty());
    assert(toks.skip(1)[0] == toks[1] && toks.skip(1).skip(1)[0] == toks[2]);
    assert(reader_run(rs, toks).0 == rs);
    assert(reader_run(rs, toks).1 =~= seq![ROut::Item(Ok(ev))]);
}

/// One accepted writer event, played back through the reader, echoes that
/// event (and the document wrapper where the event opened or closed it).
proof fn lemma_step_echo(s0: Seq<Frame>, e: EventV)
    requires
        writer_step(s0, e) is Some,
        s0.len() > 0 ==> s0[0] == Frame::Root,
        data_codec_inverts(),
        date_codec_inverts(),
    ensures
        ({
            let p = writer_step(s0, e)->Some_0;
            reader_run(mkr(s0), p.1) == (mkr(p.0), echoes(s0, p.0, e))
        }),
{
    reveal_with_fuel(reader_run, 5);
    lemma_tags();
    let p = writer_step(s0, e)->Some_0;
    let st0 = if s0.len() == 0 {
        seq![Frame::Root]
    } else {
        s0
    };
    let pre: Seq<Tok> = if s0.len() == 0 {
        seq![Tok::Start("plist"@)]
    } else {
        seq![]
    };
    // the reader state once the document is open
    let rs0 = mkr(st0);
    if s0.len() == 0 {
        assert(reader_step(mkr(s0), Tok::Start("plist"@)) == (
            RState { stack: mkr(s0).stack.push("plist"@), mode: RMode::Normal },
            Some(ROut::Item(Ok(EventV::StartPlist))),
        ));
        assert(mkr(s0).stack.push("plist"@) =~= mkr(st0).stack);
    }
    if st0.last() == Frame::DictKey {
        match e {
            EventV::StringValue(s) => {
                let body = elem_toks("key"@, s);
                lemma_elem_echo(rs0, "key"@, s, CKind::Txt, EventV::StringValue(s));
                lemma_reader_run_append(mkr(s0), pre, body);
                assert(p.1 =~= pre + body);
                assert(p.0 == st0.update(st0.len() - 1, Frame::DictValue));
                assert(mkr(p.0).stack =~= rs0.stack);
                assert(mkr(p.0) == rs0);
                assert(reader_run(mkr(s0), p.1).1 =~= echoes(s0, p.0, e));
            },
            EventV::EndDictionary => {
                let s1 = st0.drop_last();
                assert(rs0.stack.last() == "dict"@);
                assert(reader_step(rs0, Tok::End("dict"@)).0.stack =~= mkr(s1).stack);
                if s1.len() == 1 && s1[0] == Frame::Root {
                    let body = seq![Tok::End("dict"@), Tok::End("plist"@)];
                    assert(p.1 =~= pre + body);
                    let r1 = reader_step(rs0, body[0]);
                    assert(r1.0 == mkr(s1));
                    assert(mkr(s1).stack.last() == "plist"@);
                    let r2 = reader_step(r1.0, body[1]);
                    assert(r2.0.stack =~= mkr(Seq::<Frame>::empty()).stack);
                    assert(body.skip(1).skip(1) =~= Seq::<Tok>::empty());
                    assert(body.skip(1)[0] == body[1]);
                    assert(reader_run(rs0, body).1 =~= seq![
                        ROut::Item(Ok(EventV::EndDictionary)),
                        ROut::Item(Ok(EventV::EndPlist)),
                    ]);
                    lemma_reader_run_append(mkr(s0), pre, body);
                    assert(p.0 == Seq::<Frame>::empty());
                    assert(reader_run(mkr(s0), p.1).1 =~= echoes(s0, p.0, e));
                    assert(reader_run(mkr(s0), p.1).0 == mkr(p.0));
                } else {
                    let body = seq![Tok::End("dict"@)];
                    assert(p.1 =~= pre + body);
                    assert(body.skip(1) =~= Seq::<Tok>::empty());
                    assert(reader_run(rs0, body).1 =~= seq![ROut::Item(Ok(EventV::EndDictionary))]);
                    lemma_reader_run_append(mkr(s0), pre, body);
                    assert(p.0 == s1);
                    assert(reader_run(mkr(s0), p.1).1 =~= echoes(s0, p.0, e));
                    assert(reader_run(mkr(s0), p.1).0 == mkr(p.0));
                }
            },
            _ => {
                assert(false);
            },
        }
        return ;
    }
    let st1 = if st0.last() == Frame::DictValue {
        st0.update(st0.len() - 1, Frame::DictKey)
    } else {
        st0
    };
    assert(mkr(st1).stack =~= rs0.stack);
    let rs1 = rs0;
    match e {
        EventV::StartArray(_) => {
            let body = seq![Tok::Start("array"@)];
            assert(p.1 =~= pre + body);
            assert(body.skip(1) =~= Seq::<Tok>::empty());
            assert(reader_run(rs1, body).1 =~= seq![ROut::Item(Ok(EventV::StartArray(None)))]);
            lemma_reader_run_append(mkr(s0), pre, body);
            assert(mkr(p.0).stack =~= rs1.stack.push("array"@));
            assert(reader_run(mkr(s0), p.1).0 == mkr(p.0));
            assert(reader_run(mkr(s0), p.1).1 =~= echoes(s0, p.0, e));
        },
        EventV::StartDictionary(_) => {
            let body = seq![Tok::Start("dict"@)];
            assert(p.1 =~= pre + body);
            assert(body.skip(1) =~= Seq::<Tok>::empty());
            assert(reader_run(rs1, body).1 =~= seq![ROut::Item(Ok(EventV::StartDictionary(None)))]);
            lemma_reader_run_append(mkr(s0), pre, body);
            assert(mkr(p.0).stack =~= rs1.stack.push("dict"@));
            assert(reader_run(mkr(s0), p.1).0 == mkr(p.0));
            assert(reader_run(mkr(s0), p.1).1 =~= echoes(s0, p.0, e));
        },
        EventV::EndArray => {
            let s1 = st1.drop_last();
            assert(st1.last() == Frame::Array);
            assert(rs1.stack.last() == "array"@);
            assert(rs1.stack.len() > 0);
            if s1.len() == 1 && s1[0] == Frame::Root {
                let body = seq![Tok::End("array"@), Tok::End("plist"@)];
                assert(p.1 =~= pre + body);
                let r1 = reader_step(rs1, body[0]);
                assert(r1.0.stack =~= mkr(s1).stack);
                assert(r1.0 == mkr(s1));
                assert(mkr(s1).stack.last() == "plist"@);
                let r2 = reader_step(r1.0, body[1]);
                assert(r2.0.stack =~= mkr(Seq::<Frame>::empty()).stack);
                assert(body.skip(1).skip(1) =~= Seq::<Tok>::empty());
                assert(body.skip(1)[0] == body[1]);
                assert(reader_run(rs1, body).1 =~= seq![
                    ROut::Item(Ok(EventV::EndArray)),
                    ROut::Item(Ok(EventV::EndPlist)),
                ]);
                lemma_reader_run_append(mkr(s0), pre, body);
                assert(p.0 == Seq::<Frame>::empty());
                assert(reader_run(mkr(s0), p.1).0 == mkr(p.0));
                assert(reader_run(mkr(s0), p.1).1 =~= echoes(s0, p.0, e));
            } else {
                let body = seq![Tok::End("array"@)];
                assert(p.1 =~= pre + body);
                assert(body.skip(1) =~= Seq::<Tok>::empty());
                let r1 = reader_step(rs1, body[0]);
                assert(r1.0.stack =~= mkr(s1).stack);
                assert(reader_run(rs1, body).1 =~= seq![ROut::Item(Ok(EventV::EndArray))]);
                lemma_reader_run_append(mkr(s0), pre, body);
                assert(p.0 == s1);
                assert(reader_run(mkr(s0), p.1).0 == mkr(p.0));
                assert(reader_run(mkr(s0), p.1).1 =~= echoes(s0, p.0, e));
            }
        },
        EventV::BooleanValue(b) => {
            let tag = if b {
                "true"@
            } else {
                "false"@
            };
            let body = seq![Tok::Start(tag), Tok::End(tag)];
            let r1 = reader_step(rs1, body[0]);
            assert(r1.1 == Some(ROut::Item(Ok(EventV::BooleanValue(b)))));
            assert(r1.0.stack =~= rs1.stack.push(tag));
            let r2 = reader_step(r1.0, body[1]);
            assert(r1.0.stack.last() == tag);
            assert(r1.0.stack.drop_last() =~= rs1.stack);
            assert(r2.0 == rs1);
            assert(body.skip(1).skip(1) =~= Seq::<Tok>::empty());
            assert(body.skip(1)[0] == body[1]);
            assert(reader_run(rs1, body).1 =~= seq![ROut::Item(Ok(EventV::BooleanValue(b)))]);
            lemma_close_tail(s0, st1, pre, body, e);
        },
        EventV::IntegerValue(i) => {
            lemma_fmt_parse_i64(i);
            let body = elem_toks("integer"@, crate::text::fmt_i64(i as int));
            lemma_elem_echo(
                rs1,
                "integer"@,
                crate::text::fmt_i64(i as int),
                CKind::Int,
                EventV::IntegerValue(i),
            );
            lemma_close_tail(s0, st1, pre, body, e);
        },
        EventV::RealValue(s) => {
            let body = elem_toks("real"@, s);
            lemma_elem_echo(rs1, "real"@, s, CKind::Real, EventV::RealValue(s));
            lemma_close_tail(s0, st1, pre, body, e);
        },
        EventV::StringValue(s) => {
            let body = elem_toks("string"@, s);
            lemma_elem_echo(rs1, "string"@, s, CKind::Txt, EventV::StringValue(s));
            lemma_close_tail(s0, st1, pre, body, e);
        },
        EventV::DataValue(b) => {
            let body = elem_toks("data"@, base64_text(b));
            assert(base64_decode(base64_text(b)) == Some(b));
            lemma_elem_echo(rs1, "data"@, base64_text(b), CKind::Data, EventV::DataValue(b));
            lemma_close_tail(s0, st1, pre, body, e);
        },
        EventV::DateValue(d) => {
            let body = elem_toks("date"@, rfc3339_text(d));
            assert(valid_date(d));
            assert(rfc3339_parse(rfc3339_text(d)) == Some(d));
            lemma_elem_echo(rs1, "date"@, rfc3339_text(d), CKind::Date, EventV::DateValue(d));
            lemma_close_tail(s0, st1, pre, body, e);
        },
        _ => {
            assert(false);
        },
    }
}

/// Glue for a scalar: the document-open prefix, the element body whose echo
/// is the one event, and the auto-close of the root where it applies.
#[verifier::rlimit(50)]
proof fn lemma_close_tail(s0: Seq<Frame>, st1: Seq<Frame>, pre: Seq<Tok>, body: Seq<Tok>, e: EventV)
    requires
        writer_step(s0, e) is Some,
        s0.len() > 0 ==> s0[0] == Frame::Root,
        ({
            let st0 = if s0.len() == 0 {
                seq![Frame::Root]
            } else {
                s0
            };
            &&& pre == if s0.len() == 0 {
                seq![Tok::Start("plist"@)]
            } else {
                Seq::<Tok>::empty()
            }
            &&& st0.last() != Frame::DictKey
            &&& st1 == if st0.last() == Frame::DictValue {
                st0.update(st0.len() - 1, Frame::DictKey)
            } else {
                st0
            }
            &&& writer_step(s0, e)->Some_0 == close_root(st1, pre + body)
            &&& reader_run(mkr(st1), body) == (
                mkr(st1),
                seq![ROut::Item(Ok(erase_hint(e)))],
            )
        }),
    ensures
        ({
            let p = writer_step(s0, e)->Some_0;
            reader_run(mkr(s0), p.1) == (mkr(p.0), echoes(s0, p.0, e))
        }),
{
    reveal_with_fuel(reader_run, 5);
    lemma_tags();
    let st0 = if s0.len() == 0 {
        seq![Frame::Root]
    } else {
        s0
    };
    let p = writer_step(s0, e)->Some_0;
    assert(mkr(st1).stack =~= mkr(st0).stack);
    if s0.len() == 0 {
        assert(reader_step(mkr(s0), Tok::Start("plist"@)).0.stack =~= mkr(st0).stack);
    }
    if st1.len() == 1 && st1[0] == Frame::Root {
        // the scalar completed the single top-level value: the root closes
        let full = body.push(Tok::End("plist"@));
        assert(p.1 =~= pre + full);
        assert(mkr(st1).stack =~= seq!["plist"@]);
        let rend = reader_step(mkr(st1), Tok::End("plist"@));
        assert(rend.0.stack =~= mkr(Seq::<Frame>::empty()).stack);
        assert(full =~= body + seq![Tok::End("plist"@)]);
        lemma_reader_run_append(mkr(st1), body, seq![Tok::End("plist"@)]);
        assert(seq![Tok::End("plist"@)].skip(1) =~= Seq::<Tok>::empty());
        assert(reader_run(mkr(st1), full).1 =~= seq![
            ROut::Item(Ok(erase_hint(e))),
            ROut::Item(Ok(EventV::EndPlist)),
        ]);
        lemma_reader_run_append(mkr(s0), pre, full);
        assert(p.0 == Seq::<Frame>::empty());
        assert(reader_run(mkr(s0), p.1).0 == mkr(p.0));
        assert(reader_run(mkr(s0), p.1).1 =~= echoes(s0, p.0, e));
    } else {
        assert(p.1 =~= pre + body);
        lemma_reader_run_append(mkr(s0), pre, body);
        assert(p.0 == st1);
        assert(reader_run(mkr(s0), p.1).0 == mkr(p.0));
        assert(reader_run(mkr(s0), p.1).1 =~= echoes(s0, p.0, e));
    }
}

/// Playing every token an accepted event sequence writes back through the
/// reader echoes the sequence, hint-erased, inside the document wrapper.
pub proof fn lemma_round_trip_runs(s0: Seq<Frame>, evs: Seq<EventV>)
    requires
        writer_run(s0, evs) is Some,
        s0.len() > 0 ==> s0[0] == Frame::Root,
        data_codec_inverts(),
        date_codec_inverts(),
    ensures
        ({
            let p = writer_run(s0, evs)->Some_0;
            reader_run(mkr(s0), p.1) == (mkr(p.0), echoes_run(s0, evs))
        }),
    decreases evs.len(),
{
    let p = writer_run(s0, evs)->Some_0;
    if evs.len() == 0 {
        assert(p.1 =~= Seq::<Tok>::empty());
        assert(echoes_run(s0, evs) =~= Seq::<ROut>::empty());
    } else {
        let q = writer_step(s0, evs[0])->Some_0;
        let rest = writer_run(q.0, evs.skip(1))->Some_0;
        lemma_step_echo(s0, evs[0]);
        assert(q.0.len() > 0 ==> q.0[0] == Frame::Root);
        lemma_round_trip_runs(q.0, evs.skip(1));
        lemma_reader_run_append(mkr(s0), q.1, rest.1);
        assert(p.1 == q.1 + rest.1);
        assert(reader_run(mkr(s0), p.1).1 =~= echoes(s0, q.0, evs[0]) + echoes_run(
            q.0,
            evs.skip(1),
        ));
        assert(echoes_run(s0, evs) == echoes(s0, q.0, evs[0]) + echoes_run(q.0, evs.skip(1)));
    }
}

/// Round trip for a whole document: the writer accepts the event sequence
/// and closes the document; reading the written tokens back yields the
/// document start, the same events with container hints erased, the document
/// end, and the clean end of the stream. The law lives at the tag-token
/// level: the byte transport between emitter and tokenizer is outside it,
/// and that transport elides one thing the tokens keep — the empty text of
/// an empty string element, which therefore does not read back.
pub proof fn lemma_round_trip(evs: Seq<EventV>)
    requires
        writer_run(Seq::<Frame>::empty(), evs) is Some,
        writer_run(Seq::<Frame>::empty(), evs)->Some_0.0 == Seq::<Frame>::empty(),
        data_codec_inverts(),
        date_codec_inverts(),
    ensures
        ({
            let toks = writer_run(Seq::<Frame>::empty(), evs)->Some_0.1;
            reader_run(init_rstate(), toks.push(Tok::Eof)).1 == echoes_run(
                Seq::<Frame>::empty(),
                evs,
            ) + seq![ROut::End]
        }),
{
    reveal_with_fuel(reader_run, 3);
    let p = writer_run(Seq::<Frame>::empty(), evs)->Some_0;
    lemma_round_trip_runs(Seq::<Frame>::empty(), evs);
    assert(mkr(Seq::<Frame>::empty()).stack =~= Seq::<Seq<char>>::empty());
    assert(mkr(Seq::<Frame>::empty()) == init_rstate());
    assert(p.1.push(Tok::Eof) =~= p.1 + seq![Tok::Eof]);
    lemma_reader_run_append(init_rstate(), p.1, seq![Tok::Eof]);
    let endst = reader_step(mkr(p.0), Tok::Eof);
    assert(mkr(p.0).stack.len() == 0);
    assert(endst.1 == Some(ROut::End));
    assert(seq![Tok::Eof].skip(1) =~= Seq::<Tok>::empty());
    assert(reader_run(mkr(p.0), seq![Tok::Eof]).1 =~= seq![ROut::End]);
}

/// Single-root wrapping: one bare scalar written from a fresh writer yields
/// the root wrapper around exactly one inner element, and reading that back
/// yields the document start, the scalar event, the document end.
pub proof fn lemma_single_scalar_document(e: EventV)
    requires
        scalar_toks(e) is Some,
        data_codec_inverts(),
        date_codec_inverts(),
    ensures
        writer_step(Seq::<Frame>::empty(), e) == Some(
            (
                Seq::<Frame>::empty(),
                seq![Tok::Start("plist"@)] + scalar_toks(e)->Some_0 + seq![Tok::End("plist"@)],
            ),
        ),
        ({
            let toks = writer_step(Seq::<Frame>::empty(), e)->Some_0.1;
            reader_run(init_rstate(), toks.push(Tok::Eof)).1 == seq![
                ROut::Item(Ok(EventV::StartPlist)),
                ROut::Item(Ok(erase_hint(e))),
                ROut::Item(Ok(EventV::EndPlist)),
                ROut::End,
            ]
        }),
{
    reveal_with_fuel(reader_run, 3);
    reveal_with_fuel(writer_run, 3);
    let pre = seq![Tok::Start("plist"@)];
    let ts = scalar_toks(e)->Some_0;
    assert(writer_step(Seq::<Frame>::empty(), e) is Some);
    let p = writer_step(Seq::<Frame>::empty(), e)->Some_0;
    assert(p.1 =~= pre + ts + seq![Tok::End("plist"@)]);
    assert(p.0 =~= Seq::<Frame>::empty());
    let evs = seq![e];
    assert(evs[0] == e);
    assert(evs.skip(1) =~= Seq::<EventV>::empty());
    assert(writer_run(Seq::<Frame>::empty(), evs) == Some((p.0, p.1 + Seq::<Tok>::empty())));
    assert(p.1 + Seq::<Tok>::empty() =~= p.1);
    lemma_round_trip(evs);
    reveal_with_fuel(echoes_run, 3);
    assert(echoes_run(Seq::<Frame>::empty(), evs) =~= echoes(Seq::<Frame>::empty(), p.0, e));
    assert(echoes(Seq::<Frame>::empty(), p.0, e) + seq![ROut::End] =~= seq![
        ROut::Item(Ok(EventV::StartPlist)),
        ROut::Item(Ok(erase_hint(e))),
        ROut::Item(Ok(EventV::EndPlist)),
        ROut::End,
    ]);
}

} // verus!
