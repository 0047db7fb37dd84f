use std::io::Cursor;

use chrono::Datelike;
use chrono::Timelike;
use vstd::prelude::*;
use xml::reader::ErrorKind;
use xml::reader::EventReader;
use xml::reader::XmlEvent;

use crate::codec::{
    base64_decode, init_rstate, opt_out, reader_run, reader_step, rfc3339_parse, rfc3339_text,
    CKind, RMode, ROut, RState, Tok,
};
use crate::text::{is_real_literal, parse_i64_exec, str_eq};
use crate::{valid_date, ParserError, ParserResult, PlistDate, PlistEvent};

verus! {

/// Holds the XML tokenizer over the input bytes. The tokenizer's type
/// parameter carries a trait bound that cannot be declared to the verifier,
/// so the whole holder is opaque.
#[verifier::external_body]
pub struct XmlSource {
    inner: EventReader<Cursor<Vec<u8>>>,
}

/// One converted tokenizer event.
pub enum XmlToken {
    StartTag(String),
    EndTag(String),
    Text(String),
    Eof,
    Truncated,
    Fault,
    IoFault,
    Skip,
}

impl View for XmlToken {
    type V = Tok;

    open spec fn view(&self) -> Tok {
        match self {
            XmlToken::StartTag(n) => Tok::Start(n@),
            XmlToken::EndTag(n) => Tok::End(n@),
            XmlToken::Text(s) => Tok::Text(s@),
            XmlToken::Eof => Tok::Eof,
            XmlToken::Truncated => Tok::Truncated,
            XmlToken::Fault => Tok::Fault,
            XmlToken::IoFault => Tok::IoFault,
            XmlToken::Skip => Tok::Skip,
        }
    }
}

/// What one reader step hands out for a returned value.
pub open spec fn out_of(r: Option<Result<PlistEvent, ParserError>>) -> Seq<ROut> {
    match r {
        None => seq![ROut::End],
        Some(Result::Ok(e)) => seq![ROut::Item(Ok(e@))],
        Some(Result::Err(p)) => seq![ROut::Item(Err(p))],
    }
}

/// Running the reader over one more token runs one more step.
proof fn lemma_run_snoc(st0: RState, a: Seq<Tok>, t: Tok)
    ensures
        reader_run(st0, a.push(t)).0 == reader_step(reader_run(st0, a).0, t).0,
        reader_run(st0, a.push(t)).1 == reader_run(st0, a).1 + opt_out(
            reader_step(reader_run(st0, a).0, t).1,
        ),
{
    let single = seq![t];
    assert(a.push(t) =~= a + single);
    crate::codec::lemma_reader_run_append(st0, a, single);
    assert(single.skip(1) =~= Seq::<Tok>::empty());
    let mid = reader_run(st0, a).0;
    let stp = reader_step(mid, t);
    assert(single[0] == t);
    assert(reader_run(stp.0, single.skip(1)) == (stp.0, Seq::<ROut>::empty()));
    assert(reader_run(mid, single).1 =~= opt_out(stp.1) + Seq::<ROut>::empty());
    assert(opt_out(stp.1) + Seq::<ROut>::empty() =~= opt_out(stp.1));
}

/// A streaming plist reader over in-memory XML bytes. The element stack and
/// finished flag are the structural state; `log` models the transport tokens
/// consumed so far.
pub struct StreamingParser {
    xml: XmlSource,
    log: Ghost<Seq<Tok>>,
    fuel: Ghost<nat>,
    stack: Vec<String>,
    finished: bool,
}

impl StreamingParser {
    /// Every transport token consumed so far.
    pub closed spec fn log_v(&self) -> Seq<Tok> {
        self.log@
    }

    /// An upper bound on the structural tokens the input still holds; only
    /// its decrease is ever relied on.
    pub closed spec fn fuel_v(&self) -> nat {
        self.fuel@
    }

    pub closed spec fn stack_v(&self) -> Seq<Seq<char>> {
        self.stack@.map_values(|s: String| s@)
    }

    pub closed spec fn finished_v(&self) -> bool {
        self.finished
    }

    /// The reader's machine state between calls: it never rests mid-content.
    pub open spec fn st(&self) -> RState {
        RState {
            stack: self.stack_v(),
            mode: if self.finished_v() {
                RMode::Done
            } else {
                RMode::Normal
            },
        }
    }

    /// Relies on xml's ParserConfig and EventReader::new_with_config: a
    /// tokenizer over the input bytes that keeps whitespace as character
    /// data, turns CDATA into character data, coalesces character data and
    /// ignores comments.
    #[verifier::external_body]
    fn make_tokenizer(input: Vec<u8>) -> (x: XmlSource) {
        let config = xml::reader::ParserConfig::new().trim_whitespace(false)
            .whitespace_to_characters(true).cdata_to_characters(true).ignore_comments(
            true,
        ).coalesce_characters(true);
        XmlSource { inner: EventReader::new_with_config(Cursor::new(input), config) }
    }

    pub fn new(input: Vec<u8>) -> (p: StreamingParser)
        ensures
            p.log_v() == Seq::<Tok>::empty(),
            p.st() == init_rstate(),
            !p.finished_v(),
    {
        let p = StreamingParser {
            xml: Self::make_tokenizer(input),
            log: Ghost(Seq::empty()),
            fuel: Ghost(arbitrary()),
            stack: Vec::new(),
            finished: false,
        };
        proof {
            assert(p.stack_v() =~= Seq::<Seq<char>>::empty());
        }
        p
    }

    /// Relies on xml's EventReader::next, converting each tokenizer event or
    /// fault to one transport token. Attributes and namespaces are dropped
    /// (the reader ignores them). The tokenizer reports input that ends too
    /// soon only as a syntax fault, so the conversion recognizes its fixed
    /// end-of-stream messages: "no root element found" is a clean end of
    /// empty input (`Eof`), the other "Unexpected end of stream" reports and
    /// a character truncated at end of input are `Truncated`; an I/O fault
    /// is `IoFault`, any other fault `Fault`. Every token but the terminal
    /// ones consumes input, so the fuel bound falls.
    #[verifier::external_body]
    fn next_token(&mut self) -> (t: XmlToken)
        ensures
            final (self).log_v() == old(self).log_v().push(t@),
            final (self).stack_v() == old(self).stack_v(),
            final (self).finished_v() == old(self).finished_v(),
            t@ == Tok::Eof || t@ == Tok::Truncated || t@ == Tok::Fault || t@ == Tok::IoFault
                || final (self).fuel_v() < old(self).fuel_v(),
    {
        match self.xml.inner.next() {
            Ok(XmlEvent::StartElement { name, .. }) => XmlToken::StartTag(name.local_name),
            Ok(XmlEvent::EndElement { name }) => XmlToken::EndTag(name.local_name),
            Ok(XmlEvent::Characters(s)) => XmlToken::Text(s),
            Ok(XmlEvent::EndDocument) => XmlToken::Eof,
            Ok(_) => XmlToken::Skip,
            Err(e) => match e.kind() {
                ErrorKind::UnexpectedEof => XmlToken::Truncated,
                ErrorKind::Io(_) => XmlToken::IoFault,
                ErrorKind::Syntax(m) if m.ends_with("no root element found") => XmlToken::Eof,
                ErrorKind::Syntax(m) if m.starts_with("Unexpected end of stream") => XmlToken::Truncated,
                _ => XmlToken::Fault,
            },
        }
    }

    /// Relies on chrono's DateTime::parse_from_rfc3339 and
    /// with_timezone(Utc): parses RFC 3339 text and reads the UTC field
    /// values; text that formatting a valid date produced parses back to
    /// that date.
    #[verifier::external_body]
    fn parse_rfc3339(s: &str) -> (r: Option<PlistDate>)
        ensures
            r == rfc3339_parse(s@),
            forall|d: PlistDate| valid_date(d) && s@ == rfc3339_text(d) ==> r == Some(d),
    {
        match chrono::DateTime::parse_from_rfc3339(s) {
            Ok(dt) => {
                let u = dt.with_timezone(&chrono::Utc);
                Some(PlistDate {
                    year: u.year(), month: u.month(), day: u.day(), hour: u.hour(),
                    minute: u.minute(), second: u.second(), nanosecond: u.nanosecond(),
                })
            },
            Err(_) => None,
        }
    }

    /// Relies on rustc_serialize's FromBase64 for str: decodes base64 text,
    /// skipping newlines; text that the line-wrapped encoder produced
    /// decodes back to the original bytes.
    #[verifier::external_body]
    fn decode_base64(s: &str) -> (r: Option<Vec<u8>>)
        ensures
            r is Some <==> base64_decode(s@) is Some,
            r matches Some(v) ==> base64_decode(s@) == Some(v@),
            forall|b: Seq<u8>|
                s@ == crate::codec::base64_text(b) ==> r is Some && r->0@ == b,
    {
        rustc_serialize::base64::FromBase64::from_base64(s).ok()
    }

    /// Pull the next event: `None` when the document ended cleanly or the
    /// instance is finished; otherwise the event or the first error, after
    /// which the instance is finished. The result is exactly what the
    /// reader machine yields over the freshly consumed transport tokens.
    #[verifier::loop_isolation(false)]
    pub fn next(&mut self) -> (r: Option<ParserResult<PlistEvent>>)
        ensures
            old(self).finished_v() ==> r is None && final (self).log_v() == old(self).log_v()
                && final (self).stack_v() == old(self).stack_v() && final (self).finished_v(),
            !old(self).finished_v() ==> ({
                let delta = final (self).log_v().skip(old(self).log_v().len() as int);
                &&& final (self).log_v().len() > old(self).log_v().len()
                &&& final (self).log_v().take(old(self).log_v().len() as int) == old(
                    self,
                ).log_v()
                &&& reader_run(old(self).st(), delta) == (final (self).st(), out_of(r))
                &&& reader_run(old(self).st(), delta.drop_last()).1 == Seq::<ROut>::empty()
            }),
    {
        if self.finished {
            return None;
        }
        let ghost st0 = self.st();
        let ghost log0 = self.log_v();
        loop
            invariant
                !self.finished,
                self.log_v().len() >= log0.len(),
                self.log_v().take(log0.len() as int) == log0,
                reader_run(st0, self.log_v().skip(log0.len() as int)) == (
                    self.st(),
                    Seq::<ROut>::empty(),
                ),
            decreases self.fuel_v(),
        {
            let ghost pre_log = self.log_v();
            let ghost pre_st = self.st();
            let t = self.next_token();
            proof {
                let dpre = pre_log.skip(log0.len() as int);
                assert(self.log_v().skip(log0.len() as int) =~= dpre.push(t@));
                lemma_run_snoc(st0, dpre, t@);
                assert(self.log_v().take(log0.len() as int) =~= log0);
                assert(Seq::<ROut>::empty() + opt_out(reader_step(pre_st, t@).1) =~= opt_out(
                    reader_step(pre_st, t@).1,
                ));
                assert(self.log_v().skip(log0.len() as int).drop_last() =~= dpre);
            }
            let ghost step1 = reader_step(pre_st, t@);
            match t {
                XmlToken::StartTag(name) => {
                    self.stack.push(name.clone());
                    proof {
                        assert(self.stack_v() =~= pre_st.stack.push(name@));
                    }
                    let kind: CKind = if str_eq(name.as_str(), "plist") {
                        return Some(Ok(PlistEvent::StartPlist));
                    } else if str_eq(name.as_str(), "array") {
                        return Some(Ok(PlistEvent::StartArray(None)));
                    } else if str_eq(name.as_str(), "dict") {
                        return Some(Ok(PlistEvent::StartDictionary(None)));
                    } else if str_eq(name.as_str(), "key") || str_eq(name.as_str(), "string") {
                        CKind::Txt
                    } else if str_eq(name.as_str(), "true") {
                        return Some(Ok(PlistEvent::BooleanValue(true)));
                    } else if str_eq(name.as_str(), "false") {
                        return Some(Ok(PlistEvent::BooleanValue(false)));
                    } else if str_eq(name.as_str(), "data") {
                        CKind::Data
                    } else if str_eq(name.as_str(), "date") {
                        CKind::Date
                    } else if str_eq(name.as_str(), "integer") {
                        CKind::Int
                    } else if str_eq(name.as_str(), "real") {
                        CKind::Real
                    } else {
                        self.finished = true;
                        return Some(Err(ParserError::InvalidData));
                    };
                    // a content-bearing leaf: its text must follow at once
                    let ghost st_mid = step1.0;
                    proof {
                        assert(st_mid.mode == RMode::Content(kind));
                        assert(st_mid.stack == self.stack_v());
                    }
                    let ghost pre_log2 = self.log_v();
                    let t2 = self.next_token();
                    proof {
                        let dpre2 = pre_log2.skip(log0.len() as int);
                        assert(self.log_v().skip(log0.len() as int) =~= dpre2.push(t2@));
                        lemma_run_snoc(st0, dpre2, t2@);
                        assert(self.log_v().take(log0.len() as int) =~= log0);
                        assert(Seq::<ROut>::empty() + opt_out(reader_step(st_mid, t2@).1)
                            =~= opt_out(reader_step(st_mid, t2@).1));
                        assert(self.log_v().skip(log0.len() as int).drop_last() =~= dpre2);
                    }
                    match t2 {
                        XmlToken::Text(s) => {
                            match kind {
                                CKind::Txt => {
                                    return Some(Ok(PlistEvent::StringValue(s)));
                                },
                                CKind::Int => {
                                    match parse_i64_exec(s.as_str()) {
                                        Some(v) => {
                                            return Some(Ok(PlistEvent::IntegerValue(v)));
                                        },
                                        None => {
                                            self.finished = true;
                                            return Some(Err(ParserError::InvalidData));
                                        },
                                    }
                                },
                                CKind::Real => {
                                    if is_real_literal(s.as_str()) {
                                        return Some(Ok(PlistEvent::RealValue(s)));
                                    } else {
                                        self.finished = true;
                                        return Some(Err(ParserError::InvalidData));
                                    }
                                },
                                CKind::Data => {
                                    match Self::decode_base64(s.as_str()) {
                                        Some(v) => {
                                            return Some(Ok(PlistEvent::DataValue(v)));
                                        },
                                        None => {
                                            self.finished = true;
                                            return Some(Err(ParserError::InvalidData));
                                        },
                                    }
                                },
                                CKind::Date => {
                                    match Self::parse_rfc3339(s.as_str()) {
                                        Some(d) => {
                                            return Some(Ok(PlistEvent::DateValue(d)));
                                        },
                                        None => {
                                            self.finished = true;
                                            return Some(Err(ParserError::InvalidData));
                                        },
                                    }
                                },
                            }
                        },
                        _ => {
                            self.finished = true;
                            return Some(Err(ParserError::InvalidData));
                        },
                    }
                },
                XmlToken::EndTag(name) => {
                    let popped = self.stack.pop();
                    match popped {
                        None => {
                            proof {
                                assert(pre_st.stack.len() == 0);
                            }
                            self.finished = true;
                            return Some(Err(ParserError::InvalidData));
                        },
                        Some(top) => {
                            proof {
                                assert(pre_st.stack.last() == top@);
                                assert(self.stack_v() =~= pre_st.stack.drop_last());
                            }
                            if !str_eq(top.as_str(), name.as_str()) {
                                self.finished = true;
                                return Some(Err(ParserError::InvalidData));
                            }
                            if str_eq(name.as_str(), "array") {
                                return Some(Ok(PlistEvent::EndArray));
                            } else if str_eq(name.as_str(), "dict") {
                                return Some(Ok(PlistEvent::EndDictionary));
                            } else if str_eq(name.as_str(), "plist") {
                                return Some(Ok(PlistEvent::EndPlist));
                            }
                            // other leaf elements were handled on open
                        },
                    }
                },
                XmlToken::Text(_) => {
                    // character data between elements is not structural
                },
                XmlToken::Skip => {},
                XmlToken::Eof => {
                    self.finished = true;
                    if self.stack.len() == 0 {
                        return None;
                    } else {
                        return Some(Err(ParserError::UnexpectedEof));
                    }
                },
                XmlToken::Truncated => {
                    self.finished = true;
                    return Some(Err(ParserError::UnexpectedEof));
                },
                XmlToken::Fault => {
                    self.finished = true;
                    return Some(Err(ParserError::InvalidData));
                },
                XmlToken::IoFault => {
                    self.finished = true;
                    return Some(Err(ParserError::Io));
                },
            }
        }
    }
}

} // verus!
