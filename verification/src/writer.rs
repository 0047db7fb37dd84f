use chrono::TimeZone;
use chrono::Timelike;
use vstd::prelude::*;
use xml::writer::EventWriter as XmlEventWriter;

use crate::codec::{
    base64_decode, base64_text, close_root, elem_toks, rfc3339_parse, rfc3339_text, writer_step,
    Frame, Tok,
};
use crate::text::{fmt_i64_exec, is_real_literal};
use crate::{date_is_valid, valid_date, Error, PlistDate, PlistEvent, WriteResult};

verus! {

#[verifier::external_type_specification]
#[verifier::external_body]
#[verifier::reject_recursive_types(W)]
pub struct ExXmlEventWriter<W>(XmlEventWriter<W>);

/// A streaming plist writer over an in-memory byte sink. The frame stack is
/// the structural state; `tokens` models the tag-level tokens handed to the
/// XML emitter (the root element's fixed `version="1.0"` attribute is below
/// the model).
pub struct EventWriter {
    xml: XmlEventWriter<Vec<u8>>,
    stack: Vec<Frame>,
    tokens: Ghost<Seq<Tok>>,
}

impl EventWriter {
    /// The open frames, innermost last; empty means no document started or
    /// the document is complete.
    pub closed spec fn stack_v(&self) -> Seq<Frame> {
        self.stack@
    }

    /// Every token handed to the XML emitter so far.
    pub closed spec fn tokens_v(&self) -> Seq<Tok> {
        self.tokens@
    }

    /// Relies on xml's EmitterConfig and the emitter constructor: an emitter
    /// over an empty byte buffer with 4-space indentation, an XML
    /// declaration, content escaping and self-closed empty elements.
    #[verifier::external_body]
    fn make_emitter() -> (x: XmlEventWriter<Vec<u8>>) {
        let config = xml::writer::EmitterConfig::new().indent_string("    ").perform_indent(
            true,
        ).keep_element_names_stack(false).pad_self_closing(false);
        XmlEventWriter::new_with_config(Vec::new(), config)
    }

    pub fn new() -> (w: EventWriter)
        ensures
            w.stack_v() == Seq::<Frame>::empty(),
            w.tokens_v() == Seq::<Tok>::empty(),
    {
        EventWriter { xml: EventWriter::make_emitter(), stack: Vec::new(), tokens: Ghost(Seq::empty()) }
    }

    /// Relies on xml's EventWriter::into_inner: hands back the bytes the
    /// emitter wrote. Their formatting is the emitter's own, below the
    /// tag-token model.
    #[verifier::external_body]
    pub fn into_inner(self) -> (r: Vec<u8>) {
        self.xml.into_inner()
    }

    /// Relies on xml's EventWriter::write with a start-element event. The
    /// sink is the writer's own in-memory buffer, whose writes cannot fail,
    /// and the emitter raises no other fault for a start element, so the
    /// call succeeds; the error mapping (I/O fault to `Io`, any other to
    /// `InvalidData`) covers branches the source shows to be dead here.
    #[verifier::external_body]
    fn xml_start(&mut self, name: &str) -> (r: WriteResult<()>)
        ensures
            r is Ok,
            final (self).stack_v() == old(self).stack_v(),
            final (self).tokens_v() == old(self).tokens_v().push(Tok::Start(name@)),
    {
        match self.xml.write(xml::writer::XmlEvent::start_element(name)) {
            Ok(()) => Ok(()),
            Err(xml::writer::Error::Io(_)) => Err(Error::Io),
            Err(_) => Err(Error::InvalidData),
        }
    }

    /// Relies on xml's EventWriter::write with the root start-element event,
    /// which carries the fixed `version="1.0"` attribute; infallible over
    /// the in-memory sink, as for `xml_start`.
    #[verifier::external_body]
    fn xml_start_root(&mut self) -> (r: WriteResult<()>)
        ensures
            r is Ok,
            final (self).stack_v() == old(self).stack_v(),
            final (self).tokens_v() == old(self).tokens_v().push(Tok::Start("plist"@)),
    {
        let event = xml::writer::XmlEvent::start_element("plist").attr("version", "1.0");
        match self.xml.write(event) {
            Ok(()) => Ok(()),
            Err(xml::writer::Error::Io(_)) => Err(Error::Io),
            Err(_) => Err(Error::InvalidData),
        }
    }

    /// Relies on xml's EventWriter::write with a characters event; the
    /// emitter escapes the text. Infallible over the in-memory sink, as for
    /// `xml_start`.
    #[verifier::external_body]
    fn xml_text(&mut self, text: &str) -> (r: WriteResult<()>)
        ensures
            r is Ok,
            final (self).stack_v() == old(self).stack_v(),
            final (self).tokens_v() == old(self).tokens_v().push(Tok::Text(text@)),
    {
        match self.xml.write(xml::writer::XmlEvent::characters(text)) {
            Ok(()) => Ok(()),
            Err(xml::writer::Error::Io(_)) => Err(Error::Io),
            Err(_) => Err(Error::InvalidData),
        }
    }

    /// Relies on xml's EventWriter::write with an end-element event named
    /// explicitly: with the element-names stack disabled the emitter checks
    /// nothing against the name, so over the in-memory sink the call
    /// succeeds, as for `xml_start`.
    #[verifier::external_body]
    fn xml_end(&mut self, name: &str) -> (r: WriteResult<()>)
        ensures
            r is Ok,
            final (self).stack_v() == old(self).stack_v(),
            final (self).tokens_v() == old(self).tokens_v().push(Tok::End(name@)),
    {
        match self.xml.write(xml::writer::XmlEvent::end_element().name(name)) {
            Ok(()) => Ok(()),
            Err(xml::writer::Error::Io(_)) => Err(Error::Io),
            Err(_) => Err(Error::InvalidData),
        }
    }

    fn write_elem(&mut self, name: &str, text: &str) -> (r: WriteResult<()>)
        ensures
            r is Ok,
            final (self).stack_v() == old(self).stack_v(),
            final (self).tokens_v() == old(self).tokens_v() + elem_toks(name@, text@),
    {
        self.xml_start(name)?;
        self.xml_text(text)?;
        self.xml_end(name)?;
        proof {
            assert(self.tokens_v() =~= old(self).tokens_v() + elem_toks(name@, text@));
        }
        Ok(())
    }

    /// Relies on rustc_serialize's ToBase64 with the MIME config: base64
    /// text wrapped at 76 characters; what it encodes decodes back to the
    /// same bytes.
    #[verifier::external_body]
    fn encode_base64(v: &Vec<u8>) -> (r: String)
        ensures
            r@ == base64_text(v@),
            base64_decode(r@) == Some(v@),
    {
        rustc_serialize::base64::ToBase64::to_base64(v.as_slice(), rustc_serialize::base64::MIME)
    }

    /// Relies on chrono's with_ymd_and_hms, with_nanosecond and to_rfc3339
    /// over UTC: the RFC 3339 text of the instant, which parses back to the
    /// same date.
    #[verifier::external_body]
    fn format_rfc3339(d: &PlistDate) -> (r: String)
        requires
            valid_date(*d),
        ensures
            r@ == rfc3339_text(*d),
            rfc3339_parse(r@) == Some(*d),
    {
        let dt = chrono::Utc.with_ymd_and_hms(
            d.year,
            d.month,
            d.day,
            d.hour,
            d.minute,
            d.second,
        ).unwrap();
        Timelike::with_nanosecond(&dt, d.nanosecond).unwrap().to_rfc3339()
    }

    /// If the single top-level value just completed, close the root element.
    fn maybe_end_plist(&mut self) -> (r: WriteResult<()>)
        ensures
            r is Ok,
            ({
                let c = close_root(old(self).stack_v(), old(self).tokens_v());
                final (self).stack_v() == c.0 && final (self).tokens_v() == c.1
            }),
    {
        if self.stack.len() == 1 && self.stack[0] == Frame::Root {
            self.xml_end("plist")?;
            self.stack.pop();
            proof {
                assert(self.stack_v() =~= Seq::<Frame>::empty());
            }
        }
        Ok(())
    }

    /// Hand the writer one event. Exactly the events that are illegal in the
    /// current state are rejected with `InvalidData` before anything is
    /// written; a legal event succeeds, advances the frame stack and writes
    /// the tokens that `writer_step` names.
    pub fn write(&mut self, event: &PlistEvent) -> (r: WriteResult<()>)
        ensures
            writer_step(old(self).stack_v(), event@) is None ==> r == Err::<(), Error>(
                Error::InvalidData,
            ) && final (self).stack_v() == old(self).stack_v() && final (self).tokens_v()
                == old(self).tokens_v(),
            writer_step(old(self).stack_v(), event@) matches Some(p) ==> r is Ok
                && final (self).stack_v() == p.0 && final (self).tokens_v()
                == old(self).tokens_v() + p.1,
            r matches Err(e) ==> e == Error::InvalidData,
    {
        let n = self.stack.len();
        let top: Option<Frame> = if n == 0 {
            None
        } else {
            Some(self.stack[n - 1])
        };
        let in_key: bool = match top {
            Some(Frame::DictKey) => true,
            _ => false,
        };
        let legal: bool = match event {
            PlistEvent::StartPlist => false,
            PlistEvent::EndPlist => false,
            PlistEvent::StringValue(_) => true,
            PlistEvent::EndDictionary => in_key,
            PlistEvent::StartArray(_) => !in_key,
            PlistEvent::StartDictionary(_) => !in_key,
            PlistEvent::EndArray => match top {
                Some(Frame::Array) => true,
                _ => false,
            },
            PlistEvent::BooleanValue(_) => !in_key,
            PlistEvent::IntegerValue(_) => !in_key,
            PlistEvent::RealValue(s) => !in_key && is_real_literal(s.as_str()),
            PlistEvent::DataValue(_) => !in_key,
            PlistEvent::DateValue(d) => !in_key && date_is_valid(d),
        };
        proof {
            if legal {
                assert(writer_step(old(self).stack_v(), event@) is Some);
            } else {
                assert(writer_step(old(self).stack_v(), event@) is None);
            }
        }
        if !legal {
            return Err(Error::InvalidData);
        }
        let ghost p = writer_step(old(self).stack_v(), event@)->Some_0;
        if self.stack.len() == 0 {
            self.xml_start_root()?;
            self.stack.push(Frame::Root);
        }
        let ghost st0 = self.stack_v();
        let ghost toks0 = self.tokens_v();
        let top2 = self.stack[self.stack.len() - 1];
        if top2 == Frame::DictKey {
            match event {
                PlistEvent::StringValue(s) => {
                    self.write_elem("key", s.as_str())?;
                    self.stack.pop();
                    self.stack.push(Frame::DictValue);
                    proof {
                        assert(self.stack_v() =~= st0.update(
                            st0.len() - 1,
                            Frame::DictValue,
                        ));
                        assert(self.tokens_v() =~= old(self).tokens_v() + p.1);
                    }
                    return Ok(());
                },
                PlistEvent::EndDictionary => {
                    self.stack.pop();
                    self.xml_end("dict")?;
                    proof {
                        assert(self.stack_v() =~= st0.drop_last());
                    }
                    self.maybe_end_plist()?;
                    proof {
                        assert(self.tokens_v() =~= old(self).tokens_v() + p.1);
                    }
                    return Ok(());
                },
                _ => {
                    proof {
                        assert(false);
                    }
                    return Err(Error::InvalidData);
                },
            }
        }
        // flip a value-phase dictionary back to key phase before dispatching,
        // so a container value opens against the already-flipped frame
        if top2 == Frame::DictValue {
            self.stack.pop();
            self.stack.push(Frame::DictKey);
            proof {
                assert(self.stack_v() =~= st0.update(st0.len() - 1, Frame::DictKey));
            }
        }
        let ghost st1 = self.stack_v();
        match event {
            PlistEvent::StartArray(_) => {
                self.xml_start("array")?;
                self.stack.push(Frame::Array);
            },
            PlistEvent::EndArray => {
                self.stack.pop();
                self.xml_end("array")?;
                proof {
                    assert(self.stack_v() =~= st1.drop_last());
                }
                self.maybe_end_plist()?;
            },
            PlistEvent::StartDictionary(_) => {
                self.xml_start("dict")?;
                self.stack.push(Frame::DictKey);
            },
            PlistEvent::EndDictionary => {
                proof {
                    assert(false);
                }
                return Err(Error::InvalidData);
            },
            PlistEvent::StartPlist => {
                proof {
                    assert(false);
                }
                return Err(Error::InvalidData);
            },
            PlistEvent::EndPlist => {
                proof {
                    assert(false);
                }
                return Err(Error::InvalidData);
            },
            PlistEvent::BooleanValue(b) => {
                if *b {
                    self.xml_start("true")?;
                    self.xml_end("true")?;
                } else {
                    self.xml_start("false")?;
                    self.xml_end("false")?;
                }
                self.maybe_end_plist()?;
            },
            PlistEvent::IntegerValue(v) => {
                let txt = fmt_i64_exec(*v);
                self.write_elem("integer", txt.as_str())?;
                self.maybe_end_plist()?;
            },
            PlistEvent::RealValue(s) => {
                self.write_elem("real", s.as_str())?;
                self.maybe_end_plist()?;
            },
            PlistEvent::StringValue(s) => {
                self.write_elem("string", s.as_str())?;
                self.maybe_end_plist()?;
            },
            PlistEvent::DataValue(v) => {
                let txt = Self::encode_base64(v);
                self.write_elem("data", txt.as_str())?;
                self.maybe_end_plist()?;
            },
            PlistEvent::DateValue(d) => {
                let txt = Self::format_rfc3339(d);
                self.write_elem("date", txt.as_str())?;
                self.maybe_end_plist()?;
            },
        }
        proof {
            assert(self.tokens_v() =~= old(self).tokens_v() + p.1);
            assert(self.stack_v() == p.0);
        }
        Ok(())
    }
}

} // verus!
