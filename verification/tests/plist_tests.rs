use plist::reader::StreamingParser;
use plist::ser::Serializer;
use plist::writer::EventWriter;
use plist::{Error, ParserError, PlistDate, PlistEvent};
use plist::PlistEvent::{BooleanValue, DataValue, DateValue, EndArray, EndDictionary, EndPlist, IntegerValue, RealValue, StartArray, StartDictionary, StartPlist, StringValue};

fn date(
    year: i32,
    month: u32,
    day: u32,
    hour: u32,
    minute: u32,
    second: u32,
) -> PlistDate {
    PlistDate { year, month, day, hour, minute, second, nanosecond: 0 }
}

fn write_all(events: &[PlistEvent]) -> String {
    let mut w = EventWriter::new();
    for ev in events {
        w.write(ev).unwrap();
    }
    String::from_utf8(w.into_inner()).unwrap()
}

fn read_all(xml: &str) -> Vec<Result<PlistEvent, ParserError>> {
    let mut p = StreamingParser::new(xml.as_bytes().to_vec());
    let mut out = Vec::new();
    while let Some(item) = p.next() {
        let stop = item.is_err();
        out.push(item);
        if stop {
            break;
        }
    }
    out
}

fn shakespeare_events() -> Vec<PlistEvent> {
    vec![
        StartDictionary(None),
        StringValue("Author".to_owned()),
        StringValue("William Shakespeare".to_owned()),
        StringValue("Lines".to_owned()),
        StartArray(None),
        StringValue("It is a tale told by an idiot,".to_owned()),
        StringValue("Full of sound and fury, signifying nothing.".to_owned()),
        EndArray,
        StringValue("Death".to_owned()),
        IntegerValue(1564),
        StringValue("Height".to_owned()),
        RealValue("1.6".to_owned()),
        StringValue("Data".to_owned()),
        DataValue(vec![0, 0, 0, 190, 0, 0, 0, 3, 0, 0, 0, 30, 0, 0, 0]),
        StringValue("Birthdate".to_owned()),
        DateValue(date(1981, 5, 16, 11, 32, 6)),
        EndDictionary,
    ]
}

const SHAKESPEARE_XML: &str = "<?xml version=\"1.0\" encoding=\"UTF-8\"?>
<plist version=\"1.0\">
    <dict>
        <key>Author</key>
        <string>William Shakespeare</string>
        <key>Lines</key>
        <array>
            <string>It is a tale told by an idiot,</string>
            <string>Full of sound and fury, signifying nothing.</string>
        </array>
        <key>Death</key>
        <integer>1564</integer>
        <key>Height</key>
        <real>1.6</real>
        <key>Data</key>
        <data>AAAAvgAAAAMAAAAeAAAA</data>
        <key>Birthdate</key>
        <date>1981-05-16T11:32:06+00:00</date>
    </dict>
</plist>";

#[test]
fn writer_streaming_parser() {
    let s = write_all(&shakespeare_events());
    assert_eq!(s, SHAKESPEARE_XML);
}

#[test]
fn reader_streaming_parser() {
    let input = "<plist version=\"1.0\">
<dict>
    <key>Author</key>
    <string>William Shakespeare</string>
    <key>Lines</key>
    <array>
        <string>It is a tale told by an idiot,</string>
        <string>Full of sound and fury, signifying nothing.</string>
    </array>
    <key>Death</key>
    <integer>1564</integer>
    <key>Height</key>
    <real>1.60</real>
    <key>Data</key>
    <data>AAAAvgAAAAMAAAAeAAAA</data>
    <key>Birthdate</key>
    <date>1981-05-16T11:32:06Z</date>
</dict>
</plist>";
    let events: Vec<PlistEvent> = read_all(input).into_iter().map(|e| e.unwrap()).collect();
    let comparison = vec![
        StartPlist,
        StartDictionary(None),
        StringValue("Author".to_owned()),
        StringValue("William Shakespeare".to_owned()),
        StringValue("Lines".to_owned()),
        StartArray(None),
        StringValue("It is a tale told by an idiot,".to_owned()),
        StringValue("Full of sound and fury, signifying nothing.".to_owned()),
        EndArray,
        StringValue("Death".to_owned()),
        IntegerValue(1564),
        StringValue("Height".to_owned()),
        RealValue("1.60".to_owned()),
        StringValue("Data".to_owned()),
        DataValue(vec![0, 0, 0, 190, 0, 0, 0, 3, 0, 0, 0, 30, 0, 0, 0]),
        StringValue("Birthdate".to_owned()),
        DateValue(date(1981, 5, 16, 11, 32, 6)),
        EndDictionary,
        EndPlist,
    ];
    assert_eq!(events, comparison);
}

#[test]
fn round_trip_reproduces_events() {
    let events = shakespeare_events();
    let xml = write_all(&events);
    let mut expected = vec![Ok(StartPlist)];
    for e in shakespeare_events() {
        expected.push(Ok(e));
    }
    expected.push(Ok(EndPlist));
    let got = read_all(&xml);
    assert_eq!(got, expected);
    let mut p = StreamingParser::new(xml.into_bytes());
    let mut n = 0;
    while let Some(item) = p.next() {
        item.unwrap();
        n += 1;
    }
    assert_eq!(n, expected.len());
}

#[test]
fn single_scalar_gets_plist_wrapper() {
    let s = write_all(&[IntegerValue(42)]);
    assert_eq!(
        s,
        "<?xml version=\"1.0\" encoding=\"UTF-8\"?>\n<plist version=\"1.0\">\n    <integer>42</integer>\n</plist>"
    );
    let back = read_all(&s);
    assert_eq!(back, vec![Ok(StartPlist), Ok(IntegerValue(42)), Ok(EndPlist)]);
}

#[test]
fn booleans_are_self_closed_tags() {
    let s = write_all(&[BooleanValue(true)]);
    assert_eq!(
        s,
        "<?xml version=\"1.0\" encoding=\"UTF-8\"?>\n<plist version=\"1.0\">\n    <true/>\n</plist>"
    );
    let back = read_all(&s);
    assert_eq!(back, vec![Ok(StartPlist), Ok(BooleanValue(true)), Ok(EndPlist)]);
}

#[test]
fn integer_extremes_round_trip() {
    let s = write_all(&[IntegerValue(i64::MIN)]);
    assert!(s.contains("<integer>-9223372036854775808</integer>"));
    let back = read_all(&s);
    assert_eq!(back, vec![Ok(StartPlist), Ok(IntegerValue(i64::MIN)), Ok(EndPlist)]);
    let s2 = write_all(&[IntegerValue(i64::MAX)]);
    assert!(s2.contains("<integer>9223372036854775807</integer>"));
}

#[test]
fn integer_overflow_is_invalid_data() {
    let got = read_all("<plist><integer>9223372036854775808</integer></plist>");
    assert_eq!(got.last(), Some(&Err(ParserError::InvalidData)));
}

#[test]
fn integer_junk_is_invalid_data() {
    let got = read_all("<plist><integer>abc</integer></plist>");
    assert_eq!(got.last(), Some(&Err(ParserError::InvalidData)));
}

#[test]
fn real_accepts_float_grammar() {
    let got = read_all("<plist><real>-1.5e3</real></plist>");
    assert_eq!(
        got,
        vec![Ok(StartPlist), Ok(RealValue("-1.5e3".to_owned())), Ok(EndPlist)]
    );
}

#[test]
fn real_junk_is_invalid_data() {
    let got = read_all("<plist><real>12.3.4</real></plist>");
    assert_eq!(got.last(), Some(&Err(ParserError::InvalidData)));
}

#[test]
fn writer_rejects_bad_real_text() {
    let mut w = EventWriter::new();
    let e = w.write(&PlistEvent::RealValue("not a number".to_owned())).unwrap_err();
    assert!(matches!(e, Error::InvalidData));
}

#[test]
fn writer_rejects_bad_date() {
    let mut w = EventWriter::new();
    let d = PlistDate { year: 2000, month: 13, day: 1, hour: 0, minute: 0, second: 0, nanosecond: 0 };
    let e = w.write(&PlistEvent::DateValue(d)).unwrap_err();
    assert!(matches!(e, Error::InvalidData));
}

#[test]
fn bad_base64_is_invalid_data() {
    let got = read_all("<plist><data>%%%%</data></plist>");
    assert_eq!(got.last(), Some(&Err(ParserError::InvalidData)));
}

#[test]
fn bad_date_is_invalid_data() {
    let got = read_all("<plist><date>yesterday</date></plist>");
    assert_eq!(got.last(), Some(&Err(ParserError::InvalidData)));
}

#[test]
fn unknown_tag_is_invalid_data() {
    let got = read_all("<plist><wibble>1</wibble></plist>");
    assert_eq!(
        got,
        vec![Ok(PlistEvent::StartPlist), Err(ParserError::InvalidData)]
    );
}

#[test]
fn empty_leaf_content_is_invalid_data() {
    let got = read_all("<plist><string></string></plist>");
    assert_eq!(got.last(), Some(&Err(ParserError::InvalidData)));
}

#[test]
fn dictionary_value_without_key_is_invalid_data() {
    let mut w = EventWriter::new();
    w.write(&StartDictionary(None)).unwrap();
    let e = w.write(&IntegerValue(1)).unwrap_err();
    assert!(matches!(e, Error::InvalidData));
}

#[test]
fn dictionary_missing_value_is_invalid_data() {
    let mut w = EventWriter::new();
    w.write(&StartDictionary(None)).unwrap();
    w.write(&StringValue("key".to_owned())).unwrap();
    let e = w.write(&EndDictionary).unwrap_err();
    assert!(matches!(e, Error::InvalidData));
}

#[test]
fn array_closed_by_dictionary_end_is_invalid_data() {
    let mut w = EventWriter::new();
    w.write(&StartArray(None)).unwrap();
    let e = w.write(&EndDictionary).unwrap_err();
    assert!(matches!(e, Error::InvalidData));
}

#[test]
fn unmatched_array_close_is_invalid_data() {
    let mut w = EventWriter::new();
    let e = w.write(&EndArray).unwrap_err();
    assert!(matches!(e, Error::InvalidData));
}

#[test]
fn mismatched_closing_tag_is_an_error() {
    let got = read_all("<plist><array></dict></plist>");
    assert!(got.last().unwrap().is_err());
}

#[test]
fn truncated_document_is_unexpected_eof() {
    let got = read_all("<plist version=\"1.0\"><dict><key>a</key>");
    assert_eq!(got.last(), Some(&Err(ParserError::UnexpectedEof)));
}

#[test]
fn truncated_open_tag_is_unexpected_eof() {
    let got = read_all("<plist><dic");
    assert_eq!(got.last(), Some(&Err(ParserError::UnexpectedEof)));
}

#[test]
fn empty_input_ends_cleanly() {
    let mut p = StreamingParser::new(Vec::new());
    assert!(p.next().is_none());
    assert!(p.next().is_none());
}

#[test]
fn truncated_character_is_unexpected_eof() {
    let mut bytes = b"<plist><dict>".to_vec();
    bytes.push(0xC3);
    let mut p = StreamingParser::new(bytes);
    let mut last = None;
    while let Some(item) = p.next() {
        let stop = item.is_err();
        last = Some(item);
        if stop {
            break;
        }
    }
    assert_eq!(last, Some(Err(ParserError::UnexpectedEof)));
}

#[test]
fn serialize_none_uses_single_key_dictionary() {
    let mut s = Serializer::new(EventWriter::new());
    s.serialize_none().unwrap();
    let xml = String::from_utf8(s.into_inner().into_inner()).unwrap();
    assert_eq!(
        xml,
        "<?xml version=\"1.0\" encoding=\"UTF-8\"?>\n<plist version=\"1.0\">\n    <dict>\n        <key>None</key>\n        <string></string>\n    </dict>\n</plist>"
    );
}

#[test]
fn serialize_some_wraps_payload() {
    let mut s = Serializer::new(EventWriter::new());
    s.begin_some().unwrap();
    s.serialize_i64(5).unwrap();
    s.end_single_key_dict().unwrap();
    let xml = String::from_utf8(s.into_inner().into_inner()).unwrap();
    assert_eq!(
        xml,
        "<?xml version=\"1.0\" encoding=\"UTF-8\"?>\n<plist version=\"1.0\">\n    <dict>\n        <key>Some</key>\n        <integer>5</integer>\n    </dict>\n</plist>"
    );
}

#[test]
fn serialize_unit_variant_keys_empty_string() {
    let mut s = Serializer::new(EventWriter::new());
    s.serialize_unit_variant("Blue").unwrap();
    let xml = String::from_utf8(s.into_inner().into_inner()).unwrap();
    assert!(xml.contains("<key>Blue</key>"));
    assert!(xml.contains("<string></string>"));
}

#[test]
fn serialize_u64_wraps_like_a_cast() {
    let mut s = Serializer::new(EventWriter::new());
    s.serialize_u64(u64::MAX).unwrap();
    let xml = String::from_utf8(s.into_inner().into_inner()).unwrap();
    assert!(xml.contains("<integer>-1</integer>"));
}

#[test]
fn serializer_sequences_and_maps() {
    let mut s = Serializer::new(EventWriter::new());
    s.begin_map(Some(1)).unwrap();
    s.serialize_str("xs").unwrap();
    s.begin_seq(Some(2)).unwrap();
    s.serialize_bool(false).unwrap();
    s.serialize_bytes(&[1, 2, 3]).unwrap();
    s.end_seq().unwrap();
    s.end_map().unwrap();
    let xml = String::from_utf8(s.into_inner().into_inner()).unwrap();
    assert!(xml.contains("<key>xs</key>"));
    assert!(xml.contains("<false/>"));
    assert!(xml.contains("<data>AQID</data>"));
}

#[test]
fn fractional_seconds_round_trip() {
    let d = PlistDate { year: 2001, month: 2, day: 3, hour: 4, minute: 5, second: 6, nanosecond: 500_000_000 };
    let s = write_all(&[DateValue(d)]);
    let back = read_all(&s);
    assert_eq!(back, vec![Ok(StartPlist), Ok(DateValue(d)), Ok(EndPlist)]);
}

#[test]
fn reader_is_finished_after_document_end() {
    let mut p = StreamingParser::new(b"<plist><true/></plist>".to_vec());
    while let Some(item) = p.next() {
        item.unwrap();
    }
    assert!(p.next().is_none());
}
