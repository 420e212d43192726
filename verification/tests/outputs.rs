use evtx::json::{build_json, JsonOutput};
use evtx::model::{Attribute, Call};
use evtx::settings::ParserSettings;
use evtx::value::{BinXmlValue, Scalar};
use evtx::visitor::{replay, BinXmlOutput, Recorder};
use evtx::xml::{try_bytes_to_string, try_tag_to_element, RawAttribute, StartTag, XmlElement};
use evtx::xml_json::{
    calls_of, event_to_calls, try_event_to_element, try_xml_to_json, xml_fault, xml_to_calls,
    XmlEvent, XmlJsonError,
};
use evtx::xml_output::{push_escaped, render_xml, XmlOutput};
use evtx::{bytes_to_string, dummy_event, event_to_element, xml_to_json};

fn text(t: &str) -> BinXmlValue {
    BinXmlValue::Scalar(Scalar::Text(t.to_string()))
}

fn open(name: &str, attrs: Vec<(&str, BinXmlValue)>) -> Call {
    Call::OpenStartElement {
        name: name.to_string(),
        attributes: attrs
            .into_iter()
            .map(|(k, v)| Attribute { name: k.to_string(), value: v })
            .collect(),
    }
}

fn chars(t: &str) -> Call {
    Call::Characters(t.to_string())
}

fn sample() -> Vec<Call> {
    vec![
        Call::StartOfStream,
        open("Event", vec![]),
        open("System", vec![]),
        open("Provider", vec![("Name", text("x"))]),
        Call::CloseElement,
        open("EventID", vec![("Qualifiers", text("1"))]),
        chars("4902"),
        Call::CloseElement,
        Call::CloseElement,
        Call::CloseElement,
        Call::EndOfStream,
    ]
}

// ---------------------------------------------------------------------------
// XML text
// ---------------------------------------------------------------------------

#[test]
fn xml_text_escapes_what_xml_reserves() {
    let mut s = String::from(">");
    push_escaped(&mut s, "a<b>&\"c'\u{e9}");
    assert_eq!(s, ">a&lt;b&gt;&amp;&quot;c&apos;\u{e9}");
    let calls = vec![
        Call::StartOfStream,
        open(
            "E",
            vec![
                ("a", text("1 < 2")),
                ("none", BinXmlValue::Null),
                ("n", BinXmlValue::Scalar(Scalar::Int16(-7))),
                ("list", BinXmlValue::Array(0x04, vec![Scalar::UInt8(1), Scalar::UInt8(2)])),
            ],
        ),
        chars("R&D"),
        open("Empty", vec![]),
        Call::CloseElement,
        chars(""),
        Call::CloseElement,
        Call::EndOfStream,
    ];
    assert_eq!(
        render_xml(&calls),
        "<E a=\"1 &lt; 2\" n=\"-7\" list=\"1,2\">R&amp;D<Empty></Empty></E>"
    );
}

#[test]
fn xml_text_closes_what_is_open_and_nothing_else() {
    assert_eq!(render_xml(&vec![]), "");
    assert_eq!(render_xml(&vec![Call::CloseElement, chars("x")]), "x");
    assert_eq!(
        render_xml(&vec![open("a", vec![]), open("b", vec![]), Call::CloseElement]),
        "<a><b></b>"
    );
}

#[test]
fn the_xml_output_renders_what_it_received() {
    let mut out = XmlOutput::new();
    replay(&sample(), &mut out);
    assert_eq!(
        out.into_string(),
        "<Event><System><Provider Name=\"x\"></Provider>\
         <EventID Qualifiers=\"1\">4902</EventID></System></Event>"
    );
}

#[test]
fn the_recorder_keeps_every_call_in_order() {
    let mut recorder = Recorder::new();
    recorder.visit_start_of_stream();
    recorder.visit_open_start_element(&"a".to_string(), &vec![]);
    recorder.visit_characters(&"t".to_string());
    recorder.visit_close_element();
    recorder.visit_end_of_stream();
    assert_eq!(
        recorder.calls,
        vec![
            Call::StartOfStream,
            open("a", vec![]),
            chars("t"),
            Call::CloseElement,
            Call::EndOfStream
        ]
    );
    replay(&sample(), &mut recorder);
    assert_eq!(recorder.calls.len(), 5 + sample().len());
    assert_eq!(recorder.calls[5..].to_vec(), sample());
}

// ---------------------------------------------------------------------------
// JSON
// ---------------------------------------------------------------------------

fn pretty(calls: &Vec<Call>, separate: bool) -> String {
    serde_json::to_string_pretty(&build_json(calls, separate).unwrap()).unwrap()
}

#[test]
fn attributes_kept_apart_stand_beside_their_element() {
    assert_eq!(
        pretty(&sample(), true),
        r#"{
  "Event": {
    "System": {
      "EventID": "4902",
      "EventID_attributes": {
        "Qualifiers": "1"
      },
      "Provider": null,
      "Provider_attributes": {
        "Name": "x"
      }
    }
  }
}"#
    );
}

#[test]
fn attributes_kept_with_their_element_make_it_an_object() {
    assert_eq!(
        pretty(&sample(), false),
        r##"{
  "Event": {
    "System": {
      "EventID": {
        "#attributes": {
          "Qualifiers": "1"
        },
        "#text": "4902"
      },
      "Provider": {
        "#attributes": {
          "Name": "x"
        }
      }
    }
  }
}"##
    );
}

#[test]
fn json_takes_the_text_of_typed_values_and_skips_null() {
    let calls = vec![
        open(
            "E",
            vec![
                ("n", BinXmlValue::Scalar(Scalar::UInt32(7))),
                ("none", BinXmlValue::Null),
                ("flag", BinXmlValue::Scalar(Scalar::Bool(false))),
            ],
        ),
        Call::CloseElement,
        open("F", vec![("none", BinXmlValue::Null)]),
        chars("t"),
        Call::CloseElement,
    ];
    assert_eq!(
        pretty(&calls, false),
        r##"{
  "E": {
    "#attributes": {
      "flag": "false",
      "n": "7"
    }
  },
  "F": "t"
}"##
    );
}

#[test]
fn a_later_member_takes_the_place_of_an_earlier_one() {
    let calls = vec![
        open("E", vec![]),
        open("Data", vec![]),
        chars("first"),
        Call::CloseElement,
        open("Data", vec![]),
        chars("second"),
        chars("third"),
        Call::CloseElement,
        chars("beside"),
        Call::CloseElement,
    ];
    assert_eq!(
        pretty(&calls, true),
        r##"{
  "E": {
    "#text": "beside",
    "Data": "third"
  }
}"##
    );
}

#[test]
fn an_element_left_open_gives_no_document() {
    assert!(build_json(&vec![open("E", vec![])], true).is_none());
    assert!(build_json(&vec![open("E", vec![]), Call::CloseElement, open("F", vec![])], false).is_none());
    assert_eq!(pretty(&vec![], true), "{}");
    // A close without an open is passed over.
    assert_eq!(pretty(&vec![Call::CloseElement], true), "{}");
}

#[test]
fn the_json_output_builds_from_what_it_received() {
    let settings = ParserSettings::new().separate_json_attributes(true);
    let mut out = JsonOutput::new(&settings);
    replay(&sample(), &mut out);
    let value = out.into_value().unwrap();
    assert_eq!(value["Event"]["System"]["EventID"], "4902");
    assert_eq!(value["Event"]["System"]["Provider_attributes"]["Name"], "x");
    assert!(value["Event"]["System"]["Provider"].is_null());
    let mut open_ended = JsonOutput::new(&ParserSettings::new());
    open_ended.visit_open_start_element(&"E".to_string(), &vec![]);
    assert!(open_ended.into_value().is_none());
}

// ---------------------------------------------------------------------------
// Textual XML
// ---------------------------------------------------------------------------

#[test]
fn bytes_become_a_string() {
    assert_eq!(bytes_to_string(b"plain"), "plain");
    assert_eq!(bytes_to_string("gr\u{fc}n \u{1F600}".as_bytes()), "gr\u{fc}n \u{1F600}");
    assert_eq!(bytes_to_string(b""), "");
    assert_eq!(try_bytes_to_string(b"ok"), Some("ok".to_string()));
    assert_eq!(try_bytes_to_string(&[0x66, 0xFF]), None);
    assert_eq!(try_bytes_to_string(&[0xC3]), None);
    assert_eq!(try_bytes_to_string(&[0xED, 0xA0, 0x80]), None);
}

#[test]
fn the_placeholder_element_is_named_dummy() {
    assert_eq!(dummy_event(), XmlElement { name: "Dummy".to_string(), attributes: vec![] });
}

fn tag(name: &[u8], attrs: &[(&[u8], &[u8])]) -> StartTag {
    StartTag {
        name: name.to_vec(),
        attributes: attrs
            .iter()
            .map(|(k, v)| RawAttribute { key: k.to_vec(), value: v.to_vec() })
            .collect(),
    }
}

#[test]
fn a_tag_whose_attributes_are_read_becomes_an_element_of_strings() {
    let t = tag(b"Provider", &[(b"Name", b"x"), (b"Guid", b"{1-2}")]);
    let expected = XmlElement {
        name: "Provider".to_string(),
        attributes: vec![
            Attribute { name: "Name".to_string(), value: text("x") },
            Attribute { name: "Guid".to_string(), value: text("{1-2}") },
        ],
    };
    assert_eq!(try_tag_to_element(&t), Some(expected));
    assert_eq!(
        try_tag_to_element(&tag(b"E", &[])),
        Some(XmlElement { name: "E".to_string(), attributes: vec![] })
    );
    assert_eq!(try_tag_to_element(&tag(&[0xFF], &[])), None);
    assert_eq!(try_tag_to_element(&tag(b"E", &[(b"k", b"v"), (&[0x80], b"v")])), None);
    assert_eq!(try_tag_to_element(&tag(b"E", &[(b"k", &[0xC0, 0x20])])), None);
}

#[test]
fn a_start_tag_becomes_an_element_of_strings() {
    let expected = XmlElement {
        name: "Provider".to_string(),
        attributes: vec![
            Attribute { name: "Name".to_string(), value: text("x") },
            Attribute { name: "Guid".to_string(), value: text("{1-2}") },
        ],
    };
    let content = b"Provider Name=\"x\" Guid='{1-2}'";
    assert_eq!(event_to_element(content, 8), expected);
    assert_eq!(try_event_to_element(content, 8), Ok(expected));
    assert_eq!(
        event_to_element(b"Event", 5),
        XmlElement { name: "Event".to_string(), attributes: vec![] }
    );
    // The value of an attribute is taken as it is written.
    assert_eq!(
        event_to_element(b"a k=\"1 &lt; 2\"", 1),
        XmlElement {
            name: "a".to_string(),
            attributes: vec![Attribute { name: "k".to_string(), value: text("1 &lt; 2") }],
        }
    );
}

#[test]
fn a_start_tag_that_is_no_element_says_why() {
    // A key twice.
    assert_eq!(try_event_to_element(b"a k=\"1\" k=\"2\"", 1), Err(XmlJsonError::BadAttribute));
    // A value without quotes, and a name longer than the content.
    assert_eq!(try_event_to_element(b"a k=v", 1), Err(XmlJsonError::BadAttribute));
    assert_eq!(try_event_to_element(b"a", 2), Err(XmlJsonError::BadAttribute));
    assert_eq!(try_event_to_element(&[0xFF, b' ', b'k', b'=', b'"', b'"'], 1), Err(XmlJsonError::InvalidUtf8));
    assert_eq!(try_event_to_element(&[b'a', b' ', b'k', b'=', b'"', 0x80, b'"'], 1), Err(XmlJsonError::InvalidUtf8));
}

#[test]
fn an_event_becomes_its_calls() {
    let opened = open("E", vec![("k", text("v"))]);
    let start = XmlEvent::Start(b"E k=\"v\"".to_vec(), 1);
    let empty = XmlEvent::Empty(b"E k=\"v\"".to_vec(), 1);
    assert_eq!(event_to_calls(&start, 0), Ok(vec![opened.clone()]));
    assert_eq!(event_to_calls(&empty, 0), Ok(vec![opened.clone(), Call::CloseElement]));
    assert_eq!(calls_of(&start, 0), vec![opened.clone()]);
    assert_eq!(calls_of(&empty, 0), vec![opened, Call::CloseElement]);
    assert_eq!(calls_of(&XmlEvent::End, 0), vec![Call::CloseElement]);
    assert_eq!(calls_of(&XmlEvent::Text(b"t".to_vec()), 0), vec![chars("t")]);
    assert_eq!(calls_of(&XmlEvent::Comment, 0), vec![]);
    assert_eq!(calls_of(&XmlEvent::Eof, 0), vec![Call::EndOfStream]);
    assert_eq!(
        event_to_calls(&XmlEvent::Start(b"Event".to_vec(), 5), 0),
        Ok(vec![open("Event", vec![])])
    );
    assert_eq!(event_to_calls(&XmlEvent::Start(b"E".to_vec(), 2), 0), Err(XmlJsonError::BadAttribute));
    assert_eq!(
        event_to_calls(&XmlEvent::Start(b"E k=v".to_vec(), 1), 0),
        Err(XmlJsonError::BadAttribute)
    );
    assert_eq!(
        event_to_calls(&XmlEvent::Empty(b"E k=\"1\" k=\"2\"".to_vec(), 1), 0),
        Err(XmlJsonError::BadAttribute)
    );
    assert_eq!(
        event_to_calls(&XmlEvent::Start(vec![0xFF], 1), 0),
        Err(XmlJsonError::InvalidUtf8)
    );
    assert_eq!(event_to_calls(&XmlEvent::End, 0), Ok(vec![Call::CloseElement]));
    assert_eq!(event_to_calls(&XmlEvent::Text(b"a &amp; b".to_vec()), 0), Ok(vec![chars("a &amp; b")]));
    assert_eq!(event_to_calls(&XmlEvent::Text(vec![0xFF]), 0), Err(XmlJsonError::InvalidUtf8));
    assert_eq!(event_to_calls(&XmlEvent::Comment, 0), Ok(vec![]));
    assert_eq!(event_to_calls(&XmlEvent::Decl, 0), Ok(vec![]));
    assert_eq!(event_to_calls(&XmlEvent::DocType, 0), Ok(vec![]));
    assert_eq!(event_to_calls(&XmlEvent::CData, 0), Err(XmlJsonError::Unsupported));
    assert_eq!(event_to_calls(&XmlEvent::PI, 0), Err(XmlJsonError::Unsupported));
    assert_eq!(event_to_calls(&XmlEvent::Eof, 0), Ok(vec![Call::EndOfStream]));
    assert_eq!(
        event_to_calls(&XmlEvent::Malformed("fault".to_string()), 17),
        Err(XmlJsonError::Malformed(17))
    );
}

#[test]
fn textual_xml_becomes_calls() {
    let xml = "<?xml version=\"1.0\"?>\n<!-- log -->\n<Event>\n  <System>\n    \
               <Provider Name=\"x\"/>\n    <EventID Qualifiers='1'> 4902 </EventID>\n  \
               </System>\n</Event>\n";
    assert_eq!(xml_to_calls(xml.as_bytes()), Ok(sample()));
    assert_eq!(xml_to_calls(b""), Ok(vec![Call::StartOfStream, Call::EndOfStream]));
    assert_eq!(
        xml_to_calls(b"<a>"),
        Ok(vec![Call::StartOfStream, open("a", vec![]), Call::EndOfStream])
    );
}

#[test]
fn textual_xml_becomes_json() {
    let xml = "<Event><System><Provider Name=\"x\"/><EventID Qualifiers=\"1\">4902</EventID>\
               </System></Event>";
    let expected = r#"{
  "Event": {
    "System": {
      "EventID": "4902",
      "EventID_attributes": {
        "Qualifiers": "1"
      },
      "Provider": null,
      "Provider_attributes": {
        "Name": "x"
      }
    }
  }
}"#;
    assert_eq!(xml_to_json(xml), expected);
    assert_eq!(try_xml_to_json(xml), Ok(expected.to_string()));
    assert_eq!(xml_to_json(""), "{}");
    assert_eq!(xml_to_json("<a>\u{e9}</a>"), "{\n  \"a\": \"\u{e9}\"\n}");
    assert_eq!(
        xml_to_json("<?xml version=\"1.0\"?><!-- c --><a>\n <b/> <c> t </c>\n</a>"),
        "{\n  \"a\": {\n    \"b\": null,\n    \"c\": \"t\"\n  }\n}"
    );
    // The same text gives the same JSON, call after call.
    assert_eq!(xml_to_json(xml), xml_to_json(xml));
}

#[test]
fn textual_xml_that_cannot_be_converted_says_why() {
    assert_eq!(try_xml_to_json("<a>"), Err(XmlJsonError::Unbalanced));
    assert_eq!(try_xml_to_json("<a><![CDATA[x]]></a>"), Err(XmlJsonError::Unsupported));
    assert_eq!(try_xml_to_json("<a><?target data?></a>"), Err(XmlJsonError::Unsupported));
    assert_eq!(try_xml_to_json("<a k=\"1\" k=\"2\"/>"), Err(XmlJsonError::BadAttribute));
    assert_eq!(try_xml_to_json("<a></b>"), Err(XmlJsonError::Malformed(5)));
    assert_eq!(try_xml_to_json("</a>"), Err(XmlJsonError::Malformed(2)));
    assert_eq!(
        xml_to_calls(&[b'<', b'a', b'>', 0xFF, b'<', b'/', b'a', b'>']),
        Err(XmlJsonError::InvalidUtf8)
    );
}

#[test]
fn the_fault_of_a_text_is_what_the_reader_says() {
    assert_eq!(
        xml_fault(b"<a></b>"),
        Some((5, "EndEventMismatch { expected: \"a\", found: \"b\" }".to_string()))
    );
    assert_eq!(xml_fault(b"<a><b/></a>"), None);
    assert_eq!(xml_fault(b""), None);
    // A fault behind the end of what the reader reads is none.
    assert_eq!(xml_fault(b"<a>"), None);
}
