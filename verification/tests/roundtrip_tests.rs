use quick_xml::events::Event;
use quick_xml::Reader;
use quick_xml::XmlVersion;
use release_tagger::escape_attr;
use release_tagger::unescape_attr;
use release_tagger::serialize_tags;
use release_tagger::TagDocument;
use release_tagger::TagName;

#[test]
fn escape_attr_rewrites_special_characters() {
    assert_eq!(escape_attr("plain"), "plain");
    assert_eq!(escape_attr("a\"b"), "a&quot;b");
    assert_eq!(escape_attr("a&b"), "a&amp;b");
    assert_eq!(escape_attr("a'b"), "a&apos;b");
    assert_eq!(escape_attr("<x>"), "&lt;x&gt;");
    assert_eq!(escape_attr(""), "");
}

#[test]
fn escape_unescape_round_trip() {
    let values = vec![
        "".to_string(),
        "plain".to_string(),
        "a \"quoted\" value & <angles> and 'apostrophes'".to_string(),
        "&amp; already escaped".to_string(),
        "&&&\"\"\"".to_string(),
        "ends with &".to_string(),
    ];
    for v in values {
        assert_eq!(unescape_attr(&escape_attr(&v)), Some(v));
    }
}

#[test]
fn unescape_rejects_malformed_text() {
    assert_eq!(unescape_attr("raw \" quote"), None);
    assert_eq!(unescape_attr("raw < bracket"), None);
    assert_eq!(unescape_attr("dangling &"), None);
    assert_eq!(unescape_attr("&unknown;"), None);
    assert_eq!(unescape_attr("raw > is fine"), Some("raw > is fine".to_string()));
}

#[test]
fn serialized_document_round_trips_through_a_parser() {
    let tricky = "a \"quoted\" value & <angles> and 'apostrophes'";
    let doc = TagDocument {
        tags: vec![
            (TagName::Album, tricky.to_string()),
            (TagName::Title, "plain".to_string()),
        ],
    };
    let xml = serialize_tags(&doc);
    let mut reader = Reader::from_str(&xml);
    let mut seen: Vec<(String, String)> = Vec::new();
    loop {
        match reader.read_event() {
            Ok(Event::Empty(e)) => {
                assert_eq!(e.name().as_ref(), "tag");
                let mut name = String::new();
                let mut value = String::new();
                for attr in e.attributes() {
                    let attr = attr.unwrap();
                    let v = attr
                        .normalized_value(XmlVersion::Explicit1_0)
                        .unwrap()
                        .into_owned();
                    match attr.key.as_ref() {
                        "name" => name = v,
                        "value" => value = v,
                        other => panic!("unexpected attribute {:?}", other),
                    }
                }
                seen.push((name, value));
            }
            Ok(Event::Eof) => break,
            Ok(_) => {}
            Err(e) => panic!("parse error: {:?}", e),
        }
    }
    assert_eq!(seen.len(), 2);
    assert_eq!(seen[0].0, "ALBUM");
    assert_eq!(seen[0].1, tricky);
    assert_eq!(seen[1].0, "TITLE");
    assert_eq!(seen[1].1, "plain");
}
