use xmlbind::error::Error;
use xmlbind::scalar::{Scalar, ScalarKind};
use xmlbind::schema::{Field, Presence, Schema};
use xmlbind::text::{read_document, tokenize, write_document};
use xmlbind::token::Token;
use xmlbind::union::{read_union, write_union, Union, UnionValue};
use xmlbind::value::{FieldValue, Record};

fn tag1_schema() -> Schema {
    Schema {
        tag: "tag1".to_string(),
        leaf: false,
        fields: vec![
            Field::Attribute {
                name: "att1".to_string(),
                kind: ScalarKind::Str,
                presence: Presence::Optional,
            },
            Field::Text,
        ],
    }
}

fn tag2_schema() -> Schema {
    Schema {
        tag: "tag2".to_string(),
        leaf: true,
        fields: vec![
            Field::Attribute {
                name: "att1".to_string(),
                kind: ScalarKind::Str,
                presence: Presence::Required,
            },
            Field::Attribute {
                name: "att2".to_string(),
                kind: ScalarKind::Str,
                presence: Presence::Required,
            },
        ],
    }
}

fn tag3_schema() -> Schema {
    Schema {
        tag: "tag3".to_string(),
        leaf: false,
        fields: vec![
            Field::Attribute {
                name: "att1".to_string(),
                kind: ScalarKind::Str,
                presence: Presence::Required,
            },
            Field::Children {
                tag: "tag1".to_string(),
                schema: Box::new(tag1_schema()),
            },
            Field::Child {
                tag: "tag2".to_string(),
                schema: Box::new(tag2_schema()),
            },
            Field::FlattenText {
                tag: "text".to_string(),
            },
        ],
    }
}

fn tag_union() -> Union {
    Union {
        variants: vec![tag1_schema(), tag2_schema(), tag3_schema()],
    }
}

fn tag1_record(att1: Option<&str>, content: &str) -> Record {
    Record {
        fields: vec![
            FieldValue::Attr(att1.map(|s| Scalar::Str(s.to_string()))),
            FieldValue::Text(content.to_string()),
        ],
    }
}

fn tag2_record(att1: &str, att2: &str) -> Record {
    Record {
        fields: vec![
            FieldValue::Attr(Some(Scalar::Str(att1.to_string()))),
            FieldValue::Attr(Some(Scalar::Str(att2.to_string()))),
        ],
    }
}

fn tag3_record(
    att1: &str,
    tag1: Vec<Record>,
    tag2: Option<Record>,
    text: Option<&str>,
) -> Record {
    Record {
        fields: vec![
            FieldValue::Attr(Some(Scalar::Str(att1.to_string()))),
            FieldValue::Children(tag1),
            FieldValue::Child(tag2.map(Box::new)),
            FieldValue::Flatten(text.map(|s| s.to_string())),
        ],
    }
}

fn write_union_str(v: &UnionValue, u: &Union) -> String {
    let mut out: Vec<Token> = Vec::new();
    write_union(v, u, &mut out);
    xmlbind::text::render(&out)
}

#[test]
fn test_write() {
    assert_eq!(
        r#"<tag3 att1="att1"><tag1 att1="tag1_att1">tag1_content</tag1><tag2 att1="tag2_att1" att2="tag2_att2"/></tag3>"#,
        write_document(
            &tag3_record(
                "att1",
                vec![tag1_record(Some("tag1_att1"), "tag1_content")],
                Some(tag2_record("tag2_att1", "tag2_att2")),
                None,
            ),
            &tag3_schema(),
        )
    );

    assert_eq!(
        r#"<tag3 att1="att1"><tag1>tag1_content</tag1><text>tag3_content</text></tag3>"#,
        write_document(
            &tag3_record(
                "att1",
                vec![tag1_record(None, "tag1_content")],
                None,
                Some("tag3_content"),
            ),
            &tag3_schema(),
        )
    );

    assert_eq!(
        r#"<tag3 att1="att1"><tag1>content</tag1><tag1>tag1</tag1><text>tag3_content</text></tag3>"#,
        write_document(
            &tag3_record(
                "att1",
                vec![tag1_record(None, "content"), tag1_record(None, "tag1")],
                None,
                Some("tag3_content"),
            ),
            &tag3_schema(),
        )
    );

    assert_eq!(
        r#"<tag1>tag1_content</tag1>"#,
        write_union_str(
            &UnionValue {
                variant: 0,
                record: tag1_record(None, "tag1_content"),
            },
            &tag_union(),
        )
    );
}

#[test]
fn test_read() {
    assert_eq!(
        read_document(
            r#"<tag3 att1="att1"><tag1>content</tag1><text>tag3_content</text><tag4/><tag5 att1="tag5_att1"/></tag3>"#,
            &tag3_schema(),
        )
        .unwrap(),
        tag3_record(
            "att1",
            vec![tag1_record(None, "content")],
            None,
            Some("tag3_content"),
        )
    );

    assert_eq!(
        read_document(
            r#"<tag3 att1="att1"><tag1 att1="att11">content1</tag1><tag1 att1="att12">content2</tag1></tag3>"#,
            &tag3_schema(),
        )
        .unwrap(),
        tag3_record(
            "att1",
            vec![
                tag1_record(Some("att11"), "content1"),
                tag1_record(Some("att12"), "content2"),
            ],
            None,
            None,
        )
    );

    let ts = tokenize(r#"<tag1 att1="att1">content</tag1>"#).unwrap();
    let (v, _) = read_union(&ts, 0, &tag_union()).unwrap();
    assert_eq!(v.variant, 0);
    assert_eq!(v.record, tag1_record(Some("att1"), "content"));

    let ts = tokenize(r#"<tag2 att2="att2" att1="att1"/>"#).unwrap();
    let (v, _) = read_union(&ts, 0, &tag_union()).unwrap();
    assert_eq!(v.variant, 1);
    assert_eq!(v.record, tag2_record("att1", "att2"));
}

#[test]
fn leaf_attribute_order_round_trip() {
    // Attribute order in the input is irrelevant on read; writing emits
    // attributes in declaration order.
    let rec = read_document(r#"<tag2 att2="v2" att1="v1"/>"#, &tag2_schema()).unwrap();
    assert_eq!(rec, tag2_record("v1", "v2"));
    assert_eq!(
        write_document(&rec, &tag2_schema()),
        r#"<tag2 att1="v1" att2="v2"/>"#
    );
}

#[test]
fn optional_attribute_with_text() {
    let rec = Record {
        fields: vec![
            FieldValue::Attr(None),
            FieldValue::Text("hello".to_string()),
        ],
    };
    assert_eq!(write_document(&rec, &tag1_schema()), "<tag1>hello</tag1>");
    let back = read_document("<tag1>hello</tag1>", &tag1_schema()).unwrap();
    assert_eq!(back, rec);
}

#[test]
fn children_order_is_kept() {
    let rec = tag3_record(
        "a",
        vec![tag1_record(None, "first"), tag1_record(None, "second")],
        None,
        None,
    );
    let text = write_document(&rec, &tag3_schema());
    assert_eq!(
        text,
        r#"<tag3 att1="a"><tag1>first</tag1><tag1>second</tag1></tag3>"#
    );
    let back = read_document(&text, &tag3_schema()).unwrap();
    assert_eq!(back, rec);
}

#[test]
fn unknown_elements_are_skipped() {
    // An unknown sibling with nested children of its own is skipped whole.
    let rec = read_document(
        r#"<tag3 att1="a"><tag1>c</tag1><tag4><deep><deeper/></deep>txt</tag4><tag5 att1="x"/></tag3>"#,
        &tag3_schema(),
    )
    .unwrap();
    assert_eq!(rec, tag3_record("a", vec![tag1_record(None, "c")], None, None));
}

#[test]
fn union_dispatch_unknown_tag_fails() {
    let ts = tokenize(r#"<tag9 att1="x"/>"#).unwrap();
    let err = read_union(&ts, 0, &tag_union()).unwrap_err();
    assert_eq!(
        err,
        Error::UnexpectedTag {
            expected: "union".to_string(),
            found: "tag9".to_string(),
        }
    );
}

#[test]
fn missing_required_attribute_fails() {
    let err = read_document(r#"<tag2 att1="v1"/>"#, &tag2_schema()).unwrap_err();
    assert_eq!(
        err,
        Error::MissingField {
            name: "tag2".to_string(),
            field: "att2".to_string(),
        }
    );
}

#[test]
fn wrong_tag_fails() {
    let err = read_document(r#"<tag9/>"#, &tag2_schema()).unwrap_err();
    assert_eq!(
        err,
        Error::UnexpectedTag {
            expected: "tag2".to_string(),
            found: "tag9".to_string(),
        }
    );
}

#[test]
fn unterminated_element_fails() {
    let err = read_document(r#"<tag1>hello"#, &tag1_schema()).unwrap_err();
    assert_eq!(err, Error::UnexpectedEof);
}

#[test]
fn duplicate_single_child_fails() {
    let err = read_document(
        r#"<tag3 att1="a"><tag2 att1="x" att2="y"/><tag2 att1="p" att2="q"/></tag3>"#,
        &tag3_schema(),
    )
    .unwrap_err();
    assert_eq!(err, Error::UnexpectedEvent);
}

#[test]
fn leaf_schema_stops_after_attributes() {
    // A leaf schema with a non-self-closing input element still stops at
    // the attributes rather than erroring on the body.
    let ts = tokenize(r#"<tag2 att1="v1" att2="v2">ignored</tag2>"#).unwrap();
    let (rec, next) = xmlbind::reader::read_element(&ts, 0, &tag2_schema()).unwrap();
    assert_eq!(rec, tag2_record("v1", "v2"));
    assert_eq!(next, 1);
}

#[test]
fn whitespace_only_text_is_dropped() {
    let rec = read_document(
        "<tag3 att1=\"a\">\n  <tag1>c</tag1>\n</tag3>",
        &tag3_schema(),
    )
    .unwrap();
    assert_eq!(rec, tag3_record("a", vec![tag1_record(None, "c")], None, None));
}

#[test]
fn flatten_text_wrapper_round_trip() {
    let rec = tag3_record("a", vec![], None, Some("hoisted"));
    let text = write_document(&rec, &tag3_schema());
    assert_eq!(text, r#"<tag3 att1="a"><text>hoisted</text></tag3>"#);
    assert_eq!(read_document(&text, &tag3_schema()).unwrap(), rec);
}

#[test]
fn empty_body_self_closes() {
    let rec = tag3_record("a", vec![], None, None);
    assert_eq!(write_document(&rec, &tag3_schema()), r#"<tag3 att1="a"/>"#);
}

#[test]
fn required_attribute_with_mixed_siblings() {
    // Unrecognized self-closing siblings around a known child are ignored,
    // and unset optional fields stay absent.
    let rec = read_document(
        r#"<tag3 att1="a"><tag1>c</tag1><tag4/><tag5 att1="x"/></tag3>"#,
        &tag3_schema(),
    )
    .unwrap();
    assert_eq!(rec, tag3_record("a", vec![tag1_record(None, "c")], None, None));
}
