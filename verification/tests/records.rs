use xmlbind::error::Error;
use xmlbind::records::{Break, BreakType, Dstrike, LastRenderedPageBreak, Position};
use xmlbind::scalar::{coerce_scalar, render_scalar, Scalar, ScalarKind};
use xmlbind::text::{read_document, write_document};
use xmlbind::value::{FieldValue, Record};

#[test]
fn break_default_writes_bare_tag() {
    let b = Break::default();
    let text = write_document(&b.to_record(), &Break::schema());
    assert_eq!(text, "<w:br/>");
}

#[test]
fn break_from_page_round_trip() {
    let b = Break::from(BreakType::Page);
    let text = write_document(&b.to_record(), &Break::schema());
    assert_eq!(text, r#"<w:br w:type="page"/>"#);
    let rec = read_document(&text, &Break::schema()).unwrap();
    assert_eq!(Break::from_record(&rec).unwrap(), b);
}

#[test]
fn break_unknown_type_fails() {
    let rec = read_document(r#"<w:br w:type="sideways"/>"#, &Break::schema()).unwrap();
    let err = Break::from_record(&rec).unwrap_err();
    assert_eq!(
        err,
        Error::UnknownValue {
            found: "sideways".to_string(),
        }
    );
}

#[test]
fn last_rendered_page_break_writes_bare_tag() {
    let v = LastRenderedPageBreak::default();
    let text = write_document(&v.to_record(), &LastRenderedPageBreak::schema());
    assert_eq!(text, "<w:lastRenderedPageBreak/>");
}

#[test]
fn dstrike_round_trips() {
    let cases = [
        (Dstrike::default(), "<w:dstrike/>"),
        (Dstrike::from(false), r#"<w:dstrike w:val="false"/>"#),
        (Dstrike::from(true), r#"<w:dstrike w:val="true"/>"#),
    ];
    for (d, expected) in cases {
        let text = write_document(&d.to_record(), &Dstrike::schema());
        assert_eq!(text, expected);
        let rec = read_document(&text, &Dstrike::schema()).unwrap();
        assert_eq!(Dstrike::from_record(&rec).unwrap(), d);
    }
}

#[test]
fn dstrike_bad_boolean_fails() {
    let err = read_document(r#"<w:dstrike w:val="maybe"/>"#, &Dstrike::schema()).unwrap_err();
    assert_eq!(
        err,
        Error::ParseBool {
            found: "maybe".to_string(),
        }
    );
}

#[test]
fn position_round_trips() {
    let p = Position {
        value: Some(-240),
    };
    let text = write_document(&p.to_record(), &Position::schema());
    assert_eq!(text, r#"<w:position w:val="-240"/>"#);
    let rec = read_document(&text, &Position::schema()).unwrap();
    assert_eq!(Position::from_record(&rec).unwrap(), p);
}

#[test]
fn position_bad_integer_fails() {
    let err = read_document(r#"<w:position w:val="12pt"/>"#, &Position::schema()).unwrap_err();
    assert_eq!(
        err,
        Error::ParseInt {
            found: "12pt".to_string(),
        }
    );
}

#[test]
fn scalar_rendering_is_canonical() {
    assert_eq!(render_scalar(&Scalar::Int(0)), "0");
    assert_eq!(render_scalar(&Scalar::Int(-1)), "-1");
    assert_eq!(render_scalar(&Scalar::Int(9007)), "9007");
    assert_eq!(render_scalar(&Scalar::Int(i64::MIN)), "-9223372036854775808");
    assert_eq!(render_scalar(&Scalar::Int(i64::MAX)), "9223372036854775807");
    assert_eq!(render_scalar(&Scalar::Boolean(true)), "true");
    assert_eq!(render_scalar(&Scalar::Boolean(false)), "false");
    assert_eq!(render_scalar(&Scalar::Str("x y".to_string())), "x y");
}

#[test]
fn scalar_coercion_accepts_and_rejects() {
    assert_eq!(
        coerce_scalar("-9223372036854775808", ScalarKind::Int).unwrap(),
        Scalar::Int(i64::MIN)
    );
    assert_eq!(coerce_scalar("+17", ScalarKind::Int).unwrap(), Scalar::Int(17));
    assert!(coerce_scalar("9223372036854775808", ScalarKind::Int).is_err());
    assert!(coerce_scalar("", ScalarKind::Int).is_err());
    assert!(coerce_scalar("--3", ScalarKind::Int).is_err());
    assert_eq!(
        coerce_scalar("true", ScalarKind::Boolean).unwrap(),
        Scalar::Boolean(true)
    );
    assert!(coerce_scalar("True", ScalarKind::Boolean).is_err());
    assert_eq!(
        coerce_scalar("plain", ScalarKind::Str).unwrap(),
        Scalar::Str("plain".to_string())
    );
}

#[test]
fn break_read_ignores_extra_attributes() {
    let rec = read_document(r#"<w:br w:other="1" w:type="column"/>"#, &Break::schema()).unwrap();
    assert_eq!(
        rec,
        Record {
            fields: vec![FieldValue::Attr(Some(Scalar::Str("column".to_string())))],
        }
    );
    assert_eq!(
        Break::from_record(&rec).unwrap(),
        Break {
            ty: Some(BreakType::Column),
        }
    );
}

#[test]
fn break_truncated_element_fails() {
    // A start tag without its matching end tag is an unterminated element.
    let err = read_document("<w:br>", &Break::schema()).unwrap_err();
    assert_eq!(err, Error::UnexpectedEof);
}

#[test]
fn break_explicit_end_tag_reads_as_default() {
    let rec = read_document("<w:br></w:br>", &Break::schema()).unwrap();
    assert_eq!(Break::from_record(&rec).unwrap(), Break::default());
}

#[test]
fn break_interior_text_fails() {
    // No field of the schema takes text, so text in the body is a
    // structurally invalid event.
    let err = read_document("<w:br>x</w:br>", &Break::schema()).unwrap_err();
    assert_eq!(err, Error::UnexpectedEvent);
}
