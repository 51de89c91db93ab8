use cfemail::decode::{hex_digit, hex_pair, parse_cfemail};
use cfemail::document::{decode_cfemail, Attribute, Document, Element};

const FALLBACK: &str = "[email protected]";

fn element(classes: &[&str], attributes: &[(&str, &str)], text: &str) -> Element {
    Element {
        classes: classes.iter().map(|c| c.to_string()).collect(),
        attributes: attributes
            .iter()
            .map(|(n, v)| Attribute { name: n.to_string(), value: v.to_string() })
            .collect(),
        text: text.to_string(),
    }
}

fn snapshot(doc: &Document) -> Vec<(Vec<String>, Vec<(String, String)>, String)> {
    doc.elements
        .iter()
        .map(|e| {
            (
                e.classes.clone(),
                e.attributes.iter().map(|a| (a.name.clone(), a.value.clone())).collect(),
                e.text.clone(),
            )
        })
        .collect()
}

#[test]
fn parse_cfemail_fixture() {
    assert_eq!(parse_cfemail("98d1fcf7f4f5d8ebecfdea"), "Idolm@ster");
}

#[test]
fn parse_cfemail_too_short_gives_fallback() {
    assert_eq!(parse_cfemail(""), FALLBACK);
    assert_eq!(parse_cfemail("9"), FALLBACK);
}

#[test]
fn parse_cfemail_invalid_key_gives_fallback() {
    assert_eq!(parse_cfemail("z"), FALLBACK);
    assert_eq!(parse_cfemail("zz41"), FALLBACK);
    assert_eq!(parse_cfemail("9g41"), FALLBACK);
    assert_eq!(parse_cfemail("+f41"), FALLBACK);
}

#[test]
fn parse_cfemail_key_only_gives_empty() {
    assert_eq!(parse_cfemail("00"), "");
    assert_eq!(parse_cfemail("ff"), "");
}

#[test]
fn parse_cfemail_length_is_pairs_after_key() {
    let data = "3a5b58595e";
    assert_eq!(parse_cfemail(data).chars().count(), data.len() / 2 - 1);
    assert_eq!(parse_cfemail(data), "abcd");
}

#[test]
fn parse_cfemail_uppercase_digits() {
    assert_eq!(parse_cfemail("98D1FCF7F4F5D8EBECFDEA"), "Idolm@ster");
}

#[test]
fn parse_cfemail_xor_with_key() {
    assert_eq!(parse_cfemail("0041"), "A");
    assert_eq!(parse_cfemail("ff00"), "\u{ff}");
    assert_eq!(parse_cfemail("2020"), "\u{0}");
}

#[test]
fn parse_cfemail_is_deterministic() {
    let data = "98d1fcf7f4f5d8ebecfdea";
    assert_eq!(parse_cfemail(data), parse_cfemail(data));
    assert_eq!(parse_cfemail("zz"), parse_cfemail("zz"));
}

#[test]
fn parse_cfemail_skips_malformed_pair() {
    assert_eq!(parse_cfemail("98d1zzfc"), "Id");
    assert_eq!(parse_cfemail("98d1f-fcf7"), "Ido");
}

#[test]
fn parse_cfemail_drops_trailing_half_pair() {
    assert_eq!(parse_cfemail("98d1f"), "I");
    assert_eq!(parse_cfemail("980"), "");
}

#[test]
fn hex_digit_values() {
    assert_eq!(hex_digit('0'), Some(0));
    assert_eq!(hex_digit('9'), Some(9));
    assert_eq!(hex_digit('a'), Some(10));
    assert_eq!(hex_digit('F'), Some(15));
    assert_eq!(hex_digit('g'), None);
    assert_eq!(hex_digit('+'), None);
}

#[test]
fn hex_pair_values() {
    assert_eq!(hex_pair('9', '8'), Some(0x98));
    assert_eq!(hex_pair('f', 'F'), Some(0xff));
    assert_eq!(hex_pair('0', 'x'), None);
}

#[test]
fn decode_cfemail_without_marked_elements_changes_nothing() {
    let mut doc = Document {
        elements: vec![
            element(&["email"], &[("data-cfemail", "98d1fcf7f4f5d8ebecfdea")], "[email protected]"),
            element(&[], &[], "plain text"),
        ],
    };
    let before = snapshot(&doc);
    decode_cfemail(&mut doc);
    assert_eq!(snapshot(&doc), before);
}

#[test]
fn decode_cfemail_empty_document() {
    let mut doc = Document { elements: vec![] };
    decode_cfemail(&mut doc);
    assert!(doc.elements.is_empty());
}

#[test]
fn decode_cfemail_rewrites_marked_element() {
    let mut doc = Document {
        elements: vec![element(
            &["__cf_email__"],
            &[("data-cfemail", "98d1fcf7f4f5d8ebecfdea")],
            "[email protected]",
        )],
    };
    decode_cfemail(&mut doc);
    assert_eq!(doc.elements[0].text, "Idolm@ster");
    assert_eq!(doc.elements[0].classes, vec!["__cf_email__".to_string()]);
    assert_eq!(doc.elements[0].attributes[0].value, "98d1fcf7f4f5d8ebecfdea");
}

#[test]
fn decode_cfemail_mixed_document() {
    let mut doc = Document {
        elements: vec![
            element(&["a"], &[], "keep"),
            element(&["x", "__cf_email__"], &[("href", "/cdn"), ("data-cfemail", "0041")], "?"),
            element(&["__cf_email__"], &[], "?"),
            element(&["__cf_email__"], &[("data-cfemail", "3a5b"), ("data-cfemail", "0042")], "?"),
        ],
    };
    decode_cfemail(&mut doc);
    assert_eq!(doc.elements[0].text, "keep");
    assert_eq!(doc.elements[1].text, "A");
    assert_eq!(doc.elements[2].text, FALLBACK);
    assert_eq!(doc.elements[3].text, "a");
}
