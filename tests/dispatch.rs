use qsearch::dispatch::{FileError, ParserConfig, ParserKind};
use qsearch::extract::{html_text, join_spaced, xml_text};

fn config() -> ParserConfig {
    let mut c = ParserConfig::new();
    c.insert(String::from("xml"), ParserKind::Xml);
    c.insert(String::from("txt"), ParserKind::Text);
    c.insert(String::from("html"), ParserKind::Html);
    c
}

#[test]
fn unregistered_extension_falls_back_to_text() {
    assert_eq!(config().resolve(Some(&String::from("md"))), Ok(ParserKind::Text));
}

#[test]
fn registered_and_missing_extensions() {
    let c = config();
    assert_eq!(c.resolve(Some(&String::from("xml"))), Ok(ParserKind::Xml));
    assert_eq!(c.resolve(Some(&String::from("html"))), Ok(ParserKind::Html));
    assert_eq!(c.resolve(None), Err(FileError::MissingExtension));
}

#[test]
fn later_registration_replaces() {
    let mut c = config();
    c.insert(String::from("xml"), ParserKind::Text);
    assert_eq!(c.resolve(Some(&String::from("xml"))), Ok(ParserKind::Text));
}

#[test]
fn xml_character_data_joined() {
    assert_eq!(xml_text("<a>hello<b>world</b></a>"), Ok(String::from("hello world ")));
}

#[test]
fn xml_malformed() {
    assert_eq!(xml_text("<a><b></a>"), Err(FileError::Malformed));
}

#[test]
fn html_inner_text_skips_short_nodes() {
    let t = html_text("<p>hi</p><p>x</p>").unwrap();
    assert!(t.contains("hi "));
    assert!(!t.contains("x "));
}

#[test]
fn join_spaced_filters() {
    let v = vec![String::from("ab"), String::from("c"), String::from("é")];
    assert_eq!(join_spaced(&v, false), "ab c é ");
    assert_eq!(join_spaced(&v, true), "ab é ");
}
