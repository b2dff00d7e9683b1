//! The content model.

use ai_write::content::{AuthorId, Block, Document, RichText, Run};

fn agent() -> AuthorId {
    AuthorId::Agent {
        model: "deepseek-v4-flash".into(),
        label: "slave-1".into(),
    }
}

#[test]
fn author_tag_matches_provenance_convention() {
    assert_eq!(AuthorId::Human.tag(), "human");
    assert_eq!(agent().tag(), "deepseek-v4-flash/slave-1");
}

#[test]
fn from_plain_and_plain_string_round_trip() {
    let rt = RichText::from_plain("hello world", agent());
    assert_eq!(rt.runs.len(), 1);
    assert_eq!(rt.plain_string(), "hello world");
    assert_eq!(rt.len(), 11);
    assert!(!rt.is_empty());

    assert!(RichText::from_plain("", AuthorId::Human).is_empty());
    assert_eq!(RichText::empty().plain_string(), "");
}

#[test]
fn document_plain_string_joins_blocks() {
    let mut doc = Document::new();
    doc.push(Block::Heading {
        level: 1,
        text: RichText::from_plain("Title", agent()),
    })
    .push(Block::Paragraph(RichText::from_plain("Body.", agent())));
    assert_eq!(doc.to_plain_string(), "Title\n\nBody.");
}

#[test]
fn length_counts_bytes() {
    assert_eq!(RichText::from_plain("caf\u{e9}", AuthorId::Human).len(), 5);
}

#[test]
fn code_stands_verbatim_in_the_plain_text() {
    let mut doc = Document::new();
    doc.push(Block::CodeBlock {
        lang: Some("rust".to_string()),
        code: "fn main() {}".to_string(),
    })
    .push(Block::Quote(RichText {
        runs: vec![Run::new("a", AuthorId::Human), Run::new("b", agent())],
    }));
    assert_eq!(doc.to_plain_string(), "fn main() {}\n\nab");
    assert_eq!(Document::new().to_plain_string(), "");
}
