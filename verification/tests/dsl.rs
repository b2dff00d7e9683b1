//! The block notation.

use ai_write::content::{AuthorId, Block, Document, RichText, Run};
use ai_write::dsl::{parse, render_html, serialize, DslError};

fn human_doc(src: &str) -> Document {
    parse(src, AuthorId::Human).expect("valid DSL")
}

fn agent() -> AuthorId {
    AuthorId::Agent {
        model: "deepseek-v4-flash".into(),
        label: "slave-1".into(),
    }
}

// --- round-trip: every block kind -------------------------------------

#[test]
fn round_trip_paragraph() {
    let src = ": A simple paragraph.";
    assert_eq!(serialize(&human_doc(src)), src);
}

#[test]
fn round_trip_all_heading_levels() {
    for level in 1..=6 {
        let src = format!("#{level} Heading {level}");
        let doc = human_doc(&src);
        assert!(matches!(doc.blocks[0], Block::Heading { level: l, .. } if l == level));
        assert_eq!(serialize(&doc), src);
    }
}

#[test]
fn round_trip_list_and_quote() {
    let src = "- first\n- second\n> a quote";
    let doc = human_doc(src);
    assert_eq!(doc.blocks.len(), 3);
    assert_eq!(serialize(&doc), src);
}

#[test]
fn round_trip_code_block_with_lang() {
    let src = "```rust\nfn main() {}\n```";
    let doc = human_doc(src);
    assert_eq!(
        doc.blocks[0],
        Block::CodeBlock {
            lang: Some("rust".into()),
            code: "fn main() {}".into(),
        }
    );
    assert_eq!(serialize(&doc), src);
}

#[test]
fn round_trip_code_block_no_lang_multiline() {
    let src = "```\nline one\nline two\n```";
    let doc = human_doc(src);
    assert_eq!(
        doc.blocks[0],
        Block::CodeBlock {
            lang: None,
            code: "line one\nline two".into(),
        }
    );
    assert_eq!(serialize(&doc), src);
}

#[test]
fn round_trip_empty_code_block() {
    let src = "```\n\n```";
    let doc = human_doc(src);
    assert_eq!(
        doc.blocks[0],
        Block::CodeBlock {
            lang: None,
            code: String::new(),
        }
    );
    assert_eq!(serialize(&doc), src);
}

#[test]
fn round_trip_mixed_document() {
    let src = "#1 Title\n: Intro paragraph.\n- point one\n- point two\n> wisdom\n```py\nprint(1)\n```";
    let doc = human_doc(src);
    assert_eq!(doc.blocks.len(), 6);
    assert_eq!(serialize(&doc), src);
}

// --- empties ----------------------------------------------------------

#[test]
fn empty_document_round_trips() {
    let doc = human_doc("");
    assert!(doc.blocks.is_empty());
    assert_eq!(serialize(&doc), "");
    assert_eq!(render_html(&doc), "");
}

#[test]
fn empty_blocks_serialize_to_bare_sigils() {
    let src = ":\n-\n>\n#3";
    let doc = human_doc(src);
    assert!(matches!(&doc.blocks[0], Block::Paragraph(t) if t.is_empty()));
    assert!(matches!(&doc.blocks[1], Block::ListItem(t) if t.is_empty()));
    assert!(matches!(&doc.blocks[2], Block::Quote(t) if t.is_empty()));
    assert!(matches!(&doc.blocks[3], Block::Heading { level: 3, text } if text.is_empty()));
    assert_eq!(serialize(&doc), src);
}

// --- blank-line tolerance + canonicalization --------------------------

#[test]
fn blank_lines_between_blocks_are_ignored() {
    let doc = human_doc(": one\n\n\n: two");
    assert_eq!(doc.blocks.len(), 2);
    // Serialization is canonical (no blank separators).
    assert_eq!(serialize(&doc), ": one\n: two");
}

// --- escaping (inline) ------------------------------------------------

#[test]
fn inline_backslash_and_newline_round_trip() {
    // A paragraph whose text contains a literal backslash and a newline.
    let mut doc = Document::new();
    doc.push(Block::Paragraph(RichText::from_plain(
        "a\\b\nc",
        AuthorId::Human,
    )));
    let dsl = serialize(&doc);
    assert_eq!(dsl, ": a\\\\b\\nc");
    assert_eq!(human_doc(&dsl), doc);
}

#[test]
fn leading_sigil_chars_in_prose_survive() {
    // Prose that *looks* like a sigil is fine once it follows the block's
    // own sigil — it is plain text, escaped only for `\` and newline.
    let src = ": > not a quote, just text";
    let doc = human_doc(src);
    assert_eq!(
        doc.blocks[0],
        Block::Paragraph(RichText::from_plain(
            "> not a quote, just text",
            AuthorId::Human
        ))
    );
    assert_eq!(serialize(&doc), src);
}

// --- error paths ------------------------------------------------------

#[test]
fn unknown_block_is_rejected_with_line_number() {
    assert_eq!(
        parse("just some text", AuthorId::Human),
        Err(DslError::UnknownBlock(1))
    );
    assert_eq!(
        parse(": ok\nbad line", AuthorId::Human),
        Err(DslError::UnknownBlock(2))
    );
}

#[test]
fn heading_level_bounds_enforced() {
    assert_eq!(
        parse("#7 too deep", AuthorId::Human),
        Err(DslError::BadHeadingLevel(1))
    );
    assert_eq!(
        parse("#0 too shallow", AuthorId::Human),
        Err(DslError::BadHeadingLevel(1))
    );
    assert_eq!(
        parse("#x not a digit", AuthorId::Human),
        Err(DslError::BadHeadingLevel(1))
    );
    // A digit must be followed by a space (or be the whole token).
    assert_eq!(
        parse("#2no-space", AuthorId::Human),
        Err(DslError::BadHeadingLevel(1))
    );
}

#[test]
fn unterminated_code_block_is_rejected() {
    assert_eq!(
        parse("```rust\nfn main() {}", AuthorId::Human),
        Err(DslError::UnterminatedCode(1))
    );
}

#[test]
fn bad_escape_is_rejected() {
    // A lone trailing backslash.
    assert_eq!(
        parse(": ends with \\", AuthorId::Human),
        Err(DslError::BadEscape(1))
    );
    // An unknown escape sequence.
    assert_eq!(
        parse(": bad \\t tab", AuthorId::Human),
        Err(DslError::BadEscape(1))
    );
}

// --- authorship attribution on parse ----------------------------------

#[test]
fn parsed_prose_is_attributed_to_the_passed_author() {
    let doc = parse(": written by an agent", agent()).unwrap();
    match &doc.blocks[0] {
        Block::Paragraph(rt) => {
            assert_eq!(rt.runs.len(), 1);
            assert_eq!(rt.runs[0].author, agent());
        }
        _ => panic!("expected paragraph"),
    }
}

// --- HTML rendering ---------------------------------------------------

#[test]
fn render_html_all_block_kinds() {
    let doc = human_doc("#2 Head\n: Para\n- item\n> Quote\n```rust\ncode\n```");
    let html = render_html(&doc);
    assert!(html.contains("<h2><span data-author=\"human\">Head</span></h2>"));
    assert!(html.contains("<p><span data-author=\"human\">Para</span></p>"));
    assert!(html.contains("<ul><li><span data-author=\"human\">item</span></li></ul>"));
    assert!(html.contains("<blockquote><span data-author=\"human\">Quote</span></blockquote>"));
    assert!(html.contains("<pre><code class=\"language-rust\">code</code></pre>"));
}

#[test]
fn render_html_groups_consecutive_list_items_in_one_ul() {
    let doc = human_doc("- a\n- b\n: not a list\n- c");
    let html = render_html(&doc);
    // Two separate lists, one of two items, one of a single item.
    assert_eq!(html.matches("<ul>").count(), 2);
    assert_eq!(html.matches("</ul>").count(), 2);
    assert_eq!(html.matches("<li>").count(), 3);
}

#[test]
fn render_html_multi_run_emits_one_span_per_run() {
    let mut doc = Document::new();
    doc.push(Block::Paragraph(RichText {
        runs: vec![
            Run::new("human bit ", AuthorId::Human),
            Run::new("agent bit", agent()),
        ],
    }));
    let html = render_html(&doc);
    assert_eq!(
        html,
        "<p>\
         <span data-author=\"human\">human bit </span>\
         <span data-author=\"deepseek-v4-flash/slave-1\">agent bit</span>\
         </p>"
    );
}

#[test]
fn render_html_escapes_text_and_attributes() {
    // Author label and text both carry HTML metacharacters.
    let author = AuthorId::Agent {
        model: "a&b".into(),
        label: "\"x\"".into(),
    };
    let mut doc = Document::new();
    doc.push(Block::Paragraph(RichText::from_plain(
        "1 < 2 && 3 > 2 'q'",
        author,
    )));
    let html = render_html(&doc);
    assert!(html.contains("data-author=\"a&amp;b/&quot;x&quot;\""));
    assert!(html.contains("1 &lt; 2 &amp;&amp; 3 &gt; 2 &#39;q&#39;"));
    // No raw metacharacters leaked into element text or attribute.
    assert!(!html.contains("1 < 2"));
}

#[test]
fn render_html_escapes_code_block_lang_and_body() {
    let mut doc = Document::new();
    doc.push(Block::CodeBlock {
        lang: Some("ht\"ml".into()),
        code: "<script>alert(1)</script>".into(),
    });
    let html = render_html(&doc);
    assert!(html.contains("class=\"language-ht&quot;ml\""));
    assert!(html.contains("&lt;script&gt;alert(1)&lt;/script&gt;"));
    assert!(!html.contains("<script>"));
}

#[test]
fn empty_paragraph_renders_empty_tag() {
    let doc = human_doc(":");
    assert_eq!(render_html(&doc), "<p></p>");
}

// --- serialize -> parse direction on a hand-built document -------------

#[test]
fn serialize_then_parse_reproduces_value() {
    let mut doc = Document::new();
    doc.push(Block::Heading {
        level: 4,
        text: RichText::from_plain("Section", AuthorId::Human),
    })
    .push(Block::Paragraph(RichText::from_plain(
        "Body with a tab\tand unicode → ✓.",
        AuthorId::Human,
    )))
    .push(Block::CodeBlock {
        lang: Some("json".into()),
        code: "{\n  \"k\": 1\n}".into(),
    });
    let dsl = serialize(&doc);
    assert_eq!(parse(&dsl, AuthorId::Human).unwrap(), doc);
}

// --- own cases ---------------------------------------------------------

#[test]
fn parse_errors_say_what_is_wrong() {
    assert_eq!(
        parse("no sigil", AuthorId::Human).unwrap_err().message(),
        "line 1: unrecognized block syntax (no known sigil)"
    );
    assert_eq!(
        parse(": ok\n#7 x", AuthorId::Human).unwrap_err().message(),
        "line 2: heading level must be a digit 1-6 followed by a space"
    );
    assert_eq!(
        parse("```rust\nx", AuthorId::Human).unwrap_err().message(),
        "line 1: unterminated code block (missing closing ```)"
    );
    assert_eq!(
        parse(": a\\q", AuthorId::Human).unwrap_err().message(),
        "line 1: invalid '\\' escape (expected '\\\\' or '\\n')"
    );
}

#[test]
fn rendered_text_holds_no_markup_of_its_own() {
    let mut doc = Document::new();
    doc.push(Block::Paragraph(RichText::from_plain(
        "<script>&\"'",
        AuthorId::Human,
    )));
    let html = render_html(&doc);
    assert!(!html.contains("<script>"));
    assert!(html.contains("&lt;script&gt;&amp;"));
}

#[test]
fn a_parsed_document_comes_back_from_its_text() {
    let src = ": a\\nb\n- item\n```\nlet x = 1;\n```\n> q";
    let doc = human_doc(src);
    let again = parse(&serialize(&doc), AuthorId::Human).unwrap();
    assert_eq!(doc, again);
    assert_eq!(serialize(&again), serialize(&doc));
}

/// Asserts that a block by a human is written as `text` and read back.
fn comes_back(blocks: Vec<Block>, text: &str) {
    let doc = Document { blocks };
    assert_eq!(serialize(&doc), text);
    assert_eq!(human_doc(text), doc);
}

fn code(lang: Option<&str>, code: &str) -> Block {
    Block::CodeBlock {
        lang: lang.map(|l| l.to_string()),
        code: code.to_string(),
    }
}

fn paragraph(text: &str) -> Block {
    Block::Paragraph(RichText::from_plain(text, AuthorId::Human))
}

#[test]
fn code_that_holds_a_fence_comes_back() {
    comes_back(vec![code(None, "a\n```\nb")], "```\na\n\\```\nb\n```");
    comes_back(vec![code(None, "```")], "```\n\\```\n```");
    comes_back(vec![code(None, "\\\\```")], "```\n\\\\\\```\n```");
    // Only whole lines are fences.
    comes_back(vec![code(None, " ```\n```x\n\\x")], "```\n ```\n```x\n\\x\n```");
}

#[test]
fn every_language_comes_back() {
    comes_back(vec![code(Some("rust"), "x")], "```rust\nx\n```");
    comes_back(vec![code(Some(""), "x")], "```\\\\\nx\n```");
    comes_back(vec![code(Some(" a "), "x")], "```\\ a \\\nx\n```");
    comes_back(vec![code(Some("a\nb"), "x")], "```\\a\\nb\\\nx\n```");
    comes_back(vec![code(Some("a\r"), "x")], "```\\a\r\\\nx\n```");
    // A language between backslashes that need not be quoted stays as it is.
    comes_back(vec![code(Some("\\a\\"), "x")], "```\\a\\\nx\n```");
    // One that reads as a quoted language is quoted itself.
    comes_back(
        vec![code(Some("\\\\"), "x")],
        "```\\\\\\\\\\\\\nx\n```",
    );
}

#[test]
fn a_carriage_return_at_the_end_of_a_line_comes_back() {
    comes_back(vec![paragraph("a\r"), paragraph("b")], ": a\r\r\n: b");
    comes_back(vec![paragraph("a"), paragraph("b\r")], ": a\n: b\r");
    comes_back(vec![code(None, "a\r\nb\r")], "```\na\r\r\nb\r\r\n```");
    // Line endings of either kind are read.
    assert_eq!(serialize(&human_doc(": a\r\n: b\r\n")), ": a\n: b");
}

#[test]
fn texts_in_a_row_give_their_blocks_in_a_row() {
    let texts = ["", ": a", "\n- b\n\n", "```\n\nx\n```", "#2 h\n"];
    for a in texts {
        for b in texts {
            let mut blocks = human_doc(a).blocks;
            blocks.extend(human_doc(b).blocks);
            assert_eq!(human_doc(&format!("{a}\n{b}")).blocks, blocks);
        }
    }
}

#[test]
fn the_canonical_text_is_its_own_form() {
    let src = "\n: \n\n```  rust \n\n```\n\n#3 \n> q\n\n";
    let out = serialize(&human_doc(src));
    assert_eq!(out, ":\n```rust\n\n```\n#3\n> q");
    assert_eq!(human_doc(&out), human_doc(src));
    assert_eq!(serialize(&human_doc(&out)), out);
}
