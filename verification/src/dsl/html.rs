//! Rendering a document to semantic HTML.

use crate::content::{Author, Block, BlockView, Document, RichText, Run, Runs};
use crate::dsl;
use crate::text;
use vstd::prelude::*;
use vstd::string::StringExecFns;

verus! {

/// How one character is written in element text or in a quoted attribute.
pub open spec fn html_char(c: char) -> Seq<char> {
    if c == '&' {
        "&amp;"@
    } else if c == '<' {
        "&lt;"@
    } else if c == '>' {
        "&gt;"@
    } else if c == '"' {
        "&quot;"@
    } else if c == '\'' {
        "&#39;"@
    } else {
        seq![c]
    }
}

/// How text is written in element text or in a quoted attribute.
pub open spec fn html_text(s: Seq<char>) -> Seq<char>
    decreases s.len(),
{
    if s.len() == 0 {
        Seq::empty()
    } else {
        html_text(s.drop_last()) + html_char(s.last())
    }
}

/// One run as a span that names its author.
pub open spec fn run_html(run: (Seq<char>, Author)) -> Seq<char> {
    "<span data-author=\""@ + html_text(run.1.tag()) + "\">"@ + html_text(run.0) + "</span>"@
}

/// The spans of all runs.
pub open spec fn runs_html(runs: Runs) -> Seq<char>
    decreases runs.len(),
{
    if runs.len() == 0 {
        Seq::empty()
    } else {
        runs_html(runs.drop_last()) + run_html(runs.last())
    }
}

/// The element of one block; a list item without the list around it.
pub open spec fn block_html(block: BlockView) -> Seq<char> {
    match block {
        BlockView::Paragraph(t) => "<p>"@ + runs_html(t) + "</p>"@,
        BlockView::Quote(t) => "<blockquote>"@ + runs_html(t) + "</blockquote>"@,
        BlockView::ListItem(t) => "<li>"@ + runs_html(t) + "</li>"@,
        BlockView::Heading { level, text } => heading_tag("<h"@, level) + runs_html(text)
            + heading_tag("</h"@, level),
        BlockView::CodeBlock { lang, code } => "<pre><code"@ + (match lang {
            Some(l) => " class=\"language-"@ + html_text(l) + seq!['"'],
            None => Seq::empty(),
        }) + seq!['>'] + html_text(code) + "</code></pre>"@,
    }
}

/// A heading's opening or closing tag.
pub open spec fn heading_tag(start: Seq<char>, level: u8) -> Seq<char> {
    start + seq![text::digit(dsl::clamped(level) as int), '>']
}

/// The tag that opens or closes a list between what stands before and `block`.
pub open spec fn list_tag(in_list: bool, is_item: bool) -> Seq<char> {
    if is_item && !in_list {
        "<ul>"@
    } else if !is_item && in_list {
        "</ul>"@
    } else {
        Seq::empty()
    }
}

/// Whether the last of `blocks` is a list item.
pub open spec fn ends_in_list(blocks: Seq<BlockView>) -> bool {
    blocks.len() > 0 && blocks.last() is ListItem
}

/// The elements of `blocks`, each stretch of list items inside one list, the last
/// of which is not closed yet.
pub open spec fn open_html(blocks: Seq<BlockView>) -> Seq<char>
    decreases blocks.len(),
{
    if blocks.len() == 0 {
        Seq::empty()
    } else {
        let init = blocks.drop_last();
        open_html(init) + list_tag(ends_in_list(init), blocks.last() is ListItem) + block_html(
            blocks.last(),
        )
    }
}

/// The elements of `blocks`, each stretch of list items inside one list.
pub open spec fn document_html(blocks: Seq<BlockView>) -> Seq<char> {
    open_html(blocks) + list_tag(ends_in_list(blocks), false)
}

/// HTML-escapes the five characters that are unsafe in element text or in a
/// double-quoted attribute value (`&`, `<`, `>`, `"`, `'`).
fn escape_html(s: &str) -> (out: String)
    ensures
        out@ == html_text(s@),
{
    let chars: Vec<char> = text::chars_of(s);
    let mut out = String::new();
    let mut i: usize = 0;
    assert(s@.take(0) == Seq::<char>::empty());
    while i < chars.len()
        invariant
            i <= chars@.len(),
            chars@ == s@,
            out@ == html_text(s@.take(i as int)),
        decreases chars@.len() - i,
    {
        let c = chars[i];
        assert(s@.take(i + 1).drop_last() == s@.take(i as int));
        let ghost before = out@;
        match c {
            '&' => out.append("&amp;"),
            '<' => out.append("&lt;"),
            '>' => out.append("&gt;"),
            '"' => out.append("&quot;"),
            '\'' => out.append("&#39;"),
            _ => out.push(c),
        }
        assert(out@ == before + html_char(c));
        i += 1;
    }
    assert(s@.take(i as int) == s@);
    out
}

/// Appends one run as `<span data-author="…">escaped text</span>`.
fn render_run_html(run: &Run, out: &mut String)
    ensures
        final(out)@ == old(out)@ + run_html(run@),
{
    out.append("<span data-author=\"");
    out.append(escape_html(run.author.tag().as_str()).as_str());
    out.append("\">");
    out.append(escape_html(run.text.as_str()).as_str());
    out.append("</span>");
    assert(out@ == old(out)@ + run_html(run@));
}

/// Writes `open`, each run of `text` as an escaped `data-author` span, then
/// `close`.
fn wrap_runs(out: &mut String, open: &str, text: &RichText, close: &str)
    ensures
        final(out)@ == old(out)@ + (open@ + runs_html(text@) + close@),
{
    out.append(open);
    let ghost start = out@;
    let mut i: usize = 0;
    assert(text@.take(0) == Runs::empty());
    assert(start == start + runs_html(text@.take(0)));
    while i < text.runs.len()
        invariant
            i <= text.runs@.len(),
            out@ == start + runs_html(text@.take(i as int)),
        decreases text.runs@.len() - i,
    {
        render_run_html(&text.runs[i], out);
        proof {
            assert(text@.take(i + 1).drop_last() == text@.take(i as int));
            assert(out@ == start + runs_html(text@.take(i + 1)));
        }
        i += 1;
    }
    out.append(close);
    assert(text@.take(i as int) == text@);
    assert(out@ == old(out)@ + (open@ + runs_html(text@) + close@));
}

/// A heading's opening or closing tag.
fn heading_tag_text(start: &str, level: u8) -> (tag: String)
    ensures
        tag@ == heading_tag(start@, level),
{
    let mut tag = start.to_owned();
    tag.push(dsl::level_digit(level));
    tag.push('>');
    assert(tag@ == heading_tag(start@, level));
    tag
}

/// Appends the HTML for one block to `out` (list grouping handled by caller).
fn render_block_html(block: &Block, out: &mut String)
    ensures
        final(out)@ == old(out)@ + block_html(block@),
{
    match block {
        Block::Paragraph(t) => wrap_runs(out, "<p>", t, "</p>"),
        Block::Quote(t) => wrap_runs(out, "<blockquote>", t, "</blockquote>"),
        Block::ListItem(t) => wrap_runs(out, "<li>", t, "</li>"),
        Block::Heading { level, text } => {
            let open = heading_tag_text("<h", *level);
            let close = heading_tag_text("</h", *level);
            wrap_runs(out, open.as_str(), text, close.as_str());
        },
        Block::CodeBlock { lang, code } => {
            out.append("<pre><code");
            if let Some(lang) = lang {
                out.append(" class=\"language-");
                out.append(escape_html(lang.as_str()).as_str());
                out.push('"');
            }
            out.push('>');
            out.append(escape_html(code.as_str()).as_str());
            out.append("</code></pre>");
            assert(out@ == old(out)@ + block_html(block@));
        },
    }
}

/// Renders a [`Document`] to semantic HTML.
///
/// Each block maps to its natural HTML element and the prose inside is emitted
/// run by run as `<span data-author="…">…</span>`, where the attribute is the run
/// author's tag. Consecutive list items share one `<ul>`. All text, and the
/// language class on code blocks, is HTML-escaped.
pub fn render_html(doc: &Document) -> (out: String)
    ensures
        out@ == document_html(doc@),
{
    let mut out = String::new();
    let mut in_list = false;
    let mut i: usize = 0;
    while i < doc.blocks.len()
        invariant
            i <= doc.blocks@.len(),
            in_list == ends_in_list(doc@.take(i as int)),
            out@ == open_html(doc@.take(i as int)),
        decreases doc.blocks@.len() - i,
    {
        let ghost now = doc@.take(i + 1);
        proof {
            assert(now.drop_last() == doc@.take(i as int));
            assert(now.last() == doc.blocks@[i as int]@);
        }
        let is_item = matches!(&doc.blocks[i], Block::ListItem(_));
        let ghost before = out@;
        if is_item && !in_list {
            out.append("<ul>");
        } else if !is_item && in_list {
            out.append("</ul>");
        } else {
            assert(before + Seq::<char>::empty() == before);
        }
        assert(out@ == before + list_tag(in_list, is_item));
        in_list = is_item;
        render_block_html(&doc.blocks[i], &mut out);
        i += 1;
    }
    assert(doc@.take(i as int) == doc@);
    if in_list {
        out.append("</ul>");
    } else {
        assert(out@ + Seq::<char>::empty() == out@);
    }
    out
}

/// Escaped text holds none of the characters that begin or end markup or a
/// quoted attribute.
pub proof fn law_escaped_text_holds_no_markup(s: Seq<char>)
    ensures
        forall|i: int|
            0 <= i < html_text(s).len() ==> !(#[trigger] html_text(s)[i] == '<' || html_text(s)[i]
                == '>' || html_text(s)[i] == '"' || html_text(s)[i] == '\''),
    decreases s.len(),
{
    if s.len() > 0 {
        law_escaped_text_holds_no_markup(s.drop_last());
        reveal_strlit("&amp;");
        reveal_strlit("&lt;");
        reveal_strlit("&gt;");
        reveal_strlit("&quot;");
        reveal_strlit("&#39;");
        let front = html_text(s.drop_last());
        let last = html_char(s.last());
        assert forall|i: int| 0 <= i < html_text(s).len() implies !(#[trigger] html_text(s)[i]
            == '<' || html_text(s)[i] == '>' || html_text(s)[i] == '"' || html_text(s)[i]
            == '\'') by {
            if i < front.len() {
                assert(html_text(s)[i] == front[i]);
            } else {
                assert(html_text(s)[i] == last[i - front.len()]);
            }
        }
    }
}

/// Text is escaped character by character, each of the five characters of markup by
/// its entity and every other one by itself.
pub proof fn law_text_is_escaped_character_by_character(a: Seq<char>, c: char)
    ensures
        html_text(Seq::empty()) == Seq::<char>::empty(),
        c == '&' ==> html_text(a.push(c)) == html_text(a) + "&amp;"@,
        c == '<' ==> html_text(a.push(c)) == html_text(a) + "&lt;"@,
        c == '>' ==> html_text(a.push(c)) == html_text(a) + "&gt;"@,
        c == '"' ==> html_text(a.push(c)) == html_text(a) + "&quot;"@,
        c == '\'' ==> html_text(a.push(c)) == html_text(a) + "&#39;"@,
        c != '&' && c != '<' && c != '>' && c != '"' && c != '\'' ==> html_text(a.push(c))
            == html_text(a).push(c),
{
    assert(a.push(c).drop_last() == a);
    assert(html_text(a) + seq![c] == html_text(a).push(c));
}

/// Each run is a span of its own, in order, under the tag of its author.
pub proof fn law_each_run_is_a_span_of_its_author(runs: Runs, text: Seq<char>, author: Author)
    ensures
        runs_html(Seq::empty()) == Seq::<char>::empty(),
        runs_html(runs.push((text, author))) == runs_html(runs) + ("<span data-author=\""@
            + html_text(author.tag()) + "\">"@ + html_text(text) + "</span>"@),
{
    assert(runs.push((text, author)).drop_last() == runs);
}

/// Each kind of block is the element of its own, around its runs.
pub proof fn law_each_block_is_its_element(runs: Runs)
    ensures
        block_html(BlockView::Paragraph(runs)) == "<p>"@ + runs_html(runs) + "</p>"@,
        block_html(BlockView::Quote(runs)) == "<blockquote>"@ + runs_html(runs)
            + "</blockquote>"@,
        block_html(BlockView::ListItem(runs)) == "<li>"@ + runs_html(runs) + "</li>"@,
{
}

/// Code is preformatted and escaped, under the class of its language if it has one.
pub proof fn law_code_is_preformatted(lang: Seq<char>, code: Seq<char>)
    ensures
        block_html(BlockView::CodeBlock { lang: None, code }) == "<pre><code>"@ + html_text(code)
            + "</code></pre>"@,
        block_html(BlockView::CodeBlock { lang: Some(lang), code })
            == "<pre><code class=\"language-"@ + html_text(lang) + "\">"@ + html_text(code)
            + "</code></pre>"@,
{
    reveal_strlit("<pre><code>");
    reveal_strlit("<pre><code");
    reveal_strlit(" class=\"language-");
    reveal_strlit("<pre><code class=\"language-");
    reveal_strlit("\">");
    assert("<pre><code"@ + Seq::<char>::empty() + seq!['>'] == "<pre><code>"@);
    assert("<pre><code"@ + " class=\"language-"@ == "<pre><code class=\"language-"@);
    assert(seq!['"', '>'] == "\">"@);
    assert("<pre><code"@ + (" class=\"language-"@ + html_text(lang) + seq!['"']) + seq!['>']
        == "<pre><code class=\"language-"@ + html_text(lang) + "\">"@);
}

/// A heading is the element of its own level, and of no other: `h1` to `h6`.
pub proof fn law_a_heading_is_the_element_of_its_level(level: u8, text: Runs)
    ensures
        level == 1 ==> block_html(BlockView::Heading { level, text }) == "<h1>"@ + runs_html(text)
            + "</h1>"@,
        level == 2 ==> block_html(BlockView::Heading { level, text }) == "<h2>"@ + runs_html(text)
            + "</h2>"@,
        level == 3 ==> block_html(BlockView::Heading { level, text }) == "<h3>"@ + runs_html(text)
            + "</h3>"@,
        level == 4 ==> block_html(BlockView::Heading { level, text }) == "<h4>"@ + runs_html(text)
            + "</h4>"@,
        level == 5 ==> block_html(BlockView::Heading { level, text }) == "<h5>"@ + runs_html(text)
            + "</h5>"@,
        level == 6 ==> block_html(BlockView::Heading { level, text }) == "<h6>"@ + runs_html(text)
            + "</h6>"@,
{
    reveal_strlit("<h");
    reveal_strlit("</h");
    reveal_strlit("<h1>");
    reveal_strlit("</h1>");
    reveal_strlit("<h2>");
    reveal_strlit("</h2>");
    reveal_strlit("<h3>");
    reveal_strlit("</h3>");
    reveal_strlit("<h4>");
    reveal_strlit("</h4>");
    reveal_strlit("<h5>");
    reveal_strlit("</h5>");
    reveal_strlit("<h6>");
    reveal_strlit("</h6>");
    if level == 1 {
        assert(heading_tag("<h"@, level) == "<h1>"@);
        assert(heading_tag("</h"@, level) == "</h1>"@);
    } else if level == 2 {
        assert(heading_tag("<h"@, level) == "<h2>"@);
        assert(heading_tag("</h"@, level) == "</h2>"@);
    } else if level == 3 {
        assert(heading_tag("<h"@, level) == "<h3>"@);
        assert(heading_tag("</h"@, level) == "</h3>"@);
    } else if level == 4 {
        assert(heading_tag("<h"@, level) == "<h4>"@);
        assert(heading_tag("</h"@, level) == "</h4>"@);
    } else if level == 5 {
        assert(heading_tag("<h"@, level) == "<h5>"@);
        assert(heading_tag("</h"@, level) == "</h5>"@);
    } else if level == 6 {
        assert(heading_tag("<h"@, level) == "<h6>"@);
        assert(heading_tag("</h"@, level) == "</h6>"@);
    }
}

/// Headings of different levels from 1 to 6 are rendered differently, whatever their
/// text; a level below or above these is rendered as the nearest of them.
pub proof fn law_levels_are_told_apart(a: u8, b: u8, text: Runs)
    requires
        1 <= a <= 6,
        1 <= b <= 6,
        a != b,
    ensures
        block_html(BlockView::Heading { level: a, text }) != block_html(
            BlockView::Heading { level: b, text },
        ),
        block_html(BlockView::Heading { level: 0, text }) == block_html(
            BlockView::Heading { level: 1, text },
        ),
        forall|high: u8|
            high > 6 ==> #[trigger] block_html(BlockView::Heading { level: high, text })
                == block_html(BlockView::Heading { level: 6, text }),
{
    reveal_strlit("<h");
    let x = block_html(BlockView::Heading { level: a, text });
    let y = block_html(BlockView::Heading { level: b, text });
    assert(x[2] == text::digit(a as int));
    assert(y[2] == text::digit(b as int));
}

/// The items of a list, one behind the other.
pub open spec fn items_html(items: Seq<BlockView>) -> Seq<char>
    decreases items.len(),
{
    if items.len() == 0 {
        Seq::empty()
    } else {
        items_html(items.drop_last()) + block_html(items.last())
    }
}

proof fn lemma_open_items(items: Seq<BlockView>)
    requires
        items.len() > 0,
        forall|i: int| 0 <= i < items.len() ==> #[trigger] items[i] is ListItem,
    ensures
        open_html(items) == "<ul>"@ + items_html(items),
    decreases items.len(),
{
    let init = items.drop_last();
    assert(items.last() == items[items.len() - 1]);
    if init.len() == 0 {
        assert(init == Seq::<BlockView>::empty());
        assert(items_html(init) == Seq::<char>::empty());
        assert(open_html(init) == Seq::<char>::empty());
        assert(open_html(items) == Seq::<char>::empty() + "<ul>"@ + block_html(items.last()));
    } else {
        assert(init.last() == items[items.len() - 2]);
        lemma_open_items(init);
        assert(open_html(items) == "<ul>"@ + items_html(init) + Seq::<char>::empty() + block_html(
            items.last(),
        ));
    }
}

/// List items in a row are one list.
pub proof fn law_items_in_a_row_are_one_list(items: Seq<BlockView>)
    requires
        items.len() > 0,
        forall|i: int| 0 <= i < items.len() ==> #[trigger] items[i] is ListItem,
    ensures
        document_html(items) == "<ul>"@ + items_html(items) + "</ul>"@,
{
    lemma_open_items(items);
    assert(items.last() == items[items.len() - 1]);
}

proof fn lemma_open_html_add(front: Seq<BlockView>, back: Seq<BlockView>)
    requires
        back.len() > 0,
        !(front.len() > 0 && front.last() is ListItem && back[0] is ListItem),
    ensures
        open_html(front + back) == document_html(front) + open_html(back),
        ends_in_list(front + back) == ends_in_list(back),
    decreases back.len(),
{
    let all = front + back;
    let init = back.drop_last();
    assert(all.last() == back.last());
    assert(all.drop_last() == front + init);
    if init.len() == 0 {
        assert(front + init == front);
        assert(init == Seq::<BlockView>::empty());
        assert(back.last() == back[0]);
        assert(open_html(init) == Seq::<char>::empty());
        let item = back.last() is ListItem;
        let html = block_html(back.last());
        assert(open_html(back) == Seq::<char>::empty() + list_tag(false, item) + html);
        assert(open_html(all) == open_html(front) + list_tag(ends_in_list(front), item) + html);
        if ends_in_list(front) {
            assert(!item);
            assert(open_html(front) + list_tag(true, false) + html == open_html(front) + list_tag(
                true,
                false,
            ) + (Seq::<char>::empty() + Seq::<char>::empty() + html));
        } else {
            assert(open_html(front) + list_tag(false, item) + html == open_html(front) + Seq::<
                char,
            >::empty() + (Seq::<char>::empty() + list_tag(false, item) + html));
        }
    } else {
        lemma_open_html_add(front, init);
        let tag = list_tag(ends_in_list(init), back.last() is ListItem);
        let html = block_html(back.last());
        assert((document_html(front) + open_html(init)) + tag + html == document_html(front) + (
        open_html(init) + tag + html));
    }
}

/// Documents in a row are rendered in a row, unless a list goes on from one into
/// the other.
pub proof fn law_documents_in_a_row_are_rendered_in_a_row(
    front: Seq<BlockView>,
    back: Seq<BlockView>,
)
    requires
        !(front.len() > 0 && back.len() > 0 && front.last() is ListItem && back[0] is ListItem),
    ensures
        document_html(front + back) == document_html(front) + document_html(back),
{
    if back.len() == 0 {
        assert(front + back == front);
        assert(document_html(back) == Seq::<char>::empty());
        assert(document_html(front) + Seq::<char>::empty() == document_html(front));
    } else {
        lemma_open_html_add(front, back);
        let tag = list_tag(ends_in_list(back), false);
        assert((document_html(front) + open_html(back)) + tag == document_html(front) + (open_html(
            back,
        ) + tag));
    }
}

/// A document of one block that is no list item is that block.
pub proof fn law_one_block_is_rendered_alone(block: BlockView)
    requires
        !(block is ListItem),
    ensures
        document_html(seq![block]) == block_html(block),
        document_html(Seq::empty()) == Seq::<char>::empty(),
{
    let blocks = seq![block];
    assert(blocks.drop_last() == Seq::<BlockView>::empty());
    assert(open_html(blocks.drop_last()) == Seq::<char>::empty());
    assert(open_html(blocks) == Seq::<char>::empty() + Seq::<char>::empty() + block_html(block));
    assert(document_html(blocks) == block_html(block) + Seq::<char>::empty());
    assert(document_html(Seq::<BlockView>::empty()) == Seq::<char>::empty() + Seq::<
        char,
    >::empty());
}

} // verus!
