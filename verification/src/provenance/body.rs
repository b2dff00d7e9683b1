//! An article body as one authored text, and as a document of paragraphs.

use crate::content;
use crate::content::{Author, AuthorId, Block, BlockView, Document, RichText, Run, Runs};
use crate::provenance;
use crate::provenance::{cut, normalize};
use crate::text;
use vstd::prelude::*;

verus! {

// ---------------------------------------------------------------------------
// Document to body
// ---------------------------------------------------------------------------

/// The runs that a block contributes; code is `code_author`'s.
pub open spec fn block_runs(block: BlockView, code_author: Author) -> Runs {
    match block {
        BlockView::CodeBlock { lang: _, code } => content::single_run(code, code_author),
        _ => provenance::prose_runs(block),
    }
}

/// Who wrote the end of `blocks`: the author of the last block's last run, which is
/// `code_author` for code; where that block is empty prose, whoever wrote the end
/// of the blocks before it, and `code_author` where there are none.
pub open spec fn closing_author(blocks: Seq<BlockView>, code_author: Author) -> Author
    decreases blocks.len(),
{
    if blocks.len() == 0 {
        code_author
    } else {
        match blocks.last() {
            BlockView::CodeBlock { lang: _, code: _ } => code_author,
            block => if provenance::prose_runs(block).len() > 0 {
                provenance::prose_runs(block).last().1
            } else {
                closing_author(blocks.drop_last(), code_author)
            },
        }
    }
}

/// The runs of `blocks` with a blank line between each two of them, which
/// belongs to the author of what it follows.
pub open spec fn body_runs(blocks: Seq<BlockView>, code_author: Author) -> Runs
    decreases blocks.len(),
{
    if blocks.len() == 0 {
        Seq::empty()
    } else if blocks.len() == 1 {
        block_runs(blocks[0], code_author)
    } else {
        body_runs(blocks.drop_last(), code_author).push(
            ("\n\n"@, closing_author(blocks.drop_last(), code_author)),
        ) + block_runs(blocks.last(), code_author)
    }
}

/// Appends copies of `runs` to `out`, and returns the author of the last of them,
/// or `before` where there is none.
fn push_runs(out: &mut Vec<Run>, runs: &Vec<Run>, before: AuthorId) -> (author: AuthorId)
    ensures
        content::runs_view(final(out)@) == content::runs_view(old(out)@) + content::runs_view(
            runs@,
        ),
        author@ == if runs@.len() > 0 {
            runs@.last().author@
        } else {
            before@
        },
{
    let ghost start = content::runs_view(out@);
    let mut i: usize = 0;
    assert(content::runs_view(out@) == start + content::runs_view(runs@).take(0));
    while i < runs.len()
        invariant
            i <= runs@.len(),
            content::runs_view(out@) == start + content::runs_view(runs@).take(i as int),
        decreases runs@.len() - i,
    {
        let ghost held = content::runs_view(out@);
        out.push(runs[i].clone());
        assert(content::runs_view(out@) == held.push(runs@[i as int]@));
        i += 1;
    }
    if runs.len() > 0 {
        runs[runs.len() - 1].author.clone()
    } else {
        before
    }
}

/// Flattens an authored [`Document`] body into a single [`RichText`].
///
/// Block prose is concatenated in reading order with a blank line (`"\n\n"`)
/// between blocks, mirroring [`Document::to_plain_string`], while every run keeps
/// its author. The blank-line separators are attributed to the author of the
/// block they follow: of its last run, where several wrote it. A separator behind
/// an empty block goes on with the author of what stands before that block. A
/// [`Block::CodeBlock`] contributes its code attributed to `code_author`.
pub fn flatten_body(doc: &Document, code_author: &AuthorId) -> (body: RichText)
    ensures
        body@ == provenance::coalesce(content::spread(body_runs(doc@, code_author@))),
{
    let mut runs: Vec<Run> = Vec::new();
    let mut sep_author = code_author.clone();
    let mut i: usize = 0;
    assert(content::runs_view(runs@) == Runs::empty());
    while i < doc.blocks.len()
        invariant
            i <= doc.blocks@.len(),
            content::runs_view(runs@) == body_runs(doc@.take(i as int), code_author@),
            sep_author@ == closing_author(doc@.take(i as int), code_author@),
        decreases doc.blocks@.len() - i,
    {
        let ghost before = content::runs_view(runs@);
        if i > 0 {
            runs.push(Run::new("\n\n", sep_author.clone()));
            assert(content::runs_view(runs@) == before.push(("\n\n"@, sep_author@)));
        }
        let ghost opened = content::runs_view(runs@);
        let ghost block = doc@[i as int];
        sep_author = match &doc.blocks[i] {
            Block::Paragraph(t) => push_runs(&mut runs, &t.runs, sep_author),
            Block::ListItem(t) => push_runs(&mut runs, &t.runs, sep_author),
            Block::Quote(t) => push_runs(&mut runs, &t.runs, sep_author),
            Block::Heading { level: _, text } => push_runs(&mut runs, &text.runs, sep_author),
            Block::CodeBlock { lang: _, code } => {
                let code_text = RichText::from_plain(code.as_str(), code_author.clone());
                assert(forall|k: int| 0 <= k < code_text.runs@.len() ==> (#[trigger] code_text.runs@[k])@ == code_text@[k]);
                push_runs(&mut runs, &code_text.runs, code_author.clone())
            },
        };
        proof {
            assert(content::runs_view(runs@) == opened + block_runs(block, code_author@));
            let now = doc@.take(i + 1);
            assert(now.drop_last() == doc@.take(i as int));
            assert(now.last() == block);
            assert(sep_author@ == closing_author(now, code_author@));
            if i == 0 {
                assert(opened + block_runs(block, code_author@) == block_runs(
                    block,
                    code_author@,
                ));
            }
        }
        i += 1;
    }
    assert(doc@.take(i as int) == doc@);
    let mut body = RichText { runs };
    normalize(&mut body);
    body
}

// ---------------------------------------------------------------------------
// Body to document
// ---------------------------------------------------------------------------

/// Where the first blank line of `s` begins, or the length of `s` where it has
/// none.
pub open spec fn break_at(s: Seq<char>) -> int
    decreases s.len(),
{
    if s.len() < 2 {
        s.len() as int
    } else if s[0] == '\n' && s[1] == '\n' {
        0
    } else {
        1 + break_at(s.drop_first())
    }
}

/// The stretches of `chars` between its blank lines, which are found from the
/// front.
pub open spec fn paragraphs<K>(chars: Seq<(char, K)>) -> Seq<Seq<(char, K)>>
    decreases chars.len(),
{
    let i = break_at(content::plain(chars));
    if 0 <= i && i + 2 <= chars.len() {
        seq![chars.take(i)] + paragraphs(chars.skip(i + 2))
    } else {
        seq![chars]
    }
}

/// Each part as a paragraph block.
pub open spec fn paragraph_blocks(parts: Seq<Seq<(char, Author)>>) -> Seq<BlockView> {
    Seq::new(parts.len(), |i: int| BlockView::Paragraph(provenance::coalesce(parts[i])))
}

pub proof fn lemma_break_at(s: Seq<char>)
    ensures
        0 <= break_at(s) <= s.len(),
        break_at(s) < s.len() ==> break_at(s) + 2 <= s.len() && s[break_at(s)] == '\n'
            && s[break_at(s) + 1] == '\n',
    decreases s.len(),
{
    if s.len() >= 2 && !(s[0] == '\n' && s[1] == '\n') {
        lemma_break_at(s.drop_first());
    }
}

/// The first paragraph, and the ones after it.
proof fn lemma_paragraphs_step(all: Seq<(char, Author)>, first: int, i: int)
    requires
        0 <= first,
        0 <= i,
        first + i + 2 <= all.len(),
        break_at(content::plain(all).skip(first)) == i,
    ensures
        paragraph_blocks(paragraphs(all.skip(first))) == seq![
            BlockView::Paragraph(provenance::coalesce(all.subrange(first, first + i))),
        ] + paragraph_blocks(paragraphs(all.skip(first + i + 2))),
{
    let rest = all.skip(first);
    assert(content::plain(rest) == content::plain(all).skip(first));
    assert(rest.take(i) == all.subrange(first, first + i));
    assert(rest.skip(i + 2) == all.skip(first + i + 2));
    let tail = paragraphs(all.skip(first + i + 2));
    assert(paragraphs(rest) == seq![rest.take(i)] + tail);
    assert(paragraph_blocks(paragraphs(rest)) == seq![
        BlockView::Paragraph(provenance::coalesce(rest.take(i))),
    ] + paragraph_blocks(tail));
}

/// Returns the sub-[`RichText`] of `body` covering byte range `start..end`, with
/// run authorship preserved and split at the boundaries.
fn slice_runs(body: &RichText, start: usize, end: usize) -> (part: RichText)
    requires
        body.size() <= usize::MAX,
        start <= end,
        text::on_boundary(content::plain_text(body@), start as int),
        text::on_boundary(content::plain_text(body@), end as int),
    ensures
        part@ == provenance::coalesce(
            content::spread(body@).subrange(
                text::chars_before(content::plain_text(body@), start as int),
                text::chars_before(content::plain_text(body@), end as int),
            ),
        ),
{
    let mut part = RichText { runs: cut(body, start, end) };
    normalize(&mut part);
    part
}

/// Splits an authored body [`RichText`] into a paragraph [`Document`].
///
/// The body's plain string is split on blank lines (`"\n\n"`) into paragraphs, and
/// each paragraph keeps the run authorship of exactly the characters it spans. An
/// empty body yields an empty [`Document`].
#[verifier::rlimit(40)]
pub fn paragraph_document(body: &RichText) -> (doc: Document)
    requires
        body.size() <= usize::MAX,
    ensures
        doc@ == if content::plain_text(body@).len() == 0 {
            Seq::empty()
        } else {
            paragraph_blocks(paragraphs(content::spread(body@)))
        },
{
    let plain = body.plain_string();
    let mut doc = Document::new();
    if plain.as_str().is_empty() {
        return doc;
    }
    let chars: Vec<char> = text::chars_of(plain.as_str());
    let ghost whole = content::plain_text(body@);
    let ghost all = content::spread(body@);
    let len: usize = body.len();
    let n: usize = chars.len();
    let mut at: usize = 0;
    let mut cursor: usize = 0;
    let mut start: usize = 0;
    let ghost mut first: int = 0;
    proof {
        content::lemma_plain_of_spread(body@);
        assert(whole.take(0) == Seq::<char>::empty());
        assert(all.skip(0) == all);
        assert(whole.skip(0) == whole);
        assert(whole.take(n as int) == whole);
        assert(doc@ + paragraph_blocks(paragraphs(all)) == paragraph_blocks(paragraphs(all)));
    }
    while at < n && 2 <= n - at
        invariant
            n == chars@.len(),
            chars@ == whole,
            whole == content::plain_text(body@),
            all == content::spread(body@),
            whole == content::plain(all),
            body.size() <= usize::MAX,
            at <= n,
            0 <= first <= at,
            cursor == text::utf8_len(whole.take(at as int)),
            start == text::utf8_len(whole.take(first)),
            break_at(whole.skip(first)) == (at - first) + break_at(whole.skip(at as int)),
            paragraph_blocks(paragraphs(all)) == doc@ + paragraph_blocks(
                paragraphs(all.skip(first)),
            ),
        decreases n - at,
    {
        proof {
            text::lemma_utf8_len_next(whole, at as int);
            text::lemma_utf8_len_next(whole, at + 1);
        }
        if chars[at] == '\n' && chars[at + 1] == '\n' {
            proof {
                if first < at {
                    text::lemma_utf8_len_strict(whole, first, at as int);
                }
                text::lemma_chars_before(whole, first);
                text::lemma_chars_before(whole, at as int);
            }
            let ghost before = doc@;
            let part = slice_runs(body, start, cursor);
            doc.push(Block::Paragraph(part));
            cursor = cursor + 2;
            at = at + 2;
            start = cursor;
            proof {
                lemma_paragraphs_step(all, first, at - 2 - first);
                let block = BlockView::Paragraph(
                    provenance::coalesce(all.subrange(first, at - 2)),
                );
                let tail = paragraph_blocks(paragraphs(all.skip(at as int)));
                assert(doc@ == before.push(block));
                assert(before + (seq![block] + tail) == doc@ + tail);
                first = at as int;
            }
        } else {
            proof {
                assert(whole.skip(at as int).drop_first() == whole.skip(at + 1));
            }
            cursor = cursor + text::char_width(chars[at]);
            at = at + 1;
        }
    }
    proof {
        assert(content::plain(all.skip(first)) == whole.skip(first));
        assert(whole.take(n as int) == whole);
        text::lemma_chars_before(whole, first);
        text::lemma_chars_before(whole, n as int);
        if first < n {
            text::lemma_utf8_len_strict(whole, first, n as int);
        }
        assert(all.subrange(first, n as int) == all.skip(first));
        assert(paragraphs(all.skip(first)) == seq![all.skip(first)]);
        assert(paragraph_blocks(seq![all.skip(first)]) == seq![
            BlockView::Paragraph(provenance::coalesce(all.skip(first))),
        ]);
    }
    let ghost before = doc@;
    let part = slice_runs(body, start, len);
    doc.push(Block::Paragraph(part));
    assert(doc@ == before + seq![BlockView::Paragraph(provenance::coalesce(all.skip(first)))]);
    doc
}

} // verus!
