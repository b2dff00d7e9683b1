//! Where edits and queries take place, and whom the parts of a document name.

use crate::content;
use crate::content::{Author, AuthorId, Block, BlockView, Document, RichText, Run, Runs};
use crate::provenance;
use crate::provenance::body;
use crate::provenance::laws;
use crate::provenance::{Edit, ProvenanceError, Result};
use crate::text;
use std::ops::Range;
use vstd::prelude::*;
use vstd::utf8::encode_utf8;

verus! {

// ---------------------------------------------------------------------------
// Offsets
// ---------------------------------------------------------------------------

/// The byte at which character `k` of `whole` begins.
pub open spec fn byte_at(whole: Seq<char>, k: int) -> int {
    encode_utf8(whole.take(k)).len() as int
}

/// Whether a character of `whole` begins, or the text ends, at `offset`.
pub open spec fn good(whole: Seq<char>, offset: int) -> bool {
    exists|k: int| 0 <= k <= whole.len() && #[trigger] byte_at(whole, k) == offset
}

/// Whether `e` is what is wrong with `offset` alone.
pub open spec fn blames_offset(whole: Seq<char>, offset: usize, e: ProvenanceError) -> bool {
    match e {
        ProvenanceError::OffsetOutOfBounds { offset: o, len } => o == offset && len == encode_utf8(
            whole,
        ).len() && offset > len,
        ProvenanceError::NotCharBoundary { offset: o } => o == offset && offset <= encode_utf8(
            whole,
        ).len() && !good(whole, offset as int),
        ProvenanceError::InvalidRange { start: _, end: _ } => false,
    }
}

/// Whether `e` is what is wrong with a range: first that it runs backwards, then its
/// start, then its end.
pub open spec fn blames_range(
    whole: Seq<char>,
    start: usize,
    end: usize,
    e: ProvenanceError,
) -> bool {
    if start > end {
        e == (ProvenanceError::InvalidRange { start, end })
    } else if good(whole, start as int) {
        blames_offset(whole, end, e)
    } else {
        blames_offset(whole, start, e)
    }
}

proof fn lemma_byte_at(whole: Seq<char>, k: int)
    requires
        0 <= k <= whole.len(),
    ensures
        byte_at(whole, k) == text::utf8_len(whole.take(k)),
        text::on_boundary(whole, byte_at(whole, k)),
        text::chars_before(whole, byte_at(whole, k)) == k,
        good(whole, byte_at(whole, k)),
        byte_at(whole, k) <= encode_utf8(whole).len(),
        k < whole.len() ==> byte_at(whole, k) < encode_utf8(whole).len(),
{
    text::lemma_encode_len(whole.take(k));
    text::lemma_encode_len(whole);
    text::lemma_chars_before(whole, k);
    text::lemma_take_fits(whole, k);
    if k < whole.len() {
        text::lemma_utf8_len_strict(whole, k, whole.len() as int);
        assert(whole.take(whole.len() as int) == whole);
    }
}

proof fn lemma_good(whole: Seq<char>, offset: int)
    ensures
        good(whole, offset) == text::on_boundary(whole, offset),
        good(whole, offset) ==> 0 <= offset <= encode_utf8(whole).len(),
{
    if good(whole, offset) {
        let k = choose|k: int| 0 <= k <= whole.len() && #[trigger] byte_at(whole, k) == offset;
        lemma_byte_at(whole, k);
    }
    if text::on_boundary(whole, offset) {
        let k = text::chars_before(whole, offset);
        lemma_byte_at(whole, k);
    }
}

proof fn lemma_offset_error(whole: Seq<char>, offset: usize)
    requires
        encode_utf8(whole).len() <= usize::MAX,
    ensures
        match provenance::offset_error(whole, offset) {
            Some(e) => blames_offset(whole, offset, e) && !good(whole, offset as int),
            None => good(whole, offset as int),
        },
{
    lemma_good(whole, offset as int);
    text::lemma_encode_len(whole);
}

proof fn lemma_range_error(whole: Seq<char>, start: usize, end: usize)
    requires
        encode_utf8(whole).len() <= usize::MAX,
    ensures
        match provenance::range_error(whole, start, end) {
            Some(e) => blames_range(whole, start, end, e),
            None => start <= end && good(whole, start as int) && good(whole, end as int),
        },
{
    lemma_offset_error(whole, start);
    lemma_offset_error(whole, end);
}

// ---------------------------------------------------------------------------
// Edits
// ---------------------------------------------------------------------------

/// The span of bytes that an edit names.
pub open spec fn span(edit: Edit) -> (usize, usize) {
    match edit {
        Edit::Insert { at, text: _ } => (at, at),
        Edit::Delete { range } => (range.start, range.end),
        Edit::Replace { range, new_text: _ } => (range.start, range.end),
    }
}

/// An insertion puts its text before the character that begins at its offset; a
/// deletion takes out the characters of its range; a replacement does both. What is
/// put in is the editing author's, and all else stays whose it was.
pub proof fn law_an_edit_is_made_where_it_says(
    runs: Runs,
    edit: Edit,
    author: Author,
    i: int,
    j: int,
)
    requires
        0 <= i <= j <= content::plain_text(runs).len(),
        span(edit).0 == byte_at(content::plain_text(runs), i),
        span(edit).1 == byte_at(content::plain_text(runs), j),
    ensures
        provenance::edit_outcome(runs, edit, author) matches Ok(after) && {
            let before = content::spread(runs);
            let chars = content::spread(after);
            match edit {
                Edit::Insert { at: _, text } => chars == before.take(i) + Seq::new(
                    text@.len(),
                    |k: int| (text@[k], author),
                ) + before.skip(i),
                Edit::Delete { range: _ } => chars == before.take(i) + before.skip(j),
                Edit::Replace { range: _, new_text } => chars == before.take(i) + Seq::new(
                    new_text@.len(),
                    |k: int| (new_text@[k], author),
                ) + before.skip(j),
            }
        },
{
    let whole = content::plain_text(runs);
    lemma_byte_at(whole, i);
    lemma_byte_at(whole, j);
    text::lemma_encode_len(whole);
    if i < j {
        text::lemma_utf8_len_strict(whole, i, j);
    }
    assert(edit.start() == span(edit).0);
    assert(edit.end() == span(edit).1);
    assert(provenance::range_error(whole, edit.start(), edit.end()) is None);
    laws::law_edit_attributes_only_what_it_writes(runs, edit, author);
    let after = provenance::edit_outcome(runs, edit, author)->Ok_0;
    let before = content::spread(runs);
    if let Edit::Insert { at, text } = edit {
        assert(i == j);
    }
    match edit {
        Edit::Insert { at: _, text } => {
            assert(content::tagged(text@, author) == Seq::new(
                text@.len(),
                |k: int| (text@[k], author),
            ));
        },
        Edit::Delete { range: _ } => {
            assert(content::tagged(edit.written(), author).len() == 0);
            assert(content::spread(after) == before.take(i) + before.skip(j));
        },
        Edit::Replace { range: _, new_text } => {
            assert(content::tagged(new_text@, author) == Seq::new(
                new_text@.len(),
                |k: int| (new_text@[k], author),
            ));
        },
    }
}

/// An edit is refused where its span runs backwards, or one of its ends is not where
/// a character begins or the text ends; the error says which, and where.
pub proof fn law_an_edit_is_refused_for_its_span(runs: Runs, edit: Edit, author: Author)
    requires
        encode_utf8(content::plain_text(runs)).len() <= usize::MAX,
    ensures
        ({
            let whole = content::plain_text(runs);
            let (start, end) = span(edit);
            match provenance::edit_outcome(runs, edit, author) {
                Ok(_) => start <= end && good(whole, start as int) && good(whole, end as int),
                Err(e) => blames_range(whole, start, end, e),
            }
        }),
{
    lemma_range_error(content::plain_text(runs), edit.start(), edit.end());
}

/// An edit is put together from its offsets and its text.
pub proof fn law_edits_hold_their_parts(
    at: usize,
    range: Range<usize>,
    text: &str,
    inserted: Edit,
    deleted: Edit,
    replaced: Edit,
)
    requires
        call_ensures(Edit::insert, (at, text), inserted),
        call_ensures(Edit::delete, (range,), deleted),
        call_ensures(Edit::replace, (range, text), replaced),
    ensures
        inserted matches Edit::Insert { at: a, text: t } && a == at && t@ == text@,
        deleted matches Edit::Delete { range: r } && r == range,
        replaced matches Edit::Replace { range: r, new_text: t } && r.start == range.start && r.end
            == range.end && t@ == text@,
{
}

/// What a refused edit says gives the offsets.
pub proof fn law_refusals_give_the_offsets(e: &ProvenanceError, s: String)
    requires
        call_ensures(ProvenanceError::message, (e,), s),
    ensures
        match *e {
            ProvenanceError::OffsetOutOfBounds { offset, len } => s@ == "byte offset "@
                + text::decimal(offset as nat) + " is out of bounds (text is "@ + text::decimal(
                len as nat,
            ) + " bytes)"@,
            ProvenanceError::NotCharBoundary { offset } => s@ == "byte offset "@ + text::decimal(
                offset as nat,
            ) + " is not on a UTF-8 character boundary"@,
            ProvenanceError::InvalidRange { start, end } => s@ == "invalid range: start "@
                + text::decimal(start as nat) + " is greater than end "@ + text::decimal(
                end as nat,
            ),
        },
{
}

// ---------------------------------------------------------------------------
// Queries
// ---------------------------------------------------------------------------

/// At the byte where a character begins stands the author of that character, at the
/// end of the text nobody; any other offset is refused.
pub proof fn law_a_character_is_its_authors(
    rich: &RichText,
    at: usize,
    k: int,
    r: Result<Option<&AuthorId>>,
)
    requires
        encode_utf8(content::plain_text(rich@)).len() <= usize::MAX,
        call_ensures(provenance::author_at, (rich, at), r),
        0 <= k <= content::plain_text(rich@).len(),
    ensures
        at == byte_at(content::plain_text(rich@), k) ==> {
            &&& k < content::plain_text(rich@).len() ==> (r matches Ok(Some(who)) && who@
                == content::spread(rich@)[k].1)
            &&& k == content::plain_text(rich@).len() ==> r matches Ok(None)
        },
        r matches Err(e) ==> blames_offset(content::plain_text(rich@), at, e),
        r is Ok ==> good(content::plain_text(rich@), at as int),
{
    let whole = content::plain_text(rich@);
    lemma_byte_at(whole, k);
    lemma_offset_error(whole, at);
    text::lemma_encode_len(whole);
    assert(whole.take(whole.len() as int) == whole);
}

/// Each span of a range names the author of every character that begins in it, and a
/// range is refused as an edit of it would be.
pub proof fn law_a_span_names_the_author_of_its_characters(
    rich: &RichText,
    range: Range<usize>,
    n: int,
    k: int,
    r: Result<Vec<(Range<usize>, &AuthorId)>>,
)
    requires
        encode_utf8(content::plain_text(rich@)).len() <= usize::MAX,
        call_ensures(provenance::authors_in_range, (rich, range), r),
        0 <= k < content::plain_text(rich@).len(),
    ensures
        r matches Ok(spans) && 0 <= n < spans@.len() && spans@[n].0.start <= byte_at(
            content::plain_text(rich@),
            k,
        ) < spans@[n].0.end ==> r->Ok_0@[n].1@ == content::spread(rich@)[k].1,
        r matches Err(e) ==> blames_range(
            content::plain_text(rich@),
            range.start,
            range.end,
            e,
        ),
{
    let whole = content::plain_text(rich@);
    lemma_range_error(whole, range.start, range.end);
    lemma_byte_at(whole, k);
    if let Ok(spans) = r {
        if 0 <= n < spans@.len() {
            let view = provenance::spans_view(spans@);
            assert(view[n] == (
                spans@[n].0.start as int,
                spans@[n].0.end as int,
                spans@[n].1@,
            ));
            if spans@[n].0.start <= byte_at(whole, k) < spans@[n].0.end {
                lemma_covering_authors(rich@, range.start as int, range.end as int, n, k);
            }
        }
    }
}

proof fn lemma_covering_authors(runs: Runs, start: int, end: int, n: int, k: int)
    requires
        0 <= n < provenance::covering(runs, start, end).len(),
        0 <= k < content::plain_text(runs).len(),
        provenance::covering(runs, start, end)[n].0 <= text::utf8_len(
            content::plain_text(runs).take(k),
        ) < provenance::covering(runs, start, end)[n].1,
    ensures
        content::spread(runs)[k].1 == provenance::covering(runs, start, end)[n].2,
    decreases runs.len(),
{
    if runs.len() > 0 {
        let init = runs.drop_last();
        let front = content::plain_text(init);
        let last = runs.last().0;
        let whole = content::plain_text(runs);
        assert(whole == front + last);
        let before = provenance::covering(init, start, end);
        content::lemma_plain_of_spread(init);
        content::lemma_plain_of_spread(runs);
        assert(content::spread(init).len() == front.len());
        if k < front.len() {
            assert(whole.take(k) == front.take(k));
            text::lemma_utf8_len_strict(front, k, front.len() as int);
            assert(front.take(front.len() as int) == front);
            assert(n < before.len());
            assert(content::spread(runs)[k] == content::spread(init)[k]);
            lemma_covering_authors(init, start, end, n, k);
        } else {
            text::lemma_utf8_len_add(front, last.take(k - front.len()));
            assert(whole.take(k) == front + last.take(k - front.len()));
            lemma_covering_ends(init, start, end);
            assert(n == before.len());
            assert(content::spread(runs)[k] == (last[k - front.len()], runs.last().1));
        }
    }
}

proof fn lemma_covering_ends(runs: Runs, start: int, end: int)
    ensures
        forall|n: int|
            0 <= n < provenance::covering(runs, start, end).len() ==> (
            #[trigger] provenance::covering(runs, start, end)[n]).1 <= text::utf8_len(
                content::plain_text(runs),
            ),
    decreases runs.len(),
{
    if runs.len() > 0 {
        let init = runs.drop_last();
        lemma_covering_ends(init, start, end);
        text::lemma_utf8_len_add(content::plain_text(init), runs.last().0);
        let before = provenance::covering(init, start, end);
        let spans = provenance::covering(runs, start, end);
        assert forall|n: int| 0 <= n < spans.len() implies (#[trigger] spans[n]).1
            <= text::utf8_len(content::plain_text(runs)) by {
            if n < before.len() {
                assert(spans[n] == before[n]);
            }
        }
    }
}

/// The contributors of a text are the authors of its runs, each listed once, and the
/// first of them wrote its first run.
pub proof fn law_contributors_wrote_the_runs(rich: &RichText, seen: Vec<&AuthorId>, who: Author)
    requires
        call_ensures(provenance::contributors_of, (rich,), seen),
    ensures
        (exists|i: int| 0 <= i < seen@.len() && (#[trigger] seen@[i])@ == who) <==> (exists|k: int|
            0 <= k < rich.runs@.len() && (#[trigger] rich.runs@[k]).author@ == who),
        forall|i: int, j: int|
            0 <= i < j < seen@.len() ==> (#[trigger] seen@[i])@ != (#[trigger] seen@[j])@,
        rich.runs@.len() > 0 ==> seen@.len() > 0 && seen@[0]@ == rich.runs@[0].author@,
{
    let all = provenance::run_authors(rich@);
    let listed = provenance::authors_view(seen@);
    laws::law_first_seen_lists_each_once(all);
    assert forall|i: int, j: int| 0 <= i < j < seen@.len() implies (#[trigger] seen@[i])@ != (
    #[trigger] seen@[j])@ by {
        assert(listed[i] == seen@[i]@);
        assert(listed[j] == seen@[j]@);
    }
    if exists|i: int| 0 <= i < seen@.len() && (#[trigger] seen@[i])@ == who {
        let i = choose|i: int| 0 <= i < seen@.len() && (#[trigger] seen@[i])@ == who;
        assert(listed[i] == who);
        assert(listed.contains(who));
        assert(all.contains(who));
        let k = all.index_of(who);
        assert(all[k] == rich.runs@[k].author@);
    }
    if exists|k: int| 0 <= k < rich.runs@.len() && (#[trigger] rich.runs@[k]).author@ == who {
        let k = choose|k: int|
            0 <= k < rich.runs@.len() && (#[trigger] rich.runs@[k]).author@ == who;
        assert(all[k] == who);
        assert(all.contains(who));
        assert(listed.contains(who));
        let i = listed.index_of(who);
        assert(seen@[i]@ == who);
    }
    if rich.runs@.len() > 0 {
        laws::law_first_seen_keeps_reading_order(all, 1);
        let one = all.take(1);
        reveal_with_fuel(provenance::first_seen, 2);
        assert(one.drop_last() =~= Seq::empty());
        assert(one.last() == all[0]);
        let first = provenance::first_seen(one);
        assert(first == seq![all[0]]);
        assert(first[0] == listed.subrange(0, first.len() as int)[0]);
        assert(listed[0] == seen@[0]@);
        assert(all[0] == rich.runs@[0].author@);
    }
}

/// Whether an author of the runs goes by `tag`.
pub open spec fn tagged_run(runs: Seq<Run>, tag: Seq<char>) -> bool {
    exists|k: int|
        0 <= k < runs.len() && match (#[trigger] runs[k]).author {
            AuthorId::Human => tag == "human"@,
            AuthorId::Agent { model, label } => tag == model@ + "/"@ + label@,
        }
}

/// Whether a block names an author who goes by `tag`; code names nobody.
pub open spec fn tagged_in(block: Block, tag: Seq<char>) -> bool {
    match block {
        Block::Paragraph(t) => tagged_run(t.runs@, tag),
        Block::Heading { level: _, text } => tagged_run(text.runs@, tag),
        Block::CodeBlock { lang: _, code: _ } => false,
        Block::ListItem(t) => tagged_run(t.runs@, tag),
        Block::Quote(t) => tagged_run(t.runs@, tag),
    }
}

proof fn lemma_all_tags(blocks: Seq<BlockView>, tag: Seq<char>)
    ensures
        provenance::all_tags(blocks).contains(tag) <==> exists|i: int|
            0 <= i < blocks.len() && #[trigger] provenance::run_tags(
                provenance::prose_runs(blocks[i]),
            ).contains(tag),
    decreases blocks.len(),
{
    if blocks.len() > 0 {
        let init = blocks.drop_last();
        lemma_all_tags(init, tag);
        let front = provenance::all_tags(init);
        let back = provenance::run_tags(provenance::prose_runs(blocks.last()));
        let all = provenance::all_tags(blocks);
        assert(all == front + back);
        let last = blocks.len() - 1;
        assert(blocks[last] == blocks.last());
        if all.contains(tag) {
            let k = all.index_of(tag);
            if k < front.len() {
                assert(front[k] == tag);
                assert(front.contains(tag));
                let i = choose|i: int|
                    0 <= i < init.len() && #[trigger] provenance::run_tags(
                        provenance::prose_runs(init[i]),
                    ).contains(tag);
                assert(init[i] == blocks[i]);
                assert(provenance::run_tags(provenance::prose_runs(blocks[i])).contains(tag));
            } else {
                assert(back[k - front.len()] == tag);
                assert(provenance::run_tags(provenance::prose_runs(blocks[last])).contains(tag));
            }
        }
        if exists|i: int|
            0 <= i < blocks.len() && #[trigger] provenance::run_tags(
                provenance::prose_runs(blocks[i]),
            ).contains(tag) {
            let i = choose|i: int|
                0 <= i < blocks.len() && #[trigger] provenance::run_tags(
                    provenance::prose_runs(blocks[i]),
                ).contains(tag);
            if i < last {
                assert(init[i] == blocks[i]);
                assert(provenance::run_tags(provenance::prose_runs(init[i])).contains(tag));
                let k = front.index_of(tag);
                assert(all[k] == tag);
            } else {
                let k = back.index_of(tag);
                assert(all[front.len() + k] == tag);
            }
        }
    } else {
        assert(!provenance::all_tags(blocks).contains(tag));
    }
}

proof fn lemma_tagged_run(rich: RichText, tag: Seq<char>)
    ensures
        provenance::run_tags(rich@).contains(tag) <==> tagged_run(rich.runs@, tag),
{
    let tags = provenance::run_tags(rich@);
    if tags.contains(tag) {
        let k = tags.index_of(tag);
        assert(rich@[k] == rich.runs@[k]@);
        assert(tags[k] == rich.runs@[k].author@.tag());
    }
    if tagged_run(rich.runs@, tag) {
        let k = choose|k: int|
            0 <= k < rich.runs@.len() && match (#[trigger] rich.runs@[k]).author {
                AuthorId::Human => tag == "human"@,
                AuthorId::Agent { model, label } => tag == model@ + "/"@ + label@,
            };
        assert(rich@[k] == rich.runs@[k]@);
        assert(tags[k] == tag);
    }
}

proof fn lemma_tagged_in(block: Block, tag: Seq<char>)
    ensures
        provenance::run_tags(provenance::prose_runs(block@)).contains(tag) <==> tagged_in(
            block,
            tag,
        ),
{
    match block {
        Block::Paragraph(t) => lemma_tagged_run(t, tag),
        Block::Heading { level: _, text } => lemma_tagged_run(text, tag),
        Block::CodeBlock { lang: _, code: _ } => {},
        Block::ListItem(t) => lemma_tagged_run(t, tag),
        Block::Quote(t) => lemma_tagged_run(t, tag),
    }
}

/// The contributors of a document are the tags of those who wrote its prose, each
/// listed once.
pub proof fn law_contributors_wrote_the_prose(doc: &Document, seen: Vec<String>, tag: Seq<char>)
    requires
        call_ensures(provenance::contributors, (doc,), seen),
    ensures
        (exists|i: int| 0 <= i < seen@.len() && (#[trigger] seen@[i])@ == tag) <==> (exists|k: int|
            0 <= k < doc.blocks@.len() && tagged_in(#[trigger] doc.blocks@[k], tag)),
        forall|i: int, j: int|
            0 <= i < j < seen@.len() ==> (#[trigger] seen@[i])@ != (#[trigger] seen@[j])@,
{
    let all = provenance::all_tags(doc@);
    let listed = text::views(seen@);
    laws::law_first_seen_lists_each_once(all);
    lemma_all_tags(doc@, tag);
    assert forall|i: int, j: int| 0 <= i < j < seen@.len() implies (#[trigger] seen@[i])@ != (
    #[trigger] seen@[j])@ by {
        assert(listed[i] == seen@[i]@);
        assert(listed[j] == seen@[j]@);
    }
    if exists|i: int| 0 <= i < seen@.len() && (#[trigger] seen@[i])@ == tag {
        let i = choose|i: int| 0 <= i < seen@.len() && (#[trigger] seen@[i])@ == tag;
        assert(listed[i] == tag);
        assert(listed.contains(tag));
        let k = choose|k: int|
            0 <= k < doc@.len() && #[trigger] provenance::run_tags(
                provenance::prose_runs(doc@[k]),
            ).contains(tag);
        lemma_tagged_in(doc.blocks@[k], tag);
    }
    if exists|k: int| 0 <= k < doc.blocks@.len() && tagged_in(#[trigger] doc.blocks@[k], tag) {
        let k = choose|k: int|
            0 <= k < doc.blocks@.len() && tagged_in(#[trigger] doc.blocks@[k], tag);
        lemma_tagged_in(doc.blocks@[k], tag);
        assert(doc@[k] == doc.blocks@[k]@);
        assert(provenance::run_tags(provenance::prose_runs(doc@[k])).contains(tag));
        assert(listed.contains(tag));
        let i = listed.index_of(tag);
        assert(seen@[i]@ == tag);
    }
}

// ---------------------------------------------------------------------------
// Bodies
// ---------------------------------------------------------------------------

/// The authored characters of a block, code under the name of `code_author`.
pub open spec fn chars_of(block: BlockView, code_author: Author) -> Seq<(char, Author)> {
    match block {
        BlockView::Paragraph(t) => content::spread(t),
        BlockView::Heading { level: _, text } => content::spread(text),
        BlockView::CodeBlock { lang: _, code } => Seq::new(
            code.len(),
            |i: int| (code[i], code_author),
        ),
        BlockView::ListItem(t) => content::spread(t),
        BlockView::Quote(t) => content::spread(t),
    }
}

proof fn lemma_block_chars(block: BlockView, code_author: Author)
    ensures
        content::spread(body::block_runs(block, code_author)) == chars_of(block, code_author),
{
    if let BlockView::CodeBlock { lang, code } = block {
        let runs = content::single_run(code, code_author);
        if code.len() > 0 {
            content::laws::law_characters_keep_the_author_of_their_run(
                Seq::empty(),
                Seq::empty(),
                code,
                code_author,
            );
            assert(runs == seq![(code, code_author)]);
        }
        assert(content::spread(runs) == chars_of(block, code_author));
    }
}

/// The body of a document is the characters of its blocks in order, each whose it
/// was, with two line feeds between two blocks that belong to whoever closed the
/// blocks before them: the author of the last run, the code author behind code, and
/// where a block is empty whoever closed the ones before it.
pub proof fn law_a_body_holds_its_blocks_in_order(
    blocks: Seq<BlockView>,
    block: BlockView,
    code_author: Author,
)
    ensures
        content::spread(body::body_runs(seq![block], code_author)) == chars_of(block, code_author),
        blocks.len() > 0 ==> {
            let who = body::closing_author(blocks, code_author);
            content::spread(body::body_runs(blocks.push(block), code_author)) == content::spread(
                body::body_runs(blocks, code_author),
            ) + seq![('\n', who), ('\n', who)] + chars_of(block, code_author)
        },
        body::closing_author(Seq::empty(), code_author) == code_author,
        ({
            let who = body::closing_author(blocks.push(block), code_author);
            match block {
                BlockView::CodeBlock { lang: _, code: _ } => who == code_author,
                BlockView::Paragraph(t) => who == closes(t, blocks, code_author),
                BlockView::ListItem(t) => who == closes(t, blocks, code_author),
                BlockView::Quote(t) => who == closes(t, blocks, code_author),
                BlockView::Heading { level: _, text } => who == closes(text, blocks, code_author),
            }
        }),
{
    let all = blocks.push(block);
    assert(all.drop_last() == blocks);
    assert(all.last() == block);
    lemma_block_chars(block, code_author);
    if blocks.len() > 0 {
        let who = body::closing_author(blocks, code_author);
        let front = body::body_runs(blocks, code_author);
        let back = body::block_runs(block, code_author);
        reveal_strlit("\n\n");
        content::lemma_spread_push(front, "\n\n"@, who);
        content::laws::law_characters_keep_the_author_of_their_run(
            front.push(("\n\n"@, who)),
            back,
            Seq::empty(),
            who,
        );
        assert(content::tagged("\n\n"@, who) == seq![('\n', who), ('\n', who)]);
        assert(body::body_runs(all, code_author) == front.push(("\n\n"@, who)) + back);
    }
}

/// Whoever closes a prose block behind `blocks`.
pub open spec fn closes(runs: Runs, blocks: Seq<BlockView>, code_author: Author) -> Author {
    if runs.len() > 0 {
        runs[runs.len() - 1].1
    } else {
        body::closing_author(blocks, code_author)
    }
}

proof fn lemma_break_at(s: Seq<char>)
    ensures
        0 <= body::break_at(s) <= s.len(),
        body::break_at(s) + 2 <= s.len() ==> s[body::break_at(s)] == '\n' && s[body::break_at(s)
            + 1] == '\n',
        forall|k: int|
            0 <= k < body::break_at(s) && k + 1 < s.len() ==> !(#[trigger] s[k] == '\n' && s[k + 1]
                == '\n'),
        body::break_at(s) + 2 > s.len() ==> body::break_at(s) == s.len() || s.len() < 2
            || body::break_at(s) == s.len() - 1,
    decreases s.len(),
{
    if s.len() >= 2 && !(s[0] == '\n' && s[1] == '\n') {
        let rest = s.drop_first();
        lemma_break_at(rest);
        assert forall|k: int| 0 <= k < body::break_at(s) && k + 1 < s.len() implies !(
        #[trigger] s[k] == '\n' && s[k + 1] == '\n') by {
            if k > 0 {
                assert(rest[k - 1] == s[k]);
                assert(rest[k] == s[k + 1]);
            }
        }
    }
}

/// A body is cut at its first two line feeds in a row, and what follows is cut in
/// turn; a body without two in a row is one paragraph.
pub proof fn law_a_body_is_cut_at_blank_lines<K>(chars: Seq<(char, K)>, i: int)
    requires
        0 <= i <= chars.len(),
        forall|k: int|
            0 <= k < i && k + 1 < chars.len() ==> !((#[trigger] chars[k]).0 == '\n' && chars[k
                + 1].0 == '\n'),
    ensures
        i + 1 < chars.len() && chars[i].0 == '\n' && chars[i + 1].0 == '\n' ==> body::paragraphs(
            chars,
        ) == seq![chars.take(i)] + body::paragraphs(chars.skip(i + 2)),
        i == chars.len() ==> body::paragraphs(chars) == seq![chars],
{
    let s = content::plain(chars);
    lemma_break_at(s);
    let n = body::break_at(s);
    if n + 2 <= s.len() {
        assert(chars[n].0 == '\n' && chars[n + 1].0 == '\n');
    }
    if i + 1 < chars.len() && chars[i].0 == '\n' && chars[i + 1].0 == '\n' {
        if i < n {
            assert(s[i] == '\n' && s[i + 1] == '\n');
        }
        assert(n == i);
    }
}

/// A body becomes one paragraph for each part between blank lines, with its
/// characters whose they were; an empty body becomes none.
pub proof fn law_a_body_becomes_paragraphs(rich: &RichText, doc: Document)
    requires
        call_ensures(body::paragraph_document, (rich,), doc),
    ensures
        content::plain_text(rich@).len() == 0 ==> doc.blocks@.len() == 0,
        content::plain_text(rich@).len() > 0 ==> {
            let parts = body::paragraphs(content::spread(rich@));
            &&& doc.blocks@.len() == parts.len()
            &&& forall|i: int|
                0 <= i < parts.len() ==> (#[trigger] doc.blocks@[i] matches Block::Paragraph(t)
                    && content::spread(t@) == parts[i])
        },
{
    assert(doc@.len() == doc.blocks@.len());
    if content::plain_text(rich@).len() > 0 {
        let parts = body::paragraphs(content::spread(rich@));
        assert forall|i: int| 0 <= i < parts.len() implies (
        #[trigger] doc.blocks@[i] matches Block::Paragraph(t) && content::spread(t@)
            == parts[i]) by {
            assert(doc@[i] == doc.blocks@[i]@);
            provenance::law_coalesce_keeps_authorship(parts[i]);
        }
    }
}

} // verus!
