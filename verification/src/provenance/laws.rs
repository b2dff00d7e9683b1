//! What holds of edits, queries and diffs together.

use crate::content;
use crate::content::{Author, BlockView, RichText, Runs};
use crate::provenance;
use crate::provenance::body;
use crate::provenance::diff;
use crate::provenance::diff::{DiffOp, OpKind, Step};
use crate::provenance::Edit;
use crate::text;
use vstd::prelude::*;

verus! {

// ---------------------------------------------------------------------------
// Edits
// ---------------------------------------------------------------------------

/// The characters that an accepted edit replaces lie where its offsets say.
proof fn lemma_edit_place(runs: Runs, edit: Edit)
    requires
        provenance::range_error(content::plain_text(runs), edit.start(), edit.end()) is None,
    ensures
        ({
            let whole = content::plain_text(runs);
            let i = text::chars_before(whole, edit.start() as int);
            let j = text::chars_before(whole, edit.end() as int);
            &&& 0 <= i <= j <= whole.len()
            &&& whole.len() == content::spread(runs).len()
            &&& text::utf8_len(whole.take(i)) == edit.start()
            &&& text::utf8_len(whole.take(j)) == edit.end()
        }),
{
    provenance::lemma_boundary_order(
        content::plain_text(runs),
        edit.start() as int,
        edit.end() as int,
    );
    content::lemma_plain_of_spread(runs);
}

/// An accepted edit leaves a text in normal form, in which every character
/// before and after the edited span keeps its author, and what was written
/// stands between them under the editing author's name.
pub proof fn law_edit_attributes_only_what_it_writes(runs: Runs, edit: Edit, author: Author)
    requires
        provenance::edit_outcome(runs, edit, author) is Ok,
    ensures
        ({
            let whole = content::plain_text(runs);
            let i = text::chars_before(whole, edit.start() as int);
            let j = text::chars_before(whole, edit.end() as int);
            let result = provenance::edit_outcome(runs, edit, author)->Ok_0;
            &&& provenance::is_normal(result)
            &&& content::spread(result) == content::spread(runs).take(i) + content::tagged(
                edit.written(),
                author,
            ) + content::spread(runs).skip(j)
            &&& content::plain_text(result) == whole.take(i) + edit.written() + whole.skip(j)
        }),
{
    lemma_edit_place(runs, edit);
    let chars = provenance::edited(runs, edit.start(), edit.end(), edit.written(), author);
    let result = provenance::coalesce(chars);
    provenance::law_coalesce_keeps_authorship(chars);
    provenance::law_coalesce_is_normal(chars);
    content::lemma_plain_of_spread(runs);
    content::lemma_plain_of_spread(result);
    let whole = content::plain_text(runs);
    let i = text::chars_before(whole, edit.start() as int);
    let j = text::chars_before(whole, edit.end() as int);
    assert(content::plain(chars) == whole.take(i) + edit.written() + whole.skip(j));
}

/// An edit that neither removes nor writes anything leaves a text in normal form
/// as it is.
pub proof fn law_empty_edit_changes_nothing(runs: Runs, edit: Edit, author: Author)
    requires
        provenance::is_normal(runs),
        provenance::edit_outcome(runs, edit, author) is Ok,
        edit.start() == edit.end(),
        edit.written().len() == 0,
    ensures
        provenance::edit_outcome(runs, edit, author) == Ok::<Runs, provenance::ProvenanceError>(
            runs,
        ),
{
    lemma_edit_place(runs, edit);
    let chars = provenance::edited(runs, edit.start(), edit.end(), edit.written(), author);
    assert(chars == content::spread(runs));
    provenance::law_normal_form_is_unique(runs);
}

/// A replacement is a deletion of its range, followed by an insertion of its
/// text at the start of that range.
pub proof fn law_replace_is_delete_then_insert(
    runs: Runs,
    replace: Edit,
    delete: Edit,
    insert: Edit,
    author: Author,
)
    requires
        replace is Replace,
        delete is Delete,
        insert is Insert,
        delete.start() == replace.start(),
        delete.end() == replace.end(),
        insert.start() == replace.start(),
        insert.written() == replace.written(),
    ensures
        provenance::edit_outcome(runs, replace, author) == (match provenance::edit_outcome(
            runs,
            delete,
            author,
        ) {
            Err(e) => Err(e),
            Ok(shorter) => provenance::edit_outcome(shorter, insert, author),
        }),
{
    if provenance::edit_outcome(runs, delete, author) is Ok {
        lemma_edit_place(runs, delete);
        law_edit_attributes_only_what_it_writes(runs, delete, author);
        let whole = content::plain_text(runs);
        let i = text::chars_before(whole, delete.start() as int);
        let j = text::chars_before(whole, delete.end() as int);
        let shorter = provenance::edit_outcome(runs, delete, author)->Ok_0;
        let left = content::plain_text(shorter);
        assert(left.take(i) == whole.take(i));
        text::lemma_chars_before(left, i);
        assert(left.take(left.len() as int) == left);
        if i < left.len() {
            text::lemma_utf8_len_strict(left, i, left.len() as int);
        }
        let chars = content::spread(runs);
        let kept = content::spread(shorter);
        assert(kept == chars.take(i) + chars.skip(j));
        assert(kept.take(i) == chars.take(i));
        assert(kept.skip(i) == chars.skip(j));
        assert(provenance::edited(
            shorter,
            insert.start(),
            insert.end(),
            insert.written(),
            author,
        ) == provenance::edited(
            runs,
            replace.start(),
            replace.end(),
            replace.written(),
            author,
        ));
    }
}

// ---------------------------------------------------------------------------
// Taking over a whole new body
// ---------------------------------------------------------------------------

/// No longer stretch than `common_prefix` is shared at the front.
pub proof fn law_common_prefix_is_longest(a: Seq<char>, b: Seq<char>, n: int)
    requires
        0 <= n <= a.len(),
        n <= b.len(),
        a.take(n) == b.take(n),
    ensures
        n <= provenance::common_prefix(a, b),
    decreases n,
{
    if n > 0 {
        assert(a[0] == a.take(n)[0]);
        assert(b[0] == b.take(n)[0]);
        assert(a.drop_first().take(n - 1) == a.take(n).drop_first());
        assert(b.drop_first().take(n - 1) == b.take(n).drop_first());
        law_common_prefix_is_longest(a.drop_first(), b.drop_first(), n - 1);
    }
}

/// No longer stretch than `common_suffix` is shared at the back.
pub proof fn law_common_suffix_is_longest(a: Seq<char>, b: Seq<char>, n: int)
    requires
        0 <= n <= a.len(),
        n <= b.len(),
        a.skip(a.len() - n) == b.skip(b.len() - n),
    ensures
        n <= provenance::common_suffix(a, b),
    decreases n,
{
    if n > 0 {
        assert(a.last() == a.skip(a.len() - n).last());
        assert(b.last() == b.skip(b.len() - n).last());
        assert(a.drop_last().skip(a.len() - n) == a.skip(a.len() - n).drop_last());
        assert(b.drop_last().skip(b.len() - n) == b.skip(b.len() - n).drop_last());
        law_common_suffix_is_longest(a.drop_last(), b.drop_last(), n - 1);
    }
}

/// Handing in a whole new body makes it the text; what the old and the new text
/// share at the front, and of the rest at the back, keeps its authors, and
/// everything between is the new author's.
pub proof fn law_reauthor_blames_only_the_change(runs: Runs, new: Seq<char>, author: Author)
    ensures
        ({
            let result = provenance::reauthored(runs, new, author);
            let old_text = content::plain_text(runs);
            let p = provenance::common_prefix(old_text, new) as int;
            let s = provenance::common_suffix(old_text.skip(p), new.skip(p)) as int;
            let before = content::spread(runs);
            let after = content::spread(result);
            &&& content::plain_text(result) == new
            &&& p + s <= old_text.len() == before.len()
            &&& p + s <= new.len() == after.len()
            &&& after.take(p) == before.take(p)
            &&& after.skip(new.len() - s) == before.skip(old_text.len() - s)
            &&& old_text != new ==> provenance::is_normal(result)
            &&& old_text != new ==> after.subrange(p, new.len() - s) == content::tagged(
                new.subrange(p, new.len() - s),
                author,
            )
        }),
{
    let result = provenance::reauthored(runs, new, author);
    let old_text = content::plain_text(runs);
    let p = provenance::common_prefix(old_text, new) as int;
    provenance::lemma_common_prefix(old_text, new);
    let x = old_text.skip(p);
    let y = new.skip(p);
    provenance::lemma_common_suffix(x, y);
    let s = provenance::common_suffix(x, y) as int;
    content::lemma_plain_of_spread(runs);
    content::lemma_plain_of_spread(result);
    let before = content::spread(runs);
    if old_text != new {
        let mid = new.subrange(p, new.len() - s);
        let chars = provenance::replaced(before, p, old_text.len() - s, mid, author);
        provenance::law_coalesce_keeps_authorship(chars);
        provenance::law_coalesce_is_normal(chars);
        assert(x.skip(x.len() - s) == old_text.skip(old_text.len() - s));
        assert(y.skip(y.len() - s) == new.skip(new.len() - s));
        assert(content::plain(chars) == old_text.take(p) + mid + old_text.skip(
            old_text.len() - s,
        ));
        assert(old_text.take(p) + mid + old_text.skip(old_text.len() - s) == new) by {
            assert(new.take(p) + mid + new.skip(new.len() - s) == new);
        }
        assert(chars.take(p) == before.take(p));
        assert(chars.skip(new.len() - s) == before.skip(old_text.len() - s));
        assert(chars.subrange(p, new.len() - s) == content::tagged(mid, author));
    }
}

// ---------------------------------------------------------------------------
// Queries
// ---------------------------------------------------------------------------

/// The spans that cover a range tile it: they begin where it begins, each begins
/// where the one before it ends, none is empty, and they end where it ends. Over
/// runs in normal form, neighbouring spans have distinct authors.
pub proof fn law_covering_tiles_the_range(runs: Runs, start: int, end: int)
    requires
        0 <= start <= end <= text::utf8_len(content::plain_text(runs)),
    ensures
        ({
            let spans = provenance::covering(runs, start, end);
            &&& start == end <==> spans.len() == 0
            &&& spans.len() > 0 ==> spans[0].0 == start && spans.last().1 == end
            &&& forall|i: int| 0 <= i < spans.len() ==> (#[trigger] spans[i]).0 < spans[i].1
            &&& forall|i: int, j: int|
                0 <= i && j == i + 1 && j < spans.len() ==> (#[trigger] spans[i]).1 == (
                #[trigger] spans[j]).0
            &&& provenance::is_normal(runs) ==> forall|i: int, j: int|
                0 <= i && j == i + 1 && j < spans.len() ==> (#[trigger] spans[i]).2 != (
                #[trigger] spans[j]).2
        }),
{
    lemma_covering(runs, start, end);
}

proof fn lemma_covering(runs: Runs, start: int, end: int)
    requires
        0 <= start <= end,
    ensures
        ({
            let spans = provenance::covering(runs, start, end);
            let size = text::utf8_len(content::plain_text(runs)) as int;
            let stop = if end < size {
                end
            } else {
                size
            };
            &&& start < stop <==> spans.len() > 0
            &&& spans.len() > 0 ==> spans[0].0 == start && spans.last().1 == stop
            &&& forall|i: int| 0 <= i < spans.len() ==> (#[trigger] spans[i]).0 < spans[i].1
            &&& forall|i: int, j: int|
                0 <= i && j == i + 1 && j < spans.len() ==> (#[trigger] spans[i]).1 == (
                #[trigger] spans[j]).0
            &&& provenance::is_normal(runs) ==> forall|i: int, j: int|
                0 <= i && j == i + 1 && j < spans.len() ==> (#[trigger] spans[i]).2 != (
                #[trigger] spans[j]).2
            &&& provenance::is_normal(runs) && spans.len() > 0 && size <= end ==> runs.len() > 0
                && spans.last().2 == runs.last().1
        }),
    decreases runs.len(),
{
    if runs.len() > 0 {
        let init = runs.drop_last();
        lemma_covering(init, start, end);
        text::lemma_utf8_len_add(content::plain_text(init), runs.last().0);
        let before = provenance::covering(init, start, end);
        let spans = provenance::covering(runs, start, end);
        if provenance::is_normal(runs) {
            assert(provenance::is_normal(init)) by {
                assert forall|i: int| 0 <= i < init.len() implies (#[trigger] init[i]).0.len()
                    > 0 by {
                    assert(init[i] == runs[i]);
                }
                assert forall|i: int, j: int|
                    0 <= i < init.len() && j == i + 1 && j < init.len() implies (
                #[trigger] init[i]).1 != (#[trigger] init[j]).1 by {
                    assert(init[i] == runs[i]);
                    assert(init[j] == runs[j]);
                }
            }
            assert(runs[runs.len() - 1].0.len() > 0);
            let last = runs.last().0;
            assert(last.take(last.len() as int) == last);
            assert(last.take(0).len() == 0);
            text::lemma_utf8_len_strict(last, 0, last.len() as int);
            if init.len() > 0 {
                assert(init.last() == runs[runs.len() - 2]);
                assert(runs[runs.len() - 2].1 != runs[runs.len() - 1].1);
            }
        }
        if spans.len() > before.len() {
            assert(spans.drop_last() == before);
        }
    }
}

/// Each element is listed once, and the listed elements are those that occur.
pub proof fn law_first_seen_lists_each_once<A>(s: Seq<A>)
    ensures
        provenance::first_seen(s).no_duplicates(),
        forall|x: A| provenance::first_seen(s).contains(x) <==> s.contains(x),
    decreases s.len(),
{
    if s.len() > 0 {
        let init = s.drop_last();
        law_first_seen_lists_each_once(init);
        let before = provenance::first_seen(init);
        let now = provenance::first_seen(s);
        assert forall|x: A| now.contains(x) <==> s.contains(x) by {
            if s.contains(x) {
                let k = s.index_of(x);
                if k < init.len() {
                    assert(init[k] == x);
                    assert(init.contains(x));
                    assert(before.contains(x));
                    let j = before.index_of(x);
                    assert(now[j] == x);
                } else if !before.contains(s.last()) {
                    assert(now[before.len() as int] == x);
                }
            }
            if now.contains(x) {
                let j = now.index_of(x);
                if j < before.len() {
                    assert(before[j] == x);
                    assert(init.contains(x));
                    let k = init.index_of(x);
                    assert(s[k] == x);
                } else {
                    assert(s[s.len() - 1] == x);
                }
            }
        }
    }
}

/// The list of first appearances of the front of `s` begins that of `s`.
pub proof fn law_first_seen_keeps_reading_order<A>(s: Seq<A>, n: int)
    requires
        0 <= n <= s.len(),
    ensures
        provenance::first_seen(s.take(n)).is_prefix_of(provenance::first_seen(s)),
    decreases s.len() - n,
{
    if n == s.len() {
        assert(s.take(n) == s);
    } else {
        law_first_seen_keeps_reading_order(s, n + 1);
        assert(s.take(n + 1).drop_last() == s.take(n));
    }
}

// ---------------------------------------------------------------------------
// Bodies and documents
// ---------------------------------------------------------------------------

proof fn lemma_plain_text_add<K>(a: Seq<(Seq<char>, K)>, b: Seq<(Seq<char>, K)>)
    ensures
        content::plain_text(a + b) == content::plain_text(a) + content::plain_text(b),
    decreases b.len(),
{
    if b.len() == 0 {
        assert(a + b == a);
        assert(content::plain_text(a) + content::plain_text(b) == content::plain_text(a));
    } else {
        assert((a + b).drop_last() == a + b.drop_last());
        lemma_plain_text_add(a, b.drop_last());
        assert(content::plain_text(a + b) == content::plain_text(a) + content::plain_text(b));
    }
}

proof fn lemma_block_text(block: BlockView, code_author: Author)
    ensures
        content::plain_text(body::block_runs(block, code_author)) == block.plain(),
{
    match block {
        BlockView::CodeBlock { lang: _, code } => {
            let runs = content::single_run(code, code_author);
            if code.len() > 0 {
                assert(runs == Runs::empty().push((code, code_author)));
                content::lemma_plain_text_push(Runs::empty(), code, code_author);
                assert(Seq::<char>::empty() + code == code);
            } else {
                assert(code == Seq::<char>::empty());
            }
        },
        _ => {},
    }
}

proof fn lemma_body_text(blocks: Seq<BlockView>, code_author: Author)
    ensures
        content::plain_text(body::body_runs(blocks, code_author)) == text::joined(
            content::plain_blocks(blocks),
            "\n\n"@,
        ),
    decreases blocks.len(),
{
    let parts = content::plain_blocks(blocks);
    if blocks.len() == 1 {
        lemma_block_text(blocks[0], code_author);
    } else if blocks.len() > 1 {
        let init = blocks.drop_last();
        lemma_body_text(init, code_author);
        lemma_block_text(blocks.last(), code_author);
        let front = body::body_runs(init, code_author);
        let sep = body::closing_author(blocks.drop_last(), code_author);
        content::lemma_plain_text_push(front, "\n\n"@, sep);
        lemma_plain_text_add(
            front.push(("\n\n"@, sep)),
            body::block_runs(blocks.last(), code_author),
        );
        assert(parts.drop_last() == content::plain_blocks(init));
    }
}

/// The text of a flattened document is the document's plain text, and it is in
/// normal form.
pub proof fn law_flatten_keeps_the_text(blocks: Seq<BlockView>, code_author: Author)
    ensures
        ({
            let result = provenance::coalesce(
                content::spread(body::body_runs(blocks, code_author)),
            );
            &&& content::plain_text(result) == text::joined(
                content::plain_blocks(blocks),
                "\n\n"@,
            )
            &&& provenance::is_normal(result)
        }),
{
    let runs = body::body_runs(blocks, code_author);
    let chars = content::spread(runs);
    lemma_body_text(blocks, code_author);
    content::lemma_plain_of_spread(runs);
    provenance::law_coalesce_keeps_authorship(chars);
    provenance::law_coalesce_is_normal(chars);
    content::lemma_plain_of_spread(provenance::coalesce(chars));
}

/// Parts put together again, with blank lines between them that belong to the
/// author of what they follow.
pub open spec fn rejoined(parts: Seq<Seq<(char, Author)>>, code_author: Author) -> Seq<
    (char, Author),
>
    decreases parts.len(),
{
    if parts.len() == 0 {
        Seq::empty()
    } else if parts.len() == 1 {
        parts[0]
    } else {
        rejoined(parts.drop_last(), code_author) + content::tagged(
            "\n\n"@,
            last_author(parts.drop_last(), code_author),
        ) + parts.last()
    }
}

/// Who wrote the last character of `parts`, or `code_author` where there is none.
pub open spec fn last_author(parts: Seq<Seq<(char, Author)>>, code_author: Author) -> Author
    decreases parts.len(),
{
    if parts.len() == 0 {
        code_author
    } else if parts.last().len() > 0 {
        parts.last().last().1
    } else {
        last_author(parts.drop_last(), code_author)
    }
}

proof fn lemma_last_author(parts: Seq<Seq<(char, Author)>>, code_author: Author)
    ensures
        body::closing_author(body::paragraph_blocks(parts), code_author) == last_author(
            parts,
            code_author,
        ),
    decreases parts.len(),
{
    if parts.len() > 0 {
        let part = parts.last();
        let runs = provenance::coalesce(part);
        let blocks = body::paragraph_blocks(parts);
        assert(blocks.drop_last() == body::paragraph_blocks(parts.drop_last()));
        assert(blocks.last() == BlockView::Paragraph(runs));
        lemma_last_author(parts.drop_last(), code_author);
        provenance::law_coalesce_keeps_authorship(part);
        provenance::law_coalesce_is_normal(part);
        if part.len() > 0 {
            if runs.len() == 0 {
                assert(content::spread(runs).len() == 0);
            }
            let end = runs.last();
            assert(end.0.len() > 0);
            assert(runs.drop_last().push(end) == runs);
            content::lemma_spread_push(runs.drop_last(), end.0, end.1);
            assert(content::spread(runs).last() == content::tagged(end.0, end.1).last());
        } else {
            assert(runs == Runs::empty());
        }
    }
}

proof fn lemma_flatten_paragraphs(parts: Seq<Seq<(char, Author)>>, code_author: Author)
    ensures
        content::spread(body::body_runs(body::paragraph_blocks(parts), code_author)) == rejoined(
            parts,
            code_author,
        ),
    decreases parts.len(),
{
    let blocks = body::paragraph_blocks(parts);
    if parts.len() == 1 {
        provenance::law_coalesce_keeps_authorship(parts[0]);
    } else if parts.len() > 1 {
        let init = parts.drop_last();
        assert(blocks.drop_last() == body::paragraph_blocks(init));
        lemma_flatten_paragraphs(init, code_author);
        lemma_last_author(init, code_author);
        provenance::law_coalesce_keeps_authorship(parts.last());
        let front = body::body_runs(blocks.drop_last(), code_author);
        let sep = body::closing_author(blocks.drop_last(), code_author);
        content::lemma_spread_push(front, "\n\n"@, sep);
        provenance::lemma_spread_add(
            front.push(("\n\n"@, sep)),
            body::block_runs(blocks.last(), code_author),
        );
    }
}

/// The parts joined by blank lines, whoever wrote those.
proof fn lemma_paragraphs_text<K>(chars: Seq<(char, K)>)
    ensures
        body::paragraphs(chars).len() > 0,
        text::joined(part_texts(body::paragraphs(chars)), "\n\n"@) == content::plain(chars),
    decreases chars.len(),
{
    reveal_strlit("\n\n");
    let plain = content::plain(chars);
    body::lemma_break_at(plain);
    let i = body::break_at(plain);
    let parts = body::paragraphs(chars);
    if i + 2 <= chars.len() {
        let rest = body::paragraphs(chars.skip(i + 2));
        lemma_paragraphs_text(chars.skip(i + 2));
        assert(parts == seq![chars.take(i)] + rest);
        assert(part_texts(parts) == seq![content::plain(chars.take(i))] + part_texts(rest));
        text::lemma_joined_first(part_texts(parts), "\n\n"@);
        assert(part_texts(parts).drop_first() == part_texts(rest));
        assert(content::plain(chars.take(i)) == plain.take(i));
        assert(content::plain(chars.skip(i + 2)) == plain.skip(i + 2));
        assert(plain.take(i) + "\n\n"@ + plain.skip(i + 2) == plain);
    } else {
        assert(part_texts(parts) == seq![plain]);
    }
}

/// The characters of each part.
pub open spec fn part_texts<K>(parts: Seq<Seq<(char, K)>>) -> Seq<Seq<char>> {
    Seq::new(parts.len(), |i: int| content::plain(parts[i]))
}

/// Whether each blank line of `chars`, as they are found from the front, belongs to
/// the author of the character before it, and to `before` where there is none.
pub open spec fn breaks_follow(chars: Seq<(char, Author)>, before: Author) -> bool
    decreases chars.len(),
{
    let i = body::break_at(content::plain(chars));
    if 0 <= i && i + 2 <= chars.len() {
        let author = if i > 0 {
            chars[i - 1].1
        } else {
            before
        };
        &&& chars[i].1 == author
        &&& chars[i + 1].1 == author
        &&& breaks_follow(chars.skip(i + 2), author)
    } else {
        true
    }
}

/// Parts put together are what was cut into them exactly where each blank line
/// belongs to the author of what it follows.
proof fn lemma_rejoined_is_whole(chars: Seq<(char, Author)>, before: Author)
    ensures
        rejoined(body::paragraphs(chars), before) == chars <==> breaks_follow(chars, before),
        rejoined(body::paragraphs(chars), before).len() == chars.len(),
    decreases chars.len(),
{
    reveal_strlit("\n\n");
    let plain = content::plain(chars);
    body::lemma_break_at(plain);
    let i = body::break_at(plain);
    let parts = body::paragraphs(chars);
    if i + 2 <= chars.len() {
        let rest = chars.skip(i + 2);
        let tail = body::paragraphs(rest);
        let front = chars.take(i);
        assert(parts == seq![front] + tail);
        assert(parts.drop_first() == tail);
        lemma_paragraphs_text(rest);
        lemma_rejoined_first(parts, before);
        let author = if i > 0 {
            chars[i - 1].1
        } else {
            before
        };
        assert(part_author(front, before) == author);
        lemma_rejoined_is_whole(rest, author);
        let sep = content::tagged("\n\n"@, author);
        let whole = rejoined(parts, before);
        assert(whole == front + sep + rejoined(tail, author));
        assert(sep.len() == 2);
        assert(plain[i] == '\n' && plain[i + 1] == '\n');
        if whole == chars {
            assert(whole[i] == sep[0] && whole[i + 1] == sep[1]);
            assert(rejoined(tail, author) == whole.skip(i + 2));
        }
        if breaks_follow(chars, before) {
            assert(chars.subrange(i, i + 2) == sep);
            assert(front + chars.subrange(i, i + 2) + rest == chars);
        }
    } else {
        assert(rejoined(parts, before) == chars);
    }
}

/// Cutting a body into paragraphs and flattening them again gives back its text,
/// and every character of a paragraph keeps its author; the blank lines between
/// paragraphs pass to the author of what they follow. So it is the body again, in
/// normal form, exactly where each blank line belongs to the author of the
/// character before it (to `code_author` where the body begins with it).
pub proof fn law_paragraphs_flatten_to_the_body(runs: Runs, code_author: Author)
    requires
        content::plain_text(runs).len() > 0,
    ensures
        ({
            let parts = body::paragraphs(content::spread(runs));
            let blocks = body::paragraph_blocks(parts);
            let result = provenance::coalesce(
                content::spread(body::body_runs(blocks, code_author)),
            );
            &&& content::plain_text(result) == content::plain_text(runs)
            &&& content::spread(result) == rejoined(parts, code_author)
            &&& text::joined(part_texts(parts), "\n\n"@) == content::plain_text(runs)
            &&& result == provenance::coalesce(content::spread(runs)) <==> breaks_follow(
                content::spread(runs),
                code_author,
            )
            &&& provenance::is_normal(runs) && breaks_follow(content::spread(runs), code_author)
                ==> result == runs
        }),
{
    let chars = content::spread(runs);
    let parts = body::paragraphs(chars);
    let blocks = body::paragraph_blocks(parts);
    lemma_flatten_paragraphs(parts, code_author);
    lemma_paragraphs_text(chars);
    content::lemma_plain_of_spread(runs);
    law_flatten_keeps_the_text(blocks, code_author);
    provenance::law_coalesce_keeps_authorship(rejoined(parts, code_author));
    provenance::law_coalesce_keeps_authorship(chars);
    lemma_rejoined_is_whole(chars, code_author);
    if provenance::is_normal(runs) {
        provenance::law_normal_form_is_unique(runs);
    }
    assert(content::plain_blocks(blocks) == part_texts(parts)) by {
        assert forall|k: int| 0 <= k < parts.len() implies content::plain_blocks(blocks)[k]
            == part_texts(parts)[k] by {
            provenance::law_coalesce_keeps_authorship(parts[k]);
            content::lemma_plain_of_spread(provenance::coalesce(parts[k]));
        }
    }
}

/// Whether the first blank line of `part` and the blank line after it is that
/// blank line.
pub open spec fn ends_at_break(part: Seq<char>) -> bool {
    body::break_at(part + "\n\n"@) == part.len()
}

/// Whether `parts` is what a body of its paragraphs is cut into again: no part
/// holds a blank line, and none but the last ends in a line break.
pub open spec fn are_paragraphs(parts: Seq<Seq<char>>) -> bool {
    &&& parts.len() > 0
    &&& forall|k: int| 0 <= k < parts.len() - 1 ==> ends_at_break(#[trigger] parts[k])
    &&& body::break_at(parts.last()) == parts.last().len()
}

proof fn lemma_break_at_prefix(a: Seq<char>, b: Seq<char>)
    requires
        ends_at_break(a),
    ensures
        body::break_at(a + "\n\n"@ + b) == a.len(),
    decreases a.len(),
{
    reveal_strlit("\n\n");
    let s = a + "\n\n"@ + b;
    let t = a + "\n\n"@;
    assert(t.len() == a.len() + 2);
    if a.len() > 0 {
        assert(s[0] == t[0] && s[1] == t[1]);
        assert(t.drop_first() == a.drop_first() + "\n\n"@);
        assert(s.drop_first() == a.drop_first() + "\n\n"@ + b);
        lemma_break_at_prefix(a.drop_first(), b);
    }
}

/// Who wrote the last character of a part, or `before` where it has none.
spec fn part_author(part: Seq<(char, Author)>, before: Author) -> Author {
    if part.len() > 0 {
        part.last().1
    } else {
        before
    }
}

proof fn lemma_last_author_first(parts: Seq<Seq<(char, Author)>>, before: Author)
    requires
        parts.len() > 0,
    ensures
        last_author(parts, before) == last_author(
            parts.drop_first(),
            part_author(parts[0], before),
        ),
    decreases parts.len(),
{
    if parts.len() == 1 {
        assert(last_author(parts.drop_last(), before) == before);
    } else {
        assert(parts.drop_first().last() == parts.last());
        assert(parts.drop_first().drop_last() == parts.drop_last().drop_first());
        lemma_last_author_first(parts.drop_last(), before);
    }
}

proof fn lemma_rejoined_first(parts: Seq<Seq<(char, Author)>>, before: Author)
    requires
        parts.len() > 1,
    ensures
        rejoined(parts, before) == parts[0] + content::tagged(
            "\n\n"@,
            part_author(parts[0], before),
        ) + rejoined(parts.drop_first(), part_author(parts[0], before)),
    decreases parts.len(),
{
    let rest = parts.drop_first();
    let author = part_author(parts[0], before);
    let sep = content::tagged("\n\n"@, author);
    lemma_last_author_first(parts.drop_last(), before);
    if parts.len() == 2 {
        assert(parts.drop_last().len() == 1);
        assert(parts.drop_last().drop_first().len() == 0);
        assert(rejoined(rest, author) == parts[1]);
        assert(rejoined(parts.drop_last(), before) == parts[0]);
    } else {
        lemma_rejoined_first(parts.drop_last(), before);
        assert(parts.drop_last().drop_first() == rest.drop_last());
        let mid = rejoined(rest.drop_last(), author);
        let end = content::tagged("\n\n"@, last_author(rest.drop_last(), author));
        assert(rejoined(rest, author) == mid + end + parts.last());
        assert((parts[0] + sep + mid) + end + parts.last() == parts[0] + sep + (mid + end
            + parts.last()));
    }
}

proof fn lemma_cut_again(parts: Seq<Seq<(char, Author)>>, code_author: Author)
    requires
        are_paragraphs(part_texts(parts)),
    ensures
        body::paragraphs(rejoined(parts, code_author)) == parts,
    decreases parts.len(),
{
    reveal_strlit("\n\n");
    let texts = part_texts(parts);
    let whole = rejoined(parts, code_author);
    if parts.len() == 1 {
        assert(content::plain(whole) == texts[0]);
        assert(texts.last() == texts[0]);
        assert(body::paragraphs(whole) == seq![whole]);
        assert(parts == seq![parts[0]]);
    } else {
        let rest = parts.drop_first();
        lemma_rejoined_first(parts, code_author);
        assert(are_paragraphs(part_texts(rest))) by {
            assert(part_texts(rest).last() == texts.last());
            assert forall|k: int| 0 <= k < rest.len() - 1 implies ends_at_break(
                #[trigger] part_texts(rest)[k],
            ) by {
                assert(part_texts(rest)[k] == texts[k + 1]);
            }
        }
        let author = part_author(parts[0], code_author);
        lemma_cut_again(rest, author);
        let tail = rejoined(rest, author);
        let sep = content::tagged("\n\n"@, author);
        assert(ends_at_break(texts[0]));
        lemma_break_at_prefix(texts[0], content::plain(tail));
        assert(content::plain(whole) == texts[0] + "\n\n"@ + content::plain(tail));
        let i = parts[0].len() as int;
        assert(whole.take(i) == parts[0]);
        assert(whole.skip(i + 2) == tail);
        assert(body::paragraphs(whole) == seq![parts[0]] + rest);
        assert(seq![parts[0]] + rest == parts);
    }
}

/// The authored characters of each paragraph.
pub open spec fn paragraph_parts(paras: Seq<Runs>) -> Seq<Seq<(char, Author)>> {
    Seq::new(paras.len(), |k: int| content::spread(paras[k]))
}

/// A document of paragraphs in normal form, none of which holds a blank line or
/// (but for the last) ends in a line break, and which is not one empty paragraph
/// alone, comes back when its flattened body is cut into paragraphs.
pub proof fn law_flattened_paragraphs_come_back(paras: Seq<Runs>, code_author: Author)
    requires
        forall|k: int| 0 <= k < paras.len() ==> provenance::is_normal(#[trigger] paras[k]),
        are_paragraphs(part_texts(paragraph_parts(paras))),
        paras.len() > 1 || paras[0].len() > 0,
    ensures
        ({
            let blocks = Seq::new(paras.len(), |k: int| BlockView::Paragraph(paras[k]));
            let flat = provenance::coalesce(
                content::spread(body::body_runs(blocks, code_author)),
            );
            &&& content::plain_text(flat).len() > 0
            &&& body::paragraph_blocks(body::paragraphs(content::spread(flat))) == blocks
        }),
{
    reveal_strlit("\n\n");
    let parts = paragraph_parts(paras);
    let blocks = Seq::new(paras.len(), |k: int| BlockView::Paragraph(paras[k]));
    assert(body::paragraph_blocks(parts) == blocks) by {
        assert forall|k: int| 0 <= k < paras.len() implies body::paragraph_blocks(parts)[k]
            == blocks[k] by {
            provenance::law_normal_form_is_unique(paras[k]);
        }
    }
    lemma_flatten_paragraphs(parts, code_author);
    let whole = rejoined(parts, code_author);
    let flat = provenance::coalesce(content::spread(body::body_runs(blocks, code_author)));
    provenance::law_coalesce_keeps_authorship(whole);
    content::lemma_plain_of_spread(flat);
    lemma_cut_again(parts, code_author);
    if paras.len() > 1 {
        lemma_rejoined_first(parts, code_author);
    } else {
        assert(whole == parts[0]);
        let runs = paras[0];
        assert(runs[0].0.len() > 0);
        assert(runs.take(0) == Runs::empty());
        provenance::lemma_char_in_run(runs, 0, 0);
    }
}

// ---------------------------------------------------------------------------
// Diffs
// ---------------------------------------------------------------------------

/// The text of the ops of a diff without those of one kind.
pub open spec fn text_without(ops: Seq<(Seq<char>, (OpKind, Author))>, kind: OpKind) -> Seq<char>
    decreases ops.len(),
{
    if ops.len() == 0 {
        Seq::empty()
    } else {
        text_without(ops.drop_last(), kind) + if ops.last().1.0 == kind {
            Seq::empty()
        } else {
            ops.last().0
        }
    }
}

/// The characters and authors of the steps without those of one kind.
pub open spec fn steps_without(steps: Seq<Step>, kind: OpKind) -> Seq<(char, Author)>
    decreases steps.len(),
{
    if steps.len() == 0 {
        Seq::empty()
    } else if steps.last().1.0 == kind {
        steps_without(steps.drop_last(), kind)
    } else {
        steps_without(steps.drop_last(), kind).push((steps.last().0, steps.last().1.1))
    }
}

proof fn lemma_steps_without_add(a: Seq<Step>, b: Seq<Step>, kind: OpKind)
    ensures
        steps_without(a + b, kind) == steps_without(a, kind) + steps_without(b, kind),
    decreases b.len(),
{
    if b.len() == 0 {
        assert(a + b == a);
        assert(steps_without(a, kind) + steps_without(b, kind) == steps_without(a, kind));
    } else {
        assert((a + b).drop_last() == a + b.drop_last());
        lemma_steps_without_add(a, b.drop_last(), kind);
        assert(steps_without(a + b, kind) == steps_without(a, kind) + steps_without(b, kind));
    }
}

proof fn lemma_one_step(step: Step, kind: OpKind)
    ensures
        steps_without(seq![step], kind) == if step.1.0 == kind {
            Seq::empty()
        } else {
            seq![(step.0, step.1.1)]
        },
{
    reveal_with_fuel(steps_without, 2);
    assert(seq![step].drop_last() == Seq::<Step>::empty());
    assert(Seq::<(char, Author)>::empty().push((step.0, step.1.1)) == seq![(step.0, step.1.1)]);
}

proof fn lemma_uniform_steps(chars: Seq<(char, Author)>, made: OpKind, kind: OpKind)
    ensures
        steps_without(diff::steps(chars, made), kind) == if made == kind {
            Seq::empty()
        } else {
            chars
        },
    decreases chars.len(),
{
    let all = diff::steps(chars, made);
    if chars.len() > 0 {
        assert(all.drop_last() == diff::steps(chars.drop_last(), made));
        lemma_uniform_steps(chars.drop_last(), made, kind);
        assert(chars.drop_last().push(chars.last()) == chars);
    } else {
        assert(chars == Seq::<(char, Author)>::empty());
    }
}

proof fn lemma_text_without(ops: Seq<(Seq<char>, (OpKind, Author))>, kind: OpKind)
    ensures
        text_without(ops, kind) == content::plain(steps_without(content::spread(ops), kind)),
    decreases ops.len(),
{
    if ops.len() > 0 {
        let init = ops.drop_last();
        lemma_text_without(init, kind);
        let last = content::tagged(ops.last().0, ops.last().1);
        lemma_steps_without_add(content::spread(init), last, kind);
        let chars = content::tagged(ops.last().0, ops.last().1.1);
        assert(diff::steps(chars, ops.last().1.0) == last);
        lemma_uniform_steps(chars, ops.last().1.0, kind);
        assert(content::plain(chars) == ops.last().0);
        assert(text_without(ops, kind) == content::plain(
            steps_without(content::spread(ops), kind),
        ));
    } else {
        assert(text_without(ops, kind) == content::plain(
            steps_without(content::spread(ops), kind),
        ));
    }
}

proof fn lemma_script_sides(a: Seq<(char, Author)>, b: Seq<(char, Author)>)
    ensures
        steps_without(diff::script(a, b), OpKind::Delete) == b,
        content::plain(steps_without(diff::script(a, b), OpKind::Insert)) == content::plain(a),
    decreases a.len() + b.len(),
{
    if a.len() == 0 {
        lemma_uniform_steps(b, OpKind::Insert, OpKind::Delete);
        lemma_uniform_steps(b, OpKind::Insert, OpKind::Insert);
        assert(content::plain(steps_without(diff::script(a, b), OpKind::Insert)) == content::plain(
            a,
        ));
    } else if b.len() == 0 {
        lemma_uniform_steps(a, OpKind::Delete, OpKind::Delete);
        lemma_uniform_steps(a, OpKind::Delete, OpKind::Insert);
        assert(steps_without(diff::script(a, b), OpKind::Delete) == b);
    } else {
        let (step, x, y) = if a[0].0 == b[0].0 {
            ((b[0].0, (OpKind::Equal, b[0].1)), a.drop_first(), b.drop_first())
        } else if diff::lcs(content::plain(a.drop_first()), content::plain(b)) >= diff::lcs(
            content::plain(a),
            content::plain(b.drop_first()),
        ) {
            ((a[0].0, (OpKind::Delete, a[0].1)), a.drop_first(), b)
        } else {
            ((b[0].0, (OpKind::Insert, b[0].1)), a, b.drop_first())
        };
        let tail = diff::script(x, y);
        assert(diff::script(a, b) == seq![step] + tail);
        lemma_script_sides(x, y);
        lemma_steps_without_add(seq![step], tail, OpKind::Delete);
        lemma_steps_without_add(seq![step], tail, OpKind::Insert);
        lemma_one_step(step, OpKind::Delete);
        lemma_one_step(step, OpKind::Insert);
        assert(seq![a[0]] + a.drop_first() == a);
        assert(seq![b[0]] + b.drop_first() == b);
        assert(seq![a[0].0] + content::plain(a.drop_first()) == content::plain(a));
        if step.1.0 != OpKind::Insert {
            assert(content::plain(seq![(step.0, step.1.1)] + steps_without(tail, OpKind::Insert))
                == seq![step.0] + content::plain(steps_without(tail, OpKind::Insert)));
            assert(content::plain(steps_without(diff::script(a, b), OpKind::Insert))
                == content::plain(a));
        } else {
            assert(Seq::<(char, Author)>::empty() + steps_without(tail, OpKind::Insert)
                == steps_without(tail, OpKind::Insert));
        }
        if step.1.0 == OpKind::Delete {
            assert(Seq::<(char, Author)>::empty() + steps_without(tail, OpKind::Delete)
                == steps_without(tail, OpKind::Delete));
        }
    }
}

/// The kept and the added text of a diff are the new text, with its authors; the
/// kept and the removed text are the old text.
pub proof fn law_diff_reproduces_both_texts(old_runs: Runs, new_runs: Runs)
    ensures
        ({
            let ops = provenance::coalesce(
                diff::script(content::spread(old_runs), content::spread(new_runs)),
            );
            &&& text_without(ops, OpKind::Delete) == content::plain_text(new_runs)
            &&& text_without(ops, OpKind::Insert) == content::plain_text(old_runs)
            &&& steps_without(content::spread(ops), OpKind::Delete) == content::spread(new_runs)
        }),
{
    let a = content::spread(old_runs);
    let b = content::spread(new_runs);
    let ops = provenance::coalesce(diff::script(a, b));
    provenance::law_coalesce_keeps_authorship(diff::script(a, b));
    lemma_text_without(ops, OpKind::Delete);
    lemma_text_without(ops, OpKind::Insert);
    lemma_script_sides(a, b);
    content::lemma_plain_of_spread(old_runs);
    content::lemma_plain_of_spread(new_runs);
}

/// Whether `part` is `whole` with some characters left out.
pub open spec fn is_subsequence(part: Seq<char>, whole: Seq<char>) -> bool
    decreases whole.len(),
{
    if part.len() == 0 {
        true
    } else if whole.len() == 0 {
        false
    } else if part[0] == whole[0] {
        is_subsequence(part.drop_first(), whole.drop_first())
    } else {
        is_subsequence(part, whole.drop_first())
    }
}

proof fn lemma_subsequence_drop(part: Seq<char>, whole: Seq<char>)
    requires
        is_subsequence(part, whole),
        part.len() > 0,
    ensures
        is_subsequence(part.drop_first(), whole),
    decreases whole.len(),
{
    if part[0] == whole[0] {
        let p = part.drop_first();
        let w = whole.drop_first();
        if p.len() > 0 {
            if p[0] == whole[0] {
                lemma_subsequence_drop(p, w);
            }
        }
    } else {
        let p = part.drop_first();
        lemma_subsequence_drop(part, whole.drop_first());
        if p.len() > 0 && p[0] == whole[0] {
            lemma_subsequence_drop(p, whole.drop_first());
        }
    }
}

/// No common subsequence is longer than the one that the diff keeps.
pub proof fn law_lcs_is_longest(part: Seq<char>, a: Seq<char>, b: Seq<char>)
    requires
        is_subsequence(part, a),
        is_subsequence(part, b),
    ensures
        part.len() <= diff::lcs(a, b),
    decreases a.len() + b.len(),
{
    if part.len() > 0 {
        if a[0] == b[0] {
            if part[0] == a[0] {
                law_lcs_is_longest(part.drop_first(), a.drop_first(), b.drop_first());
            } else {
                law_lcs_is_longest(part, a.drop_first(), b.drop_first());
            }
        } else if part[0] != a[0] {
            law_lcs_is_longest(part, a.drop_first(), b);
        } else {
            law_lcs_is_longest(part, a, b.drop_first());
        }
    }
}

/// The characters that the steps keep.
pub open spec fn kept(steps: Seq<Step>) -> Seq<char>
    decreases steps.len(),
{
    if steps.len() == 0 {
        Seq::empty()
    } else if steps[0].1.0 == OpKind::Equal {
        seq![steps[0].0] + kept(steps.drop_first())
    } else {
        kept(steps.drop_first())
    }
}

proof fn lemma_kept_uniform(chars: Seq<(char, Author)>, kind: OpKind)
    requires
        kind != OpKind::Equal,
    ensures
        kept(diff::steps(chars, kind)).len() == 0,
    decreases chars.len(),
{
    let all = diff::steps(chars, kind);
    if chars.len() > 0 {
        assert(all.drop_first() == diff::steps(chars.drop_first(), kind));
        lemma_kept_uniform(chars.drop_first(), kind);
    }
}

/// What a diff keeps is a common subsequence of both texts of the greatest
/// length.
pub proof fn law_diff_keeps_a_longest_common_subsequence(
    a: Seq<(char, Author)>,
    b: Seq<(char, Author)>,
)
    ensures
        is_subsequence(kept(diff::script(a, b)), content::plain(a)),
        is_subsequence(kept(diff::script(a, b)), content::plain(b)),
        kept(diff::script(a, b)).len() == diff::lcs(content::plain(a), content::plain(b)),
    decreases a.len() + b.len(),
{
    if a.len() == 0 {
        lemma_kept_uniform(b, OpKind::Insert);
    } else if b.len() == 0 {
        lemma_kept_uniform(a, OpKind::Delete);
    } else {
        let pa = content::plain(a);
        let pb = content::plain(b);
        assert(pa.drop_first() == content::plain(a.drop_first()));
        assert(pb.drop_first() == content::plain(b.drop_first()));
        let all = diff::script(a, b);
        if a[0].0 == b[0].0 {
            let tail = diff::script(a.drop_first(), b.drop_first());
            assert(all.drop_first() == tail);
            law_diff_keeps_a_longest_common_subsequence(a.drop_first(), b.drop_first());
            assert(kept(all).drop_first() == kept(tail));
        } else if diff::lcs(pa.drop_first(), pb) >= diff::lcs(pa, pb.drop_first()) {
            let tail = diff::script(a.drop_first(), b);
            assert(all.drop_first() == tail);
            law_diff_keeps_a_longest_common_subsequence(a.drop_first(), b);
            lemma_subsequence_grow(kept(tail), pa);
        } else {
            let tail = diff::script(a, b.drop_first());
            assert(all.drop_first() == tail);
            law_diff_keeps_a_longest_common_subsequence(a, b.drop_first());
            lemma_subsequence_grow(kept(tail), pb);
        }
    }
}

proof fn lemma_subsequence_grow(part: Seq<char>, whole: Seq<char>)
    requires
        whole.len() > 0,
        is_subsequence(part, whole.drop_first()),
    ensures
        is_subsequence(part, whole),
{
    if part.len() > 0 && part[0] == whole[0] {
        lemma_subsequence_drop(part, whole.drop_first());
    }
}

/// The diff of two versions with the same text keeps all of it.
pub proof fn law_diff_of_equal_texts_is_equal(a: Seq<(char, Author)>, b: Seq<(char, Author)>)
    requires
        content::plain(a) == content::plain(b),
    ensures
        diff::script(a, b) == diff::steps(b, OpKind::Equal),
    decreases a.len(),
{
    assert(a.len() == content::plain(a).len());
    assert(b.len() == content::plain(b).len());
    if a.len() > 0 {
        assert(a[0].0 == content::plain(a)[0]);
        assert(b[0].0 == content::plain(b)[0]);
        assert(content::plain(a.drop_first()) == content::plain(a).drop_first());
        assert(content::plain(b.drop_first()) == content::plain(b).drop_first());
        law_diff_of_equal_texts_is_equal(a.drop_first(), b.drop_first());
        assert(diff::script(a, b) == diff::steps(b, OpKind::Equal));
    } else {
        assert(diff::script(a, b) == diff::steps(b, OpKind::Equal));
    }
}

// ---------------------------------------------------------------------------
// What the steps of a diff say
// ---------------------------------------------------------------------------

/// The steps that speak of the old text: those that keep or remove.
pub open spec fn old_side(steps: Seq<Step>) -> Seq<Step> {
    steps.filter(|step: Step| step.1.0 != OpKind::Insert)
}

/// The steps that speak of the new text: those that keep or add.
pub open spec fn new_side(steps: Seq<Step>) -> Seq<Step> {
    steps.filter(|step: Step| step.1.0 != OpKind::Delete)
}

proof fn lemma_side_of_one(step: Step)
    ensures
        old_side(seq![step]) == if step.1.0 == OpKind::Insert {
            Seq::empty()
        } else {
            seq![step]
        },
        new_side(seq![step]) == if step.1.0 == OpKind::Delete {
            Seq::empty()
        } else {
            seq![step]
        },
{
    reveal_with_fuel(Seq::filter, 2);
    assert(seq![step].drop_last() == Seq::<Step>::empty());
    assert(Seq::<Step>::empty().push(step) == seq![step]);
}

proof fn lemma_side_of_steps(chars: Seq<(char, Author)>, kind: OpKind)
    requires
        kind != OpKind::Equal,
    ensures
        old_side(diff::steps(chars, kind)) == if kind == OpKind::Insert {
            Seq::empty()
        } else {
            diff::steps(chars, kind)
        },
        new_side(diff::steps(chars, kind)) == if kind == OpKind::Delete {
            Seq::empty()
        } else {
            diff::steps(chars, kind)
        },
    decreases chars.len(),
{
    reveal(Seq::filter);
    let all = diff::steps(chars, kind);
    if chars.len() > 0 {
        assert(all.drop_last() == diff::steps(chars.drop_last(), kind));
        lemma_side_of_steps(chars.drop_last(), kind);
        assert(all.drop_last().push(all.last()) == all);
    }
}

/// The first step of a script, and the rest of it.
proof fn lemma_script_first(a: Seq<(char, Author)>, b: Seq<(char, Author)>)
    requires
        a.len() > 0 && b.len() > 0,
    ensures
        diff::script(a, b).len() > 0,
        ({
            let all = diff::script(a, b);
            let step = all[0];
            let tail = all.drop_first();
            &&& all == seq![step] + tail
            &&& step.1.0 == OpKind::Equal ==> a[0].0 == b[0].0 && step == (
                b[0].0,
                (OpKind::Equal, b[0].1),
            ) && tail == diff::script(a.drop_first(), b.drop_first())
            &&& step.1.0 == OpKind::Delete ==> a[0].0 != b[0].0 && step == (
                a[0].0,
                (OpKind::Delete, a[0].1),
            ) && tail == diff::script(a.drop_first(), b)
            &&& step.1.0 == OpKind::Insert ==> a[0].0 != b[0].0 && step == (
                b[0].0,
                (OpKind::Insert, b[0].1),
            ) && tail == diff::script(a, b.drop_first()) && diff::lcs(
                content::plain(a.drop_first()),
                content::plain(b),
            ) < diff::lcs(content::plain(a), content::plain(b.drop_first()))
        }),
{
    let all = diff::script(a, b);
    assert(all == seq![all[0]] + all.drop_first());
    if a[0].0 == b[0].0 {
        assert(all.drop_first() == diff::script(a.drop_first(), b.drop_first()));
    } else if diff::lcs(content::plain(a.drop_first()), content::plain(b)) >= diff::lcs(
        content::plain(a),
        content::plain(b.drop_first()),
    ) {
        assert(all.drop_first() == diff::script(a.drop_first(), b));
    } else {
        assert(all.drop_first() == diff::script(a, b.drop_first()));
    }
}

proof fn lemma_sides(a: Seq<(char, Author)>, b: Seq<(char, Author)>)
    ensures
        ({
            let left = old_side(diff::script(a, b));
            let right = new_side(diff::script(a, b));
            &&& left.len() == a.len()
            &&& right.len() == b.len()
            &&& forall|i: int|
                0 <= i < a.len() ==> (#[trigger] left[i]).0 == a[i].0 && (left[i].1.0
                    == OpKind::Delete ==> left[i].1.1 == a[i].1)
            &&& forall|i: int|
                0 <= i < b.len() ==> (#[trigger] right[i]).0 == b[i].0 && right[i].1.1 == b[i].1
        }),
    decreases a.len() + b.len(),
{
    if a.len() == 0 {
        lemma_side_of_steps(b, OpKind::Insert);
    } else if b.len() == 0 {
        lemma_side_of_steps(a, OpKind::Delete);
    } else {
        lemma_script_first(a, b);
        let all = diff::script(a, b);
        let step = all[0];
        let tail = all.drop_first();
        lemma_side_of_one(step);
        Seq::filter_distributes_over_add(
            seq![step],
            tail,
            |step: Step| step.1.0 != OpKind::Insert,
        );
        Seq::filter_distributes_over_add(
            seq![step],
            tail,
            |step: Step| step.1.0 != OpKind::Delete,
        );
        let left = old_side(all);
        let right = new_side(all);
        assert(left == old_side(seq![step]) + old_side(tail));
        assert(right == new_side(seq![step]) + new_side(tail));
        let (x, y) = match step.1.0 {
            OpKind::Equal => (a.drop_first(), b.drop_first()),
            OpKind::Delete => (a.drop_first(), b),
            OpKind::Insert => (a, b.drop_first()),
        };
        lemma_sides(x, y);
        assert forall|i: int| 0 <= i < a.len() implies (#[trigger] left[i]).0 == a[i].0 && (
        left[i].1.0 == OpKind::Delete ==> left[i].1.1 == a[i].1) by {
            if step.1.0 == OpKind::Insert {
                assert(left[i] == old_side(tail)[i]);
            } else if i > 0 {
                assert(left[i] == old_side(tail)[i - 1]);
            }
        }
        assert forall|i: int| 0 <= i < b.len() implies (#[trigger] right[i]).0 == b[i].0
            && right[i].1.1 == b[i].1 by {
            if step.1.0 == OpKind::Delete {
                assert(right[i] == new_side(tail)[i]);
            } else if i > 0 {
                assert(right[i] == new_side(tail)[i - 1]);
            }
        }
    }
}

/// A diff says who wrote what: its steps without the added characters are the old
/// text, character by character, and each removed character stands under the name
/// of whoever wrote it there; its steps without the removed characters are the new
/// text, and each kept or added character stands under the name of its author in
/// the new text.
pub proof fn law_a_diff_says_who_wrote_what(
    old_text: &RichText,
    new_text: &RichText,
    ops: Vec<DiffOp>,
)
    requires
        call_ensures(diff::diff, (old_text, new_text), ops),
    ensures
        ({
            let before = content::spread(old_text@);
            let after = content::spread(new_text@);
            let left = old_side(content::spread(diff::ops_view(ops@)));
            let right = new_side(content::spread(diff::ops_view(ops@)));
            &&& left.len() == before.len()
            &&& right.len() == after.len()
            &&& forall|i: int|
                0 <= i < before.len() ==> (#[trigger] left[i]).0 == before[i].0 && (left[i].1.0
                    == OpKind::Delete ==> left[i].1.1 == before[i].1)
            &&& forall|i: int|
                0 <= i < after.len() ==> (#[trigger] right[i]).0 == after[i].0 && right[i].1.1
                    == after[i].1
        }),
{
    let a = content::spread(old_text@);
    let b = content::spread(new_text@);
    provenance::law_coalesce_keeps_authorship(diff::script(a, b));
    lemma_sides(a, b);
}

proof fn lemma_lcs_grows(a: Seq<char>, b: Seq<char>)
    requires
        b.len() > 0,
    ensures
        diff::lcs(a, b.drop_first()) <= diff::lcs(a, b),
{
    let part = lemma_lcs_witness(a, b.drop_first());
    lemma_subsequence_grow(part, b);
    law_lcs_is_longest(part, a, b);
}

proof fn lemma_lcs_witness(a: Seq<char>, b: Seq<char>) -> (part: Seq<char>)
    ensures
        part.len() == diff::lcs(a, b),
        is_subsequence(part, a),
        is_subsequence(part, b),
    decreases a.len() + b.len(),
{
    if a.len() == 0 || b.len() == 0 {
        Seq::empty()
    } else if a[0] == b[0] {
        let rest = lemma_lcs_witness(a.drop_first(), b.drop_first());
        let part = seq![a[0]] + rest;
        assert(part.drop_first() == rest);
        part
    } else if diff::lcs(a.drop_first(), b) >= diff::lcs(a, b.drop_first()) {
        let part = lemma_lcs_witness(a.drop_first(), b);
        lemma_subsequence_grow(part, a);
        part
    } else {
        let part = lemma_lcs_witness(a, b.drop_first());
        lemma_subsequence_grow(part, b);
        part
    }
}

/// How the steps of a script stand next to each other.
pub open spec fn well_placed(steps: Seq<Step>) -> bool {
    forall|i: int, j: int|
        0 <= i && j == i + 1 && j < steps.len() ==> {
            &&& !((#[trigger] steps[i]).1.0 == OpKind::Insert && (#[trigger] steps[j]).1.0
                == OpKind::Delete)
            &&& steps[i].1.0 != OpKind::Equal && steps[j].1.0 == OpKind::Equal ==> steps[i].0
                != steps[j].0
        }
}

proof fn lemma_well_placed(a: Seq<(char, Author)>, b: Seq<(char, Author)>)
    ensures
        well_placed(diff::script(a, b)),
    decreases a.len() + b.len(),
{
    let all = diff::script(a, b);
    if a.len() > 0 && b.len() > 0 {
        lemma_script_first(a, b);
        let step = all[0];
        let tail = all.drop_first();
        let (x, y) = match step.1.0 {
            OpKind::Equal => (a.drop_first(), b.drop_first()),
            OpKind::Delete => (a.drop_first(), b),
            OpKind::Insert => (a, b.drop_first()),
        };
        lemma_well_placed(x, y);
        let pa = content::plain(a);
        let pb = content::plain(b);
        assert(pa.drop_first() == content::plain(a.drop_first()));
        assert(pb.drop_first() == content::plain(b.drop_first()));
        if tail.len() > 0 {
            let next = tail[0];
            if x.len() > 0 && y.len() > 0 {
                lemma_script_first(x, y);
            }
            if step.1.0 == OpKind::Insert && next.1.0 == OpKind::Delete {
                lemma_lcs_grows(pa.drop_first(), pb);
                if y.len() > 0 {
                    assert(content::plain(y)[0] == y[0].0);
                    assert(content::plain(y).drop_first() == content::plain(y.drop_first()));
                    assert(pa[0] != pb.drop_first()[0]);
                    assert(diff::lcs(pa, pb.drop_first()) == diff::lcs(
                        pa.drop_first(),
                        pb.drop_first(),
                    ));
                }
                assert(false);
            }
        }
        assert forall|i: int, j: int| 0 <= i && j == i + 1 && j < all.len() implies {
            &&& !((#[trigger] all[i]).1.0 == OpKind::Insert && (#[trigger] all[j]).1.0
                == OpKind::Delete)
            &&& all[i].1.0 != OpKind::Equal && all[j].1.0 == OpKind::Equal ==> all[i].0
                != all[j].0
        } by {
            assert(all[j] == tail[j - 1]);
            if i > 0 {
                assert(all[i] == tail[i - 1]);
            }
        }
    }
}

/// Where text is replaced, a diff removes before it adds: no added character stands
/// directly before a removed one. And it keeps what it can as soon as it can: a
/// removed or added character never stands directly before the same character kept.
pub proof fn law_a_diff_removes_before_it_adds(
    old_text: &RichText,
    new_text: &RichText,
    ops: Vec<DiffOp>,
)
    requires
        call_ensures(diff::diff, (old_text, new_text), ops),
    ensures
        well_placed(content::spread(diff::ops_view(ops@))),
{
    let a = content::spread(old_text@);
    let b = content::spread(new_text@);
    provenance::law_coalesce_keeps_authorship(diff::script(a, b));
    lemma_well_placed(a, b);
}

/// A diff has as few ops as its steps allow: none is empty, and of two in a row the
/// kind or the author differs.
pub proof fn law_a_diff_is_coalesced(old_text: &RichText, new_text: &RichText, ops: Vec<DiffOp>)
    requires
        call_ensures(diff::diff, (old_text, new_text), ops),
    ensures
        ({
            let view = diff::ops_view(ops@);
            &&& forall|i: int| 0 <= i < view.len() ==> (#[trigger] view[i]).0.len() > 0
            &&& forall|i: int, j: int|
                0 <= i && j == i + 1 && j < view.len() ==> (#[trigger] view[i]).1 != (
                #[trigger] view[j]).1
        }),
{
    provenance::law_coalesce_is_normal(
        diff::script(content::spread(old_text@), content::spread(new_text@)),
    );
}

} // verus!
