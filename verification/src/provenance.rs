//! Character-level provenance over [`RichText`]: the author-aware edit
//! primitive, authorship queries, contributor aggregation, and the
//! author-attributed diff.
//!
//! Every offset is a **byte** index into the concatenated text of the runs. An
//! offset past the end, or inside a character, is rejected with a
//! [`ProvenanceError`].

use crate::content::{
    Author, AuthorId, Block, BlockView, Document, RichText, Run, Runs,
};
use crate::content;
use crate::text;
use std::ops::Range;
use vstd::prelude::*;
use vstd::string::StringExecFns;

pub mod body;
pub mod diff;
pub mod laws;
pub mod places;

pub use self::diff::{diff, DiffOp};
pub use self::body::{flatten_body, paragraph_document};

verus! {

// ---------------------------------------------------------------------------
// Normal form
// ---------------------------------------------------------------------------

/// `runs` with `text` marked by `key` at the end: the last run grows where it
/// has that key, else a run is added.
pub open spec fn extended<K>(runs: Seq<(Seq<char>, K)>, text: Seq<char>, key: K) -> Seq<
    (Seq<char>, K),
> {
    if runs.len() > 0 && runs.last().1 == key {
        runs.drop_last().push((runs.last().0 + text, key))
    } else {
        runs.push((text, key))
    }
}

/// Marked characters cut into the fewest runs.
pub open spec fn coalesce<K>(chars: Seq<(char, K)>) -> Seq<(Seq<char>, K)>
    decreases chars.len(),
{
    if chars.len() == 0 {
        Seq::empty()
    } else {
        extended(coalesce(chars.drop_last()), seq![chars.last().0], chars.last().1)
    }
}

/// No run is empty, and no two neighbours have the same key.
pub open spec fn is_normal<K>(runs: Seq<(Seq<char>, K)>) -> bool {
    &&& forall|i: int| 0 <= i < runs.len() ==> (#[trigger] runs[i]).0.len() > 0
    &&& forall|i: int, j: int|
        0 <= i < runs.len() && j == i + 1 && j < runs.len() ==> (#[trigger] runs[i]).1 != (
        #[trigger] runs[j]).1
}

/// Cutting into runs loses and adds nothing: each character keeps its mark.
pub proof fn law_coalesce_keeps_authorship<K>(chars: Seq<(char, K)>)
    ensures
        content::spread(coalesce(chars)) == chars,
    decreases chars.len(),
{
    if chars.len() > 0 {
        let init = chars.drop_last();
        law_coalesce_keeps_authorship(init);
        lemma_spread_extended(coalesce(init), seq![chars.last().0], chars.last().1);
        assert(content::tagged(seq![chars.last().0], chars.last().1) == seq![chars.last()]);
        assert(init.push(chars.last()) == chars);
        assert(init + seq![chars.last()] == chars);
    }
}

proof fn lemma_spread_extended<K>(runs: Seq<(Seq<char>, K)>, text: Seq<char>, key: K)
    ensures
        content::spread(extended(runs, text, key)) == content::spread(runs) + content::tagged(
            text,
            key,
        ),
{
    if runs.len() > 0 && runs.last().1 == key {
        let init = runs.drop_last();
        content::lemma_spread_push(init, runs.last().0 + text, key);
        assert(content::tagged(runs.last().0 + text, key) == content::tagged(runs.last().0, key)
            + content::tagged(text, key));
        assert(content::spread(extended(runs, text, key)) == content::spread(runs)
            + content::tagged(text, key));
    } else {
        content::lemma_spread_push(runs, text, key);
    }
}

/// What cutting into the fewest runs yields is in normal form.
pub proof fn law_coalesce_is_normal<K>(chars: Seq<(char, K)>)
    ensures
        is_normal(coalesce(chars)),
    decreases chars.len(),
{
    if chars.len() > 0 {
        law_coalesce_is_normal(chars.drop_last());
    }
}

/// Marking more characters at the end extends the runs.
pub proof fn lemma_coalesce_add<K>(chars: Seq<(char, K)>, text: Seq<char>, key: K)
    requires
        text.len() > 0,
    ensures
        coalesce(chars + content::tagged(text, key)) == extended(coalesce(chars), text, key),
    decreases text.len(),
{
    let all = chars + content::tagged(text, key);
    let init = text.drop_last();
    assert(all.drop_last() == chars + content::tagged(init, key));
    assert(all.last() == (text.last(), key));
    if init.len() == 0 {
        assert(chars + content::tagged(init, key) == chars);
        assert(seq![text.last()] == text);
    } else {
        lemma_coalesce_add(chars, init, key);
        let mid = extended(coalesce(chars), init, key);
        assert(mid.last().1 == key);
        assert(mid.last().0 + seq![text.last()] == if coalesce(chars).len() > 0 && coalesce(
            chars,
        ).last().1 == key {
            coalesce(chars).last().0 + text
        } else {
            text
        }) by {
            assert(init + seq![text.last()] == text);
            assert((coalesce(chars).last().0 + init) + seq![text.last()] == coalesce(chars).last().0
                + text);
        }
        assert(coalesce(all) == extended(coalesce(chars), text, key));
    }
}

/// A run list in normal form is what its characters are cut into: two lists in
/// normal form with the same authored characters are the same list.
pub proof fn law_normal_form_is_unique<K>(runs: Seq<(Seq<char>, K)>)
    requires
        is_normal(runs),
    ensures
        coalesce(content::spread(runs)) == runs,
    decreases runs.len(),
{
    if runs.len() > 0 {
        let init = runs.drop_last();
        assert(is_normal(init)) by {
            assert forall|i: int| 0 <= i < init.len() implies (#[trigger] init[i]).0.len() > 0 by {
                assert(init[i] == runs[i]);
            }
            assert forall|i: int, j: int|
                0 <= i < init.len() && j == i + 1 && j < init.len() implies (#[trigger] init[i]).1
                != (#[trigger] init[j]).1 by {
                assert(init[i] == runs[i]);
                assert(init[j] == runs[j]);
            }
        }
        law_normal_form_is_unique(init);
        lemma_coalesce_add(content::spread(init), runs.last().0, runs.last().1);
        if init.len() > 0 {
            assert(init.last() == runs[runs.len() - 2]);
            assert(runs.last() == runs[runs.len() - 1]);
        }
        assert(init.push(runs.last()) == runs);
    }
}

/// The runs of `runs`, cut anew into the fewest.
fn coalesced(runs: Vec<Run>) -> (out: Vec<Run>)
    ensures
        content::runs_view(out@) == coalesce(content::spread(content::runs_view(runs@))),
{
    let mut out: Vec<Run> = Vec::new();
    let ghost all = content::runs_view(runs@);
    assert(content::runs_view(out@) == coalesce(content::spread(all.take(0))));
    for run in it: runs
        invariant
            all == content::runs_view(runs@),
            it.seq() == runs@,
            content::runs_view(out@) == coalesce(content::spread(all.take(it.index()))),
    {
        let ghost k = it.index();
        let ghost before = content::runs_view(out@);
        proof {
            assert(run@ == all[k]);
            assert(all.take(k + 1) == all.take(k).push(all[k]));
            content::lemma_spread_push(all.take(k), all[k].0, all[k].1);
            if all[k].0.len() > 0 {
                lemma_coalesce_add(content::spread(all.take(k)), all[k].0, all[k].1);
            } else {
                assert(content::spread(all.take(k)) + content::tagged(all[k].0, all[k].1)
                    == content::spread(all.take(k)));
            }
        }
        if !run.text.as_str().is_empty() {
            match out.pop() {
                None => {
                    out.push(run);
                },
                Some(mut last) => {
                    if last.author.same(&run.author) {
                        last.text.append(run.text.as_str());
                        out.push(last);
                    } else {
                        out.push(last);
                        out.push(run);
                    }
                },
            }
            assert(content::runs_view(out@) == extended(before, all[k].0, all[k].1));
        }
    }
    assert(all.take(all.len() as int) == all);
    out
}

/// Normalizes `text` in place: drops empty runs and coalesces adjacent runs that
/// share an author into a single run.
pub fn normalize(text: &mut RichText)
    ensures
        final(text)@ == coalesce(content::spread(old(text)@)),
{
    let mut runs: Vec<Run> = Vec::new();
    std::mem::swap(&mut runs, &mut text.runs);
    text.runs = coalesced(runs);
}

/// Normalizing twice is normalizing once.
pub proof fn law_normalize_is_idempotent(runs: Runs)
    ensures
        coalesce(content::spread(coalesce(content::spread(runs)))) == coalesce(
            content::spread(runs),
        ),
{
    law_coalesce_keeps_authorship(content::spread(runs));
}

// ---------------------------------------------------------------------------
// Offsets
// ---------------------------------------------------------------------------

/// The error returned when an offset or a range does not fit the text.
#[derive(Debug, Clone, Copy, PartialEq, Eq, Structural)]
#[non_exhaustive]
pub enum ProvenanceError {
    /// A byte offset pointed past the end of the text.
    OffsetOutOfBounds {
        /// The requested byte offset.
        offset: usize,
        /// The text's total length in bytes.
        len: usize,
    },
    /// A byte offset landed inside a multi-byte UTF-8 character.
    NotCharBoundary {
        /// The offending byte offset.
        offset: usize,
    },
    /// A range had `start > end`.
    InvalidRange {
        /// The range start.
        start: usize,
        /// The range end.
        end: usize,
    },
}

impl ProvenanceError {
    /// What the error says.
    pub open spec fn says(self) -> Seq<char> {
        match self {
            ProvenanceError::OffsetOutOfBounds { offset, len } => "byte offset "@ + text::decimal(
                offset as nat,
            ) + " is out of bounds (text is "@ + text::decimal(len as nat) + " bytes)"@,
            ProvenanceError::NotCharBoundary { offset } => "byte offset "@ + text::decimal(
                offset as nat,
            ) + " is not on a UTF-8 character boundary"@,
            ProvenanceError::InvalidRange { start, end } => "invalid range: start "@
                + text::decimal(start as nat) + " is greater than end "@ + text::decimal(
                end as nat,
            ),
        }
    }

    /// What the error says.
    pub fn message(&self) -> (s: String)
        ensures
            s@ == self.says(),
    {
        match self {
            ProvenanceError::OffsetOutOfBounds { offset, len } => {
                let mut s = "byte offset ".to_owned();
                s.append(text::decimal_string(*offset as u64).as_str());
                s.append(" is out of bounds (text is ");
                s.append(text::decimal_string(*len as u64).as_str());
                s.append(" bytes)");
                s
            },
            ProvenanceError::NotCharBoundary { offset } => {
                let mut s = "byte offset ".to_owned();
                s.append(text::decimal_string(*offset as u64).as_str());
                s.append(" is not on a UTF-8 character boundary");
                s
            },
            ProvenanceError::InvalidRange { start, end } => {
                let mut s = "invalid range: start ".to_owned();
                s.append(text::decimal_string(*start as u64).as_str());
                s.append(" is greater than end ");
                s.append(text::decimal_string(*end as u64).as_str());
                s
            },
        }
    }
}

/// Convenience alias for `Result<T, `[`ProvenanceError`]`>`.
pub type Result<T> = std::result::Result<T, ProvenanceError>;

/// Why `offset` does not address a character of `plain` or its end, if so.
pub open spec fn offset_error(plain: Seq<char>, offset: usize) -> Option<ProvenanceError> {
    if offset > text::utf8_len(plain) {
        Some(
            ProvenanceError::OffsetOutOfBounds { offset, len: text::utf8_len(plain) as usize },
        )
    } else if !text::on_boundary(plain, offset as int) {
        Some(ProvenanceError::NotCharBoundary { offset })
    } else {
        None
    }
}

/// Why `start..end` is not a range of characters of `plain`, if so.
pub open spec fn range_error(plain: Seq<char>, start: usize, end: usize) -> Option<
    ProvenanceError,
> {
    if start > end {
        Some(ProvenanceError::InvalidRange { start, end })
    } else if offset_error(plain, start) is Some {
        offset_error(plain, start)
    } else {
        offset_error(plain, end)
    }
}

/// A boundary of `s` that lies within `s[p..q]` is a boundary of that part.
proof fn lemma_boundary_within(s: Seq<char>, p: int, q: int, offset: int)
    requires
        0 <= p <= q <= s.len(),
        text::utf8_len(s.take(p)) <= offset <= text::utf8_len(s.take(q)),
    ensures
        text::on_boundary(s, offset) == text::on_boundary(
            s.subrange(p, q),
            offset - text::utf8_len(s.take(p)),
        ),
        text::on_boundary(s, offset) ==> p <= text::chars_before(s, offset) <= q
            && text::chars_before(s.subrange(p, q), offset - text::utf8_len(s.take(p)))
            == text::chars_before(s, offset) - p,
{
    let part = s.subrange(p, q);
    let base = text::utf8_len(s.take(p));
    assert forall|k: int| 0 <= k <= q - p implies #[trigger] text::utf8_len(part.take(k)) + base
        == text::utf8_len(s.take(p + k)) by {
        assert(s.take(p) + part.take(k) == s.take(p + k));
        text::lemma_utf8_len_add(s.take(p), part.take(k));
    }
    if text::on_boundary(s, offset) {
        let k = text::chars_before(s, offset);
        if k < p {
            text::lemma_utf8_len_strict(s, k, p);
        }
        if q < k {
            text::lemma_utf8_len_strict(s, q, k);
        }
        assert(text::utf8_len(part.take(k - p)) + base == text::utf8_len(s.take(k)));
        text::lemma_chars_before(part, k - p);
    }
    if text::on_boundary(part, offset - base) {
        let k = text::chars_before(part, offset - base);
        assert(text::utf8_len(s.take(p + k)) == offset);
    }
}

/// Boundaries are ordered as the characters before them.
pub(crate) proof fn lemma_boundary_order(s: Seq<char>, a: int, b: int)
    requires
        text::on_boundary(s, a),
        text::on_boundary(s, b),
        a <= b,
    ensures
        0 <= text::chars_before(s, a) <= text::chars_before(s, b) <= s.len(),
{
    let i = text::chars_before(s, a);
    let j = text::chars_before(s, b);
    if j < i {
        text::lemma_utf8_len_strict(s, j, i);
    }
}

/// Where run `i` lies in the whole text.
proof fn lemma_run_place(runs: Runs, i: int)
    requires
        0 <= i < runs.len(),
    ensures
        ({
            let whole = content::plain_text(runs);
            let p = content::plain_text(runs.take(i)).len() as int;
            let q = content::plain_text(runs.take(i + 1)).len() as int;
            &&& q == p + runs[i].0.len()
            &&& q <= whole.len()
            &&& whole.take(p) == content::plain_text(runs.take(i))
            &&& whole.take(q) == content::plain_text(runs.take(i + 1))
            &&& whole.subrange(p, q) == runs[i].0
            &&& text::utf8_len(whole.take(q)) == text::utf8_len(whole.take(p)) + text::utf8_len(
                runs[i].0,
            )
            &&& text::utf8_len(whole.take(q)) <= text::utf8_len(whole)
        }),
{
    content::lemma_plain_text_prefix(runs, i);
    content::lemma_plain_text_prefix(runs, i + 1);
    content::lemma_size_take(runs, i);
    content::lemma_size_le(runs, i + 1);
    let whole = content::plain_text(runs);
    let p = content::plain_text(runs.take(i)).len() as int;
    let q = content::plain_text(runs.take(i + 1)).len() as int;
    assert(whole.subrange(p, q) == whole.take(q).skip(p));
    assert(whole.take(q).skip(p) == runs[i].0);
}

/// Returns whether `offset` falls on a UTF-8 character boundary of the
/// run-concatenated text, without materializing the whole string.
fn is_char_boundary(text: &RichText, offset: usize) -> (yes: bool)
    requires
        text.size() <= usize::MAX,
    ensures
        yes == text::on_boundary(content::plain_text(text@), offset as int),
{
    let ghost whole = content::plain_text(text@);
    let mut cursor: usize = 0;
    let mut i: usize = 0;
    proof {
        assert(text@.take(0) == Runs::empty());
    }
    while i < text.runs.len()
        invariant
            i <= text.runs@.len(),
            whole == content::plain_text(text@),
            text.size() <= usize::MAX,
            cursor == text::utf8_len(content::plain_text(text@.take(i as int))),
            cursor <= offset,
        decreases text.runs@.len() - i,
    {
        proof {
            lemma_run_place(text@, i as int);
        }
        let run_start: usize = cursor;
        let run_end: usize = cursor + text::byte_len(text.runs[i].text.as_str());
        if offset < run_end {
            proof {
                let p = content::plain_text(text@.take(i as int)).len() as int;
                lemma_boundary_within(whole, p, p + text@[i as int].0.len(), offset as int);
            }
            return text::is_boundary(text.runs[i].text.as_str(), offset - run_start);
        }
        cursor = run_end;
        i += 1;
    }
    proof {
        assert(text@.take(i as int) == text@);
        assert(whole.take(whole.len() as int) == whole);
        text::lemma_chars_before(whole, whole.len() as int);
        if text::on_boundary(whole, offset as int) {
            let k = text::chars_before(whole, offset as int);
            if k < whole.len() {
                text::lemma_utf8_len_strict(whole, k, whole.len() as int);
            }
        }
    }
    offset == cursor
}

/// Validates that `offset` is within `0..=len` and on a UTF-8 char boundary.
fn check_boundary(text: &RichText, offset: usize, len: usize) -> (r: Result<()>)
    requires
        text.size() == len,
    ensures
        r == (match offset_error(content::plain_text(text@), offset) {
            Some(e) => Result::<()>::Err(e),
            None => Ok(()),
        }),
{
    if offset > len {
        return Err(ProvenanceError::OffsetOutOfBounds { offset, len });
    }
    if !is_char_boundary(text, offset) {
        return Err(ProvenanceError::NotCharBoundary { offset });
    }
    Ok(())
}

/// Validates a range: ordered, in bounds, and both ends on char boundaries.
fn check_range(text: &RichText, start: usize, end: usize, len: usize) -> (r: Result<()>)
    requires
        text.size() == len,
    ensures
        r == (match range_error(content::plain_text(text@), start, end) {
            Some(e) => Result::<()>::Err(e),
            None => Ok(()),
        }),
{
    if start > end {
        return Err(ProvenanceError::InvalidRange { start, end });
    }
    match check_boundary(text, start, len) {
        Err(e) => Err(e),
        Ok(()) => check_boundary(text, end, len),
    }
}

// ---------------------------------------------------------------------------
// The edit primitive
// ---------------------------------------------------------------------------

/// A single author-attributed edit, expressed in **byte offsets** into the
/// run-concatenated text.
#[derive(Debug, PartialEq, Eq)]
pub enum Edit {
    /// Insert `text` at byte offset `at`.
    Insert {
        /// Byte offset at which to insert; must be `0..=len` and on a char
        /// boundary.
        at: usize,
        /// The text to insert, attributed to the edit's author.
        text: String,
    },
    /// Delete the bytes in `range`.
    Delete {
        /// Half-open byte range to remove; both ends must be on char
        /// boundaries and within `0..=len`.
        range: Range<usize>,
    },
    /// Replace the bytes in `range` with `new_text`.
    Replace {
        /// Half-open byte range to overwrite.
        range: Range<usize>,
        /// The replacement text, attributed to the edit's author.
        new_text: String,
    },
}

impl Clone for Edit {
    fn clone(&self) -> (copy: Self)
        ensures
            copy == *self,
    {
        match self {
            Edit::Insert { at, text } => Edit::Insert { at: *at, text: text.clone() },
            Edit::Delete { range } => Edit::Delete { range: range.start..range.end },
            Edit::Replace { range, new_text } => Edit::Replace {
                range: range.start..range.end,
                new_text: new_text.clone(),
            },
        }
    }
}

impl Edit {
    /// The byte offset at which the replaced text begins.
    pub open spec fn start(self) -> usize {
        match self {
            Edit::Insert { at, text: _ } => at,
            Edit::Delete { range } => range.start,
            Edit::Replace { range, new_text: _ } => range.start,
        }
    }

    /// The byte offset at which the replaced text ends.
    pub open spec fn end(self) -> usize {
        match self {
            Edit::Insert { at, text: _ } => at,
            Edit::Delete { range } => range.end,
            Edit::Replace { range, new_text: _ } => range.end,
        }
    }

    /// What is written in its place.
    pub open spec fn written(self) -> Seq<char> {
        match self {
            Edit::Insert { at: _, text } => text@,
            Edit::Delete { range: _ } => Seq::empty(),
            Edit::Replace { range: _, new_text } => new_text@,
        }
    }

    /// An [`Edit::Insert`] of `text` at byte offset `at`.
    pub fn insert(at: usize, text: &str) -> (edit: Self)
        ensures
            edit is Insert,
            edit.start() == at,
            edit.written() == text@,
    {
        Edit::Insert { at, text: text.to_owned() }
    }

    /// An [`Edit::Delete`] of `range`.
    pub fn delete(range: Range<usize>) -> (edit: Self)
        ensures
            edit == (Edit::Delete { range }),
    {
        Edit::Delete { range }
    }

    /// An [`Edit::Replace`] of `range` with `new_text`.
    pub fn replace(range: Range<usize>, new_text: &str) -> (edit: Self)
        ensures
            edit is Replace,
            edit.start() == range.start,
            edit.end() == range.end,
            edit.written() == new_text@,
    {
        Edit::Replace { range, new_text: new_text.to_owned() }
    }
}

/// `chars` with those from `i` to `j` replaced by `new`, which `author` wrote.
pub open spec fn replaced(
    chars: Seq<(char, Author)>,
    i: int,
    j: int,
    new: Seq<char>,
    author: Author,
) -> Seq<(char, Author)> {
    chars.take(i) + content::tagged(new, author) + chars.skip(j)
}

/// The authored characters of `runs` after `start..end` (in bytes) has been
/// replaced by `new`.
pub open spec fn edited(
    runs: Runs,
    start: usize,
    end: usize,
    new: Seq<char>,
    author: Author,
) -> Seq<(char, Author)> {
    let whole = content::plain_text(runs);
    replaced(
        content::spread(runs),
        text::chars_before(whole, start as int),
        text::chars_before(whole, end as int),
        new,
        author,
    )
}

/// The runs of `text` that lie between two byte offsets, cut at both.
pub(crate) fn cut(text: &RichText, start: usize, end: usize) -> (out: Vec<Run>)
    requires
        text.size() <= usize::MAX,
        start <= end,
        text::on_boundary(content::plain_text(text@), start as int),
        text::on_boundary(content::plain_text(text@), end as int),
    ensures
        content::spread(content::runs_view(out@)) == content::spread(text@).subrange(
            text::chars_before(content::plain_text(text@), start as int),
            text::chars_before(content::plain_text(text@), end as int),
        ),
{
    let ghost whole = content::plain_text(text@);
    let ghost a = text::chars_before(whole, start as int);
    let ghost b = text::chars_before(whole, end as int);
    let mut out: Vec<Run> = Vec::new();
    let mut cursor: usize = 0;
    let mut i: usize = 0;
    proof {
        lemma_boundary_order(whole, start as int, end as int);
        assert(text@.take(0) == Runs::empty());
        assert(content::runs_view(out@) == Runs::empty());
    }
    while i < text.runs.len()
        invariant
            i <= text.runs@.len(),
            whole == content::plain_text(text@),
            text.size() <= usize::MAX,
            start <= end,
            text::on_boundary(whole, start as int),
            text::on_boundary(whole, end as int),
            a == text::chars_before(whole, start as int),
            b == text::chars_before(whole, end as int),
            0 <= a <= b <= whole.len(),
            cursor == text::utf8_len(content::plain_text(text@.take(i as int))),
            content::spread(content::runs_view(out@)) == within(text@, i as int, a, b),
        decreases text.runs@.len() - i,
    {
        let ghost p = content::plain_text(text@.take(i as int)).len() as int;
        let ghost q = content::plain_text(text@.take(i + 1)).len() as int;
        proof {
            lemma_run_place(text@, i as int);
            lemma_within_step(text@, i as int, a, b);
        }
        let run_start: usize = cursor;
        let run_end: usize = cursor + text::byte_len(text.runs[i].text.as_str());
        let lo: usize = if run_start < start { start } else { run_start };
        let hi: usize = if run_end < end { run_end } else { end };
        let ghost before = content::runs_view(out@);
        proof {
            text::lemma_chars_before(whole, p);
            text::lemma_chars_before(whole, q);
            if run_start <= start {
                lemma_boundary_order(whole, run_start as int, start as int);
            } else {
                lemma_boundary_order(whole, start as int, run_start as int);
            }
            if run_end <= end {
                lemma_boundary_order(whole, run_end as int, end as int);
            } else {
                lemma_boundary_order(whole, end as int, run_end as int);
            }
        }
        if lo < hi {
            proof {
                lemma_boundary_within(whole, p, q, lo as int);
                lemma_boundary_within(whole, p, q, hi as int);
            }
            let part = text::slice(text.runs[i].text.as_str(), lo - run_start, hi - run_start);
            out.push(Run { text: part, author: text.runs[i].author.clone() });
            proof {
                assert(content::runs_view(out@) == before.push((part@, text@[i as int].1)));
                content::lemma_spread_push(before, part@, text@[i as int].1);
            }
        } else {
            proof {
                lemma_boundary_order(whole, hi as int, lo as int);
            }
        }
        cursor = run_end;
        i += 1;
    }
    proof {
        assert(text@.take(i as int) == text@);
        content::lemma_plain_of_spread(text@);
    }
    out
}

/// Of the first `n` runs, the authored characters from `a` to `b`.
spec fn within(runs: Runs, n: int, a: int, b: int) -> Seq<(char, Author)> {
    let chars = content::spread(runs.take(n));
    let len = chars.len() as int;
    chars.subrange(if a < len { a } else { len }, if b < len { b } else { len })
}

proof fn lemma_within_step(runs: Runs, n: int, a: int, b: int)
    requires
        0 <= n < runs.len(),
        0 <= a <= b,
    ensures
        ({
            let p = content::plain_text(runs.take(n)).len() as int;
            let q = p + runs[n].0.len();
            let lo = if a < p { p } else { a };
            let hi = if b < q { b } else { q };
            within(runs, n + 1, a, b) == within(runs, n, a, b) + if lo < hi {
                content::tagged(runs[n].0.subrange(lo - p, hi - p), runs[n].1)
            } else {
                Seq::empty()
            }
        }),
{
    assert(runs.take(n + 1) == runs.take(n).push(runs[n]));
    content::lemma_spread_push(runs.take(n), runs[n].0, runs[n].1);
    content::lemma_plain_of_spread(runs.take(n));
}

/// Replaces the byte range `start..end` of `text` by `replacement`, which
/// `author` wrote, and returns the runs (not yet normalized).
fn splice(text: &RichText, start: usize, end: usize, replacement: String, author: &AuthorId) -> (out:
    Vec<Run>)
    requires
        text.size() <= usize::MAX,
        start <= end,
        text::on_boundary(content::plain_text(text@), start as int),
        text::on_boundary(content::plain_text(text@), end as int),
    ensures
        content::spread(content::runs_view(out@)) == edited(
            text@,
            start,
            end,
            replacement@,
            author@,
        ),
{
    let ghost whole = content::plain_text(text@);
    let ghost chars = content::spread(text@);
    let len: usize = text.len();
    proof {
        content::lemma_plain_of_spread(text@);
        assert(whole.take(0) == Seq::<char>::empty());
        assert(whole.take(whole.len() as int) == whole);
        text::lemma_chars_before(whole, 0);
        text::lemma_chars_before(whole, whole.len() as int);
        lemma_boundary_order(whole, start as int, end as int);
        let j = text::chars_before(whole, end as int);
        if j < whole.len() {
            text::lemma_utf8_len_strict(whole, j, whole.len() as int);
        }
    }
    let mut out = cut(text, 0, start);
    let mut tail = cut(text, end, len);
    let ghost head = content::runs_view(out@);
    if !replacement.as_str().is_empty() {
        out.push(Run { text: replacement, author: author.clone() });
        proof {
            assert(content::runs_view(out@) == head.push((replacement@, author@)));
            content::lemma_spread_push(head, replacement@, author@);
        }
    }
    let ghost front = out@;
    let ghost back = tail@;
    out.append(&mut tail);
    proof {
        assert(content::runs_view(out@) == content::runs_view(front) + content::runs_view(back));
        lemma_spread_add(content::runs_view(front), content::runs_view(back));
        let i = text::chars_before(whole, start as int);
        let j = text::chars_before(whole, end as int);
        assert(chars.subrange(0, i) == chars.take(i));
        assert(chars.subrange(j, chars.len() as int) == chars.skip(j));
        assert(content::spread(content::runs_view(out@)) == chars.take(i) + content::tagged(
            replacement@,
            author@,
        ) + chars.skip(j));
    }
    out
}

/// The characters of two run lists in a row.
pub proof fn lemma_spread_add<K>(a: Seq<(Seq<char>, K)>, b: Seq<(Seq<char>, K)>)
    ensures
        content::spread(a + b) == content::spread(a) + content::spread(b),
    decreases b.len(),
{
    if b.len() == 0 {
        assert(a + b == a);
        assert(content::spread(a) + content::spread(b) == content::spread(a));
    } else {
        assert((a + b).drop_last() == a + b.drop_last());
        assert((a + b).last() == b.last());
        lemma_spread_add(a, b.drop_last());
        assert(content::spread(a + b) == content::spread(a) + content::spread(b));
    }
}

/// What an edit does to a text: the error it is rejected with, or the runs that
/// the text has afterwards.
pub open spec fn edit_outcome(runs: Runs, edit: Edit, author: Author) -> std::result::Result<
    Runs,
    ProvenanceError,
> {
    match range_error(content::plain_text(runs), edit.start(), edit.end()) {
        Some(e) => Err(e),
        None => Ok(coalesce(edited(runs, edit.start(), edit.end(), edit.written(), author))),
    }
}

/// Applies `edit` to `text`, attributing all newly written characters to
/// `author` while leaving the authorship of untouched characters intact.
///
/// This is the **single edit primitive**: insert, delete and replace all flow
/// through it. On success `text` is updated in place and normalized. On error
/// `text` is left **unchanged**.
pub fn apply_edit(text: &mut RichText, edit: Edit, author: &AuthorId) -> (r: Result<()>)
    requires
        old(text).size() <= usize::MAX,
    ensures
        match edit_outcome(old(text)@, edit, author@) {
            Err(e) => r == Result::<()>::Err(e) && *final(text) == *old(text),
            Ok(runs) => r is Ok && final(text)@ == runs,
        },
{
    let len: usize = text.len();
    let new_runs = match edit {
        Edit::Insert { at, text: ins } => {
            match check_boundary(text, at, len) {
                Err(e) => {
                    return Err(e);
                },
                Ok(()) => splice(text, at, at, ins, author),
            }
        },
        Edit::Delete { range } => {
            match check_range(text, range.start, range.end, len) {
                Err(e) => {
                    return Err(e);
                },
                Ok(()) => splice(text, range.start, range.end, String::new(), author),
            }
        },
        Edit::Replace { range, new_text } => {
            match check_range(text, range.start, range.end, len) {
                Err(e) => {
                    return Err(e);
                },
                Ok(()) => splice(text, range.start, range.end, new_text, author),
            }
        },
    };
    text.runs = new_runs;
    normalize(text);
    Ok(())
}

// ---------------------------------------------------------------------------
// Taking over a whole new body
// ---------------------------------------------------------------------------

/// How many characters `a` and `b` share at the front.
pub open spec fn common_prefix(a: Seq<char>, b: Seq<char>) -> nat
    decreases a.len(),
{
    if a.len() > 0 && b.len() > 0 && a[0] == b[0] {
        1 + common_prefix(a.drop_first(), b.drop_first())
    } else {
        0
    }
}

/// How many characters `a` and `b` share at the back.
pub open spec fn common_suffix(a: Seq<char>, b: Seq<char>) -> nat
    decreases a.len(),
{
    if a.len() > 0 && b.len() > 0 && a.last() == b.last() {
        1 + common_suffix(a.drop_last(), b.drop_last())
    } else {
        0
    }
}

/// The runs after `author` has handed in `new` as the whole text: what old and
/// new share at the front, and of the rest at the back, keeps its authors, and
/// what lies between is replaced.
pub open spec fn reauthored(runs: Runs, new: Seq<char>, author: Author) -> Runs {
    let old_text = content::plain_text(runs);
    if old_text == new {
        runs
    } else {
        let p = common_prefix(old_text, new) as int;
        let s = common_suffix(old_text.skip(p), new.skip(p)) as int;
        coalesce(
            replaced(
                content::spread(runs),
                p,
                old_text.len() - s,
                new.subrange(p, new.len() - s),
                author,
            ),
        )
    }
}

pub(crate) proof fn lemma_common_prefix(a: Seq<char>, b: Seq<char>)
    ensures
        common_prefix(a, b) <= a.len(),
        common_prefix(a, b) <= b.len(),
        a.take(common_prefix(a, b) as int) == b.take(common_prefix(a, b) as int),
    decreases a.len(),
{
    if a.len() > 0 && b.len() > 0 && a[0] == b[0] {
        lemma_common_prefix(a.drop_first(), b.drop_first());
        let n = common_prefix(a, b) as int;
        let x = a.drop_first();
        let y = b.drop_first();
        assert forall|k: int| 0 <= k < n implies a[k] == b[k] by {
            if k > 0 {
                assert(x.take(n - 1)[k - 1] == y.take(n - 1)[k - 1]);
            }
        }
        assert(a.take(n) == b.take(n));
    } else {
        assert(a.take(0) == b.take(0));
    }
}

pub(crate) proof fn lemma_common_suffix(a: Seq<char>, b: Seq<char>)
    ensures
        common_suffix(a, b) <= a.len(),
        common_suffix(a, b) <= b.len(),
        a.skip(a.len() - common_suffix(a, b)) == b.skip(b.len() - common_suffix(a, b)),
    decreases a.len(),
{
    let n = common_suffix(a, b) as int;
    if a.len() > 0 && b.len() > 0 && a.last() == b.last() {
        let x = a.drop_last();
        let y = b.drop_last();
        lemma_common_suffix(x, y);
        assert(a.skip(a.len() - n) == x.skip(x.len() - (n - 1)).push(a.last()));
        assert(b.skip(b.len() - n) == y.skip(y.len() - (n - 1)).push(b.last()));
    } else {
        assert(a.skip(a.len() as int) == b.skip(b.len() as int));
    }
}

/// How many characters `a` and `b` share at the front.
fn shared_prefix(a: &Vec<char>, b: &Vec<char>) -> (n: usize)
    ensures
        n == common_prefix(a@, b@),
{
    let mut n: usize = 0;
    proof {
        assert(a@.skip(0) == a@);
        assert(b@.skip(0) == b@);
    }
    while n < a.len() && n < b.len() && a[n] == b[n]
        invariant
            n <= a@.len(),
            n <= b@.len(),
            common_prefix(a@, b@) == n + common_prefix(a@.skip(n as int), b@.skip(n as int)),
        decreases a@.len() - n,
    {
        proof {
            assert(a@.skip(n as int).drop_first() == a@.skip(n + 1));
            assert(b@.skip(n as int).drop_first() == b@.skip(n + 1));
        }
        n += 1;
    }
    n
}

/// How many characters `a` and `b` share at the back, after the first `from`.
fn shared_suffix(a: &Vec<char>, b: &Vec<char>, from: usize) -> (n: usize)
    requires
        from <= a@.len(),
        from <= b@.len(),
    ensures
        n == common_suffix(a@.skip(from as int), b@.skip(from as int)),
{
    let ghost x = a@.skip(from as int);
    let ghost y = b@.skip(from as int);
    let mut n: usize = 0;
    proof {
        assert(x.take(x.len() as int) == x);
        assert(y.take(y.len() as int) == y);
    }
    while n < a.len() - from && n < b.len() - from && a[a.len() - 1 - n] == b[b.len() - 1 - n]
        invariant
            from <= a@.len(),
            from <= b@.len(),
            x == a@.skip(from as int),
            y == b@.skip(from as int),
            n <= x.len(),
            n <= y.len(),
            common_suffix(x, y) == n + common_suffix(x.take(x.len() - n), y.take(y.len() - n)),
        decreases x.len() - n,
    {
        proof {
            assert(x.take(x.len() - n).drop_last() == x.take(x.len() - n - 1));
            assert(y.take(y.len() - n).drop_last() == y.take(y.len() - n - 1));
        }
        n += 1;
    }
    n
}

/// Re-authors `text` so its plain string becomes `new_text`, attributing **only
/// the changed span** to `author` and preserving the original authorship of every
/// character that is unchanged.
///
/// When `new_text` equals the current plain string the call is a no-op. The
/// replaced span lies on character boundaries, so the edit is never rejected.
pub fn reauthor(text: &mut RichText, new_text: &str, author: &AuthorId) -> (r: Result<()>)
    requires
        old(text).size() <= usize::MAX,
    ensures
        r is Ok,
        final(text)@ == reauthored(old(text)@, new_text@, author@),
        content::plain_text(old(text)@) == new_text@ ==> *final(text) == *old(text),
{
    let old_text = text.plain_string();
    if text::text_eq(old_text.as_str(), new_text) {
        return Ok(());
    }
    let a: Vec<char> = text::chars_of(old_text.as_str());
    let b: Vec<char> = text::chars_of(new_text);
    let prefix: usize = shared_prefix(&a, &b);
    proof {
        lemma_common_prefix(a@, b@);
        lemma_common_suffix(a@.skip(prefix as int), b@.skip(prefix as int));
    }
    let suffix: usize = shared_suffix(&a, &b, prefix);
    let stop: usize = a.len() - suffix;
    let start: usize = text::byte_offset(&a, prefix);
    let end: usize = text::byte_offset(&a, stop);
    let replacement = text::from_chars(&b, prefix, b.len() - suffix);
    proof {
        if prefix < stop {
            text::lemma_utf8_len_strict(a@, prefix as int, stop as int);
        }
    }
    apply_edit(text, Edit::Replace { range: start..end, new_text: replacement }, author)
}

// ---------------------------------------------------------------------------
// Authorship queries
// ---------------------------------------------------------------------------

/// Returns the [`AuthorId`] of the character at byte offset `at`, or `None` if
/// `at` is at the very end of the text (no character there).
pub fn author_at(text: &RichText, at: usize) -> (r: Result<Option<&AuthorId>>)
    requires
        text.size() <= usize::MAX,
    ensures
        match offset_error(content::plain_text(text@), at) {
            Some(e) => r matches Err(err) && err == e,
            None => if at == text.size() {
                r matches Ok(None)
            } else {
                r matches Ok(Some(a)) && a@ == content::spread(text@)[text::chars_before(
                    content::plain_text(text@),
                    at as int,
                )].1
            },
        },
{
    let len: usize = text.len();
    match check_boundary(text, at, len) {
        Err(e) => {
            return Err(e);
        },
        Ok(()) => {},
    }
    if at == len {
        return Ok(None);
    }
    let ghost whole = content::plain_text(text@);
    let mut cursor: usize = 0;
    let mut i: usize = 0;
    proof {
        assert(text@.take(0) == Runs::empty());
    }
    while i < text.runs.len()
        invariant
            i <= text.runs@.len(),
            whole == content::plain_text(text@),
            text.size() <= usize::MAX,
            at < text.size(),
            offset_error(whole, at) is None,
            cursor == text::utf8_len(content::plain_text(text@.take(i as int))),
            cursor <= at,
        decreases text.runs@.len() - i,
    {
        proof {
            lemma_run_place(text@, i as int);
        }
        let run_end: usize = cursor + text::byte_len(text.runs[i].text.as_str());
        if at < run_end {
            proof {
                let p = content::plain_text(text@.take(i as int)).len() as int;
                let q = p + text@[i as int].0.len();
                lemma_boundary_within(whole, p, q, at as int);
                lemma_char_in_run(text@, i as int, text::chars_before(whole, at as int));
            }
            return Ok(Some(&text.runs[i].author));
        }
        cursor = run_end;
        i += 1;
    }
    assert(text@.take(i as int) == text@);
    Ok(None)
}

/// A character of run `i` is marked with that run's key.
pub(crate) proof fn lemma_char_in_run(runs: Runs, i: int, k: int)
    requires
        0 <= i < runs.len(),
        content::plain_text(runs.take(i)).len() <= k < content::plain_text(runs.take(i)).len()
            + runs[i].0.len(),
    ensures
        k < content::spread(runs).len(),
        content::spread(runs)[k].1 == runs[i].1,
        content::spread(runs)[k].0 == runs[i].0[k - content::plain_text(runs.take(i)).len()],
    decreases runs.len(),
{
    if i == runs.len() - 1 {
        assert(runs.take(i) == runs.drop_last());
        content::lemma_plain_of_spread(runs.drop_last());
    } else {
        assert(runs.drop_last().take(i) == runs.take(i));
        lemma_char_in_run(runs.drop_last(), i, k);
    }
}

/// The parts of `start..end` (in bytes) that each run of `runs` covers, with who
/// wrote them.
pub open spec fn covering(runs: Runs, start: int, end: int) -> Seq<(int, int, Author)>
    decreases runs.len(),
{
    if runs.len() == 0 {
        Seq::empty()
    } else {
        let before = covering(runs.drop_last(), start, end);
        let from = text::utf8_len(content::plain_text(runs.drop_last())) as int;
        let to = from + text::utf8_len(runs.last().0) as int;
        let lo = if from < start { start } else { from };
        let hi = if to < end { to } else { end };
        if lo < hi {
            before.push((lo, hi, runs.last().1))
        } else {
            before
        }
    }
}

/// What contracts see of a list of authored spans.
pub open spec fn spans_view(spans: Seq<(Range<usize>, &AuthorId)>) -> Seq<(int, int, Author)> {
    Seq::new(
        spans.len(),
        |i: int| (spans[i].0.start as int, spans[i].0.end as int, spans[i].1@),
    )
}

/// Returns the authors covering byte `range`, in reading order, each paired with
/// the sub-range of `range` they cover.
pub fn authors_in_range(text: &RichText, range: Range<usize>) -> (r: Result<
    Vec<(Range<usize>, &AuthorId)>,
>)
    requires
        text.size() <= usize::MAX,
    ensures
        match range_error(content::plain_text(text@), range.start, range.end) {
            Some(e) => r matches Err(err) && err == e,
            None => r matches Ok(spans) && spans_view(spans@) == covering(
                text@,
                range.start as int,
                range.end as int,
            ),
        },
{
    let len: usize = text.len();
    match check_range(text, range.start, range.end, len) {
        Err(e) => {
            return Err(e);
        },
        Ok(()) => {},
    }
    let mut spans: Vec<(Range<usize>, &AuthorId)> = Vec::new();
    let mut cursor: usize = 0;
    let mut i: usize = 0;
    proof {
        assert(text@.take(0) == Runs::empty());
        assert(spans_view(spans@) == Seq::<(int, int, Author)>::empty());
    }
    while i < text.runs.len()
        invariant
            i <= text.runs@.len(),
            text.size() <= usize::MAX,
            cursor == text::utf8_len(content::plain_text(text@.take(i as int))),
            spans_view(spans@) == covering(
                text@.take(i as int),
                range.start as int,
                range.end as int,
            ),
        decreases text.runs@.len() - i,
    {
        proof {
            lemma_run_place(text@, i as int);
            assert(text@.take(i + 1).drop_last() == text@.take(i as int));
        }
        let ghost before = spans_view(spans@);
        let run_start: usize = cursor;
        let run_end: usize = cursor + text::byte_len(text.runs[i].text.as_str());
        cursor = run_end;
        let lo: usize = if run_start < range.start { range.start } else { run_start };
        let hi: usize = if run_end < range.end { run_end } else { range.end };
        if lo < hi {
            spans.push((lo..hi, &text.runs[i].author));
            assert(spans_view(spans@) == before.push((lo as int, hi as int, text@[i as int].1)));
        }
        i += 1;
    }
    assert(text@.take(i as int) == text@);
    Ok(spans)
}

/// Each element of `s` once, in the order of first appearance.
pub open spec fn first_seen<A>(s: Seq<A>) -> Seq<A>
    decreases s.len(),
{
    if s.len() == 0 {
        Seq::empty()
    } else {
        let before = first_seen(s.drop_last());
        if before.contains(s.last()) {
            before
        } else {
            before.push(s.last())
        }
    }
}

/// The author of each run.
pub open spec fn run_authors(runs: Runs) -> Seq<Author> {
    Seq::new(runs.len(), |i: int| runs[i].1)
}

/// What contracts see of a list of author references.
pub open spec fn authors_view(authors: Seq<&AuthorId>) -> Seq<Author> {
    Seq::new(authors.len(), |i: int| authors[i]@)
}

/// Returns the distinct authors of `text`, in first-seen (reading) order.
pub fn contributors_of(text: &RichText) -> (seen: Vec<&AuthorId>)
    ensures
        authors_view(seen@) == first_seen(run_authors(text@)),
{
    let mut seen: Vec<&AuthorId> = Vec::new();
    let ghost all = run_authors(text@);
    let mut i: usize = 0;
    assert(authors_view(seen@) == first_seen(all.take(0)));
    while i < text.runs.len()
        invariant
            i <= text.runs@.len(),
            all == run_authors(text@),
            authors_view(seen@) == first_seen(all.take(i as int)),
        decreases text.runs@.len() - i,
    {
        let author = &text.runs[i].author;
        proof {
            assert(all.take(i + 1).drop_last() == all.take(i as int));
            assert(all.take(i + 1).last() == author@);
        }
        let mut known = false;
        let mut k: usize = 0;
        while k < seen.len() && !known
            invariant
                k <= seen@.len(),
                known == (exists|j: int| 0 <= j < k && authors_view(seen@)[j] == author@),
            decreases seen@.len() - k,
        {
            known = seen[k].same(author);
            assert(authors_view(seen@)[k as int] == seen@[k as int]@);
            k += 1;
        }
        assert(known == authors_view(seen@).contains(author@));
        if !known {
            let ghost before = authors_view(seen@);
            seen.push(author);
            assert(authors_view(seen@) == before.push(author@));
        }
        i += 1;
    }
    assert(all.take(i as int) == all);
    seen
}

/// The runs of a block's authored prose; a code block has none.
pub open spec fn prose_runs(block: BlockView) -> Runs {
    match block {
        BlockView::Paragraph(t) => t,
        BlockView::ListItem(t) => t,
        BlockView::Quote(t) => t,
        BlockView::Heading { level: _, text } => text,
        BlockView::CodeBlock { lang: _, code: _ } => Seq::empty(),
    }
}

/// The tag of each run's author.
pub open spec fn run_tags(runs: Runs) -> Seq<Seq<char>> {
    Seq::new(runs.len(), |i: int| runs[i].1.tag())
}

/// The author tags of every run of every block, in reading order.
pub open spec fn all_tags(blocks: Seq<BlockView>) -> Seq<Seq<char>>
    decreases blocks.len(),
{
    if blocks.len() == 0 {
        Seq::empty()
    } else {
        all_tags(blocks.drop_last()) + run_tags(prose_runs(blocks.last()))
    }
}

/// Adds to `seen` the author tags of `text` that it does not hold yet.
fn collect_tags(seen: &mut Vec<String>, text: &RichText, Ghost(before): Ghost<Seq<Seq<char>>>)
    requires
        text::views(old(seen)@) == first_seen(before),
    ensures
        text::views(final(seen)@) == first_seen(before + run_tags(text@)),
{
    let ghost all = run_tags(text@);
    let mut i: usize = 0;
    assert(before + all.take(0) == before);
    while i < text.runs.len()
        invariant
            i <= text.runs@.len(),
            all == run_tags(text@),
            text::views(seen@) == first_seen(before + all.take(i as int)),
        decreases text.runs@.len() - i,
    {
        let tag = text.runs[i].author.tag();
        proof {
            let now = before + all.take(i + 1);
            assert(now.drop_last() == before + all.take(i as int));
            assert(now.last() == tag@);
        }
        let mut known = false;
        let mut k: usize = 0;
        while k < seen.len() && !known
            invariant
                k <= seen@.len(),
                known == (exists|j: int| 0 <= j < k && text::views(seen@)[j] == tag@),
            decreases seen@.len() - k,
        {
            known = text::text_eq(seen[k].as_str(), tag.as_str());
            assert(text::views(seen@)[k as int] == seen@[k as int]@);
            k += 1;
        }
        assert(known == text::views(seen@).contains(tag@));
        if !known {
            let ghost held = text::views(seen@);
            seen.push(tag);
            assert(text::views(seen@) == held.push(tag@));
        }
        i += 1;
    }
    assert(all.take(i as int) == all);
}

/// Aggregates every contributor across a whole [`Document`], rendered as
/// provenance tags via [`AuthorId::tag`], in first-seen reading order.
///
/// A [`Block::CodeBlock`] carries no per-character authorship, so it contributes
/// no authors here.
pub fn contributors(doc: &Document) -> (seen: Vec<String>)
    ensures
        text::views(seen@) == first_seen(all_tags(doc@)),
{
    let mut seen: Vec<String> = Vec::new();
    let mut i: usize = 0;
    assert(text::views(seen@) == first_seen(all_tags(doc@.take(0))));
    while i < doc.blocks.len()
        invariant
            i <= doc.blocks@.len(),
            text::views(seen@) == first_seen(all_tags(doc@.take(i as int))),
        decreases doc.blocks@.len() - i,
    {
        let ghost before = all_tags(doc@.take(i as int));
        proof {
            assert(doc@.take(i + 1).drop_last() == doc@.take(i as int));
            assert(doc@.take(i + 1).last() == doc.blocks@[i as int]@);
            assert(run_tags(Seq::empty()) == Seq::<Seq<char>>::empty());
            assert(before + Seq::<Seq<char>>::empty() == before);
        }
        match &doc.blocks[i] {
            Block::Paragraph(t) => collect_tags(&mut seen, t, Ghost(before)),
            Block::ListItem(t) => collect_tags(&mut seen, t, Ghost(before)),
            Block::Quote(t) => collect_tags(&mut seen, t, Ghost(before)),
            Block::Heading { level: _, text } => collect_tags(&mut seen, text, Ghost(before)),
            Block::CodeBlock { lang: _, code: _ } => {},
        }
        i += 1;
    }
    assert(doc@.take(i as int) == doc@);
    seen
}

} // verus!
