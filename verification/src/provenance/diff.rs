//! The author-attributed diff between two authored texts.

use crate::content;
use crate::content::{Author, AuthorId, RichText, Runs};
use crate::provenance;
use crate::text;
use vstd::prelude::*;

verus! {

/// What a step of a diff does with a stretch of text.
#[derive(Debug, Clone, Copy, PartialEq, Eq, Structural)]
pub enum OpKind {
    /// Keeps it.
    Equal,
    /// Removes it.
    Delete,
    /// Adds it.
    Insert,
}

/// One step of an author-attributed diff between two [`RichText`] values.
///
/// A diff is a sequence of these ops that, read left to right, transforms the
/// *old* text into the *new* text.
#[derive(Debug, PartialEq, Eq)]
pub enum DiffOp {
    /// Text unchanged between the two versions, with its author in the new one.
    Equal {
        /// The unchanged text.
        text: String,
        /// The author of this text.
        author: AuthorId,
    },
    /// Text removed in the new version, with the author who had written it.
    Delete {
        /// The removed text.
        text: String,
        /// The author who originally wrote the removed text.
        author: AuthorId,
    },
    /// Text added in the new version, with the author who wrote it.
    Insert {
        /// The added text.
        text: String,
        /// The author who wrote the added text.
        author: AuthorId,
    },
}

impl View for DiffOp {
    type V = (Seq<char>, (OpKind, Author));

    open spec fn view(&self) -> (Seq<char>, (OpKind, Author)) {
        match self {
            DiffOp::Equal { text, author } => (text@, (OpKind::Equal, author@)),
            DiffOp::Delete { text, author } => (text@, (OpKind::Delete, author@)),
            DiffOp::Insert { text, author } => (text@, (OpKind::Insert, author@)),
        }
    }
}

impl Clone for DiffOp {
    fn clone(&self) -> (copy: Self)
        ensures
            copy == *self,
    {
        match self {
            DiffOp::Equal { text, author } => DiffOp::Equal {
                text: text.clone(),
                author: author.clone(),
            },
            DiffOp::Delete { text, author } => DiffOp::Delete {
                text: text.clone(),
                author: author.clone(),
            },
            DiffOp::Insert { text, author } => DiffOp::Insert {
                text: text.clone(),
                author: author.clone(),
            },
        }
    }
}

/// What contracts see of a list of ops.
pub open spec fn ops_view(ops: Seq<DiffOp>) -> Seq<(Seq<char>, (OpKind, Author))> {
    Seq::new(ops.len(), |i: int| ops[i]@)
}

/// A character, and what a diff does with it on whose account.
pub type Step = (char, (OpKind, Author));

/// The length of a longest common subsequence of `a` and `b`.
pub open spec fn lcs(a: Seq<char>, b: Seq<char>) -> nat
    decreases a.len() + b.len(),
{
    if a.len() == 0 || b.len() == 0 {
        0
    } else if a[0] == b[0] {
        1 + lcs(a.drop_first(), b.drop_first())
    } else if lcs(a.drop_first(), b) >= lcs(a, b.drop_first()) {
        lcs(a.drop_first(), b)
    } else {
        lcs(a, b.drop_first())
    }
}

/// The characters of `chars`, each with what is done with it.
pub open spec fn steps(chars: Seq<(char, Author)>, kind: OpKind) -> Seq<Step> {
    Seq::new(chars.len(), |i: int| (chars[i].0, (kind, chars[i].1)))
}

/// The steps from `a` to `b`, one for each character: equal characters are kept
/// as soon as both texts stand at one, and else the text moves on whose rest has
/// the longer common subsequence with the other, `a` where both have the same.
pub open spec fn script(a: Seq<(char, Author)>, b: Seq<(char, Author)>) -> Seq<Step>
    decreases a.len() + b.len(),
{
    if a.len() == 0 {
        steps(b, OpKind::Insert)
    } else if b.len() == 0 {
        steps(a, OpKind::Delete)
    } else if a[0].0 == b[0].0 {
        seq![(b[0].0, (OpKind::Equal, b[0].1))] + script(a.drop_first(), b.drop_first())
    } else if lcs(content::plain(a.drop_first()), content::plain(b)) >= lcs(
        content::plain(a),
        content::plain(b.drop_first()),
    ) {
        seq![(a[0].0, (OpKind::Delete, a[0].1))] + script(a.drop_first(), b)
    } else {
        seq![(b[0].0, (OpKind::Insert, b[0].1))] + script(a, b.drop_first())
    }
}

/// What contracts see of a list of characters with their authors.
pub open spec fn authored_view(chars: Seq<(char, AuthorId)>) -> Seq<(char, Author)> {
    Seq::new(chars.len(), |i: int| (chars[i].0, chars[i].1@))
}

/// Flattens a [`RichText`] into a per-character `(char, author)` sequence.
fn chars_with_authors(text: &RichText) -> (out: Vec<(char, AuthorId)>)
    ensures
        authored_view(out@) == content::spread(text@),
{
    let mut out: Vec<(char, AuthorId)> = Vec::new();
    let mut i: usize = 0;
    assert(text@.take(0) == Runs::empty());
    assert(authored_view(out@) == content::spread(text@.take(0)));
    while i < text.runs.len()
        invariant
            i <= text.runs@.len(),
            authored_view(out@) == content::spread(text@.take(i as int)),
        decreases text.runs@.len() - i,
    {
        let chars: Vec<char> = text::chars_of(text.runs[i].text.as_str());
        let ghost author = text@[i as int].1;
        let ghost before = authored_view(out@);
        let mut k: usize = 0;
        assert(before == before + content::tagged(chars@.take(0), author));
        while k < chars.len()
            invariant
                i < text.runs@.len(),
                k <= chars@.len(),
                author == text.runs@[i as int].author@,
                authored_view(out@) == before + content::tagged(chars@.take(k as int), author),
            decreases chars@.len() - k,
        {
            let ghost held = authored_view(out@);
            out.push((chars[k], text.runs[i].author.clone()));
            proof {
                assert(authored_view(out@) == held.push((chars@[k as int], author)));
                assert(content::tagged(chars@.take(k + 1), author) == content::tagged(
                    chars@.take(k as int),
                    author,
                ).push((chars@[k as int], author)));
            }
            k += 1;
        }
        proof {
            assert(chars@.take(k as int) == chars@);
            assert(text@.take(i + 1) == text@.take(i as int).push(text@[i as int]));
            content::lemma_spread_push(text@.take(i as int), text@[i as int].0, author);
        }
        i += 1;
    }
    assert(text@.take(i as int) == text@);
    out
}

/// The lengths of the longest common subsequences of the rests of two texts.
///
/// Row `k` is about the rest of the first text that has `k + 1` characters, and
/// entry `l` of it about the rest of the second text that has `l + 1`.
struct Table {
    rows: Vec<Vec<usize>>,
}

/// The last `k` elements.
spec fn rest<A>(s: Seq<A>, k: int) -> Seq<A> {
    s.skip(s.len() - k)
}

impl Table {
    /// The rows hold what they are said to hold, for the last `n` characters of
    /// `a`.
    spec fn holds(self, a: Seq<char>, b: Seq<char>, n: int) -> bool {
        &&& n <= a.len()
        &&& self.rows@.len() == n
        &&& forall|k: int| 0 <= k < n ==> row_holds(#[trigger] self.rows@[k]@, a, b, k)
    }

    /// The entry for the rests that have `i` and `j` characters.
    fn get(&self, i: usize, j: usize, Ghost(a): Ghost<Seq<char>>, Ghost(b): Ghost<Seq<char>>) -> (v:
        usize)
        requires
            self.holds(a, b, self.rows@.len() as int),
            i <= self.rows@.len(),
            j <= b.len(),
        ensures
            v == lcs(rest(a, i as int), rest(b, j as int)),
    {
        if i == 0 || j == 0 {
            0
        } else {
            assert(row_holds(self.rows@[i - 1]@, a, b, i - 1));
            self.rows[i - 1][j - 1]
        }
    }
}

spec fn row_holds(row: Seq<usize>, a: Seq<char>, b: Seq<char>, k: int) -> bool {
    &&& row.len() == b.len()
    &&& row_prefix(row, a, b, k)
}

spec fn row_prefix(row: Seq<usize>, a: Seq<char>, b: Seq<char>, k: int) -> bool {
    forall|l: int|
        0 <= l < row.len() ==> (#[trigger] row[l]) == lcs(rest(a, k + 1), rest(b, l + 1))
}

proof fn lemma_lcs_bound(a: Seq<char>, b: Seq<char>)
    ensures
        lcs(a, b) <= a.len(),
        lcs(a, b) <= b.len(),
    decreases a.len() + b.len(),
{
    if a.len() > 0 && b.len() > 0 {
        if a[0] == b[0] {
            lemma_lcs_bound(a.drop_first(), b.drop_first());
        } else {
            lemma_lcs_bound(a.drop_first(), b);
            lemma_lcs_bound(a, b.drop_first());
        }
    }
}

/// Fills the table for two texts.
fn lcs_table(x: &Vec<(char, AuthorId)>, y: &Vec<(char, AuthorId)>) -> (table: Table)
    ensures
        table.holds(
            content::plain(authored_view(x@)),
            content::plain(authored_view(y@)),
            x@.len() as int,
        ),
{
    let ghost a = content::plain(authored_view(x@));
    let ghost b = content::plain(authored_view(y@));
    let n: usize = x.len();
    let m: usize = y.len();
    let mut table = Table { rows: Vec::new() };
    while table.rows.len() < n
        invariant
            n == x@.len(),
            m == y@.len(),
            a == content::plain(authored_view(x@)),
            b == content::plain(authored_view(y@)),
            table.rows@.len() <= n,
            table.holds(a, b, table.rows@.len() as int),
        decreases n - table.rows@.len(),
    {
        let k: usize = table.rows.len();
        let mut row: Vec<usize> = Vec::new();
        while row.len() < m
            invariant
                n == x@.len(),
                m == y@.len(),
                a == content::plain(authored_view(x@)),
                b == content::plain(authored_view(y@)),
                k == table.rows@.len(),
                k < n,
                table.holds(a, b, k as int),
                row@.len() <= m,
                row_prefix(row@, a, b, k as int),
            decreases m - row@.len(),
        {
            let l: usize = row.len();
            let ghost p = rest(a, k + 1);
            let ghost q = rest(b, l + 1);
            proof {
                assert(p.drop_first() == rest(a, k as int));
                assert(q.drop_first() == rest(b, l as int));
                assert(p[0] == x@[n - 1 - k].0);
                assert(q[0] == y@[m - 1 - l].0);
                lemma_lcs_bound(p.drop_first(), q.drop_first());
            }
            let value: usize = if x[n - 1 - k].0 == y[m - 1 - l].0 {
                table.get(k, l, Ghost(a), Ghost(b)) + 1
            } else {
                let down: usize = table.get(k, l + 1, Ghost(a), Ghost(b));
                let right: usize = if l == 0 {
                    0
                } else {
                    row[l - 1]
                };
                assert(right == lcs(p, rest(b, l as int)));
                if down >= right {
                    down
                } else {
                    right
                }
            };
            row.push(value);
            assert(value == lcs(p, q));
        }
        table.rows.push(row);
    }
    table
}

/// Adds one character to the ops: the last op takes it where it has the same
/// kind and author, else an op is added.
fn push_step(ops: &mut Vec<DiffOp>, c: char, kind: OpKind, author: &AuthorId)
    ensures
        ops_view(final(ops)@) == provenance::extended(
            ops_view(old(ops)@),
            seq![c],
            (kind, author@),
        ),
{
    let ghost before = ops_view(ops@);
    let mut text = String::new();
    match ops.pop() {
        None => {},
        Some(last) => {
            assert(before.last() == last@);
            match last {
                DiffOp::Equal { text: t, author: a } => {
                    if kind == OpKind::Equal && a.same(author) {
                        text = t;
                    } else {
                        ops.push(DiffOp::Equal { text: t, author: a });
                        assert(ops_view(ops@) == before);
                    }
                },
                DiffOp::Delete { text: t, author: a } => {
                    if kind == OpKind::Delete && a.same(author) {
                        text = t;
                    } else {
                        ops.push(DiffOp::Delete { text: t, author: a });
                        assert(ops_view(ops@) == before);
                    }
                },
                DiffOp::Insert { text: t, author: a } => {
                    if kind == OpKind::Insert && a.same(author) {
                        text = t;
                    } else {
                        ops.push(DiffOp::Insert { text: t, author: a });
                        assert(ops_view(ops@) == before);
                    }
                },
            }
        },
    }
    let ghost kept = text@;
    text.push(c);
    let author = author.clone();
    let ghost held = ops_view(ops@);
    ops.push(
        match kind {
            OpKind::Equal => DiffOp::Equal { text, author },
            OpKind::Delete => DiffOp::Delete { text, author },
            OpKind::Insert => DiffOp::Insert { text, author },
        },
    );
    proof {
        assert(ops_view(ops@) == held.push((kept.push(c), (kind, author@))));
        assert(kept.push(c) == kept + seq![c]);
        if before.len() > 0 && before.last().1 == (kind, author@) {
            assert(held == before.drop_last());
            assert(kept == before.last().0);
        } else {
            assert(held == before);
            assert(kept + seq![c] == seq![c]);
        }
    }
}

/// Computes an author-attributed diff transforming `old` into `new`.
///
/// The two texts are compared at the **character** level using a longest-common-
/// subsequence alignment; consecutive characters of one kind and author are
/// coalesced into one op. A deleted character carries the author it had in the
/// old text, any other the author it has in the new one.
pub fn diff(old_text: &RichText, new_text: &RichText) -> (ops: Vec<DiffOp>)
    ensures
        ops_view(ops@) == provenance::coalesce(
            script(content::spread(old_text@), content::spread(new_text@)),
        ),
{
    let x = chars_with_authors(old_text);
    let y = chars_with_authors(new_text);
    let table = lcs_table(&x, &y);
    let n: usize = x.len();
    let m: usize = y.len();
    let ghost a = authored_view(x@);
    let ghost b = authored_view(y@);
    let ghost all = script(a, b);
    let ghost mut done: Seq<Step> = Seq::empty();
    let mut ops: Vec<DiffOp> = Vec::new();
    let mut i: usize = 0;
    let mut j: usize = 0;
    proof {
        assert(a.skip(0) == a);
        assert(b.skip(0) == b);
        assert(done + all == all);
        assert(ops_view(ops@) == provenance::coalesce(done));
    }
    while i < n || j < m
        invariant
            n == x@.len(),
            m == y@.len(),
            a == authored_view(x@),
            b == authored_view(y@),
            table.holds(content::plain(a), content::plain(b), n as int),
            i <= n,
            j <= m,
            all == done + script(a.skip(i as int), b.skip(j as int)),
            ops_view(ops@) == provenance::coalesce(done),
        decreases n - i + m - j,
    {
        let ghost p = a.skip(i as int);
        let ghost q = b.skip(j as int);
        let ghost before = done;
        proof {
            if i < n {
                assert(p.drop_first() == a.skip(i + 1));
                assert(p[0] == a[i as int]);
                assert(content::plain(p.drop_first()) == rest(content::plain(a), n - i - 1));
                assert(content::plain(p) == rest(content::plain(a), n - i));
            }
            if j < m {
                assert(q.drop_first() == b.skip(j + 1));
                assert(q[0] == b[j as int]);
                assert(content::plain(q.drop_first()) == rest(content::plain(b), m - j - 1));
                assert(content::plain(q) == rest(content::plain(b), m - j));
            }
        }
        let kind = if i < n && j < m {
            if x[i].0 == y[j].0 {
                OpKind::Equal
            } else {
                let down: usize = table.get(
                    n - i - 1,
                    m - j,
                    Ghost(content::plain(a)),
                    Ghost(content::plain(b)),
                );
                let right: usize = table.get(
                    n - i,
                    m - j - 1,
                    Ghost(content::plain(a)),
                    Ghost(content::plain(b)),
                );
                if down >= right {
                    OpKind::Delete
                } else {
                    OpKind::Insert
                }
            }
        } else if i < n {
            OpKind::Delete
        } else {
            OpKind::Insert
        };
        match kind {
            OpKind::Equal => {
                push_step(&mut ops, y[j].0, kind, &y[j].1);
                proof {
                    let step = (b[j as int].0, (kind, b[j as int].1));
                    done = before.push(step);
                    assert(seq![step] + script(p.drop_first(), q.drop_first()) == script(p, q));
                }
                i += 1;
                j += 1;
            },
            OpKind::Delete => {
                push_step(&mut ops, x[i].0, kind, &x[i].1);
                proof {
                    let step = (a[i as int].0, (kind, a[i as int].1));
                    done = before.push(step);
                    lemma_script_rest(p, q);
                    assert(seq![step] + script(p.drop_first(), q) == script(p, q));
                }
                i += 1;
            },
            OpKind::Insert => {
                push_step(&mut ops, y[j].0, kind, &y[j].1);
                proof {
                    let step = (b[j as int].0, (kind, b[j as int].1));
                    done = before.push(step);
                    lemma_script_rest(p, q);
                    assert(seq![step] + script(p, q.drop_first()) == script(p, q));
                }
                j += 1;
            },
        }
        proof {
            assert(done.drop_last() == before);
            let after = script(a.skip(i as int), b.skip(j as int));
            assert(before + (seq![done.last()] + after) == done + after);
        }
    }
    proof {
        assert(script(a.skip(i as int), b.skip(j as int)) == Seq::<Step>::empty());
        assert(done == all);
    }
    ops
}

/// Where one text is used up, the other is gone through step by step.
proof fn lemma_script_rest(a: Seq<(char, Author)>, b: Seq<(char, Author)>)
    ensures
        a.len() == 0 && b.len() > 0 ==> script(a, b) == seq![
            (b[0].0, (OpKind::Insert, b[0].1)),
        ] + script(a, b.drop_first()),
        b.len() == 0 && a.len() > 0 ==> script(a, b) == seq![
            (a[0].0, (OpKind::Delete, a[0].1)),
        ] + script(a.drop_first(), b),
{
    if a.len() == 0 && b.len() > 0 {
        assert(steps(b, OpKind::Insert) == seq![(b[0].0, (OpKind::Insert, b[0].1))] + steps(
            b.drop_first(),
            OpKind::Insert,
        ));
    }
    if b.len() == 0 && a.len() > 0 {
        assert(steps(a, OpKind::Delete) == seq![(a[0].0, (OpKind::Delete, a[0].1))] + steps(
            a.drop_first(),
            OpKind::Delete,
        ));
        assert(steps(b, OpKind::Insert) == steps(Seq::empty(), OpKind::Delete));
    }
}

} // verus!
