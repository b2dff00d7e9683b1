//! What holds of texts, their lines and their bytes.

use crate::text;
use vstd::prelude::*;

verus! {

/// White space is what Unicode lists as such.
pub proof fn law_white_space_is_listed(c: char, yes: bool)
    requires
        call_ensures(text::white, (c,), yes),
    ensures
        yes <==> (c == '\t' || c == '\n' || c == '\u{b}' || c == '\u{c}' || c == '\r' || c == ' '
            || c == '\u{85}' || c == '\u{a0}' || c == '\u{1680}' || c == '\u{2000}' || c
            == '\u{2001}' || c == '\u{2002}' || c == '\u{2003}' || c == '\u{2004}' || c
            == '\u{2005}' || c == '\u{2006}' || c == '\u{2007}' || c == '\u{2008}' || c
            == '\u{2009}' || c == '\u{200a}' || c == '\u{2028}' || c == '\u{2029}' || c
            == '\u{202f}' || c == '\u{205f}' || c == '\u{3000}'),
{
}

/// All characters of `s` are white space.
pub open spec fn blank(s: Seq<char>) -> bool {
    forall|i: int| 0 <= i < s.len() ==> text::is_white(#[trigger] s[i])
}

proof fn lemma_start(s: Seq<char>) -> (front: Seq<char>)
    ensures
        s == front + text::trimmed_start(s),
        blank(front),
        text::trimmed_start(s).len() > 0 ==> !text::is_white(text::trimmed_start(s)[0]),
    decreases s.len(),
{
    if s.len() > 0 && text::is_white(s[0]) {
        let rest = lemma_start(s.drop_first());
        let front = seq![s[0]] + rest;
        assert forall|i: int| 0 <= i < front.len() implies text::is_white(#[trigger] front[i]) by {
            if i > 0 {
                assert(front[i] == rest[i - 1]);
            }
        }
        assert(s == seq![s[0]] + s.drop_first());
        assert(s == front + text::trimmed_start(s));
        front
    } else {
        assert(s == Seq::<char>::empty() + s);
        Seq::empty()
    }
}

proof fn lemma_end(s: Seq<char>) -> (back: Seq<char>)
    ensures
        s == text::trimmed_end(s) + back,
        blank(back),
        text::trimmed_end(s).len() > 0 ==> !text::is_white(text::trimmed_end(s).last()),
    decreases s.len(),
{
    if s.len() > 0 && text::is_white(s.last()) {
        let rest = lemma_end(s.drop_last());
        let back = rest.push(s.last());
        assert forall|i: int| 0 <= i < back.len() implies text::is_white(#[trigger] back[i]) by {
            if i < rest.len() {
                assert(back[i] == rest[i]);
            }
        }
        assert(s == s.drop_last().push(s.last()));
        assert(s == text::trimmed_end(s) + back);
        back
    } else {
        assert(s == s + Seq::<char>::empty());
        Seq::empty()
    }
}

/// Trimming takes all white space off both ends, and nothing else.
pub proof fn law_trimming_takes_white_space_off_the_ends(s: &str, t: String)
    requires
        call_ensures(text::trim, (s,), t),
    ensures
        exists|front: Seq<char>, back: Seq<char>|
            s@ == #[trigger] (front + t@ + back) && blank(front) && blank(back),
        t@.len() > 0 ==> !text::is_white(t@[0]) && !text::is_white(t@.last()),
{
    let front = lemma_start(s@);
    let rest = text::trimmed_start(s@);
    let back = lemma_end(rest);
    if t@.len() > 0 {
        assert(t@[0] == rest[0]);
    }
    assert(s@ == front + t@ + back);
}

/// A text and its characters take the bytes of their UTF-8 encoding.
pub proof fn law_lengths_are_those_of_utf8(s: &str, n: usize, c: char, m: usize)
    requires
        call_ensures(text::byte_len, (s,), n),
        call_ensures(text::char_width, (c,), m),
    ensures
        n == vstd::utf8::encode_utf8(s@).len(),
        m == vstd::utf8::encode_utf8(seq![c]).len(),
{
    text::lemma_encode_len(s@);
    text::lemma_encode_len(seq![c]);
    text::lemma_utf8_len_one(c);
}

/// Parts in a row are joined in a row, with one separator between the two rows.
pub proof fn law_parts_are_joined_in_order(
    a: Seq<Seq<char>>,
    b: Seq<Seq<char>>,
    sep: Seq<char>,
    part: Seq<char>,
)
    ensures
        text::joined(Seq::empty(), sep) == Seq::<char>::empty(),
        text::joined(seq![part], sep) == part,
        a.len() > 0 && b.len() > 0 ==> text::joined(a + b, sep) == text::joined(a, sep) + sep
            + text::joined(b, sep),
    decreases b.len(),
{
    if a.len() > 0 && b.len() > 0 {
        let all = a + b;
        assert(all.last() == b.last());
        assert(all.drop_last() == a + b.drop_last());
        if b.len() == 1 {
            assert(a + b.drop_last() == a);
        } else {
            law_parts_are_joined_in_order(a, b.drop_last(), sep, part);
            assert(text::joined(all, sep) == text::joined(a, sep) + sep + text::joined(
                b.drop_last(),
                sep,
            ) + sep + b.last());
            assert(text::joined(all, sep) == text::joined(a, sep) + sep + text::joined(b, sep));
        }
    }
}

proof fn lemma_feed_behind(line: Seq<char>, rest: Seq<char>)
    requires
        !line.contains('\n'),
    ensures
        text::feed_at(line + seq!['\n'] + rest) == line.len(),
        text::feed_at(line) == line.len(),
{
    let all = line + seq!['\n'] + rest;
    text::lemma_feed_at(all);
    text::lemma_feed_at(line);
    assert(all[line.len() as int] == '\n');
    if text::feed_at(all) < line.len() {
        assert(line[text::feed_at(all)] == '\n');
        assert(line.contains('\n'));
    }
    if text::feed_at(line) < line.len() {
        assert(line.contains('\n'));
    }
}

/// A text is cut into lines at its line feeds: what stands before the first is a
/// line, without a carriage return at its end, and the rest follows; what is left
/// without a line feed is a line as it is, if it is not empty.
pub proof fn law_lines_are_cut_at_line_feeds(line: Seq<char>, rest: Seq<char>)
    requires
        !line.contains('\n'),
    ensures
        text::lines_of(line) == if line.len() == 0 {
            Seq::empty()
        } else {
            seq![line]
        },
        !line.contains('\r') ==> {
            &&& text::lines_of(line + seq!['\n'] + rest) == seq![line] + text::lines_of(rest)
            &&& text::lines_of(line + seq!['\r', '\n'] + rest) == seq![line] + text::lines_of(rest)
        },
{
    lemma_feed_behind(line, rest);
    let all = line + seq!['\n'] + rest;
    let n = line.len() as int;
    assert(all.take(n) == line);
    assert(all.skip(n + 1) == rest);
    if !line.contains('\r') {
        if line.len() > 0 {
            assert(line.contains(line.last()));
        }
        let long = line.push('\r');
        assert(!long.contains('\n')) by {
            if long.contains('\n') {
                let i = choose|i: int| 0 <= i < long.len() && long[i] == '\n';
                assert(line[i] == '\n');
            }
        }
        lemma_feed_behind(long, rest);
        let whole = long + seq!['\n'] + rest;
        assert(whole == line + seq!['\r', '\n'] + rest);
        assert(whole.take(n + 1) == long);
        assert(whole.skip(n + 2) == rest);
        assert(long.drop_last() == line);
    }
}

/// Cut at its line feeds alone, a text keeps everything else: what stands before the
/// first is a piece as it is, and so is what is left without one.
pub proof fn law_pieces_are_cut_at_line_feeds(line: Seq<char>, rest: Seq<char>)
    requires
        !line.contains('\n'),
    ensures
        text::pieces(line) == seq![line],
        text::pieces(line + seq!['\n'] + rest) == seq![line] + text::pieces(rest),
{
    lemma_feed_behind(line, rest);
    let all = line + seq!['\n'] + rest;
    let n = line.len() as int;
    assert(all.take(n) == line);
    assert(all.skip(n + 1) == rest);
}

/// The number that a row of digits writes.
pub open spec fn valued(digits: Seq<char>) -> int
    decreases digits.len(),
{
    if digits.len() == 0 {
        0
    } else {
        10 * valued(digits.drop_last()) + (digits.last() as int - '0' as int)
    }
}

/// A number is written in decimal digits that have its value, the first of them a
/// zero only where the number is.
pub proof fn law_a_decimal_has_its_value(n: nat)
    ensures
        valued(text::decimal(n)) == n,
        text::decimal(n).len() > 0,
        forall|i: int|
            0 <= i < text::decimal(n).len() ==> '0' <= #[trigger] text::decimal(n)[i] <= '9',
        text::decimal(n)[0] == '0' ==> n == 0,
    decreases n,
{
    let s = text::decimal(n);
    if n < 10 {
        assert(s.drop_last() =~= Seq::empty());
        assert(valued(s.drop_last()) == 0);
        assert(s.last() == text::digit(n as int));
    } else {
        law_a_decimal_has_its_value(n / 10);
        assert(s.drop_last() == text::decimal(n / 10));
        assert(s.last() == text::digit((n % 10) as int));
        assert(s[0] == text::decimal(n / 10)[0]);
    }
}

} // verus!
