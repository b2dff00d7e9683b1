//! Strings as sequences of characters, and the byte offsets that address them.
//!
//! Contracts speak of a string by its characters. The offsets that callers pass
//! are UTF-8 byte offsets, so this module also relates the two.

use vstd::prelude::*;
use vstd::string::StringExecFns;

pub mod laws;

verus! {

/// `String::push` appends one character.
pub assume_specification[ String::push ](s: &mut String, c: char)
    ensures
        final(s)@ == old(s)@.push(c),
;

/// The characters of `s`, in order.
pub fn chars_of(s: &str) -> (chars: Vec<char>)
    ensures
        chars@ == s@,
{
    let mut chars: Vec<char> = Vec::new();
    for c in it: s.chars()
        invariant
            chars@ == s@.take(it.index()),
            it.seq() == s@,
    {
        chars.push(c);
        assert(s@.take(it.index() + 1) == s@.take(it.index()).push(c));
    }
    assert(s@.take(s@.len() as int) == s@);
    chars
}

/// The string made of the characters `chars[from..to]`.
pub fn from_chars(chars: &Vec<char>, from: usize, to: usize) -> (s: String)
    requires
        from <= to <= chars@.len(),
    ensures
        s@ == chars@.subrange(from as int, to as int),
{
    let mut s = String::new();
    let mut i: usize = from;
    while i < to
        invariant
            from <= i <= to <= chars@.len(),
            s@ == chars@.subrange(from as int, i as int),
        decreases to - i,
    {
        s.push(chars[i]);
        assert(chars@.subrange(from as int, i + 1) == chars@.subrange(from as int, i as int).push(
            chars@[i as int],
        ));
        i += 1;
    }
    s
}

/// Whether two strings hold the same characters.
pub fn text_eq(a: &str, b: &str) -> (same: bool)
    ensures
        same == (a@ == b@),
{
    let x: Vec<char> = chars_of(a);
    let y: Vec<char> = chars_of(b);
    if x.len() != y.len() {
        return false;
    }
    let mut i: usize = 0;
    while i < x.len()
        invariant
            i <= x@.len(),
            x@ == a@,
            y@ == b@,
            x@.len() == y@.len(),
            forall|k: int| 0 <= k < i ==> x@[k] == y@[k],
        decreases x@.len() - i,
    {
        if x[i] != y[i] {
            return false;
        }
        i += 1;
    }
    assert(a@ == b@);
    true
}

// ---------------------------------------------------------------------------
// UTF-8 offsets
// ---------------------------------------------------------------------------

/// How many bytes UTF-8 spends on `c`.
pub open spec fn width(c: char) -> nat {
    if (c as u32) < 0x80 {
        1
    } else if (c as u32) < 0x800 {
        2
    } else if (c as u32) < 0x10000 {
        3
    } else {
        4
    }
}

/// How many bytes UTF-8 spends on `s`.
pub open spec fn utf8_len(s: Seq<char>) -> nat
    decreases s.len(),
{
    if s.len() == 0 {
        0
    } else {
        utf8_len(s.drop_last()) + width(s.last())
    }
}

/// Whether a character of `s`, or its end, begins at byte `offset`.
pub open spec fn on_boundary(s: Seq<char>, offset: int) -> bool {
    exists|k: int| 0 <= k <= s.len() && #[trigger] utf8_len(s.take(k)) == offset
}

/// How many characters of `s` lie before the boundary at byte `offset`.
pub open spec fn chars_before(s: Seq<char>, offset: int) -> int {
    choose|k: int| 0 <= k <= s.len() && #[trigger] utf8_len(s.take(k)) == offset
}

pub proof fn lemma_utf8_len_push(s: Seq<char>, c: char)
    ensures
        utf8_len(s.push(c)) == utf8_len(s) + width(c),
{
    assert(s.push(c).drop_last() == s);
}

pub proof fn lemma_utf8_len_one(c: char)
    ensures
        utf8_len(seq![c]) == width(c),
{
    lemma_utf8_len_push(Seq::empty(), c);
    assert(Seq::<char>::empty().push(c) == seq![c]);
}

pub proof fn lemma_utf8_len_add(a: Seq<char>, b: Seq<char>)
    ensures
        utf8_len(a + b) == utf8_len(a) + utf8_len(b),
    decreases b.len(),
{
    if b.len() == 0 {
        assert(a + b == a);
    } else {
        assert((a + b).drop_last() == a + b.drop_last());
        lemma_utf8_len_add(a, b.drop_last());
    }
}

/// Taking more characters takes more bytes.
pub proof fn lemma_utf8_len_strict(s: Seq<char>, j: int, k: int)
    requires
        0 <= j < k <= s.len(),
    ensures
        utf8_len(s.take(j)) < utf8_len(s.take(k)),
        utf8_len(s.take(j)) + (k - j) <= utf8_len(s.take(k)),
    decreases k - j,
{
    assert(s.take(k).drop_last() == s.take(k - 1));
    if j < k - 1 {
        lemma_utf8_len_strict(s, j, k - 1);
    }
}

/// A boundary has exactly one number of characters before it.
pub proof fn lemma_chars_before(s: Seq<char>, k: int)
    requires
        0 <= k <= s.len(),
    ensures
        on_boundary(s, utf8_len(s.take(k)) as int),
        chars_before(s, utf8_len(s.take(k)) as int) == k,
{
    let offset = utf8_len(s.take(k)) as int;
    assert(on_boundary(s, offset));
    let other = chars_before(s, offset);
    if other < k {
        lemma_utf8_len_strict(s, other, k);
    } else if k < other {
        lemma_utf8_len_strict(s, k, other);
    }
}

proof fn lemma_encode_scalar_len(c: char)
    ensures
        vstd::utf8::encode_scalar(c as u32).len() == width(c),
{
}

/// The length of the encoding is the sum of the widths.
pub proof fn lemma_encode_len(s: Seq<char>)
    ensures
        vstd::utf8::encode_utf8(s).len() == utf8_len(s),
    decreases s.len(),
{
    if s.len() > 0 {
        let head = seq![s[0]];
        assert(head + s.drop_first() == s);
        lemma_utf8_len_add(head, s.drop_first());
        lemma_utf8_len_one(s[0]);
        lemma_encode_len(s.drop_first());
        lemma_encode_scalar_len(s[0]);
    }
}

/// Encoding distributes over concatenation.
pub proof fn lemma_encode_add(a: Seq<char>, b: Seq<char>)
    ensures
        vstd::utf8::encode_utf8(a + b) == vstd::utf8::encode_utf8(a) + vstd::utf8::encode_utf8(b),
    decreases a.len(),
{
    if a.len() == 0 {
        assert(a + b == b);
        assert(vstd::utf8::encode_utf8(a) + vstd::utf8::encode_utf8(b)
            == vstd::utf8::encode_utf8(b));
    } else {
        assert((a + b).drop_first() == a.drop_first() + b);
        lemma_encode_add(a.drop_first(), b);
    }
}

/// Two strings with the same encoding are the same string.
pub proof fn lemma_encode_injective(a: Seq<char>, b: Seq<char>)
    requires
        vstd::utf8::encode_utf8(a) == vstd::utf8::encode_utf8(b),
    ensures
        a == b,
{
    vstd::utf8::encode_utf8_decode_utf8(a);
    vstd::utf8::encode_utf8_decode_utf8(b);
}

/// The boundaries of the encoding are the offsets at which characters begin.
pub proof fn lemma_boundary(s: Seq<char>, offset: int)
    ensures
        vstd::utf8::is_char_boundary(vstd::utf8::encode_utf8(s), offset) == on_boundary(s, offset),
    decreases s.len(),
{
    let bytes = vstd::utf8::encode_utf8(s);
    vstd::utf8::encode_utf8_valid_utf8(s);
    lemma_encode_len(s);
    assert(s.take(0).len() == 0);
    assert(utf8_len(s.take(0)) == 0);
    assert(s.take(s.len() as int) == s);
    if offset == 0 {
        assert(on_boundary(s, offset));
    } else if offset < 0 || bytes.len() < offset {
        assert forall|k: int| 0 <= k <= s.len() implies #[trigger] utf8_len(s.take(k))
            != offset by {
            if k < s.len() {
                lemma_utf8_len_strict(s, k, s.len() as int);
            }
        }
    } else {
        let rest = s.drop_first();
        vstd::utf8::encode_utf8_first_scalar(s);
        lemma_encode_scalar_len(s[0]);
        assert(vstd::utf8::pop_first_scalar(bytes) == vstd::utf8::encode_utf8(rest));
        let next = offset - width(s[0]);
        lemma_boundary(rest, next);
        let head = seq![s[0]];
        lemma_utf8_len_one(s[0]);
        assert forall|k: int| 0 < k <= s.len() implies #[trigger] utf8_len(s.take(k)) == utf8_len(
            rest.take(k - 1),
        ) + width(s[0]) by {
            assert(s.take(k) == head + rest.take(k - 1));
            lemma_utf8_len_add(head, rest.take(k - 1));
        }
        if on_boundary(s, offset) {
            let k = chars_before(s, offset);
            assert(utf8_len(rest.take(k - 1)) == next);
        }
        if on_boundary(rest, next) {
            let k = chars_before(rest, next);
            assert(utf8_len(s.take(k + 1)) == offset);
        }
    }
}

/// The length of `s` in bytes.
pub fn byte_len(s: &str) -> (n: usize)
    ensures
        n == utf8_len(s@),
{
    let n: usize = s.as_bytes().len();
    proof {
        lemma_encode_len(s@);
    }
    n
}

/// How many bytes UTF-8 spends on `c`.
pub fn char_width(c: char) -> (n: usize)
    ensures
        n == width(c),
{
    let code: u32 = c as u32;
    if code < 0x80 {
        1
    } else if code < 0x800 {
        2
    } else if code < 0x10000 {
        3
    } else {
        4
    }
}

/// The byte offset at which character `k` begins.
pub fn byte_offset(chars: &Vec<char>, k: usize) -> (offset: usize)
    requires
        k <= chars@.len(),
        utf8_len(chars@) <= usize::MAX,
    ensures
        offset == utf8_len(chars@.take(k as int)),
        on_boundary(chars@, offset as int),
        chars_before(chars@, offset as int) == k,
        offset <= utf8_len(chars@),
{
    let mut offset: usize = 0;
    let mut i: usize = 0;
    assert(chars@.take(0) == Seq::<char>::empty());
    while i < k
        invariant
            i <= k <= chars@.len(),
            utf8_len(chars@) <= usize::MAX,
            offset == utf8_len(chars@.take(i as int)),
        decreases k - i,
    {
        proof {
            lemma_utf8_len_next(chars@, i as int);
        }
        offset = offset + char_width(chars[i]);
        i += 1;
    }
    proof {
        lemma_take_fits(chars@, k as int);
        lemma_chars_before(chars@, k as int);
    }
    offset
}

/// One more character adds its width.
pub proof fn lemma_utf8_len_next(s: Seq<char>, k: int)
    requires
        0 <= k < s.len(),
    ensures
        utf8_len(s.take(k + 1)) == utf8_len(s.take(k)) + width(s[k]),
        utf8_len(s.take(k + 1)) <= utf8_len(s),
{
    assert(s.take(k + 1).drop_last() == s.take(k));
    lemma_take_fits(s, k + 1);
}

pub proof fn lemma_take_fits(s: Seq<char>, k: int)
    requires
        0 <= k <= s.len(),
    ensures
        utf8_len(s.take(k)) <= utf8_len(s),
{
    assert(s.take(s.len() as int) == s);
    if k < s.len() {
        lemma_utf8_len_strict(s, k, s.len() as int);
    }
}

/// Whether a character of `s`, or its end, begins at byte `offset`.
pub fn is_boundary(s: &str, offset: usize) -> (yes: bool)
    ensures
        yes == on_boundary(s@, offset as int),
{
    proof {
        lemma_boundary(s@, offset as int);
    }
    s.is_char_boundary(offset)
}

/// The two halves of `s` at the boundary `mid`.
fn halves(s: &str, mid: usize) -> (res: (&str, &str))
    requires
        on_boundary(s@, mid as int),
    ensures
        res.0@ == s@.take(chars_before(s@, mid as int)),
        res.1@ == s@.skip(chars_before(s@, mid as int)),
{
    proof {
        lemma_boundary(s@, mid as int);
    }
    let res = s.split_at(mid);
    proof {
        let k = chars_before(s@, mid as int);
        lemma_encode_len(s@.take(k));
        lemma_encode_add(s@.take(k), s@.skip(k));
        assert(s@.take(k) + s@.skip(k) == s@);
        let bytes = vstd::utf8::encode_utf8(s@);
        assert(bytes.subrange(0, mid as int) == vstd::utf8::encode_utf8(s@.take(k)));
        assert(bytes.subrange(mid as int, bytes.len() as int) == vstd::utf8::encode_utf8(
            s@.skip(k),
        ));
        lemma_encode_injective(res.0@, s@.take(k));
        lemma_encode_injective(res.1@, s@.skip(k));
    }
    res
}

/// The characters of `s` between the byte offsets `from` and `to`.
pub fn slice(s: &str, from: usize, to: usize) -> (part: String)
    requires
        from <= to,
        on_boundary(s@, from as int),
        on_boundary(s@, to as int),
    ensures
        part@ == s@.subrange(chars_before(s@, from as int), chars_before(s@, to as int)),
        chars_before(s@, from as int) <= chars_before(s@, to as int),
{
    let ghost i = chars_before(s@, from as int);
    let ghost j = chars_before(s@, to as int);
    let (head, _) = halves(s, to);
    proof {
        if j < i {
            lemma_utf8_len_strict(s@, j, i);
        }
        assert(head@.take(i) == s@.take(i));
        lemma_chars_before(head@, i);
    }
    let (_, part) = halves(head, from);
    assert(part@ == s@.subrange(i, j));
    part.to_owned()
}

// ---------------------------------------------------------------------------
// Joining
// ---------------------------------------------------------------------------

/// `parts` in order, with `sep` between each two of them.
pub open spec fn joined(parts: Seq<Seq<char>>, sep: Seq<char>) -> Seq<char>
    decreases parts.len(),
{
    if parts.len() == 0 {
        Seq::empty()
    } else if parts.len() == 1 {
        parts[0]
    } else {
        joined(parts.drop_last(), sep) + sep + parts.last()
    }
}

/// Joining from the front.
pub proof fn lemma_joined_first(parts: Seq<Seq<char>>, sep: Seq<char>)
    requires
        parts.len() > 1,
    ensures
        joined(parts, sep) == parts[0] + sep + joined(parts.drop_first(), sep),
    decreases parts.len(),
{
    let rest = parts.drop_first();
    if parts.len() == 2 {
        reveal_with_fuel(joined, 2);
        assert(joined(parts, sep) == parts[0] + sep + parts[1]);
    } else {
        lemma_joined_first(parts.drop_last(), sep);
        assert(parts.drop_last().drop_first() == rest.drop_last());
        let mid = joined(rest.drop_last(), sep);
        assert((parts[0] + sep + mid) + sep + parts.last() == parts[0] + sep + (mid + sep
            + parts.last()));
    }
}

/// The characters of each string.
pub open spec fn views(strings: Seq<String>) -> Seq<Seq<char>> {
    Seq::new(strings.len(), |i: int| strings[i]@)
}

/// `parts` in order, with `sep` between each two of them.
pub fn join(parts: &Vec<String>, sep: &str) -> (s: String)
    ensures
        s@ == joined(views(parts@), sep@),
{
    let mut s = String::new();
    let mut i: usize = 0;
    while i < parts.len()
        invariant
            i <= parts@.len(),
            s@ == joined(views(parts@).take(i as int), sep@),
        decreases parts@.len() - i,
    {
        if i > 0 {
            s.append(sep);
        }
        s.append(parts[i].as_str());
        proof {
            let now = views(parts@).take(i + 1);
            assert(now.drop_last() == views(parts@).take(i as int));
            assert(now.last() == parts@[i as int]@);
        }
        i += 1;
    }
    assert(views(parts@).take(i as int) == views(parts@));
    s
}

// ---------------------------------------------------------------------------
// Comparing with a literal
// ---------------------------------------------------------------------------

/// Whether `s` begins with `prefix`.
pub open spec fn begins_with(s: Seq<char>, prefix: Seq<char>) -> bool {
    prefix.len() <= s.len() && s.take(prefix.len() as int) == prefix
}

/// Whether `chars` begins with `prefix`.
pub fn starts_with(chars: &Vec<char>, prefix: &str) -> (yes: bool)
    ensures
        yes == begins_with(chars@, prefix@),
{
    let p: Vec<char> = chars_of(prefix);
    if p.len() > chars.len() {
        return false;
    }
    let mut i: usize = 0;
    while i < p.len()
        invariant
            i <= p@.len() <= chars@.len(),
            p@ == prefix@,
            forall|k: int| 0 <= k < i ==> chars@[k] == p@[k],
        decreases p@.len() - i,
    {
        if chars[i] != p[i] {
            assert(chars@.take(p@.len() as int)[i as int] != prefix@[i as int]);
            return false;
        }
        i += 1;
    }
    assert(chars@.take(p@.len() as int) == prefix@);
    true
}

// ---------------------------------------------------------------------------
// White space
// ---------------------------------------------------------------------------

/// Whether `c` has Unicode's `White_Space` property.
pub open spec fn is_white(c: char) -> bool {
    let u = c as u32;
    ||| 0x9 <= u <= 0xd
    ||| u == 0x20
    ||| u == 0x85
    ||| u == 0xa0
    ||| u == 0x1680
    ||| 0x2000 <= u <= 0x200a
    ||| u == 0x2028
    ||| u == 0x2029
    ||| u == 0x202f
    ||| u == 0x205f
    ||| u == 0x3000
}

/// Whether `c` has Unicode's `White_Space` property.
pub fn white(c: char) -> (yes: bool)
    ensures
        yes == is_white(c),
{
    let u: u32 = c as u32;
    (0x9 <= u && u <= 0xd) || u == 0x20 || u == 0x85 || u == 0xa0 || u == 0x1680 || (0x2000 <= u
        && u <= 0x200a) || u == 0x2028 || u == 0x2029 || u == 0x202f || u == 0x205f || u == 0x3000
}

/// `s` without the white space in front.
pub open spec fn trimmed_start(s: Seq<char>) -> Seq<char>
    decreases s.len(),
{
    if s.len() > 0 && is_white(s[0]) {
        trimmed_start(s.drop_first())
    } else {
        s
    }
}

/// `s` without the white space at the end.
pub open spec fn trimmed_end(s: Seq<char>) -> Seq<char>
    decreases s.len(),
{
    if s.len() > 0 && is_white(s.last()) {
        trimmed_end(s.drop_last())
    } else {
        s
    }
}

/// `s` without the white space around it.
pub open spec fn trimmed(s: Seq<char>) -> Seq<char> {
    trimmed_end(trimmed_start(s))
}

/// `s` without the white space around it.
pub fn trim(s: &str) -> (t: String)
    ensures
        t@ == trimmed(s@),
{
    let chars: Vec<char> = chars_of(s);
    let n: usize = chars.len();
    let mut from: usize = 0;
    assert(s@.skip(0) == s@);
    while from < n && white(chars[from])
        invariant
            n == chars@.len(),
            chars@ == s@,
            from <= n,
            trimmed_start(s@) == trimmed_start(s@.skip(from as int)),
        decreases n - from,
    {
        assert(s@.skip(from as int).drop_first() == s@.skip(from + 1));
        from += 1;
    }
    let mut to: usize = n;
    let ghost front = s@.skip(from as int);
    assert(trimmed_start(s@) == front);
    assert(s@.subrange(from as int, to as int) == front);
    while from < to && white(chars[to - 1])
        invariant
            n == chars@.len(),
            chars@ == s@,
            from <= to <= n,
            trimmed_end(front) == trimmed_end(s@.subrange(from as int, to as int)),
        decreases to - from,
    {
        assert(s@.subrange(from as int, to as int).drop_last() == s@.subrange(
            from as int,
            to - 1,
        ));
        to -= 1;
    }
    from_chars(&chars, from, to)
}

pub proof fn lemma_trimmed(s: Seq<char>)
    ensures
        trimmed(trimmed(s)) == trimmed(s),
        forall|c: char| trimmed(s).contains(c) ==> s.contains(c),
{
    lemma_trimmed_start(s);
    let t = trimmed_start(s);
    lemma_trimmed_end(t);
    let u = trimmed_end(t);
    if u.len() > 0 {
        assert(u[0] == t[0]);
    }
    assert forall|c: char| u.contains(c) implies s.contains(c) by {
        let k = u.index_of(c);
        assert(t[k] == c);
        assert(t.contains(c));
    }
}

proof fn lemma_trimmed_start(s: Seq<char>)
    ensures
        trimmed_start(s).len() > 0 ==> !is_white(trimmed_start(s)[0]),
        forall|c: char| #[trigger] trimmed_start(s).contains(c) ==> s.contains(c),
    decreases s.len(),
{
    if s.len() > 0 && is_white(s[0]) {
        let rest = s.drop_first();
        lemma_trimmed_start(rest);
        assert forall|c: char| #[trigger] trimmed_start(s).contains(c) implies s.contains(c) by {
            assert(rest.contains(c));
            let k = rest.index_of(c);
            assert(s[k + 1] == c);
        }
    }
}

proof fn lemma_trimmed_end(s: Seq<char>)
    ensures
        trimmed_end(s).len() <= s.len(),
        trimmed_end(s).len() > 0 ==> !is_white(trimmed_end(s).last()),
        forall|k: int| 0 <= k < trimmed_end(s).len() ==> #[trigger] trimmed_end(s)[k] == s[k],
    decreases s.len(),
{
    if s.len() > 0 && is_white(s.last()) {
        let front = s.drop_last();
        lemma_trimmed_end(front);
        assert forall|k: int| 0 <= k < trimmed_end(s).len() implies #[trigger] trimmed_end(s)[k]
            == s[k] by {
            assert(trimmed_end(front)[k] == front[k]);
        }
    }
}

// ---------------------------------------------------------------------------
// Lines
// ---------------------------------------------------------------------------

/// Where the first line feed of `s` stands, or the length of `s`.
pub open spec fn feed_at(s: Seq<char>) -> int
    decreases s.len(),
{
    if s.len() == 0 || s[0] == '\n' {
        0
    } else {
        1 + feed_at(s.drop_first())
    }
}

/// `line` without a carriage return at its end.
pub open spec fn chomped(line: Seq<char>) -> Seq<char> {
    if line.len() > 0 && line.last() == '\r' {
        line.drop_last()
    } else {
        line
    }
}

/// The lines of `s`: they end in a line feed, before which one carriage return
/// belongs to the line ending; what follows the last line feed is a line where it
/// is not empty.
pub open spec fn lines_of(s: Seq<char>) -> Seq<Seq<char>>
    decreases s.len(),
{
    if s.len() == 0 {
        Seq::empty()
    } else {
        let i = feed_at(s);
        if 0 <= i < s.len() {
            seq![chomped(s.take(i))] + lines_of(s.skip(i + 1))
        } else {
            seq![s]
        }
    }
}

pub proof fn lemma_feed_at(s: Seq<char>)
    ensures
        0 <= feed_at(s) <= s.len(),
        feed_at(s) < s.len() ==> s[feed_at(s)] == '\n',
        forall|k: int| 0 <= k < feed_at(s) ==> s[k] != '\n',
    decreases s.len(),
{
    if s.len() > 0 && s[0] != '\n' {
        let rest = s.drop_first();
        lemma_feed_at(rest);
        assert forall|k: int| 0 <= k < feed_at(s) implies s[k] != '\n' by {
            if k > 0 {
                assert(rest[k - 1] == s[k]);
            }
        }
    }
}

/// What stands between the line feeds of `s`.
pub open spec fn pieces(s: Seq<char>) -> Seq<Seq<char>>
    decreases s.len(),
{
    let i = feed_at(s);
    if 0 <= i < s.len() {
        seq![s.take(i)] + pieces(s.skip(i + 1))
    } else {
        seq![s]
    }
}

pub proof fn lemma_pieces(s: Seq<char>)
    ensures
        pieces(s).len() > 0,
        joined(pieces(s), seq!['\n']) == s,
        forall|k: int| 0 <= k < pieces(s).len() ==> !(#[trigger] pieces(s)[k]).contains('\n'),
    decreases s.len(),
{
    lemma_feed_at(s);
    let i = feed_at(s);
    let all = pieces(s);
    if i < s.len() {
        let rest = pieces(s.skip(i + 1));
        lemma_pieces(s.skip(i + 1));
        assert(all.drop_first() == rest);
        lemma_joined_first(all, seq!['\n']);
        assert(s.take(i) + seq!['\n'] + s.skip(i + 1) == s);
        assert forall|k: int| 0 <= k < all.len() implies !(#[trigger] all[k]).contains('\n') by {
            if k > 0 {
                assert(all[k] == rest[k - 1]);
            }
        }
    } else {
        assert(all == seq![s]);
        assert(!s.contains('\n'));
    }
}

/// A line feed behind `a` is the first of what begins with both.
pub proof fn lemma_feed_behind(a: Seq<char>, b: Seq<char>)
    requires
        !a.contains('\n'),
    ensures
        feed_at(a + seq!['\n'] + b) == a.len(),
        feed_at(a) == a.len(),
    decreases a.len(),
{
    let s = a + seq!['\n'] + b;
    if a.len() > 0 {
        assert(a.contains(a[0]));
        let rest = a.drop_first();
        assert(!rest.contains('\n')) by {
            if rest.contains('\n') {
                let k = rest.index_of('\n');
                assert(a[k + 1] == '\n');
            }
        }
        lemma_feed_behind(rest, b);
        assert(s.drop_first() == rest + seq!['\n'] + b);
    }
}

/// Lines without line feeds, joined and cut again.
pub proof fn lemma_pieces_of_joined(parts: Seq<Seq<char>>)
    requires
        parts.len() > 0,
        forall|k: int| 0 <= k < parts.len() ==> !(#[trigger] parts[k]).contains('\n'),
    ensures
        pieces(joined(parts, seq!['\n'])) == parts,
    decreases parts.len(),
{
    let s = joined(parts, seq!['\n']);
    if parts.len() == 1 {
        lemma_feed_behind(parts[0], Seq::empty());
        assert(pieces(s) == parts);
    } else {
        let rest = parts.drop_first();
        lemma_joined_first(parts, seq!['\n']);
        assert forall|k: int| 0 <= k < rest.len() implies !(#[trigger] rest[k]).contains('\n') by {
            assert(rest[k] == parts[k + 1]);
        }
        lemma_pieces_of_joined(rest);
        let tail = joined(rest, seq!['\n']);
        lemma_feed_behind(parts[0], tail);
        let i = parts[0].len() as int;
        assert(s.take(i) == parts[0]);
        assert(s.skip(i + 1) == tail);
        assert(pieces(s) == parts);
    }
}

/// No line holds a line feed.
pub proof fn lemma_lines_hold_no_feed(s: Seq<char>)
    ensures
        forall|k: int| 0 <= k < lines_of(s).len() ==> !(#[trigger] lines_of(s)[k]).contains('\n'),
    decreases s.len(),
{
    if s.len() > 0 {
        lemma_feed_at(s);
        let i = feed_at(s);
        let all = lines_of(s);
        if i < s.len() {
            let rest = lines_of(s.skip(i + 1));
            lemma_lines_hold_no_feed(s.skip(i + 1));
            assert forall|k: int| 0 <= k < all.len() implies !(#[trigger] all[k]).contains(
                '\n',
            ) by {
                if k > 0 {
                    assert(all[k] == rest[k - 1]);
                } else if all[0].contains('\n') {
                    let j = all[0].index_of('\n');
                    assert(s[j] == '\n');
                }
            }
        } else {
            assert(all == seq![s]);
            assert(!s.contains('\n'));
        }
    }
}

/// Where the first line feed of `chars[from..]` stands, or the number of `chars`.
fn next_feed(chars: &Vec<char>, from: usize) -> (at: usize)
    requires
        from <= chars@.len(),
    ensures
        from <= at <= chars@.len(),
        at == from + feed_at(chars@.skip(from as int)),
{
    let mut at: usize = from;
    while at < chars.len() && chars[at] != '\n'
        invariant
            from <= at <= chars@.len(),
            feed_at(chars@.skip(from as int)) == (at - from) + feed_at(chars@.skip(at as int)),
        decreases chars@.len() - at,
    {
        let ghost rest = chars@.skip(at as int);
        assert(rest[0] == chars@[at as int]);
        assert(rest.drop_first() == chars@.skip(at + 1));
        at += 1;
    }
    assert(feed_at(chars@.skip(at as int)) == 0) by {
        if at < chars@.len() {
            assert(chars@.skip(at as int)[0] == chars@[at as int]);
        }
    }
    at
}

/// The lines of `s`.
pub fn lines(s: &str) -> (out: Vec<String>)
    ensures
        views(out@) == lines_of(s@),
{
    let chars: Vec<char> = chars_of(s);
    let n: usize = chars.len();
    let mut out: Vec<String> = Vec::new();
    let mut start: usize = 0;
    proof {
        assert(s@.skip(0) == s@);
        assert(views(out@) + lines_of(s@) == lines_of(s@));
    }
    while start < n
        invariant
            n == chars@.len(),
            chars@ == s@,
            start <= n,
            lines_of(s@) == views(out@) + lines_of(s@.skip(start as int)),
        decreases n - start,
    {
        let at: usize = next_feed(&chars, start);
        let end: usize = if at < n && start < at && chars[at - 1] == '\r' {
            at - 1
        } else {
            at
        };
        let ghost before = views(out@);
        let line = from_chars(&chars, start, end);
        out.push(line);
        let next: usize = if at < n {
            at + 1
        } else {
            n
        };
        proof {
            let rest = s@.skip(start as int);
            let i = at - start;
            let tail = lines_of(s@.skip(next as int));
            assert(views(out@) == before.push(line@));
            if at < n {
                let piece = rest.take(i);
                assert(piece == s@.subrange(start as int, at as int));
                if start < at {
                    assert(piece.last() == s@[at - 1]);
                    assert(piece.drop_last() == s@.subrange(start as int, at - 1));
                }
                assert(line@ == chomped(piece));
                assert(rest.skip(i + 1) == s@.skip(next as int));
            } else {
                assert(line@ == rest);
                assert(s@.skip(next as int).len() == 0);
            }
            assert(lines_of(rest) == seq![line@] + tail);
            assert(before + (seq![line@] + tail) == views(out@) + tail);
        }
        start = next;
    }
    proof {
        assert(s@.skip(start as int).len() == 0);
        assert(views(out@) + Seq::<Seq<char>>::empty() == views(out@));
    }
    out
}

/// What stands between the line feeds of `s`.
pub fn cut_at_feeds(s: &str) -> (out: Vec<String>)
    ensures
        views(out@) == pieces(s@),
{
    let chars: Vec<char> = chars_of(s);
    let n: usize = chars.len();
    let mut out: Vec<String> = Vec::new();
    let mut start: usize = 0;
    let mut at: usize = next_feed(&chars, 0);
    proof {
        assert(s@.skip(0) == s@);
        assert(views(out@) + pieces(s@) == pieces(s@));
    }
    while at < n
        invariant
            n == chars@.len(),
            chars@ == s@,
            start <= at <= n,
            at == start + feed_at(s@.skip(start as int)),
            pieces(s@) == views(out@) + pieces(s@.skip(start as int)),
        decreases n - at,
    {
        let ghost before = views(out@);
        let piece = from_chars(&chars, start, at);
        out.push(piece);
        proof {
            let rest = s@.skip(start as int);
            let i = at - start;
            let tail = pieces(s@.skip(at + 1));
            assert(rest.take(i) == s@.subrange(start as int, at as int));
            assert(rest.skip(i + 1) == s@.skip(at + 1));
            assert(pieces(rest) == seq![piece@] + tail);
            assert(views(out@) == before.push(piece@));
            assert(before + (seq![piece@] + tail) == views(out@) + tail);
        }
        start = at + 1;
        at = next_feed(&chars, start);
    }
    let ghost before = views(out@);
    let piece = from_chars(&chars, start, n);
    out.push(piece);
    proof {
        assert(piece@ == s@.skip(start as int));
        assert(pieces(s@.skip(start as int)) == seq![piece@]);
        assert(views(out@) == before.push(piece@));
        assert(before + seq![piece@] == before.push(piece@));
    }
    out
}

/// A line before a line feed: one that ends in a carriage return gets another,
/// which then is the one that belongs to the line ending.
pub open spec fn guarded(line: Seq<char>) -> Seq<char> {
    if line.len() > 0 && line.last() == '\r' {
        line.push('\r')
    } else {
        line
    }
}

/// The text that has the given lines, without a line ending behind the last one.
pub open spec fn written(lines: Seq<Seq<char>>) -> Seq<char>
    decreases lines.len(),
{
    if lines.len() == 0 {
        Seq::empty()
    } else if lines.len() == 1 {
        lines[0]
    } else {
        guarded(lines[0]) + seq!['\n'] + written(lines.drop_first())
    }
}

/// Writes the text that has the given lines.
pub fn write_lines(lines: &Vec<String>) -> (out: String)
    ensures
        out@ == written(views(lines@)),
{
    let mut out = String::new();
    let ghost all = views(lines@);
    let mut i: usize = 0;
    proof {
        assert(all.skip(0) == all);
        assert(out@ + written(all) == written(all));
    }
    while i < lines.len()
        invariant
            i <= lines@.len(),
            all == views(lines@),
            written(all) == out@ + written(all.skip(i as int)),
        decreases lines@.len() - i,
    {
        let ghost before = out@;
        let ghost rest = all.skip(i as int);
        let line = lines[i].as_str();
        out.append(line);
        proof {
            assert(rest[0] == line@);
            assert(rest.drop_first() == all.skip(i + 1));
        }
        if i + 1 < lines.len() {
            let n = line.unicode_len();
            if n > 0 && line.get_char(n - 1) == '\r' {
                out.push('\r');
            }
            out.push('\n');
            let ghost tail = written(all.skip(i + 1));
            assert(out@ == before + (guarded(line@) + seq!['\n']));
            assert(before + (guarded(line@) + seq!['\n'] + tail) == out@ + tail);
        } else {
            assert(all.skip(i + 1).len() == 0);
            assert(before + line@ + Seq::<char>::empty() == before + line@);
        }
        i += 1;
    }
    assert(all.skip(i as int).len() == 0);
    assert(out@ + Seq::<char>::empty() == out@);
    out
}

/// Lines are found again in the text that was written of them, if the last one is
/// not empty.
pub proof fn lemma_lines_of_written(lines: Seq<Seq<char>>)
    requires
        forall|k: int| 0 <= k < lines.len() ==> !(#[trigger] lines[k]).contains('\n'),
        lines.len() > 0 ==> lines.last().len() > 0,
    ensures
        lines_of(written(lines)) == lines,
    decreases lines.len(),
{
    let s = written(lines);
    if lines.len() == 1 {
        assert(!lines[0].contains('\n'));
        lemma_feed_behind(lines[0], Seq::empty());
        assert(lines_of(s) == lines);
    } else if lines.len() > 1 {
        let rest = lines.drop_first();
        assert forall|k: int| 0 <= k < rest.len() implies !(#[trigger] rest[k]).contains('\n') by {
            assert(rest[k] == lines[k + 1]);
        }
        assert(rest.last() == lines.last());
        lemma_lines_of_written(rest);
        let tail = written(rest);
        let first = guarded(lines[0]);
        assert(!lines[0].contains('\n'));
        assert(!first.contains('\n')) by {
            if first.contains('\n') {
                let k = first.index_of('\n');
                assert(lines[0][k] == '\n');
            }
        }
        lemma_feed_behind(first, tail);
        let i = first.len() as int;
        assert(s.take(i) == first);
        assert(s.skip(i + 1) == tail);
        assert(chomped(first) == lines[0]);
        assert(seq![lines[0]] + rest == lines);
    }
}

/// A text ends as its last line does.
pub proof fn lemma_written_last(lines: Seq<Seq<char>>)
    requires
        lines.len() > 0 ==> lines.last().len() > 0,
    ensures
        written(lines).len() > 0 <==> lines.len() > 0,
        lines.len() > 0 ==> written(lines).last() == lines.last().last(),
    decreases lines.len(),
{
    if lines.len() > 1 {
        let rest = lines.drop_first();
        assert(rest.last() == lines.last());
        lemma_written_last(rest);
        assert(written(lines).last() == written(rest).last());
    }
}

/// A text of lines none of which ends in a carriage return is the lines joined by
/// line feeds.
pub proof fn lemma_written_is_joined(lines: Seq<Seq<char>>)
    requires
        forall|k: int|
            0 <= k < lines.len() - 1 ==> chomped(#[trigger] lines[k]) == lines[k],
    ensures
        written(lines) == joined(lines, seq!['\n']),
    decreases lines.len(),
{
    if lines.len() > 1 {
        let rest = lines.drop_first();
        assert forall|k: int| 0 <= k < rest.len() - 1 implies chomped(#[trigger] rest[k])
            == rest[k] by {
            assert(rest[k] == lines[k + 1]);
        }
        lemma_written_is_joined(rest);
        lemma_joined_first(lines, seq!['\n']);
        assert(chomped(lines[0]) == lines[0]);
    }
}

// ---------------------------------------------------------------------------
// Numbers
// ---------------------------------------------------------------------------

/// The decimal digit of `d`.
pub open spec fn digit(d: int) -> char {
    (48 + d) as char
}

/// The decimal digits of `n`.
pub open spec fn decimal(n: nat) -> Seq<char>
    decreases n,
{
    if n < 10 {
        seq![digit(n as int)]
    } else {
        decimal(n / 10).push(digit((n % 10) as int))
    }
}

fn digit_char(d: u64) -> (c: char)
    requires
        d < 10,
    ensures
        c == digit(d as int),
{
    let c: char = (48u8 + d as u8) as char;
    c
}

/// The decimal digits of `n`.
pub fn decimal_string(n: u64) -> (s: String)
    ensures
        s@ == decimal(n as nat),
    decreases n,
{
    if n < 10 {
        let mut s = String::new();
        s.push(digit_char(n));
        assert(s@ == seq![digit(n as int)]);
        s
    } else {
        let mut s = decimal_string(n / 10);
        s.push(digit_char(n % 10));
        s
    }
}

} // verus!
