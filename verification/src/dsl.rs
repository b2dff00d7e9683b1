//! A line-oriented syntax for rich text, parsed to and serialized from
//! [`Document`], with a renderer to semantic HTML.
//!
//! A document is a sequence of blocks, one per line but for code blocks. Each
//! block begins with a sigil at the very start of the line:
//!
//! | Block | Syntax | Example |
//! |-------|--------|---------|
//! | paragraph | `: ` + text | `: Hello world.` |
//! | heading | `#` + level digit `1`–`6` + ` ` + text | `#2 A subsection` |
//! | list item | `- ` + text | `- first point` |
//! | quote | `> ` + text | `> to be or not` |
//! | code block | ` ``` ` + optional lang, body lines, closing ` ``` ` | |
//!
//! A block without text is its bare sigil. Blank lines between blocks are
//! ignored. In prose a backslash is written `\\` and a line feed `\n`; a
//! backslash before anything else is an error.
//!
//! Every document can be written, and is read back as it was:
//!
//! - A line of code that is itself a closing fence, or one behind backslashes, is
//!   written with one backslash more in front of it.
//! - A language that would not come back as it is (an empty one, one with white
//!   space around it, one with a line feed in it) is written between two
//!   backslashes, and escaped as prose is.
//! - Behind a line that ends in a carriage return the line ending is a carriage
//!   return and a line feed, so that the line keeps its own.

use crate::content;
use crate::content::{Author, AuthorId, Block, BlockView, Document, RichText, Runs};
use crate::text;
use vstd::prelude::*;
use vstd::string::StringExecFns;

pub mod html;
pub mod laws;
pub mod syntax;

pub use self::html::render_html;

verus! {

/// The error returned when [`parse`] cannot interpret its input as a valid
/// document. The payload is a 1-based line number.
#[derive(Debug, Clone, Copy, PartialEq, Eq, Structural)]
#[non_exhaustive]
pub enum DslError {
    /// A line did not start with any known block sigil.
    UnknownBlock(usize),
    /// A heading sigil `#` was not followed by a single level digit `1`–`6`
    /// and a space.
    BadHeadingLevel(usize),
    /// A code fence was opened but the input ended before a closing fence was
    /// found. The payload is the line of the opening fence.
    UnterminatedCode(usize),
    /// An inline backslash escape was malformed.
    BadEscape(usize),
}

impl DslError {
    /// What the error says.
    pub open spec fn says(self) -> Seq<char> {
        match self {
            DslError::UnknownBlock(n) => "line "@ + text::decimal(n as nat)
                + ": unrecognized block syntax (no known sigil)"@,
            DslError::BadHeadingLevel(n) => "line "@ + text::decimal(n as nat)
                + ": heading level must be a digit 1-6 followed by a space"@,
            DslError::UnterminatedCode(n) => "line "@ + text::decimal(n as nat)
                + ": unterminated code block (missing closing ```)"@,
            DslError::BadEscape(n) => "line "@ + text::decimal(n as nat)
                + ": invalid '\\' escape (expected '\\\\' or '\\n')"@,
        }
    }

    /// What the error says.
    pub fn message(&self) -> (s: String)
        ensures
            s@ == self.says(),
    {
        let mut s = "line ".to_owned();
        match self {
            DslError::UnknownBlock(n) => {
                s.append(text::decimal_string(*n as u64).as_str());
                s.append(": unrecognized block syntax (no known sigil)");
            },
            DslError::BadHeadingLevel(n) => {
                s.append(text::decimal_string(*n as u64).as_str());
                s.append(": heading level must be a digit 1-6 followed by a space");
            },
            DslError::UnterminatedCode(n) => {
                s.append(text::decimal_string(*n as u64).as_str());
                s.append(": unterminated code block (missing closing ```)");
            },
            DslError::BadEscape(n) => {
                s.append(text::decimal_string(*n as u64).as_str());
                s.append(": invalid '\\' escape (expected '\\\\' or '\\n')");
            },
        }
        s
    }
}

// ---------------------------------------------------------------------------
// Inline escapes
// ---------------------------------------------------------------------------

/// How one character of prose is written.
pub open spec fn escaped_char(c: char) -> Seq<char> {
    if c == '\\' {
        seq!['\\', '\\']
    } else if c == '\n' {
        seq!['\\', 'n']
    } else {
        seq![c]
    }
}

/// How prose is written on a line.
pub open spec fn escaped(s: Seq<char>) -> Seq<char>
    decreases s.len(),
{
    if s.len() == 0 {
        Seq::empty()
    } else {
        escaped(s.drop_last()) + escaped_char(s.last())
    }
}

/// `tail`, if there is one, behind `head`.
pub open spec fn prepended(head: Seq<char>, tail: Option<Seq<char>>) -> Option<Seq<char>> {
    match tail {
        Some(tail) => Some(head + tail),
        None => None,
    }
}

/// What prose a stretch of a line denotes; none where a backslash is followed by
/// something else than a backslash or `n`.
pub open spec fn unescaped(s: Seq<char>) -> Option<Seq<char>>
    decreases s.len(),
{
    if s.len() == 0 {
        Some(Seq::empty())
    } else if s[0] != '\\' {
        prepended(seq![s[0]], unescaped(s.drop_first()))
    } else if s.len() > 1 && s[1] == '\\' {
        prepended(seq!['\\'], unescaped(s.skip(2)))
    } else if s.len() > 1 && s[1] == 'n' {
        prepended(seq!['\n'], unescaped(s.skip(2)))
    } else {
        None
    }
}

/// Reverses inline escaping: `\\` → `\`, `\n` → newline. Any other escape, or a
/// trailing lone `\`, is a [`DslError::BadEscape`].
fn unescape_inline(chars: &Vec<char>, from: usize, lineno: usize) -> (r: Result<String, DslError>)
    requires
        from <= chars@.len(),
    ensures
        match unescaped(chars@.skip(from as int)) {
            Some(plain) => r matches Ok(s) && s@ == plain,
            None => r matches Err(e) && e == DslError::BadEscape(lineno),
        },
{
    let mut out = String::new();
    let mut i: usize = from;
    let ghost all = unescaped(chars@.skip(from as int));
    assert(prepended(out@, all) == all) by {
        if all is Some {
            assert(out@ + all->0 == all->0);
        }
    }
    while i < chars.len()
        invariant
            from <= i <= chars@.len(),
            all == unescaped(chars@.skip(from as int)),
            all == prepended(out@, unescaped(chars@.skip(i as int))),
        decreases chars@.len() - i,
    {
        let ghost rest = chars@.skip(i as int);
        let ghost before = out@;
        let c = chars[i];
        assert(rest[0] == c);
        if c == '\\' {
            if chars.len() - i < 2 {
                return Err(DslError::BadEscape(lineno));
            }
            let d = chars[i + 1];
            assert(rest[1] == d);
            assert(rest.skip(2) == chars@.skip(i + 2));
            if d == '\\' {
                out.push('\\');
            } else if d == 'n' {
                out.push('\n');
            } else {
                return Err(DslError::BadEscape(lineno));
            }
            proof {
                let tail = unescaped(chars@.skip(i + 2));
                if tail is Some {
                    assert(before + (seq![out@.last()] + tail->0) == out@ + tail->0);
                }
            }
            i += 2;
        } else {
            out.push(c);
            proof {
                assert(rest.drop_first() == chars@.skip(i + 1));
                let tail = unescaped(chars@.skip(i + 1));
                if tail is Some {
                    assert(before + (seq![c] + tail->0) == out@ + tail->0);
                }
            }
            i += 1;
        }
    }
    assert(chars@.skip(i as int).len() == 0);
    assert(out@ + Seq::<char>::empty() == out@);
    Ok(out)
}

/// Applies inline escaping: `\` → `\\`, newline → `\n`.
fn escape_inline(s: &str) -> (out: String)
    ensures
        out@ == escaped(s@),
{
    let chars: Vec<char> = text::chars_of(s);
    let mut out = String::new();
    let mut i: usize = 0;
    assert(s@.take(0) == Seq::<char>::empty());
    while i < chars.len()
        invariant
            i <= chars@.len(),
            chars@ == s@,
            out@ == escaped(s@.take(i as int)),
        decreases chars@.len() - i,
    {
        let c = chars[i];
        assert(s@.take(i + 1).drop_last() == s@.take(i as int));
        let ghost before = out@;
        if c == '\\' {
            out.push('\\');
            out.push('\\');
        } else if c == '\n' {
            out.push('\\');
            out.push('n');
        } else {
            out.push(c);
        }
        assert(out@ == before + escaped_char(c));
        i += 1;
    }
    assert(s@.take(i as int) == s@);
    out
}

// ---------------------------------------------------------------------------
// Parsing
// ---------------------------------------------------------------------------

/// The runs that a stretch of a line denotes, all by `author`.
pub open spec fn rich_of(s: Seq<char>, lineno: usize, author: Author) -> Result<Runs, DslError> {
    match unescaped(s) {
        Some(plain) => Ok(content::single_run(plain, author)),
        None => Err(DslError::BadEscape(lineno)),
    }
}

/// The heading that the text behind a `#` denotes.
pub open spec fn heading_of(after: Seq<char>, lineno: usize, author: Author) -> Result<
    BlockView,
    DslError,
> {
    if after.len() == 0 || !('1' <= after[0] <= '6') {
        Err(DslError::BadHeadingLevel(lineno))
    } else if after.len() > 1 && after[1] != ' ' {
        Err(DslError::BadHeadingLevel(lineno))
    } else {
        match rich_of(after.skip(if after.len() == 1 { 1 } else { 2 }), lineno, author) {
            Ok(text) => Ok(BlockView::Heading { level: (after[0] as u8 - '0' as u8) as u8, text }),
            Err(e) => Err(e),
        }
    }
}

/// The block that a line denotes, if it is neither blank nor a code fence.
pub open spec fn block_of(line: Seq<char>, lineno: usize, author: Author) -> Result<
    BlockView,
    DslError,
> {
    if text::begins_with(line, ": "@) {
        match rich_of(line.skip(2), lineno, author) {
            Ok(t) => Ok(BlockView::Paragraph(t)),
            Err(e) => Err(e),
        }
    } else if text::begins_with(line, "- "@) {
        match rich_of(line.skip(2), lineno, author) {
            Ok(t) => Ok(BlockView::ListItem(t)),
            Err(e) => Err(e),
        }
    } else if text::begins_with(line, "> "@) {
        match rich_of(line.skip(2), lineno, author) {
            Ok(t) => Ok(BlockView::Quote(t)),
            Err(e) => Err(e),
        }
    } else if text::begins_with(line, "#"@) {
        heading_of(line.skip(1), lineno, author)
    } else if line == ":"@ {
        Ok(BlockView::Paragraph(Seq::empty()))
    } else if line == "-"@ {
        Ok(BlockView::ListItem(Seq::empty()))
    } else if line == ">"@ {
        Ok(BlockView::Quote(Seq::empty()))
    } else {
        Err(DslError::UnknownBlock(lineno))
    }
}

/// Builds a single-run [`RichText`] from the escaped text `chars[from..]`, owned
/// by `author`.
fn rich(chars: &Vec<char>, from: usize, lineno: usize, author: &AuthorId) -> (r: Result<
    RichText,
    DslError,
>)
    requires
        from <= chars@.len(),
    ensures
        match rich_of(chars@.skip(from as int), lineno, author@) {
            Ok(runs) => r matches Ok(t) && t@ == runs,
            Err(e) => r matches Err(err) && err == e,
        },
{
    match unescape_inline(chars, from, lineno) {
        Ok(plain) => Ok(RichText::from_plain(plain.as_str(), author.clone())),
        Err(e) => Err(e),
    }
}

/// Parses a heading from the line `chars`, which begins with `#`.
fn parse_heading(chars: &Vec<char>, lineno: usize, author: &AuthorId) -> (r: Result<
    Block,
    DslError,
>)
    requires
        chars@.len() > 0,
    ensures
        match heading_of(chars@.skip(1), lineno, author@) {
            Ok(block) => r matches Ok(b) && b@ == block,
            Err(e) => r matches Err(err) && err == e,
        },
{
    let ghost after = chars@.skip(1);
    if chars.len() < 2 {
        return Err(DslError::BadHeadingLevel(lineno));
    }
    assert(after[0] == chars@[1]);
    let c = chars[1];
    let level: u8 = if '1' <= c && c <= '6' {
        c as u8 - '0' as u8
    } else {
        return Err(DslError::BadHeadingLevel(lineno));
    };
    let from: usize = if chars.len() == 2 {
        2
    } else {
        assert(after[1] == chars@[2]);
        if chars[2] != ' ' {
            return Err(DslError::BadHeadingLevel(lineno));
        }
        3
    };
    assert(after.skip(from - 1) == chars@.skip(from as int));
    match rich(chars, from, lineno, author) {
        Ok(text) => Ok(Block::Heading { level, text }),
        Err(e) => Err(e),
    }
}

/// Parses a single-line block (everything except code fences) from `line`.
fn parse_inline_block(line: &str, lineno: usize, author: &AuthorId) -> (r: Result<Block, DslError>)
    ensures
        match block_of(line@, lineno, author@) {
            Ok(block) => r matches Ok(b) && b@ == block,
            Err(e) => r matches Err(err) && err == e,
        },
{
    let chars: Vec<char> = text::chars_of(line);
    proof {
        reveal_strlit(": ");
        reveal_strlit("- ");
        reveal_strlit("> ");
        reveal_strlit("#");
    }
    if text::starts_with(&chars, ": ") {
        return match rich(&chars, 2, lineno, author) {
            Ok(t) => Ok(Block::Paragraph(t)),
            Err(e) => Err(e),
        };
    }
    if text::starts_with(&chars, "- ") {
        return match rich(&chars, 2, lineno, author) {
            Ok(t) => Ok(Block::ListItem(t)),
            Err(e) => Err(e),
        };
    }
    if text::starts_with(&chars, "> ") {
        return match rich(&chars, 2, lineno, author) {
            Ok(t) => Ok(Block::Quote(t)),
            Err(e) => Err(e),
        };
    }
    if text::starts_with(&chars, "#") {
        return parse_heading(&chars, lineno, author);
    }
    if text::text_eq(line, ":") {
        return Ok(Block::Paragraph(RichText::empty()));
    }
    if text::text_eq(line, "-") {
        return Ok(Block::ListItem(RichText::empty()));
    }
    if text::text_eq(line, ">") {
        return Ok(Block::Quote(RichText::empty()));
    }
    Err(DslError::UnknownBlock(lineno))
}

// --- languages ---------------------------------------------------------------

/// A language between two backslashes, escaped as prose is.
pub open spec fn quoted(lang: Seq<char>) -> Seq<char> {
    seq!['\\'] + escaped(lang) + seq!['\\']
}

/// What stands, escaped, between two backslashes; none where `t` is not of that
/// form.
pub open spec fn unquoted(t: Seq<char>) -> Option<Seq<char>> {
    if t.len() >= 2 && t[0] == '\\' && t.last() == '\\' {
        unescaped(t.subrange(1, t.len() - 1))
    } else {
        None
    }
}

pub proof fn lemma_unescaped_len(s: Seq<char>)
    ensures
        unescaped(s) matches Some(plain) ==> plain.len() <= s.len(),
    decreases s.len(),
{
    if s.len() > 0 {
        if s[0] != '\\' {
            lemma_unescaped_len(s.drop_first());
        } else if s.len() > 1 {
            lemma_unescaped_len(s.skip(2));
        }
    }
}

/// Whether a language can stand as it is behind an opening fence: it is not empty,
/// has no white space around it and no line feed in it, and is not what another
/// language that cannot is written as.
pub open spec fn plain_lang(lang: Seq<char>) -> bool
    decreases lang.len(),
{
    &&& lang.len() > 0
    &&& text::trimmed(lang) == lang
    &&& !lang.contains('\n')
    &&& match unquoted(lang) {
        Some(inner) => {
            proof {
                lemma_unescaped_len(lang.subrange(1, lang.len() - 1));
            }
            plain_lang(inner)
        },
        None => true,
    }
}

/// How a language is written behind an opening fence.
pub open spec fn lang_text(lang: Option<Seq<char>>) -> Seq<char> {
    match lang {
        None => Seq::empty(),
        Some(l) => if plain_lang(l) {
            l
        } else {
            quoted(l)
        },
    }
}

/// The language that the text behind an opening fence names: none where there is
/// only white space; else the text without the white space around it, or what
/// that quotes, if it quotes a language that cannot stand as it is.
pub open spec fn lang_of(after: Seq<char>) -> Option<Seq<char>> {
    let t = text::trimmed(after);
    if t.len() == 0 {
        None
    } else {
        match unquoted(t) {
            Some(inner) => if plain_lang(inner) {
                Some(t)
            } else {
                Some(inner)
            },
            None => Some(t),
        }
    }
}

/// What stands, escaped, between two backslashes, if `t` is of that form.
fn unquote(t: &str) -> (inner: Option<String>)
    ensures
        content::option_view(inner) == unquoted(t@),
{
    let chars: Vec<char> = text::chars_of(t);
    let n: usize = chars.len();
    if n < 2 || chars[0] != '\\' || chars[n - 1] != '\\' {
        return None;
    }
    let middle = text::chars_of(text::from_chars(&chars, 1, n - 1).as_str());
    assert(middle@.skip(0) == t@.subrange(1, t@.len() - 1));
    match unescape_inline(&middle, 0, 0) {
        Ok(inner) => Some(inner),
        Err(_) => None,
    }
}

/// Whether a language can stand as it is behind an opening fence.
fn is_plain_lang(lang: &str) -> (yes: bool)
    ensures
        yes == plain_lang(lang@),
    decreases lang@.len(),
{
    let chars: Vec<char> = text::chars_of(lang);
    if chars.len() == 0 || !text::text_eq(text::trim(lang).as_str(), lang) {
        return false;
    }
    let mut i: usize = 0;
    while i < chars.len()
        invariant
            i <= chars@.len(),
            chars@ == lang@,
            forall|k: int| 0 <= k < i ==> lang@[k] != '\n',
        decreases chars@.len() - i,
    {
        if chars[i] == '\n' {
            assert(lang@.contains('\n'));
            return false;
        }
        i += 1;
    }
    match unquote(lang) {
        Some(inner) => {
            proof {
                lemma_unescaped_len(lang@.subrange(1, lang@.len() - 1));
            }
            is_plain_lang(inner.as_str())
        },
        None => true,
    }
}

/// Extracts the optional language tag from a code fence's trailing text.
fn parse_code_lang(after: &str) -> (lang: Option<String>)
    ensures
        content::option_view(lang) == lang_of(after@),
{
    let trimmed = text::trim(after);
    if trimmed.as_str().is_empty() {
        return None;
    }
    if let Some(inner) = unquote(trimmed.as_str()) {
        if !is_plain_lang(inner.as_str()) {
            return Some(inner);
        }
    }
    Some(trimmed)
}

// --- lines of code -------------------------------------------------------------

/// Whether a line is a closing fence, or one behind backslashes.
pub open spec fn fence_like(line: Seq<char>) -> bool
    decreases line.len(),
{
    line == "```"@ || (line.len() > 0 && line[0] == '\\' && fence_like(line.drop_first()))
}

/// How a line of code is written.
pub open spec fn code_line(line: Seq<char>) -> Seq<char> {
    if fence_like(line) {
        seq!['\\'] + line
    } else {
        line
    }
}

/// The line of code that a written line denotes.
pub open spec fn code_of(line: Seq<char>) -> Seq<char> {
    if line.len() > 0 && line[0] == '\\' && fence_like(line.drop_first()) {
        line.drop_first()
    } else {
        line
    }
}

/// How lines of code are written.
pub open spec fn code_lines(lines: Seq<Seq<char>>) -> Seq<Seq<char>> {
    Seq::new(lines.len(), |i: int| code_line(lines[i]))
}

/// The lines of code that written lines denote.
pub open spec fn codes_of(lines: Seq<Seq<char>>) -> Seq<Seq<char>> {
    Seq::new(lines.len(), |i: int| code_of(lines[i]))
}

/// Whether the line `chars[from..]` is a closing fence, or one behind backslashes.
fn is_fence_like(chars: &Vec<char>, from: usize) -> (yes: bool)
    requires
        from <= chars@.len(),
    ensures
        yes == fence_like(chars@.skip(from as int)),
{
    let mut i: usize = from;
    proof {
        reveal_strlit("```");
    }
    while i < chars.len() && chars[i] == '\\'
        invariant
            from <= i <= chars@.len(),
            "```"@.len() == 3,
            "```"@[0] == '`',
            fence_like(chars@.skip(from as int)) == fence_like(chars@.skip(i as int)),
        decreases chars@.len() - i,
    {
        let ghost rest = chars@.skip(i as int);
        assert(rest[0] == chars@[i as int]);
        assert(rest.drop_first() == chars@.skip(i + 1));
        i += 1;
    }
    let ghost rest = chars@.skip(i as int);
    assert(rest.len() > 0 ==> rest[0] == chars@[i as int]);
    if chars.len() - i != 3 {
        return false;
    }
    assert(rest[1] == chars@[i + 1] && rest[2] == chars@[i + 2]);
    if chars[i] == '`' && chars[i + 1] == '`' && chars[i + 2] == '`' {
        assert(rest == "```"@);
        true
    } else {
        false
    }
}

/// The line of code that a written line denotes.
fn read_code_line(line: &str) -> (code: String)
    ensures
        code@ == code_of(line@),
{
    let chars: Vec<char> = text::chars_of(line);
    if chars.len() > 0 && chars[0] == '\\' {
        assert(line@.skip(1) == line@.drop_first());
        if is_fence_like(&chars, 1) {
            let code = text::from_chars(&chars, 1, chars.len());
            assert(code@ == line@.drop_first());
            return code;
        }
    }
    line.to_owned()
}

/// How a line of code is written.
fn write_code_line(line: &str) -> (out: String)
    ensures
        out@ == code_line(line@),
{
    let chars: Vec<char> = text::chars_of(line);
    let mut out = String::new();
    assert(line@.skip(0) == line@);
    if is_fence_like(&chars, 0) {
        out.push('\\');
    }
    out.append(line);
    assert(out@ == code_line(line@));
    out
}

/// Where the first closing fence stands among `lines`, or how many lines there
/// are.
pub open spec fn fence_at(lines: Seq<Seq<char>>) -> int
    decreases lines.len(),
{
    if lines.len() == 0 || lines[0] == "```"@ {
        0
    } else {
        1 + fence_at(lines.drop_first())
    }
}

/// `block`, and the blocks after it unless they are in error.
pub open spec fn followed(block: BlockView, rest: Result<Seq<BlockView>, DslError>) -> Result<
    Seq<BlockView>,
    DslError,
> {
    match rest {
        Ok(blocks) => Ok(seq![block] + blocks),
        Err(e) => Err(e),
    }
}

/// What `lines`, the first of which has the number `lineno`, denote.
pub open spec fn parsed(lines: Seq<Seq<char>>, lineno: int, author: Author) -> Result<
    Seq<BlockView>,
    DslError,
>
    decreases lines.len(),
{
    if lines.len() == 0 {
        Ok(Seq::empty())
    } else if lines[0].len() == 0 {
        parsed(lines.drop_first(), lineno + 1, author)
    } else if text::begins_with(lines[0], "```"@) {
        let body = lines.drop_first();
        let n = fence_at(body);
        if 0 <= n < body.len() {
            followed(
                BlockView::CodeBlock {
                    lang: lang_of(lines[0].skip(3)),
                    code: text::joined(codes_of(body.take(n)), "\n"@),
                },
                parsed(lines.skip(n + 2), lineno + n + 2, author),
            )
        } else {
            Err(DslError::UnterminatedCode(lineno as usize))
        }
    } else {
        match block_of(lines[0], lineno as usize, author) {
            Ok(block) => followed(block, parsed(lines.drop_first(), lineno + 1, author)),
            Err(e) => Err(e),
        }
    }
}

pub proof fn lemma_fence_at(lines: Seq<Seq<char>>)
    ensures
        0 <= fence_at(lines) <= lines.len(),
        fence_at(lines) < lines.len() ==> lines[fence_at(lines)] == "```"@,
        forall|k: int| 0 <= k < fence_at(lines) ==> lines[k] != "```"@,
    decreases lines.len(),
{
    if lines.len() > 0 && lines[0] != "```"@ {
        let rest = lines.drop_first();
        lemma_fence_at(rest);
        assert forall|k: int| 0 <= k < fence_at(lines) implies lines[k] != "```"@ by {
            if k > 0 {
                assert(rest[k - 1] == lines[k]);
            }
        }
    }
}

/// Collects code-block body lines starting at index `start`, until the closing
/// fence.
///
/// Returns the code (the lines that are denoted, joined by `\n`, no trailing
/// newline) and the index of the closing fence line, or
/// [`DslError::UnterminatedCode`] with `open_lineno`.
fn parse_code_body(lines: &Vec<String>, start: usize, open_lineno: usize) -> (r: Result<
    (String, usize),
    DslError,
>)
    requires
        start <= lines@.len(),
    ensures
        ({
            let body = text::views(lines@).skip(start as int);
            let n = fence_at(body);
            if n < body.len() {
                r matches Ok((code, j)) && code@ == text::joined(codes_of(body.take(n)), "\n"@)
                    && j == start + n && j < lines@.len()
            } else {
                r matches Err(e) && e == DslError::UnterminatedCode(open_lineno)
            }
        }),
{
    let ghost all = text::views(lines@);
    let ghost whole = all.skip(start as int);
    let mut body: Vec<String> = Vec::new();
    let mut j: usize = start;
    proof {
        assert(text::views(body@) == codes_of(whole.take(0)));
        lemma_fence_at(whole);
    }
    while j < lines.len()
        invariant
            start <= j <= lines@.len(),
            all == text::views(lines@),
            whole == all.skip(start as int),
            0 <= fence_at(whole) <= whole.len(),
            text::views(body@) == codes_of(whole.take(j - start)),
            fence_at(whole) == (j - start) + fence_at(all.skip(j as int)),
        decreases lines@.len() - j,
    {
        assert(all.skip(j as int)[0] == lines@[j as int]@);
        if text::text_eq(lines[j].as_str(), "```") {
            return Ok((text::join(&body, "\n"), j));
        }
        proof {
            assert(all.skip(j as int).drop_first() == all.skip(j + 1));
        }
        let ghost before = text::views(body@);
        body.push(read_code_line(lines[j].as_str()));
        proof {
            assert(text::views(body@) == before.push(code_of(lines@[j as int]@)));
            assert(codes_of(whole.take(j + 1 - start)) == codes_of(whole.take(j - start)).push(
                code_of(whole[j - start]),
            ));
        }
        j += 1;
    }
    assert(all.skip(j as int).len() == 0);
    Err(DslError::UnterminatedCode(open_lineno))
}

/// `done`, and the blocks after them unless those are in error.
spec fn resumed(done: Seq<BlockView>, rest: Result<Seq<BlockView>, DslError>) -> Result<
    Seq<BlockView>,
    DslError,
> {
    match rest {
        Ok(blocks) => Ok(done + blocks),
        Err(e) => Err(e),
    }
}

proof fn lemma_resumed(
    done: Seq<BlockView>,
    block: BlockView,
    rest: Result<Seq<BlockView>, DslError>,
)
    ensures
        resumed(done, followed(block, rest)) == resumed(done.push(block), rest),
{
    if rest is Ok {
        assert(done + (seq![block] + rest->Ok_0) == done.push(block) + rest->Ok_0);
    }
}

/// Parses DSL `input` into a [`Document`], attributing all prose to `author`.
///
/// Every block's text becomes a single run owned by `author`. Blank lines between
/// blocks are ignored.
pub fn parse(input: &str, author: AuthorId) -> (r: Result<Document, DslError>)
    ensures
        match parsed(text::lines_of(input@), 1, author@) {
            Ok(blocks) => r matches Ok(doc) && doc@ == blocks,
            Err(e) => r matches Err(err) && err == e,
        },
{
    let mut doc = Document::new();
    let lines: Vec<String> = text::lines(input);
    let ghost all = text::views(lines@);
    let ghost total = parsed(all, 1, author@);
    let mut i: usize = 0;
    proof {
        reveal_strlit("```");
        assert(all.skip(0) == all);
        if total is Ok {
            assert(doc@ + total->Ok_0 == total->Ok_0);
        }
        assert(resumed(doc@, total) == total);
    }
    while i < lines.len()
        invariant
            i <= lines@.len(),
            all == text::views(lines@),
            all == text::lines_of(input@),
            total == parsed(all, 1, author@),
            "```"@.len() == 3,
            total == resumed(doc@, parsed(all.skip(i as int), i + 1, author@)),
        decreases lines@.len() - i,
    {
        let line = lines[i].as_str();
        let lineno: usize = i + 1;
        let ghost rest = all.skip(i as int);
        let ghost done = doc@;
        proof {
            assert(rest[0] == line@);
            assert(rest.drop_first() == all.skip(i + 1));
        }
        if line.is_empty() {
            i += 1;
            continue ;
        }
        let chars: Vec<char> = text::chars_of(line);
        if text::starts_with(&chars, "```") {
            let after = text::from_chars(&chars, 3, chars.len());
            assert(after@ == line@.skip(3));
            let lang = parse_code_lang(after.as_str());
            match parse_code_body(&lines, i + 1, lineno) {
                Err(e) => {
                    return Err(e);
                },
                Ok((code, end)) => {
                    let ghost block = BlockView::CodeBlock {
                        lang: content::option_view(lang),
                        code: code@,
                    };
                    doc.push(Block::CodeBlock { lang, code });
                    proof {
                        let n = fence_at(rest.drop_first());
                        lemma_fence_at(rest.drop_first());
                        assert(rest.skip(n + 2) == all.skip(end + 1));
                        lemma_resumed(done, block, parsed(all.skip(end + 1), end + 2, author@));
                    }
                    i = end + 1;
                    continue ;
                },
            }
        }
        match parse_inline_block(line, lineno, &author) {
            Err(e) => {
                return Err(e);
            },
            Ok(block) => {
                let ghost view = block@;
                doc.push(block);
                proof {
                    lemma_resumed(done, view, parsed(all.skip(i + 1), i + 2, author@));
                }
            },
        }
        i += 1;
    }
    proof {
        assert(all.skip(i as int).len() == 0);
        assert(doc@ + Seq::<BlockView>::empty() == doc@);
    }
    Ok(doc)
}

// ---------------------------------------------------------------------------
// Serializing
// ---------------------------------------------------------------------------

/// A level brought into the range 1–6.
pub open spec fn clamped(level: u8) -> u8 {
    if level < 1 {
        1
    } else if level > 6 {
        6
    } else {
        level
    }
}

/// A sigil and, behind a space, the escaped text, if there is any.
pub open spec fn prefixed(sigil: Seq<char>, runs: Runs) -> Seq<char> {
    if content::plain_text(runs).len() == 0 {
        sigil
    } else {
        sigil + seq![' '] + escaped(content::plain_text(runs))
    }
}

/// How a block of prose is written.
pub open spec fn prose_line(block: BlockView) -> Seq<char> {
    match block {
        BlockView::Paragraph(t) => prefixed(":"@, t),
        BlockView::ListItem(t) => prefixed("-"@, t),
        BlockView::Quote(t) => prefixed(">"@, t),
        BlockView::Heading { level, text } => prefixed(
            seq!['#', text::digit(clamped(level) as int)],
            text,
        ),
        BlockView::CodeBlock { lang: _, code: _ } => Seq::empty(),
    }
}

/// The lines that a block is written on.
pub open spec fn block_lines(block: BlockView) -> Seq<Seq<char>> {
    match block {
        BlockView::CodeBlock { lang, code } => seq!["```"@ + lang_text(lang)] + code_lines(
            text::pieces(code),
        ) + seq!["```"@],
        _ => seq![prose_line(block)],
    }
}

/// The lines that all blocks are written on.
pub open spec fn document_lines(blocks: Seq<BlockView>) -> Seq<Seq<char>>
    decreases blocks.len(),
{
    if blocks.len() == 0 {
        Seq::empty()
    } else {
        block_lines(blocks[0]) + document_lines(blocks.drop_first())
    }
}

/// A level brought into the range 1–6, as a digit.
pub(crate) fn level_digit(level: u8) -> (c: char)
    ensures
        c == text::digit(clamped(level) as int),
{
    let clamped: u8 = if level < 1 {
        1
    } else if level > 6 {
        6
    } else {
        level
    };
    (48 + clamped) as char
}

/// The line of `sigil` and then the escaped prose, with a separating space only
/// when the prose is non-empty (so an empty block serializes to the bare sigil).
fn write_prefixed(sigil: &str, text: &RichText) -> (line: String)
    ensures
        line@ == prefixed(sigil@, text@),
{
    let mut line = sigil.to_owned();
    let plain = text.plain_string();
    if !plain.as_str().is_empty() {
        line.push(' ');
        line.append(escape_inline(plain.as_str()).as_str());
    }
    assert(line@ == prefixed(sigil@, text@));
    line
}

/// Appends the lines of a code block to `out`.
fn serialize_code(lang: &Option<String>, code: &str, out: &mut Vec<String>)
    ensures
        text::views(final(out)@) == text::views(old(out)@) + block_lines(
            BlockView::CodeBlock { lang: content::option_view(*lang), code: code@ },
        ),
{
    let ghost start = text::views(out@);
    let mut open = "```".to_owned();
    if let Some(lang) = lang {
        if is_plain_lang(lang.as_str()) {
            open.append(lang.as_str());
        } else {
            open.push('\\');
            open.append(escape_inline(lang.as_str()).as_str());
            open.push('\\');
        }
    }
    let ghost first = "```"@ + lang_text(content::option_view(*lang));
    assert(open@ == first);
    out.push(open);
    assert(text::views(out@) == start.push(first));
    let pieces = text::cut_at_feeds(code);
    let ghost body = code_lines(text::pieces(code@));
    let mut i: usize = 0;
    assert(text::views(out@) == start + (seq![first] + body.take(0)));
    while i < pieces.len()
        invariant
            i <= pieces@.len(),
            text::views(pieces@) == text::pieces(code@),
            body == code_lines(text::pieces(code@)),
            text::views(out@) == start + (seq![first] + body.take(i as int)),
        decreases pieces@.len() - i,
    {
        let ghost before = text::views(out@);
        let line = write_code_line(pieces[i].as_str());
        proof {
            assert(text::views(pieces@)[i as int] == pieces@[i as int]@);
            assert(line@ == body[i as int]);
        }
        out.push(line);
        assert(text::views(out@) == before.push(body[i as int]));
        i += 1;
    }
    let ghost before = text::views(out@);
    out.push("```".to_owned());
    proof {
        assert(body.take(i as int) == body);
        assert(text::views(out@) == before.push("```"@));
        assert(text::views(out@) == start + (seq![first] + body + seq!["```"@]));
    }
}

/// Appends the lines of one block to `out`.
fn serialize_block(block: &Block, out: &mut Vec<String>)
    ensures
        text::views(final(out)@) == text::views(old(out)@) + block_lines(block@),
{
    let ghost before = text::views(out@);
    let line = match block {
        Block::Paragraph(t) => write_prefixed(":", t),
        Block::ListItem(t) => write_prefixed("-", t),
        Block::Quote(t) => write_prefixed(">", t),
        Block::Heading { level, text } => {
            let mut sigil = String::new();
            sigil.push('#');
            sigil.push(level_digit(*level));
            assert(sigil@ == seq!['#', text::digit(clamped(*level) as int)]);
            write_prefixed(sigil.as_str(), text)
        },
        Block::CodeBlock { lang, code } => {
            serialize_code(lang, code.as_str(), out);
            return;
        },
    };
    out.push(line);
    assert(text::views(out@) == before.push(line@));
    assert(before.push(line@) == before + block_lines(block@));
}

/// Serializes a [`Document`] back into canonical DSL text.
///
/// The output has exactly one line per non-code block, code blocks fenced with
/// three backticks, no blank separator lines, and lines joined by a single `\n`
/// (`\r\n` behind a line that ends in a carriage return) with no trailing newline.
pub fn serialize(doc: &Document) -> (out: String)
    ensures
        out@ == text::written(document_lines(doc@)),
{
    let mut lines: Vec<String> = Vec::new();
    let ghost all = document_lines(doc@);
    let mut i: usize = 0;
    proof {
        assert(doc@.skip(0) == doc@);
        assert(text::views(lines@) + all == all);
    }
    while i < doc.blocks.len()
        invariant
            i <= doc.blocks@.len(),
            all == document_lines(doc@),
            all == text::views(lines@) + document_lines(doc@.skip(i as int)),
        decreases doc.blocks@.len() - i,
    {
        let ghost before = text::views(lines@);
        serialize_block(&doc.blocks[i], &mut lines);
        proof {
            let rest = doc@.skip(i as int);
            let tail = document_lines(doc@.skip(i + 1));
            assert(rest[0] == doc.blocks@[i as int]@);
            assert(rest.drop_first() == doc@.skip(i + 1));
            assert(before + (block_lines(rest[0]) + tail) == text::views(lines@) + tail);
        }
        i += 1;
    }
    proof {
        assert(doc@.skip(i as int).len() == 0);
        assert(text::views(lines@) + Seq::<Seq<char>>::empty() == text::views(lines@));
    }
    text::write_lines(&lines)
}

} // verus!
