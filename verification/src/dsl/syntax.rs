//! What each line of a text denotes, and how each block is written.

use crate::content;
use crate::content::{Author, AuthorId, BlockView, Document, Runs};
use crate::dsl;
use crate::dsl::DslError;
use crate::text;
use vstd::prelude::*;

verus! {

// ---------------------------------------------------------------------------
// Escapes
// ---------------------------------------------------------------------------

/// Prose is escaped character by character: a backslash is doubled, a line feed is
/// written as a backslash and an `n`, and all else stands for itself.
pub proof fn law_prose_is_escaped_character_by_character(a: Seq<char>, b: Seq<char>, c: char)
    ensures
        dsl::escaped(a + b) == dsl::escaped(a) + dsl::escaped(b),
        dsl::escaped(Seq::empty()) == Seq::<char>::empty(),
        dsl::escaped(seq!['\\']) == seq!['\\', '\\'],
        dsl::escaped(seq!['\n']) == seq!['\\', 'n'],
        c != '\\' && c != '\n' ==> dsl::escaped(seq![c]) == seq![c],
    decreases b.len(),
{
    lemma_one_escaped('\\');
    lemma_one_escaped('\n');
    lemma_one_escaped(c);
    if b.len() == 0 {
        assert(a + b == a);
    } else {
        assert((a + b).drop_last() == a + b.drop_last());
        law_prose_is_escaped_character_by_character(a, b.drop_last(), c);
        assert(dsl::escaped(a + b) == dsl::escaped(a) + dsl::escaped(b));
    }
}

proof fn lemma_one_escaped(c: char)
    ensures
        dsl::escaped(seq![c]) == dsl::escaped_char(c),
{
    assert(seq![c].drop_last() =~= Seq::empty());
    assert(dsl::escaped(seq![c].drop_last()) =~= Seq::empty());
}

/// Escaped prose is read from its front: a doubled backslash is one, a backslash and
/// an `n` are a line feed, every character but a backslash is itself, and a
/// backslash before anything else, or at the end, is an error.
pub proof fn law_escapes_are_read_from_the_front(c: char, rest: Seq<char>)
    ensures
        dsl::unescaped(Seq::empty()) == Some(Seq::<char>::empty()),
        c != '\\' ==> dsl::unescaped(seq![c] + rest) == match dsl::unescaped(rest) {
            Some(prose) => Some(seq![c] + prose),
            None => None,
        },
        dsl::unescaped(seq!['\\', '\\'] + rest) == match dsl::unescaped(rest) {
            Some(prose) => Some(seq!['\\'] + prose),
            None => None,
        },
        dsl::unescaped(seq!['\\', 'n'] + rest) == match dsl::unescaped(rest) {
            Some(prose) => Some(seq!['\n'] + prose),
            None => None,
        },
        c != '\\' && c != 'n' ==> dsl::unescaped(seq!['\\', c] + rest) is None,
        dsl::unescaped(seq!['\\']) is None,
{
    assert((seq![c] + rest).drop_first() == rest);
    assert((seq!['\\', '\\'] + rest).skip(2) == rest);
    assert((seq!['\\', 'n'] + rest).skip(2) == rest);
}

// ---------------------------------------------------------------------------
// Lines
// ---------------------------------------------------------------------------

/// Lines behind others that make whole blocks denote what they denote by themselves,
/// but for the number of their first line.
proof fn lemma_behind(front: Seq<Seq<char>>, back: Seq<Seq<char>>, lineno: int, author: Author)
    requires
        dsl::parsed(front, lineno, author) is Ok,
    ensures
        dsl::parsed(front + back, lineno, author) == match dsl::parsed(
            back,
            lineno + front.len(),
            author,
        ) {
            Ok(blocks) => Ok::<Seq<BlockView>, DslError>(
                dsl::parsed(front, lineno, author)->Ok_0 + blocks,
            ),
            Err(e) => Err(e),
        },
    decreases front.len(),
{
    let all = front + back;
    let behind = dsl::parsed(back, lineno + front.len(), author);
    let last = behind->Ok_0;
    if front.len() == 0 {
        assert(all == back);
        assert(Seq::<BlockView>::empty() + last == last);
    } else {
        assert(all[0] == front[0]);
        if front[0].len() == 0 {
            assert(all.drop_first() == front.drop_first() + back);
            lemma_behind(front.drop_first(), back, lineno + 1, author);
        } else if text::begins_with(front[0], "```"@) {
            let body = front.drop_first();
            let k = dsl::fence_at(body);
            dsl::lemma_fence_at(body);
            lemma_closed_in_front(body, back);
            assert(all.drop_first() == body + back);
            assert((body + back).take(k) == body.take(k));
            assert(all.skip(k + 2) == front.skip(k + 2) + back);
            lemma_behind(front.skip(k + 2), back, lineno + k + 2, author);
            let rest = dsl::parsed(front.skip(k + 2), lineno + k + 2, author)->Ok_0;
            let block = dsl::parsed(front, lineno, author)->Ok_0[0];
            assert(seq![block] + (rest + last) == (seq![block] + rest) + last);
        } else {
            assert(all.drop_first() == front.drop_first() + back);
            lemma_behind(front.drop_first(), back, lineno + 1, author);
            let rest = dsl::parsed(front.drop_first(), lineno + 1, author)->Ok_0;
            let block = dsl::parsed(front, lineno, author)->Ok_0[0];
            assert(seq![block] + (rest + last) == (seq![block] + rest) + last);
        }
    }
}

proof fn lemma_closed_in_front(front: Seq<Seq<char>>, back: Seq<Seq<char>>)
    requires
        dsl::fence_at(front) < front.len(),
    ensures
        dsl::fence_at(front + back) == dsl::fence_at(front),
    decreases front.len(),
{
    if front[0] != "```"@ {
        assert((front + back).drop_first() == front.drop_first() + back);
        lemma_closed_in_front(front.drop_first(), back);
    }
}

/// The runs of a prose block: one of the author, and none where it says nothing.
pub open spec fn prose(s: Seq<char>, author: Author) -> Runs {
    if s.len() == 0 {
        Seq::empty()
    } else {
        seq![(s, author)]
    }
}

/// The block that a line of prose denotes: `:` begins a paragraph, `-` a list item,
/// `>` a quote, and `#` with a digit from 1 to 6 a heading of that level.
pub open spec fn prose_block(sigil: Seq<char>, s: Seq<char>, author: Author, block: BlockView) -> bool {
    ||| sigil == seq![':'] && block == BlockView::Paragraph(prose(s, author))
    ||| sigil == seq!['-'] && block == BlockView::ListItem(prose(s, author))
    ||| sigil == seq!['>'] && block == BlockView::Quote(prose(s, author))
    ||| sigil == seq!['#', '1'] && block == (BlockView::Heading { level: 1, text: prose(s, author) })
    ||| sigil == seq!['#', '2'] && block == (BlockView::Heading { level: 2, text: prose(s, author) })
    ||| sigil == seq!['#', '3'] && block == (BlockView::Heading { level: 3, text: prose(s, author) })
    ||| sigil == seq!['#', '4'] && block == (BlockView::Heading { level: 4, text: prose(s, author) })
    ||| sigil == seq!['#', '5'] && block == (BlockView::Heading { level: 5, text: prose(s, author) })
    ||| sigil == seq!['#', '6'] && block == (BlockView::Heading { level: 6, text: prose(s, author) })
}

proof fn lemma_prose_line(
    sigil: Seq<char>,
    written: Seq<char>,
    s: Seq<char>,
    author: Author,
    block: BlockView,
    line: Seq<char>,
    n: usize,
)
    requires
        prose_block(sigil, s, author, block),
        ({
            ||| line == sigil + seq![' '] + written && dsl::unescaped(written) == Some(s)
            ||| line == sigil && s.len() == 0
        }),
    ensures
        line.len() > 0,
        !text::begins_with(line, "```"@),
        dsl::block_of(line, n, author) == Ok::<BlockView, DslError>(block),
{
    reveal_strlit("```");
    reveal_strlit(": ");
    reveal_strlit("- ");
    reveal_strlit("> ");
    reveal_strlit("#");
    reveal_strlit(":");
    reveal_strlit("-");
    reveal_strlit(">");
    assert("```"@[0] == '`');
    assert(line[0] == sigil[0]);
    if text::begins_with(line, "```"@) {
        assert(line.take(3)[0] == '`');
    }
    lemma_starts(line);
    assert(content::single_run(s, author) == prose(s, author));
    if sigil.len() == 1 {
        if line == sigil {
            assert(line.len() == 1);
            assert(":"@ == seq![':']);
            assert("-"@ == seq!['-']);
            assert(">"@ == seq!['>']);
        } else {
            assert(line[1] == ' ');
            assert(line.skip(2) == written);
        }
    } else {
        let after = line.skip(1);
        assert(after[0] == sigil[1]);
        if line == sigil {
            assert(after.skip(1) =~= Seq::empty());
            assert(dsl::unescaped(after.skip(1)) == Some(Seq::<char>::empty()));
        } else {
            assert(after[1] == ' ');
            assert(after.skip(2) == written);
        }
    }
}

proof fn lemma_starts(line: Seq<char>)
    ensures
        text::begins_with(line, ": "@) <==> line.len() >= 2 && line[0] == ':' && line[1] == ' ',
        text::begins_with(line, "- "@) <==> line.len() >= 2 && line[0] == '-' && line[1] == ' ',
        text::begins_with(line, "> "@) <==> line.len() >= 2 && line[0] == '>' && line[1] == ' ',
        text::begins_with(line, "#"@) <==> line.len() >= 1 && line[0] == '#',
        text::begins_with(line, "```"@) <==> line.len() >= 3 && line[0] == '`' && line[1] == '`'
            && line[2] == '`',
        line == ":"@ <==> line.len() == 1 && line[0] == ':',
        line == "-"@ <==> line.len() == 1 && line[0] == '-',
        line == ">"@ <==> line.len() == 1 && line[0] == '>',
{
    reveal_strlit("```");
    reveal_strlit(": ");
    reveal_strlit("- ");
    reveal_strlit("> ");
    reveal_strlit("#");
    reveal_strlit(":");
    reveal_strlit("-");
    reveal_strlit(">");
    if line.len() >= 1 {
        let one = line.take(1);
        assert(one[0] == line[0]);
        if line[0] == '#' {
            assert(one == "#"@);
        }
    }
    if line.len() >= 2 {
        let two = line.take(2);
        assert(two[0] == line[0] && two[1] == line[1]);
        if line[0] == ':' && line[1] == ' ' {
            assert(two == ": "@);
        }
        if line[0] == '-' && line[1] == ' ' {
            assert(two == "- "@);
        }
        if line[0] == '>' && line[1] == ' ' {
            assert(two == "> "@);
        }
    }
    if line.len() >= 3 {
        let three = line.take(3);
        assert(three[0] == line[0] && three[1] == line[1] && three[2] == line[2]);
        if line[0] == '`' && line[1] == '`' && line[2] == '`' {
            assert(three == "```"@);
        }
    }
    if line.len() == 1 {
        if line[0] == ':' {
            assert(line == ":"@);
        }
        if line[0] == '-' {
            assert(line == "-"@);
        }
        if line[0] == '>' {
            assert(line == ">"@);
        }
    }
}

/// A line of a sigil, a space and escaped prose denotes the block of that sigil with
/// that prose, by the author of the text, between the blocks of the lines before it
/// and of those behind it; a sigil alone denotes the empty block.
pub proof fn law_a_line_denotes_the_block_of_its_sigil(
    input: &str,
    id: AuthorId,
    front: Seq<Seq<char>>,
    sigil: Seq<char>,
    written: Seq<char>,
    rest: Seq<Seq<char>>,
    s: Seq<char>,
    block: BlockView,
    r: Result<Document, DslError>,
)
    requires
        call_ensures(dsl::parse, (input, id), r),
        prose_block(sigil, s, id@, block),
        ({
            ||| text::lines_of(input@) == front + seq![sigil + seq![' '] + written] + rest
                && dsl::unescaped(written) == Some(s)
            ||| text::lines_of(input@) == front + seq![sigil] + rest && s.len() == 0
        }),
        dsl::parsed(front, 1, id@) is Ok,
        dsl::parsed(rest, 2int + front.len(), id@) is Ok,
    ensures
        r matches Ok(doc) && doc@ == dsl::parsed(front, 1, id@)->Ok_0 + seq![block] + dsl::parsed(
            rest,
            2int + front.len(),
            id@,
        )->Ok_0,
{
    let line = text::lines_of(input@)[front.len() as int];
    let back = seq![line] + rest;
    let n = 1int + front.len();
    assert(text::lines_of(input@) == front + back);
    lemma_behind(front, back, 1, id@);
    lemma_prose_line(sigil, written, s, id@, block, line, n as usize);
    assert(back[0] == line);
    assert(back.drop_first() == rest);
    let first = dsl::parsed(front, 1, id@)->Ok_0;
    let last = dsl::parsed(rest, n + 1, id@)->Ok_0;
    assert(first + (seq![block] + last) == first + seq![block] + last);
}

/// A blank line denotes nothing.
pub proof fn law_a_blank_line_denotes_nothing(
    front: Seq<Seq<char>>,
    rest: Seq<Seq<char>>,
    author: Author,
)
    requires
        dsl::parsed(front, 1, author) is Ok,
        dsl::parsed(rest, 2int + front.len(), author) is Ok,
    ensures
        dsl::parsed(front + seq![Seq::empty()] + rest, 1, author) == Ok::<
            Seq<BlockView>,
            DslError,
        >(dsl::parsed(front, 1, author)->Ok_0 + dsl::parsed(rest, 2int + front.len(), author)->Ok_0),
{
    let back = seq![Seq::<char>::empty()] + rest;
    assert(front + seq![Seq::empty()] + rest == front + back);
    lemma_behind(front, back, 1, author);
    assert(back.drop_first() == rest);
}

proof fn lemma_closing_fence(body: Seq<Seq<char>>, rest: Seq<Seq<char>>)
    requires
        forall|k: int| 0 <= k < body.len() ==> #[trigger] body[k] != "```"@,
    ensures
        dsl::fence_at(body + seq!["```"@] + rest) == body.len(),
        dsl::fence_at(body) == body.len(),
    decreases body.len(),
{
    let all = body + seq!["```"@] + rest;
    if body.len() == 0 {
        assert(all[0] == "```"@);
    } else {
        let tail = body.drop_first();
        assert(all[0] == body[0]);
        assert(all.drop_first() == tail + seq!["```"@] + rest);
        assert forall|k: int| 0 <= k < tail.len() implies #[trigger] tail[k] != "```"@ by {
            assert(tail[k] == body[k + 1]);
        }
        lemma_closing_fence(tail, rest);
    }
}

/// The lines between an opening fence and the next line that is a bare fence are
/// code, as they stand, but for a line of backslashes before a fence, which loses
/// one; what follows the opening fence names the language.
pub proof fn law_fenced_lines_are_code(
    front: Seq<Seq<char>>,
    lang: Seq<char>,
    body: Seq<Seq<char>>,
    rest: Seq<Seq<char>>,
    author: Author,
)
    requires
        forall|k: int| 0 <= k < body.len() ==> #[trigger] body[k] != "```"@,
        forall|k: int|
            0 <= k < body.len() && (#[trigger] body[k]).len() > 0 ==> body[k][0] != '\\',
        lang.len() > 0 ==> lang[0] != '\\',
        dsl::parsed(front, 1, author) is Ok,
        dsl::parsed(rest, 3int + front.len() + body.len(), author) is Ok,
    ensures
        dsl::parsed(front + seq!["```"@ + lang] + body + seq!["```"@] + rest, 1, author) == Ok::<
            Seq<BlockView>,
            DslError,
        >(
            dsl::parsed(front, 1, author)->Ok_0 + seq![
                BlockView::CodeBlock {
                    lang: if text::trimmed(lang).len() == 0 {
                        None
                    } else {
                        dsl::lang_of(lang)
                    },
                    code: text::joined(body, "\n"@),
                },
            ] + dsl::parsed(rest, 3int + front.len() + body.len(), author)->Ok_0,
        ),
{
    reveal_strlit("```");
    let open = "```"@ + lang;
    let back = seq![open] + (body + seq!["```"@] + rest);
    assert(front + seq![open] + body + seq!["```"@] + rest == front + back);
    lemma_behind(front, back, 1, author);
    lemma_closing_fence(body, rest);
    let inner = body + seq!["```"@] + rest;
    let k = body.len() as int;
    assert(open.take(3) == "```"@);
    assert(open.skip(3) == lang);
    assert(back[0] == open);
    assert(back.drop_first() == inner);
    assert(inner.take(k) == body);
    assert(back.skip(k + 2) == rest);
    assert forall|i: int| 0 <= i < body.len() implies #[trigger] dsl::codes_of(body)[i] == body[i] by {
        assert(dsl::code_of(body[i]) == body[i]);
    }
    assert(dsl::codes_of(body) == body);
    let n = 1int + front.len();
    let block = BlockView::CodeBlock { lang: dsl::lang_of(lang), code: text::joined(body, "\n"@) };
    let first = dsl::parsed(front, 1, author)->Ok_0;
    let last = dsl::parsed(rest, n + k + 2, author)->Ok_0;
    assert(first + (seq![block] + last) == first + seq![block] + last);
}

/// A language that begins with neither white space nor a backslash is read without
/// the white space around it.
pub proof fn law_a_language_is_read_as_it_stands(lang: Seq<char>)
    requires
        text::trimmed(lang).len() > 0,
        text::trimmed(lang)[0] != '\\',
    ensures
        dsl::lang_of(lang) == Some(text::trimmed(lang)),
{
}

/// A language that can stand behind a fence as it is, is written so: one that is not
/// empty, has no white space around it, holds no line feed and does not begin with a
/// backslash. No language is written as nothing.
pub proof fn law_a_plain_language_is_written_as_it_is(lang: Seq<char>)
    requires
        lang.len() > 0,
        text::trimmed(lang) == lang,
        !lang.contains('\n'),
        lang[0] != '\\',
    ensures
        dsl::lang_text(Some(lang)) == lang,
        dsl::lang_text(None) == Seq::<char>::empty(),
{
}

/// A row of `n` backslashes.
pub open spec fn backslashes(n: nat) -> Seq<char> {
    Seq::new(n, |i: int| '\\')
}

/// The lines that look like a fence are those of some backslashes, or none, and then
/// a bare fence.
pub proof fn law_fences_are_backslashes_and_a_fence(line: Seq<char>)
    ensures
        dsl::fence_like(line) <==> exists|n: nat|
            line == #[trigger] backslashes(n) + "```"@,
    decreases line.len(),
{
    reveal_strlit("```");
    if dsl::fence_like(line) {
        if line == "```"@ {
            assert(line == backslashes(0) + "```"@);
        } else {
            let tail = line.drop_first();
            law_fences_are_backslashes_and_a_fence(tail);
            let n = choose|n: nat| tail == #[trigger] backslashes(n) + "```"@;
            assert(line == seq!['\\'] + tail);
            assert(seq!['\\'] + backslashes(n) == backslashes(n + 1));
            assert(line == backslashes(n + 1) + "```"@);
        }
    }
    if exists|n: nat| line == #[trigger] backslashes(n) + "```"@ {
        let n = choose|n: nat| line == #[trigger] backslashes(n) + "```"@;
        if n == 0 {
            assert(line == "```"@);
        } else {
            let tail = line.drop_first();
            assert(tail == backslashes((n - 1) as nat) + "```"@);
            law_fences_are_backslashes_and_a_fence(tail);
        }
    }
}

/// A line of code that looks like a fence is written with one more backslash, every
/// other one as it is.
pub proof fn law_only_fences_in_code_are_guarded(line: Seq<char>)
    ensures
        dsl::fence_like(line) ==> dsl::code_line(line) == seq!['\\'] + line,
        !dsl::fence_like(line) ==> dsl::code_line(line) == line,
{
}

// ---------------------------------------------------------------------------
// Errors
// ---------------------------------------------------------------------------

/// A line that denotes nothing is an error, which says what is wrong and gives the
/// number of the line, counted from one over all lines of the text.
pub proof fn law_an_error_names_its_line(
    input: &str,
    id: AuthorId,
    front: Seq<Seq<char>>,
    line: Seq<char>,
    rest: Seq<Seq<char>>,
    r: Result<Document, DslError>,
)
    requires
        call_ensures(dsl::parse, (input, id), r),
        text::lines_of(input@) == front + seq![line] + rest,
        dsl::parsed(front, 1, id@) is Ok,
        front.len() < usize::MAX,
        line.len() > 0,
    ensures
        ({
            let n = (front.len() + 1) as usize;
            let c = line[0];
            let fence = line.len() >= 3 && c == '`' && line[1] == '`' && line[2] == '`';
            let inline = c == ':' || c == '-' || c == '>';
            &&& (!inline && c != '#' && !fence) || (inline && line.len() > 1 && line[1] != ' ')
                ==> r == Result::<Document, DslError>::Err(DslError::UnknownBlock(n))
            &&& c == '#' && (line.len() == 1 || line[1] < '1' || line[1] > '6' || (line.len() > 2
                && line[2] != ' ')) ==> r == Result::<Document, DslError>::Err(
                DslError::BadHeadingLevel(n),
            )
            &&& fence && (forall|k: int| 0 <= k < rest.len() ==> #[trigger] rest[k] != "```"@)
                ==> r == Result::<Document, DslError>::Err(DslError::UnterminatedCode(n))
            &&& inline && line.len() > 1 && line[1] == ' ' && dsl::unescaped(line.skip(2)) is None
                ==> r == Result::<Document, DslError>::Err(DslError::BadEscape(n))
            &&& c == '#' && line.len() > 2 && '1' <= line[1] <= '6' && line[2] == ' '
                && dsl::unescaped(line.skip(3)) is None ==> r == Result::<Document, DslError>::Err(
                DslError::BadEscape(n),
            )
        }),
{
    let back = seq![line] + rest;
    assert(front + seq![line] + rest == front + back);
    lemma_behind(front, back, 1, id@);
    lemma_starts(line);
    assert(back[0] == line);
    assert(back.drop_first() == rest);
    let after = line.skip(1);
    if line.len() > 1 {
        assert(after[0] == line[1]);
    }
    if line.len() > 2 {
        assert(after[1] == line[2]);
        assert(after.skip(2) == line.skip(3));
    }
    if forall|k: int| 0 <= k < rest.len() ==> #[trigger] rest[k] != "```"@ {
        lemma_closing_fence(rest, Seq::empty());
    }
}

/// What a failed parse says gives the line.
pub proof fn law_parse_errors_give_the_line(e: &DslError, s: String)
    requires
        call_ensures(DslError::message, (e,), s),
    ensures
        match *e {
            DslError::UnknownBlock(n) => s@ == "line "@ + text::decimal(n as nat)
                + ": unrecognized block syntax (no known sigil)"@,
            DslError::BadHeadingLevel(n) => s@ == "line "@ + text::decimal(n as nat)
                + ": heading level must be a digit 1-6 followed by a space"@,
            DslError::UnterminatedCode(n) => s@ == "line "@ + text::decimal(n as nat)
                + ": unterminated code block (missing closing ```)"@,
            DslError::BadEscape(n) => s@ == "line "@ + text::decimal(n as nat)
                + ": invalid '\\' escape (expected '\\\\' or '\\n')"@,
        },
{
}

// ---------------------------------------------------------------------------
// Writing
// ---------------------------------------------------------------------------

/// Documents in a row are written in a row.
pub proof fn law_documents_in_a_row_are_written_in_a_row(a: Seq<BlockView>, b: Seq<BlockView>)
    ensures
        dsl::document_lines(a + b) == dsl::document_lines(a) + dsl::document_lines(b),
        dsl::document_lines(Seq::empty()) == Seq::<Seq<char>>::empty(),
    decreases a.len(),
{
    if a.len() == 0 {
        assert(a + b == b);
        assert(dsl::document_lines(a) + dsl::document_lines(b) == dsl::document_lines(b));
    } else {
        assert((a + b).drop_first() == a.drop_first() + b);
        law_documents_in_a_row_are_written_in_a_row(a.drop_first(), b);
        assert(dsl::document_lines(a + b) == dsl::document_lines(a) + dsl::document_lines(b));
    }
}

/// The sigil of a heading: a hash sign and its level, those below one as one and
/// those above six as six.
pub open spec fn heading_sigil(level: u8) -> Seq<char> {
    if level <= 1 {
        seq!['#', '1']
    } else if level == 2 {
        seq!['#', '2']
    } else if level == 3 {
        seq!['#', '3']
    } else if level == 4 {
        seq!['#', '4']
    } else if level == 5 {
        seq!['#', '5']
    } else {
        seq!['#', '6']
    }
}

/// A prose line: the sigil alone, or the sigil, a space and the escaped prose.
pub open spec fn line_of(sigil: Seq<char>, runs: Runs) -> Seq<char> {
    if content::plain_text(runs).len() == 0 {
        sigil
    } else {
        sigil + seq![' '] + dsl::escaped(content::plain_text(runs))
    }
}

/// A prose block is written as one line behind its sigil, and code as its lines
/// between two fences, the first with its language.
pub proof fn law_each_block_is_written_behind_its_sigil(block: BlockView)
    ensures
        match block {
            BlockView::Paragraph(t) => dsl::document_lines(seq![block]) == seq![
                line_of(seq![':'], t),
            ],
            BlockView::ListItem(t) => dsl::document_lines(seq![block]) == seq![
                line_of(seq!['-'], t),
            ],
            BlockView::Quote(t) => dsl::document_lines(seq![block]) == seq![line_of(seq!['>'], t)],
            BlockView::Heading { level, text } => dsl::document_lines(seq![block]) == seq![
                line_of(heading_sigil(level), text),
            ],
            BlockView::CodeBlock { lang, code } => {
                let lines = dsl::document_lines(seq![block]);
                let pieces = text::pieces(code);
                &&& lines.len() == pieces.len() + 2
                &&& lines[0] == "```"@ + dsl::lang_text(lang)
                &&& lines[lines.len() - 1] == "```"@
                &&& forall|i: int|
                    0 <= i < pieces.len() ==> lines[i + 1] == dsl::code_line(#[trigger] pieces[i])
            },
        },
{
    reveal_strlit(":");
    reveal_strlit("-");
    reveal_strlit(">");
    assert(":"@ == seq![':']);
    assert("-"@ == seq!['-']);
    assert(">"@ == seq!['>']);
    assert(seq![block].drop_first() =~= Seq::empty());
    assert(dsl::document_lines(seq![block].drop_first()) =~= Seq::empty());
    assert(dsl::document_lines(seq![block]) == dsl::block_lines(block));
    if let BlockView::Heading { level, text } = block {
        assert(seq!['#', text::digit(dsl::clamped(level) as int)] == heading_sigil(level));
    }
}

} // verus!
