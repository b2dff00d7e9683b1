//! How parsing and serializing relate.

use crate::content;
use crate::content::{Author, BlockView, Runs};
use crate::dsl;
use crate::dsl::DslError;
use crate::text;
use vstd::prelude::*;

verus! {

// ---------------------------------------------------------------------------
// Inline escapes
// ---------------------------------------------------------------------------

proof fn lemma_escaped_first(s: Seq<char>)
    requires
        s.len() > 0,
    ensures
        dsl::escaped(s) == dsl::escaped_char(s[0]) + dsl::escaped(s.drop_first()),
    decreases s.len(),
{
    let rest = s.drop_first();
    if s.len() == 1 {
        assert(s.drop_last() == Seq::<char>::empty());
        assert(rest == Seq::<char>::empty());
        assert(dsl::escaped(s.drop_last()) == Seq::<char>::empty());
        assert(dsl::escaped(rest) == Seq::<char>::empty());
        assert(dsl::escaped(s) == dsl::escaped_char(s[0]) + dsl::escaped(rest));
    } else {
        lemma_escaped_first(s.drop_last());
        assert(s.drop_last().drop_first() == rest.drop_last());
        let mid = dsl::escaped(rest.drop_last());
        assert((dsl::escaped_char(s[0]) + mid) + dsl::escaped_char(s.last())
            == dsl::escaped_char(s[0]) + (mid + dsl::escaped_char(s.last())));
    }
}

/// Reading escaped prose gives back the prose.
pub proof fn law_unescape_inverts_escape(s: Seq<char>)
    ensures
        dsl::unescaped(dsl::escaped(s)) == Some(s),
    decreases s.len(),
{
    if s.len() == 0 {
        assert(s == Seq::<char>::empty());
    } else {
        let rest = s.drop_first();
        lemma_escaped_first(s);
        law_unescape_inverts_escape(rest);
        let all = dsl::escaped(s);
        let tail = dsl::escaped(rest);
        assert(seq![s[0]] + rest == s);
        if s[0] == '\\' || s[0] == '\n' {
            assert(all.skip(2) == tail);
        } else {
            assert(all.drop_first() == tail);
        }
    }
}

/// Writing what an escaped stretch of a line denotes gives back the stretch.
pub proof fn law_escape_inverts_unescape(s: Seq<char>)
    requires
        !s.contains('\n'),
        dsl::unescaped(s) is Some,
    ensures
        dsl::escaped(dsl::unescaped(s)->0) == s,
    decreases s.len(),
{
    if s.len() > 0 {
        assert(s.contains(s[0]));
        let (c, rest) = if s[0] != '\\' {
            (s[0], s.drop_first())
        } else if s[1] == '\\' {
            ('\\', s.skip(2))
        } else {
            ('\n', s.skip(2))
        };
        assert(!rest.contains('\n')) by {
            if rest.contains('\n') {
                let k = rest.index_of('\n');
                assert(s[k + (s.len() - rest.len())] == '\n');
            }
        }
        law_escape_inverts_unescape(rest);
        let plain = dsl::unescaped(rest)->0;
        let all = seq![c] + plain;
        assert(dsl::unescaped(s) == Some(all));
        lemma_escaped_first(all);
        assert(all.drop_first() == plain);
        if s[0] != '\\' {
            assert(seq![s[0]] + rest == s);
        } else {
            assert(seq![s[0], s[1]] + rest == s);
        }
    }
}

/// Escaped prose holds no line feed, and ends as the prose does unless that ends
/// in a line feed.
proof fn lemma_escaped_shape(s: Seq<char>)
    ensures
        !dsl::escaped(s).contains('\n'),
        dsl::escaped(s).len() >= s.len(),
        s.len() > 0 ==> dsl::escaped(s).last() == if s.last() == '\n' {
            'n'
        } else {
            s.last()
        },
    decreases s.len(),
{
    if s.len() > 0 {
        lemma_escaped_shape(s.drop_last());
        let front = dsl::escaped(s.drop_last());
        let back = dsl::escaped_char(s.last());
        let all = dsl::escaped(s);
        assert(all.last() == back.last());
        if all.contains('\n') {
            let k = all.index_of('\n');
            if k < front.len() {
                assert(front[k] == '\n');
            } else {
                assert(back[k - front.len()] == '\n');
            }
        }
    }
}

// ---------------------------------------------------------------------------
// Lines of code and languages
// ---------------------------------------------------------------------------

/// Reading how a line of code is written gives back the line, and it is not
/// written as a closing fence.
pub proof fn law_code_lines_come_back(line: Seq<char>)
    ensures
        dsl::code_of(dsl::code_line(line)) == line,
        dsl::code_line(line) != "```"@,
{
    reveal_strlit("```");
    if dsl::fence_like(line) {
        assert(dsl::code_line(line).drop_first() == line);
        assert("```"@[0] == '`');
    }
}

/// Writing what a line before the closing fence denotes gives back the line.
pub proof fn law_written_code_lines_stay(line: Seq<char>)
    requires
        line != "```"@,
    ensures
        dsl::code_line(dsl::code_of(line)) == line,
{
    if line.len() > 0 && line[0] == '\\' && dsl::fence_like(line.drop_first()) {
        assert(seq!['\\'] + line.drop_first() == line);
    }
}

proof fn lemma_code_line_no_feed(line: Seq<char>)
    requires
        !line.contains('\n'),
    ensures
        !dsl::code_line(line).contains('\n'),
        !dsl::code_of(line).contains('\n'),
{
    if dsl::code_line(line).contains('\n') {
        let k = dsl::code_line(line).index_of('\n');
        assert(line[k - 1] == '\n');
    }
    if dsl::code_of(line).contains('\n') {
        let k = dsl::code_of(line).index_of('\n');
        assert(line[k + 1] == '\n');
    }
}

/// A stretch that begins and ends in something else than white space is trimmed.
proof fn lemma_trimmed_stays(s: Seq<char>)
    requires
        s.len() > 0,
        !text::is_white(s[0]),
        !text::is_white(s.last()),
    ensures
        text::trimmed(s) == s,
{
}

proof fn lemma_quoted(lang: Seq<char>)
    ensures
        dsl::unquoted(dsl::quoted(lang)) == Some(lang),
        text::trimmed(dsl::quoted(lang)) == dsl::quoted(lang),
        dsl::quoted(lang).len() >= 2,
        !dsl::quoted(lang).contains('\n'),
{
    let q = dsl::quoted(lang);
    law_unescape_inverts_escape(lang);
    lemma_escaped_shape(lang);
    assert(q[0] == '\\');
    assert(q.last() == '\\');
    assert(q.subrange(1, q.len() - 1) == dsl::escaped(lang));
    lemma_trimmed_stays(q);
    if q.contains('\n') {
        let k = q.index_of('\n');
        assert(dsl::escaped(lang)[k - 1] == '\n');
    }
}

/// Every language comes back from how it is written, and so does none.
pub proof fn law_languages_come_back(lang: Option<Seq<char>>)
    ensures
        dsl::lang_of(dsl::lang_text(lang)) == lang,
{
    match lang {
        None => {
            assert(text::trimmed(Seq::<char>::empty()).len() == 0);
        },
        Some(l) => {
            if !dsl::plain_lang(l) {
                lemma_quoted(l);
            }
        },
    }
}

/// Writing the language that a stretch behind an opening fence names gives back
/// the stretch, without the white space around it.
pub proof fn law_written_languages_stay(after: Seq<char>)
    requires
        !after.contains('\n'),
    ensures
        dsl::lang_text(dsl::lang_of(after)) == text::trimmed(after),
{
    let t = text::trimmed(after);
    text::lemma_trimmed(after);
    if t.len() == 0 {
        assert(t == Seq::<char>::empty());
    } else {
        assert(!t.contains('\n'));
        match dsl::unquoted(t) {
            Some(inner) => {
                if !dsl::plain_lang(inner) {
                    let mid = t.subrange(1, t.len() - 1);
                    if mid.contains('\n') {
                        let k = mid.index_of('\n');
                        assert(t[k + 1] == '\n');
                    }
                    law_escape_inverts_unescape(mid);
                    assert(seq!['\\'] + mid + seq!['\\'] == t);
                }
            },
            None => {},
        }
    }
}

// ---------------------------------------------------------------------------
// Parsing what was serialized
// ---------------------------------------------------------------------------

/// Prose that `author` wrote alone, in one run.
pub open spec fn sole_prose(runs: Runs, author: Author) -> bool {
    runs == content::single_run(content::plain_text(runs), author)
}

/// A block as parsing yields it: its prose is `author`'s alone and in one run, and
/// a heading's level is 1–6.
pub open spec fn expressible(block: BlockView, author: Author) -> bool {
    match block {
        BlockView::Paragraph(t) => sole_prose(t, author),
        BlockView::ListItem(t) => sole_prose(t, author),
        BlockView::Quote(t) => sole_prose(t, author),
        BlockView::Heading { level, text } => 1 <= level <= 6 && sole_prose(text, author),
        BlockView::CodeBlock { lang: _, code: _ } => true,
    }
}

/// Every block of the document is [`expressible`].
pub open spec fn all_expressible(blocks: Seq<BlockView>, author: Author) -> bool {
    forall|i: int| 0 <= i < blocks.len() ==> expressible(#[trigger] blocks[i], author)
}

/// The sigil of a prose block.
spec fn sigil_of(block: BlockView) -> Seq<char> {
    match block {
        BlockView::Paragraph(_) => seq![':'],
        BlockView::ListItem(_) => seq!['-'],
        BlockView::Quote(_) => seq!['>'],
        BlockView::Heading { level, text: _ } => seq![
            '#',
            text::digit(dsl::clamped(level) as int),
        ],
        BlockView::CodeBlock { lang: _, code: _ } => Seq::empty(),
    }
}

proof fn lemma_prose_text(block: BlockView)
    requires
        !(block is CodeBlock),
    ensures
        dsl::prose_line(block) == if block.plain().len() == 0 {
            sigil_of(block)
        } else {
            sigil_of(block) + seq![' '] + dsl::escaped(block.plain())
        },
{
    reveal_strlit(":");
    reveal_strlit("-");
    reveal_strlit(">");
    assert(":"@ == seq![':']);
    assert("-"@ == seq!['-']);
    assert(">"@ == seq!['>']);
}

proof fn lemma_prose_line(block: BlockView)
    requires
        !(block is CodeBlock),
    ensures
        ({
            let line = dsl::prose_line(block);
            &&& line.len() > 0
            &&& !line.contains('\n')
            &&& line[0] != '`'
        }),
{
    lemma_prose_text(block);
    let line = dsl::prose_line(block);
    let sigil = sigil_of(block);
    let plain = block.plain();
    lemma_escaped_shape(plain);
    assert forall|k: int| 0 <= k < line.len() implies line[k] != '\n' by {
        if sigil.len() < k {
            assert(line[k] == dsl::escaped(plain)[k - sigil.len() - 1]);
            assert(dsl::escaped(plain).contains(line[k]));
        }
    }
}

proof fn lemma_prose_parses(block: BlockView, lineno: usize, author: Author)
    requires
        !(block is CodeBlock),
        expressible(block, author),
    ensures
        dsl::block_of(dsl::prose_line(block), lineno, author) == Ok::<BlockView, DslError>(block),
{
    reveal_strlit(": ");
    reveal_strlit("- ");
    reveal_strlit("> ");
    reveal_strlit("#");
    reveal_strlit(":");
    reveal_strlit("-");
    reveal_strlit(">");
    lemma_prose_text(block);
    let line = dsl::prose_line(block);
    let sigil = sigil_of(block);
    let plain = block.plain();
    let esc = dsl::escaped(plain);
    law_unescape_inverts_escape(plain);
    assert(line[0] == sigil[0]);
    if line.len() > 1 {
        assert(line.take(2)[0] == line[0]);
        assert(line.take(2)[1] == line[1]);
        assert(": "@[0] == ':' && "- "@[0] == '-' && "> "@[0] == '>');
    }
    if block is Heading {
        assert(line.take(1)[0] == line[0]);
        assert(line.take(1) == "#"@);
        let after = line.skip(1);
        assert(after[0] == sigil[1]);
        if plain.len() > 0 {
            assert(after[1] == ' ');
            assert(after.skip(2) == esc);
        } else {
            assert(after.skip(1) == Seq::<char>::empty());
            assert(plain == Seq::<char>::empty());
        }
    } else {
        assert(line.take(1)[0] == line[0]);
        if plain.len() > 0 {
            assert(line[1] == ' ');
            assert(line.skip(2) == esc);
            if block is Paragraph {
                assert(line.take(2) == ": "@);
            } else if block is ListItem {
                assert(line.take(2) == "- "@);
            } else {
                assert(line.take(2) == "> "@);
            }
        } else {
            if block is Paragraph {
                assert(line == ":"@);
            } else if block is ListItem {
                assert(line == "-"@);
                assert(":"@[0] == ':');
            } else {
                assert(line == ">"@);
                assert(":"@[0] == ':' && "-"@[0] == '-');
            }
        }
    }
}

/// No line before the closing fence is one.
proof fn lemma_fence_behind(body: Seq<Seq<char>>, rest: Seq<Seq<char>>)
    requires
        forall|k: int| 0 <= k < body.len() ==> #[trigger] body[k] != "```"@,
    ensures
        dsl::fence_at(body + seq!["```"@] + rest) == body.len(),
    decreases body.len(),
{
    let all = body + seq!["```"@] + rest;
    if body.len() == 0 {
        assert(all[0] == "```"@);
    } else {
        let tail = body.drop_first();
        assert(all[0] == body[0]);
        assert(all.drop_first() == tail + seq!["```"@] + rest);
        assert forall|k: int| 0 <= k < tail.len() implies #[trigger] tail[k] != "```"@ by {
            assert(tail[k] == body[k + 1]);
        }
        lemma_fence_behind(tail, rest);
    }
}

proof fn lemma_lines_parse(blocks: Seq<BlockView>, lineno: int, author: Author)
    requires
        all_expressible(blocks, author),
    ensures
        dsl::parsed(dsl::document_lines(blocks), lineno, author) == Ok::<Seq<BlockView>, DslError>(
            blocks,
        ),
    decreases blocks.len(),
{
    reveal_strlit("```");
    if blocks.len() == 0 {
        assert(blocks == Seq::<BlockView>::empty());
    } else {
        let block = blocks[0];
        let rest = blocks.drop_first();
        let tail = dsl::document_lines(rest);
        let all = dsl::document_lines(blocks);
        assert(expressible(block, author));
        assert(all_expressible(rest, author)) by {
            assert forall|i: int| 0 <= i < rest.len() implies expressible(
                #[trigger] rest[i],
                author,
            ) by {
                assert(rest[i] == blocks[i + 1]);
            }
        }
        assert(seq![block] + rest == blocks);
        match block {
            BlockView::CodeBlock { lang, code } => {
                let name = dsl::lang_text(lang);
                let open = "```"@ + name;
                let own = text::pieces(code);
                let body = dsl::code_lines(own);
                let after = all.drop_first();
                assert(all[0] == open);
                assert(open.take(3) == "```"@);
                assert(open.skip(3) == name);
                assert(after == body + seq!["```"@] + tail);
                assert forall|k: int| 0 <= k < body.len() implies #[trigger] body[k] != "```"@ by {
                    law_code_lines_come_back(own[k]);
                }
                lemma_fence_behind(body, tail);
                assert(dsl::codes_of(body) == own) by {
                    assert forall|k: int| 0 <= k < own.len() implies dsl::codes_of(body)[k]
                        == own[k] by {
                        law_code_lines_come_back(own[k]);
                    }
                }
                text::lemma_pieces(code);
                assert(after.take(body.len() as int) == body);
                assert(all.skip(body.len() as int + 2) == tail);
                reveal_strlit("\n");
                assert("\n"@ == seq!['\n']);
                lemma_lines_parse(rest, lineno + body.len() + 2, author);
                law_languages_come_back(lang);
            },
            _ => {
                lemma_prose_parses(block, lineno as usize, author);
                lemma_prose_line(block);
                let line = dsl::prose_line(block);
                assert(all[0] == line);
                assert(!text::begins_with(line, "```"@)) by {
                    if text::begins_with(line, "```"@) {
                        assert(line.take(3)[0] == line[0]);
                    }
                }
                assert(all.drop_first() == tail);
                lemma_lines_parse(rest, lineno + 1, author);
            },
        }
    }
}

/// No line of a document holds a line feed, and the last one is not empty.
proof fn lemma_lines_sound(blocks: Seq<BlockView>)
    ensures
        ({
            let lines = dsl::document_lines(blocks);
            &&& forall|k: int| 0 <= k < lines.len() ==> !(#[trigger] lines[k]).contains('\n')
            &&& blocks.len() > 0 ==> lines.len() > 0
            &&& lines.len() > 0 ==> lines.last().len() > 0
        }),
    decreases blocks.len(),
{
    if blocks.len() > 0 {
        let rest = blocks.drop_first();
        let first = dsl::block_lines(blocks[0]);
        let tail = dsl::document_lines(rest);
        let lines = dsl::document_lines(blocks);
        lemma_lines_sound(rest);
        lemma_block_lines_sound(blocks[0]);
        assert forall|k: int| 0 <= k < lines.len() implies !(#[trigger] lines[k]).contains(
            '\n',
        ) by {
            if k < first.len() {
                assert(lines[k] == first[k]);
            } else {
                assert(lines[k] == tail[k - first.len()]);
            }
        }
        if rest.len() > 0 {
            assert(lines.last() == tail.last());
        } else {
            assert(lines == first);
        }
    }
}

proof fn lemma_block_lines_sound(block: BlockView)
    ensures
        ({
            let lines = dsl::block_lines(block);
            &&& lines.len() > 0
            &&& forall|k: int| 0 <= k < lines.len() ==> !(#[trigger] lines[k]).contains('\n')
            &&& lines.last().len() > 0
        }),
{
    reveal_strlit("```");
    let lines = dsl::block_lines(block);
    match block {
        BlockView::CodeBlock { lang, code } => {
            let name = dsl::lang_text(lang);
            let open = "```"@ + name;
            let own = text::pieces(code);
            let body = dsl::code_lines(own);
            text::lemma_pieces(code);
            assert(!name.contains('\n')) by {
                if lang is Some {
                    lemma_quoted(lang->0);
                }
            }
            assert(!open.contains('\n')) by {
                if open.contains('\n') {
                    let k = open.index_of('\n');
                    assert(name[k - 3] == '\n');
                }
            }
            assert forall|k: int| 0 <= k < lines.len() implies !(#[trigger] lines[k]).contains(
                '\n',
            ) by {
                if k == 0 {
                    assert(lines[k] == open);
                } else if k <= body.len() {
                    assert(lines[k] == body[k - 1]);
                    assert(!own[k - 1].contains('\n'));
                    lemma_code_line_no_feed(own[k - 1]);
                } else {
                    assert(lines[k] == "```"@);
                }
            }
            assert(lines.last() == "```"@);
        },
        _ => {
            lemma_prose_line(block);
        },
    }
}

/// Parsing what [`serialize`](dsl::serialize) writes of a document gives back the
/// document: of any whose prose is `author`'s alone and in one run per block, and
/// whose heading levels are 1–6.
pub proof fn law_parse_inverts_serialize(blocks: Seq<BlockView>, author: Author)
    requires
        all_expressible(blocks, author),
    ensures
        dsl::parsed(text::lines_of(text::written(dsl::document_lines(blocks))), 1, author) == Ok::<
            Seq<BlockView>,
            DslError,
        >(blocks),
{
    lemma_lines_sound(blocks);
    text::lemma_lines_of_written(dsl::document_lines(blocks));
    lemma_lines_parse(blocks, 1, author);
}

// ---------------------------------------------------------------------------
// Serializing what was parsed
// ---------------------------------------------------------------------------

/// A line without the space behind a sigil that nothing follows.
pub open spec fn bare(line: Seq<char>) -> Seq<char> {
    if line == ": "@ || line == "- "@ || line == "> "@ || (line.len() == 3 && line[0] == '#'
        && line[2] == ' ') {
        line.drop_last()
    } else {
        line
    }
}

/// The canonical form of `lines`: blank lines between blocks are dropped, an
/// empty block is its bare sigil, a language has no white space around it, and an
/// empty code body takes one line.
pub open spec fn canonical(lines: Seq<Seq<char>>) -> Seq<Seq<char>>
    decreases lines.len(),
{
    if lines.len() == 0 {
        Seq::empty()
    } else if lines[0].len() == 0 {
        canonical(lines.drop_first())
    } else if text::begins_with(lines[0], "```"@) {
        let body = lines.drop_first();
        let n = dsl::fence_at(body);
        if 0 <= n < body.len() {
            seq!["```"@ + text::trimmed(lines[0].skip(3))] + (if n == 0 {
                seq![Seq::<char>::empty()]
            } else {
                body.take(n)
            }) + seq!["```"@] + canonical(lines.skip(n + 2))
        } else {
            Seq::empty()
        }
    } else {
        seq![bare(lines[0])] + canonical(lines.drop_first())
    }
}

proof fn lemma_single_run_text(plain: Seq<char>, author: Author)
    ensures
        content::plain_text(content::single_run(plain, author)) == plain,
        sole_prose(content::single_run(plain, author), author),
{
    if plain.len() > 0 {
        assert(Runs::empty().push((plain, author)) == content::single_run(plain, author));
        content::lemma_plain_text_push(Runs::empty(), plain, author);
        assert(Seq::<char>::empty() + plain == plain);
    } else {
        assert(plain == Seq::<char>::empty());
    }
}

/// What a stretch of a line denotes, and how that is written again.
proof fn lemma_rich(s: Seq<char>, lineno: usize, author: Author)
    requires
        !s.contains('\n'),
        dsl::rich_of(s, lineno, author) is Ok,
    ensures
        ({
            let runs = dsl::rich_of(s, lineno, author)->Ok_0;
            &&& sole_prose(runs, author)
            &&& dsl::escaped(content::plain_text(runs)) == s
            &&& content::plain_text(runs).len() == 0 <==> s.len() == 0
        }),
{
    let plain = dsl::unescaped(s)->0;
    lemma_single_run_text(plain, author);
    law_escape_inverts_unescape(s);
    lemma_escaped_shape(plain);
}

proof fn lemma_no_feed_after(line: Seq<char>, n: int)
    requires
        !line.contains('\n'),
        0 <= n <= line.len(),
    ensures
        !line.skip(n).contains('\n'),
{
    if line.skip(n).contains('\n') {
        let k = line.skip(n).index_of('\n');
        assert(line[n + k] == '\n');
    }
}

proof fn lemma_prose_line_back(line: Seq<char>, lineno: usize, author: Author)
    requires
        !line.contains('\n'),
        dsl::block_of(line, lineno, author) is Ok,
    ensures
        ({
            let block = dsl::block_of(line, lineno, author)->Ok_0;
            &&& !(block is CodeBlock)
            &&& expressible(block, author)
            &&& dsl::prose_line(block) == bare(line)
        }),
{
    reveal_strlit(": ");
    reveal_strlit("- ");
    reveal_strlit("> ");
    reveal_strlit("#");
    reveal_strlit(":");
    reveal_strlit("-");
    reveal_strlit(">");
    let block = dsl::block_of(line, lineno, author)->Ok_0;
    lemma_single_run_text(Seq::empty(), author);
    if text::begins_with(line, ": "@) || text::begins_with(line, "- "@) || text::begins_with(
        line,
        "> "@,
    ) {
        lemma_no_feed_after(line, 2);
        lemma_rich(line.skip(2), lineno, author);
        assert(line[0] == line.take(2)[0]);
        assert(line[1] == line.take(2)[1]);
        lemma_prose_text(block);
        assert(sigil_of(block) == seq![line[0]]);
        if line.len() == 2 {
            assert(line == line.take(2));
            assert(bare(line) == seq![line[0]]);
        } else {
            assert(seq![line[0]] + seq![' '] + line.skip(2) == line);
            assert(bare(line) == line);
        }
    } else if text::begins_with(line, "#"@) {
        assert(line[0] == line.take(1)[0]);
        let after = line.skip(1);
        assert(after[0] == line[1]);
        let n = if after.len() == 1 {
            1int
        } else {
            2
        };
        assert(after.skip(n) == line.skip(n + 1));
        lemma_no_feed_after(line, n + 1);
        lemma_rich(line.skip(n + 1), lineno, author);
        lemma_prose_text(block);
        assert(sigil_of(block) == seq!['#', line[1]]);
        assert(line != ": "@ && line != "- "@ && line != "> "@) by {
            assert(": "@[0] == ':' && "- "@[0] == '-' && "> "@[0] == '>');
        }
        if line.len() == 2 {
            assert(line == seq!['#', line[1]]);
        } else {
            assert(line[2] == after[1]);
            if line.len() == 3 {
                assert(line.drop_last() == seq!['#', line[1]]);
            } else {
                assert(seq!['#', line[1]] + seq![' '] + line.skip(3) == line);
            }
        }
    } else {
        lemma_prose_text(block);
        assert(line.len() == 1);
        assert(block.plain().len() == 0);
        assert(sigil_of(block) == line);
    }
}

/// What parsed lines are written on again, and that the syntax can express what
/// they denote.
proof fn lemma_parsed_lines(lines: Seq<Seq<char>>, lineno: int, author: Author)
    requires
        forall|k: int| 0 <= k < lines.len() ==> !(#[trigger] lines[k]).contains('\n'),
        dsl::parsed(lines, lineno, author) is Ok,
    ensures
        dsl::document_lines(dsl::parsed(lines, lineno, author)->Ok_0) == canonical(lines),
        all_expressible(dsl::parsed(lines, lineno, author)->Ok_0, author),
    decreases lines.len(),
{
    reveal_strlit("```");
    if lines.len() > 0 {
        let blocks = dsl::parsed(lines, lineno, author)->Ok_0;
        let first = lines[0];
        assert(!lines[0].contains('\n'));
        if first.len() == 0 {
            lemma_tail_clean(lines, 1);
            assert(lines.skip(1) == lines.drop_first());
            lemma_parsed_lines(lines.drop_first(), lineno + 1, author);
        } else if text::begins_with(first, "```"@) {
            let body = lines.drop_first();
            let n = dsl::fence_at(body);
            dsl::lemma_fence_at(body);
            let lang = dsl::lang_of(first.skip(3));
            let code = text::joined(dsl::codes_of(body.take(n)), "\n"@);
            reveal_strlit("\n");
            assert("\n"@ == seq!['\n']);
            let block = BlockView::CodeBlock { lang, code };
            let rest = dsl::parsed(lines.skip(n + 2), lineno + n + 2, author)->Ok_0;
            lemma_tail_clean(lines, n + 2);
            lemma_parsed_lines(lines.skip(n + 2), lineno + n + 2, author);
            let own = if n == 0 {
                seq![Seq::<char>::empty()]
            } else {
                body.take(n)
            };
            let codes = dsl::codes_of(own);
            assert forall|k: int| 0 <= k < own.len() implies !(#[trigger] codes[k]).contains('\n')
                && dsl::code_line(codes[k]) == own[k] by {
                if n > 0 {
                    assert(own[k] == body[k]);
                    assert(own[k] == lines[k + 1]);
                }
                lemma_code_line_no_feed(own[k]);
                law_written_code_lines_stay(own[k]);
            }
            text::lemma_pieces_of_joined(codes);
            assert(text::joined(codes, seq!['\n']) == code) by {
                if n == 0 {
                    assert(dsl::codes_of(body.take(0)) == Seq::<Seq<char>>::empty());
                    assert(codes[0] == Seq::<char>::empty());
                    assert(codes == seq![Seq::<char>::empty()]);
                }
            }
            assert(dsl::code_lines(text::pieces(code)) == own);
            lemma_no_feed_after(first, 3);
            law_written_languages_stay(first.skip(3));
            assert(blocks == seq![block] + rest);
            assert(blocks.drop_first() == rest);
            assert(dsl::block_lines(block) == seq!["```"@ + text::trimmed(first.skip(3))] + own
                + seq!["```"@]);
            lemma_expressible_cons(block, rest, author);
        } else {
            let block = dsl::block_of(first, lineno as usize, author)->Ok_0;
            let rest = dsl::parsed(lines.drop_first(), lineno + 1, author)->Ok_0;
            lemma_prose_line_back(first, lineno as usize, author);
            lemma_tail_clean(lines, 1);
            assert(lines.skip(1) == lines.drop_first());
            lemma_parsed_lines(lines.drop_first(), lineno + 1, author);
            assert(blocks == seq![block] + rest);
            assert(blocks.drop_first() == rest);
            lemma_expressible_cons(block, rest, author);
        }
    }
}

proof fn lemma_tail_clean(lines: Seq<Seq<char>>, n: int)
    requires
        0 <= n <= lines.len(),
        forall|k: int| 0 <= k < lines.len() ==> !(#[trigger] lines[k]).contains('\n'),
    ensures
        forall|k: int| 0 <= k < lines.skip(n).len() ==> !(#[trigger] lines.skip(n)[k]).contains(
            '\n',
        ),
{
    assert forall|k: int| 0 <= k < lines.skip(n).len() implies !(#[trigger] lines.skip(
        n,
    )[k]).contains('\n') by {
        assert(lines.skip(n)[k] == lines[n + k]);
    }
}

proof fn lemma_expressible_cons(block: BlockView, rest: Seq<BlockView>, author: Author)
    requires
        expressible(block, author),
        all_expressible(rest, author),
    ensures
        all_expressible(seq![block] + rest, author),
{
    let all = seq![block] + rest;
    assert forall|i: int| 0 <= i < all.len() implies expressible(#[trigger] all[i], author) by {
        if i > 0 {
            assert(all[i] == rest[i - 1]);
        }
    }
}

/// Serializing what a text parses to gives the canonical form of the text.
pub proof fn law_serialize_yields_the_canonical_form(input: Seq<char>, author: Author)
    requires
        dsl::parsed(text::lines_of(input), 1, author) is Ok,
    ensures
        ({
            let blocks = dsl::parsed(text::lines_of(input), 1, author)->Ok_0;
            text::written(dsl::document_lines(blocks)) == text::written(
                canonical(text::lines_of(input)),
            )
        }),
{
    text::lemma_lines_hold_no_feed(input);
    lemma_parsed_lines(text::lines_of(input), 1, author);
}

/// A document that was parsed is parsed again from its serialized text.
pub proof fn law_parsed_documents_round_trip(input: Seq<char>, author: Author)
    requires
        dsl::parsed(text::lines_of(input), 1, author) is Ok,
    ensures
        ({
            let blocks = dsl::parsed(text::lines_of(input), 1, author)->Ok_0;
            dsl::parsed(text::lines_of(text::written(dsl::document_lines(blocks))), 1, author)
                == Ok::<Seq<BlockView>, DslError>(blocks)
        }),
{
    text::lemma_lines_hold_no_feed(input);
    lemma_parsed_lines(text::lines_of(input), 1, author);
    law_parse_inverts_serialize(dsl::parsed(text::lines_of(input), 1, author)->Ok_0, author);
}

/// Every block of a parsed document is the author's alone, in one run where it is
/// not empty, and a heading's level is 1–6.
pub proof fn law_parsed_prose_is_the_authors(input: Seq<char>, author: Author)
    requires
        dsl::parsed(text::lines_of(input), 1, author) is Ok,
    ensures
        all_expressible(dsl::parsed(text::lines_of(input), 1, author)->Ok_0, author),
{
    text::lemma_lines_hold_no_feed(input);
    lemma_parsed_lines(text::lines_of(input), 1, author);
}

/// No line outside of code is blank.
pub open spec fn tight(lines: Seq<Seq<char>>) -> bool
    decreases lines.len(),
{
    if lines.len() == 0 {
        true
    } else if lines[0].len() == 0 {
        false
    } else if text::begins_with(lines[0], "```"@) {
        let body = lines.drop_first();
        let n = dsl::fence_at(body);
        0 <= n < body.len() ==> tight(lines.skip(n + 2))
    } else {
        tight(lines.drop_first())
    }
}

proof fn lemma_document_tight(blocks: Seq<BlockView>)
    ensures
        tight(dsl::document_lines(blocks)),
    decreases blocks.len(),
{
    reveal_strlit("```");
    if blocks.len() > 0 {
        let block = blocks[0];
        let rest = blocks.drop_first();
        let tail = dsl::document_lines(rest);
        let all = dsl::document_lines(blocks);
        lemma_document_tight(rest);
        match block {
            BlockView::CodeBlock { lang, code } => {
                let open = "```"@ + dsl::lang_text(lang);
                let own = text::pieces(code);
                let body = dsl::code_lines(own);
                assert(all[0] == open);
                assert(open.take(3) == "```"@);
                assert(all.drop_first() == body + seq!["```"@] + tail);
                assert forall|k: int| 0 <= k < body.len() implies #[trigger] body[k] != "```"@ by {
                    law_code_lines_come_back(own[k]);
                }
                lemma_fence_behind(body, tail);
                assert(all.skip(body.len() as int + 2) == tail);
            },
            _ => {
                lemma_prose_line(block);
                let line = dsl::prose_line(block);
                assert(all[0] == line);
                if text::begins_with(line, "```"@) {
                    assert(line.take(3)[0] == line[0]);
                }
                assert(all.drop_first() == tail);
            },
        }
    }
}

/// The serialized text of any document has no blank line outside of code, and no
/// line ending at its end.
pub proof fn law_serialized_text_is_tight(blocks: Seq<BlockView>)
    ensures
        ({
            let out = text::written(dsl::document_lines(blocks));
            &&& text::lines_of(out) == dsl::document_lines(blocks)
            &&& tight(text::lines_of(out))
            &&& out.len() > 0 ==> out.last() != '\n'
        }),
{
    let lines = dsl::document_lines(blocks);
    lemma_lines_sound(blocks);
    lemma_document_tight(blocks);
    text::lemma_lines_of_written(lines);
    text::lemma_written_last(lines);
    if lines.len() > 0 {
        assert(lines.last().contains(lines.last().last()));
    }
}

/// The canonical text of a source is its own canonical form: it is parsed to the
/// same document, which is serialized to it again; it has no blank line outside of
/// code and no line ending at its end.
pub proof fn law_canonical_text_is_its_own_form(input: Seq<char>, author: Author)
    requires
        dsl::parsed(text::lines_of(input), 1, author) is Ok,
    ensures
        ({
            let blocks = dsl::parsed(text::lines_of(input), 1, author)->Ok_0;
            let out = text::written(dsl::document_lines(blocks));
            let again = dsl::parsed(text::lines_of(out), 1, author);
            &&& again == Ok::<Seq<BlockView>, DslError>(blocks)
            &&& text::written(dsl::document_lines(again->Ok_0)) == out
            &&& canonical(text::lines_of(out)) == text::lines_of(out)
            &&& tight(text::lines_of(out))
            &&& out.len() > 0 ==> out.last() != '\n'
        }),
{
    let blocks = dsl::parsed(text::lines_of(input), 1, author)->Ok_0;
    let out = text::written(dsl::document_lines(blocks));
    law_parsed_documents_round_trip(input, author);
    law_serialized_text_is_tight(blocks);
    text::lemma_lines_hold_no_feed(out);
    lemma_parsed_lines(text::lines_of(out), 1, author);
}

/// Where no line ends in a carriage return, the serialized text is the lines of
/// the document joined by line feeds.
pub proof fn law_lines_are_joined_by_feeds(blocks: Seq<BlockView>)
    requires
        forall|k: int|
            0 <= k < dsl::document_lines(blocks).len() ==> text::chomped(
                #[trigger] dsl::document_lines(blocks)[k],
            ) == dsl::document_lines(blocks)[k],
    ensures
        text::written(dsl::document_lines(blocks)) == text::joined(
            dsl::document_lines(blocks),
            "\n"@,
        ),
{
    reveal_strlit("\n");
    assert("\n"@ == seq!['\n']);
    text::lemma_written_is_joined(dsl::document_lines(blocks));
}

// ---------------------------------------------------------------------------
// Texts in a row
// ---------------------------------------------------------------------------

/// Where a text stands does not change what it denotes.
proof fn lemma_parsed_anywhere(lines: Seq<Seq<char>>, m: int, n: int, author: Author)
    requires
        dsl::parsed(lines, m, author) is Ok,
    ensures
        dsl::parsed(lines, n, author) == dsl::parsed(lines, m, author),
    decreases lines.len(),
{
    if lines.len() > 0 {
        if lines[0].len() == 0 {
            lemma_parsed_anywhere(lines.drop_first(), m + 1, n + 1, author);
        } else if text::begins_with(lines[0], "```"@) {
            let k = dsl::fence_at(lines.drop_first());
            dsl::lemma_fence_at(lines.drop_first());
            lemma_parsed_anywhere(lines.skip(k + 2), m + k + 2, n + k + 2, author);
        } else {
            assert(dsl::block_of(lines[0], n as usize, author) == dsl::block_of(
                lines[0],
                m as usize,
                author,
            ));
            lemma_parsed_anywhere(lines.drop_first(), m + 1, n + 1, author);
        }
    }
}

/// A fence that closes in the front closes there whatever follows.
proof fn lemma_fence_in_front(front: Seq<Seq<char>>, back: Seq<Seq<char>>)
    requires
        dsl::fence_at(front) < front.len(),
    ensures
        dsl::fence_at(front + back) == dsl::fence_at(front),
    decreases front.len(),
{
    if front[0] != "```"@ {
        assert((front + back).drop_first() == front.drop_first() + back);
        lemma_fence_in_front(front.drop_first(), back);
    }
}

proof fn lemma_lines_in_a_row(
    front: Seq<Seq<char>>,
    back: Seq<Seq<char>>,
    lineno: int,
    author: Author,
)
    requires
        dsl::parsed(front, lineno, author) is Ok,
        dsl::parsed(back, 1, author) is Ok,
    ensures
        dsl::parsed(front + back, lineno, author) == Ok::<Seq<BlockView>, DslError>(
            dsl::parsed(front, lineno, author)->Ok_0 + dsl::parsed(back, 1, author)->Ok_0,
        ),
    decreases front.len(),
{
    let all = front + back;
    let last = dsl::parsed(back, 1, author)->Ok_0;
    if front.len() == 0 {
        assert(all == back);
        lemma_parsed_anywhere(back, 1, lineno, author);
        assert(Seq::<BlockView>::empty() + last == last);
    } else {
        assert(all[0] == front[0]);
        if front[0].len() == 0 {
            assert(all.drop_first() == front.drop_first() + back);
            lemma_lines_in_a_row(front.drop_first(), back, lineno + 1, author);
        } else if text::begins_with(front[0], "```"@) {
            let body = front.drop_first();
            let k = dsl::fence_at(body);
            dsl::lemma_fence_at(body);
            lemma_fence_in_front(body, back);
            assert(all.drop_first() == body + back);
            assert((body + back).take(k) == body.take(k));
            assert(all.skip(k + 2) == front.skip(k + 2) + back);
            lemma_lines_in_a_row(front.skip(k + 2), back, lineno + k + 2, author);
            let rest = dsl::parsed(front.skip(k + 2), lineno + k + 2, author)->Ok_0;
            let block = dsl::parsed(front, lineno, author)->Ok_0[0];
            assert(seq![block] + (rest + last) == (seq![block] + rest) + last);
        } else {
            assert(all.drop_first() == front.drop_first() + back);
            lemma_lines_in_a_row(front.drop_first(), back, lineno + 1, author);
            let rest = dsl::parsed(front.drop_first(), lineno + 1, author)->Ok_0;
            let block = dsl::parsed(front, lineno, author)->Ok_0[0];
            assert(seq![block] + (rest + last) == (seq![block] + rest) + last);
        }
    }
}

/// The lines of two texts with a line feed between them: those of the first, and
/// then those of the second; a blank one between them where the first is empty or
/// ends in a line feed.
proof fn lemma_lines_of_both(a: Seq<char>, b: Seq<char>)
    requires
        text::chomped(a) == a,
    ensures
        text::lines_of(a + seq!['\n'] + b) == text::lines_of(a) + (if a.len() == 0 || a.last()
            == '\n' {
            seq![Seq::<char>::empty()]
        } else {
            Seq::empty()
        }) + text::lines_of(b),
    decreases a.len(),
{
    let s = a + seq!['\n'] + b;
    text::lemma_feed_at(a);
    let i = text::feed_at(a);
    if i == a.len() {
        assert(!a.contains('\n'));
        text::lemma_feed_behind(a, b);
        assert(s.take(i) == a);
        assert(s.skip(i + 1) == b);
        if a.len() == 0 {
            assert(a == Seq::<char>::empty());
        } else {
            assert(a[a.len() - 1] != '\n');
        }
        assert(text::lines_of(s) == seq![a] + text::lines_of(b));
    } else {
        let front = a.take(i);
        let rest = a.skip(i + 1);
        assert(!front.contains('\n'));
        assert(s == front + seq!['\n'] + (rest + seq!['\n'] + b));
        text::lemma_feed_behind(front, rest + seq!['\n'] + b);
        assert(s.take(i) == front);
        assert(s.skip(i + 1) == rest + seq!['\n'] + b);
        assert(text::chomped(rest) == rest) by {
            if rest.len() > 0 {
                assert(rest.last() == a.last());
            }
        }
        assert(rest.len() > 0 ==> rest.last() == a.last());
        lemma_lines_of_both(rest, b);
        if rest.len() == 0 {
            assert(a.last() == a[i]);
        }
        assert(text::lines_of(s) == seq![text::chomped(front)] + text::lines_of(
            rest + seq!['\n'] + b,
        ));
        assert(text::lines_of(a) == seq![text::chomped(front)] + text::lines_of(rest));
    }
}

/// Two texts with a line feed between them denote the blocks of the first, and
/// then those of the second, unless the first ends in a carriage return, which the
/// line feed would make part of a line ending. Where one of them is empty this says
/// that blank lines before, between and after blocks are ignored.
pub proof fn law_texts_in_a_row(a: Seq<char>, b: Seq<char>, author: Author)
    requires
        a.len() > 0 ==> a.last() != '\r',
        dsl::parsed(text::lines_of(a), 1, author) is Ok,
        dsl::parsed(text::lines_of(b), 1, author) is Ok,
    ensures
        dsl::parsed(text::lines_of(a + "\n"@ + b), 1, author) == Ok::<Seq<BlockView>, DslError>(
            dsl::parsed(text::lines_of(a), 1, author)->Ok_0 + dsl::parsed(
                text::lines_of(b),
                1,
                author,
            )->Ok_0,
        ),
{
    reveal_strlit("\n");
    assert("\n"@ == seq!['\n']);
    lemma_lines_of_both(a, b);
    let front = text::lines_of(a);
    let back = text::lines_of(b);
    let blank = seq![Seq::<char>::empty()];
    if a.len() == 0 || a.last() == '\n' {
        let first = dsl::parsed(front, 1, author)->Ok_0;
        assert(dsl::parsed(blank.drop_first(), 2, author) == Ok::<Seq<BlockView>, DslError>(
            Seq::empty(),
        ));
        assert(dsl::parsed(blank, 1, author) == Ok::<Seq<BlockView>, DslError>(Seq::empty()));
        lemma_lines_in_a_row(front, blank, 1, author);
        assert(first + Seq::<BlockView>::empty() == first);
        lemma_lines_in_a_row(front + blank, back, 1, author);
    } else {
        assert(front + Seq::<Seq<char>>::empty() == front);
        lemma_lines_in_a_row(front, back, 1, author);
    }
}

} // verus!
