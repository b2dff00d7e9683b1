//! What holds of authored text and documents.

use crate::content;
use crate::content::{Author, AuthorId, Block, BlockView, Document, RichText, Runs};
use crate::text;
use crate::tool::WriterId;
use vstd::prelude::*;

verus! {

/// A human is tagged `human`, an agent by its model and its label.
pub proof fn law_authors_are_tagged(author: &AuthorId, tag: String)
    requires
        call_ensures(AuthorId::tag, (author,), tag),
    ensures
        author is Human ==> tag@ == "human"@,
        *author matches AuthorId::Agent { model, label } ==> tag@ == model@ + "/"@ + label@,
{
}

/// A writer is tagged as the author that it is.
pub proof fn law_writers_are_authors(writer: &WriterId, tag: String, author: AuthorId)
    requires
        call_ensures(WriterId::provenance_tag, (writer,), tag),
        call_ensures(WriterId::author, (writer,), author),
    ensures
        writer is Human ==> tag@ == "human"@ && author is Human,
        *writer matches WriterId::Agent { model, label } ==> {
            &&& tag@ == model@ + "/"@ + label@
            &&& author matches AuthorId::Agent { model: m, label: l } && m@ == model@ && l@
                == label@
        },
{
}

/// Two authors are the same where both are human, or both are agents of one model
/// and one label.
pub proof fn law_authors_are_told_apart(a: &AuthorId, b: &AuthorId, same: bool)
    requires
        call_ensures(AuthorId::same, (a, b), same),
    ensures
        same <==> match (*a, *b) {
            (AuthorId::Human, AuthorId::Human) => true,
            (
                AuthorId::Agent { model: m, label: l },
                AuthorId::Agent { model: n, label: k },
            ) => m@ == n@ && l@ == k@,
            _ => false,
        },
{
}

/// Plain text becomes one run of its author, and none where it is empty.
pub proof fn law_plain_text_is_one_run(text: &str, author: AuthorId, rich: RichText)
    requires
        call_ensures(RichText::from_plain, (text, author), rich),
    ensures
        text@.len() == 0 ==> rich.runs@.len() == 0,
        text@.len() > 0 ==> rich.runs@.len() == 1 && rich.runs@[0].text@ == text@
            && rich.runs@[0].author@ == author@,
{
    if text@.len() == 0 {
        assert(rich@.len() == rich.runs@.len());
    } else {
        assert(rich@.len() == rich.runs@.len());
        assert(rich@[0] == rich.runs@[0]@);
    }
}

/// The characters of runs stand in the order of the runs, each with the author of
/// its own run.
pub proof fn law_characters_keep_the_author_of_their_run(a: Runs, b: Runs, s: Seq<char>, who: Author)
    ensures
        content::spread(a + b) == content::spread(a) + content::spread(b),
        content::plain_text(a + b) == content::plain_text(a) + content::plain_text(b),
        content::plain_text(seq![(s, who)]) == s,
        content::spread(seq![(s, who)]).len() == s.len(),
        forall|i: int|
            0 <= i < s.len() ==> #[trigger] content::spread(seq![(s, who)])[i] == (s[i], who),
    decreases b.len(),
{
    let one = seq![(s, who)];
    assert(one.drop_last() =~= Seq::empty());
    assert(content::spread(one.drop_last()) =~= Seq::empty());
    assert(content::plain_text(one.drop_last()) =~= Seq::empty());
    assert(content::spread(one) =~= content::tagged(s, who));
    assert(content::plain_text(one) =~= s);
    if b.len() == 0 {
        assert(a + b == a);
    } else {
        assert((a + b).drop_last() == a + b.drop_last());
        law_characters_keep_the_author_of_their_run(a, b.drop_last(), s, who);
        assert(content::spread(a + b) == content::spread(a) + content::spread(b));
        assert(content::plain_text(a + b) == content::plain_text(a) + content::plain_text(b));
    }
}

/// A document of one block reads as the text of that block.
pub proof fn law_a_block_reads_as_its_text(doc: &Document, s: String)
    requires
        call_ensures(Document::to_plain_string, (doc,), s),
        doc.blocks@.len() == 1,
    ensures
        match doc.blocks@[0] {
            Block::Paragraph(t) => s@ == content::plain_text(t@),
            Block::Heading { level: _, text } => s@ == content::plain_text(text@),
            Block::CodeBlock { lang: _, code } => s@ == code@,
            Block::ListItem(t) => s@ == content::plain_text(t@),
            Block::Quote(t) => s@ == content::plain_text(t@),
        },
{
    assert(doc@[0] == doc.blocks@[0]@);
    assert(content::plain_blocks(doc@)[0] == doc@[0].plain());
}

/// Documents in a row read in a row, with one blank line between them.
pub proof fn law_blocks_read_with_a_blank_line_between(a: Seq<BlockView>, b: Seq<BlockView>)
    requires
        a.len() > 0,
        b.len() > 0,
    ensures
        text::joined(content::plain_blocks(a + b), "\n\n"@) == text::joined(
            content::plain_blocks(a),
            "\n\n"@,
        ) + "\n\n"@ + text::joined(content::plain_blocks(b), "\n\n"@),
{
    assert(content::plain_blocks(a + b) == content::plain_blocks(a) + content::plain_blocks(b));
    text::laws::law_parts_are_joined_in_order(
        content::plain_blocks(a),
        content::plain_blocks(b),
        "\n\n"@,
        Seq::empty(),
    );
}

} // verus!
