//! The rich-text content model with character-level authorship.
//!
//! Text is a sequence of **runs** ([`Run`]): each run is a stretch of contiguous
//! text written by one [`AuthorId`]. A [`RichText`] is a list of runs, a
//! [`Block`] holds one of them together with its structural role, and a
//! [`Document`] is a list of blocks.
//!
//! Contracts speak of these values by their views: an author by [`Author`], a
//! rich text by its list of `(text, author)` pairs ([`Runs`]), and where the
//! cutting into runs does not matter, by its authored characters ([`spread`]).

use crate::text;
use vstd::prelude::*;
use vstd::string::StringExecFns;

pub mod laws;

verus! {

/// An author, as contracts see one.
#[verifier::ext_equal]
pub enum Author {
    /// A human author.
    Human,
    /// A model-backed agent.
    Agent {
        /// The model id.
        model: Seq<char>,
        /// The agent's label.
        label: Seq<char>,
    },
}

impl Author {
    /// The provenance tag: `human`, or the model and the label around a slash.
    pub open spec fn tag(self) -> Seq<char> {
        match self {
            Author::Human => "human"@,
            Author::Agent { model, label } => model + "/"@ + label,
        }
    }
}

/// Runs of text, each with who wrote it.
pub type Runs = Seq<(Seq<char>, Author)>;

/// The characters of `text`, each marked with `key`.
pub open spec fn tagged<K>(text: Seq<char>, key: K) -> Seq<(char, K)> {
    Seq::new(text.len(), |i: int| (text[i], key))
}

/// The characters of `runs` in order, each marked with the key of its run.
pub open spec fn spread<K>(runs: Seq<(Seq<char>, K)>) -> Seq<(char, K)>
    decreases runs.len(),
{
    if runs.len() == 0 {
        Seq::empty()
    } else {
        spread(runs.drop_last()) + tagged(runs.last().0, runs.last().1)
    }
}

/// Marked characters without their marks.
pub open spec fn plain<K>(chars: Seq<(char, K)>) -> Seq<char> {
    Seq::new(chars.len(), |i: int| chars[i].0)
}

/// The text of `runs`: their texts one after the other.
pub open spec fn plain_text<K>(runs: Seq<(Seq<char>, K)>) -> Seq<char>
    decreases runs.len(),
{
    if runs.len() == 0 {
        Seq::empty()
    } else {
        plain_text(runs.drop_last()) + runs.last().0
    }
}

pub proof fn lemma_plain_of_spread<K>(runs: Seq<(Seq<char>, K)>)
    ensures
        plain(spread(runs)) == plain_text(runs),
    decreases runs.len(),
{
    if runs.len() > 0 {
        lemma_plain_of_spread(runs.drop_last());
        assert(plain(spread(runs)) == plain(spread(runs.drop_last())) + plain(
            tagged(runs.last().0, runs.last().1),
        ));
        assert(plain(tagged(runs.last().0, runs.last().1)) == runs.last().0);
    }
}

pub proof fn lemma_spread_push<K>(runs: Seq<(Seq<char>, K)>, text: Seq<char>, key: K)
    ensures
        spread(runs.push((text, key))) == spread(runs) + tagged(text, key),
{
    assert(runs.push((text, key)).drop_last() == runs);
}

pub proof fn lemma_plain_text_push<K>(runs: Seq<(Seq<char>, K)>, text: Seq<char>, key: K)
    ensures
        plain_text(runs.push((text, key))) == plain_text(runs) + text,
{
    assert(runs.push((text, key)).drop_last() == runs);
}

/// The identity of whoever authored a stretch of text.
#[derive(Debug, PartialEq, Eq, Hash)]
#[non_exhaustive]
pub enum AuthorId {
    /// A human author.
    Human,
    /// A model-backed agent, identified by its model id and an agent label.
    Agent {
        /// The model id the agent runs on (e.g. `"deepseek-v4-flash"`).
        model: String,
        /// A label distinguishing this agent from other concurrent writers.
        label: String,
    },
}

impl View for AuthorId {
    type V = Author;

    open spec fn view(&self) -> Author {
        match self {
            AuthorId::Human => Author::Human,
            AuthorId::Agent { model, label } => Author::Agent { model: model@, label: label@ },
        }
    }
}

impl Clone for AuthorId {
    fn clone(&self) -> (copy: Self)
        ensures
            copy == *self,
    {
        match self {
            AuthorId::Human => AuthorId::Human,
            AuthorId::Agent { model, label } => AuthorId::Agent {
                model: model.clone(),
                label: label.clone(),
            },
        }
    }
}

impl AuthorId {
    /// Renders this author as a stable provenance tag: `"human"` for a human, or
    /// `"<model>/<label>"` for an agent.
    pub fn tag(&self) -> (tag: String)
        ensures
            tag@ == self@.tag(),
    {
        match self {
            AuthorId::Human => "human".to_owned(),
            AuthorId::Agent { model, label } => {
                let mut tag = model.clone();
                tag.append("/");
                tag.append(label.as_str());
                tag
            },
        }
    }

    /// Whether two identities name the same author.
    pub fn same(&self, other: &AuthorId) -> (same: bool)
        ensures
            same == (self@ == other@),
    {
        match (self, other) {
            (AuthorId::Human, AuthorId::Human) => true,
            (
                AuthorId::Agent { model, label },
                AuthorId::Agent { model: other_model, label: other_label },
            ) => *model == *other_model && *label == *other_label,
            _ => false,
        }
    }
}

/// A run of contiguous text written by a single [`AuthorId`].
#[derive(Debug, PartialEq, Eq)]
pub struct Run {
    /// The run's text. Never empty in a normalized [`RichText`].
    pub text: String,
    /// Who wrote this text.
    pub author: AuthorId,
}

impl View for Run {
    type V = (Seq<char>, Author);

    open spec fn view(&self) -> (Seq<char>, Author) {
        (self.text@, self.author@)
    }
}

impl Clone for Run {
    fn clone(&self) -> (copy: Self)
        ensures
            copy == *self,
    {
        Run { text: self.text.clone(), author: self.author.clone() }
    }
}

impl Run {
    /// Creates a run of `text` authored by `author`.
    pub fn new(text: &str, author: AuthorId) -> (run: Self)
        ensures
            run@ == (text@, author@),
    {
        Run { text: text.to_owned(), author }
    }
}

/// What contracts see of a list of runs.
pub open spec fn runs_view(runs: Seq<Run>) -> Runs {
    Seq::new(runs.len(), |i: int| runs[i]@)
}

/// Authored text: an ordered sequence of [`Run`]s carrying per-character
/// authorship.
#[derive(Debug, PartialEq, Eq)]
pub struct RichText {
    /// The runs, in reading order.
    pub runs: Vec<Run>,
}

impl View for RichText {
    type V = Runs;

    open spec fn view(&self) -> Runs {
        runs_view(self.runs@)
    }
}

impl Clone for RichText {
    fn clone(&self) -> (copy: Self)
        ensures
            copy@ == self@,
    {
        let runs = self.runs.clone();
        assert(runs@ == self.runs@);
        RichText { runs }
    }
}

impl Default for RichText {
    fn default() -> (empty: Self)
        ensures
            empty@ == Runs::empty(),
    {
        let empty = RichText { runs: Vec::new() };
        assert(empty@ == Runs::empty());
        empty
    }
}

/// The runs of a text that `author` wrote alone: one, or none where it is empty.
pub open spec fn single_run(text: Seq<char>, author: Author) -> Runs {
    if text.len() == 0 {
        Seq::empty()
    } else {
        seq![(text, author)]
    }
}

impl RichText {
    /// How many bytes its text takes.
    pub open spec fn size(self) -> nat {
        text::utf8_len(plain_text(self@))
    }

    /// An empty [`RichText`] (no runs).
    pub fn empty() -> (empty: Self)
        ensures
            empty@ == Runs::empty(),
    {
        RichText::default()
    }

    /// Builds a single-run [`RichText`] from `text` authored entirely by
    /// `author`. An empty `text` yields an empty (run-less) value.
    pub fn from_plain(text: &str, author: AuthorId) -> (rich: Self)
        ensures
            rich@ == single_run(text@, author@),
    {
        if text.is_empty() {
            RichText::empty()
        } else {
            let mut runs: Vec<Run> = Vec::new();
            runs.push(Run::new(text, author));
            let rich = RichText { runs };
            assert(rich@ == single_run(text@, author@));
            rich
        }
    }

    /// Returns the concatenated plain text, dropping authorship.
    pub fn plain_string(&self) -> (s: String)
        ensures
            s@ == plain_text(self@),
    {
        let mut s = String::new();
        let mut i: usize = 0;
        while i < self.runs.len()
            invariant
                i <= self.runs@.len(),
                s@ == plain_text(self@.take(i as int)),
            decreases self.runs@.len() - i,
        {
            s.append(self.runs[i].text.as_str());
            assert(self@.take(i + 1).drop_last() == self@.take(i as int));
            i += 1;
        }
        assert(self@.take(i as int) == self@);
        s
    }

    /// The total number of bytes of text across all runs.
    pub fn len(&self) -> (n: usize)
        requires
            self.size() <= usize::MAX,
        ensures
            n == self.size(),
    {
        let mut n: usize = 0;
        let mut i: usize = 0;
        while i < self.runs.len()
            invariant
                i <= self.runs@.len(),
                n == text::utf8_len(plain_text(self@.take(i as int))),
                self.size() <= usize::MAX,
            decreases self.runs@.len() - i,
        {
            let more: usize = text::byte_len(self.runs[i].text.as_str());
            proof {
                lemma_size_take(self@, i as int);
                lemma_size_le(self@, i + 1);
            }
            n = n + more;
            i += 1;
        }
        assert(self@.take(i as int) == self@);
        n
    }

    /// Returns `true` if there is no text.
    pub fn is_empty(&self) -> (empty: bool)
        ensures
            empty == (plain_text(self@).len() == 0),
    {
        let mut i: usize = 0;
        while i < self.runs.len()
            invariant
                i <= self.runs@.len(),
                plain_text(self@.take(i as int)).len() == 0,
            decreases self.runs@.len() - i,
        {
            assert(self@.take(i + 1).drop_last() == self@.take(i as int));
            if !self.runs[i].text.as_str().is_empty() {
                proof {
                    lemma_plain_text_prefix(self@, i + 1);
                }
                return false;
            }
            i += 1;
        }
        assert(self@.take(i as int) == self@);
        true
    }
}

/// One more run adds its text.
pub proof fn lemma_size_take(runs: Runs, i: int)
    requires
        0 <= i < runs.len(),
    ensures
        plain_text(runs.take(i + 1)) == plain_text(runs.take(i)) + runs[i].0,
        text::utf8_len(plain_text(runs.take(i + 1))) == text::utf8_len(plain_text(runs.take(i)))
            + text::utf8_len(runs[i].0),
{
    assert(runs.take(i + 1).drop_last() == runs.take(i));
    text::lemma_utf8_len_add(plain_text(runs.take(i)), runs[i].0);
}

/// The text of the first runs begins the text of all of them.
pub proof fn lemma_plain_text_prefix<K>(runs: Seq<(Seq<char>, K)>, i: int)
    requires
        0 <= i <= runs.len(),
    ensures
        plain_text(runs.take(i)).len() <= plain_text(runs).len(),
        plain_text(runs).take(plain_text(runs.take(i)).len() as int) == plain_text(runs.take(i)),
    decreases runs.len(),
{
    if i == runs.len() {
        assert(runs.take(i) == runs);
        assert(plain_text(runs).take(plain_text(runs).len() as int) == plain_text(runs));
    } else {
        lemma_plain_text_prefix(runs.drop_last(), i);
        assert(runs.drop_last().take(i) == runs.take(i));
        let n = plain_text(runs.take(i)).len() as int;
        assert(plain_text(runs).take(n) == plain_text(runs.drop_last()).take(n));
    }
}

pub proof fn lemma_size_le(runs: Runs, i: int)
    requires
        0 <= i <= runs.len(),
    ensures
        text::utf8_len(plain_text(runs.take(i))) <= text::utf8_len(plain_text(runs)),
    decreases runs.len() - i,
{
    if i == runs.len() {
        assert(runs.take(i) == runs);
    } else {
        lemma_size_le(runs, i + 1);
        lemma_size_take(runs, i);
    }
}

/// One block-level element of a [`Document`].
#[derive(Debug, PartialEq, Eq)]
#[non_exhaustive]
pub enum Block {
    /// A paragraph of authored text.
    Paragraph(RichText),
    /// A heading of the given level (1–6) and authored text.
    Heading {
        /// Heading level, 1 (top) through 6.
        level: u8,
        /// The heading text.
        text: RichText,
    },
    /// A fenced code block with an optional language tag.
    CodeBlock {
        /// The language hint (e.g. `"rust"`), if any.
        lang: Option<String>,
        /// The verbatim code body.
        code: String,
    },
    /// A single list item of authored text. (Lists are flat: a run of
    /// `ListItem` blocks is one list.)
    ListItem(RichText),
    /// A block quote of authored text.
    Quote(RichText),
}

/// A block, as contracts see one.
#[verifier::ext_equal]
pub enum BlockView {
    /// A paragraph.
    Paragraph(Runs),
    /// A heading and its level.
    Heading {
        /// The level.
        level: u8,
        /// The heading text.
        text: Runs,
    },
    /// A code block.
    CodeBlock {
        /// The language hint, if any.
        lang: Option<Seq<char>>,
        /// The code.
        code: Seq<char>,
    },
    /// A list item.
    ListItem(Runs),
    /// A block quote.
    Quote(Runs),
}

impl BlockView {
    /// The block's text, without structure and authorship.
    pub open spec fn plain(self) -> Seq<char> {
        match self {
            BlockView::Paragraph(t) => plain_text(t),
            BlockView::ListItem(t) => plain_text(t),
            BlockView::Quote(t) => plain_text(t),
            BlockView::Heading { level: _, text } => plain_text(text),
            BlockView::CodeBlock { lang: _, code } => code,
        }
    }
}

/// What contracts see of an optional string.
pub open spec fn option_view(s: Option<String>) -> Option<Seq<char>> {
    match s {
        Some(s) => Some(s@),
        None => None,
    }
}

impl View for Block {
    type V = BlockView;

    open spec fn view(&self) -> BlockView {
        match self {
            Block::Paragraph(t) => BlockView::Paragraph(t@),
            Block::Heading { level, text } => BlockView::Heading { level: *level, text: text@ },
            Block::CodeBlock { lang, code } => BlockView::CodeBlock {
                lang: option_view(*lang),
                code: code@,
            },
            Block::ListItem(t) => BlockView::ListItem(t@),
            Block::Quote(t) => BlockView::Quote(t@),
        }
    }
}

impl Clone for Block {
    fn clone(&self) -> (copy: Self)
        ensures
            copy@ == self@,
    {
        match self {
            Block::Paragraph(t) => Block::Paragraph(t.clone()),
            Block::Heading { level, text } => Block::Heading { level: *level, text: text.clone() },
            Block::CodeBlock { lang, code } => Block::CodeBlock {
                lang: lang.clone(),
                code: code.clone(),
            },
            Block::ListItem(t) => Block::ListItem(t.clone()),
            Block::Quote(t) => Block::Quote(t.clone()),
        }
    }
}

/// A rich-text document: an ordered sequence of [`Block`]s.
#[derive(Debug, PartialEq, Eq)]
pub struct Document {
    /// The document's blocks, in reading order.
    pub blocks: Vec<Block>,
}

impl View for Document {
    type V = Seq<BlockView>;

    open spec fn view(&self) -> Seq<BlockView> {
        Seq::new(self.blocks@.len(), |i: int| self.blocks@[i]@)
    }
}

impl Clone for Document {
    fn clone(&self) -> (copy: Self)
        ensures
            copy@ == self@,
    {
        let copy = Document { blocks: self.blocks.clone() };
        assert(copy@ == self@);
        copy
    }
}

impl Default for Document {
    fn default() -> (empty: Self)
        ensures
            empty@ == Seq::<BlockView>::empty(),
    {
        let empty = Document { blocks: Vec::new() };
        assert(empty@ == Seq::<BlockView>::empty());
        empty
    }
}

/// The text of each block.
pub open spec fn plain_blocks(blocks: Seq<BlockView>) -> Seq<Seq<char>> {
    Seq::new(blocks.len(), |i: int| blocks[i].plain())
}

impl Document {
    /// An empty document.
    pub fn new() -> (empty: Self)
        ensures
            empty@ == Seq::<BlockView>::empty(),
    {
        Document::default()
    }

    /// Appends a block, returning `&mut self` for chaining.
    pub fn push(&mut self, block: Block) -> (this: &mut Self)
        ensures
            this@ == old(self)@.push(block@),
            *final(self) == *final(this),
    {
        self.blocks.push(block);
        assert(self@ == old(self)@.push(block@));
        self
    }

    /// Renders the document to plain text (blocks joined by blank lines),
    /// dropping structure and authorship.
    pub fn to_plain_string(&self) -> (s: String)
        ensures
            s@ == text::joined(plain_blocks(self@), "\n\n"@),
    {
        let mut parts: Vec<String> = Vec::new();
        let mut i: usize = 0;
        while i < self.blocks.len()
            invariant
                i <= self.blocks@.len(),
                text::views(parts@) == plain_blocks(self@).take(i as int),
            decreases self.blocks@.len() - i,
        {
            let part = match &self.blocks[i] {
                Block::Paragraph(t) => t.plain_string(),
                Block::ListItem(t) => t.plain_string(),
                Block::Quote(t) => t.plain_string(),
                Block::Heading { level: _, text } => text.plain_string(),
                Block::CodeBlock { lang: _, code } => code.clone(),
            };
            assert(part@ == self@[i as int].plain());
            let ghost before = parts@;
            parts.push(part);
            assert(text::views(parts@) == text::views(before).push(part@));
            i += 1;
        }
        assert(plain_blocks(self@).take(i as int) == plain_blocks(self@));
        text::join(&parts, "\n\n")
    }
}

} // verus!
