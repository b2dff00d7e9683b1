//! Workspace-relative paths, compared by their components.
//!
//! A path is kept as the text it was written as. Two texts name the same path
//! where they have the same components: repeated slashes, a slash at the end, and
//! `.` anywhere but in front make no difference.

use crate::text;
use vstd::prelude::*;
use vstd::string::StringExecFns;

pub mod laws;

verus! {

// ---------------------------------------------------------------------------
// Components
// ---------------------------------------------------------------------------

/// One component of a path, as contracts see it.
#[verifier::ext_equal]
pub enum Part {
    /// The root.
    Root,
    /// The current directory, in front of a path.
    Current,
    /// The parent directory.
    Parent,
    /// A name.
    Name(Seq<char>),
}

/// What stands between the slashes of `s`.
pub open spec fn segments(s: Seq<char>) -> Seq<Seq<char>>
    decreases s.len(),
{
    if s.len() == 0 {
        seq![Seq::empty()]
    } else {
        let before = segments(s.drop_last());
        if s.last() == '/' {
            before.push(Seq::empty())
        } else {
            before.drop_last().push(before.last().push(s.last()))
        }
    }
}

/// The components that segments behind the front stand for.
pub open spec fn named(segs: Seq<Seq<char>>) -> Seq<Part>
    decreases segs.len(),
{
    if segs.len() == 0 {
        Seq::empty()
    } else {
        let before = named(segs.drop_last());
        let last = segs.last();
        if last.len() == 0 || last == seq!['.'] {
            before
        } else if last == seq!['.', '.'] {
            before.push(Part::Parent)
        } else {
            before.push(Part::Name(last))
        }
    }
}

/// What a path begins with before its names.
pub open spec fn front(s: Seq<char>) -> Seq<Part> {
    if s.len() > 0 && s[0] == '/' {
        seq![Part::Root]
    } else if segments(s)[0] == seq!['.'] {
        seq![Part::Current]
    } else {
        Seq::empty()
    }
}

/// The components of the path `s`.
pub open spec fn parts(s: Seq<char>) -> Seq<Part> {
    front(s) + named(segments(s))
}

/// Whether two texts name the same path.
pub open spec fn same_path(a: Seq<char>, b: Seq<char>) -> bool {
    parts(a) == parts(b)
}

/// One component of a path.
#[derive(Debug, PartialEq, Eq)]
pub enum Component {
    /// The root.
    Root,
    /// The current directory, in front of a path.
    Current,
    /// The parent directory.
    Parent,
    /// A name.
    Name(String),
}

impl View for Component {
    type V = Part;

    open spec fn view(&self) -> Part {
        match self {
            Component::Root => Part::Root,
            Component::Current => Part::Current,
            Component::Parent => Part::Parent,
            Component::Name(s) => Part::Name(s@),
        }
    }
}

/// What contracts see of a list of components.
pub open spec fn parts_view(components: Seq<Component>) -> Seq<Part> {
    Seq::new(components.len(), |i: int| components[i]@)
}

/// Cuts `s` at its slashes.
fn cut_segments(s: &str) -> (out: Vec<String>)
    ensures
        text::views(out@) == segments(s@),
        out@.len() > 0,
{
    let chars: Vec<char> = text::chars_of(s);
    let mut out: Vec<String> = Vec::new();
    let mut last = String::new();
    let mut i: usize = 0;
    proof {
        assert(s@.take(0) == Seq::<char>::empty());
        assert(text::views(out@).push(last@) == segments(s@.take(0)));
    }
    while i < chars.len()
        invariant
            i <= chars@.len(),
            chars@ == s@,
            text::views(out@).push(last@) == segments(s@.take(i as int)),
        decreases chars@.len() - i,
    {
        let c = chars[i];
        let ghost held = text::views(out@);
        proof {
            assert(s@.take(i + 1).drop_last() == s@.take(i as int));
            assert(held.push(last@).drop_last() == held);
        }
        if c == '/' {
            let ghost done = last@;
            out.push(last);
            last = String::new();
            assert(text::views(out@) == held.push(done));
        } else {
            last.push(c);
        }
        i += 1;
    }
    let ghost held = text::views(out@);
    let ghost done = last@;
    out.push(last);
    assert(text::views(out@) == held.push(done));
    assert(s@.take(i as int) == s@);
    out
}

/// The components of the path `s`.
pub fn components(s: &str) -> (out: Vec<Component>)
    ensures
        parts_view(out@) == parts(s@),
{
    let segs: Vec<String> = cut_segments(s);
    let chars: Vec<char> = text::chars_of(s);
    let ghost all = segments(s@);
    proof {
        reveal_strlit(".");
        reveal_strlit("..");
        assert("."@ == seq!['.']);
        assert(".."@ == seq!['.', '.']);
    }
    let mut out: Vec<Component> = Vec::new();
    assert(segs@[0]@ == all[0]);
    if chars.len() > 0 && chars[0] == '/' {
        out.push(Component::Root);
    } else if text::text_eq(segs[0].as_str(), ".") {
        out.push(Component::Current);
    }
    proof {
        assert(parts_view(out@) == front(s@));
        assert(parts_view(out@) == front(s@) + named(all.take(0)));
    }
    let mut i: usize = 0;
    while i < segs.len()
        invariant
            i <= segs@.len(),
            all == text::views(segs@),
            "."@ == seq!['.'],
            ".."@ == seq!['.', '.'],
            parts_view(out@) == front(s@) + named(all.take(i as int)),
        decreases segs@.len() - i,
    {
        let ghost before = parts_view(out@);
        proof {
            assert(all.take(i + 1).drop_last() == all.take(i as int));
            assert(all.take(i + 1).last() == segs@[i as int]@);
        }
        let seg = segs[i].as_str();
        if seg.is_empty() || text::text_eq(seg, ".") {
        } else if text::text_eq(seg, "..") {
            out.push(Component::Parent);
            assert(parts_view(out@) == before.push(Part::Parent));
        } else {
            out.push(Component::Name(seg.to_owned()));
            assert(parts_view(out@) == before.push(Part::Name(seg@)));
        }
        assert(parts_view(out@) == front(s@) + named(all.take(i + 1)));
        i += 1;
    }
    assert(all.take(i as int) == all);
    out
}

// ---------------------------------------------------------------------------
// Order
// ---------------------------------------------------------------------------

/// Whether `a` comes before `b`, character by character.
pub open spec fn text_before(a: Seq<char>, b: Seq<char>) -> bool
    decreases a.len(),
{
    if b.len() == 0 {
        false
    } else if a.len() == 0 {
        true
    } else if a[0] != b[0] {
        a[0] < b[0]
    } else {
        text_before(a.drop_first(), b.drop_first())
    }
}

/// The place of a kind of component in the order.
pub open spec fn rank(part: Part) -> int {
    match part {
        Part::Root => 0,
        Part::Current => 1,
        Part::Parent => 2,
        Part::Name(_) => 3,
    }
}

/// Whether `a` comes before `b`: by kind, and names by their text.
pub open spec fn part_before(a: Part, b: Part) -> bool {
    match (a, b) {
        (Part::Name(x), Part::Name(y)) => text_before(x, y),
        _ => rank(a) < rank(b),
    }
}

/// Whether `a` comes before `b`, component by component.
pub open spec fn parts_before(a: Seq<Part>, b: Seq<Part>) -> bool
    decreases a.len(),
{
    if b.len() == 0 {
        false
    } else if a.len() == 0 {
        true
    } else if a[0] != b[0] {
        part_before(a[0], b[0])
    } else {
        parts_before(a.drop_first(), b.drop_first())
    }
}

/// Whether the path `a` comes before the path `b` in the canonical order.
pub open spec fn path_before(a: Seq<char>, b: Seq<char>) -> bool {
    parts_before(parts(a), parts(b))
}

proof fn lemma_text_irreflexive(a: Seq<char>)
    ensures
        !text_before(a, a),
    decreases a.len(),
{
    if a.len() > 0 {
        lemma_text_irreflexive(a.drop_first());
    }
}

pub(crate) proof fn lemma_text_total(a: Seq<char>, b: Seq<char>)
    ensures
        !text_before(a, a),
        text_before(a, b) ==> !text_before(b, a),
        a != b ==> text_before(a, b) || text_before(b, a),
    decreases a.len() + b.len(),
{
    lemma_text_irreflexive(a);
    if a.len() > 0 && b.len() > 0 && a[0] == b[0] {
        lemma_text_total(a.drop_first(), b.drop_first());
        if a != b && a.drop_first() == b.drop_first() {
            assert(seq![a[0]] + a.drop_first() == a);
            assert(seq![b[0]] + b.drop_first() == b);
        }
    } else if a.len() == 0 && b.len() == 0 {
        assert(a == b);
    }
}

pub(crate) proof fn lemma_text_transitive(a: Seq<char>, b: Seq<char>, c: Seq<char>)
    requires
        text_before(a, b),
        text_before(b, c),
    ensures
        text_before(a, c),
    decreases a.len(),
{
    if a.len() > 0 && a[0] == b[0] && b[0] == c[0] {
        lemma_text_transitive(a.drop_first(), b.drop_first(), c.drop_first());
    }
}

proof fn lemma_part_total(a: Part, b: Part)
    ensures
        !part_before(a, a),
        part_before(a, b) ==> !part_before(b, a),
        a != b ==> part_before(a, b) || part_before(b, a),
{
    match (a, b) {
        (Part::Name(x), Part::Name(y)) => lemma_text_total(x, y),
        _ => {
            if a is Name {
                lemma_text_total(a->Name_0, a->Name_0);
            }
        },
    }
}

proof fn lemma_part_transitive(a: Part, b: Part, c: Part)
    requires
        part_before(a, b),
        part_before(b, c),
    ensures
        part_before(a, c),
{
    if a is Name && b is Name && c is Name {
        lemma_text_transitive(a->Name_0, b->Name_0, c->Name_0);
    }
}

proof fn lemma_parts_irreflexive(a: Seq<Part>)
    ensures
        !parts_before(a, a),
    decreases a.len(),
{
    if a.len() > 0 {
        lemma_parts_irreflexive(a.drop_first());
    }
}

/// The order of paths is total: of two different paths one comes first.
pub proof fn lemma_parts_total(a: Seq<Part>, b: Seq<Part>)
    ensures
        !parts_before(a, a),
        parts_before(a, b) ==> !parts_before(b, a),
        a != b ==> parts_before(a, b) || parts_before(b, a),
    decreases a.len() + b.len(),
{
    lemma_parts_irreflexive(a);
    if a.len() > 0 && b.len() > 0 {
        lemma_part_total(a[0], b[0]);
        if a[0] == b[0] {
            lemma_parts_total(a.drop_first(), b.drop_first());
            if a != b && a.drop_first() == b.drop_first() {
                assert(seq![a[0]] + a.drop_first() == a);
                assert(seq![b[0]] + b.drop_first() == b);
            }
        }
    } else if a.len() == 0 && b.len() == 0 {
        assert(a == b);
    }
}

/// The order of paths is transitive.
pub proof fn lemma_parts_transitive(a: Seq<Part>, b: Seq<Part>, c: Seq<Part>)
    requires
        parts_before(a, b),
        parts_before(b, c),
    ensures
        parts_before(a, c),
    decreases a.len(),
{
    if a.len() > 0 {
        if a[0] == b[0] && b[0] == c[0] {
            lemma_parts_transitive(a.drop_first(), b.drop_first(), c.drop_first());
        } else if a[0] != b[0] && b[0] != c[0] {
            lemma_part_transitive(a[0], b[0], c[0]);
            lemma_part_total(a[0], b[0]);
        }
    }
}

/// How one path stands to another in the canonical order.
#[derive(Debug, Clone, Copy, PartialEq, Eq, Structural)]
pub enum Standing {
    /// It comes before.
    Before,
    /// They are the same path.
    Same,
    /// It comes after.
    After,
}

fn text_standing(a: &str, b: &str) -> (r: Standing)
    ensures
        r == (if a@ == b@ {
            Standing::Same
        } else if text_before(a@, b@) {
            Standing::Before
        } else {
            Standing::After
        }),
{
    let x: Vec<char> = text::chars_of(a);
    let y: Vec<char> = text::chars_of(b);
    let mut i: usize = 0;
    proof {
        assert(x@.skip(0) == x@);
        assert(y@.skip(0) == y@);
    }
    while i < x.len() && i < y.len()
        invariant
            i <= x@.len(),
            i <= y@.len(),
            x@ == a@,
            y@ == b@,
            x@.take(i as int) == y@.take(i as int),
            text_before(a@, b@) == text_before(x@.skip(i as int), y@.skip(i as int)),
        decreases x@.len() - i,
    {
        if x[i] != y[i] {
            assert(x@.skip(i as int)[0] == x@[i as int]);
            assert(y@.skip(i as int)[0] == y@[i as int]);
            assert(a@[i as int] != b@[i as int]);
            if x[i] < y[i] {
                return Standing::Before;
            } else {
                return Standing::After;
            }
        }
        proof {
            assert(x@.skip(i as int).drop_first() == x@.skip(i + 1));
            assert(y@.skip(i as int).drop_first() == y@.skip(i + 1));
            assert(x@.take(i + 1) == x@.take(i as int).push(x@[i as int]));
            assert(y@.take(i + 1) == y@.take(i as int).push(y@[i as int]));
        }
        i += 1;
    }
    if x.len() == y.len() {
        assert(x@.take(i as int) == x@);
        assert(y@.take(i as int) == y@);
        Standing::Same
    } else if x.len() < y.len() {
        Standing::Before
    } else {
        Standing::After
    }
}

/// Whether `a` comes before `b`, character by character.
pub fn comes_before(a: &str, b: &str) -> (yes: bool)
    ensures
        yes == text_before(a@, b@),
{
    proof {
        lemma_text_irreflexive(a@);
    }
    text_standing(a, b) == Standing::Before
}

fn component_rank(c: &Component) -> (r: u8)
    ensures
        r == rank(c@),
{
    match c {
        Component::Root => 0,
        Component::Current => 1,
        Component::Parent => 2,
        Component::Name(_) => 3,
    }
}

fn component_standing(a: &Component, b: &Component) -> (r: Standing)
    ensures
        r == (if a@ == b@ {
            Standing::Same
        } else if part_before(a@, b@) {
            Standing::Before
        } else {
            Standing::After
        }),
{
    match (a, b) {
        (Component::Name(x), Component::Name(y)) => text_standing(x.as_str(), y.as_str()),
        _ => {
            let p: u8 = component_rank(a);
            let q: u8 = component_rank(b);
            if p == q {
                Standing::Same
            } else if p < q {
                Standing::Before
            } else {
                Standing::After
            }
        },
    }
}

/// How the path `a` stands to the path `b`.
pub fn standing(a: &str, b: &str) -> (r: Standing)
    ensures
        r == (if same_path(a@, b@) {
            Standing::Same
        } else if path_before(a@, b@) {
            Standing::Before
        } else {
            Standing::After
        }),
{
    let x: Vec<Component> = components(a);
    let y: Vec<Component> = components(b);
    let ghost p = parts_view(x@);
    let ghost q = parts_view(y@);
    let mut i: usize = 0;
    proof {
        assert(p.skip(0) == p);
        assert(q.skip(0) == q);
    }
    while i < x.len() && i < y.len()
        invariant
            i <= x@.len(),
            i <= y@.len(),
            p == parts_view(x@),
            q == parts_view(y@),
            p == parts(a@),
            q == parts(b@),
            p.take(i as int) == q.take(i as int),
            parts_before(p, q) == parts_before(p.skip(i as int), q.skip(i as int)),
        decreases x@.len() - i,
    {
        let here = component_standing(&x[i], &y[i]);
        proof {
            assert(p.skip(i as int)[0] == x@[i as int]@);
            assert(q.skip(i as int)[0] == y@[i as int]@);
            assert(p[i as int] == x@[i as int]@);
            assert(q[i as int] == y@[i as int]@);
        }
        if here != Standing::Same {
            return here;
        }
        proof {
            assert(p.skip(i as int).drop_first() == p.skip(i + 1));
            assert(q.skip(i as int).drop_first() == q.skip(i + 1));
            assert(p.take(i + 1) == p.take(i as int).push(p[i as int]));
            assert(q.take(i + 1) == q.take(i as int).push(q[i as int]));
        }
        i += 1;
    }
    if x.len() == y.len() {
        assert(p.take(i as int) == p);
        assert(q.take(i as int) == q);
        Standing::Same
    } else if x.len() < y.len() {
        Standing::Before
    } else {
        Standing::After
    }
}

// ---------------------------------------------------------------------------
// Joining
// ---------------------------------------------------------------------------

/// `dir` and behind it `name`; an absolute `name` stands alone.
pub open spec fn joined_path(dir: Seq<char>, name: Seq<char>) -> Seq<char> {
    if (name.len() > 0 && name[0] == '/') || dir.len() == 0 {
        name
    } else if dir.last() == '/' {
        dir + name
    } else {
        dir + seq!['/'] + name
    }
}

/// `dir` and behind it `name`; an absolute `name` stands alone.
pub fn join_path(dir: &str, name: &str) -> (path: String)
    ensures
        path@ == joined_path(dir@, name@),
{
    let d: Vec<char> = text::chars_of(dir);
    let n: Vec<char> = text::chars_of(name);
    if (n.len() > 0 && n[0] == '/') || d.len() == 0 {
        return name.to_owned();
    }
    let mut path = dir.to_owned();
    if d[d.len() - 1] != '/' {
        path.push('/');
    }
    path.append(name);
    assert(path@ == joined_path(dir@, name@));
    path
}

} // verus!
