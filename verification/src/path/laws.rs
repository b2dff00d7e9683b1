//! What the components of a path are, and how paths are ordered.

use crate::path;
use crate::path::Part;
use vstd::prelude::*;

verus! {

/// A name that is one component of a path: it is not empty, has no slash in it, and
/// is neither of the two names that stand for a directory.
pub open spec fn is_name(s: Seq<char>) -> bool {
    s.len() > 0 && !s.contains('/') && s != seq!['.'] && s != seq!['.', '.']
}

proof fn lemma_segments_alone(s: Seq<char>)
    requires
        !s.contains('/'),
    ensures
        path::segments(s) == seq![s],
    decreases s.len(),
{
    if s.len() == 0 {
        assert(s == Seq::<char>::empty());
    } else {
        let init = s.drop_last();
        assert(!init.contains('/')) by {
            if init.contains('/') {
                let k = init.index_of('/');
                assert(s[k] == '/');
            }
        }
        lemma_segments_alone(init);
        assert(s.contains(s.last()));
        assert(init.push(s.last()) == s);
        assert(seq![init].drop_last() == Seq::<Seq<char>>::empty());
        assert(Seq::<Seq<char>>::empty().push(s) == seq![s]);
    }
}

proof fn lemma_segments_behind(dir: Seq<char>, last: Seq<char>)
    requires
        !last.contains('/'),
    ensures
        path::segments(dir + seq!['/'] + last) == path::segments(dir).push(last),
    decreases last.len(),
{
    let all = dir + seq!['/'] + last;
    if last.len() == 0 {
        assert(all.drop_last() == dir);
        assert(last == Seq::<char>::empty());
    } else {
        let init = last.drop_last();
        assert(!init.contains('/')) by {
            if init.contains('/') {
                let k = init.index_of('/');
                assert(last[k] == '/');
            }
        }
        lemma_segments_behind(dir, init);
        assert(last.contains(last.last()));
        assert(all.drop_last() == dir + seq!['/'] + init);
        let before = path::segments(dir).push(init);
        assert(before.drop_last() == path::segments(dir));
        assert(init.push(last.last()) == last);
    }
}

proof fn lemma_first_segment(dir: Seq<char>)
    ensures
        path::segments(dir).len() > 0,
    decreases dir.len(),
{
    if dir.len() > 0 {
        lemma_first_segment(dir.drop_last());
    }
}

/// What a path without a slash stands for: nothing, the current directory, the
/// parent directory, or a name.
pub proof fn law_a_path_without_a_slash_is_one_component(s: Seq<char>)
    requires
        !s.contains('/'),
    ensures
        s.len() == 0 ==> path::parts(s) == Seq::<Part>::empty(),
        s == seq!['.'] ==> path::parts(s) == seq![Part::Current],
        s == seq!['.', '.'] ==> path::parts(s) == seq![Part::Parent],
        is_name(s) ==> path::parts(s) == seq![Part::Name(s)],
{
    reveal_with_fuel(path::named, 2);
    lemma_segments_alone(s);
    assert(seq![s].drop_last() == Seq::<Seq<char>>::empty());
    if s.len() > 0 {
        assert(s.contains(s[0]));
    }
}

/// What a slash and one more stretch behind a path add to its components: nothing
/// where the stretch is empty or a dot, the parent directory where it is two dots,
/// and else the name.
pub proof fn law_each_stretch_adds_its_component(dir: Seq<char>, last: Seq<char>)
    requires
        dir.len() > 0,
        !last.contains('/'),
    ensures
        last.len() == 0 || last == seq!['.'] ==> path::parts(dir + seq!['/'] + last)
            == path::parts(dir),
        last == seq!['.', '.'] ==> path::parts(dir + seq!['/'] + last) == path::parts(dir).push(
            Part::Parent,
        ),
        is_name(last) ==> path::parts(dir + seq!['/'] + last) == path::parts(dir).push(
            Part::Name(last),
        ),
{
    let all = dir + seq!['/'] + last;
    lemma_segments_behind(dir, last);
    lemma_first_segment(dir);
    assert(all[0] == dir[0]);
    assert(path::segments(all)[0] == path::segments(dir)[0]);
    assert(path::front(all) == path::front(dir));
    assert(path::segments(all).drop_last() == path::segments(dir));
    let before = path::named(path::segments(dir));
    assert(path::front(dir) + before.push(Part::Parent) == (path::front(dir) + before).push(
        Part::Parent,
    ));
    assert(path::front(dir) + before.push(Part::Name(last)) == (path::front(dir) + before).push(
        Part::Name(last),
    ));
}

/// A slash alone is the root.
pub proof fn law_a_slash_is_the_root()
    ensures
        path::parts(seq!['/']) == seq![Part::Root],
{
    reveal_with_fuel(path::named, 3);
    lemma_segments_behind(Seq::empty(), Seq::empty());
    assert(Seq::<char>::empty() + seq!['/'] + Seq::<char>::empty() == seq!['/']);
    let segs = path::segments(seq!['/']);
    assert(segs.drop_last().drop_last() == Seq::<Seq<char>>::empty());
    assert(path::named(segs) == Seq::<Part>::empty());
}

/// A name behind a directory is one more component of it.
pub proof fn law_a_name_stands_behind_its_directory(dir: Seq<char>, name: Seq<char>)
    requires
        is_name(name),
    ensures
        path::parts(path::joined_path(dir, name)) == path::parts(dir).push(Part::Name(name)),
{
    assert(name.contains(name[0]));
    law_a_path_without_a_slash_is_one_component(name);
    if dir.len() == 0 {
        law_a_path_without_a_slash_is_one_component(dir);
        assert(Seq::<Part>::empty().push(Part::Name(name)) == seq![Part::Name(name)]);
    } else if dir.last() != '/' {
        law_each_stretch_adds_its_component(dir, name);
    } else {
        let front = dir.drop_last();
        if front.len() == 0 {
            assert(dir == seq!['/']);
            law_a_slash_is_the_root();
            lemma_segments_behind(Seq::empty(), name);
            let all = dir + name;
            assert(all == Seq::<char>::empty() + seq!['/'] + name);
            reveal_with_fuel(path::named, 3);
            let segs = path::segments(all);
            assert(segs.drop_last().drop_last() == Seq::<Seq<char>>::empty());
            assert(path::named(segs) == seq![Part::Name(name)]);
            assert(path::parts(all) == seq![Part::Root].push(Part::Name(name)));
        } else {
            law_each_stretch_adds_its_component(front, name);
            law_each_stretch_adds_its_component(front, Seq::empty());
            assert(front + seq!['/'] + Seq::<char>::empty() == dir);
            assert(front + seq!['/'] + name == dir + name);
        }
    }
}

/// Different articles of a theme are different paths.
pub proof fn law_different_names_are_different_paths(
    dir: Seq<char>,
    name: Seq<char>,
    other: Seq<char>,
)
    requires
        is_name(name),
        is_name(other),
    ensures
        path::same_path(path::joined_path(dir, name), path::joined_path(dir, other)) <==> name
            == other,
{
    law_a_name_stands_behind_its_directory(dir, name);
    law_a_name_stands_behind_its_directory(dir, other);
    if name != other {
        assert(path::parts(path::joined_path(dir, name)).last() == Part::Name(name));
        assert(path::parts(path::joined_path(dir, other)).last() == Part::Name(other));
    }
}

/// Texts are ordered by their first different character, and one that is the front
/// of another comes first.
pub proof fn law_texts_are_ordered_by_their_first_difference(
    a: Seq<char>,
    b: Seq<char>,
    n: int,
)
    requires
        0 <= n <= a.len(),
        n <= b.len(),
        a.take(n) == b.take(n),
        n < a.len() && n < b.len() ==> a[n] != b[n],
    ensures
        n == b.len() ==> !path::text_before(a, b),
        n == a.len() && n < b.len() ==> path::text_before(a, b),
        n < a.len() && n < b.len() ==> (path::text_before(a, b) <==> a[n] < b[n]),
    decreases n,
{
    if n > 0 {
        assert(a[0] == a.take(n)[0] && b[0] == b.take(n)[0]);
        let x = a.drop_first();
        let y = b.drop_first();
        assert(x.take(n - 1) == a.take(n).drop_first());
        assert(y.take(n - 1) == b.take(n).drop_first());
        law_texts_are_ordered_by_their_first_difference(x, y, n - 1);
    }
}

/// Paths are ordered by their first different component, and one that is the front
/// of another comes first; the root comes before the current directory, that before
/// the parent directory, and that before names, which are ordered as texts.
pub proof fn law_paths_are_ordered_by_their_first_difference(
    a: Seq<char>,
    b: Seq<char>,
    n: int,
)
    requires
        0 <= n <= path::parts(a).len(),
        n <= path::parts(b).len(),
        path::parts(a).take(n) == path::parts(b).take(n),
        n < path::parts(a).len() && n < path::parts(b).len() ==> path::parts(a)[n]
            != path::parts(b)[n],
    ensures
        ({
            let x = path::parts(a);
            let y = path::parts(b);
            &&& n == y.len() ==> !path::path_before(a, b)
            &&& n == x.len() && n < y.len() ==> path::path_before(a, b)
            &&& n < x.len() && n < y.len() ==> (path::path_before(a, b) <==> match (x[n], y[n]) {
                (Part::Root, _) => true,
                (_, Part::Root) => false,
                (Part::Current, _) => true,
                (_, Part::Current) => false,
                (Part::Parent, _) => true,
                (_, Part::Parent) => false,
                (Part::Name(s), Part::Name(t)) => path::text_before(s, t),
            })
        }),
{
    lemma_parts_order(path::parts(a), path::parts(b), n);
}

proof fn lemma_parts_order(x: Seq<Part>, y: Seq<Part>, n: int)
    requires
        0 <= n <= x.len(),
        n <= y.len(),
        x.take(n) == y.take(n),
        n < x.len() && n < y.len() ==> x[n] != y[n],
    ensures
        n == y.len() ==> !path::parts_before(x, y),
        n == x.len() && n < y.len() ==> path::parts_before(x, y),
        n < x.len() && n < y.len() ==> path::parts_before(x, y) == path::part_before(x[n], y[n]),
    decreases n,
{
    if n > 0 {
        assert(x[0] == x.take(n)[0] && y[0] == y.take(n)[0]);
        let p = x.drop_first();
        let q = y.drop_first();
        assert(p.take(n - 1) == x.take(n).drop_first());
        assert(q.take(n - 1) == y.take(n).drop_first());
        lemma_parts_order(p, q, n - 1);
    }
}

} // verus!
