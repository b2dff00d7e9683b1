//! What holds of skills and their stacks.

use crate::content;
use crate::path;
use crate::skill;
use crate::skill::{Skill, SkillError, SkillView};
use crate::text;
use vstd::prelude::*;

verus! {

/// An id is safe where it names an entry of a directory: it is not empty, not one of
/// the two dots, and holds neither a slash nor a backslash nor a null.
pub proof fn law_safe_ids_name_one_entry(id: &str, safe: bool)
    requires
        call_ensures(skill::is_safe_id, (id,), safe),
    ensures
        safe <==> id@.len() > 0 && id@ != "."@ && id@ != ".."@ && forall|i: int|
            0 <= i < id@.len() ==> #[trigger] id@[i] != '/' && id@[i] != '\\' && id@[i] != '\0',
{
    if safe {
        assert forall|i: int| 0 <= i < id@.len() implies #[trigger] id@[i] != '/' && id@[i] != '\\'
            && id@[i] != '\0' by {
            assert(id@.contains(id@[i]));
        }
    }
}

/// A file is a skill where its name is an id, not empty, followed by `.md`.
pub proof fn law_a_skill_is_named_by_its_stem(name: &str, stem: Seq<char>, id: Option<String>)
    requires
        call_ensures(skill::skill_id, (name,), id),
    ensures
        stem.len() > 0 && name@ == stem + ".md"@ ==> (id matches Some(s) && s@ == stem),
        id matches Some(s) ==> s@.len() > 0 && name@ == s@ + ".md"@,
{
    reveal_strlit(".md");
    if stem.len() > 0 && name@ == stem + ".md"@ {
        assert(name@.skip(name@.len() - 3) == ".md"@);
        assert(name@.take(name@.len() - 3) == stem);
    }
    if let Some(s) = id {
        assert(name@ == name@.take(name@.len() - 3) + name@.skip(name@.len() - 3));
    }
}

/// A skill loads where its id is safe and its file is there, and is then what the
/// file says under that id; else it is not found.
pub proof fn law_a_skill_is_loaded_from_its_file(
    id: &str,
    content: Option<&str>,
    safe: bool,
    said: Skill,
    r: Result<Skill, SkillError>,
)
    requires
        call_ensures(skill::is_safe_id, (id,), safe),
        content is Some ==> call_ensures(skill::parse_skill, (id, content->0), said),
        call_ensures(skill::load_skill, (id, content), r),
    ensures
        r is Ok <==> safe && content is Some,
        r matches Ok(s) ==> s@ == said@ && s.id@ == id@,
        r matches Err(e) ==> (e matches SkillError::NotFound(name) && name@ == id@),
{
}

/// A line of three hyphens, with or without white space around them.
pub open spec fn rule(line: Seq<char>) -> bool {
    text::trimmed(line) == "---"@
}

/// Skills that are loaded in order are each loaded from their own file; the first
/// that does not load is the one that is not found.
pub proof fn law_skills_are_loaded_in_order(
    ids: &Vec<String>,
    contents: &Vec<Option<String>>,
    r: Result<Vec<Skill>, SkillError>,
)
    requires
        ids@.len() == contents@.len(),
        call_ensures(skill::load_skills_ordered, (ids, contents), r),
    ensures
        r matches Ok(skills) ==> {
            &&& skills@.len() == ids@.len()
            &&& forall|i: int|
                0 <= i < ids@.len() ==> skill::safe_id((#[trigger] ids@[i])@) && contents@[i] is Some
                    && skills@[i]@ == skill::skill_of(ids@[i]@, contents@[i]->0@)
        },
        r matches Err(e) ==> exists|n: int|
            {
                &&& 0 <= n < ids@.len()
                &&& !(skill::safe_id((#[trigger] ids@[n])@) && contents@[n] is Some)
                &&& e matches SkillError::NotFound(name)
                &&& name@ == ids@[n]@
                &&& forall|i: int|
                    0 <= i < n ==> skill::safe_id((#[trigger] ids@[i])@) && contents@[i] is Some
            },
{
    let names = text::views(ids@);
    let files = skill::contents_view(contents@);
    lemma_loadable(names, files);
    let n = skill::loadable(names, files);
    if n < names.len() {
        assert(names[n] == ids@[n]@);
        assert(files[n] == content::option_view(contents@[n]));
        assert forall|i: int| 0 <= i < n implies skill::safe_id((#[trigger] ids@[i])@)
            && contents@[i] is Some by {
            assert(skill::loaded(names[i], files[i]) is Some);
        }
        let k: int = n;
        assert(!(skill::safe_id(ids@[k]@) && contents@[k] is Some));
    } else if let Ok(skills) = r {
        let views = skill::skills_view(skills@);
        assert(views.len() == skills@.len());
        assert(skills@.len() == ids@.len());
        assert forall|i: int| 0 <= i < ids@.len() implies skill::safe_id((#[trigger] ids@[i])@)
            && contents@[i] is Some && skills@[i]@ == skill::skill_of(
            ids@[i]@,
            contents@[i]->0@,
        ) by {
            assert(skill::loaded(names[i], files[i]) is Some);
            assert(views[i] == skills@[i]@);
            assert(files[i] == content::option_view(contents@[i]));
        }
    }
}

proof fn lemma_loadable(ids: Seq<Seq<char>>, contents: Seq<Option<Seq<char>>>)
    requires
        ids.len() == contents.len(),
    ensures
        ({
            let n = skill::loadable(ids, contents);
            &&& 0 <= n <= ids.len()
            &&& forall|i: int|
                0 <= i < n ==> #[trigger] skill::loaded(ids[i], contents[i]) is Some
            &&& n < ids.len() ==> skill::loaded(ids[n], contents[n]) is None
        }),
    decreases ids.len(),
{
    if ids.len() > 0 && skill::loaded(ids[0], contents[0]) is Some {
        let (a, b) = (ids.drop_first(), contents.drop_first());
        lemma_loadable(a, b);
        let n = skill::loadable(ids, contents);
        assert forall|i: int| 0 <= i < n implies #[trigger] skill::loaded(
            ids[i],
            contents[i],
        ) is Some by {
            if i > 0 {
                assert(a[i - 1] == ids[i]);
                assert(b[i - 1] == contents[i]);
                assert(skill::loaded(a[i - 1], b[i - 1]) is Some);
            }
        }
        if n < ids.len() {
            assert(a[n - 1] == ids[n]);
            assert(b[n - 1] == contents[n]);
        }
    }
}

proof fn lemma_rule_at(front: Seq<Seq<char>>, line: Seq<char>, rest: Seq<Seq<char>>)
    requires
        rule(line),
        forall|i: int| 0 <= i < front.len() ==> !rule(#[trigger] front[i]),
    ensures
        skill::rule_at(front + seq![line] + rest) == front.len(),
    decreases front.len(),
{
    let all = front + seq![line] + rest;
    if front.len() > 0 {
        assert(!rule(front[0]));
        let tail = front.drop_first();
        assert forall|i: int| 0 <= i < tail.len() implies !rule(#[trigger] tail[i]) by {
            assert(tail[i] == front[i + 1]);
        }
        assert(all.drop_first() == tail + seq![line] + rest);
        lemma_rule_at(tail, line, rest);
    }
}

proof fn lemma_no_rule(lines: Seq<Seq<char>>)
    requires
        forall|i: int| 0 <= i < lines.len() ==> !rule(#[trigger] lines[i]),
    ensures
        skill::rule_at(lines) == lines.len(),
    decreases lines.len(),
{
    if lines.len() > 0 {
        assert(!rule(lines[0]));
        let tail = lines.drop_first();
        assert forall|i: int| 0 <= i < tail.len() implies !rule(#[trigger] tail[i]) by {
            assert(tail[i] == lines[i + 1]);
        }
        lemma_no_rule(tail);
    }
}

/// What stands in `front` behind the key of the last line that has it; nothing where
/// none has.
pub open spec fn is_value(front: Seq<Seq<char>>, key: Seq<char>, value: Seq<char>) -> bool {
    ||| exists|k: int|
        {
            &&& 0 <= k < front.len()
            &&& text::begins_with(text::trimmed(#[trigger] front[k]), key)
            &&& value == text::trimmed(text::trimmed(front[k]).skip(key.len() as int))
            &&& forall|j: int|
                k < j < front.len() ==> !text::begins_with(text::trimmed(#[trigger] front[j]), key)
        }
    ||| {
        &&& value.len() == 0
        &&& forall|j: int|
            0 <= j < front.len() ==> !text::begins_with(text::trimmed(#[trigger] front[j]), key)
    }
}

proof fn lemma_value(front: Seq<Seq<char>>, key: Seq<char>)
    ensures
        is_value(front, key, skill::field(front, key)),
    decreases front.len(),
{
    if front.len() > 0 {
        let last = front.len() - 1;
        if text::begins_with(text::trimmed(front[last]), key) {
            assert(front.last() == front[last]);
        } else {
            let init = front.drop_last();
            lemma_value(init, key);
            let value = skill::field(init, key);
            if exists|k: int|
                {
                    &&& 0 <= k < init.len()
                    &&& text::begins_with(text::trimmed(#[trigger] init[k]), key)
                    &&& value == text::trimmed(text::trimmed(init[k]).skip(key.len() as int))
                    &&& forall|j: int|
                        k < j < init.len() ==> !text::begins_with(
                            text::trimmed(#[trigger] init[j]),
                            key,
                        )
                } {
                let k = choose|k: int|
                    {
                        &&& 0 <= k < init.len()
                        &&& text::begins_with(text::trimmed(#[trigger] init[k]), key)
                        &&& value == text::trimmed(text::trimmed(init[k]).skip(key.len() as int))
                        &&& forall|j: int|
                            k < j < init.len() ==> !text::begins_with(
                                text::trimmed(#[trigger] init[j]),
                                key,
                            )
                    };
                assert(init[k] == front[k]);
                assert forall|j: int| k < j < front.len() implies !text::begins_with(
                    text::trimmed(#[trigger] front[j]),
                    key,
                ) by {
                    if j < init.len() {
                        assert(init[j] == front[j]);
                    }
                }
                assert(text::begins_with(text::trimmed(front[k]), key));
            } else {
                assert forall|j: int| 0 <= j < front.len() implies !text::begins_with(
                    text::trimmed(#[trigger] front[j]),
                    key,
                ) by {
                    if j < init.len() {
                        assert(init[j] == front[j]);
                    }
                }
            }
        }
    }
}

/// A file whose first line is a rule of three hyphens, with another behind it, has
/// front matter between the two: its name and its description are what stands there
/// behind those keys, and its body is what follows. A file without a name goes by
/// its id.
pub proof fn law_front_matter_names_and_describes(
    id: &str,
    content: &str,
    first: Seq<char>,
    front: Seq<Seq<char>>,
    second: Seq<char>,
    body: Seq<Seq<char>>,
    skill: Skill,
)
    requires
        call_ensures(skill::parse_skill, (id, content), skill),
        text::lines_of(content@) == seq![first] + front + seq![second] + body,
        rule(first),
        rule(second),
        forall|i: int| 0 <= i < front.len() ==> !rule(#[trigger] front[i]),
    ensures
        skill.id@ == id@,
        is_value(front, "description:"@, skill.description@),
        exists|name: Seq<char>| #[trigger]
            is_value(front, "name:"@, name) && skill.name@ == if name.len() == 0 {
                id@
            } else {
                name
            },
        skill.body@ == text::trimmed(text::joined(body, "\n"@)),
{
    let lines = text::lines_of(content@);
    assert(lines[0] == first);
    let rest = lines.drop_first();
    assert(rest == front + seq![second] + body);
    lemma_rule_at(front, second, body);
    let n = front.len() as int;
    assert(rest.take(n) == front);
    assert(rest.skip(n + 1) == body);
    lemma_value(front, "name:"@);
    lemma_value(front, "description:"@);
}

/// A file that does not begin with a rule, or holds no second one, is all body, and
/// goes by its id.
pub proof fn law_without_front_matter_all_is_body(
    id: &str,
    content: &str,
    trimmed: String,
    skill: Skill,
)
    requires
        call_ensures(skill::parse_skill, (id, content), skill),
        call_ensures(text::trim, (content,), trimmed),
        ({
            let lines = text::lines_of(content@);
            ||| lines.len() == 0
            ||| !rule(lines[0])
            ||| forall|i: int| 0 < i < lines.len() ==> !rule(#[trigger] lines[i])
        }),
    ensures
        skill.id@ == id@,
        skill.name@ == id@,
        skill.description@.len() == 0,
        skill.body@ == trimmed@,
{
    let lines = text::lines_of(content@);
    if lines.len() > 0 && rule(lines[0]) {
        let rest = lines.drop_first();
        assert forall|i: int| 0 <= i < rest.len() implies !rule(#[trigger] rest[i]) by {
            assert(rest[i] == lines[i + 1]);
        }
        lemma_no_rule(rest);
    }
}

proof fn lemma_placed(skills: Seq<SkillView>, one: SkillView) -> (at: int)
    ensures
        0 <= at <= skills.len(),
        skill::placed(skills, one) == skills.insert(at, one),
        forall|j: int| at <= j < skills.len() ==> path::text_before(one.id, #[trigger] skills[j].id),
        at > 0 ==> !path::text_before(one.id, skills[at - 1].id),
    decreases skills.len(),
{
    if skills.len() > 0 && path::text_before(one.id, skills.last().id) {
        let init = skills.drop_last();
        let at = lemma_placed(init, one);
        assert(init.insert(at, one).push(skills.last()) == skills.insert(at, one));
        assert forall|j: int| at <= j < skills.len() implies path::text_before(
            one.id,
            #[trigger] skills[j].id,
        ) by {
            if j < init.len() {
                assert(init[j] == skills[j]);
            }
        }
        at
    } else {
        assert(skills.push(one) == skills.insert(skills.len() as int, one));
        skills.len() as int
    }
}

/// Each file whose name is that of a skill adds the skill it holds, behind those
/// whose ids do not come after its own; other files add nothing.
pub proof fn law_each_file_adds_its_skill(
    files: Seq<(Seq<char>, Seq<char>)>,
    stem: Seq<char>,
    other: Seq<char>,
    content: Seq<char>,
)
    requires
        stem.len() > 0,
        forall|s: Seq<char>| s.len() > 0 ==> other != #[trigger] (s + ".md"@),
    ensures
        ({
            let before = skill::skills_of(files);
            exists|at: int|
                {
                    &&& 0 <= at <= before.len()
                    &&& skill::skills_of(files.push((stem + ".md"@, content)))
                        == #[trigger] before.insert(at, skill::skill_of(stem, content))
                    &&& forall|j: int|
                        at <= j < before.len() ==> path::text_before(stem, #[trigger] before[j].id)
                    &&& at > 0 ==> !path::text_before(stem, before[at - 1].id)
                }
        }),
        skill::skills_of(files.push((other, content))) == skill::skills_of(files),
        skill::skills_of(Seq::empty()) == Seq::<SkillView>::empty(),
{
    reveal_strlit(".md");
    let name = stem + ".md"@;
    assert(name.skip(name.len() - 3) == ".md"@);
    assert(name.take(name.len() - 3) == stem);
    let before = skill::skills_of(files);
    let one = skill::skill_of(stem, content);
    assert(files.push((name, content)).drop_last() == files);
    assert(files.push((other, content)).drop_last() == files);
    let at = lemma_placed(before, one);
    assert(skill::skills_of(files.push((name, content))) == before.insert(at, one));
    if other.len() > 3 && other.skip(other.len() - 3) == ".md"@ {
        let s = other.take(other.len() - 3);
        assert(other == s + other.skip(other.len() - 3));
        assert(other == s + ".md"@);
    }
}

/// The voices of a stack are its bodies in order, without white space around them
/// and without those that are blank.
pub proof fn law_voices_are_the_bodies_that_say_something(bodies: Seq<Seq<char>>)
    ensures
        skill::voices(bodies) == bodies.map_values(|b: Seq<char>| text::trimmed(b)).filter(
            |v: Seq<char>| v.len() > 0,
        ),
    decreases bodies.len(),
{
    reveal(Seq::filter);
    let trim = |b: Seq<char>| text::trimmed(b);
    let all = bodies.map_values(trim);
    if bodies.len() > 0 {
        law_voices_are_the_bodies_that_say_something(bodies.drop_last());
        assert(all.drop_last() == bodies.drop_last().map_values(trim));
        assert(all.last() == text::trimmed(bodies.last()));
    }
}

/// A stack of several voices begins with the directive that the later one wins, and
/// then holds each voice in order under a heading with its number.
pub proof fn law_each_voice_has_its_numbered_section(voices: Seq<Seq<char>>, next: Seq<char>)
    requires
        voices.len() > 0,
        forall|i: int|
            0 <= i < voices.len() ==> (#[trigger] voices[i]).len() > 0 && text::trimmed(voices[i])
                == voices[i],
        next.len() > 0,
        text::trimmed(next) == next,
    ensures
        skill::stacked(voices.push(next)) == if voices.len() == 1 {
            skill::STACK_PRECEDENCE_DIRECTIVE@ + "\n\n## Skill "@ + text::decimal(1) + "\n"@
                + voices[0] + "\n\n## Skill "@ + text::decimal(2) + "\n"@ + next
        } else {
            skill::stacked(voices) + "\n\n## Skill "@ + text::decimal(voices.len() + 1) + "\n"@
                + next
        },
{
    let all = voices.push(next);
    lemma_voices_kept(voices);
    assert forall|i: int| 0 <= i < all.len() implies (#[trigger] all[i]).len() > 0
        && text::trimmed(all[i]) == all[i] by {
        if i < voices.len() {
            assert(all[i] == voices[i]);
        }
    }
    lemma_voices_kept(all);
    assert(all.drop_last() == voices);
    let head = skill::STACK_PRECEDENCE_DIRECTIVE@;
    if voices.len() == 1 {
        reveal_with_fuel(skill::sections, 3);
        assert(voices.drop_last() =~= Seq::empty());
        assert(skill::sections(voices) == Seq::<char>::empty() + "\n\n## Skill "@ + text::decimal(1)
            + "\n"@ + voices[0]);
        assert(skill::stacked(all) == head + "\n\n## Skill "@ + text::decimal(1) + "\n"@
            + voices[0] + "\n\n## Skill "@ + text::decimal(2) + "\n"@ + next);
    } else {
        assert(skill::stacked(all) == skill::stacked(voices) + "\n\n## Skill "@ + text::decimal(
            voices.len() + 1,
        ) + "\n"@ + next);
    }
}

proof fn lemma_voices_kept(voices: Seq<Seq<char>>)
    requires
        forall|i: int|
            0 <= i < voices.len() ==> (#[trigger] voices[i]).len() > 0 && text::trimmed(voices[i])
                == voices[i],
    ensures
        skill::voices(voices) == voices,
    decreases voices.len(),
{
    if voices.len() > 0 {
        let init = voices.drop_last();
        assert forall|i: int| 0 <= i < init.len() implies (#[trigger] init[i]).len() > 0
            && text::trimmed(init[i]) == init[i] by {
            assert(init[i] == voices[i]);
        }
        lemma_voices_kept(init);
        assert(voices[voices.len() - 1] == voices.last());
        assert(init.push(voices.last()) == voices);
    }
}

/// What a failed load says names the skill, or the fault of reading.
pub proof fn law_skill_errors_say_what_happened(e: &SkillError, s: String)
    requires
        call_ensures(SkillError::message, (e,), s),
    ensures
        *e matches SkillError::NotFound(id) ==> s@ == "skill `"@ + id@ + "` not found"@,
        *e matches SkillError::Io(m) ==> s@ == "io error reading skills: "@ + m@,
{
}

} // verus!
