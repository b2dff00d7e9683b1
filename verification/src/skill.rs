//! Writing **skills**: named system-prompt presets.
//!
//! A skill is a Markdown file with optional front matter between two `---` lines.
//! The body is the system-prompt text; the front matter supplies a `name` and a
//! `description` for display. The file stem is the skill's id.
//!
//! Several skills form an ordered stack, which [`compose_stack`] combines into one
//! voice block; where two of them conflict, the later one wins.

use crate::path;
use crate::text;
use vstd::prelude::*;
use vstd::string::StringExecFns;

pub mod laws;

verus! {

/// A loaded writing skill: a named system-prompt preset.
#[derive(Debug, Clone, PartialEq, Eq)]
pub struct Skill {
    /// The skill identifier — the source file's stem.
    pub id: String,
    /// A human-readable name from the front matter, or the `id` if none.
    pub name: String,
    /// A one-line description from the front matter, or empty if none.
    pub description: String,
    /// The system-prompt body (the file content after the front matter, trimmed).
    pub body: String,
}

/// A skill, as contracts see one.
#[verifier::ext_equal]
pub struct SkillView {
    /// The id.
    pub id: Seq<char>,
    /// The name.
    pub name: Seq<char>,
    /// The description.
    pub description: Seq<char>,
    /// The body.
    pub body: Seq<char>,
}

impl View for Skill {
    type V = SkillView;

    open spec fn view(&self) -> SkillView {
        SkillView {
            id: self.id@,
            name: self.name@,
            description: self.description@,
            body: self.body@,
        }
    }
}

/// What contracts see of a list of skills.
pub open spec fn skills_view(skills: Seq<Skill>) -> Seq<SkillView> {
    Seq::new(skills.len(), |i: int| skills[i]@)
}

/// An error loading a skill.
#[derive(Debug, PartialEq, Eq)]
#[non_exhaustive]
pub enum SkillError {
    /// No skill with the requested id exists (or the id was malformed).
    NotFound(String),
    /// An I/O failure reading the skills directory or a skill file.
    Io(String),
}

impl SkillError {
    /// What the error says.
    pub open spec fn says(self) -> Seq<char> {
        match self {
            SkillError::NotFound(id) => "skill `"@ + id@ + "` not found"@,
            SkillError::Io(e) => "io error reading skills: "@ + e@,
        }
    }

    /// What the error says.
    pub fn message(&self) -> (s: String)
        ensures
            s@ == self.says(),
    {
        match self {
            SkillError::NotFound(id) => {
                let mut s = "skill `".to_owned();
                s.append(id.as_str());
                s.append("` not found");
                s
            },
            SkillError::Io(e) => {
                let mut s = "io error reading skills: ".to_owned();
                s.append(e.as_str());
                s
            },
        }
    }
}

// ---------------------------------------------------------------------------
// Skill files
// ---------------------------------------------------------------------------

/// Whether `line` is a front matter delimiter.
pub open spec fn is_rule(line: Seq<char>) -> bool {
    text::trimmed(line) == "---"@
}

/// Where the first delimiter stands among `lines`, or how many lines there are.
pub open spec fn rule_at(lines: Seq<Seq<char>>) -> int
    decreases lines.len(),
{
    if lines.len() == 0 || is_rule(lines[0]) {
        0
    } else {
        1 + rule_at(lines.drop_first())
    }
}

/// The lines of the front matter and those behind it, where `lines` begin with a
/// delimiter and hold a second one.
pub open spec fn front_matter(lines: Seq<Seq<char>>) -> Option<(Seq<Seq<char>>, Seq<Seq<char>>)> {
    if lines.len() == 0 || !is_rule(lines[0]) {
        None
    } else {
        let rest = lines.drop_first();
        let n = rule_at(rest);
        if 0 <= n < rest.len() {
            Some((rest.take(n), rest.skip(n + 1)))
        } else {
            None
        }
    }
}

/// Whether `line` is a field of the front matter with this key.
pub open spec fn has_key(line: Seq<char>, key: Seq<char>) -> bool {
    text::begins_with(text::trimmed(line), key)
}

/// The value of the last field with this key, or nothing.
pub open spec fn field(front: Seq<Seq<char>>, key: Seq<char>) -> Seq<char>
    decreases front.len(),
{
    if front.len() == 0 {
        Seq::empty()
    } else if has_key(front.last(), key) {
        text::trimmed(text::trimmed(front.last()).skip(key.len() as int))
    } else {
        field(front.drop_last(), key)
    }
}

/// The skill that a file denotes.
pub open spec fn skill_of(id: Seq<char>, content: Seq<char>) -> SkillView {
    match front_matter(text::lines_of(content)) {
        Some((front, body)) => SkillView {
            id,
            name: if field(front, "name:"@).len() == 0 {
                id
            } else {
                field(front, "name:"@)
            },
            description: field(front, "description:"@),
            body: text::trimmed(text::joined(body, "\n"@)),
        },
        None => SkillView {
            id,
            name: id,
            description: Seq::empty(),
            body: text::trimmed(content),
        },
    }
}

proof fn lemma_rule_at(lines: Seq<Seq<char>>)
    ensures
        0 <= rule_at(lines) <= lines.len(),
    decreases lines.len(),
{
    if lines.len() > 0 && !is_rule(lines[0]) {
        lemma_rule_at(lines.drop_first());
    }
}

/// Splits a skill file into the lines of its optional front matter and its body;
/// without both delimiters the whole file is the body.
fn split_front_matter(content: &str) -> (r: (Option<Vec<String>>, String))
    ensures
        match front_matter(text::lines_of(content@)) {
            Some((front, body)) => r.0 matches Some(lines) && text::views(lines@) == front && r.1@
                == text::joined(body, "\n"@),
            None => r.0 is None && r.1@ == content@,
        },
{
    let lines: Vec<String> = text::lines(content);
    let ghost all = text::views(lines@);
    if lines.len() == 0 {
        return (None, content.to_owned());
    }
    assert(all[0] == lines@[0]@);
    if !text::text_eq(text::trim(lines[0].as_str()).as_str(), "---") {
        return (None, content.to_owned());
    }
    let ghost rest = all.drop_first();
    let mut front: Vec<String> = Vec::new();
    let mut i: usize = 1;
    proof {
        lemma_rule_at(rest);
        assert(rest.skip(0) == rest);
        assert(text::views(front@) == rest.take(0));
    }
    while i < lines.len() && !text::text_eq(text::trim(lines[i].as_str()).as_str(), "---")
        invariant
            1 <= i <= lines@.len(),
            all == text::views(lines@),
            rest == all.drop_first(),
            0 <= rule_at(rest) <= rest.len(),
            rule_at(rest) == (i - 1) + rule_at(rest.skip(i - 1)),
            text::views(front@) == rest.take(i - 1),
        decreases lines@.len() - i,
    {
        let ghost before = text::views(front@);
        proof {
            assert(rest.skip(i - 1)[0] == lines@[i as int]@);
            assert(rest.skip(i - 1).drop_first() == rest.skip(i as int));
        }
        front.push(lines[i].clone());
        proof {
            assert(text::views(front@) == before.push(lines@[i as int]@));
            assert(rest.take(i as int) == rest.take(i - 1).push(rest[i - 1]));
        }
        i += 1;
    }
    if i == lines.len() {
        assert(rest.skip(i - 1).len() == 0);
        return (None, content.to_owned());
    }
    proof {
        assert(rest.skip(i - 1)[0] == lines@[i as int]@);
        assert(rule_at(rest) == i - 1);
    }
    let mut body: Vec<String> = Vec::new();
    let mut j: usize = i + 1;
    let ghost tail = all.skip(i + 1);
    assert(tail == rest.skip(i as int));
    assert(text::views(body@) == tail.take(0));
    while j < lines.len()
        invariant
            i + 1 <= j <= lines@.len(),
            all == text::views(lines@),
            tail == all.skip(i + 1),
            text::views(body@) == tail.take(j - i - 1),
        decreases lines@.len() - j,
    {
        let ghost before = text::views(body@);
        body.push(lines[j].clone());
        proof {
            assert(text::views(body@) == before.push(lines@[j as int]@));
            assert(tail.take(j - i) == tail.take(j - i - 1).push(tail[j - i - 1]));
        }
        j += 1;
    }
    assert(tail.take(j - i - 1) == tail);
    (Some(front), text::join(&body, "\n"))
}

/// The value of a field of the front matter, if `line` (trimmed) has this key.
fn field_value(line: &str, key: &str) -> (value: Option<String>)
    ensures
        match value {
            Some(v) => text::begins_with(line@, key@) && v@ == text::trimmed(
                line@.skip(key@.len() as int),
            ),
            None => !text::begins_with(line@, key@),
        },
{
    let chars: Vec<char> = text::chars_of(line);
    if text::starts_with(&chars, key) {
        let n: usize = text::chars_of(key).len();
        let rest = text::from_chars(&chars, n, chars.len());
        assert(rest@ == line@.skip(n as int));
        Some(text::trim(rest.as_str()))
    } else {
        None
    }
}

/// Parses a skill's file `content` under the given `id`.
///
/// The front matter (if any) supplies `name` and `description`; the body is the
/// trimmed remainder. A `name` falls back to `id`.
pub fn parse_skill(id: &str, content: &str) -> (skill: Skill)
    ensures
        skill@ == skill_of(id@, content@),
{
    let (front, body) = split_front_matter(content);
    let mut name = String::new();
    let mut description = String::new();
    if let Some(front) = front {
        let ghost all = text::views(front@);
        let mut i: usize = 0;
        proof {
            reveal_strlit("name:");
            reveal_strlit("description:");
        }
        while i < front.len()
            invariant
                i <= front@.len(),
                all == text::views(front@),
                "name:"@.len() == 5,
                "name:"@[0] == 'n',
                "description:"@.len() == 12,
                "description:"@[0] == 'd',
                name@ == field(all.take(i as int), "name:"@),
                description@ == field(all.take(i as int), "description:"@),
            decreases front@.len() - i,
        {
            proof {
                assert(all.take(i + 1).drop_last() == all.take(i as int));
                assert(all.take(i + 1).last() == front@[i as int]@);
            }
            let line = text::trim(front[i].as_str());
            proof {
                if text::begins_with(line@, "name:"@) && text::begins_with(
                    line@,
                    "description:"@,
                ) {
                    assert(line@.take(5)[0] == line@[0]);
                    assert(line@.take(12)[0] == line@[0]);
                }
            }
            if let Some(v) = field_value(line.as_str(), "name:") {
                name = v;
            } else if let Some(v) = field_value(line.as_str(), "description:") {
                description = v;
            }
            i += 1;
        }
        assert(all.take(i as int) == all);
    }
    if name.as_str().is_empty() {
        name = id.to_owned();
    }
    Skill { id: id.to_owned(), name, description, body: text::trim(body.as_str()) }
}

/// Whether `id` is a single path segment that leads nowhere else.
pub open spec fn safe_id(id: Seq<char>) -> bool {
    &&& id.len() > 0
    &&& id != "."@
    &&& id != ".."@
    &&& !id.contains('/')
    &&& !id.contains('\\')
    &&& !id.contains('\0')
}

/// Returns `true` if `id` is a safe single-segment skill id (no path separators
/// or traversal), so it cannot escape the skills directory.
pub fn is_safe_id(id: &str) -> (safe: bool)
    ensures
        safe == safe_id(id@),
{
    if id.is_empty() || text::text_eq(id, ".") || text::text_eq(id, "..") {
        return false;
    }
    let chars: Vec<char> = text::chars_of(id);
    let mut i: usize = 0;
    while i < chars.len()
        invariant
            i <= chars@.len(),
            chars@ == id@,
            forall|k: int|
                0 <= k < i ==> id@[k] != '/' && id@[k] != '\\' && id@[k] != '\0',
        decreases chars@.len() - i,
    {
        let c = chars[i];
        if c == '/' || c == '\\' || c == '\0' {
            assert(id@[i as int] == c);
            return false;
        }
        i += 1;
    }
    true
}

/// The id of the skill that a file of this name holds: the name in front of the
/// extension `md`. A file without that extension, or without a name in front of
/// it, holds none.
pub open spec fn id_of_file(name: Seq<char>) -> Option<Seq<char>> {
    if name.len() > 3 && name.skip(name.len() - 3) == ".md"@ {
        Some(name.take(name.len() - 3))
    } else {
        None
    }
}

/// The id of the skill that a file of this name holds, if it holds one.
pub fn skill_id(name: &str) -> (id: Option<String>)
    ensures
        match id_of_file(name@) {
            Some(stem) => id matches Some(s) && s@ == stem,
            None => id is None,
        },
{
    let chars: Vec<char> = text::chars_of(name);
    if chars.len() <= 3 {
        return None;
    }
    let n: usize = chars.len() - 3;
    let extension = text::from_chars(&chars, n, chars.len());
    assert(extension@ == name@.skip(n as int));
    if text::text_eq(extension.as_str(), ".md") {
        let stem = text::from_chars(&chars, 0, n);
        assert(stem@ == name@.take(n as int));
        Some(stem)
    } else {
        None
    }
}

// ---------------------------------------------------------------------------
// Loading
// ---------------------------------------------------------------------------

/// `skills` with `skill` behind all whose id does not come after its own.
pub open spec fn placed(skills: Seq<SkillView>, skill: SkillView) -> Seq<SkillView>
    decreases skills.len(),
{
    if skills.len() > 0 && path::text_before(skill.id, skills.last().id) {
        placed(skills.drop_last(), skill).push(skills.last())
    } else {
        skills.push(skill)
    }
}

/// The skills of a directory's files, in the order of their ids.
pub open spec fn skills_of(files: Seq<(Seq<char>, Seq<char>)>) -> Seq<SkillView>
    decreases files.len(),
{
    if files.len() == 0 {
        Seq::empty()
    } else {
        let before = skills_of(files.drop_last());
        match id_of_file(files.last().0) {
            Some(id) => placed(before, skill_of(id, files.last().1)),
            None => before,
        }
    }
}

/// What contracts see of a list of files.
pub open spec fn files_view(files: Seq<(String, String)>) -> Seq<(Seq<char>, Seq<char>)> {
    Seq::new(files.len(), |i: int| (files[i].0@, files[i].1@))
}

/// Puts `skill` behind all whose id does not come after its own.
fn place_skill(skills: &mut Vec<Skill>, skill: Skill)
    ensures
        skills_view(final(skills)@) == placed(skills_view(old(skills)@), skill@),
{
    let ghost before = skills_view(skills@);
    let mut at: usize = skills.len();
    proof {
        assert(before.take(at as int) == before);
        assert(before.skip(at as int) == Seq::<SkillView>::empty());
        assert(placed(before, skill@) == placed(before.take(at as int), skill@)
            + before.skip(at as int));
    }
    while at > 0 && path::comes_before(skill.id.as_str(), skills[at - 1].id.as_str())
        invariant
            at <= skills@.len(),
            before == skills_view(skills@),
            placed(before, skill@) == placed(before.take(at as int), skill@) + before.skip(
                at as int,
            ),
        decreases at,
    {
        proof {
            let front = before.take(at as int);
            assert(front.last() == skills@[at - 1]@);
            assert(front.drop_last() == before.take(at - 1));
            assert(placed(before.take(at - 1), skill@).push(front.last()) + before.skip(at as int)
                == placed(before.take(at - 1), skill@) + before.skip(at - 1));
        }
        at -= 1;
    }
    proof {
        let front = before.take(at as int);
        if at > 0 {
            assert(front.last() == skills@[at - 1]@);
        }
        assert(placed(front, skill@) == front.push(skill@));
        assert(front.push(skill@) + before.skip(at as int) == before.insert(at as int, skill@));
    }
    skills.insert(at, skill);
    assert(skills_view(skills@) == before.insert(at as int, skill@));
}

/// Loads every skill from a directory's files, sorted by id. Each file comes with
/// its name and its content; files without an `.md` extension are ignored, and a
/// directory without files has no skills.
pub fn load_skills(files: &Vec<(String, String)>) -> (skills: Vec<Skill>)
    ensures
        skills_view(skills@) == skills_of(files_view(files@)),
{
    let mut skills: Vec<Skill> = Vec::new();
    let ghost all = files_view(files@);
    let mut i: usize = 0;
    assert(skills_view(skills@) == skills_of(all.take(0)));
    while i < files.len()
        invariant
            i <= files@.len(),
            all == files_view(files@),
            skills_view(skills@) == skills_of(all.take(i as int)),
        decreases files@.len() - i,
    {
        proof {
            assert(all.take(i + 1).drop_last() == all.take(i as int));
            assert(all.take(i + 1).last() == (files@[i as int].0@, files@[i as int].1@));
        }
        if let Some(id) = skill_id(files[i].0.as_str()) {
            let skill = parse_skill(id.as_str(), files[i].1.as_str());
            place_skill(&mut skills, skill);
        }
        i += 1;
    }
    assert(all.take(i as int) == all);
    skills
}

/// What loading a skill comes to, given what its file holds, if it can be read.
pub open spec fn loaded(id: Seq<char>, content: Option<Seq<char>>) -> Option<SkillView> {
    if !safe_id(id) {
        None
    } else {
        match content {
            Some(content) => Some(skill_of(id, content)),
            None => None,
        }
    }
}

/// Loads a single skill by `id`, given what the file `<id>.md` holds, if there is
/// one. A malformed id is not found; [`is_safe_id`] says so before the file is
/// looked for.
pub fn load_skill(id: &str, content: Option<&str>) -> (r: Result<Skill, SkillError>)
    ensures
        match loaded(
            id@,
            match content {
                Some(s) => Some(s@),
                None => None,
            },
        ) {
            Some(skill) => r matches Ok(s) && s@ == skill,
            None => r matches Err(SkillError::NotFound(name)) && name@ == id@,
        },
{
    if !is_safe_id(id) {
        return Err(SkillError::NotFound(id.to_owned()));
    }
    match content {
        Some(content) => Ok(parse_skill(id, content)),
        None => Err(SkillError::NotFound(id.to_owned())),
    }
}

/// What contracts see of a list of files that may be missing.
pub open spec fn contents_view(contents: Seq<Option<String>>) -> Seq<Option<Seq<char>>> {
    Seq::new(contents.len(), |i: int| crate::content::option_view(contents[i]))
}

/// How many of the skills, from the front, can be loaded.
pub open spec fn loadable(ids: Seq<Seq<char>>, contents: Seq<Option<Seq<char>>>) -> int
    decreases ids.len(),
{
    if ids.len() == 0 || contents.len() == 0 || loaded(ids[0], contents[0]) is None {
        0
    } else {
        1 + loadable(ids.drop_first(), contents.drop_first())
    }
}

/// Loads an ordered stack of skills, preserving the order of `ids`, given what
/// each file holds, if there is one. The first that cannot be loaded is reported.
pub fn load_skills_ordered(ids: &Vec<String>, contents: &Vec<Option<String>>) -> (r: Result<
    Vec<Skill>,
    SkillError,
>)
    requires
        ids@.len() == contents@.len(),
    ensures
        ({
            let names = text::views(ids@);
            let files = contents_view(contents@);
            let n = loadable(names, files);
            if n == names.len() {
                r matches Ok(skills) && skills_view(skills@) == Seq::new(
                    names.len(),
                    |i: int| loaded(names[i], files[i])->0,
                )
            } else {
                r matches Err(SkillError::NotFound(name)) && name@ == names[n]
            }
        }),
{
    let ghost names = text::views(ids@);
    let ghost files = contents_view(contents@);
    let ghost all = Seq::new(names.len(), |i: int| loaded(names[i], files[i])->0);
    let mut out: Vec<Skill> = Vec::new();
    let mut i: usize = 0;
    proof {
        assert(names.skip(0) == names);
        assert(files.skip(0) == files);
        assert(skills_view(out@) == all.take(0));
    }
    while i < ids.len()
        invariant
            i <= ids@.len(),
            ids@.len() == contents@.len(),
            names == text::views(ids@),
            files == contents_view(contents@),
            all == Seq::new(names.len(), |i: int| loaded(names[i], files[i])->0),
            loadable(names, files) == i + loadable(
                names.skip(i as int),
                files.skip(i as int),
            ),
            skills_view(out@) == all.take(i as int),
        decreases ids@.len() - i,
    {
        let content = match &contents[i] {
            Some(s) => Some(s.as_str()),
            None => None,
        };
        proof {
            assert(names.skip(i as int)[0] == ids@[i as int]@);
            assert(files.skip(i as int)[0] == crate::content::option_view(contents@[i as int]));
            assert(names[i as int] == ids@[i as int]@);
            assert(files[i as int] == crate::content::option_view(contents@[i as int]));
        }
        match load_skill(ids[i].as_str(), content) {
            Err(e) => {
                return Err(e);
            },
            Ok(skill) => {
                let ghost before = skills_view(out@);
                out.push(skill);
                proof {
                    assert(skills_view(out@) == before.push(skill@));
                    assert(all.take(i + 1) == all.take(i as int).push(all[i as int]));
                    assert(names.skip(i as int).drop_first() == names.skip(i + 1));
                    assert(files.skip(i as int).drop_first() == files.skip(i + 1));
                }
            },
        }
        i += 1;
    }
    proof {
        assert(names.skip(i as int).len() == 0);
        assert(all.take(i as int) == all);
    }
    Ok(out)
}

// ---------------------------------------------------------------------------
// Stacks
// ---------------------------------------------------------------------------

/// The directive prepended to a multi-skill stack stating the precedence rule.
pub const STACK_PRECEDENCE_DIRECTIVE: &'static str = "You are configured with multiple writing skills, applied as an ordered stack below. Follow all of them. Where two skills give conflicting instructions, the skill that appears LATER in the stack overrides the earlier one.";

/// What contracts see of a list of string slices.
pub open spec fn strs(s: Seq<&str>) -> Seq<Seq<char>> {
    Seq::new(s.len(), |i: int| s[i]@)
}

/// The trimmed bodies that are not blank.
pub open spec fn voices(bodies: Seq<Seq<char>>) -> Seq<Seq<char>>
    decreases bodies.len(),
{
    if bodies.len() == 0 {
        Seq::empty()
    } else if text::trimmed(bodies.last()).len() == 0 {
        voices(bodies.drop_last())
    } else {
        voices(bodies.drop_last()).push(text::trimmed(bodies.last()))
    }
}

/// Each body under its own heading.
pub open spec fn sections(bodies: Seq<Seq<char>>) -> Seq<char>
    decreases bodies.len(),
{
    if bodies.len() == 0 {
        Seq::empty()
    } else {
        sections(bodies.drop_last()) + "\n\n## Skill "@ + text::decimal(bodies.len()) + "\n"@
            + bodies.last()
    }
}

/// The voice block of a stack: nothing, the one body, or the precedence directive
/// and each body under its heading.
pub open spec fn stacked(bodies: Seq<Seq<char>>) -> Seq<char> {
    let many = voices(bodies);
    if many.len() == 0 {
        Seq::empty()
    } else if many.len() == 1 {
        many[0]
    } else {
        STACK_PRECEDENCE_DIRECTIVE@ + sections(many)
    }
}

/// Composes an ordered stack of skill `bodies` into a single voice block.
///
/// The bodies are laid out in order, each under a `## Skill N` heading, behind a
/// directive documenting that a **later** skill overrides an earlier one. Blank
/// bodies are skipped; an empty stack composes to an empty string, and a single
/// body to just that body.
pub fn compose_stack(bodies: &[&str]) -> (out: String)
    ensures
        out@ == stacked(strs(bodies@)),
{
    let ghost all = strs(bodies@);
    let mut many: Vec<String> = Vec::new();
    let mut i: usize = 0;
    assert(text::views(many@) == voices(all.take(0)));
    while i < bodies.len()
        invariant
            i <= bodies@.len(),
            all == strs(bodies@),
            text::views(many@) == voices(all.take(i as int)),
        decreases bodies@.len() - i,
    {
        proof {
            assert(all.take(i + 1).drop_last() == all.take(i as int));
            assert(all.take(i + 1).last() == bodies@[i as int]@);
        }
        let body = text::trim(bodies[i]);
        if !body.as_str().is_empty() {
            let ghost before = text::views(many@);
            let ghost view = body@;
            many.push(body);
            assert(text::views(many@) == before.push(view));
        }
        i += 1;
    }
    assert(all.take(i as int) == all);
    let ghost kept = text::views(many@);
    if many.len() == 0 {
        return String::new();
    }
    if many.len() == 1 {
        assert(kept[0] == many@[0]@);
        return many[0].clone();
    }
    let mut out = STACK_PRECEDENCE_DIRECTIVE.to_owned();
    let mut k: usize = 0;
    assert(out@ == STACK_PRECEDENCE_DIRECTIVE@ + sections(kept.take(0)));
    while k < many.len()
        invariant
            k <= many@.len(),
            kept == text::views(many@),
            out@ == STACK_PRECEDENCE_DIRECTIVE@ + sections(kept.take(k as int)),
        decreases many@.len() - k,
    {
        out.append("\n\n## Skill ");
        out.append(text::decimal_string((k + 1) as u64).as_str());
        out.append("\n");
        out.append(many[k].as_str());
        proof {
            let now = kept.take(k + 1);
            assert(now.drop_last() == kept.take(k as int));
            assert(now.last() == many@[k as int]@);
            assert(out@ == STACK_PRECEDENCE_DIRECTIVE@ + sections(now));
        }
        k += 1;
    }
    assert(kept.take(k as int) == kept);
    out
}

/// An empty stack, or one of blank bodies only, has no voice.
pub proof fn law_blank_stack_has_no_voice(bodies: Seq<Seq<char>>)
    requires
        forall|i: int| 0 <= i < bodies.len() ==> text::trimmed(#[trigger] bodies[i]).len() == 0,
    ensures
        stacked(bodies).len() == 0,
        voices(bodies).len() == 0,
    decreases bodies.len(),
{
    if bodies.len() > 0 {
        let init = bodies.drop_last();
        assert forall|i: int| 0 <= i < init.len() implies text::trimmed(
            #[trigger] init[i],
        ).len() == 0 by {
            assert(init[i] == bodies[i]);
        }
        assert(text::trimmed(bodies[bodies.len() - 1]).len() == 0);
        law_blank_stack_has_no_voice(init);
    }
}

/// One skill composes to exactly its body, which was trimmed when it was loaded.
pub proof fn law_single_skill_is_its_body(body: Seq<char>)
    requires
        text::trimmed(body) == body,
    ensures
        stacked(seq![body]) == body,
{
    assert(seq![body].drop_last() == Seq::<Seq<char>>::empty());
    reveal_with_fuel(voices, 2);
    if body.len() == 0 {
        assert(body == Seq::<char>::empty());
    } else {
        assert(voices(seq![body]) == seq![body]);
    }
}

/// A loaded skill's body has no white space around it, and its name is not empty
/// unless the id is.
pub proof fn law_loaded_skill_is_trimmed_and_named(id: Seq<char>, content: Seq<char>)
    ensures
        text::trimmed(skill_of(id, content).body) == skill_of(id, content).body,
        id.len() > 0 ==> skill_of(id, content).name.len() > 0,
{
    match front_matter(text::lines_of(content)) {
        Some((front, body)) => text::lemma_trimmed(text::joined(body, "\n"@)),
        None => text::lemma_trimmed(content),
    }
}

/// Skills are listed in the order of their ids.
pub open spec fn in_id_order(skills: Seq<SkillView>) -> bool {
    forall|i: int, j: int|
        0 <= i < j < skills.len() ==> !path::text_before(
            (#[trigger] skills[j]).id,
            (#[trigger] skills[i]).id,
        )
}

proof fn lemma_placed(skills: Seq<SkillView>, skill: SkillView)
    requires
        in_id_order(skills),
    ensures
        in_id_order(placed(skills, skill)),
        placed(skills, skill).to_multiset() == skills.push(skill).to_multiset(),
        forall|s: SkillView| #[trigger]
            placed(skills, skill).contains(s) ==> skills.contains(s) || s == skill,
    decreases skills.len(),
{
    broadcast use vstd::seq_lib::group_to_multiset_ensures;

    if skills.len() > 0 && path::text_before(skill.id, skills.last().id) {
        let init = skills.drop_last();
        let last = skills.last();
        assert(in_id_order(init)) by {
            assert forall|i: int, j: int| 0 <= i < j < init.len() implies !path::text_before(
                (#[trigger] init[j]).id,
                (#[trigger] init[i]).id,
            ) by {
                assert(init[i] == skills[i]);
                assert(init[j] == skills[j]);
            }
        }
        lemma_placed(init, skill);
        let front = placed(init, skill);
        let all = front.push(last);
        assert forall|i: int, j: int| 0 <= i < j < all.len() implies !path::text_before(
            (#[trigger] all[j]).id,
            (#[trigger] all[i]).id,
        ) by {
            if j < front.len() {
                assert(all[i] == front[i]);
                assert(all[j] == front[j]);
            } else {
                assert(front.contains(front[i]));
                if front[i] == skill {
                    path::lemma_text_total(skill.id, last.id);
                } else {
                    let k = init.index_of(front[i]);
                    assert(skills[k] == front[i]);
                    assert(skills[skills.len() - 1] == last);
                }
            }
        }
        assert(skills == init.push(last));
        assert(all.to_multiset() == skills.push(skill).to_multiset());
        assert forall|s: SkillView| #[trigger] all.contains(s) implies skills.contains(s) || s
            == skill by {
            let k = all.index_of(s);
            if k < front.len() {
                assert(front[k] == s);
                assert(front.contains(s));
                if init.contains(s) {
                    let m = init.index_of(s);
                    assert(skills[m] == s);
                }
            } else {
                assert(skills[skills.len() - 1] == s);
            }
        }
    } else {
        let all = skills.push(skill);
        assert forall|i: int, j: int| 0 <= i < j < all.len() implies !path::text_before(
            (#[trigger] all[j]).id,
            (#[trigger] all[i]).id,
        ) by {
            if j == skills.len() {
                let last = skills.last();
                assert(skills[skills.len() - 1] == last);
                if i < skills.len() - 1 {
                    assert(!path::text_before(last.id, skills[i].id));
                    path::lemma_text_total(skills[i].id, last.id);
                    if path::text_before(skill.id, skills[i].id) && skills[i].id != last.id {
                        path::lemma_text_transitive(skill.id, skills[i].id, last.id);
                    }
                }
            } else {
                assert(all[i] == skills[i]);
                assert(all[j] == skills[j]);
            }
        }
        assert forall|s: SkillView| #[trigger] all.contains(s) implies skills.contains(s) || s
            == skill by {
            let k = all.index_of(s);
            if k < skills.len() {
                assert(skills[k] == s);
            }
        }
    }
}

/// A directory's skills are listed in the order of their ids.
pub proof fn law_skills_are_listed_by_id(files: Seq<(Seq<char>, Seq<char>)>)
    ensures
        in_id_order(skills_of(files)),
    decreases files.len(),
{
    if files.len() > 0 {
        law_skills_are_listed_by_id(files.drop_last());
        match id_of_file(files.last().0) {
            Some(id) => lemma_placed(
                skills_of(files.drop_last()),
                skill_of(id, files.last().1),
            ),
            None => {},
        }
    }
}

} // verus!
