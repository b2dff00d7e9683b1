//! Writing skills.

use ai_write::skill::{
    compose_stack, is_safe_id, load_skill, load_skills, load_skills_ordered, parse_skill, skill_id,
    SkillError,
};

/// Files as a directory listing gives them: names with what they hold.
fn listing(files: &[(&str, &str)]) -> Vec<(String, String)> {
    files
        .iter()
        .map(|(name, content)| (name.to_string(), content.to_string()))
        .collect()
}

/// What the file of a skill holds, if there is one.
fn file_of(files: &[(&str, &str)], id: &str) -> Option<String> {
    files
        .iter()
        .find(|(name, _)| *name == format!("{id}.md"))
        .map(|(_, content)| content.to_string())
}

#[test]
fn parse_skill_with_front_matter() {
    let content = "---\nname: Functional writing\ndescription: plain prose\n---\nYou are a writer.\nWrite well.\n";
    let skill = parse_skill("functional-writing", content);
    assert_eq!(skill.id, "functional-writing");
    assert_eq!(skill.name, "Functional writing");
    assert_eq!(skill.description, "plain prose");
    assert_eq!(skill.body, "You are a writer.\nWrite well.");
}

#[test]
fn parse_skill_without_front_matter_uses_id_as_name() {
    let skill = parse_skill("plain", "Just a body, no front matter.");
    assert_eq!(skill.name, "plain");
    assert_eq!(skill.description, "");
    assert_eq!(skill.body, "Just a body, no front matter.");
}

#[test]
fn unterminated_front_matter_is_treated_as_body() {
    let content = "---\nname: oops\nno closing delimiter here";
    let skill = parse_skill("x", content);
    // Whole file is the body; name falls back to id.
    assert_eq!(skill.name, "x");
    assert!(skill.body.contains("no closing delimiter"));
}

#[test]
fn load_skills_reads_md_sorted_and_ignores_others() {
    let dir = listing(&[
        ("b.md", "---\nname: Bee\n---\nbody b"),
        ("a.md", "body a"),
        ("note.txt", "ignored"),
    ]);

    let skills = load_skills(&dir);
    let ids: Vec<&str> = skills.iter().map(|s| s.id.as_str()).collect();
    assert_eq!(ids, vec!["a", "b"]);
    assert_eq!(skills[1].name, "Bee");
}

#[test]
fn load_skills_missing_dir_is_empty_not_error() {
    // A directory that is not there has no files.
    let skills = load_skills(&Vec::new());
    assert!(skills.is_empty());
}

#[test]
fn load_skill_found_and_not_found() {
    let dir = [("one.md", "---\nname: One\n---\nb")];
    let s = load_skill("one", file_of(&dir, "one").as_deref()).unwrap();
    assert_eq!(s.name, "One");
    assert!(matches!(
        load_skill("missing", file_of(&dir, "missing").as_deref()),
        Err(SkillError::NotFound(_))
    ));
}

#[test]
fn load_skill_rejects_traversal_ids() {
    for bad in ["", "..", "a/b", "a\\b"] {
        assert!(
            matches!(
                load_skill(bad, Some("a body")),
                Err(SkillError::NotFound(_))
            ),
            "id {bad:?} must be rejected"
        );
    }
}

#[test]
fn compose_stack_empty_is_empty() {
    let bodies: &[&str] = &[];
    assert_eq!(compose_stack(bodies), "");
    // Whitespace-only bodies are skipped, collapsing to empty too.
    assert_eq!(compose_stack(&["   ", "\n\t"]), "");
}

#[test]
fn compose_stack_single_is_just_the_body() {
    // A single-skill stack must be byte-identical to the lone body so the
    // multi-skill path is a strict superset of the single-skill one.
    assert_eq!(compose_stack(&["Write tersely."]), "Write tersely.");
    // A single non-blank body among blanks still collapses to just that body.
    assert_eq!(
        compose_stack(&["", "Write tersely.", "  "]),
        "Write tersely."
    );
}

#[test]
fn compose_stack_orders_bodies_and_documents_precedence() {
    let out = compose_stack(&["EARLIER voice.", "LATER voice."]);
    // The precedence directive is present and names the later-wins rule.
    assert!(out.contains("LATER in the stack overrides"));
    // Both bodies appear, earliest first (precedence order is positional).
    let earlier = out.find("EARLIER voice.").expect("earlier body present");
    let later = out.find("LATER voice.").expect("later body present");
    assert!(
        earlier < later,
        "earlier skill must appear before later one"
    );
    // Each stacked skill is under its own heading.
    assert!(out.contains("## Skill 1"));
    assert!(out.contains("## Skill 2"));
}

#[test]
fn load_skills_ordered_preserves_order_and_fails_fast() {
    let dir = [("a.md", "body a"), ("b.md", "body b")];
    let load = |ids: &[&str]| {
        let names: Vec<String> = ids.iter().map(|id| id.to_string()).collect();
        let contents: Vec<Option<String>> = ids.iter().map(|id| file_of(&dir, id)).collect();
        load_skills_ordered(&names, &contents)
    };

    // Reverse-alphabetical request order is preserved (not re-sorted).
    let stack = load(&["b", "a"]).unwrap();
    let ids: Vec<&str> = stack.iter().map(|s| s.id.as_str()).collect();
    assert_eq!(ids, vec!["b", "a"]);

    // A missing id anywhere in the stack is a clean NotFound.
    assert!(matches!(
        load(&["a", "missing"]),
        Err(SkillError::NotFound(_))
    ));

    // An empty selection yields an empty stack, not an error.
    assert!(load(&[]).unwrap().is_empty());
}

#[test]
fn a_stack_is_laid_out_exactly() {
    assert_eq!(
        compose_stack(&[" one ", "", "two"]),
        "You are configured with multiple writing skills, applied as an ordered stack below. \
         Follow all of them. Where two skills give conflicting instructions, the skill that \
         appears LATER in the stack overrides the earlier one.\n\n## Skill 1\none\n\n## Skill 2\ntwo"
    );
}

#[test]
fn skill_errors_say_what_is_wrong() {
    assert_eq!(
        SkillError::NotFound("x".to_string()).message(),
        "skill `x` not found"
    );
}

#[test]
fn ids_come_from_safe_file_stems() {
    assert_eq!(skill_id("voice.md"), Some("voice".to_string()));
    assert_eq!(skill_id("voice.txt"), None);
    assert!(is_safe_id("voice"));
    assert!(!is_safe_id("a/b"));
    assert!(!is_safe_id(".."));
}
