use xact::tell::build_prompt;

#[test]
fn build_prompt_includes_every_stated_part_in_order() {
    let prompt = build_prompt(Some("a careful auditor"), Some("fn main() {}"), "Review this.", Some(80));
    let persona_at = prompt.find("You are: a careful auditor").unwrap();
    let context_at = prompt.find("fn main() {}").unwrap();
    let think_at = prompt.find("Think budget: 80").unwrap();
    let instruction_at = prompt.find("Review this.").unwrap();
    assert!(persona_at < context_at && context_at < think_at && think_at < instruction_at);
}

#[test]
fn build_prompt_with_nothing_stated_is_just_the_instruction() {
    assert_eq!(build_prompt(None, None, "Review this.", None), "Review this.");
}

#[test]
fn build_prompt_exact_layout() {
    assert_eq!(
        build_prompt(Some("p"), Some("c"), "i", Some(7)),
        "You are: p\n\nContext:\nc\n\n(Think budget: 7.)\n\ni"
    );
}
