use matalu::injector::continues_after;
use matalu::injector::edit_steps;
use matalu::injector::key_of;
use matalu::injector::Cmd;
use matalu::injector::DiffState;
use matalu::injector::EditStep;
use matalu::injector::Injector;
use matalu::injector::InjectorHandle;
use matalu::injector::InsertPlan;

fn plan(bs: usize, ins: &str) -> InsertPlan {
    InsertPlan { backspaces: bs, insert: ins.to_string() }
}

#[test]
fn append_only_partials_paste_just_the_suffix() {
    let mut d = DiffState::default();
    assert_eq!(d.step("hello", false), plan(0, "hello"));
    assert_eq!(d.step("hello wor", false), plan(0, " wor"));
    assert_eq!(d.step("hello world", false), plan(0, "ld"));
}

#[test]
fn mid_utterance_revision_backspaces_changed_tail() {
    let mut d = DiffState::default();
    d.step("teh", false);
    // "teh" -> "the": common prefix "t", delete "eh" (2), type "he".
    assert_eq!(d.step("the", false), plan(2, "he"));
}

#[test]
fn final_resets_and_next_utterance_gets_leading_space() {
    let mut d = DiffState::default();
    d.step("hello", false);
    // Final converges (no change) and commits.
    assert_eq!(d.step("hello", true), plan(0, ""));
    // Next utterance starts fresh with a separating space.
    assert_eq!(d.step("world", false), plan(0, " world"));
}

#[test]
fn final_with_punctuation_change_edits_then_commits() {
    let mut d = DiffState::default();
    d.step("hello world", false);
    // final "Hello, world." shares only "" (capital H) -> delete all 11, retype.
    assert_eq!(d.step("Hello, world.", true), plan(11, "Hello, world."));
    // separator armed for the next utterance
    assert_eq!(d.step("again", false), plan(0, " again"));
}

#[test]
fn empty_final_does_not_arm_separator() {
    let mut d = DiffState::default();
    assert_eq!(d.step("", true), plan(0, ""));
    assert_eq!(d.step("first", false), plan(0, "first"));
}

#[test]
fn unicode_prefix_counts_by_char_not_byte() {
    let mut d = DiffState::default();
    d.step("café", false);
    // extend by one char; must not miscount the multi-byte 'é'
    assert_eq!(d.step("café!", false), plan(0, "!"));
}

/// Applies an edit to a text.
fn applied(text: &str, p: &InsertPlan) -> String {
    let kept = text.chars().count() - p.backspaces;
    let mut out: String = text.chars().take(kept).collect();
    out.push_str(&p.insert);
    out
}

/// Whatever is revised, the field ends up with the finals, separated by spaces.
#[test]
fn updates_converge_on_what_was_said() {
    let mut d = DiffState::default();
    let mut field = String::new();
    for (text, is_final) in [
        ("so", false),
        ("sow", false),
        ("so I", false),
        ("So, I think.", true),
        ("yes", false),
        ("", false),
        ("Yes!", true),
    ] {
        let p = d.step(text, is_final);
        field = applied(&field, &p);
    }
    assert_eq!(field, "So, I think. Yes!");
    assert!(d.step("", false).is_noop());
}

/// One space between each two texts that are not empty, whatever came between, and never
/// more backspaces than there are characters.
#[test]
fn field_is_exactly_what_was_said() {
    let mut d = DiffState::default();
    let mut field = String::new();
    for (text, is_final) in [
        ("", true),
        ("one", false),
        ("one", true),
        ("", true),
        ("tw", false),
        ("", false),
        ("", true),
        ("", true),
        ("three", true),
        ("fo", false),
        ("four", true),
    ] {
        let p = d.step(text, is_final);
        assert!(p.backspaces <= field.chars().count());
        field = applied(&field, &p);
    }
    assert_eq!(field, "one three four");
}

#[test]
fn repeated_update_changes_nothing() {
    let mut d = DiffState::default();
    d.step("same", false);
    assert!(d.step("same", false).is_noop());
    assert!(!d.step("other", false).is_noop());
}

#[test]
fn reset_forgets_the_current_utterance() {
    let mut d = DiffState::default();
    d.step("one", false);
    d.reset();
    // Nothing typed before the reset is deleted after it.
    assert_eq!(d.step("two", false), plan(0, "two"));
}

#[test]
fn commands_are_handled_in_order() {
    let mut h = InjectorHandle::new();
    h.partial("a".to_string());
    h.commit("a b".to_string());
    h.reset();
    assert_eq!(h.next(), Some(Cmd::Text { text: "a".to_string(), is_final: false }));
    assert_eq!(h.next(), Some(Cmd::Text { text: "a b".to_string(), is_final: true }));
    assert_eq!(h.next(), Some(Cmd::Reset));
    assert_eq!(h.next(), None);
}

#[test]
fn missing_permission_is_reported_once() {
    let mut i = Injector::new();
    let text = |t: &str| Cmd::Text { text: t.to_string(), is_final: false };
    assert!(!i.handle(Cmd::Reset, false).warn_untrusted);
    assert!(i.handle(text("a"), false).warn_untrusted);
    let again = i.handle(text("ab"), false);
    assert!(!again.warn_untrusted);
    assert_eq!(again.plan, Some(plan(0, "b")));
    assert_eq!(i.handle(text("ab"), true).plan, None);
}

#[test]
fn edit_gives_the_clipboard_back() {
    let steps = edit_steps(&plan(2, "he"));
    assert_eq!(
        steps,
        vec![
            EditStep::Backspace,
            EditStep::Backspace,
            EditStep::SaveClipboard,
            EditStep::SetClipboard("he".to_string()),
            EditStep::Wait(20),
            EditStep::Paste,
            EditStep::Wait(120),
            EditStep::RestoreClipboard,
        ]
    );
    assert_eq!(edit_steps(&plan(1, "")), vec![EditStep::Backspace]);

    assert!(!continues_after(&steps[3], false));
    assert!(continues_after(&steps[3], true));
    assert!(continues_after(&steps[0], false));
    assert_eq!(key_of(&EditStep::Backspace), Some((51, false)));
    assert_eq!(key_of(&EditStep::Paste), Some((9, true)));
    assert_eq!(key_of(&EditStep::SaveClipboard), None);
}
