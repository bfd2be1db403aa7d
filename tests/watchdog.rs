use termoil::watchdog::Watchdog;

#[test]
fn idle_prompt_never_needs_attention() {
    let w = Watchdog::new();
    assert!(!w.needs_attention("$ ", "..."));
    assert!(!w.needs_attention("$ ", "Do you want to continue? [y/n]"));
    assert!(!w.needs_attention("user@host:~$ ", "Password:"));
    assert!(!w.needs_attention("  %  ", "are you sure"));
    assert!(!w.needs_attention("➜ project", "Proceed?"));
    assert!(!w.needs_attention("alice@box ~ ", "[yes/no]"));
}

#[test]
fn question_needs_attention() {
    let w = Watchdog::new();
    assert!(w.needs_attention("Do you want to continue?", "Do you want to continue? [y/n]"));
    assert!(w.needs_attention("", "Password:"));
    assert!(w.needs_attention("> ok", "ALLOW?"));
    assert!(w.needs_attention("working", "Esc to cancel"));
    assert!(w.needs_attention("Continue? (Y/N)", "Continue? (Y/N)"));
}

#[test]
fn plain_output_needs_no_attention() {
    let w = Watchdog::new();
    assert!(!w.needs_attention("compiling...", "building crate\ncompiling..."));
    assert!(!w.needs_attention("", ""));
}

#[test]
fn prompt_suppresses_earlier_question() {
    let w = Watchdog::new();
    let nearby = "Do you want to proceed? [y/n]\ny\ndone\n$ ";
    assert!(!w.needs_attention("$ ", nearby));
    assert!(w.needs_attention("Do you want to proceed? [y/n]", nearby));
}

#[test]
fn prompt_is_trimmed_of_unicode_white_space() {
    let w = Watchdog::new();
    assert!(!w.needs_attention("\u{3000}$\u{a0}", "Password:"));
    assert!(w.needs_attention("\u{3000}\u{a0}", "Password:"));
}
