use pipsqueak::risk::{classify_segment, command_words, irreversible, segments};

#[test]
fn flags_the_obvious_ones() {
    for command in [
        "rm -rf build",
        "sudo rm -r -f /var/tmp/cache",
        "git push --force origin main",
        "git reset --hard HEAD~3",
        "npm publish",
        "terraform destroy -auto-approve",
        "kubectl delete deployment api",
        "gh repo delete acme/thing",
    ] {
        assert!(
            irreversible(command).is_some(),
            "{command} should be flagged"
        );
    }
}

#[test]
fn leaves_ordinary_work_alone() {
    for command in [
        "npm test",
        "git push origin main",
        "git status",
        "rm build/tmp.txt",
        "cargo build --release",
        "kubectl get pods",
        "docker compose up -d",
    ] {
        assert!(
            irreversible(command).is_none(),
            "{command} should not be flagged"
        );
    }
}

/// The reason the splitter is quote-aware. Without it every commit whose
/// message mentions a force push would raise the badge.
#[test]
fn text_inside_quotes_is_not_a_command() {
    assert!(irreversible(r#"git commit -m "docs && git push --force""#).is_none());
    assert!(irreversible(r#"echo 'rm -rf /'"#).is_none());
}

#[test]
fn a_later_segment_still_counts() {
    assert!(irreversible("npm run build && rm -rf dist").is_some());
    assert!(irreversible("cd repo; git reset --hard").is_some());
}

/// The careful version of a force push refuses to clobber work it has not
/// seen, so flagging it would only teach you to ignore the badge.
#[test]
fn force_with_lease_is_not_flagged() {
    assert!(irreversible("git push --force-with-lease").is_none());
}

#[test]
fn a_path_prefix_does_not_hide_the_command() {
    assert!(irreversible("/usr/bin/rm -rf /tmp/x").is_some());
    assert!(irreversible("C:\\Windows\\System32\\shutdown.exe /r").is_some());
}

#[test]
fn absurd_input_is_bounded_and_quiet() {
    let long = "a".repeat(50_000);
    assert!(irreversible(&long).is_none());
    let many = "true; ".repeat(500) + "rm -rf x";
    // Past the segment cap the scan stops rather than growing without
    // bound; missing a hint is the acceptable failure here.
    let _ = irreversible(&many);
}

#[test]
fn a_command_line_falls_into_segments_and_words() {
    assert_eq!(segments("a && b; c | d"), ["a ", " b", " c ", " d"]);
    assert_eq!(segments(r#"echo "a && b""#), [r#"echo "a && b""#]);
    assert_eq!(command_words("git push --force"), ["git", "push", "--force"]);
}

#[test]
fn a_reason_names_what_would_be_lost() {
    assert_eq!(classify_segment("reboot"), Some("Restarts the machine"));
    assert_eq!(classify_segment("ls"), None);
}

#[test]
fn only_the_capital_letter_deletes_a_branch_unmerged() {
    assert!(irreversible("git branch -D topic").is_some());
    assert!(irreversible("git branch -d topic").is_none());
}

#[test]
fn a_command_inside_a_shell_is_looked_at() {
    assert!(irreversible(r#"bash -c "rm -rf build""#).is_some());
    assert!(irreversible(r#"powershell -Command "Remove-Item -Recurse -Force build""#).is_some());
}

/// A script handed to another shell is looked into, whatever follows it and
/// whatever is escaped in it.
#[test]
fn a_script_is_taken_out_of_its_quotes() {
    assert!(irreversible(r#"bash -c "cd x && rm -rf y" z"#).is_some());
    assert!(irreversible(r#"bash -c 'cd x; rm -rf y' z"#).is_some());
    assert!(irreversible(r#"bash -c "echo \"hi\" && rm -rf \"y\"""#).is_some());
    assert!(irreversible(r#"bash -c "git push "--force"#).is_some());
    // What follows the script are its arguments, not part of it.
    assert!(irreversible(r#"bash -c "git push" --force"#).is_none());
    assert!(irreversible(r#"cmd /c "rd" /s /q build"#).is_some());
    assert!(irreversible(r#"cmd /c "rd /s /q build""#).is_some());
    assert!(irreversible(r#"powershell -Command "ls; Remove-Item -Recurse -Force x" y"#).is_some());
    // One level, and no further.
    assert!(irreversible(r#"bash -c "bash -c 'rm -rf x'""#).is_none());
}
