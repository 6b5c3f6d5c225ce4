use ticgit::reset;
use ticgit::update;
use ticgit::version::newer;

#[test]
fn only_an_empty_store_needs_no_reset() {
    let asked = reset::Args { yes: true };
    let careful = reset::Args { yes: false };
    let nothing = reset::Contents {
        tickets: 0,
        writeups: 0,
        views: 0,
        users: 0,
    };
    assert!(nothing.is_empty());
    assert_eq!(reset::first_step(&nothing, &asked), reset::ResetStep::Nothing);
    assert_eq!(
        reset::first_step(&nothing, &careful),
        reset::ResetStep::Nothing
    );
    for some in [
        reset::Contents {
            tickets: 3,
            ..nothing
        },
        reset::Contents {
            writeups: 1,
            ..nothing
        },
        reset::Contents { views: 1, ..nothing },
        reset::Contents { users: 1, ..nothing },
    ] {
        assert!(!some.is_empty());
        assert_eq!(reset::first_step(&some, &asked), reset::ResetStep::Reset);
        assert_eq!(reset::first_step(&some, &careful), reset::ResetStep::Ask);
    }
}

#[test]
fn only_yes_confirms_a_reset() {
    assert_eq!(reset::after_answer("yes\n"), reset::ResetStep::Reset);
    assert_eq!(reset::after_answer("  yes "), reset::ResetStep::Reset);
    assert_eq!(reset::after_answer("y\n"), reset::ResetStep::Nothing);
    assert_eq!(reset::after_answer("YES\n"), reset::ResetStep::Nothing);
    assert_eq!(reset::after_answer(""), reset::ResetStep::Nothing);
}

#[test]
fn the_warning_counts_the_tickets() {
    assert_eq!(
        reset::warning(12),
        "This will permanently delete all 12 ticket(s) and every writeup, view, \
         and user mapping in this repository's ticgit store."
    );
    assert_eq!(
        reset::EMPTY_MESSAGE,
        "Store is already empty — nothing to reset."
    );
    assert_eq!(
        reset::DONE_MESSAGE,
        "Reset complete — ticgit store is now empty."
    );
}

#[test]
fn versions_are_read_from_the_reply() {
    let reply = b"{\"id\":1,\"tag_name\":\"v1.2.3\",\"x\":\"tag_name\"}".to_vec();
    assert_eq!(update::latest_version(&reply), Ok("1.2.3".to_string()));
    assert_eq!(
        update::version_in("\"tag_name\":\"vv2\",\"tag_name\":\"v3\""),
        Some("2".to_string())
    );
    assert_eq!(update::version_in("\"tag_name\":\"v4"), Some("4".to_string()));
    assert_eq!(update::version_in("\"tag_name\": \"v4\""), None);
    assert_eq!(
        update::latest_version(&b"<html>".to_vec()),
        Err("could not parse latest version from GitHub".to_string())
    );
}

#[test]
fn a_reply_that_is_not_utf8_is_still_read() {
    let mut reply = vec![0xff];
    reply.extend_from_slice(b"\"tag_name\":\"v9\"");
    assert_eq!(update::latest_version(&reply), Ok("9".to_string()));
}

#[test]
fn targets_name_architecture_and_system() {
    assert_eq!(
        update::detect_target("linux", "x86_64"),
        Ok("x86_64-unknown-linux-gnu".to_string())
    );
    assert_eq!(
        update::detect_target("macos", "aarch64"),
        Ok("aarch64-apple-darwin".to_string())
    );
    assert_eq!(
        update::detect_target("windows", "x86_64"),
        Err("self-update on Windows is not yet supported".to_string())
    );
    assert_eq!(
        update::detect_target("plan9", "mips"),
        Err("unsupported OS: plan9".to_string())
    );
    assert_eq!(
        update::detect_target("linux", "mips"),
        Err("unsupported architecture: mips".to_string())
    );
}

#[test]
fn updates_come_from_the_latest_release() {
    assert_eq!(
        update::latest_release_url(),
        "https://github.com/whjvenyl/ticgit/releases/latest"
    );
    assert_eq!(
        update::archive_url("x86_64-unknown-linux-gnu"),
        "https://github.com/whjvenyl/ticgit/releases/latest/download/ticgit-x86_64-unknown-linux-gnu.tar.gz"
    );
}

#[test]
fn a_check_only_tells() {
    let check = update::Args { check: true };
    let install = update::Args { check: false };
    assert_eq!(
        update::next_step("1.0.0", "1.0.0", &install),
        update::UpdateStep::UpToDate
    );
    assert_eq!(
        update::next_step("1.0.0", "1.1.0", &check),
        update::UpdateStep::Tell
    );
    assert_eq!(
        update::next_step("1.0.0", "1.1.0", &install),
        update::UpdateStep::Install
    );
    assert_eq!(
        update::next_step("0.5.0", "0.4.0", &install),
        update::UpdateStep::UpToDate
    );
    assert_eq!(
        update::version_message("0.5.0", "0.4.0"),
        "Already up to date (v0.5.0)."
    );
    assert_eq!(
        update::version_message("1.0.0", "1.0.0"),
        "Already up to date (v1.0.0)."
    );
    assert_eq!(
        update::version_message("1.0.0", "1.1.0"),
        "Update available: v1.0.0 -> v1.1.0"
    );
}

#[test]
fn versions_are_ordered_by_their_numbers_and_suffixes() {
    let rising = [
        "0.3.1-next",
        "0.3.1",
        "0.4.0-alpha",
        "0.4.0-rc.1",
        "0.4.0-rc.2",
        "0.4.0-rc.10",
        "0.4.0-rc.x",
        "0.4.0",
        "0.4.1",
        "0.10.0",
        "1.0.0",
        "99999999999999999999999999.0.0",
        "100000000000000000000000000.0.0",
    ];
    for (i, a) in rising.iter().enumerate() {
        for (j, b) in rising.iter().enumerate() {
            assert_eq!(newer(a, b), i > j, "{a} {b}");
        }
    }
    assert!(!newer("0.4.0+a", "0.4.0+b"));
    assert!(!newer("0.04.0", "0.4.0"));
    assert!(newer("0.4.0-rc.1.1", "0.4.0-rc.1"));
}
