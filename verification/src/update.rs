//! Finding out whether there is a newer release, and where to get it.

use vstd::prelude::*;
use vstd::string::*;

use crate::percent::text_from_utf8_lossy;
use crate::text::after_text;
use crate::text::out_push;
use crate::text::same;
use crate::text::split_once;
use crate::text::without_leading;
use crate::version::newer;

verus! {

/// Where the releases are.
pub const REPO: &'static str = "whjvenyl/ticgit";

/// How to update: only look where `check` is set.
#[derive(Debug, Clone, Copy, PartialEq, Eq)]
pub struct Args {
    pub check: bool,
}

// -- addresses --------------------------------------------------------------

/// The address that tells of the latest release.
pub open spec fn latest_release_address() -> Seq<char> {
    "https://github.com/"@ + REPO@ + "/releases/latest"@
}

/// The address of the archive for a target.
pub open spec fn archive_address(target: Seq<char>) -> Seq<char> {
    "https://github.com/"@ + REPO@ + "/releases/latest/download/ticgit-"@ + target + ".tar.gz"@
}

/// The address that tells of the latest release.
pub fn latest_release_url() -> (r: String)
    ensures
        r@ == latest_release_address(),
{
    let mut out = "https://github.com/".to_owned();
    out_push(&mut out, REPO);
    out_push(&mut out, "/releases/latest");
    out
}

/// The address of the archive for a target.
pub fn archive_url(target: &str) -> (r: String)
    ensures
        r@ == archive_address(target@),
{
    let mut out = "https://github.com/".to_owned();
    out_push(&mut out, REPO);
    out_push(&mut out, "/releases/latest/download/ticgit-");
    out_push(&mut out, target);
    out_push(&mut out, ".tar.gz");
    out
}

// -- versions ---------------------------------------------------------------

/// The version that a reply names: what follows the first `"tag_name":"` up to a quote, without a
/// leading `v`.
pub open spec fn version_named(body: Seq<char>) -> Option<Seq<char>> {
    match crate::text::after_first(body, "\"tag_name\":\""@) {
        Some(rest) => Some(
            crate::text::skip_leading(
                match crate::text::cut(rest, '"') {
                    Some((tag, _)) => tag,
                    None => rest,
                },
                'v',
            ),
        ),
        None => None,
    }
}

/// The version that a reply names.
pub fn version_in(body: &str) -> (r: Option<String>)
    ensures
        r.deep_view() == version_named(body@),
{
    let rest = match after_text(body, "\"tag_name\":\"") {
        Some(rest) => rest,
        None => {
            return None;
        },
    };
    let tag = match split_once(rest.as_str(), '"') {
        Some((tag, _)) => tag,
        None => rest,
    };
    Some(without_leading(tag.as_str(), 'v'))
}

/// The version that a reply names, or why it names none.
pub fn latest_version(reply: &Vec<u8>) -> (r: Result<String, String>)
    ensures
        match version_named(crate::percent::utf8_text(reply@)) {
            Some(version) => r matches Ok(v) && v@ == version,
            None => r matches Err(e) && e@ == "could not parse latest version from GitHub"@,
        },
{
    let body = text_from_utf8_lossy(reply);
    match version_in(body.as_str()) {
        Some(version) => Ok(version),
        None => Err("could not parse latest version from GitHub".to_owned()),
    }
}

// -- targets ----------------------------------------------------------------

/// The name of an operating system in a target, or why there is no release for it.
pub open spec fn system_target(os: Seq<char>) -> Result<Seq<char>, Seq<char>> {
    if os == "macos"@ {
        Ok("apple-darwin"@)
    } else if os == "linux"@ {
        Ok("unknown-linux-gnu"@)
    } else if os == "windows"@ {
        Err("self-update on Windows is not yet supported"@)
    } else {
        Err("unsupported OS: "@ + os)
    }
}

/// The target of a release, or why there is none.
pub open spec fn target_of(os: Seq<char>, arch: Seq<char>) -> Result<Seq<char>, Seq<char>> {
    match system_target(os) {
        Ok(system) => if arch == "x86_64"@ || arch == "aarch64"@ {
            Ok(arch + "-"@ + system)
        } else {
            Err("unsupported architecture: "@ + arch)
        },
        Err(message) => Err(message),
    }
}

/// A message that names something.
fn message_of(label: &str, name: &str) -> (r: String)
    ensures
        r@ == label@ + name@,
{
    let mut out = label.to_owned();
    out_push(&mut out, name);
    out
}

/// The target of a release for an operating system and an architecture, or why there is none.
pub fn detect_target(os: &str, arch: &str) -> (r: Result<String, String>)
    ensures
        match target_of(os@, arch@) {
            Ok(target) => r matches Ok(t) && t@ == target,
            Err(message) => r matches Err(e) && e@ == message,
        },
{
    let system = if same(os, "macos") {
        "apple-darwin"
    } else if same(os, "linux") {
        "unknown-linux-gnu"
    } else if same(os, "windows") {
        return Err("self-update on Windows is not yet supported".to_owned());
    } else {
        return Err(message_of("unsupported OS: ", os));
    };
    if !same(arch, "x86_64") && !same(arch, "aarch64") {
        return Err(message_of("unsupported architecture: ", arch));
    }
    let mut target = arch.to_owned();
    out_push(&mut target, "-");
    out_push(&mut target, system);
    Ok(target)
}

// -- what to do -------------------------------------------------------------

/// What has to be done: nothing, as there is no newer version; no more than to tell of a newer one;
/// or to get it.
#[derive(Debug, Clone, Copy, PartialEq, Eq, Structural)]
pub enum UpdateStep {
    UpToDate,
    Tell,
    Install,
}

/// What has to be done where `latest` is the latest version.
pub fn next_step(current: &str, latest: &str, args: &Args) -> (r: UpdateStep)
    ensures
        r == (if !crate::version::is_newer(latest@, current@) {
            UpdateStep::UpToDate
        } else if args.check {
            UpdateStep::Tell
        } else {
            UpdateStep::Install
        }),
{
    if !newer(latest, current) {
        UpdateStep::UpToDate
    } else if args.check {
        UpdateStep::Tell
    } else {
        UpdateStep::Install
    }
}

/// What is said about the versions.
pub open spec fn version_text(current: Seq<char>, latest: Seq<char>) -> Seq<char> {
    if !crate::version::is_newer(latest, current) {
        "Already up to date (v"@ + current + ")."@
    } else {
        "Update available: v"@ + current + " -> v"@ + latest
    }
}

/// What is said about the versions.
pub fn version_message(current: &str, latest: &str) -> (r: String)
    ensures
        r@ == version_text(current@, latest@),
{
    if !newer(latest, current) {
        let mut out = "Already up to date (v".to_owned();
        out_push(&mut out, current);
        out_push(&mut out, ").");
        out
    } else {
        let mut out = "Update available: v".to_owned();
        out_push(&mut out, current);
        out_push(&mut out, " -> v");
        out_push(&mut out, latest);
        out
    }
}

// -- laws -------------------------------------------------------------------

/// A release is for the very architecture that was asked for, and for its operating system: on macOS
/// and Linux there is one for `x86_64` and one for `aarch64`.
pub proof fn a_target_is_for_its_machine(os: &str, arch: &str, r: Result<String, String>)
    requires
        call_ensures(detect_target, (os, arch), r),
        os@ == "macos"@ || os@ == "linux"@,
        arch@ == "x86_64"@ || arch@ == "aarch64"@,
    ensures
        r matches Ok(target) && target@.len() > arch@.len() && target@.take(arch@.len() as int)
            == arch@ && target@[arch@.len() as int] == '-' && target@.skip(arch@.len() + 1int) == (
        if os@ == "macos"@ {
            "apple-darwin"@
        } else {
            "unknown-linux-gnu"@
        }),
{
    reveal_strlit("-");
    reveal_strlit("macos");
    reveal_strlit("linux");
    assert("macos"@[0] == 'm' && "linux"@[0] == 'l');
    let system = if os@ == "macos"@ {
        "apple-darwin"@
    } else {
        "unknown-linux-gnu"@
    };
    let target = arch@ + "-"@ + system;
    assert(target.take(arch@.len() as int) =~= arch@);
    assert(target.skip(arch@.len() + 1int) =~= system);
}

/// Different machines get different releases.
pub proof fn different_machines_have_different_targets(
    os: &str,
    arch: &str,
    r: Result<String, String>,
    other_os: &str,
    other_arch: &str,
    other: Result<String, String>,
)
    requires
        call_ensures(detect_target, (os, arch), r),
        call_ensures(detect_target, (other_os, other_arch), other),
        r matches Ok(a) && other matches Ok(b) && a@ == b@,
    ensures
        os@ == other_os@,
        arch@ == other_arch@,
{
    reveal_strlit("x86_64");
    reveal_strlit("aarch64");
    reveal_strlit("macos");
    reveal_strlit("linux");
    reveal_strlit("windows");
    reveal_strlit("-");
    reveal_strlit("apple-darwin");
    reveal_strlit("unknown-linux-gnu");
    a_target_is_for_its_machine(os, arch, r);
    a_target_is_for_its_machine(other_os, other_arch, other);
    let a = r->Ok_0@;
    assert("x86_64"@[0] == 'x' && "aarch64"@[0] == 'a');
    assert(a[0] == arch@[0] && a[0] == other_arch@[0]);
    assert("apple-darwin"@[0] == 'a' && "unknown-linux-gnu"@[0] == 'u');
    assert(a.skip(arch@.len() + 1int)[0] == a[arch@.len() + 1int]);
}

/// For any other machine there is no release, and the message says what is not supported.
pub proof fn other_machines_have_no_target(os: &str, arch: &str, r: Result<String, String>)
    requires
        call_ensures(detect_target, (os, arch), r),
    ensures
        r is Ok <==> (os@ == "macos"@ || os@ == "linux"@) && (arch@ == "x86_64"@ || arch@
            == "aarch64"@),
        os@ == "windows"@ ==> (r matches Err(e) && e@
            == "self-update on Windows is not yet supported"@),
        os@ != "macos"@ && os@ != "linux"@ && os@ != "windows"@ ==> (r matches Err(e) && e@
            == "unsupported OS: "@ + os@),
        (os@ == "macos"@ || os@ == "linux"@) && arch@ != "x86_64"@ && arch@ != "aarch64"@ ==> (
        r matches Err(e) && e@ == "unsupported architecture: "@ + arch@),
{
    reveal_strlit("macos");
    reveal_strlit("linux");
    reveal_strlit("windows");
    assert("windows"@[0] == 'w' && "macos"@[0] == 'm' && "linux"@[0] == 'l');
}

/// The archive of a release lies under the address that tells of the latest one, and is named after
/// the target.
pub proof fn archives_are_named_after_their_targets(target: &str, archive: String, latest: String)
    requires
        call_ensures(archive_url, (target,), archive),
        call_ensures(latest_release_url, (), latest),
    ensures
        latest@ == "https://github.com/"@ + "whjvenyl/ticgit"@ + "/releases/latest"@,
        archive@ == latest@ + "/download/ticgit-"@ + target@ + ".tar.gz"@,
{
    reveal_strlit("/releases/latest/download/ticgit-");
    reveal_strlit("/releases/latest");
    reveal_strlit("/download/ticgit-");
    assert("/releases/latest/download/ticgit-"@ =~= "/releases/latest"@ + "/download/ticgit-"@);
    crate::text::lemma_assoc(
        "https://github.com/"@ + "whjvenyl/ticgit"@,
        "/releases/latest"@,
        "/download/ticgit-"@,
    );
}

proof fn lemma_after_first(s: Seq<char>, pattern: Seq<char>, at: int)
    requires
        0 <= at && at + pattern.len() <= s.len(),
        s.subrange(at, at + pattern.len()) == pattern,
        forall|i: int|
            0 <= i < at && i + pattern.len() <= s.len() ==> #[trigger] s.subrange(
                i,
                i + pattern.len(),
            ) != pattern,
    ensures
        crate::text::after_first(s, pattern) == Some(s.skip(at + pattern.len())),
    decreases at,
{
    if at == 0 {
        assert(s.take(pattern.len() as int) =~= s.subrange(0, 0int + pattern.len()));
    } else {
        let rest = s.drop_first();
        assert(s.subrange(0, 0int + pattern.len()) != pattern);
        assert(s.take(pattern.len() as int) =~= s.subrange(0, 0int + pattern.len()));
        assert(rest.subrange(at - 1, at - 1 + pattern.len()) =~= s.subrange(
            at,
            at + pattern.len(),
        ));
        assert forall|i: int|
            0 <= i < at - 1 && i + pattern.len() <= rest.len() implies #[trigger] rest.subrange(
            i,
            i + pattern.len(),
        ) != pattern by {
            assert(rest.subrange(i, i + pattern.len()) =~= s.subrange(
                i + 1,
                i + 1 + pattern.len(),
            ));
        }
        lemma_after_first(rest, pattern, at - 1);
        assert(rest.skip(at - 1 + pattern.len()) =~= s.skip(at + pattern.len()));
    }
}

proof fn lemma_after_none(s: Seq<char>, pattern: Seq<char>)
    requires
        !crate::text::holds(s, pattern),
    ensures
        crate::text::after_first(s, pattern) is None,
    decreases s.len(),
{
    if pattern.len() <= s.len() {
        assert(s.take(pattern.len() as int) =~= s.subrange(0, 0int + pattern.len()));
    }
    if s.len() > 0 {
        let rest = s.drop_first();
        if crate::text::holds(rest, pattern) {
            let at = choose|at: int|
                0 <= at && at + pattern.len() <= rest.len() && #[trigger] rest.subrange(
                    at,
                    at + pattern.len(),
                ) == pattern;
            assert(rest.subrange(at, at + pattern.len()) =~= s.subrange(
                at + 1,
                at + 1 + pattern.len(),
            ));
            assert(false);
        }
        lemma_after_none(rest, pattern);
    }
}

/// A reply that names its release with a tag gives the version in that tag, without the `v` before
/// it. `before` is what stands before the first tag, and `after` what follows the quote behind it.
pub proof fn the_version_is_that_of_the_tag(
    body: &str,
    r: Option<String>,
    before: Seq<char>,
    version: Seq<char>,
    after: Seq<char>,
)
    requires
        call_ensures(version_in, (body,), r),
        body@ == before + "\"tag_name\":\""@ + ("v"@ + version) + "\""@ + after,
        forall|i: int|
            0 <= i < before.len() && i + "\"tag_name\":\""@.len() <= body@.len()
                ==> #[trigger] body@.subrange(i, i + "\"tag_name\":\""@.len())
                != "\"tag_name\":\""@,
        forall|i: int| 0 <= i < version.len() ==> #[trigger] version[i] != '"',
        version.len() > 0 && version[0] != 'v',
    ensures
        r matches Some(text) && text@ == version,
{
    reveal_strlit("\"tag_name\":\"");
    reveal_strlit("v");
    reveal_strlit("\"");
    let key = "\"tag_name\":\""@;
    let n = before.len() as int;
    let tag = "v"@ + version;
    let s = body@;
    assert(s.subrange(n, n + key.len()) =~= key);
    lemma_after_first(s, key, n);
    let rest = s.skip(n + key.len());
    assert(rest =~= tag + "\""@ + after);
    let m = tag.len() as int;
    assert forall|j: int| 0 <= j < m implies #[trigger] rest[j] != '"' by {
        assert(rest[j] == tag[j]);
        if j > 0 {
            assert(tag[j] == version[j - 1]);
        }
    }
    assert(rest[m] == '"');
    crate::text::lemma_find(rest, '"', m);
    assert(rest.take(m) =~= tag);
    assert(tag.drop_first() =~= version);
    assert(crate::text::skip_leading(version, 'v') == version);
}

/// A reply without a tag names no version.
pub proof fn without_a_tag_there_is_no_version(body: &str, r: Option<String>)
    requires
        call_ensures(version_in, (body,), r),
        !crate::text::holds(body@, "\"tag_name\":\""@),
    ensures
        r is None,
{
    lemma_after_none(body@, "\"tag_name\":\""@);
}

/// The latest version is the one that the text of the reply names; a reply that names none fails.
pub proof fn the_latest_version_is_named_in_the_reply(
    reply: &Vec<u8>,
    r: Result<String, String>,
    body: &str,
    named: Option<String>,
)
    requires
        call_ensures(latest_version, (reply,), r),
        reply@ == vstd::utf8::encode_utf8(body@),
        call_ensures(version_in, (body,), named),
    ensures
        match named {
            Some(version) => r matches Ok(found) && found@ == version@,
            None => r is Err,
        },
{
    vstd::utf8::encode_utf8_valid_utf8(body@);
    vstd::utf8::encode_utf8_decode_utf8(body@);
}

/// A version is installed only where it is newer than the one in use and more than a look was asked
/// for; a look only tells of it. The message says the same.
pub proof fn only_newer_versions_are_installed(
    current: &str,
    latest: &str,
    args: &Args,
    step: UpdateStep,
    is_newer: bool,
    message: String,
)
    requires
        call_ensures(newer, (latest, current), is_newer),
        call_ensures(next_step, (current, latest, args), step),
        call_ensures(version_message, (current, latest), message),
    ensures
        step == UpdateStep::Install <==> is_newer && !args.check,
        step == UpdateStep::Tell <==> is_newer && args.check,
        step == UpdateStep::UpToDate <==> !is_newer,
        is_newer ==> message@ == "Update available: v"@ + current@ + " -> v"@ + latest@,
        !is_newer ==> message@ == "Already up to date (v"@ + current@ + ")."@,
{
}

} // verus!
