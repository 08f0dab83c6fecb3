//! The build stamp `"<stamped version> (<commit>)"` that the binary injects as
//! its full version, computed from what the build environment and git report.

use vstd::prelude::*;
use vstd::utf8::{encode_scalar, encode_utf8, is_ascii_chars, is_ascii_chars_encode_utf8};

use crate::text::{trim, trimmed};
use crate::version::{append_fork_build_meta, override_view, stamped_version};

verus! {

/// The fork that stamps its builds.
pub const FORK_ID: &'static str = "tbhaxor";

/// The version a build stamps: `GROK_VERSION` where set, else
/// `CARGO_PKG_VERSION` where set, else `0.0.0`.
pub open spec fn build_version_text(grok: Option<Seq<char>>, pkg: Option<Seq<char>>) -> Seq<char> {
    match grok {
        Some(v) => v,
        None => match pkg {
            Some(v) => v,
            None => "0.0.0"@,
        },
    }
}

/// The placeholder for a commit or sha that git did not report usably.
pub open spec fn unknown_label() -> Seq<char> {
    "unknown"@
}

/// The commit label from the output of `git rev-parse HEAD`: the first twelve
/// characters of the trimmed output where they take twelve bytes in UTF-8,
/// otherwise `unknown`.
pub open spec fn commit_label(head: Option<Seq<char>>) -> Seq<char> {
    match head {
        Some(h) => {
            let t = trimmed(h);
            let first = t.take(if t.len() < 12 { t.len() as int } else { 12 });
            if encode_utf8(first).len() == 12 {
                first
            } else {
                unknown_label()
            }
        },
        None => unknown_label(),
    }
}

/// Whether the character is an ASCII hexadecimal digit.
pub open spec fn is_ascii_hex_digit(c: char) -> bool {
    let u = c as u32;
    (48 <= u <= 57) || (65 <= u <= 70) || (97 <= u <= 102)
}

/// The short sha from the output of `git rev-parse --short HEAD`: the trimmed
/// output where it is non-empty and all ASCII hex digits, otherwise `unknown`.
pub open spec fn short_sha_label(short: Option<Seq<char>>) -> Seq<char> {
    match short {
        Some(s) => {
            let t = trimmed(s);
            if t.len() > 0 && forall|i: int| 0 <= i < t.len() ==> is_ascii_hex_digit(#[trigger] t[i]) {
                t
            } else {
                unknown_label()
            }
        },
        None => unknown_label(),
    }
}

/// The build stamp: the version stamped with the fork's short sha, then the
/// commit in parentheses.
pub open spec fn build_stamp(
    version: Seq<char>,
    fork_id: Seq<char>,
    head: Option<Seq<char>>,
    short: Option<Seq<char>>,
) -> Seq<char> {
    stamped_version(version, fork_id, short_sha_label(short)) + " ("@ + commit_label(head) + ")"@
}

/// A character takes at most four bytes in UTF-8.
proof fn lemma_encode_utf8_len(s: Seq<char>)
    ensures
        encode_utf8(s).len() <= 4 * s.len(),
    decreases s.len(),
{
    if s.len() > 0 {
        lemma_encode_utf8_len(s.drop_first());
        assert(encode_scalar(s[0] as u32).len() <= 4);
    }
}

/// The version a build stamps, given `GROK_VERSION` and `CARGO_PKG_VERSION`
/// where each is set.
pub fn build_version(grok: Option<&str>, pkg: Option<&str>) -> (r: String)
    ensures
        r@ == build_version_text(override_view(grok), override_view(pkg)),
{
    match grok {
        Some(v) => String::from_str(v),
        None => match pkg {
            Some(v) => String::from_str(v),
            None => String::from_str("0.0.0"),
        },
    }
}

/// The commit label, given the output of `git rev-parse HEAD` where git
/// succeeded.
pub fn commit_label_for(head: Option<&str>) -> (r: String)
    ensures
        r@ == commit_label(override_view(head)),
{
    match head {
        Some(h) => {
            let t = trim(h);
            let n = t.unicode_len();
            let k = if n < 12 { n } else { 12 };
            let first = t.substring_char(0, k);
            proof {
                lemma_encode_utf8_len(first@);
            }
            if first.len() == 12 {
                String::from_str(first)
            } else {
                String::from_str("unknown")
            }
        },
        None => String::from_str("unknown"),
    }
}

/// Whether the character is an ASCII hexadecimal digit.
fn is_ascii_hex_digit_char(c: char) -> (r: bool)
    ensures
        r == is_ascii_hex_digit(c),
{
    let u = c as u32;
    (48 <= u && u <= 57) || (65 <= u && u <= 70) || (97 <= u && u <= 102)
}

/// The short sha, given the output of `git rev-parse --short HEAD` where git
/// succeeded.
pub fn short_sha_for(short: Option<&str>) -> (r: String)
    ensures
        r@ == short_sha_label(override_view(short)),
{
    match short {
        Some(s) => {
            let t = trim(s);
            let n = t.unicode_len();
            if n == 0 {
                return String::from_str("unknown");
            }
            let mut i: usize = 0;
            while i < n
                invariant
                    n == t@.len(),
                    t@ == trimmed(s@),
                    short == Some(s),
                    i <= n,
                    forall|j: int| 0 <= j < i ==> is_ascii_hex_digit(#[trigger] t@[j]),
                decreases n - i,
            {
                if !is_ascii_hex_digit_char(t.get_char(i)) {
                    assert(!is_ascii_hex_digit(t@[i as int]));
                    return String::from_str("unknown");
                }
                i = i + 1;
            }
            String::from_str(t)
        },
        None => String::from_str("unknown"),
    }
}

/// The build stamp `"<version with fork_id-short_sha> (<commit>)"`, given
/// the version and what git reported (`None` where git failed). It stamps
/// with `append_fork_build_meta`, so the two stay in lockstep.
pub fn version_with_commit(version: &str, fork_id: &str, head: Option<&str>, short: Option<&str>) -> (r: String)
    ensures
        r@ == build_stamp(version@, fork_id@, override_view(head), override_view(short)),
{
    let short_sha = short_sha_for(short);
    let commit = commit_label_for(head);
    append_fork_build_meta(version, fork_id, short_sha.as_str()).concat(" (").concat(commit.as_str()).concat(
        ")",
    )
}


/// Git's short sha is kept whatever its length: where the trimmed output is
/// non-empty and all ASCII hex digits, it is the short sha, and the build
/// stamp carries it; any other output gives `unknown`.
pub proof fn lemma_hex_short_sha_is_kept(
    version: Seq<char>,
    fork_id: Seq<char>,
    head: Option<Seq<char>>,
    short: Seq<char>,
)
    ensures
        (trimmed(short).len() > 0 && forall|i: int|
            0 <= i < trimmed(short).len() ==> is_ascii_hex_digit(#[trigger] trimmed(short)[i]))
            ==> short_sha_label(Some(short)) == trimmed(short) && build_stamp(
            version,
            fork_id,
            head,
            Some(short),
        ) == stamped_version(version, fork_id, trimmed(short)) + " ("@ + commit_label(head) + ")"@,
        (trimmed(short).len() == 0 || exists|i: int|
            0 <= i < trimmed(short).len() && !is_ascii_hex_digit(#[trigger] trimmed(short)[i]))
            ==> short_sha_label(Some(short)) == "unknown"@,
{
}

/// The commit label is the first twelve characters of git's trimmed output
/// where they are ASCII, and `unknown` for shorter ASCII output or no output.
pub proof fn lemma_commit_label_takes_twelve(head: Seq<char>)
    ensures
        trimmed(head).len() >= 12 && is_ascii_chars(trimmed(head).take(12)) ==> commit_label(Some(head))
            == trimmed(head).take(12),
        trimmed(head).len() < 12 && is_ascii_chars(trimmed(head)) ==> commit_label(Some(head))
            == "unknown"@,
        commit_label(None) == "unknown"@,
{
    let t = trimmed(head);
    if t.len() >= 12 && is_ascii_chars(t.take(12)) {
        is_ascii_chars_encode_utf8(t.take(12));
    }
    if t.len() < 12 && is_ascii_chars(t) {
        assert(t.take(t.len() as int) =~= t);
        is_ascii_chars_encode_utf8(t);
    }
}

} // verus!
