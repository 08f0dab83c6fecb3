//! The installed version string and how a fork stamps its build identifier.

use vstd::prelude::*;

use crate::semver_version::{parse_semver, semver_parse, SemVer};
use crate::text::{
    after_first, before_first, clean_pieces, equals_char, first_match, has_prefix, join, join_str,
    lemma_first_match, lemma_first_match_at, lemma_first_match_none, lemma_first_match_prefix, lemma_first_match_push,
    lemma_non_empty_pieces_clean, lemma_pieces_of_join, non_empty_pieces, split_non_empty,
    split_once_char, starts_with, str_eq, trim, trimmed, views,
};

verus! {

/// The version this library ships as. A release build that injects its own
/// version at build time passes that version to the `_or` functions below.
pub const VERSION: &'static str = "0.1.0";

/// The environment variable whose value, where set, stands in for the
/// installed version.
pub const TEST_VERSION_ENV: &'static str = "GROK_TEST_VERSION";

/// The runtime-injected, user-facing version string: official builds stamp
/// `"<version> (<shortcommit>)"`. Only the binary injects it, once at startup;
/// the first stamp wins and later ones are ignored.
pub struct FullVersion {
    stamp: Option<&'static str>,
}

impl View for FullVersion {
    type V = Option<Seq<char>>;

    /// The injected string, where one was injected.
    closed spec fn view(&self) -> Option<Seq<char>> {
        match self.stamp {
            Some(s) => Some(s@),
            None => None,
        }
    }
}

impl FullVersion {
    /// No version injected yet.
    pub fn new() -> (r: Self)
        ensures
            r@ is None,
    {
        FullVersion { stamp: None }
    }
}

/// The state after injecting `v`: the first injection wins.
pub open spec fn after_set(state: Option<Seq<char>>, v: Seq<char>) -> Option<Seq<char>> {
    match state {
        Some(first) => Some(first),
        None => Some(v),
    }
}

/// The version string shown: the injected one, or the compiled version where
/// none was.
pub open spec fn shown_version(state: Option<Seq<char>>, compiled: Seq<char>) -> Seq<char> {
    match state {
        Some(v) => v,
        None => compiled,
    }
}

/// Inject the binary's stamped version string. Idempotent: the first set
/// wins, repeats are ignored.
pub fn set_full_version(cell: &mut FullVersion, v: &'static str)
    ensures
        final(cell)@ == after_set(old(cell)@, v@),
{
    if cell.stamp.is_none() {
        cell.stamp = Some(v);
    }
}

/// The injected version string, or the compiled version `compiled` when
/// nothing was injected.
pub fn full_version_or(cell: &FullVersion, compiled: &'static str) -> (r: &'static str)
    ensures
        r@ == shown_version(cell@, compiled@),
{
    match cell.stamp {
        Some(v) => v,
        None => compiled,
    }
}

/// The injected version string, or plain `VERSION` when nothing was injected
/// (lib tests, dev harnesses).
pub fn full_version(cell: &FullVersion) -> (r: &'static str)
    ensures
        r@ == shown_version(cell@, VERSION@),
{
    full_version_or(cell, VERSION)
}

/// Before any injection the shown version is the compiled one; after
/// injections the first injected string is shown, whatever is injected later.
pub proof fn lemma_first_set_wins(
    state: Option<Seq<char>>,
    compiled: Seq<char>,
    first: Seq<char>,
    later: Seq<char>,
)
    ensures
        shown_version(None, compiled) == compiled,
        state is None ==> shown_version(after_set(state, first), compiled) == first,
        shown_version(after_set(after_set(state, first), later), compiled) == shown_version(
            after_set(state, first),
            compiled,
        ),
{
}

/// The installed version: the trimmed override where `GROK_TEST_VERSION`
/// is set, otherwise the compiled version.
pub open spec fn installed_version(test_version: Option<Seq<char>>, compiled: Seq<char>) -> Seq<char> {
    match test_version {
        Some(v) => trimmed(v),
        None => compiled,
    }
}

/// The view of an optional override.
pub open spec fn override_view(test_version: Option<&str>) -> Option<Seq<char>> {
    match test_version {
        Some(v) => Some(v@),
        None => None,
    }
}

/// The installed version, given the value of `TEST_VERSION_ENV` where it is
/// set and the compiled version. The override is trimmed so that callers can
/// parse it directly.
pub fn installed_or(test_version: Option<&str>, compiled: &str) -> (r: String)
    ensures
        r@ == installed_version(override_view(test_version), compiled@),
{
    match test_version {
        Some(v) => String::from_str(trim(v)),
        None => String::from_str(compiled),
    }
}

/// The installed version, given the value of `TEST_VERSION_ENV` where it is
/// set, with `VERSION` as the compiled version.
pub fn installed(test_version: Option<&str>) -> (r: String)
    ensures
        r@ == installed_version(override_view(test_version), VERSION@),
{
    installed_or(test_version, VERSION)
}

/// Why the installed version is not a SemVer version.
#[derive(Debug)]
pub struct VersionParseError {
    /// What the SemVer parser reported.
    pub cause: semver::Error,
}

/// The installed version parsed as SemVer, with `compiled` as the compiled
/// version.
pub fn installed_semver_or(test_version: Option<&str>, compiled: &str) -> (r: Result<
    SemVer,
    VersionParseError,
>)
    ensures
        match r {
            Ok(v) => semver_parse(installed_version(override_view(test_version), compiled@)) == Some(
                v.parts(),
            ),
            Err(_) => semver_parse(installed_version(override_view(test_version), compiled@)) is None,
        },
{
    let text = installed_or(test_version, compiled);
    match parse_semver(text.as_str()) {
        Ok(v) => Ok(v),
        Err(cause) => Err(VersionParseError { cause }),
    }
}

/// The installed version parsed as SemVer, with `VERSION` as the compiled
/// version.
pub fn installed_semver(test_version: Option<&str>) -> (r: Result<SemVer, VersionParseError>)
    ensures
        match r {
            Ok(v) => semver_parse(installed_version(override_view(test_version), VERSION@)) == Some(
                v.parts(),
            ),
            Err(_) => semver_parse(installed_version(override_view(test_version), VERSION@)) is None,
        },
{
    installed_semver_or(test_version, VERSION)
}

/// The compiled version followed by the channel label, e.g. `"0.2.5 [stable]"`.
/// The label comes pre-formatted: `" [alpha]"`, `" [stable]"`, or `""`.
pub fn display_version(channel_label: &str) -> (r: String)
    ensures
        r@ == VERSION@ + channel_label@,
{
    String::from_str(VERSION).concat(channel_label)
}

/// Like `display_version`, but for the binary-stamped string (`"0.2.5 (abc1234)"`
/// or `"1.0.16+tbhaxor-abc1234 (deadbeef0123)"`).
pub fn display_version_with_commit(version_with_commit: &str, channel_label: &str) -> (r: String)
    ensures
        r@ == version_with_commit@ + channel_label@,
{
    String::from_str(version_with_commit).concat(channel_label)
}

/// The fork's build identifier: `fork_id-short_sha`, one SemVer identifier.
pub open spec fn fork_token(fork_id: Seq<char>, short_sha: Seq<char>) -> Seq<char> {
    fork_id + seq!['-'] + short_sha
}

/// The predicate "is an earlier fork identifier": `fork_id` itself (the legacy
/// `fork_id.sha` form) or any `fork_id-...` token.
pub open spec fn is_fork_identifier(fork_id: Seq<char>) -> spec_fn(Seq<char>) -> bool {
    |p: Seq<char>| p == fork_id || has_prefix(p, fork_id + seq!['-'])
}

/// The version without its build metadata: everything before the first `+`.
pub open spec fn version_core(version: Seq<char>) -> Seq<char> {
    before_first(version, '+')
}

/// The non-empty dot-separated identifiers after the first `+`, if any.
pub open spec fn build_identifiers(version: Seq<char>) -> Seq<Seq<char>> {
    match after_first(version, '+') {
        Some(build) => non_empty_pieces(build, '.'),
        None => Seq::empty(),
    }
}

/// The identifiers with the first earlier fork identifier taken out; where that
/// one is the bare `fork_id` and something follows it, the following one (the
/// legacy sha) goes too.
pub open spec fn without_stale_fork(ids: Seq<Seq<char>>, fork_id: Seq<char>) -> Seq<Seq<char>> {
    match first_match(ids, is_fork_identifier(fork_id)) {
        Some(i) => {
            let end = if ids[i] == fork_id && i + 1 < ids.len() { i + 1 } else { i };
            ids.take(i) + ids.skip(end + 1)
        },
        None => ids,
    }
}

/// The stamped version: the core, `+`, and the kept identifiers followed by the
/// fresh fork token, joined by dots.
pub open spec fn stamped_version(version: Seq<char>, fork_id: Seq<char>, short_sha: Seq<char>) -> Seq<char> {
    version_core(version) + seq!['+'] + join(
        without_stale_fork(build_identifiers(version), fork_id).push(fork_token(fork_id, short_sha)),
        seq!['.'],
    )
}

/// The position of the first earlier fork identifier among `parts`.
fn first_fork_position(parts: &Vec<&str>, fork_id: &str, prefix: &str) -> (r: Option<usize>)
    requires
        prefix@ == fork_id@ + seq!['-'],
    ensures
        match r {
            Some(i) => first_match(views(parts@), is_fork_identifier(fork_id@)) == Some(i as int),
            None => first_match(views(parts@), is_fork_identifier(fork_id@)) is None,
        },
{
    let ghost p = is_fork_identifier(fork_id@);
    let ghost vs = views(parts@);
    let n = parts.len();
    let mut i: usize = 0;
    assert(vs.take(0) =~= Seq::<Seq<char>>::empty());
    while i < n
        invariant
            n == parts@.len() == vs.len(),
            vs == views(parts@),
            p == is_fork_identifier(fork_id@),
            prefix@ == fork_id@ + seq!['-'],
            i <= n,
            first_match(vs.take(i as int), p) is None,
        decreases n - i,
    {
        let part = parts[i];
        proof {
            assert(vs.take(i + 1) =~= vs.take(i as int).push(part@));
            lemma_first_match_push(vs.take(i as int), part@, p);
        }
        if str_eq(part, fork_id) || starts_with(part, prefix) {
            proof {
                lemma_first_match_prefix(vs, i + 1, p);
            }
            return Some(i);
        }
        i = i + 1;
    }
    assert(vs.take(n as int) =~= vs);
    None
}

/// Append `fork_id-short_sha` as one SemVer build identifier (a hyphen, not a
/// `.`, keeps it a single token). Existing `+...` identifiers are kept. A
/// previous `fork_id-<sha>` token, or the legacy `fork_id.sha` pair, is
/// refreshed in place so that rebuilds do not stack.
pub fn append_fork_build_meta(version: &str, fork_id: &str, short_sha: &str) -> (r: String)
    ensures
        r@ == stamped_version(version@, fork_id@, short_sha@),
{
    proof {
        reveal_strlit("-");
        reveal_strlit("+");
        reveal_strlit(".");
    }
    assert("-"@ =~= seq!['-']);
    assert("+"@ =~= seq!['+']);
    assert("."@ =~= seq!['.']);
    let token = String::from_str(fork_id).concat("-").concat(short_sha);
    let prefix = String::from_str(fork_id).concat("-");
    let (core, build) = split_once_char(version, '+');
    let mut parts: Vec<&str> = match build {
        Some(b) => split_non_empty(b, '.'),
        None => Vec::new(),
    };
    assert(views(parts@) == build_identifiers(version@));
    let ghost ids = views(parts@);
    match first_fork_position(&parts, fork_id, prefix.as_str()) {
        Some(i) => {
            proof {
                lemma_first_match(ids, is_fork_identifier(fork_id@));
            }
            let end = if str_eq(parts[i], fork_id) && i < parts.len() - 1 {
                i + 1
            } else {
                i
            };
            if end > i {
                parts.remove(i + 1);
            }
            parts.remove(i);
            assert(views(parts@) =~= ids.take(i as int) + ids.skip(end + 1));
        },
        None => {},
    }
    assert(views(parts@) == without_stale_fork(ids, fork_id@));
    let ghost kept = parts@;
    parts.push(token.as_str());
    assert(views(parts@) =~= views(kept).push(token@));
    let joined = join_str(&parts, ".");
    String::from_str(core).concat("+").concat(joined.as_str())
}


/// At most one of the identifiers is an earlier fork identifier.
pub open spec fn at_most_one_fork_identifier(ids: Seq<Seq<char>>, fork_id: Seq<char>) -> bool {
    forall|j: int, k: int|
        0 <= j < k < ids.len() && is_fork_identifier(fork_id)(#[trigger] ids[j])
            ==> !is_fork_identifier(fork_id)(#[trigger] ids[k])
}

/// The core of a version holds no `+`.
proof fn lemma_core_has_no_plus(version: Seq<char>)
    ensures
        !version_core(version).contains('+'),
{
    lemma_first_match(version, equals_char('+'));
    let core = version_core(version);
    if core.contains('+') {
        let j = choose|j: int| 0 <= j < core.len() && core[j] == '+';
        assert(version[j] == core[j]);
    }
}

/// The build identifiers of a version are clean pieces.
proof fn lemma_build_identifiers_clean(version: Seq<char>)
    ensures
        clean_pieces(build_identifiers(version), '.'),
{
    match after_first(version, '+') {
        Some(build) => lemma_non_empty_pieces_clean(build, '.'),
        None => {},
    }
}

/// Dropping the stale fork identifier keeps clean pieces clean.
proof fn lemma_without_stale_fork_clean(ids: Seq<Seq<char>>, fork_id: Seq<char>)
    requires
        clean_pieces(ids, '.'),
    ensures
        clean_pieces(without_stale_fork(ids, fork_id), '.'),
{
    lemma_first_match(ids, is_fork_identifier(fork_id));
    match first_match(ids, is_fork_identifier(fork_id)) {
        Some(i) => {
            let end = if ids[i] == fork_id && i + 1 < ids.len() { i + 1 } else { i };
            let kept = ids.take(i) + ids.skip(end + 1);
            assert forall|k: int| 0 <= k < kept.len() implies #[trigger] kept[k].len() > 0
                && !kept[k].contains('.') by {
                if k < i {
                    assert(kept[k] == ids[k]);
                } else {
                    assert(kept[k] == ids[k + end + 1 - i]);
                }
            }
        },
        None => {},
    }
}

/// A fork token free of dots is a clean piece.
proof fn lemma_fork_token_clean(fork_id: Seq<char>, short_sha: Seq<char>)
    requires
        !fork_id.contains('.'),
        !short_sha.contains('.'),
    ensures
        fork_token(fork_id, short_sha).len() > 0,
        !fork_token(fork_id, short_sha).contains('.'),
{
    let t = fork_token(fork_id, short_sha);
    assert(t[fork_id.len() as int] == '-');
    if t.contains('.') {
        let j = choose|j: int| 0 <= j < t.len() && t[j] == '.';
        if j < fork_id.len() {
            assert(fork_id[j] == '.');
        } else if j > fork_id.len() {
            assert(short_sha[j - fork_id.len() - 1] == '.');
        }
    }
}

/// Stamping keeps the core, and its build identifiers are the kept ones
/// followed by the fresh fork token, for a fork id and sha free of dots.
pub proof fn lemma_stamp_keeps_core_and_identifiers(
    version: Seq<char>,
    fork_id: Seq<char>,
    short_sha: Seq<char>,
)
    requires
        !fork_id.contains('.'),
        !short_sha.contains('.'),
    ensures
        version_core(stamped_version(version, fork_id, short_sha)) == version_core(version),
        build_identifiers(stamped_version(version, fork_id, short_sha)) == without_stale_fork(
            build_identifiers(version),
            fork_id,
        ).push(fork_token(fork_id, short_sha)),
{
    let core = version_core(version);
    let ids = without_stale_fork(build_identifiers(version), fork_id).push(fork_token(fork_id, short_sha));
    let rest = join(ids, seq!['.']);
    let st = stamped_version(version, fork_id, short_sha);
    let plus = equals_char('+');
    assert(st == core + seq!['+'] + rest);
    lemma_core_has_no_plus(version);
    assert(st.take(core.len() as int) =~= core);
    assert forall|j: int| 0 <= j < core.len() implies !plus(#[trigger] core[j]) by {
        if core[j] == '+' {
            assert(core.contains('+'));
        }
    }
    lemma_first_match_none(core, plus);
    lemma_first_match_push(core, '+', plus);
    assert(st.take(core.len() as int + 1) =~= core.push('+'));
    lemma_first_match_prefix(st, core.len() as int + 1, plus);
    assert(st.skip(core.len() as int + 1) =~= rest);
    lemma_build_identifiers_clean(version);
    lemma_without_stale_fork_clean(build_identifiers(version), fork_id);
    lemma_fork_token_clean(fork_id, short_sha);
    let kept = without_stale_fork(build_identifiers(version), fork_id);
    assert(clean_pieces(ids, '.')) by {
        assert forall|k: int| 0 <= k < ids.len() implies #[trigger] ids[k].len() > 0 && !ids[k].contains(
            '.',
        ) by {
            if k < kept.len() {
                assert(ids[k] == kept[k]);
            }
        }
    }
    lemma_pieces_of_join(ids, '.');
}

/// Rebuilds do not stack: stamping an already stamped version again gives what
/// one stamp with the newer sha gives, provided the fork id and the first sha
/// hold no dot and the version carried at most one earlier fork identifier.
pub proof fn lemma_restamp_does_not_stack(
    version: Seq<char>,
    fork_id: Seq<char>,
    first_sha: Seq<char>,
    second_sha: Seq<char>,
)
    requires
        !fork_id.contains('.'),
        !first_sha.contains('.'),
        at_most_one_fork_identifier(build_identifiers(version), fork_id),
    ensures
        stamped_version(stamped_version(version, fork_id, first_sha), fork_id, second_sha)
            == stamped_version(version, fork_id, second_sha),
{
    let p = is_fork_identifier(fork_id);
    let ids = build_identifiers(version);
    let kept = without_stale_fork(ids, fork_id);
    let t1 = fork_token(fork_id, first_sha);
    lemma_stamp_keeps_core_and_identifiers(version, fork_id, first_sha);
    lemma_first_match(ids, p);
    assert forall|k: int| 0 <= k < kept.len() implies !p(#[trigger] kept[k]) by {
        match first_match(ids, p) {
            Some(i) => {
                let end = if ids[i] == fork_id && i + 1 < ids.len() { i + 1 } else { i };
                if k < i {
                    assert(kept[k] == ids[k]);
                } else {
                    assert(kept[k] == ids[k + end + 1 - i]);
                    assert(p(ids[i]));
                }
            },
            None => {},
        }
    }
    lemma_first_match_none(kept, p);
    assert(t1.take(fork_id.len() as int + 1) =~= fork_id + seq!['-']);
    assert(p(t1));
    lemma_first_match_push(kept, t1, p);
    let again = kept.push(t1);
    assert(again[kept.len() as int] != fork_id) by {
        assert(t1.len() > fork_id.len());
    }
    assert(without_stale_fork(again, fork_id) =~= kept);
}


/// Stamping writes the text before the first `+` back verbatim, and the `+`
/// after it: where the first `+` of `version` is at position `k`, the stamp
/// begins with the first `k + 1` characters of `version`.
pub proof fn lemma_stamp_keeps_text_before_first_plus(
    version: Seq<char>,
    fork_id: Seq<char>,
    short_sha: Seq<char>,
    k: int,
)
    requires
        0 <= k < version.len(),
        version[k] == '+',
        forall|j: int| 0 <= j < k ==> version[j] != '+',
    ensures
        stamped_version(version, fork_id, short_sha).take(k + 1) == version.take(k + 1),
{
    assert forall|j: int| 0 <= j < k implies !equals_char('+')(#[trigger] version[j]) by {}
    lemma_first_match_at(version, k, equals_char('+'));
    let st = stamped_version(version, fork_id, short_sha);
    assert(version_core(version) == version.take(k));
    assert(st.take(k + 1) =~= version.take(k + 1));
}

/// A version without `+` is written back whole, followed by `+`.
pub proof fn lemma_stamp_keeps_version_without_plus(
    version: Seq<char>,
    fork_id: Seq<char>,
    short_sha: Seq<char>,
)
    requires
        forall|j: int| 0 <= j < version.len() ==> version[j] != '+',
    ensures
        stamped_version(version, fork_id, short_sha).take(version.len() as int + 1) == version.push('+'),
{
    assert forall|j: int| 0 <= j < version.len() implies !equals_char('+')(#[trigger] version[j]) by {}
    lemma_first_match_none(version, equals_char('+'));
    let st = stamped_version(version, fork_id, short_sha);
    assert(st.take(version.len() as int + 1) =~= version.push('+'));
}

} // verus!
