//! `wux update`: reading the latest release tag and comparing versions.
use crate::text::{decimal, parse_unsigned, parse_unsigned_chars, split, split_char, strip_leading, to_chars, trim_start_matches, views, from_chars, append_str};
use vstd::prelude::*;

verus! {

broadcast use vstd::string::group_string_axioms;

// ---------------------------------------------------------------------------
// Version comparison
// ---------------------------------------------------------------------------

/// The numbers of the dot-separated pieces that parse as `u32`, in order
/// (`split('.')` then `filter_map(|s| s.parse().ok())`).
pub open spec fn version_numbers_of(pieces: Seq<Seq<char>>) -> Seq<u32>
    decreases pieces.len(),
{
    if pieces.len() == 0 {
        seq![]
    } else {
        let rest = version_numbers_of(pieces.drop_last());
        match parse_unsigned(pieces.last(), u32::MAX as nat) {
            Some(v) => rest.push(v as u32),
            None => rest,
        }
    }
}

/// The numeric components of a version text such as `1.2.10`.
pub open spec fn version_numbers(s: Seq<char>) -> Seq<u32> {
    version_numbers_of(split(s, '.'))
}

/// `l` is newer than `c`: at the first position of their common length where
/// they differ, `l` holds the greater number. Positions beyond the shorter
/// sequence are not looked at.
pub open spec fn newer_numbers(l: Seq<u32>, c: Seq<u32>) -> bool
    decreases l.len(),
{
    if l.len() == 0 || c.len() == 0 {
        false
    } else if l[0] > c[0] {
        true
    } else if l[0] < c[0] {
        false
    } else {
        newer_numbers(l.drop_first(), c.drop_first())
    }
}

/// The version text `latest` names a newer release than `current`.
pub open spec fn newer_than(latest: Seq<char>, current: Seq<char>) -> bool {
    newer_numbers(version_numbers(latest), version_numbers(current))
}

proof fn lemma_numbers_prepend(p: Seq<char>, ps: Seq<Seq<char>>)
    ensures
        version_numbers_of(seq![p] + ps) == (match parse_unsigned(p, u32::MAX as nat) {
            Some(v) => seq![v as u32],
            None => Seq::<u32>::empty(),
        }) + version_numbers_of(ps),
    decreases ps.len(),
{
    if ps.len() == 0 {
        assert(seq![p] + ps =~= seq![p]);
        assert(seq![p].drop_last() =~= Seq::<Seq<char>>::empty());
        assert(version_numbers_of(Seq::<Seq<char>>::empty()) =~= Seq::<u32>::empty());
        match parse_unsigned(p, u32::MAX as nat) {
            Some(v) => {
                assert(Seq::<u32>::empty().push(v as u32) =~= seq![v as u32]);
            },
            None => {},
        }
    } else {
        lemma_numbers_prepend(p, ps.drop_last());
        assert((seq![p] + ps).drop_last() =~= seq![p] + ps.drop_last());
        assert((seq![p] + ps).last() == ps.last());
        let head = match parse_unsigned(p, u32::MAX as nat) {
            Some(v) => seq![v as u32],
            None => Seq::<u32>::empty(),
        };
        match parse_unsigned(ps.last(), u32::MAX as nat) {
            Some(v) => {
                assert((head + version_numbers_of(ps.drop_last())).push(v as u32) =~= head + (
                version_numbers_of(ps.drop_last()).push(v as u32)));
            },
            None => {},
        }
    }
}

/// A version text that starts with a number and a dot has that number as its
/// first component, followed by the components of the rest: `1.2.10` has the
/// components 1, 2 and 10, in that order.
pub proof fn leading_number_is_first_component(n: u32, rest: Seq<char>)
    ensures
        version_numbers(decimal(n as nat) + seq!['.'] + rest) == seq![n] + version_numbers(rest),
{
    let d = decimal(n as nat);
    crate::text::decimal_denotes_its_number(n as nat);
    crate::text::parse_reads_decimal_back(n as nat, u32::MAX as nat);
    assert forall|i: int| 0 <= i < d.len() implies #[trigger] d[i] != '.' by {
        assert(crate::text::is_digit(d[i]));
    }
    assert(d + seq!['.'] + rest =~= d + (seq!['.'] + rest));
    crate::text::lemma_split_word(d, seq!['.'] + rest, '.', seq![]);
    assert(Seq::<char>::empty() + d =~= d);
    assert((seq!['.'] + rest).drop_first() =~= rest);
    assert(split(d + seq!['.'] + rest, '.') == seq![d] + split(rest, '.'));
    lemma_numbers_prepend(d, split(rest, '.'));
    assert(((n as nat) as u32) == n);
}

/// The numeric components of `s`.
pub fn version_parts(s: &str) -> (r: Vec<u32>)
    ensures
        r@ == version_numbers(s@),
{
    let cs = to_chars(s);
    let pieces = split_char(cs.as_slice(), '.');
    let ghost ps = views(pieces@);
    let mut r: Vec<u32> = Vec::new();
    for i in 0..pieces.len()
        invariant
            ps == views(pieces@),
            ps == split(s@, '.'),
            r@ == version_numbers_of(ps.take(i as int)),
    {
        assert(ps.take(i + 1).drop_last() =~= ps.take(i as int));
        assert(ps.take(i + 1).last() == pieces@[i as int]@);
        match parse_unsigned_chars(pieces[i].as_slice(), 0xffff_ffff) {
            Some(v) => r.push(v as u32),
            None => {},
        }
    }
    assert(ps.take(pieces@.len() as int) =~= ps);
    r
}

fn compare_versions(latest: &str, current: &str) -> (r: bool)
    ensures
        r == newer_than(latest@, current@),
{
    let l = version_parts(latest);
    let c = version_parts(current);
    let n = if l.len() < c.len() {
        l.len()
    } else {
        c.len()
    };
    assert(l@.skip(0) =~= l@);
    assert(c@.skip(0) =~= c@);
    for i in 0..n
        invariant
            n <= l@.len(),
            n <= c@.len(),
            n == l@.len() || n == c@.len(),
            l@ == version_numbers(latest@),
            c@ == version_numbers(current@),
            newer_numbers(l@, c@) == newer_numbers(l@.skip(i as int), c@.skip(i as int)),
    {
        assert(l@.skip(i as int).drop_first() =~= l@.skip(i + 1));
        assert(c@.skip(i as int).drop_first() =~= c@.skip(i + 1));
        if l[i] > c[i] {
            return true;
        }
        if l[i] < c[i] {
            return false;
        }
    }
    false
}

/// Whether the version `latest` is newer than `current`.
pub fn is_newer(latest: &str, current: &str) -> (r: bool)
    ensures
        r == newer_than(latest@, current@),
        // at the first position where the numbers differ, the latest one is greater
        r <==> exists|k: int|
            0 <= k < version_numbers(latest@).len() && k < version_numbers(current@).len()
                && #[trigger] version_numbers(latest@)[k] > version_numbers(current@)[k]
                && forall|j: int|
                0 <= j < k ==> #[trigger] version_numbers(latest@)[j] == version_numbers(
                    current@,
                )[j],
{
    let r = compare_versions(latest, current);
    proof {
        newer_is_first_difference(version_numbers(latest@), version_numbers(current@));
    }
    r
}

proof fn lemma_newer_irreflexive(p: Seq<u32>)
    ensures
        !newer_numbers(p, p),
    decreases p.len(),
{
    if p.len() > 0 {
        lemma_newer_irreflexive(p.drop_first());
    }
}

proof fn lemma_newer_asymmetric(a: Seq<u32>, b: Seq<u32>)
    requires
        newer_numbers(a, b),
    ensures
        !newer_numbers(b, a),
    decreases a.len(),
{
    if a[0] == b[0] {
        lemma_newer_asymmetric(a.drop_first(), b.drop_first());
    }
}

proof fn lemma_newer_transitive(a: Seq<u32>, b: Seq<u32>, c: Seq<u32>)
    requires
        newer_numbers(a, b),
        newer_numbers(b, c),
    ensures
        newer_numbers(a, c),
    decreases a.len(),
{
    if a[0] == b[0] && b[0] == c[0] {
        lemma_newer_transitive(a.drop_first(), b.drop_first(), c.drop_first());
    }
}

/// `l` is newer than `c` exactly when, at some position both have, `l` holds
/// the greater number and all positions before it agree.
pub proof fn newer_is_first_difference(l: Seq<u32>, c: Seq<u32>)
    ensures
        newer_numbers(l, c) <==> exists|k: int|
            0 <= k < l.len() && k < c.len() && #[trigger] l[k] > c[k] && forall|j: int|
                0 <= j < k ==> #[trigger] l[j] == c[j],
    decreases l.len(),
{
    if l.len() > 0 && c.len() > 0 {
        newer_is_first_difference(l.drop_first(), c.drop_first());
        if l[0] == c[0] {
            if newer_numbers(l, c) {
                let k = choose|k: int|
                    0 <= k < l.drop_first().len() && k < c.drop_first().len() && #[trigger] l.drop_first()[k]
                        > c.drop_first()[k] && forall|j: int|
                        0 <= j < k ==> #[trigger] l.drop_first()[j] == c.drop_first()[j];
                assert(l[k + 1] > c[k + 1]);
                assert forall|j: int| 0 <= j < k + 1 implies #[trigger] l[j] == c[j] by {
                    if j > 0 {
                        assert(l[j] == l.drop_first()[j - 1]);
                        assert(c[j] == c.drop_first()[j - 1]);
                    }
                }
            } else {
                if exists|k: int|
                    0 <= k < l.len() && k < c.len() && #[trigger] l[k] > c[k] && forall|j: int|
                        0 <= j < k ==> #[trigger] l[j] == c[j] {
                    let k = choose|k: int|
                        0 <= k < l.len() && k < c.len() && #[trigger] l[k] > c[k] && forall|j: int|
                            0 <= j < k ==> #[trigger] l[j] == c[j];
                    assert(k > 0);
                    assert(l.drop_first()[k - 1] > c.drop_first()[k - 1]);
                    assert forall|j: int| 0 <= j < k - 1 implies #[trigger] l.drop_first()[j]
                        == c.drop_first()[j] by {
                        assert(l[j + 1] == c[j + 1]);
                    }
                }
            }
        } else if l[0] > c[0] {
            assert(l[0] > c[0]);
        } else {
            if exists|k: int|
                0 <= k < l.len() && k < c.len() && #[trigger] l[k] > c[k] && forall|j: int|
                    0 <= j < k ==> #[trigger] l[j] == c[j] {
                let k = choose|k: int|
                    0 <= k < l.len() && k < c.len() && #[trigger] l[k] > c[k] && forall|j: int|
                        0 <= j < k ==> #[trigger] l[j] == c[j];
                if k > 0 {
                    assert(l[0] == c[0]);
                }
            }
        }
    }
}

/// No version is newer than itself.
pub proof fn newer_is_irreflexive(v: Seq<char>)
    ensures
        !newer_than(v, v),
{
    lemma_newer_irreflexive(version_numbers(v));
}

/// If `a` is newer than `b`, then `b` is not newer than `a`.
pub proof fn newer_is_asymmetric(a: Seq<char>, b: Seq<char>)
    requires
        newer_than(a, b),
    ensures
        !newer_than(b, a),
{
    lemma_newer_asymmetric(version_numbers(a), version_numbers(b));
}

/// If `a` is newer than `b` and `b` newer than `c`, then `a` is newer than `c`.
pub proof fn newer_is_transitive(a: Seq<char>, b: Seq<char>, c: Seq<char>)
    requires
        newer_than(a, b),
        newer_than(b, c),
    ensures
        newer_than(a, c),
{
    lemma_newer_transitive(version_numbers(a), version_numbers(b), version_numbers(c));
}


// ---------------------------------------------------------------------------
// The latest release, as the release service describes it
// ---------------------------------------------------------------------------

/// `serde_json::Error`, the error of a JSON parse.
#[verifier::external_type_specification]
#[verifier::external_body]
pub struct ExJsonError(serde_json::Error);

/// What `serde_json::from_slice::<serde_json::Value>` makes of `body`, read at the
/// top-level member `key` with `Value::get` and `Value::as_str`: `None` when
/// `body` is not a JSON document; `Some(None)` when it is one but has no member
/// `key` that is a string; `Some(Some(text))` for the string member `key`.
pub uninterp spec fn json_string_member(body: Seq<u8>, key: Seq<char>) -> Option<Option<Seq<char>>>;

pub open spec fn opt_string_view(o: Option<String>) -> Option<Seq<char>> {
    match o {
        Some(s) => Some(s@),
        None => None,
    }
}

/// Parses `body` with `serde_json::from_slice` into a `serde_json::Value` and
/// reads its top-level string member `key` (`Value::get`, then the string case
/// of `Value::as_str`). The contract claims only that the outcome is the named
/// function `json_string_member` of `body` and `key`.
#[verifier::external_body]
fn json_top_string_member(body: &[u8], key: &str) -> (r: Result<Option<String>, serde_json::Error>)
    ensures
        match r {
            Ok(m) => json_string_member(body@, key@) == Some(opt_string_view(m)),
            Err(_) => json_string_member(body@, key@) is None,
        },
{
    match serde_json::from_slice::<serde_json::Value>(body) {
        Ok(v) => match v.get(key) {
            Some(serde_json::Value::String(s)) => Ok(Some(s.clone())),
            _ => Ok(None),
        },
        Err(e) => Err(e),
    }
}

/// Why the latest version could not be determined.
#[derive(Debug, PartialEq, Eq, Structural)]
pub enum UpdateError {
    /// The release description is not JSON.
    ReleaseInfo,
}

impl UpdateError {
    /// The message the user sees.
    pub fn message(&self) -> (r: String)
        ensures
            r@ == "Failed to parse release info"@,
    {
        String::from_str("Failed to parse release info")
    }
}

/// The version named by a release tag: the tag (or `current` when there is
/// none) without its leading `'v'`s.
pub open spec fn version_of_tag(tag: Option<Seq<char>>, current: Seq<char>) -> Seq<char> {
    match tag {
        Some(t) => strip_leading(t, 'v'),
        None => strip_leading(current, 'v'),
    }
}

/// The text a version is read from: the tag, or `current` when there is none.
pub open spec fn tag_text(tag: Option<Seq<char>>, current: Seq<char>) -> Seq<char> {
    match tag {
        Some(t) => t,
        None => current,
    }
}

/// The version that a release's `tag_name` stands for; with no tag name the
/// running version `current` is taken.
pub fn release_version(tag: Option<String>, current: &str) -> (r: String)
    ensures
        r@ == version_of_tag(opt_string_view(tag), current@),
        // the tag (or `current`) without the run of `v`s it starts with
        exists|k: int|
            0 <= k <= tag_text(opt_string_view(tag), current@).len() && r@ == tag_text(
                opt_string_view(tag),
                current@,
            ).skip(k) && forall|i: int|
                0 <= i < k ==> #[trigger] tag_text(opt_string_view(tag), current@)[i] == 'v',
        r@.len() == 0 || r@[0] != 'v',
{
    let ghost text = tag_text(opt_string_view(tag), current@);
    proof {
        crate::text::strip_leading_removes_the_leading_run(text, 'v');
        assert(version_of_tag(opt_string_view(tag), current@) == strip_leading(text, 'v'));
    }
    let t = match tag {
        Some(t) => to_chars(t.as_str()),
        None => to_chars(current),
    };
    let v = trim_start_matches(t.as_slice(), 'v');
    let r = from_chars(v.as_slice());
    proof {
        assert(t@ == text);
        assert(r@ == strip_leading(text, 'v'));
        let k = choose|k: int|
            0 <= k <= text.len() && strip_leading(text, 'v') == text.skip(k) && forall|i: int|
                0 <= i < k ==> #[trigger] text[i] == 'v';
        assert(r@ == text.skip(k));
    }
    r
}

/// The latest released version, read from the release description `body`
/// (the JSON the release service answers with); `current` stands in when the
/// description has no string `tag_name`.
pub fn latest_version(body: &[u8], current: &str) -> (r: Result<String, UpdateError>)
    ensures
        match json_string_member(body@, "tag_name"@) {
            None => r == Err::<String, UpdateError>(UpdateError::ReleaseInfo),
            Some(tag) => r matches Ok(v) && v@ == version_of_tag(tag, current@),
        },
{
    match json_top_string_member(body, "tag_name") {
        Ok(tag) => Ok(release_version(tag, current)),
        Err(_) => Err(UpdateError::ReleaseInfo),
    }
}

/// The outcome of comparing the latest release with the running version.
#[derive(Debug, PartialEq, Eq, Structural)]
pub enum UpdateCheck {
    UpToDate,
    NewerAvailable,
}

/// Compares the latest release with the running version: a newer release is
/// one that differs from `current` and is newer than it.
pub fn check_update(latest: &str, current: &str) -> (r: UpdateCheck)
    ensures
        r == (if latest@ != current@ && newer_than(latest@, current@) {
            UpdateCheck::NewerAvailable
        } else {
            UpdateCheck::UpToDate
        }),
{
    if crate::text::str_eq(latest, current) {
        return UpdateCheck::UpToDate;
    }
    if is_newer(latest, current) {
        UpdateCheck::NewerAvailable
    } else {
        UpdateCheck::UpToDate
    }
}

/// The address of the description of the latest release.
pub fn latest_release_url() -> (r: String)
    ensures
        r@ == "https://api.github.com/repos/dramxx/wux/releases/latest"@,
{
    String::from_str("https://api.github.com/repos/dramxx/wux/releases/latest")
}

/// The address of the program file of release `version`.
pub fn download_url(version: &str) -> (r: String)
    ensures
        r@ == "https://github.com/dramxx/wux/releases/download/v"@ + version@ + "/wux.exe"@,
{
    let mut v: Vec<char> = Vec::new();
    append_str(&mut v, "https://github.com/dramxx/wux/releases/download/v");
    append_str(&mut v, version);
    append_str(&mut v, "/wux.exe");
    from_chars(v.as_slice())
}

} // verus!
