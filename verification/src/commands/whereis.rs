//! `wux whereis <file>`: which walked paths are reported as matches.
//!
//! Paths are texts, read the way `std::path::Path::components` documents it.
//! Off Windows, `'/'` separates. On Windows a path may start with a prefix:
//! a drive `X:`, `\\server\share`, `\\.\device`, or a verbatim one
//! (`\\?\C:`, `\\?\UNC\server\share`, `\\?\name`); prefixes are
//! recognised in this backslash spelling. After a verbatim prefix only `'\'`
//! separates, elsewhere on Windows both `'/'` and `'\'` do. Empty pieces and
//! `"."` are no normal components, nor is `".."`; every other piece is one.
use crate::text::{ascii_lower, chars_eq, chars_eq_ignore_ascii_case, eq_ignore_ascii_case, from_chars, to_chars, trim, trimmed, views};
use vstd::prelude::*;

verus! {

broadcast use vstd::string::group_string_axioms;

// ---------------------------------------------------------------------------
// Path components
// ---------------------------------------------------------------------------

/// A separator: `'/'`, and on Windows `'\'`; after a verbatim prefix only `'\'`.
pub open spec fn is_sep(c: char, windows: bool, verbatim: bool) -> bool {
    if windows && verbatim {
        c == '\\'
    } else {
        c == '/' || (windows && c == '\\')
    }
}

/// The pieces of `s` between separators, given the piece `cur` read so far.
pub open spec fn pieces_from(s: Seq<char>, windows: bool, verbatim: bool, cur: Seq<char>) -> Seq<
    Seq<char>,
>
    decreases s.len(),
{
    if s.len() == 0 {
        seq![cur]
    } else if is_sep(s[0], windows, verbatim) {
        seq![cur] + pieces_from(s.drop_first(), windows, verbatim, seq![])
    } else {
        pieces_from(s.drop_first(), windows, verbatim, cur.push(s[0]))
    }
}

/// A Windows drive prefix `X:` at the start of `s`.
pub open spec fn has_drive_prefix(s: Seq<char>) -> bool {
    s.len() >= 2 && s[1] == ':' && (('A' <= s[0] && s[0] <= 'Z') || ('a' <= s[0] && s[0] <= 'z'))
}

/// `s` starts with two backslashes.
pub open spec fn starts_double(s: Seq<char>) -> bool {
    s.len() >= 2 && s[0] == '\\' && s[1] == '\\'
}

/// `s` starts with `\\?\`, a verbatim prefix.
pub open spec fn starts_verbatim(s: Seq<char>) -> bool {
    starts_double(s) && s.len() >= 4 && s[2] == '?' && s[3] == '\\'
}

/// `s` starts with `\\?\UNC\`.
pub open spec fn starts_verbatim_unc(s: Seq<char>) -> bool {
    starts_verbatim(s) && s.len() >= 8 && s[4] == 'U' && s[5] == 'N' && s[6] == 'C' && s[7] == '\\'
}

/// `s` starts with `\\?\X:` followed by its end or a backslash.
pub open spec fn starts_verbatim_disk(s: Seq<char>) -> bool {
    starts_verbatim(s) && s.len() >= 6 && has_drive_prefix(s.skip(4)) && (s.len() == 6 || s[6]
        == '\\')
}

/// `s` starts with `\\.\`, a device prefix.
pub open spec fn starts_device(s: Seq<char>) -> bool {
    starts_double(s) && s.len() >= 4 && s[2] == '.' && s[3] == '\\'
}

/// Where the piece of `s` that begins at `from` ends: at the next separator
/// (only `'\'` when `backslash_only`), or at the end.
pub open spec fn piece_end(s: Seq<char>, from: int, backslash_only: bool) -> int
    decreases s.len() - from,
{
    if from >= s.len() {
        s.len() as int
    } else if s[from] == '\\' || (!backslash_only && s[from] == '/') {
        from
    } else {
        piece_end(s, from + 1, backslash_only)
    }
}

/// The length of the Windows prefix of `s` (0 when it has none).
pub open spec fn prefix_len(s: Seq<char>, windows: bool) -> int {
    if !windows {
        0
    } else if starts_verbatim_unc(s) {
        let e = piece_end(s, 8, true);
        if e < s.len() {
            piece_end(s, e + 1, true)
        } else {
            e
        }
    } else if starts_verbatim_disk(s) {
        6
    } else if starts_verbatim(s) {
        piece_end(s, 4, true)
    } else if starts_device(s) {
        piece_end(s, 4, false)
    } else if starts_double(s) {
        let e = piece_end(s, 2, false);
        if e > 2 && e < s.len() && piece_end(s, e + 1, false) > e + 1 {
            piece_end(s, e + 1, false)
        } else {
            0
        }
    } else if has_drive_prefix(s) {
        2
    } else {
        0
    }
}

/// The path has a verbatim prefix, after which only `'\'` separates.
pub open spec fn is_verbatim(s: Seq<char>, windows: bool) -> bool {
    windows && starts_verbatim(s)
}

/// The part of a path after its prefix.
pub open spec fn path_body(s: Seq<char>, windows: bool) -> Seq<char> {
    s.skip(prefix_len(s, windows))
}

/// The pieces of a path between its separators.
pub open spec fn path_pieces(s: Seq<char>, windows: bool) -> Seq<Seq<char>> {
    pieces_from(path_body(s, windows), windows, is_verbatim(s, windows), seq![])
}

/// A piece that is a normal component (a name).
pub open spec fn is_normal(p: Seq<char>) -> bool {
    p.len() > 0 && p != seq!['.'] && p != seq!['.', '.']
}

/// The path has a normal component equal to `name`.
pub open spec fn has_component(path: Seq<char>, name: Seq<char>, windows: bool) -> bool {
    exists|i: int|
        0 <= i < path_pieces(path, windows).len() && is_normal(
            #[trigger] path_pieces(path, windows)[i],
        ) && path_pieces(path, windows)[i] == name
}

/// A walked path is skipped when one of its normal components equals one of
/// the ignore patterns.
pub open spec fn ignored(path: Seq<char>, patterns: Seq<Seq<char>>, windows: bool) -> bool {
    exists|j: int| 0 <= j < patterns.len() && has_component(path, #[trigger] patterns[j], windows)
}

/// The pieces that are components other than the current directory: the
/// non-empty pieces other than `"."`.
pub open spec fn named_pieces(ps: Seq<Seq<char>>) -> Seq<Seq<char>> {
    ps.filter(|p: Seq<char>| is_named(p))
}

/// A non-empty piece other than `"."`.
pub open spec fn is_named(p: Seq<char>) -> bool {
    p.len() > 0 && p != seq!['.']
}

/// `Path::file_name`: the last component when it is a normal one.
pub open spec fn file_name(path: Seq<char>, windows: bool) -> Option<Seq<char>> {
    let q = named_pieces(path_pieces(path, windows));
    if q.len() > 0 && q.last() != seq!['.', '.'] {
        Some(q.last())
    } else {
        None
    }
}

fn is_separator(c: char, windows: bool, verbatim: bool) -> (r: bool)
    ensures
        r == is_sep(c, windows, verbatim),
{
    if windows && verbatim {
        c == '\\'
    } else {
        c == '/' || (windows && c == '\\')
    }
}

/// Where the piece that begins at `from` ends.
fn find_piece_end(s: &[char], from: usize, backslash_only: bool) -> (r: usize)
    requires
        from <= s@.len(),
    ensures
        r == piece_end(s@, from as int, backslash_only),
        from <= r <= s@.len(),
{
    let mut i = from;
    while i < s.len() && !(s[i] == '\\' || (!backslash_only && s[i] == '/'))
        invariant
            from <= i <= s@.len(),
            piece_end(s@, from as int, backslash_only) == piece_end(s@, i as int, backslash_only),
        decreases s@.len() - i,
    {
        i = i + 1;
    }
    i
}

/// The length of the Windows prefix of `s`.
fn prefix_length(s: &[char], windows: bool) -> (r: usize)
    ensures
        r == prefix_len(s@, windows),
        r <= s@.len(),
{
    if !windows {
        return 0;
    }
    let n = s.len();
    let double = n >= 2 && s[0] == '\\' && s[1] == '\\';
    let verbatim = double && n >= 4 && s[2] == '?' && s[3] == '\\';
    if verbatim && n >= 8 && s[4] == 'U' && s[5] == 'N' && s[6] == 'C' && s[7] == '\\' {
        let e = find_piece_end(s, 8, true);
        if e < n {
            return find_piece_end(s, e + 1, true);
        }
        return e;
    }
    if verbatim && n >= 6 && s[5] == ':' && (('A' <= s[4] && s[4] <= 'Z') || ('a' <= s[4] && s[4]
        <= 'z')) && (n == 6 || s[6] == '\\') {
        assert(has_drive_prefix(s@.skip(4)));
        return 6;
    }
    assert(!starts_verbatim_disk(s@) || !verbatim) by {
        if verbatim && starts_verbatim_disk(s@) {
            assert(s@.skip(4)[0] == s@[4] && s@.skip(4)[1] == s@[5]);
        }
    }
    if verbatim {
        return find_piece_end(s, 4, true);
    }
    if double && n >= 4 && s[2] == '.' && s[3] == '\\' {
        return find_piece_end(s, 4, false);
    }
    if double {
        let e = find_piece_end(s, 2, false);
        if e > 2 && e < n {
            let e2 = find_piece_end(s, e + 1, false);
            if e2 > e + 1 {
                return e2;
            }
        }
        return 0;
    }
    if n >= 2 && s[1] == ':' && (('A' <= s[0] && s[0] <= 'Z') || ('a' <= s[0] && s[0] <= 'z')) {
        return 2;
    }
    0
}

/// The pieces of the path `s` between its separators.
fn split_path(s: &[char], windows: bool) -> (r: Vec<Vec<char>>)
    ensures
        views(r@) == path_pieces(s@, windows),
{
    let start = prefix_length(s, windows);
    let verbatim = windows && s.len() >= 4 && s[0] == '\\' && s[1] == '\\' && s[2] == '?' && s[3]
        == '\\';
    assert(verbatim == is_verbatim(s@, windows));
    let ghost body = path_body(s@, windows);
    assert(body =~= s@.skip(start as int));
    let mut out: Vec<Vec<char>> = Vec::new();
    let mut cur: Vec<char> = Vec::new();
    let n = s.len();
    let mut i = start;
    assert(s@.skip(i as int) =~= body);
    while i < n
        invariant
            start <= i <= n == s@.len(),
            body == path_body(s@, windows),
            views(out@) + pieces_from(s@.skip(i as int), windows, verbatim, cur@) == pieces_from(
                body,
                windows,
                verbatim,
                seq![],
            ),
        decreases n - i,
    {
        let ghost rest = s@.skip(i as int);
        assert(rest.drop_first() =~= s@.skip(i + 1));
        if is_separator(s[i], windows, verbatim) {
            let ghost old_out = out@;
            let w = cur;
            out.push(w);
            proof {
                crate::text::lemma_views_push(old_out, w);
                assert(views(out@) + pieces_from(s@.skip(i + 1), windows, verbatim, seq![])
                    =~= views(old_out) + (seq![w@] + pieces_from(
                    s@.skip(i + 1),
                    windows,
                    verbatim,
                    seq![],
                )));
            }
            cur = Vec::new();
            assert(cur@ =~= seq![]);
        } else {
            cur.push(s[i]);
        }
        i = i + 1;
    }
    let ghost old_out = out@;
    let w = cur;
    out.push(w);
    proof {
        crate::text::lemma_views_push(old_out, w);
        assert(views(out@) =~= views(old_out) + pieces_from(s@.skip(n as int), windows, verbatim, w@));
    }
    out
}

fn is_normal_piece(p: &[char]) -> (r: bool)
    ensures
        r == is_normal(p@),
{
    if p.len() == 0 {
        return false;
    }
    if p.len() == 1 && p[0] == '.' {
        assert(p@ =~= seq!['.']);
        return false;
    }
    if p.len() == 2 && p[0] == '.' && p[1] == '.' {
        assert(p@ =~= seq!['.', '.']);
        return false;
    }
    assert(p@ != seq!['.']) by {
        if p@ == seq!['.'] {
            assert(p@.len() == 1);
        }
    }
    assert(p@ != seq!['.', '.']) by {
        if p@ == seq!['.', '.'] {
            assert(p@.len() == 2 && p@[0] == '.' && p@[1] == '.');
        }
    }
    true
}

proof fn lemma_pieces_word(t: Seq<char>, rest: Seq<char>, windows: bool, verbatim: bool, cur: Seq<
    char,
>)
    requires
        forall|i: int| 0 <= i < t.len() ==> !is_sep(#[trigger] t[i], windows, verbatim),
    ensures
        pieces_from(t + rest, windows, verbatim, cur) == pieces_from(rest, windows, verbatim, cur + t),
    decreases t.len(),
{
    if t.len() == 0 {
        assert(t + rest =~= rest);
        assert(cur + t =~= cur);
    } else {
        assert((t + rest).drop_first() =~= t.drop_first() + rest);
        assert((t + rest)[0] == t[0]);
        assert(cur.push(t[0]) + t.drop_first() =~= cur + t);
        lemma_pieces_word(t.drop_first(), rest, windows, verbatim, cur.push(t[0]));
    }
}

proof fn lemma_pieces_concat(
    x: Seq<char>,
    c: char,
    y: Seq<char>,
    windows: bool,
    verbatim: bool,
    cur: Seq<char>,
)
    requires
        is_sep(c, windows, verbatim),
    ensures
        pieces_from(x + seq![c] + y, windows, verbatim, cur) == pieces_from(x, windows, verbatim, cur)
            + pieces_from(y, windows, verbatim, seq![]),
    decreases x.len(),
{
    if x.len() == 0 {
        assert(x + seq![c] + y =~= seq![c] + y);
        assert((seq![c] + y).drop_first() =~= y);
    } else {
        assert((x + seq![c] + y).drop_first() =~= x.drop_first() + seq![c] + y);
        assert((x + seq![c] + y)[0] == x[0]);
        if is_sep(x[0], windows, verbatim) {
            lemma_pieces_concat(x.drop_first(), c, y, windows, verbatim, seq![]);
        } else {
            lemma_pieces_concat(x.drop_first(), c, y, windows, verbatim, cur.push(x[0]));
        }
    }
}

/// Off Windows, a directory name that is one of the patterns is skipped
/// wherever it stands in the path, not only at its end.
pub proof fn component_anywhere_is_ignored(
    a: Seq<char>,
    name: Seq<char>,
    b: Seq<char>,
    patterns: Seq<Seq<char>>,
)
    requires
        is_normal(name),
        forall|i: int| 0 <= i < name.len() ==> #[trigger] name[i] != '/',
        patterns.contains(name),
    ensures
        ignored(a + seq!['/'] + name + seq!['/'] + b, patterns, false),
{
    let path = a + seq!['/'] + name + seq!['/'] + b;
    assert(path =~= a + seq!['/'] + (name + seq!['/'] + b));
    assert(path_body(path, false) == path);
    lemma_pieces_concat(a, '/', name + seq!['/'] + b, false, false, seq![]);
    lemma_pieces_concat(name, '/', b, false, false, seq![]);
    lemma_pieces_word(name, seq![], false, false, seq![]);
    assert(name + Seq::<char>::empty() =~= name);
    assert(Seq::<char>::empty() + name =~= name);
    let k = pieces_from(a, false, false, seq![]).len() as int;
    let ps = path_pieces(path, false);
    assert(ps == pieces_from(a, false, false, seq![]) + (pieces_from(name, false, false, seq![])
        + pieces_from(b, false, false, seq![])));
    assert(pieces_from(name, false, false, seq![]) == seq![name]);
    assert(ps[k] == name);
    assert(has_component(path, name, false));
    let j = choose|j: int| 0 <= j < patterns.len() && patterns[j] == name;
    assert(has_component(path, patterns[j], false));
}

/// Off Windows, the one-name path `/name` is skipped by a pattern exactly when
/// the name is a normal one equal to the pattern: a pattern that is only part
/// of the name, or differs from it in case, does not skip it.
pub proof fn single_name_is_ignored_only_by_itself(name: Seq<char>, pattern: Seq<char>)
    requires
        forall|i: int| 0 <= i < name.len() ==> #[trigger] name[i] != '/',
    ensures
        ignored(seq!['/'] + name, seq![pattern], false) <==> (is_normal(name) && name == pattern),
{
    let path = seq!['/'] + name;
    assert(path =~= Seq::<char>::empty() + seq!['/'] + name);
    assert(path_body(path, false) == path);
    lemma_pieces_concat(Seq::<char>::empty(), '/', name, false, false, seq![]);
    lemma_pieces_word(name, seq![], false, false, seq![]);
    assert(name + Seq::<char>::empty() =~= name);
    assert(Seq::<char>::empty() + name =~= name);
    let ps = path_pieces(path, false);
    assert(ps =~= seq![Seq::<char>::empty(), name]);
    if ignored(path, seq![pattern], false) {
        let j = choose|j: int| 0 <= j < 1 && has_component(path, #[trigger] seq![pattern][j], false);
        assert(j == 0);
        let i = choose|i: int|
            0 <= i < ps.len() && is_normal(#[trigger] ps[i]) && ps[i] == pattern;
        assert(i == 1);
    }
    if is_normal(name) && name == pattern {
        assert(is_normal(ps[1]) && ps[1] == pattern);
        assert(has_component(path, seq![pattern][0], false));
    }
}

/// Off Windows, the file name of `dir/name` is `name` whenever `name` is a
/// normal name without a `'/'`, whatever the directory part.
pub proof fn last_name_is_the_file_name(dir: Seq<char>, name: Seq<char>)
    requires
        is_normal(name),
        forall|i: int| 0 <= i < name.len() ==> #[trigger] name[i] != '/',
    ensures
        file_name(dir + seq!['/'] + name, false) == Some(name),
{
    let path = dir + seq!['/'] + name;
    assert(path_body(path, false) == path);
    lemma_pieces_concat(dir, '/', name, false, false, seq![]);
    lemma_pieces_word(name, seq![], false, false, seq![]);
    assert(name + Seq::<char>::empty() =~= name);
    assert(Seq::<char>::empty() + name =~= name);
    let front = pieces_from(dir, false, false, seq![]);
    assert(path_pieces(path, false) =~= front.push(name));
    front.lemma_filter_push(name, |p: Seq<char>| is_named(p));
    assert(is_named(name));
}

/// Whether a walked path is skipped because one of its normal components
/// equals one of `patterns`.
pub fn should_ignore(path: &str, patterns: &[String], windows: bool) -> (r: bool)
    ensures
        r == ignored(path@, patterns@.map_values(|p: String| p@), windows),
{
    let ghost pats = patterns@.map_values(|p: String| p@);
    if patterns.len() == 0 {
        return false;
    }
    let cs = to_chars(path);
    let ps = split_path(cs.as_slice(), windows);
    let ghost pieces = path_pieces(path@, windows);
    let mut pat_chars: Vec<Vec<char>> = Vec::new();
    for j in 0..patterns.len()
        invariant
            pat_chars@.len() == j,
            forall|k: int| 0 <= k < j ==> #[trigger] pat_chars@[k]@ == patterns@[k]@,
    {
        pat_chars.push(to_chars(patterns[j].as_str()));
    }
    for i in 0..ps.len()
        invariant
            views(ps@) == pieces,
            pieces == path_pieces(path@, windows),
            pats == patterns@.map_values(|p: String| p@),
            pat_chars@.len() == patterns@.len(),
            forall|k: int| 0 <= k < pat_chars@.len() ==> #[trigger] pat_chars@[k]@ == patterns@[k]@,
            forall|a: int, j: int|
                0 <= a < i && 0 <= j < pats.len() && is_normal(#[trigger] pieces[a]) ==> pieces[a]
                    != #[trigger] pats[j],
    {
        assert(pieces[i as int] == ps@[i as int]@);
        if is_normal_piece(ps[i].as_slice()) {
            for j in 0..pat_chars.len()
                invariant
                    views(ps@) == pieces,
                    pieces == path_pieces(path@, windows),
                    pats == patterns@.map_values(|p: String| p@),
                    pat_chars@.len() == patterns@.len(),
                    forall|k: int|
                        0 <= k < pat_chars@.len() ==> #[trigger] pat_chars@[k]@ == patterns@[k]@,
                    is_normal(pieces[i as int]),
                    pieces[i as int] == ps@[i as int]@,
                    i < ps@.len(),
                    forall|k: int| 0 <= k < j ==> pieces[i as int] != #[trigger] pats[k],
            {
                assert(pats[j as int] == pat_chars@[j as int]@);
                if chars_eq(ps[i].as_slice(), pat_chars[j].as_slice()) {
                    assert(has_component(path@, pats[j as int], windows));
                    return true;
                }
            }
        }
    }
    assert forall|j: int| 0 <= j < pats.len() implies !has_component(
        path@,
        #[trigger] pats[j],
        windows,
    ) by {
        assert forall|a: int| 0 <= a < pieces.len() && is_normal(pieces[a]) implies pieces[a]
            != pats[j] by {}
    }
    false
}

// ---------------------------------------------------------------------------
// Matching names
// ---------------------------------------------------------------------------

/// A found name matches the requested one: exactly, or ignoring ASCII case on
/// Windows.
pub open spec fn name_matches(candidate: Seq<char>, requested: Seq<char>, windows: bool) -> bool {
    if windows {
        eq_ignore_ascii_case(candidate, requested)
    } else {
        candidate == requested
    }
}

/// Off Windows a found name matches the requested one exactly when the two are
/// the same text: a longer name that contains the request does not match.
pub proof fn names_match_exactly_off_windows(candidate: Seq<char>, requested: Seq<char>)
    ensures
        name_matches(candidate, requested, false) <==> candidate == requested,
        candidate.len() != requested.len() ==> !name_matches(candidate, requested, false),
{
}

/// On Windows a found name matches when it has the same length as the request
/// and agrees with it letter by letter up to ASCII case; the same name always
/// matches.
pub proof fn names_match_up_to_ascii_case_on_windows(candidate: Seq<char>, requested: Seq<char>)
    ensures
        name_matches(candidate, requested, true) <==> (candidate.len() == requested.len() && forall|
            i: int,
        | 0 <= i < candidate.len() ==> ascii_lower(#[trigger] candidate[i]) == ascii_lower(
            requested[i],
        )),
        name_matches(candidate, candidate, true),
        candidate.len() != requested.len() ==> !name_matches(candidate, requested, true),
{
}

/// Whether the found name `candidate` matches the requested `requested`.
pub fn file_name_matches(candidate: &str, requested: &str, windows: bool) -> (r: bool)
    ensures
        r == name_matches(candidate@, requested@, windows),
        // off Windows only the very same name matches
        !windows ==> (r <==> candidate@ == requested@),
        // on Windows the names agree letter by letter up to ASCII case
        windows ==> (r <==> candidate@.len() == requested@.len() && forall|i: int|
            0 <= i < candidate@.len() ==> ascii_lower(#[trigger] candidate@[i]) == ascii_lower(
                requested@[i],
            )),
        candidate@ == requested@ ==> r,
{
    proof {
        names_match_exactly_off_windows(candidate@, requested@);
        names_match_up_to_ascii_case_on_windows(candidate@, requested@);
    }
    let a = to_chars(candidate);
    let b = to_chars(requested);
    if windows {
        chars_eq_ignore_ascii_case(a.as_slice(), b.as_slice())
    } else {
        chars_eq(a.as_slice(), b.as_slice())
    }
}

/// The final component of a path, when it is a name.
pub fn path_file_name(path: &str, windows: bool) -> (r: Option<String>)
    ensures
        match r {
            Some(n) => file_name(path@, windows) == Some(n@),
            None => file_name(path@, windows) is None,
        },
{
    let cs = to_chars(path);
    let ps = split_path(cs.as_slice(), windows);
    let ghost pieces = views(ps@);
    let mut last: Option<usize> = None;
    for i in 0..ps.len()
        invariant
            pieces == views(ps@),
            pieces == path_pieces(path@, windows),
            match last {
                Some(k) => k < i && named_pieces(pieces.take(i as int)).len() > 0
                    && named_pieces(pieces.take(i as int)).last() == pieces[k as int],
                None => named_pieces(pieces.take(i as int)).len() == 0,
            },
    {
        reveal_with_fuel(Seq::filter, 1);
        assert(pieces.take(i + 1).drop_last() =~= pieces.take(i as int));
        assert(pieces[i as int] == ps@[i as int]@);
        let p = ps[i].as_slice();
        let named = p.len() > 0 && !(p.len() == 1 && p[0] == '.');
        proof {
            if p@.len() == 1 && p@[0] == '.' {
                assert(p@ =~= seq!['.']);
            }
            if p@ == seq!['.'] {
                assert(p@.len() == 1 && p@[0] == '.');
            }
            assert(named == (p@.len() > 0 && p@ != seq!['.']));
            assert(is_named(pieces[i as int]) == (p@.len() > 0 && p@ != seq!['.']));
        }
        if named {
            last = Some(i);
        }
    }
    assert(pieces.take(ps@.len() as int) =~= pieces);
    match last {
        None => None,
        Some(k) => {
            let p = ps[k].as_slice();
            if p.len() == 2 && p[0] == '.' && p[1] == '.' {
                assert(p@ =~= seq!['.', '.']);
                None
            } else {
                assert(p@ != seq!['.', '.']) by {
                    if p@ == seq!['.', '.'] {
                        assert(p@.len() == 2 && p@[0] == '.' && p@[1] == '.');
                    }
                }
                Some(from_chars(p))
            }
        },
    }
}

/// A walked entry is reported: it is not ignored, it is a file, and its file
/// name matches the requested one.
pub open spec fn reported(
    path: Seq<char>,
    is_file: bool,
    requested: Seq<char>,
    patterns: Seq<Seq<char>>,
    windows: bool,
) -> bool {
    &&& !ignored(path, patterns, windows)
    &&& is_file
    &&& file_name(path, windows) matches Some(n) && name_matches(n, requested, windows)
}

/// Only files are reported, never one under an ignored directory; off Windows a
/// file is reported exactly when nothing ignores it and its name is the
/// requested one.
pub proof fn reported_entries_are_named_files(
    path: Seq<char>,
    is_file: bool,
    requested: Seq<char>,
    patterns: Seq<Seq<char>>,
)
    ensures
        forall|windows: bool|
            #[trigger] reported(path, is_file, requested, patterns, windows) ==> is_file && !ignored(
                path,
                patterns,
                windows,
            ),
        reported(path, is_file, requested, patterns, false) <==> (is_file && !ignored(
            path,
            patterns,
            false,
        ) && file_name(path, false) == Some(requested)),
{
}

/// Whether the walked entry `path` (a file when `is_file`) is reported as a
/// match for `requested`.
pub fn entry_matches(
    path: &str,
    is_file: bool,
    requested: &str,
    patterns: &[String],
    windows: bool,
) -> (r: bool)
    ensures
        r == reported(path@, is_file, requested@, patterns@.map_values(|p: String| p@), windows),
        r ==> is_file,
        !windows ==> (r <==> is_file && !ignored(
            path@,
            patterns@.map_values(|p: String| p@),
            false,
        ) && file_name(path@, false) == Some(requested@)),
{
    proof {
        reported_entries_are_named_files(
            path@,
            is_file,
            requested@,
            patterns@.map_values(|p: String| p@),
        );
    }
    if should_ignore(path, patterns, windows) {
        return false;
    }
    if !is_file {
        return false;
    }
    match path_file_name(path, windows) {
        None => false,
        Some(name) => file_name_matches(name.as_str(), requested, windows),
    }
}


/// The paths of the walked entries `(path, is_file)` that are reported, in
/// walk order.
pub open spec fn matches_of(
    entries: Seq<(Seq<char>, bool)>,
    requested: Seq<char>,
    patterns: Seq<Seq<char>>,
    windows: bool,
) -> Seq<Seq<char>>
    decreases entries.len(),
{
    if entries.len() == 0 {
        seq![]
    } else {
        let e = entries.last();
        let rest = matches_of(entries.drop_last(), requested, patterns, windows);
        if reported(e.0, e.1, requested, patterns, windows) {
            rest.push(e.0)
        } else {
            rest
        }
    }
}

/// Recording the entries of two stretches of a walk one after the other
/// reports the matches of the first stretch, then those of the second.
pub proof fn matches_of_concat(
    a: Seq<(Seq<char>, bool)>,
    b: Seq<(Seq<char>, bool)>,
    requested: Seq<char>,
    patterns: Seq<Seq<char>>,
    windows: bool,
)
    ensures
        matches_of(a + b, requested, patterns, windows) == matches_of(a, requested, patterns, windows)
            + matches_of(b, requested, patterns, windows),
    decreases b.len(),
{
    if b.len() == 0 {
        assert(a + b =~= a);
    } else {
        assert((a + b).drop_last() =~= a + b.drop_last());
        assert((a + b).last() == b.last());
        matches_of_concat(a, b.drop_last(), requested, patterns, windows);
    }
}

/// Records one walked entry: its path is appended to `matches` when it is
/// reported, and `matches` is otherwise left as it was.
pub fn record_entry(
    matches: &mut Vec<String>,
    path: &str,
    is_file: bool,
    requested: &str,
    patterns: &[String],
    windows: bool,
) -> (r: bool)
    ensures
        r == reported(path@, is_file, requested@, patterns@.map_values(|p: String| p@), windows),
        final(matches)@.map_values(|p: String| p@) == old(matches)@.map_values(|p: String| p@)
            + matches_of(
            seq![(path@, is_file)],
            requested@,
            patterns@.map_values(|p: String| p@),
            windows,
        ),
{
    let ghost pats = patterns@.map_values(|p: String| p@);
    let ghost one = seq![(path@, is_file)];
    assert(one.drop_last() =~= Seq::<(Seq<char>, bool)>::empty());
    let r = entry_matches(path, is_file, requested, patterns, windows);
    assert(matches_of(one, requested@, pats, windows) == (if r {
        seq![path@]
    } else {
        Seq::<Seq<char>>::empty()
    })) by {
        assert(matches_of(one.drop_last(), requested@, pats, windows) =~= Seq::<Seq<char>>::empty());
    }
    let ghost before = matches@.map_values(|p: String| p@);
    if r {
        matches.push(String::from_str(path));
        assert(matches@.map_values(|p: String| p@) =~= before + seq![path@]);
    } else {
        assert(before + Seq::<Seq<char>>::empty() =~= before);
    }
    r
}

// ---------------------------------------------------------------------------
// The search request
// ---------------------------------------------------------------------------

/// The texts of a list of strings.
pub open spec fn string_views(v: Seq<String>) -> Seq<Seq<char>> {
    v.map_values(|p: String| p@)
}

/// The directory names skipped unless the caller says otherwise.
pub open spec fn default_patterns() -> Seq<Seq<char>> {
    seq!["node_modules"@, ".git"@, "target"@, "__pycache__"@, ".svn"@, ".hg"@]
}

/// `node_modules`, `.git`, `target`, `__pycache__`, `.svn`, `.hg`.
pub fn default_ignore_patterns() -> (r: Vec<String>)
    ensures
        string_views(r@) == default_patterns(),
{
    let mut r: Vec<String> = Vec::new();
    r.push(String::from_str("node_modules"));
    r.push(String::from_str(".git"));
    r.push(String::from_str("target"));
    r.push(String::from_str("__pycache__"));
    r.push(String::from_str(".svn"));
    r.push(String::from_str(".hg"));
    assert(string_views(r@) =~= default_patterns());
    r
}

/// What to search for: a trimmed, non-empty file name and the directory names
/// to skip.
pub struct SearchPlan {
    pub file_name: String,
    pub ignore_patterns: Vec<String>,
}

/// Why a search was refused.
#[derive(Debug, PartialEq, Eq, Structural)]
pub enum WhereisError {
    /// The file name is empty or only whitespace.
    MissingFileName,
}

impl WhereisError {
    /// The message the user sees.
    pub fn message(&self) -> (r: String)
        ensures
            r@ == "Please provide a file name to search for."@,
    {
        String::from_str("Please provide a file name to search for.")
    }
}

/// The ignore patterns of a search: none with `no_ignore`, else the caller's,
/// else the defaults.
pub open spec fn chosen_patterns(custom: Option<Seq<Seq<char>>>, no_ignore: bool) -> Seq<
    Seq<char>,
> {
    if no_ignore {
        seq![]
    } else {
        match custom {
            Some(c) => c,
            None => default_patterns(),
        }
    }
}

/// The search that `wux whereis <file_name>` makes: the default patterns apply.
pub fn run(file_name: &str) -> (r: Result<SearchPlan, WhereisError>)
    ensures
        trim(file_name@).len() == 0 <==> r is Err,
        r matches Ok(p) ==> p.file_name@ == trim(file_name@) && string_views(p.ignore_patterns@)
            == default_patterns(),
{
    run_with_ignores(file_name, None, false)
}

/// The search for `file_name` with the given ignore choice; refused when the
/// trimmed name is empty.
pub fn run_with_ignores(file_name: &str, custom_ignores: Option<Vec<String>>, no_ignore: bool) -> (r:
    Result<SearchPlan, WhereisError>)
    ensures
        trim(file_name@).len() == 0 <==> r is Err,
        r matches Err(e) ==> e == WhereisError::MissingFileName,
        r matches Ok(p) ==> p.file_name@ == trim(file_name@) && string_views(p.ignore_patterns@)
            == chosen_patterns(
            match custom_ignores {
                Some(c) => Some(string_views(c@)),
                None => None,
            },
            no_ignore,
        ),
{
    let cs = to_chars(file_name);
    let t = trimmed(cs.as_slice());
    if t.len() == 0 {
        return Err(WhereisError::MissingFileName);
    }
    let ignore_patterns: Vec<String> = if no_ignore {
        let v: Vec<String> = Vec::new();
        assert(string_views(v@) =~= seq![]);
        v
    } else {
        match custom_ignores {
            Some(custom) => custom,
            None => default_ignore_patterns(),
        }
    };
    Ok(SearchPlan { file_name: from_chars(t.as_slice()), ignore_patterns })
}

/// The roots `A:\` to `Z:\` that a Windows search may start from.
pub open spec fn drive_root(i: int) -> Seq<char> {
    seq![((65 + i) as u8) as char, ':', '\\']
}

/// The candidate roots are `X:\` for the capital letters `X`, each once, in
/// alphabetical order from `A` to `Z`.
pub proof fn drive_roots_are_the_capital_letters(i: int, j: int)
    requires
        0 <= i < 26,
        0 <= j < 26,
    ensures
        drive_root(i).len() == 3 && drive_root(i)[1] == ':' && drive_root(i)[2] == '\\',
        'A' <= drive_root(i)[0] <= 'Z',
        i < j ==> drive_root(i)[0] < drive_root(j)[0],
        i == 0 ==> drive_root(i)[0] == 'A',
        i == 25 ==> drive_root(i)[0] == 'Z',
{
}

/// The candidate drive roots `A:\` … `Z:\`, in order.
pub fn drive_roots() -> (r: Vec<String>)
    ensures
        r@.len() == 26,
        forall|i: int| 0 <= i < 26 ==> #[trigger] r@[i]@ == drive_root(i),
{
    let mut r: Vec<String> = Vec::new();
    for i in 0..26u8
        invariant
            r@.len() == i,
            forall|k: int| 0 <= k < i ==> #[trigger] r@[k]@ == drive_root(k),
    {
        let mut v: Vec<char> = Vec::new();
        v.push((65 + i) as char);
        v.push(':');
        v.push('\\');
        assert(v@ =~= drive_root(i as int));
        r.push(from_chars(v.as_slice()));
    }
    r
}

/// Where a search starts: `/` off Windows; on Windows the drive roots that
/// exist (`existing`), or `C:\` when none does.
pub open spec fn roots_for(windows: bool, existing: Seq<Seq<char>>) -> Seq<Seq<char>> {
    if !windows {
        seq!["/"@]
    } else if existing.len() == 0 {
        seq!["C:\\"@]
    } else {
        existing
    }
}

/// The roots to search from, given the drive roots found to exist.
pub fn search_roots(windows: bool, existing: Vec<String>) -> (r: Vec<String>)
    ensures
        string_views(r@) == roots_for(windows, string_views(existing@)),
{
    if !windows {
        let mut r: Vec<String> = Vec::new();
        r.push(String::from_str("/"));
        assert(string_views(r@) =~= roots_for(windows, string_views(existing@)));
        return r;
    }
    if existing.len() == 0 {
        let mut r: Vec<String> = Vec::new();
        r.push(String::from_str("C:\\"));
        assert(string_views(r@) =~= roots_for(windows, string_views(existing@)));
        return r;
    }
    existing
}

} // verus!
