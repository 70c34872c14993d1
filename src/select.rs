//! Choosing the latest release branch among a listing of branch names.
//!
//! A release branch is a name that the pattern [`BRANCH_PATTERN`] matches.
//! Among those, the latest is the greatest under plain lexicographic order of
//! code points: `zfs-2.2.2-cachyos` is later than `zfs-2.2.10-cachyos`.
use vstd::prelude::*;

verus! {

/// Anchored pattern of a release branch name.
pub const BRANCH_PATTERN: &'static str = "^zfs-\\d+\\.\\d+\\.\\d+-cachyos$";

/// Why no branch could be selected.
#[derive(Debug, Clone, Copy, PartialEq, Eq, Structural)]
pub enum SelectionError {
    /// No name of the listing matches the release pattern.
    NoMatch,
    /// The release pattern could not be compiled.
    InvalidPattern,
}

/// Whether `regex::Regex::new` accepts `pattern`.
pub uninterp spec fn regex_compiles(pattern: Seq<char>) -> bool;

/// Whether the regex compiled from `pattern` has a match in `text`
/// (`regex::Regex::is_match`).
pub uninterp spec fn regex_matches(pattern: Seq<char>, text: Seq<char>) -> bool;

#[verifier::external_type_specification]
#[verifier::external_body]
pub struct ExRegexError(regex::Error);

/// Relies on `regex::Regex::new`, which fails exactly on patterns it cannot
/// compile, and `regex::Regex::is_match`, whether the haystack holds a match.
#[verifier::external_body]
fn regex_is_match(pattern: &str, text: &str) -> (r: Result<bool, regex::Error>)
    ensures
        r is Ok <==> regex_compiles(pattern@),
        r matches Ok(b) ==> b == regex_matches(pattern@, text@),
{
    match regex::Regex::new(pattern) {
        Ok(re) => Ok(re.is_match(text)),
        Err(e) => Err(e),
    }
}

/// Strict lexicographic order on code points: `a` comes before `b`.
pub open spec fn lex_lt(a: Seq<char>, b: Seq<char>) -> bool
    decreases a.len(),
{
    if a.len() == 0 {
        b.len() > 0
    } else if b.len() == 0 {
        false
    } else if a[0] != b[0] {
        (a[0] as int) < (b[0] as int)
    } else {
        lex_lt(a.drop_first(), b.drop_first())
    }
}

/// Relies on `PartialOrd for str`: strings are ordered lexicographically,
/// code point by code point.
#[verifier::external_body]
fn str_gt(a: &str, b: &str) -> (r: bool)
    ensures
        r == lex_lt(b@, a@),
{
    a > b
}

/// The lexicographic order is transitive.
pub proof fn lemma_lex_lt_transitive(a: Seq<char>, b: Seq<char>, c: Seq<char>)
    requires
        lex_lt(a, b),
        lex_lt(b, c),
    ensures
        lex_lt(a, c),
    decreases a.len(),
{
    if a.len() > 0 && b.len() > 0 && c.len() > 0 && a[0] == b[0] && b[0] == c[0] {
        lemma_lex_lt_transitive(a.drop_first(), b.drop_first(), c.drop_first());
    }
}

/// The lexicographic order is irreflexive.
pub proof fn lemma_lex_lt_irreflexive(a: Seq<char>)
    ensures
        !lex_lt(a, a),
    decreases a.len(),
{
    if a.len() > 0 {
        lemma_lex_lt_irreflexive(a.drop_first());
    }
}

/// Any two distinct strings are ordered one way or the other.
pub proof fn lemma_lex_lt_total(a: Seq<char>, b: Seq<char>)
    requires
        a != b,
    ensures
        lex_lt(a, b) || lex_lt(b, a),
    decreases a.len(),
{
    if a.len() > 0 && b.len() > 0 && a[0] == b[0] {
        if a.drop_first() == b.drop_first() {
            assert(a =~= seq![a[0]] + a.drop_first());
            assert(b =~= seq![b[0]] + b.drop_first());
        }
        lemma_lex_lt_total(a.drop_first(), b.drop_first());
    } else if a.len() > 0 && b.len() > 0 {
        assert((a[0] as int) != (b[0] as int));
    } else if a.len() == 0 && b.len() == 0 {
        assert(a =~= b);
    }
}

/// The views of a sequence of strings.
pub open spec fn names_view(names: Seq<String>) -> Seq<Seq<char>> {
    names.map_values(|s: String| s@)
}

/// `s` is one of `names` and no name comes after it.
pub open spec fn is_latest(s: Seq<char>, names: Seq<Seq<char>>) -> bool {
    &&& names.contains(s)
    &&& forall|i: int| 0 <= i < names.len() ==> !lex_lt(s, #[trigger] names[i])
}

/// Whether `name` is a release branch name.
pub open spec fn is_release(name: Seq<char>) -> bool {
    regex_matches(BRANCH_PATTERN@, name)
}

/// The release branch names among `names`, in their order.
pub open spec fn release_names(names: Seq<Seq<char>>) -> Seq<Seq<char>> {
    names.filter(|n: Seq<char>| is_release(n))
}

/// The latest of `candidates` under lexicographic order.
///
/// Fails with [`SelectionError::NoMatch`] exactly when there is no candidate.
pub fn select_latest(candidates: &[String]) -> (r: Result<String, SelectionError>)
    ensures
        r is Err <==> candidates@.len() == 0,
        r matches Err(e) ==> e == SelectionError::NoMatch,
        r matches Ok(s) ==> is_latest(s@, names_view(candidates@)),
{
    if candidates.len() == 0 {
        return Err(SelectionError::NoMatch);
    }
    let mut best: usize = 0;
    let mut i: usize = 1;
    proof {
        lemma_lex_lt_irreflexive(candidates@[0]@);
    }
    while i < candidates.len()
        invariant
            1 <= i <= candidates@.len(),
            best < i,
            forall|j: int|
                0 <= j < i ==> !lex_lt(candidates@[best as int]@, #[trigger] candidates@[j]@),
        decreases candidates@.len() - i,
    {
        if str_gt(candidates[i].as_str(), candidates[best].as_str()) {
            proof {
                assert forall|j: int| 0 <= j < i implies !lex_lt(
                    candidates@[i as int]@,
                    #[trigger] candidates@[j]@,
                ) by {
                    if lex_lt(candidates@[i as int]@, candidates@[j]@) {
                        lemma_lex_lt_transitive(
                            candidates@[best as int]@,
                            candidates@[i as int]@,
                            candidates@[j]@,
                        );
                    }
                }
                lemma_lex_lt_irreflexive(candidates@[i as int]@);
            }
            best = i;
        }
        i = i + 1;
    }
    let latest = candidates[best].clone();
    proof {
        let v = names_view(candidates@);
        assert(v[best as int] == latest@);
        assert forall|j: int| 0 <= j < v.len() implies !lex_lt(latest@, #[trigger] v[j]) by {
            assert(v[j] == candidates@[j]@);
        }
    }
    Ok(latest)
}

/// The release branch names of `branches`, in their order.
///
/// Fails with [`SelectionError::InvalidPattern`] exactly when there is a name
/// to test and the release pattern does not compile.
pub fn release_branches(branches: &[String]) -> (r: Result<Vec<String>, SelectionError>)
    ensures
        r is Err <==> branches@.len() > 0 && !regex_compiles(BRANCH_PATTERN@),
        r matches Err(e) ==> e == SelectionError::InvalidPattern,
        r matches Ok(v) ==> names_view(v@) == release_names(names_view(branches@)),
{
    let mut found: Vec<String> = Vec::new();
    let mut i: usize = 0;
    while i < branches.len()
        invariant
            0 <= i <= branches@.len(),
            i > 0 ==> regex_compiles(BRANCH_PATTERN@),
            names_view(found@) == release_names(names_view(branches@).take(i as int)),
        decreases branches@.len() - i,
    {
        let matched = regex_is_match(BRANCH_PATTERN, branches[i].as_str());
        let ghost all = names_view(branches@);
        let ghost before = found@;
        match matched {
            Err(_) => {
                return Err(SelectionError::InvalidPattern);
            },
            Ok(b) => {
                if b {
                    found.push(branches[i].clone());
                }
                proof {
                    let pred = |n: Seq<char>| is_release(n);
                    let next = all.take(i + 1);
                    reveal(Seq::filter);
                    assert(next.drop_last() =~= all.take(i as int));
                    assert(next.last() == branches@[i as int]@);
                    if b {
                        assert(names_view(found@) =~= names_view(before).push(branches@[i as int]@));
                    } else {
                        assert(names_view(found@) =~= names_view(before));
                    }
                    assert(next.filter(pred) == names_view(found@));
                }
            },
        }
        i = i + 1;
    }
    proof {
        assert(names_view(branches@).take(i as int) =~= names_view(branches@));
    }
    Ok(found)
}

/// The latest release branch of `branches`: the greatest under lexicographic
/// order among the names that the release pattern matches.
///
/// Fails with [`SelectionError::NoMatch`] exactly when no name matches, and
/// with [`SelectionError::InvalidPattern`] when the pattern does not compile.
pub fn find_latest_cachyos_branch(branches: &[String]) -> (r: Result<String, SelectionError>)
    ensures
        r matches Err(SelectionError::InvalidPattern) <==> branches@.len() > 0
            && !regex_compiles(BRANCH_PATTERN@),
        r matches Err(SelectionError::NoMatch) <==> (branches@.len() == 0 || regex_compiles(
            BRANCH_PATTERN@,
        )) && release_names(names_view(branches@)).len() == 0,
        r matches Ok(s) ==> is_latest(s@, release_names(names_view(branches@))),
{
    let found = release_branches(branches)?;
    select_latest(found.as_slice())
}

/// The latest release branch is a name of the listing itself, and one that
/// the release pattern matches: filtering never lets another name through.
pub proof fn lemma_latest_is_listed_release(names: Seq<Seq<char>>, s: Seq<char>)
    requires
        is_latest(s, release_names(names)),
    ensures
        names.contains(s),
        is_release(s),
{
    let pred = |n: Seq<char>| is_release(n);
    let found = release_names(names);
    let k = choose|k: int| 0 <= k < found.len() && found[k] == s;
    names.lemma_filter_pred(pred, k);
    names.lemma_filter_contains_rev(pred, s);
}

/// At most one name of a listing is its latest: the result is pinned down.
pub proof fn lemma_latest_is_unique(names: Seq<Seq<char>>, s: Seq<char>, t: Seq<char>)
    requires
        is_latest(s, names),
        is_latest(t, names),
    ensures
        s == t,
{
    let i = choose|i: int| 0 <= i < names.len() && names[i] == t;
    let j = choose|j: int| 0 <= j < names.len() && names[j] == s;
    assert(!lex_lt(s, names[i]));
    assert(!lex_lt(t, names[j]));
    if s != t {
        lemma_lex_lt_total(s, t);
    }
}

} // verus!
