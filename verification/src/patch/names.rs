//! Matching names against glob specifications.
use vstd::prelude::*;
use crate::text::{chars_of, string_from_chars, copy_str};

verus! {

/// What `globset` makes of `pattern` (built with backslash escapes enabled
/// and the other options at their defaults) applied to `name`: `None` when
/// the pattern does not compile, else whether the name matches. It is used
/// only on patterns within [`glob_safe`] and names without a backslash, on
/// which the result depends on the two texts alone.
pub uninterp spec fn globset_match(pattern: Seq<char>, name: Seq<char>) -> Option<bool>;

/// Builds the glob matcher for `pattern` with
/// `globset::GlobBuilder::new(pattern).backslash_escape(true).build()`,
/// compiles it with `Glob::compile_matcher` and tests `name` with
/// `GlobMatcher::is_match`.
///
/// Trusted: the result is named by [`globset_match`]; nothing more is claimed
/// of globset's matching. `compile_matcher` panics when the regular
/// expression that the glob becomes is refused (a nesting deeper than the
/// regex parser's limit of 250, or an automaton over its size limit);
/// [`glob_safe`] keeps both far away. A name with a backslash is kept out
/// because `is_match` turns `\` into `/` on platforms where it separates
/// paths.
#[verifier::external_body]
fn globset_is_match(pattern: &str, name: &str) -> (r: Option<bool>)
    requires
        glob_safe(pattern@),
        !name@.contains('\\'),
    ensures
        r == globset_match(pattern@, name@),
{
    match globset::GlobBuilder::new(pattern).backslash_escape(true).build() {
        Ok(glob) => Some(glob.compile_matcher().is_match(name)),
        Err(_) => None,
    }
}

/// How many times `c` occurs in `s`.
pub open spec fn count_char(s: Seq<char>, c: char) -> nat
    decreases s.len(),
{
    if s.len() == 0 {
        0
    } else {
        count_char(s.drop_last(), c) + if s.last() == c { 1nat } else { 0nat }
    }
}

/// The patterns that are handed to globset: at most 1000 characters and at
/// most 32 opening braces. Each brace opens at most one nested group of
/// three levels in the regular expression that the glob becomes, so the
/// nesting stays far below the regex parser's limit, and the automaton far
/// below its size limit.
pub open spec fn glob_safe(pattern: Seq<char>) -> bool {
    pattern.len() <= 1000 && count_char(pattern, '{') <= 32
}

/// The outcome of matching `name` against the glob `pattern`: `None` when
/// the pattern is refused (it is outside [`glob_safe`] or does not compile),
/// else whether the name matches. A name that contains a backslash matches
/// no glob.
pub open spec fn glob_match(pattern: Seq<char>, name: Seq<char>) -> Option<bool> {
    if !glob_safe(pattern) {
        None
    } else if name.contains('\\') {
        match globset_match(pattern, Seq::empty()) {
            None => None,
            Some(_) => Some(false),
        }
    } else {
        globset_match(pattern, name)
    }
}

/// Whether `pattern` is within [`glob_safe`].
fn glob_within_limits(pattern: &str) -> (r: bool)
    ensures
        r == glob_safe(pattern@),
{
    let n = pattern.unicode_len();
    if n > 1000 {
        return false;
    }
    let mut braces: usize = 0;
    let mut i: usize = 0;
    while i < n
        invariant
            n == pattern@.len(),
            n <= 1000,
            i <= n,
            braces == count_char(pattern@.take(i as int), '{'),
            braces <= i,
        decreases n - i,
    {
        assert(pattern@.take(i + 1).drop_last() =~= pattern@.take(i as int));
        if pattern.get_char(i) == '{' {
            braces = braces + 1;
        }
        i = i + 1;
    }
    assert(pattern@.take(n as int) =~= pattern@);
    braces <= 32
}

/// Matches `name` against the glob `pattern` (see [`glob_match`]).
pub fn glob_is_match(pattern: &str, name: &str) -> (r: Option<bool>)
    ensures
        r == glob_match(pattern@, name@),
{
    if !glob_within_limits(pattern) {
        None
    } else if contains_char(name, '\\') {
        proof {
            reveal_strlit("");
            assert(""@ =~= Seq::<char>::empty());
        }
        match globset_is_match(pattern, "") {
            None => None,
            Some(_) => Some(false),
        }
    } else {
        globset_is_match(pattern, name)
    }
}

/// The pieces of `s` between commas (`str::split(',')`): an empty text gives
/// one empty piece.
pub open spec fn split_commas(s: Seq<char>) -> Seq<Seq<char>>
    decreases s.len(),
{
    if s.len() == 0 {
        seq![Seq::empty()]
    } else {
        let rest = split_commas(s.drop_last());
        if s.last() == ',' {
            rest.push(Seq::empty())
        } else {
            rest.update(rest.len() - 1, rest.last().push(s.last()))
        }
    }
}

proof fn lemma_split_commas_nonempty(s: Seq<char>)
    ensures
        split_commas(s).len() >= 1,
    decreases s.len(),
{
    if s.len() > 0 {
        lemma_split_commas_nonempty(s.drop_last());
    }
}

/// Splits `s` at its commas.
pub fn split_at_commas(s: &str) -> (r: Vec<String>)
    ensures
        r@.map_values(|x: String| x@) == split_commas(s@),
{
    let cs = chars_of(s);
    let mut pieces: Vec<String> = Vec::new();
    let mut cur: Vec<char> = Vec::new();
    let mut i: usize = 0;
    while i < cs.len()
        invariant
            cs@ == s@,
            i <= cs.len(),
            pieces@.map_values(|x: String| x@).push(cur@) == split_commas(cs@.take(i as int)),
        decreases cs.len() - i,
    {
        let ghost pre = cs@.take(i as int);
        let ghost cur_s = cs@.take(i + 1);
        assert(cur_s.drop_last() =~= pre);
        proof {
            lemma_split_commas_nonempty(pre);
        }
        let ghost old_pieces = pieces@.map_values(|x: String| x@);
        if cs[i] == ',' {
            let piece = string_from_chars(&cur);
            pieces.push(piece);
            cur = Vec::new();
            assert(pieces@.map_values(|x: String| x@) =~= old_pieces.push(piece@));
        } else {
            cur.push(cs[i]);
        }
        i = i + 1;
        assert(pieces@.map_values(|x: String| x@).push(cur@) =~= split_commas(cs@.take(i as int)));
    }
    let piece = string_from_chars(&cur);
    let ghost old_pieces = pieces@.map_values(|x: String| x@);
    pieces.push(piece);
    assert(pieces@.map_values(|x: String| x@) =~= old_pieces.push(piece@));
    assert(cs@.take(cs.len() as int) =~= cs@);
    r_id(pieces)
}

fn r_id(v: Vec<String>) -> (r: Vec<String>)
    ensures
        r == v,
{
    v
}

/// Matching `name` against the comma-separated alternatives `subs`, in order:
/// `None` when an alternative that has to be tried does not compile, else the
/// first alternative that matches, if any.
pub open spec fn first_matching(name: Seq<char>, subs: Seq<Seq<char>>) -> Option<Option<Seq<char>>>
    decreases subs.len(),
{
    if subs.len() == 0 {
        Some(None)
    } else {
        match glob_match(subs[0], name) {
            None => None,
            Some(true) => Some(Some(subs[0])),
            Some(false) => first_matching(name, subs.drop_first()),
        }
    }
}

/// The outcome of matching `name` against `spec`: a specification that
/// contains `{` is one glob; otherwise each comma-separated alternative is
/// tried in turn. `None` when a glob that has to be built does not compile.
pub open spec fn subspec_outcome(name: Seq<char>, spec: Seq<char>) -> Option<Option<Seq<char>>> {
    if spec.contains('{') {
        match glob_match(spec, name) {
            None => None,
            Some(true) => Some(Some(spec)),
            Some(false) => Some(None),
        }
    } else {
        first_matching(name, split_commas(spec))
    }
}

fn contains_char(s: &str, c: char) -> (r: bool)
    ensures
        r == s@.contains(c),
{
    let n = s.unicode_len();
    let mut i: usize = 0;
    while i < n
        invariant
            n == s@.len(),
            i <= n,
            forall|j: int| 0 <= j < i ==> s@[j] != c,
        decreases n - i,
    {
        if s.get_char(i) == c {
            return true;
        }
        i = i + 1;
    }
    false
}

/// Matches `name` against `spec` and returns the first sub-specification that
/// it matches; `None` (outer) when a glob that has to be built does not
/// compile.
pub fn try_matchsubspec(name: &str, spec: &str) -> (r: Option<Option<String>>)
    ensures
        match (r, subspec_outcome(name@, spec@)) {
            (None, None) => true,
            (Some(None), Some(None)) => true,
            (Some(Some(x)), Some(Some(y))) => x@ == y,
            _ => false,
        },
{
    if contains_char(spec, '{') {
        match glob_is_match(spec, name) {
            None => None,
            Some(true) => Some(Some(copy_str(spec))),
            Some(false) => Some(None),
        }
    } else {
        let subs = split_at_commas(spec);
        let ghost subv = subs@.map_values(|x: String| x@);
        let mut i: usize = 0;
        assert(subv.skip(0) =~= subv);
        while i < subs.len()
            invariant
                !spec@.contains('{'),
                subv == subs@.map_values(|x: String| x@),
                subv == split_commas(spec@),
                i <= subs.len(),
                first_matching(name@, subv) == first_matching(name@, subv.skip(i as int)),
            decreases subs.len() - i,
        {
            let ghost rest = subv.skip(i as int);
            assert(rest[0] == subs@[i as int]@);
            assert(rest.drop_first() =~= subv.skip(i + 1));
            assert(first_matching(name@, rest) == match glob_match(rest[0], name@) {
                None => None,
                Some(true) => Some(Some(rest[0])),
                Some(false) => first_matching(name@, rest.drop_first()),
            });
            match glob_is_match(subs[i].as_str(), name) {
                None => {
                    return None;
                },
                Some(true) => {
                    return Some(Some(subs[i].clone()));
                },
                Some(false) => {},
            }
            i = i + 1;
        }
        assert(subv.skip(i as int) =~= Seq::<Seq<char>>::empty());
        Some(None)
    }
}

/// Whether matching against `spec` gets through without a glob that fails to
/// compile.
pub open spec fn spec_compiles_for(name: Seq<char>, spec: Seq<char>) -> bool {
    subspec_outcome(name, spec) is Some
}

/// If a name matches a specification, return the first sub-specification that
/// it matches.
pub fn matchsubspec(name: &str, spec: &str) -> (r: Option<String>)
    requires
        spec_compiles_for(name@, spec@),
    ensures
        match (r, subspec_outcome(name@, spec@)) {
            (None, Some(None)) => true,
            (Some(x), Some(Some(y))) => x@ == y,
            _ => false,
        },
{
    match try_matchsubspec(name, spec) {
        Some(r) => r,
        None => None,
    }
}

/// Whether `name` matches `spec`.
pub open spec fn name_matches(name: Seq<char>, spec: Seq<char>) -> bool {
    subspec_outcome(name, spec) matches Some(Some(_))
}

/// Check if name matches against a specification
pub fn matchname(name: &str, spec: &str) -> (r: bool)
    requires
        spec_compiles_for(name@, spec@),
    ensures
        r == name_matches(name@, spec@),
{
    matchsubspec(name, spec).is_some()
}

/// Checks `name` against `spec`: `None` when a glob that has to be built does
/// not compile, else whether the name matches.
pub fn try_matchname(name: &str, spec: &str) -> (r: Option<bool>)
    ensures
        r is None <==> !spec_compiles_for(name@, spec@),
        r matches Some(b) ==> b == name_matches(name@, spec@),
{
    match try_matchsubspec(name, spec) {
        None => None,
        Some(m) => Some(m.is_some()),
    }
}


/// Whether the glob `pattern` is accepted (see [`glob_match`]).
pub open spec fn plain_glob_ok(pattern: Seq<char>) -> bool {
    glob_match(pattern, Seq::empty()) is Some
}

/// Whether `name` matches the glob `pattern` (see [`glob_match`]).
pub open spec fn plain_glob_match(pattern: Seq<char>, name: Seq<char>) -> bool {
    glob_match(pattern, name) == Some(true)
}

/// Whether the glob `pattern` is accepted.
pub fn plain_glob_compiles(pattern: &str) -> (r: bool)
    ensures
        r == plain_glob_ok(pattern@),
{
    proof {
        reveal_strlit("");
        assert(""@ =~= Seq::<char>::empty());
    }
    glob_is_match(pattern, "").is_some()
}

/// Whether `name` matches the glob `pattern`, which is accepted.
pub fn plain_glob_is_match(pattern: &str, name: &str) -> (r: bool)
    requires
        plain_glob_ok(pattern@),
    ensures
        r == plain_glob_match(pattern@, name@),
{
    match glob_is_match(pattern, name) {
        Some(b) => b,
        None => false,
    }
}

} // verus!
