//! Helpers for collecting registers and fields into arrays.
use vstd::prelude::*;
use crate::text::{sub_chars, chars_of, string_from_chars, occurs_at, matches_at, str_eq, copy_str};
use crate::patch::names::split_commas;

verus! {

/// A character that `[\w%]` accepts: an ASCII letter or digit, `_` or `%`.
pub open spec fn is_name_char(c: char) -> bool {
    ('a' <= c && c <= 'z') || ('A' <= c && c <= 'Z') || ('0' <= c && c <= '9') || c == '_' || c == '%'
}

/// An ASCII decimal digit.
pub open spec fn is_digit(c: char) -> bool {
    '0' <= c && c <= '9'
}

/// An ASCII letter.
pub open spec fn is_letter(c: char) -> bool {
    ('a' <= c && c <= 'z') || ('A' <= c && c <= 'Z')
}

/// The end of the run of characters of `s` satisfying `p` that starts at `i`.
pub open spec fn run_end(s: Seq<char>, i: int, p: spec_fn(char) -> bool) -> int
    decreases s.len() - i,
{
    if 0 <= i < s.len() && p(s[i]) {
        run_end(s, i + 1, p)
    } else {
        i
    }
}

/// The end of a bracketed class `[x]` or `[x-y]` at `i`, where `x` and `y`
/// are non-empty runs of characters satisfying `p`; `i` when there is none.
pub open spec fn bracket_end(s: Seq<char>, i: int, p: spec_fn(char) -> bool) -> int {
    let j = run_end(s, i + 1, p);
    if j == i + 1 {
        i
    } else {
        let j2 = if j < s.len() && s[j] == '-' && run_end(s, j + 1, p) > j + 1 {
            run_end(s, j + 1, p)
        } else {
            j
        };
        if j2 < s.len() && s[j2] == ']' {
            j2 + 1
        } else {
            i
        }
    }
}

/// The end of one enumeration token at `i` (`?`, `*`, `[digits]`,
/// `[digits-digits]`, `[letters]` or `[letters-letters]`); `i` when there is
/// none.
pub open spec fn token_item_end(s: Seq<char>, i: int) -> int {
    if !(0 <= i < s.len()) {
        i
    } else if s[i] == '?' || s[i] == '*' {
        i + 1
    } else if s[i] == '[' && i + 1 < s.len() && is_digit(s[i + 1]) {
        bracket_end(s, i, |c: char| is_digit(c))
    } else if s[i] == '[' && i + 1 < s.len() && is_letter(s[i + 1]) {
        bracket_end(s, i, |c: char| is_letter(c))
    } else {
        i
    }
}

/// The end of the longest run of enumeration tokens starting at `i`.
pub open spec fn token_run_end(s: Seq<char>, i: int) -> int
    decreases s.len() - i,
{
    if 0 <= i && i < token_item_end(s, i) <= s.len() {
        token_run_end(s, token_item_end(s, i))
    } else {
        i
    }
}

/// Left and right positions of the enumeration token in the first
/// comma-separated part of `spec`: the part must be made of name characters,
/// one run of tokens, and name characters. The left position is the length of
/// the leading name characters, the right one the length of the trailing ones.
pub open spec fn spec_ind_spec(spec: Seq<char>) -> Option<(int, int)> {
    let seg = split_commas(spec)[0];
    let li = run_end(seg, 0, |c: char| is_name_char(c));
    let e = token_run_end(seg, li);
    if e > li && run_end(seg, e, |c: char| is_name_char(c)) == seg.len() {
        Some((li, seg.len() - e))
    } else {
        None
    }
}

fn is_name_ch(c: char) -> (r: bool)
    ensures
        r == is_name_char(c),
{
    ('a' <= c && c <= 'z') || ('A' <= c && c <= 'Z') || ('0' <= c && c <= '9') || c == '_' || c == '%'
}

fn is_dig(c: char) -> (r: bool)
    ensures
        r == is_digit(c),
{
    '0' <= c && c <= '9'
}

fn is_let(c: char) -> (r: bool)
    ensures
        r == is_letter(c),
{
    ('a' <= c && c <= 'z') || ('A' <= c && c <= 'Z')
}

/// Which character class a run is made of.
enum Class {
    Name,
    Digit,
    Letter,
}

spec fn class_pred(k: Class) -> spec_fn(char) -> bool {
    match k {
        Class::Name => |c: char| is_name_char(c),
        Class::Digit => |c: char| is_digit(c),
        Class::Letter => |c: char| is_letter(c),
    }
}

fn in_class(k: &Class, c: char) -> (r: bool)
    ensures
        r == class_pred(*k)(c),
{
    match k {
        Class::Name => is_name_ch(c),
        Class::Digit => is_dig(c),
        Class::Letter => is_let(c),
    }
}

fn run_end_exec(s: &Vec<char>, i: usize, k: &Class) -> (r: usize)
    requires
        i <= s.len(),
    ensures
        r == run_end(s@, i as int, class_pred(*k)),
        i <= r <= s.len(),
{
    let mut j = i;
    while j < s.len() && in_class(k, s[j])
        invariant
            i <= j <= s.len(),
            run_end(s@, i as int, class_pred(*k)) == run_end(s@, j as int, class_pred(*k)),
        decreases s.len() - j,
    {
        j = j + 1;
    }
    j
}

fn bracket_end_exec(s: &Vec<char>, i: usize, k: &Class) -> (r: usize)
    requires
        i < s.len(),
    ensures
        r == bracket_end(s@, i as int, class_pred(*k)),
        i <= r <= s.len(),
{
    let j = run_end_exec(s, i + 1, k);
    if j == i + 1 {
        return i;
    }
    let mut j2 = j;
    if j < s.len() && s[j] == '-' {
        let k2 = run_end_exec(s, j + 1, k);
        if k2 > j + 1 {
            j2 = k2;
        }
    }
    if j2 < s.len() && s[j2] == ']' {
        j2 + 1
    } else {
        i
    }
}

fn token_item_end_exec(s: &Vec<char>, i: usize) -> (r: usize)
    requires
        i <= s.len(),
    ensures
        r == token_item_end(s@, i as int),
        i <= r <= s.len(),
{
    if i >= s.len() {
        i
    } else if s[i] == '?' || s[i] == '*' {
        i + 1
    } else if s[i] == '[' && i + 1 < s.len() && is_dig(s[i + 1]) {
        let r = bracket_end_exec(s, i, &Class::Digit);
        assert(class_pred(Class::Digit) == |c: char| is_digit(c));
        r
    } else if s[i] == '[' && i + 1 < s.len() && is_let(s[i + 1]) {
        let r = bracket_end_exec(s, i, &Class::Letter);
        assert(class_pred(Class::Letter) == |c: char| is_letter(c));
        r
    } else {
        i
    }
}

/// Find left and right indices of enumeration token in specification string
/// (see [`spec_ind_spec`]).
pub fn spec_ind(spec: &str) -> (r: Option<(usize, usize)>)
    ensures
        match (r, spec_ind_spec(spec@)) {
            (None, None) => true,
            (Some((a, b)), Some((x, y))) => a == x && b == y,
            _ => false,
        },
        r matches Some((a, b)) ==> a + b <= spec@.len(),
{
    let all = chars_of(spec);
    // The first comma-separated part.
    let mut seg: Vec<char> = Vec::new();
    let mut i: usize = 0;
    while i < all.len() && all[i] != ','
        invariant
            all@ == spec@,
            i <= all.len(),
            seg@ == all@.take(i as int),
            forall|j: int| 0 <= j < i ==> all@[j] != ',',
        decreases all.len() - i,
    {
        seg.push(all[i]);
        i = i + 1;
        assert(seg@ =~= all@.take(i as int));
    }
    proof {
        lemma_first_piece(all@, i as int);
    }
    let li = run_end_exec(&seg, 0, &Class::Name);
    assert(class_pred(Class::Name) == |c: char| is_name_char(c));
    let mut e = li;
    loop
        invariant
            li <= e <= seg.len(),
            token_run_end(seg@, li as int) == token_run_end(seg@, e as int),
        ensures
            li <= e <= seg.len(),
            token_run_end(seg@, li as int) == e,
        decreases seg.len() - e,
    {
        let next = token_item_end_exec(&seg, e);
        if next > e {
            e = next;
        } else {
            break;
        }
    }
    let tail = run_end_exec(&seg, e, &Class::Name);
    assert(seg@ == split_commas(spec@)[0]);
    if e > li && tail == seg.len() {
        Some((li, seg.len() - e))
    } else {
        None
    }
}

/// The first comma-separated piece of `s` is its text before the first comma.
proof fn lemma_first_piece(s: Seq<char>, i: int)
    requires
        0 <= i <= s.len(),
        forall|j: int| 0 <= j < i ==> s[j] != ',',
        i == s.len() || s[i] == ',',
    ensures
        split_commas(s)[0] == s.take(i),
    decreases s.len(),
{
    lemma_first_piece_prefix(s, i);
    if i < s.len() {
        lemma_first_piece_stable(s, s.len() as int, i);
        assert(s.take(s.len() as int) =~= s);
    } else {
        assert(s.take(i) =~= s);
    }
}

proof fn lemma_first_piece_prefix(s: Seq<char>, i: int)
    requires
        0 <= i <= s.len(),
        forall|j: int| 0 <= j < i ==> s[j] != ',',
    ensures
        split_commas(s.take(i)).len() == 1,
        split_commas(s.take(i))[0] == s.take(i),
    decreases i,
{
    if i > 0 {
        lemma_first_piece_prefix(s, i - 1);
        assert(s.take(i).drop_last() =~= s.take(i - 1));
        assert(s.take(i - 1).push(s[i - 1]) =~= s.take(i));
    } else {
        assert(s.take(0) =~= Seq::<char>::empty());
    }
}

proof fn lemma_first_piece_stable(s: Seq<char>, k: int, i: int)
    requires
        0 <= i < k <= s.len(),
        forall|j: int| 0 <= j < i ==> s[j] != ',',
        s[i] == ',',
    ensures
        split_commas(s.take(k)).len() >= 2,
        split_commas(s.take(k))[0] == s.take(i),
    decreases k,
{
    assert(s.take(k).drop_last() =~= s.take(k - 1));
    if k == i + 1 {
        lemma_first_piece_prefix(s, i);
    } else {
        lemma_first_piece_stable(s, k - 1, i);
    }
    if k == s.len() {
        assert(s.take(k) =~= s);
    }
}

/// Whether consecutive offsets differ by `dim_increment`.
pub open spec fn evenly_spaced(offsets: Seq<u32>, dim_increment: u32) -> bool {
    forall|i: int| 0 <= i < offsets.len() - 1 ==> #[trigger] offsets[i + 1] - offsets[i] == dim_increment
}

/// Checks that consecutive (non-decreasing) offsets differ by `dim_increment`.
pub fn check_offsets(offsets: &[u32], dim_increment: u32) -> (r: bool)
    requires
        forall|i: int| 0 <= i < offsets@.len() - 1 ==> offsets@[i] <= #[trigger] offsets@[i + 1],
    ensures
        r == evenly_spaced(offsets@, dim_increment),
{
    if offsets.len() < 2 {
        return true;
    }
    let mut i: usize = 0;
    while i < offsets.len() - 1
        invariant
            offsets@.len() >= 2,
            forall|k: int| 0 <= k < offsets@.len() - 1 ==> offsets@[k] <= #[trigger] offsets@[k + 1],
            forall|k: int| 0 <= k < i && k < offsets@.len() - 1 ==> #[trigger] offsets@[k + 1] - offsets@[k] == dim_increment,
        decreases offsets.len() - i,
    {
        if offsets[i + 1] - offsets[i] != dim_increment {
            return false;
        }
        i = i + 1;
    }
    true
}

/// The position at which an item with key `new_key` is inserted among items
/// with keys `keys`: just after the last item holding the largest key that does
/// not exceed `new_key`, or at the front when every key exceeds it.
pub fn adding_pos(new_key: u64, keys: &[u64]) -> (r: usize)
    ensures
        r <= keys@.len(),
        r == 0 <==> forall|k: int| 0 <= k < keys@.len() ==> #[trigger] keys@[k] > new_key,
        r > 0 ==> {
            &&& keys@[r - 1] <= new_key
            &&& forall|k: int| #![trigger keys@[k]] 0 <= k < keys@.len() && keys@[k] <= new_key ==> keys@[k] <= keys@[r - 1]
            &&& forall|k: int| #![trigger keys@[k]] r - 1 < k < keys@.len() && keys@[k] <= new_key ==> keys@[k] < keys@[r - 1]
        },
{
    let mut best: usize = 0;
    let mut i: usize = 0;
    while i < keys.len()
        invariant
            i <= keys@.len(),
            best <= i,
            best == 0 <==> forall|k: int| 0 <= k < i ==> #[trigger] keys@[k] > new_key,
            best > 0 ==> {
                &&& keys@[best - 1] <= new_key
                &&& forall|k: int| #![trigger keys@[k]] 0 <= k < i && keys@[k] <= new_key ==> keys@[k] <= keys@[best - 1]
                &&& forall|k: int| #![trigger keys@[k]] best - 1 < k < i && keys@[k] <= new_key ==> keys@[k] < keys@[best - 1]
            },
        decreases keys.len() - i,
    {
        if keys[i] <= new_key && (best == 0 || keys[i] >= keys[best - 1]) {
            best = i + 1;
        }
        i = i + 1;
    }
    best
}

/// The positions at which `pat` occurs in `s`, scanning from `i` to the right
/// and resuming after each occurrence (`str::match_indices`); an empty `pat`
/// occurs at every position up to the end.
pub open spec fn match_positions(s: Seq<char>, pat: Seq<char>, i: int) -> Seq<int>
    decreases s.len() + 1 - i,
{
    if i < 0 || i > s.len() {
        Seq::empty()
    } else if occurs_at(s, pat, i) {
        seq![i] + match_positions(s, pat, i + if pat.len() == 0 { 1 } else { pat.len() as int })
    } else {
        match_positions(s, pat, i + 1)
    }
}

/// The placeholder `%s`.
pub open spec fn placeholder() -> Seq<char> {
    seq!['%', 's']
}

/// `s` with its first occurrence of the non-empty `pat` replaced by `rep`
/// (`str::replacen(pat, rep, 1)`).
pub open spec fn replace_first(s: Seq<char>, pat: Seq<char>, rep: Seq<char>) -> Seq<char> {
    let ps = match_positions(s, pat, 0);
    if ps.len() == 0 {
        s
    } else {
        s.take(ps[0]) + rep + s.skip(ps[0] + pat.len())
    }
}

/// `d` with the occurrence of `idx` at `p` replaced by `%s`.
pub open spec fn template_at(d: Seq<char>, idx: Seq<char>, p: int) -> Seq<char> {
    d.take(p) + placeholder() + d.skip(p + idx.len())
}

/// Every description after the first is the template with `%s` replaced by
/// the corresponding index.
pub open spec fn all_follow(descs: Seq<Option<Seq<char>>>, dim_index: Seq<Seq<char>>, t: Seq<char>) -> bool {
    forall|k: int|
        1 <= k < descs.len() && k < dim_index.len() ==> #[trigger] descs[k] == Some(
            replace_first(t, placeholder(), dim_index[k]),
        )
}

/// The first template, over the occurrence positions `ps` of the first index
/// in the first description, that every other description follows.
pub open spec fn first_template(
    descs: Seq<Option<Seq<char>>>,
    dim_index: Seq<Seq<char>>,
    d0: Seq<char>,
    ps: Seq<int>,
) -> Option<Seq<char>>
    decreases ps.len(),
{
    if ps.len() == 0 {
        None
    } else if all_follow(descs, dim_index, template_at(d0, dim_index[0], ps[0])) {
        Some(template_at(d0, dim_index[0], ps[0]))
    } else {
        first_template(descs, dim_index, d0, ps.drop_first())
    }
}

/// The common description of the items of an array: the first template built
/// by replacing an occurrence of the first index in the first description by
/// `%s` that all other descriptions follow; failing that, the first description
/// when all descriptions are the same; else `None`.
pub open spec fn common_description_spec(
    descs: Seq<Option<Seq<char>>>,
    dim_index: Seq<Seq<char>>,
) -> Option<Option<Seq<char>>> {
    let templ = match descs[0] {
        Some(d0) => first_template(descs, dim_index, d0, match_positions(d0, dim_index[0], 0)),
        None => None,
    };
    if templ is Some {
        Some(templ)
    } else if forall|k: int| 1 <= k < descs.len() ==> #[trigger] descs[k] == descs[0] {
        Some(descs[0])
    } else {
        None
    }
}

/// The views of optional text slices.
pub open spec fn opt_str_views(s: Seq<Option<&str>>) -> Seq<Option<Seq<char>>> {
    s.map_values(|o: Option<&str>| match o {
        Some(x) => Some(x@),
        None => None,
    })
}

proof fn lemma_match_step(s: Seq<char>, pat: Seq<char>, i: int)
    requires
        0 <= i <= s.len(),
    ensures
        match_positions(s, pat, i) == if occurs_at(s, pat, i) {
            seq![i] + match_positions(s, pat, i + if pat.len() == 0 { 1 } else { pat.len() as int })
        } else {
            match_positions(s, pat, i + 1)
        },
{
}

/// `s` with its first occurrence of `pat` (non-empty) replaced by `rep`.
fn replace_first_exec(s: &Vec<char>, pat: &Vec<char>, rep: &str) -> (r: String)
    requires
        pat@.len() > 0,
    ensures
        r@ == replace_first(s@, pat@, rep@),
{
    let mut i: usize = 0;
    while i < s.len()
        invariant
            pat@.len() > 0,
            i <= s.len(),
            match_positions(s@, pat@, 0) == match_positions(s@, pat@, i as int),
        decreases s.len() + 1 - i,
    {
        proof {
            lemma_match_step(s@, pat@, i as int);
        }
        if matches_at(s, pat, i) {
            let head = string_from_chars(&sub_chars(s, 0, i));
            let tail = string_from_chars(&sub_chars(s, i + pat.len(), s.len()));
            let mut out = head;
            out.append(rep);
            out.append(tail.as_str());
            assert(out@ =~= s@.take(i as int) + rep@ + s@.skip(i + pat@.len()));
            return out;
        }
        i = i + 1;
    }
    proof {
        lemma_match_step(s@, pat@, i as int);
        assert(match_positions(s@, pat@, i + 1) =~= Seq::<int>::empty());
    }
    string_from_chars(s)
}

/// The views of the index strings.
pub open spec fn string_views(s: Seq<String>) -> Seq<Seq<char>> {
    s.map_values(|x: String| x@)
}

fn opt_str_eq(a: Option<&str>, b: Option<&str>) -> (r: bool)
    ensures
        r == (match (a, b) {
            (Some(x), Some(y)) => x@ == y@,
            (None, None) => true,
            _ => false,
        }),
{
    match (a, b) {
        (Some(x), Some(y)) => str_eq(x, y),
        (None, None) => true,
        _ => false,
    }
}

fn placeholder_chars() -> (r: Vec<char>)
    ensures
        r@ == placeholder(),
{
    let mut v: Vec<char> = Vec::new();
    v.push('%');
    v.push('s');
    assert(v@ =~= placeholder());
    v
}

fn follows_all(descs: &[Option<&str>], dim_index: &[String], t: &Vec<char>) -> (r: bool)
    ensures
        r == all_follow(opt_str_views(descs@), string_views(dim_index@), t@),
{
    let ghost dv = opt_str_views(descs@);
    let ghost iv = string_views(dim_index@);
    let ph = placeholder_chars();
    let mut k: usize = 1;
    while k < descs.len() && k < dim_index.len()
        invariant
            dv == opt_str_views(descs@),
            iv == string_views(dim_index@),
            ph@ == placeholder(),
            k >= 1,
            forall|j: int| 1 <= j < k && j < descs@.len() && j < dim_index@.len() ==> #[trigger] dv[j] == Some(replace_first(t@, placeholder(), iv[j])),
        decreases descs.len() - k,
    {
        let rep = replace_first_exec(t, &ph, dim_index[k].as_str());
        let ok = match descs[k] {
            Some(x) => str_eq(x, rep.as_str()),
            None => false,
        };
        if !ok {
            assert(!(dv[k as int] == Some(replace_first(t@, placeholder(), iv[k as int]))));
            return false;
        }
        k = k + 1;
    }
    true
}

/// Tries to get common description (or displayNames) for register/field array
/// with "%s" in index position. Returns `None` if incoming descriptions have
/// more then 1 difference
pub fn common_description(descs: &[Option<&str>], dim_index: &[String]) -> (r: Option<Option<String>>)
    requires
        descs@.len() > 0,
        descs@[0] is Some ==> dim_index@.len() > 0,
    ensures
        match (r, common_description_spec(opt_str_views(descs@), string_views(dim_index@))) {
            (Some(Some(a)), Some(Some(b))) => a@ == b,
            (Some(None), Some(None)) => true,
            (None, None) => true,
            _ => false,
        },
{
    let ghost dv = opt_str_views(descs@);
    let ghost iv = string_views(dim_index@);
    let ghost templ = match dv[0] {
        Some(d) => first_template(dv, iv, d, match_positions(d, iv[0], 0)),
        None => None,
    };
    assert(common_description_spec(dv, iv) == if templ is Some {
        Some(templ)
    } else if forall|k: int| 1 <= k < dv.len() ==> #[trigger] dv[k] == dv[0] {
        Some(dv[0])
    } else {
        None
    });
    if let Some(desc0) = descs[0] {
        let d0 = chars_of(desc0);
        let idx0 = chars_of(dim_index[0].as_str());
        assert(dv[0] == Some(d0@));
        assert(iv[0] == idx0@);
        let ghost all_ps = match_positions(d0@, idx0@, 0);
        assert(templ == first_template(dv, iv, d0@, all_ps));
        let mut pos: usize = 0;
        while pos < d0.len()
            invariant
                pos <= d0.len(),
                dv == opt_str_views(descs@),
                iv == string_views(dim_index@),
                iv[0] == idx0@,
                templ == first_template(dv, iv, d0@, match_positions(d0@, idx0@, pos as int)),
                templ is Some ==> common_description_spec(dv, iv) == Some(templ),
            decreases d0.len() - pos,
        {
            proof {
                lemma_match_step(d0@, idx0@, pos as int);
            }
            let ghost ps = match_positions(d0@, idx0@, pos as int);
            if matches_at(&d0, &idx0, pos) {
                let mut t = sub_chars(&d0, 0, pos);
                t.append(&mut placeholder_chars());
                t.append(&mut sub_chars(&d0, pos + idx0.len(), d0.len()));
                assert(t@ =~= template_at(d0@, idx0@, pos as int));
                assert(ps[0] == pos);
                assert(ps.len() > 0);
                if follows_all(descs, dim_index, &t) {
                    assert(templ == Some(t@));
                    return Some(Some(string_from_chars(&t)));
                }
                assert(templ == first_template(dv, iv, d0@, ps.drop_first()));
                assert(ps.drop_first() =~= match_positions(d0@, idx0@, pos + if idx0@.len() == 0 { 1 } else { idx0@.len() as int }));
                if idx0.len() == 0 {
                    pos = pos + 1;
                } else {
                    pos = pos + idx0.len();
                }
            } else {
                pos = pos + 1;
            }
        }
        proof {
            lemma_match_step(d0@, idx0@, pos as int);
        }
        let ghost ps = match_positions(d0@, idx0@, pos as int);
        if matches_at(&d0, &idx0, pos) {
            let mut t = d0.clone();
            t.append(&mut placeholder_chars());
            assert(idx0@.len() == 0);
            assert(t@ =~= template_at(d0@, idx0@, pos as int));
            assert(ps[0] == pos);
            assert(match_positions(d0@, idx0@, pos + 1) =~= Seq::<int>::empty());
            assert(ps.drop_first() =~= Seq::<int>::empty());
            if follows_all(descs, dim_index, &t) {
                assert(templ == Some(t@));
                return Some(Some(string_from_chars(&t)));
            }
            assert(templ == first_template(dv, iv, d0@, ps.drop_first()));
        } else {
            assert(match_positions(d0@, idx0@, pos + 1) =~= Seq::<int>::empty());
        }
        assert(templ is None);
    }
    assert(templ is None);
    // If descriptions are identical, do not change.
    let mut k: usize = 1;
    while k < descs.len()
        invariant
            dv == opt_str_views(descs@),
            iv == string_views(dim_index@),
            k >= 1,
            templ is None,
            common_description_spec(dv, iv) == if forall|k: int| 1 <= k < dv.len() ==> #[trigger] dv[k] == dv[0] {
                Some(dv[0])
            } else {
                None
            },
            forall|j: int| 1 <= j < k && j < descs@.len() ==> #[trigger] dv[j] == dv[0],
        decreases descs.len() - k,
    {
        if !opt_str_eq(descs[k], descs[0]) {
            assert(dv[k as int] != dv[0]);
            return None;
        }
        k = k + 1;
    }
    match descs[0] {
        Some(d) => Some(Some(copy_str(d))),
        None => Some(None),
    }
}

} // verus!
