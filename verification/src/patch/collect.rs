//! Collecting fields of a register into one field array.
use vstd::prelude::*;
use crate::model::{Field, Register, DimElement};
use crate::patch::arrays::{spec_ind, spec_ind_spec, check_offsets, evenly_spaced, common_description, common_description_spec, opt_str_views, string_views};
use crate::patch::error::{PatchError, PatchErrorKind, failed_with, failed_on_yaml};
use crate::patch::names::{try_matchname, name_matches, spec_compiles_for};
use crate::patch::register::{fields_of, fields_replaced, selects, pct_s, first_flag};
use crate::patch::yaml::{YamlHash, YamlV, yv};
use crate::patch::yaml_ext::{entry, str_of, YamlErrorV};
use crate::patch::{Spec, spec_parts};
use crate::text::{copy_str, push_char, decimal, push_decimal, opt_view, str_eq};

verus! {

/// `f` is a plain (not yet arrayed) field that `spec` selects.
pub open spec fn candidate(spec: Seq<char>, f: Field) -> bool {
    f.dim is None && selects(spec, f)
}

/// Every glob needed to test the plain fields of `fs` compiles.
pub open spec fn plain_names_compile(fs: Seq<Field>, spec: Seq<char>) -> bool {
    forall|i: int| 0 <= i < fs.len() && fs[i].dim is None ==> spec_compiles_for(#[trigger] fs[i].name@, spec)
}

/// The test of whether a field is a candidate for `spec`.
pub open spec fn cand_pred(spec: Seq<char>) -> spec_fn(Field) -> bool {
    |f: Field| candidate(spec, f)
}

/// The test of whether a field is not a candidate for `spec`.
pub open spec fn non_cand_pred(spec: Seq<char>) -> spec_fn(Field) -> bool {
    |f: Field| !candidate(spec, f)
}

/// `s` with `f` put after every field whose offset does not exceed its own
/// (insertion into a list ordered by offset).
pub open spec fn insert_by_offset(s: Seq<Field>, f: Field) -> Seq<Field>
    decreases s.len(),
{
    if s.len() == 0 {
        seq![f]
    } else if s.last().bit_offset <= f.bit_offset {
        s.push(f)
    } else {
        insert_by_offset(s.drop_last(), f).push(s.last())
    }
}

/// `s` ordered by offset; fields with the same offset keep their order.
pub open spec fn sort_by_offset(s: Seq<Field>) -> Seq<Field>
    decreases s.len(),
{
    if s.len() == 0 {
        s
    } else {
        insert_by_offset(sort_by_offset(s.drop_last()), s.last())
    }
}

/// The offsets of `s` never decrease.
pub open spec fn offsets_sorted(s: Seq<Field>) -> bool {
    forall|i: int, j: int| 0 <= i <= j < s.len() ==> s[i].bit_offset <= s[j].bit_offset
}

proof fn lemma_insert_at(s: Seq<Field>, f: Field, j: int)
    requires
        0 <= j <= s.len(),
        forall|k: int| j <= k < s.len() ==> s[k].bit_offset > f.bit_offset,
        j > 0 ==> s[j - 1].bit_offset <= f.bit_offset,
    ensures
        insert_by_offset(s, f) == s.insert(j, f),
    decreases s.len(),
{
    if s.len() == 0 {
        assert(s.insert(j, f) =~= seq![f]);
    } else if j == s.len() {
        assert(s.insert(j, f) =~= s.push(f));
    } else {
        lemma_insert_at(s.drop_last(), f, j);
        assert(s.drop_last().insert(j, f).push(s.last()) =~= s.insert(j, f));
    }
}

proof fn lemma_insert_sorted(s: Seq<Field>, f: Field, j: int)
    requires
        offsets_sorted(s),
        0 <= j <= s.len(),
        forall|k: int| j <= k < s.len() ==> s[k].bit_offset > f.bit_offset,
        j > 0 ==> s[j - 1].bit_offset <= f.bit_offset,
    ensures
        offsets_sorted(s.insert(j, f)),
{
    let t = s.insert(j, f);
    assert forall|a: int, b: int| 0 <= a <= b < t.len() implies t[a].bit_offset <= t[b].bit_offset by {
        if a < j && b > j {
            assert(t[a] == s[a] && t[b] == s[b - 1]);
        } else if a < j && b == j {
            assert(s[a].bit_offset <= s[j - 1].bit_offset);
        } else if a == j && b > j {
            assert(t[b] == s[b - 1]);
        } else if a > j {
            assert(t[a] == s[a - 1] && t[b] == s[b - 1]);
        }
    }
}

/// Orders `v` by offset, keeping the order of fields with equal offsets.
fn sort_fields(v: Vec<Field>) -> (r: Vec<Field>)
    ensures
        r@ == sort_by_offset(v@),
        offsets_sorted(r@),
{
    let mut v = v;
    let ghost orig = v@;
    let n = v.len();
    let mut out: Vec<Field> = Vec::new();
    let mut i: usize = 0;
    while i < n
        invariant
            n == orig.len(),
            i <= n,
            v@ == orig.skip(i as int),
            out@ == sort_by_offset(orig.take(i as int)),
            offsets_sorted(out@),
        decreases n - i,
    {
        assert(v@[0] == orig[i as int]);
        let f = v.remove(0);
        let mut j = out.len();
        while j > 0 && out[j - 1].bit_offset > f.bit_offset
            invariant
                j <= out@.len(),
                forall|k: int| j <= k < out@.len() ==> out@[k].bit_offset > f.bit_offset,
            decreases j,
        {
            j = j - 1;
        }
        proof {
            lemma_insert_at(out@, f, j as int);
            lemma_insert_sorted(out@, f, j as int);
            assert(orig.take(i + 1).drop_last() =~= orig.take(i as int));
        }
        out.insert(j, f);
        i = i + 1;
        assert(v@ =~= orig.skip(i as int));
    }
    assert(orig.take(i as int) =~= orig);
    out
}

/// Which fields of `fs` are candidates for `spec`; `None` when a glob does
/// not compile.
fn candidate_flags(fs: &Vec<Field>, spec: &str) -> (r: Option<Vec<bool>>)
    ensures
        r is None <==> !plain_names_compile(fs@, spec@),
        r matches Some(v) ==> v@.len() == fs@.len() && forall|i: int|
            0 <= i < fs@.len() ==> v@[i] == candidate(spec@, #[trigger] fs@[i]),
{
    let mut out: Vec<bool> = Vec::new();
    let mut i: usize = 0;
    while i < fs.len()
        invariant
            i <= fs@.len(),
            out@.len() == i,
            forall|j: int| 0 <= j < i && fs@[j].dim is None ==> spec_compiles_for(#[trigger] fs@[j].name@, spec@),
            forall|j: int| 0 <= j < i ==> out@[j] == candidate(spec@, #[trigger] fs@[j]),
        decreases fs.len() - i,
    {
        if fs[i].dim.is_none() {
            match try_matchname(fs[i].name.as_str(), spec) {
                None => {
                    return None;
                },
                Some(b) => {
                    out.push(b);
                },
            }
        } else {
            out.push(false);
        }
        i = i + 1;
    }
    Some(out)
}

/// The fields that `flags` marks taken out of `all`, the others in their
/// order, and the position of the first marked one.
fn split_candidates(all: Vec<Field>, flags: &Vec<bool>, Ghost(spec): Ghost<Seq<char>>) -> (r: (Vec<Field>, Vec<Field>, Option<usize>))
    requires
        flags@.len() == all@.len(),
        forall|i: int| 0 <= i < all@.len() ==> flags@[i] == candidate(spec, #[trigger] all@[i]),
    ensures
        ({
            let (c, o, p) = r;
            &&& c@ == all@.filter(cand_pred(spec))
            &&& o@ == all@.filter(non_cand_pred(spec))
            &&& match p {
                None => c@.len() == 0,
                Some(pi) => pi < all@.len() && candidate(spec, all@[pi as int]) && forall|k: int|
                    0 <= k < pi ==> !candidate(spec, #[trigger] all@[k]),
            }
        }),
{
    let ghost orig = all@;
    let mut fs = all;
    let n = fs.len();
    let mut cands: Vec<Field> = Vec::new();
    let mut others: Vec<Field> = Vec::new();
    let mut place: Option<usize> = None;
    let mut i: usize = 0;
    while i < n
        invariant
            n == orig.len(),
            flags@.len() == n,
            forall|k: int| 0 <= k < n ==> flags@[k] == candidate(spec, #[trigger] orig[k]),
            i <= n,
            fs@ == orig.skip(i as int),
            cands@ == orig.take(i as int).filter(cand_pred(spec)),
            others@ == orig.take(i as int).filter(non_cand_pred(spec)),
            match place {
                None => cands@.len() == 0,
                Some(pi) => pi < i && candidate(spec, orig[pi as int]) && forall|k: int|
                    0 <= k < pi ==> !candidate(spec, #[trigger] orig[k]),
            },
        decreases n - i,
    {
        assert(fs@[0] == orig[i as int]);
        let f = fs.remove(0);
        proof {
            orig.take(i as int).lemma_filter_push(orig[i as int], cand_pred(spec));
            orig.take(i as int).lemma_filter_push(orig[i as int], non_cand_pred(spec));
            assert(orig.take(i + 1) =~= orig.take(i as int).push(orig[i as int]));
            assert(flags@[i as int] == candidate(spec, orig[i as int]));
            if place is None {
                assert forall|k: int| 0 <= k < i implies !candidate(spec, #[trigger] orig[k]) by {
                    lemma_empty_filter(orig.take(i as int), cand_pred(spec), k);
                }
            }
        }
        if flags[i] {
            cands.push(f);
            if place.is_none() {
                place = Some(i);
            }
        } else {
            others.push(f);
        }
        i = i + 1;
        assert(fs@ =~= orig.skip(i as int));
    }
    assert(orig.take(i as int) =~= orig);
    (cands, others, place)
}

proof fn lemma_empty_filter(s: Seq<Field>, p: spec_fn(Field) -> bool, k: int)
    requires
        s.filter(p).len() == 0,
        0 <= k < s.len(),
    ensures
        !p(s[k]),
{
    broadcast use vstd::seq_lib::group_filter_ensures;
    if p(s[k]) {
        assert(s.filter(p).contains(s[k]));
    }
}

/// The texts of `0, 1, ..., n - 1`.
pub open spec fn counting(n: nat) -> Seq<Seq<char>> {
    Seq::new(n, |k: int| decimal(k as nat))
}

/// The index texts of an array built from `group`: counting from zero when
/// asked, else each name with `li` leading and `ri` trailing characters
/// removed; `None` when a name is too short for that.
pub open spec fn index_texts(group: Seq<Field>, li: int, ri: int, from_zero: bool) -> Option<Seq<Seq<char>>> {
    if from_zero {
        Some(counting(group.len()))
    } else if forall|k: int| 0 <= k < group.len() ==> li + ri <= #[trigger] group[k].name@.len() {
        Some(group.map_values(|f: Field| f.name@.subrange(li, f.name@.len() - ri)))
    } else {
        None
    }
}

/// The offsets of `s`.
pub open spec fn offsets_of(s: Seq<Field>) -> Seq<u32> {
    s.map_values(|f: Field| f.bit_offset)
}

/// The text `_original`.
pub open spec fn original_marker() -> Seq<char> {
    seq!['_', 'o', 'r', 'i', 'g', 'i', 'n', 'a', 'l']
}

/// The array name built from the specification: `%s` in place of its token.
pub open spec fn array_name(spec: Seq<char>, li: int, ri: int) -> Seq<char> {
    spec.take(li) + pct_s() + spec.skip(spec.len() - ri)
}

/// The descriptions of `s`.
pub open spec fn descs_of(s: Seq<Field>) -> Seq<Option<Seq<char>>> {
    s.map_values(|f: Field| opt_view(f.description))
}


/// Whether the mapping `h` has the string key `k`.
pub open spec fn has_key(h: Seq<(YamlV, YamlV)>, k: Seq<char>) -> bool {
    entry(h, k) is Some
}

/// The description an array takes: `description` from the rule (`_original`
/// keeps the first element's), else the common description of the elements;
/// `None` when the rule's value is not a string or there is no common one.
pub open spec fn array_desc(
    desc_e: Option<YamlV>,
    first: Option<Seq<char>>,
    descs: Seq<Option<Seq<char>>>,
    idx: Seq<Seq<char>>,
) -> Option<Option<Seq<char>>> {
    match desc_e {
        Some(v) => match str_of(v) {
            Some(d) => Some(if d == original_marker() { first } else { Some(d) }),
            None => None,
        },
        None => common_description_spec(descs, idx),
    }
}

/// `newf` is `first` made into the array named `name`, described by `desc`,
/// with `dim` elements `inc` apart and the index texts `idx`.
pub open spec fn arrayed(first: Field, newf: Field, name: Seq<char>, desc: Option<Seq<char>>, dim: u32, inc: u32, idx: Seq<Seq<char>>) -> bool {
    &&& newf == Field { name: newf.name, description: newf.description, dim: newf.dim, ..first }
    &&& newf.name@ == name
    &&& opt_view(newf.description) == desc
    &&& newf.dim is Some
    &&& newf.dim.unwrap().dim == dim
    &&& newf.dim.unwrap().dim_increment == inc
    &&& newf.dim.unwrap().dim_name is None
    &&& newf.dim.unwrap().dim_index is Some
    &&& string_views(newf.dim.unwrap().dim_index.unwrap()@) == idx
}

/// `t` is the name of `f` without `li` leading and `ri` trailing characters.
pub open spec fn index_of_name(f: Field, li: int, ri: int, t: Seq<char>) -> bool {
    li + ri <= f.name@.len() && t == f.name@.subrange(li, f.name@.len() - ri)
}

/// The index texts of `group` (see [`index_texts`]).
fn index_texts_of(group: &Vec<Field>, li: usize, ri: usize, from_zero: bool) -> (r: Option<Vec<String>>)
    ensures
        match (r, index_texts(group@, li as int, ri as int, from_zero)) {
            (Some(v), Some(t)) => string_views(v@) == t,
            (None, None) => true,
            _ => false,
        },
        r matches Some(v) ==> v@.len() == group@.len(),
{
    let mut out: Vec<String> = Vec::new();
    let n = group.len();
    let mut i: usize = 0;
    while i < n
        invariant
            n == group@.len(),
            i <= n,
            out@.len() == i,
            from_zero ==> forall|k: int| 0 <= k < i ==> #[trigger] out@[k]@ == decimal(k as nat),
            !from_zero ==> forall|k: int| 0 <= k < i ==> index_of_name(#[trigger] group@[k], li as int, ri as int, out@[k]@),
        decreases n - i,
    {
        if from_zero {
            let mut t = String::new();
            push_decimal(&mut t, i as u64);
            out.push(t);
        } else {
            let name = group[i].name.as_str();
            let m = name.unicode_len();
            if m < li || m - li < ri {
                assert(!(li + ri <= group@[i as int].name@.len()));
                return None;
            }
            let t = copy_str(name.substring_char(li, m - ri));
            assert(index_of_name(group@[i as int], li as int, ri as int, t@));
            out.push(t);
        }
        i = i + 1;
    }
    proof {
        if from_zero {
            assert(string_views(out@) =~= counting(group@.len()));
        } else {
            assert(string_views(out@) =~= group@.map_values(
                |f: Field| f.name@.subrange(li as int, f.name@.len() - ri),
            ));
        }
    }
    Some(out)
}

proof fn lemma_insert_len(s: Seq<Field>, f: Field)
    ensures
        insert_by_offset(s, f).len() == s.len() + 1,
    decreases s.len(),
{
    if s.len() > 0 && s.last().bit_offset > f.bit_offset {
        lemma_insert_len(s.drop_last(), f);
    }
}

proof fn lemma_sorted_len(s: Seq<Field>)
    ensures
        sort_by_offset(s).len() == s.len(),
    decreases s.len(),
{
    if s.len() > 0 {
        lemma_sorted_len(s.drop_last());
        lemma_insert_len(sort_by_offset(s.drop_last()), s.last());
    }
}

proof fn lemma_filter_none(s: Seq<Field>, p: spec_fn(Field) -> bool)
    requires
        forall|i: int| 0 <= i < s.len() ==> !p(#[trigger] s[i]),
    ensures
        s.filter(p).len() == 0,
    decreases s.len(),
{
    reveal(Seq::filter);
    if s.len() > 0 {
        lemma_filter_none(s.drop_last(), p);
        assert(!p(s[s.len() - 1]));
    }
}

/// A copy of an optional string, equal as text.
fn copy_opt_str(o: &Option<String>) -> (r: Option<String>)
    ensures
        opt_view(r) == opt_view(*o),
{
    match o {
        Some(s) => Some(s.clone()),
        None => None,
    }
}

/// The descriptions of `group` as text slices.
fn desc_slices(group: &Vec<Field>) -> (r: Vec<Option<&str>>)
    ensures
        opt_str_views(r@) == descs_of(group@),
{
    let mut out: Vec<Option<&str>> = Vec::new();
    let mut j: usize = 0;
    while j < group.len()
        invariant
            j <= group@.len(),
            opt_str_views(out@) == descs_of(group@).take(j as int),
        decreases group.len() - j,
    {
        let ghost before = out@;
        let d: Option<&str> = match &group[j].description {
            Some(d) => Some(d.as_str()),
            None => None,
        };
        assert(match d {
            Some(x) => Some(x@),
            None => None,
        } == opt_view(group@[j as int].description));
        out.push(d);
        proof {
            assert(descs_of(group@).take(j + 1) =~= descs_of(group@).take(j as int).push(
                opt_view(group@[j as int].description),
            ));
            assert(opt_str_views(out@) =~= opt_str_views(before).push(
                match d {
                    Some(x) => Some(x@),
                    None => None,
                },
            ));
        }
        j = j + 1;
    }
    assert(descs_of(group@).take(j as int) =~= descs_of(group@));
    out
}

/// The offsets of `group`.
fn offsets_vec(group: &Vec<Field>) -> (r: Vec<u32>)
    ensures
        r@ == offsets_of(group@),
{
    let mut offsets: Vec<u32> = Vec::new();
    let mut k: usize = 0;
    while k < group.len()
        invariant
            k <= group@.len(),
            offsets@ == offsets_of(group@).take(k as int),
        decreases group.len() - k,
    {
        offsets.push(group[k].bit_offset);
        k = k + 1;
        assert(offsets@ =~= offsets_of(group@).take(k as int));
    }
    assert(offsets@ =~= offsets_of(group@));
    offsets
}

/// What collecting the candidates of `s` into an array gives, as long as it
/// gets past the search for candidates: the array field, or `None` when one of
/// the later steps fails (see [`Register::collect_fields_in_array`]).
pub open spec fn array_outcome(s: Seq<char>, group: Seq<Field>, h: Seq<(YamlV, YamlV)>, newf: Field) -> bool {
    match spec_ind_spec(s) {
        None => false,
        Some((li, ri)) => match index_texts(group, li, ri, has_key(h, start_from_zero())) {
            None => false,
            Some(idx) => {
                let inc = dim_inc(group);
                let name_e = entry(h, seq!['n', 'a', 'm', 'e']);
                let desc_e = entry(h, seq!['d', 'e', 's', 'c', 'r', 'i', 'p', 't', 'i', 'o', 'n']);
                let name_t = match name_e {
                    Some(v) => str_of(v),
                    None => Some(array_name(s, li, ri)),
                };
                let desc_t = array_desc(desc_e, opt_view(group[0].description), descs_of(group), idx);
                &&& evenly_spaced(offsets_of(group), inc)
                &&& name_t is Some
                &&& desc_t is Some
                &&& arrayed(group[0], newf, name_t.unwrap(), desc_t.unwrap(), group.len() as u32, inc, idx)
            },
        },
    }
}

/// The text `_start_from_zero`.
pub open spec fn start_from_zero() -> Seq<char> {
    seq!['_', 's', 't', 'a', 'r', 't', '_', 'f', 'r', 'o', 'm', '_', 'z', 'e', 'r', 'o']
}

/// The step between the first two offsets of `group` (zero for one element).
pub open spec fn dim_inc(group: Seq<Field>) -> u32 {
    if group.len() > 1 {
        (group[1].bit_offset - group[0].bit_offset) as u32
    } else {
        0
    }
}

impl Register {
    /// Collect same fields in peripheral into register array
    #[verifier::loop_isolation(false)]
    pub fn collect_fields_in_array(&mut self, fspec: &str, fmod: &YamlHash) -> (r: Result<(), PatchError>)
        ensures
            ({
                let s = spec_parts(fspec@).0;
                let ignore = spec_parts(fspec@).1;
                let fs = fields_of(*old(self));
                let group = sort_by_offset(fs.filter(cand_pred(s)));
                let others = fs.filter(non_cand_pred(s));
                let h = fmod.view_pairs();
                &&& old(self).fields is None ==> r is Ok && *final(self) == *old(self)
                &&& old(self).fields is Some && !plain_names_compile(fs, s) ==> failed_with(
                    r,
                    PatchErrorKind::InvalidSpec,
                ) && *final(self) == *old(self)
                &&& old(self).fields is Some && plain_names_compile(fs, s) && group.len() == 0 ==> (
                r is Ok <==> ignore) && *final(self) == *old(self) && (r is Err ==> failed_with(
                    r,
                    PatchErrorKind::NotFound,
                ))
                &&& old(self).fields is Some && plain_names_compile(fs, s) && group.len() > 0 ==> {
                    &&& fields_replaced(*old(self), *final(self))
                    &&& r is Ok <==> exists|newf: Field| array_outcome(s, group, h, newf)
                    &&& r is Err ==> fields_of(*final(self)) == others
                    &&& r is Ok ==> exists|p: int| #![trigger fs[p]]
                        0 <= p < fs.len() && candidate(s, fs[p]) && (forall|k: int|
                            0 <= k < p ==> !candidate(s, #[trigger] fs[k])) && p <= others.len()
                            && fields_of(*final(self)) == others.insert(p, fields_of(*final(self))[p])
                            && array_outcome(s, group, h, fields_of(*final(self))[p])
                }
            }),
    {
        proof {
            reveal_strlit("_start_from_zero");
            reveal_strlit("name");
            reveal_strlit("description");
            reveal_strlit("_original");
            reveal_strlit("%s");
            assert("_start_from_zero"@ =~= start_from_zero());
            assert("name"@ =~= seq!['n', 'a', 'm', 'e']);
            assert("description"@ =~= seq!['d', 'e', 's', 'c', 'r', 'i', 'p', 't', 'i', 'o', 'n']);
            assert("_original"@ =~= original_marker());
            assert("%s"@ =~= pct_s());
        }
        let (fspec, ignore) = fspec.spec();
        let ghost fs = fields_of(*self);
        let ghost h = fmod.view_pairs();
        let flags = match &self.fields {
            None => {
                return Ok(());
            },
            Some(v) => match candidate_flags(v, fspec) {
                None => {
                    return Err(PatchError::InvalidSpec(copy_str(fspec)));
                },
                Some(f) => f,
            },
        };
        if first_flag(&flags).is_none() {
            proof {
                lemma_filter_none(fs, cand_pred(fspec@));
                lemma_sorted_len(fs.filter(cand_pred(fspec@)));
            }
            if ignore {
                return Ok(());
            }
            return Err(PatchError::NotFound(copy_str(fspec)));
        }
        let all = match self.fields.take() {
            Some(v) => v,
            None => Vec::new(),
        };
        let (cands, others, place) = split_candidates(all, &flags, Ghost(fspec@));
        let ghost ov = others@;
        let place = match place {
            Some(p) => p,
            None => {
                proof {
                    let j = choose|j: int| 0 <= j < flags@.len() && flags@[j];
                    broadcast use vstd::seq_lib::group_filter_ensures;
                    assert(fs.filter(cand_pred(fspec@)).contains(fs[j]));
                }
                self.fields = Some(others);
                return Err(PatchError::NotFound(copy_str(fspec)));
            },
        };
        proof {
            assert(cand_pred(fspec@)(fs[place as int]));
            broadcast use vstd::seq_lib::group_filter_ensures;
            assert(fs.filter(cand_pred(fspec@)).contains(fs[place as int]));
            lemma_sorted_len(fs.filter(cand_pred(fspec@)));
            lemma_prefix_not_cand(fs, fspec@, place as int);
        }
        let group = sort_fields(cands);
        let ghost g = group@;
        let (li, ri) = match spec_ind(fspec) {
            None => {
                self.fields = Some(others);
                return Err(PatchError::Invalid(copy_str(fspec)));
            },
            Some(x) => x,
        };
        let from_zero = fmod.get_yaml("_start_from_zero").is_some();
        let idx = match index_texts_of(&group, li, ri, from_zero) {
            None => {
                self.fields = Some(others);
                return Err(PatchError::Invalid(copy_str(fspec)));
            },
            Some(x) => x,
        };
        let dim = group.len();
        let offsets = offsets_vec(&group);
        let inc: u32 = if dim > 1 {
            group[1].bit_offset - group[0].bit_offset
        } else {
            0
        };
        assert(inc == dim_inc(g));
        if !check_offsets(offsets.as_slice(), inc) {
            self.fields = Some(others);
            return Err(PatchError::Invalid(copy_str(fspec)));
        }
        let name = match fmod.get_str("name") {
            Err(e) => {
                self.fields = Some(others);
                return Err(PatchError::Yaml(e));
            },
            Ok(Some(n)) => copy_str(n),
            Ok(None) => {
                let m = fspec.unicode_len();
                let mut n = copy_str(fspec.substring_char(0, li));
                n.append("%s");
                n.append(fspec.substring_char(m - ri, m));
                assert(n@ =~= array_name(fspec@, li as int, ri as int));
                n
            },
        };
        let desc: Option<String> = match fmod.get_str("description") {
            Err(e) => {
                self.fields = Some(others);
                return Err(PatchError::Yaml(e));
            },
            Ok(Some(d)) => if str_eq(d, "_original") {
                copy_opt_str(&group[0].description)
            } else {
                Some(copy_str(d))
            },
            Ok(None) => {
                let descs = desc_slices(&group);
                assert(opt_str_views(descs@).len() == descs@.len());
                assert(descs_of(group@).len() == group@.len());
                assert(descs@.len() > 0);
                match common_description(descs.as_slice(), idx.as_slice()) {
                    None => {
                        self.fields = Some(others);
                        return Err(PatchError::Invalid(copy_str(fspec)));
                    },
                    Some(d) => d,
                }
            },
        };
        let mut group = group;
        let mut first = group.swap_remove(0);
        first.name = name;
        first.description = desc;
        first.dim = Some(
            DimElement {
                dim: #[verifier::truncate] (dim as u32),
                dim_increment: inc,
                dim_index: Some(idx),
                dim_name: None,
            },
        );
        let ghost nf = first;
        assert(array_outcome(fspec@, g, h, nf));
        let mut out = others;
        out.insert(place, first);
        self.fields = Some(out);
        Ok(())
    }
}

proof fn lemma_prefix_not_cand(fs: Seq<Field>, spec: Seq<char>, p: int)
    requires
        0 <= p < fs.len(),
        forall|k: int| 0 <= k < p ==> !candidate(spec, #[trigger] fs[k]),
    ensures
        fs.filter(non_cand_pred(spec)).len() >= p,
    decreases fs.len(),
{
    reveal(Seq::filter);
    if p < fs.len() - 1 {
        lemma_prefix_not_cand(fs.drop_last(), spec, p);
    } else {
        lemma_keep_all(fs.take(p), non_cand_pred(spec));
        assert(fs.drop_last() =~= fs.take(p));
    }
}

proof fn lemma_keep_all(s: Seq<Field>, p: spec_fn(Field) -> bool)
    requires
        forall|i: int| 0 <= i < s.len() ==> p(#[trigger] s[i]),
    ensures
        s.filter(p) == s,
    decreases s.len(),
{
    reveal(Seq::filter);
    if s.len() > 0 {
        lemma_keep_all(s.drop_last(), p);
        assert(p(s[s.len() - 1]));
        assert(s.drop_last().push(s.last()) =~= s);
    }
}

} // verus!
