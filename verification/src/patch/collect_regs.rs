//! Collecting registers of a block into one register array.
use vstd::prelude::*;
use crate::model::{DimElement, Register, RegisterCluster, register_mask};
use crate::patch::arrays::{
    spec_ind, spec_ind_spec, check_offsets, evenly_spaced, common_description, opt_str_views, string_views,
};
use crate::patch::builders::BlockPath;
use crate::patch::collect::{array_desc, array_name, counting, has_key, original_marker, start_from_zero};
use crate::patch::error::{PatchError, PatchErrorKind, failed_with};
use crate::patch::field_edit::same_but_fields_ext;
use crate::patch::names::{try_matchname, name_matches, spec_compiles_for};
use crate::patch::register::pct_s;
use crate::patch::yaml::{YamlHash, YamlV};
use crate::patch::yaml_ext::{entry, parse_i64_spec, read_entry, str_of, YamlErrorV};
use crate::patch::{Config, Spec, spec_parts};
use crate::text::{copy_str, decimal, push_decimal, opt_view, str_eq};

use crate::patch::register_process::plain_register_rules;

verus! {

/// `rc` is a plain (not yet arrayed) register that `spec` selects.
pub open spec fn reg_candidate(spec: Seq<char>, rc: RegisterCluster) -> bool {
    rc matches RegisterCluster::Register(r) && r.dim is None && name_matches(r.name@, spec)
}

/// Every glob needed to test the plain registers of `cs` compiles.
pub open spec fn plain_regs_compile(cs: Seq<RegisterCluster>, spec: Seq<char>) -> bool {
    forall|i: int|
        0 <= i < cs.len() && (#[trigger] cs[i] matches RegisterCluster::Register(r) && r.dim is None)
            ==> spec_compiles_for(cs[i]->Register_0.name@, spec)
}

/// The test of whether a member is a candidate for `spec`.
pub open spec fn rcand_pred(spec: Seq<char>) -> spec_fn(RegisterCluster) -> bool {
    |rc: RegisterCluster| reg_candidate(spec, rc)
}

/// The test of whether a member is not a candidate for `spec`.
pub open spec fn non_rcand_pred(spec: Seq<char>) -> spec_fn(RegisterCluster) -> bool {
    |rc: RegisterCluster| !reg_candidate(spec, rc)
}

/// The registers that members are (members that are not registers give an
/// arbitrary value).
pub open spec fn regs_of(cs: Seq<RegisterCluster>) -> Seq<Register> {
    cs.map_values(|rc: RegisterCluster| rc->Register_0)
}

/// `s` with `r` put after every register whose offset does not exceed its
/// own.
pub open spec fn insert_reg(s: Seq<Register>, r: Register) -> Seq<Register>
    decreases s.len(),
{
    if s.len() == 0 {
        seq![r]
    } else if s.last().address_offset <= r.address_offset {
        s.push(r)
    } else {
        insert_reg(s.drop_last(), r).push(s.last())
    }
}

/// `s` ordered by address offset; registers with the same offset keep their
/// order.
pub open spec fn sort_regs(s: Seq<Register>) -> Seq<Register>
    decreases s.len(),
{
    if s.len() == 0 {
        s
    } else {
        insert_reg(sort_regs(s.drop_last()), s.last())
    }
}

/// The offsets of `s` never decrease.
pub open spec fn regs_sorted(s: Seq<Register>) -> bool {
    forall|i: int, j: int| 0 <= i <= j < s.len() ==> s[i].address_offset <= s[j].address_offset
}

proof fn lemma_insert_reg_at(s: Seq<Register>, r: Register, j: int)
    requires
        0 <= j <= s.len(),
        forall|k: int| j <= k < s.len() ==> s[k].address_offset > r.address_offset,
        j > 0 ==> s[j - 1].address_offset <= r.address_offset,
    ensures
        insert_reg(s, r) == s.insert(j, r),
    decreases s.len(),
{
    if s.len() == 0 {
        assert(s.insert(j, r) =~= seq![r]);
    } else if j == s.len() {
        assert(s.insert(j, r) =~= s.push(r));
    } else {
        lemma_insert_reg_at(s.drop_last(), r, j);
        assert(s.drop_last().insert(j, r).push(s.last()) =~= s.insert(j, r));
    }
}

proof fn lemma_insert_reg_sorted(s: Seq<Register>, r: Register, j: int)
    requires
        regs_sorted(s),
        0 <= j <= s.len(),
        forall|k: int| j <= k < s.len() ==> s[k].address_offset > r.address_offset,
        j > 0 ==> s[j - 1].address_offset <= r.address_offset,
    ensures
        regs_sorted(s.insert(j, r)),
{
    let t = s.insert(j, r);
    assert forall|a: int, b: int| 0 <= a <= b < t.len() implies t[a].address_offset <= t[b].address_offset by {
        if a < j && b > j {
            assert(t[a] == s[a] && t[b] == s[b - 1]);
        } else if a < j && b == j {
            assert(s[a].address_offset <= s[j - 1].address_offset);
        } else if a == j && b > j {
            assert(t[b] == s[b - 1]);
        } else if a > j {
            assert(t[a] == s[a - 1] && t[b] == s[b - 1]);
        }
    }
}

proof fn lemma_insert_reg_len(s: Seq<Register>, r: Register)
    ensures
        insert_reg(s, r).len() == s.len() + 1,
    decreases s.len(),
{
    if s.len() > 0 && s.last().address_offset > r.address_offset {
        lemma_insert_reg_len(s.drop_last(), r);
    }
}

proof fn lemma_sort_regs_len(s: Seq<Register>)
    ensures
        sort_regs(s).len() == s.len(),
    decreases s.len(),
{
    if s.len() > 0 {
        lemma_sort_regs_len(s.drop_last());
        lemma_insert_reg_len(sort_regs(s.drop_last()), s.last());
    }
}

/// Orders `v` by address offset, keeping the order of registers with equal
/// offsets.
pub fn sort_registers(v: Vec<Register>) -> (r: Vec<Register>)
    ensures
        r@ == sort_regs(v@),
        regs_sorted(r@),
{
    let mut v = v;
    let ghost orig = v@;
    let n = v.len();
    let mut out: Vec<Register> = Vec::new();
    let mut i: usize = 0;
    while i < n
        invariant
            n == orig.len(),
            i <= n,
            v@ == orig.skip(i as int),
            out@ == sort_regs(orig.take(i as int)),
            regs_sorted(out@),
        decreases n - i,
    {
        assert(v@[0] == orig[i as int]);
        let f = v.remove(0);
        let mut j = out.len();
        while j > 0 && out[j - 1].address_offset > f.address_offset
            invariant
                j <= out@.len(),
                forall|k: int| j <= k < out@.len() ==> out@[k].address_offset > f.address_offset,
            decreases j,
        {
            j = j - 1;
        }
        proof {
            lemma_insert_reg_at(out@, f, j as int);
            lemma_insert_reg_sorted(out@, f, j as int);
            assert(orig.take(i + 1).drop_last() =~= orig.take(i as int));
        }
        out.insert(j, f);
        i = i + 1;
        assert(v@ =~= orig.skip(i as int));
    }
    assert(orig.take(i as int) =~= orig);
    out
}

/// Which members of `cs` are candidates for `spec`; `None` when a glob does
/// not compile.
fn reg_candidate_flags(cs: &Vec<RegisterCluster>, spec: &str) -> (r: Option<Vec<bool>>)
    ensures
        r is None <==> !plain_regs_compile(cs@, spec@),
        r matches Some(v) ==> v@.len() == cs@.len() && forall|i: int|
            0 <= i < cs@.len() ==> v@[i] == reg_candidate(spec@, #[trigger] cs@[i]),
{
    let mut out: Vec<bool> = Vec::new();
    let mut i: usize = 0;
    while i < cs.len()
        invariant
            i <= cs@.len(),
            out@.len() == i,
            forall|j: int|
                0 <= j < i && (#[trigger] cs@[j] matches RegisterCluster::Register(r) && r.dim is None)
                    ==> spec_compiles_for(cs@[j]->Register_0.name@, spec@),
            forall|j: int| 0 <= j < i ==> out@[j] == reg_candidate(spec@, #[trigger] cs@[j]),
        decreases cs.len() - i,
    {
        match &cs[i] {
            RegisterCluster::Register(r) => {
                if r.dim.is_none() {
                    match try_matchname(r.name.as_str(), spec) {
                        None => {
                            return None;
                        },
                        Some(b) => {
                            out.push(b);
                        },
                    }
                } else {
                    out.push(false);
                }
            },
            RegisterCluster::Cluster(_) => {
                out.push(false);
            },
        }
        i = i + 1;
    }
    Some(out)
}

proof fn lemma_rc_empty_filter(s: Seq<RegisterCluster>, p: spec_fn(RegisterCluster) -> bool, k: int)
    requires
        s.filter(p).len() == 0,
        0 <= k < s.len(),
    ensures
        !p(s[k]),
{
    broadcast use vstd::seq_lib::group_filter_ensures;
    if p(s[k]) {
        assert(s.filter(p).contains(s[k]));
    }
}

/// The candidate registers taken out of `all`, the other members in their
/// order, and the position of the first candidate.
fn split_regs(all: Vec<RegisterCluster>, flags: &Vec<bool>, Ghost(spec): Ghost<Seq<char>>) -> (r: (
    Vec<Register>,
    Vec<RegisterCluster>,
    Option<usize>,
))
    requires
        flags@.len() == all@.len(),
        forall|i: int| 0 <= i < all@.len() ==> flags@[i] == reg_candidate(spec, #[trigger] all@[i]),
    ensures
        ({
            let (c, o, p) = r;
            &&& c@ == regs_of(all@.filter(rcand_pred(spec)))
            &&& o@ == all@.filter(non_rcand_pred(spec))
            &&& match p {
                None => c@.len() == 0,
                Some(pi) => pi < all@.len() && reg_candidate(spec, all@[pi as int]) && forall|k: int|
                    0 <= k < pi ==> !reg_candidate(spec, #[trigger] all@[k]),
            }
        }),
{
    let ghost orig = all@;
    let mut cs = all;
    let n = cs.len();
    let mut cands: Vec<Register> = Vec::new();
    let mut others: Vec<RegisterCluster> = Vec::new();
    let mut place: Option<usize> = None;
    let mut i: usize = 0;
    while i < n
        invariant
            n == orig.len(),
            flags@.len() == n,
            forall|k: int| 0 <= k < n ==> flags@[k] == reg_candidate(spec, #[trigger] orig[k]),
            i <= n,
            cs@ == orig.skip(i as int),
            cands@ == regs_of(orig.take(i as int).filter(rcand_pred(spec))),
            others@ == orig.take(i as int).filter(non_rcand_pred(spec)),
            match place {
                None => cands@.len() == 0,
                Some(pi) => pi < i && reg_candidate(spec, orig[pi as int]) && forall|k: int|
                    0 <= k < pi ==> !reg_candidate(spec, #[trigger] orig[k]),
            },
        decreases n - i,
    {
        assert(cs@[0] == orig[i as int]);
        let rc = cs.remove(0);
        proof {
            orig.take(i as int).lemma_filter_push(orig[i as int], rcand_pred(spec));
            orig.take(i as int).lemma_filter_push(orig[i as int], non_rcand_pred(spec));
            assert(orig.take(i + 1) =~= orig.take(i as int).push(orig[i as int]));
            assert(flags@[i as int] == reg_candidate(spec, orig[i as int]));
            if place is None {
                assert forall|k: int| 0 <= k < i implies !reg_candidate(spec, #[trigger] orig[k]) by {
                    lemma_rc_empty_filter(orig.take(i as int), rcand_pred(spec), k);
                }
            }
        }
        if flags[i] {
            match rc {
                RegisterCluster::Register(r) => {
                    let ghost before = cands@;
                    cands.push(r);
                    assert(cands@ =~= regs_of(orig.take(i + 1).filter(rcand_pred(spec))));
                },
                RegisterCluster::Cluster(_) => {},
            }
            if place.is_none() {
                place = Some(i);
            }
        } else {
            others.push(rc);
        }
        i = i + 1;
        assert(cs@ =~= orig.skip(i as int));
    }
    assert(orig.take(i as int) =~= orig);
    (cands, others, place)
}

/// The index texts of an array built from `group` (see
/// [`crate::patch::collect::index_texts`]).
pub open spec fn reg_index_texts(group: Seq<Register>, li: int, ri: int, from_zero: bool) -> Option<Seq<Seq<char>>> {
    if from_zero {
        Some(counting(group.len()))
    } else if forall|k: int| 0 <= k < group.len() ==> li + ri <= #[trigger] group[k].name@.len() {
        Some(group.map_values(|r: Register| r.name@.subrange(li, r.name@.len() - ri)))
    } else {
        None
    }
}

/// The offsets of `s`.
pub open spec fn reg_offsets(s: Seq<Register>) -> Seq<u32> {
    s.map_values(|r: Register| r.address_offset)
}

/// The descriptions of `s`.
pub open spec fn reg_descs(s: Seq<Register>) -> Seq<Option<Seq<char>>> {
    s.map_values(|r: Register| opt_view(r.description))
}

/// The display names of `s`.
pub open spec fn reg_display_names(s: Seq<Register>) -> Seq<Option<Seq<char>>> {
    s.map_values(|r: Register| opt_view(r.display_name))
}

/// The text `dimIncrement`.
pub open spec fn k_dim_increment() -> Seq<char> {
    seq!['d', 'i', 'm', 'I', 'n', 'c', 'r', 'e', 'm', 'e', 'n', 't']
}

/// The text `displayName`.
pub open spec fn k_display_name() -> Seq<char> {
    seq!['d', 'i', 's', 'p', 'l', 'a', 'y', 'N', 'a', 'm', 'e']
}

/// The step between the elements of an array built from `group`: that of
/// the first two offsets; for one register, `dimIncrement` of the rule, else
/// a size in bytes, else zero.
pub open spec fn reg_dim_inc(group: Seq<Register>, h: Seq<(YamlV, YamlV)>) -> Result<u32, YamlErrorV> {
    if group.len() > 1 {
        Ok((group[1].address_offset - group[0].address_offset) as u32)
    } else {
        match read_entry(
            entry(h, k_dim_increment()),
            |v: YamlV|
                match parse_i64_spec(v) {
                    Some(i) => Some(i as u32),
                    None => None,
                },
            |v: YamlV| YamlErrorV::NotInt(v),
        ) {
            Err(e) => Err(e),
            Ok(Some(v)) => Ok(v),
            Ok(None) => Ok(
                match group[0].properties.size {
                    Some(sz) => sz / 8,
                    None => 0,
                },
            ),
        }
    }
}

/// Every register of `group` covers the same bits, and their computation
/// does not overflow.
pub open spec fn same_masks(group: Seq<Register>) -> bool {
    forall|k: int| 0 <= k < group.len() ==> #[trigger] register_mask(group[k]) is Some && register_mask(group[k])
        == register_mask(group[0])
}

/// `arr` is `first` made into the array named `name`, with the description
/// `desc` and display name `dname`, `dim` elements `inc` apart and the index
/// texts `idx`.
pub open spec fn reg_arrayed(
    first: Register,
    arr: Register,
    name: Seq<char>,
    desc: Option<Seq<char>>,
    dname: Option<Seq<char>>,
    dim: u32,
    inc: u32,
    idx: Seq<Seq<char>>,
) -> bool {
    &&& arr == Register {
        name: arr.name,
        description: arr.description,
        display_name: arr.display_name,
        dim: arr.dim,
        ..first
    }
    &&& arr.name@ == name
    &&& opt_view(arr.description) == desc
    &&& opt_view(arr.display_name) == dname
    &&& arr.dim is Some
    &&& arr.dim.unwrap().dim == dim
    &&& arr.dim.unwrap().dim_increment == inc
    &&& arr.dim.unwrap().dim_name is None
    &&& arr.dim.unwrap().dim_index is Some
    &&& string_views(arr.dim.unwrap().dim_index.unwrap()@) == idx
}

/// The array register that the rule `h` builds from `group`, the candidates
/// of `s` in offset order, before it is processed; false of every register
/// where one of the steps fails.
pub open spec fn reg_array_built(s: Seq<char>, group: Seq<Register>, h: Seq<(YamlV, YamlV)>, arr: Register) -> bool {
    match spec_ind_spec(s) {
        None => false,
        Some((li, ri)) => match reg_index_texts(group, li, ri, has_key(h, start_from_zero())) {
            None => false,
            Some(idx) => match reg_dim_inc(group, h) {
                Err(_) => false,
                Ok(inc) => {
                    let name_e = entry(h, seq!['n', 'a', 'm', 'e']);
                    let desc_e = entry(h, seq!['d', 'e', 's', 'c', 'r', 'i', 'p', 't', 'i', 'o', 'n']);
                    let dname_e = entry(h, k_display_name());
                    let name_t = match name_e {
                        Some(v) => str_of(v),
                        None => Some(array_name(s, li, ri)),
                    };
                    let desc_t = array_desc(desc_e, opt_view(group[0].description), reg_descs(group), idx);
                    let dname_t = array_desc(
                        dname_e,
                        opt_view(group[0].display_name),
                        reg_display_names(group),
                        idx,
                    );
                    &&& inc != 0
                    &&& evenly_spaced(reg_offsets(group), inc)
                    &&& same_masks(group)
                    &&& name_t is Some
                    &&& desc_t is Some
                    &&& dname_t is Some
                    &&& reg_arrayed(
                        group[0],
                        arr,
                        name_t.unwrap(),
                        desc_t.unwrap(),
                        dname_t.unwrap(),
                        group.len() as u32,
                        inc,
                        idx,
                    )
                },
            },
        },
    }
}

/// `t` is the name of `r` without `li` leading and `ri` trailing characters.
pub open spec fn reg_index_of_name(r: Register, li: int, ri: int, t: Seq<char>) -> bool {
    li + ri <= r.name@.len() && t == r.name@.subrange(li, r.name@.len() - ri)
}

/// The index texts of `group` (see [`reg_index_texts`]).
fn reg_index_texts_of(group: &Vec<Register>, li: usize, ri: usize, from_zero: bool) -> (r: Option<Vec<String>>)
    ensures
        match (r, reg_index_texts(group@, li as int, ri as int, from_zero)) {
            (Some(v), Some(t)) => string_views(v@) == t,
            (None, None) => true,
            _ => false,
        },
        r matches Some(v) ==> v@.len() == group@.len(),
{
    let mut out: Vec<String> = Vec::new();
    let n = group.len();
    let mut i: usize = 0;
    while i < n
        invariant
            n == group@.len(),
            i <= n,
            out@.len() == i,
            from_zero ==> forall|k: int| 0 <= k < i ==> #[trigger] out@[k]@ == decimal(k as nat),
            !from_zero ==> forall|k: int|
                0 <= k < i ==> reg_index_of_name(#[trigger] group@[k], li as int, ri as int, out@[k]@),
        decreases n - i,
    {
        if from_zero {
            let mut t = String::new();
            push_decimal(&mut t, i as u64);
            out.push(t);
        } else {
            let name = group[i].name.as_str();
            let m = name.unicode_len();
            if m < li || m - li < ri {
                assert(!(li + ri <= group@[i as int].name@.len()));
                return None;
            }
            let t = copy_str(name.substring_char(li, m - ri));
            assert(reg_index_of_name(group@[i as int], li as int, ri as int, t@));
            out.push(t);
        }
        i = i + 1;
    }
    proof {
        if from_zero {
            assert(string_views(out@) =~= counting(group@.len()));
        } else {
            assert(string_views(out@) =~= group@.map_values(
                |r: Register| r.name@.subrange(li as int, r.name@.len() - ri),
            ));
        }
    }
    Some(out)
}

/// The offsets of `group`.
pub fn reg_offsets_vec(group: &Vec<Register>) -> (r: Vec<u32>)
    ensures
        r@ == reg_offsets(group@),
{
    let mut offsets: Vec<u32> = Vec::new();
    let mut k: usize = 0;
    while k < group.len()
        invariant
            k <= group@.len(),
            offsets@ == reg_offsets(group@).take(k as int),
        decreases group.len() - k,
    {
        offsets.push(group[k].address_offset);
        k = k + 1;
        assert(offsets@ =~= reg_offsets(group@).take(k as int));
    }
    assert(offsets@ =~= reg_offsets(group@));
    offsets
}

/// The descriptions (or, when `display`, the display names) of `group` as
/// text slices.
fn reg_text_slices(group: &Vec<Register>, display: bool) -> (r: Vec<Option<&str>>)
    ensures
        opt_str_views(r@) == if display { reg_display_names(group@) } else { reg_descs(group@) },
{
    let ghost want = if display { reg_display_names(group@) } else { reg_descs(group@) };
    let mut out: Vec<Option<&str>> = Vec::new();
    let mut j: usize = 0;
    while j < group.len()
        invariant
            j <= group@.len(),
            want == if display { reg_display_names(group@) } else { reg_descs(group@) },
            opt_str_views(out@) == want.take(j as int),
        decreases group.len() - j,
    {
        let ghost before = out@;
        let o = if display { &group[j].display_name } else { &group[j].description };
        let d: Option<&str> = match o {
            Some(d) => Some(d.as_str()),
            None => None,
        };
        assert(match d {
            Some(x) => Some(x@),
            None => None,
        } == want[j as int]);
        out.push(d);
        proof {
            assert(want.take(j + 1) =~= want.take(j as int).push(want[j as int]));
            assert(opt_str_views(out@) =~= opt_str_views(before).push(
                match d {
                    Some(x) => Some(x@),
                    None => None,
                },
            ));
        }
        j = j + 1;
    }
    assert(want.take(j as int) =~= want);
    out
}

/// Whether every register of `group` covers the same bits (see
/// [`same_masks`]).
pub fn masks_agree(group: &Vec<Register>) -> (r: bool)
    requires
        group@.len() > 0,
    ensures
        r == same_masks(group@),
{
    let first = group[0].bitmask();
    if first.is_none() {
        return false;
    }
    let mut k: usize = 0;
    while k < group.len()
        invariant
            k <= group@.len(),
            first == register_mask(group@[0]),
            first is Some,
            forall|j: int| 0 <= j < k ==> #[trigger] register_mask(group@[j]) == first,
        decreases group.len() - k,
    {
        let m = group[k].bitmask();
        if m != first {
            return false;
        }
        k = k + 1;
    }
    true
}

proof fn lemma_rc_filter_none(s: Seq<RegisterCluster>, p: spec_fn(RegisterCluster) -> bool)
    requires
        forall|i: int| 0 <= i < s.len() ==> !p(#[trigger] s[i]),
    ensures
        s.filter(p).len() == 0,
    decreases s.len(),
{
    reveal(Seq::filter);
    if s.len() > 0 {
        lemma_rc_filter_none(s.drop_last(), p);
        assert(!p(s[s.len() - 1]));
    }
}

proof fn lemma_rc_keep_all(s: Seq<RegisterCluster>, p: spec_fn(RegisterCluster) -> bool)
    requires
        forall|i: int| 0 <= i < s.len() ==> p(#[trigger] s[i]),
    ensures
        s.filter(p) == s,
    decreases s.len(),
{
    reveal(Seq::filter);
    if s.len() > 0 {
        lemma_rc_keep_all(s.drop_last(), p);
        assert(p(s[s.len() - 1]));
        assert(s.drop_last().push(s.last()) =~= s);
    }
}

proof fn lemma_rc_prefix_not_cand(cs: Seq<RegisterCluster>, spec: Seq<char>, p: int)
    requires
        0 <= p < cs.len(),
        forall|k: int| 0 <= k < p ==> !reg_candidate(spec, #[trigger] cs[k]),
    ensures
        cs.filter(non_rcand_pred(spec)).len() >= p,
    decreases cs.len(),
{
    reveal(Seq::filter);
    if p < cs.len() - 1 {
        lemma_rc_prefix_not_cand(cs.drop_last(), spec, p);
    } else {
        lemma_rc_keep_all(cs.take(p), non_rcand_pred(spec));
        assert(cs.drop_last() =~= cs.take(p));
    }
}

/// What collecting the registers that `rspec` selects out of `cs` as the
/// rule `h` says gives: `after` with the outcome `r`. The candidates leave;
/// when the array cannot be built, or processing it fails, they stay out.
pub open spec fn collected(cs: Seq<RegisterCluster>, rspec: Seq<char>, h: Seq<(YamlV, YamlV)>, r: Result<(), PatchError>, after: Seq<RegisterCluster>) -> bool {
    let s = spec_parts(rspec).0;
    let ignore = spec_parts(rspec).1;
    let group = sort_regs(regs_of(cs.filter(rcand_pred(s))));
    let others = cs.filter(non_rcand_pred(s));
    if !plain_regs_compile(cs, s) {
        failed_with(r, PatchErrorKind::InvalidSpec) && after == cs
    } else if group.len() == 0 {
        (r is Ok <==> ignore) && after == cs && (r is Err ==> failed_with(r, PatchErrorKind::NotFound))
    } else {
        &&& (forall|arr: Register| !reg_array_built(s, group, h, arr)) ==> r is Err
        &&& plain_register_rules(h) && (exists|arr: Register| reg_array_built(s, group, h, arr)) ==> r is Ok
        &&& r is Err ==> after == others
        &&& r is Ok ==> exists|p: int, arr: Register| #![trigger cs[p], reg_array_built(s, group, h, arr)]
            0 <= p < cs.len() && reg_candidate(s, cs[p]) && (forall|k: int|
                0 <= k < p ==> !reg_candidate(s, #[trigger] cs[k])) && p <= others.len() && after
                == others.insert(p, after[p]) && reg_array_built(s, group, h, arr) && (after[p] matches RegisterCluster::Register(nr)
                && same_but_fields_ext(arr, nr))
    }
}

/// Collect same registers in peripheral into register array
#[verifier::loop_isolation(false)]
pub fn collect_in_array(
    regs: &mut Vec<RegisterCluster>,
    path: &BlockPath,
    rspec: &str,
    rmod: &YamlHash,
    config: &Config,
) -> (r: Result<(), PatchError>)
    ensures
        collected(old(regs)@, rspec@, rmod.view_pairs(), r, final(regs)@),
{
    proof {
        reveal_strlit("_start_from_zero");
        reveal_strlit("name");
        reveal_strlit("description");
        reveal_strlit("displayName");
        reveal_strlit("dimIncrement");
        reveal_strlit("_original");
        reveal_strlit("%s");
        assert("_start_from_zero"@ =~= start_from_zero());
        assert("name"@ =~= seq!['n', 'a', 'm', 'e']);
        assert("description"@ =~= seq!['d', 'e', 's', 'c', 'r', 'i', 'p', 't', 'i', 'o', 'n']);
        assert("displayName"@ =~= k_display_name());
        assert("dimIncrement"@ =~= k_dim_increment());
        assert("_original"@ =~= original_marker());
        assert("%s"@ =~= pct_s());
    }
    let ghost cs = regs@;
    let ghost h = rmod.view_pairs();
    let (rspec, ignore) = rspec.spec();
    let flags = match reg_candidate_flags(regs, rspec) {
        None => {
            return Err(PatchError::InvalidSpec(copy_str(rspec)));
        },
        Some(f) => f,
    };
    if crate::patch::register::first_flag(&flags).is_none() {
        proof {
            lemma_rc_filter_none(cs, rcand_pred(rspec@));
            lemma_sort_regs_len(regs_of(cs.filter(rcand_pred(rspec@))));
        }
        if ignore {
            return Ok(());
        }
        return Err(PatchError::NotFound(copy_str(rspec)));
    }
    let mut all: Vec<RegisterCluster> = Vec::new();
    std::mem::swap(&mut all, regs);
    let (cands, others, place) = split_regs(all, &flags, Ghost(rspec@));
    let place = match place {
        Some(p) => p,
        None => {
            proof {
                let j = choose|j: int| 0 <= j < flags@.len() && flags@[j];
                broadcast use vstd::seq_lib::group_filter_ensures;
                assert(cs.filter(rcand_pred(rspec@)).contains(cs[j]));
            }
            *regs = others;
            return Err(PatchError::NotFound(copy_str(rspec)));
        },
    };
    proof {
        broadcast use vstd::seq_lib::group_filter_ensures;
        assert(rcand_pred(rspec@)(cs[place as int]));
        assert(cs.filter(rcand_pred(rspec@)).contains(cs[place as int]));
        lemma_sort_regs_len(regs_of(cs.filter(rcand_pred(rspec@))));
        lemma_rc_prefix_not_cand(cs, rspec@, place as int);
    }
    let group = sort_registers(cands);
    let ghost g = group@;
    let (li, ri) = match spec_ind(rspec) {
        None => {
            *regs = others;
            return Err(PatchError::Invalid(copy_str(rspec)));
        },
        Some(x) => x,
    };
    let from_zero = rmod.get_yaml("_start_from_zero").is_some();
    let idx = match reg_index_texts_of(&group, li, ri, from_zero) {
        None => {
            *regs = others;
            return Err(PatchError::Invalid(copy_str(rspec)));
        },
        Some(x) => x,
    };
    let dim = group.len();
    let inc: u32 = if dim > 1 {
        group[1].address_offset - group[0].address_offset
    } else {
        match rmod.get_u32("dimIncrement") {
            Err(e) => {
                *regs = others;
                return Err(PatchError::Yaml(e));
            },
            Ok(Some(v)) => v,
            Ok(None) => match group[0].properties.size {
                Some(sz) => sz / 8,
                None => 0,
            },
        }
    };
    assert(reg_dim_inc(g, h) == Ok::<u32, YamlErrorV>(inc));
    if inc == 0 {
        *regs = others;
        return Err(PatchError::Invalid(copy_str(rspec)));
    }
    let offsets = reg_offsets_vec(&group);
    if !check_offsets(offsets.as_slice(), inc) {
        *regs = others;
        return Err(PatchError::Invalid(copy_str(rspec)));
    }
    if !masks_agree(&group) {
        *regs = others;
        return Err(PatchError::Invalid(copy_str(rspec)));
    }
    let name = match rmod.get_str("name") {
        Err(e) => {
            *regs = others;
            return Err(PatchError::Yaml(e));
        },
        Ok(Some(n)) => copy_str(n),
        Ok(None) => {
            let m = rspec.unicode_len();
            let mut n = copy_str(rspec.substring_char(0, li));
            n.append("%s");
            n.append(rspec.substring_char(m - ri, m));
            assert(n@ =~= array_name(rspec@, li as int, ri as int));
            n
        },
    };
    let desc = match array_text(&group, &idx, rmod, false) {
        Err(e) => {
            *regs = others;
            return Err(e);
        },
        Ok(d) => d,
    };
    let dname = match array_text(&group, &idx, rmod, true) {
        Err(e) => {
            *regs = others;
            return Err(e);
        },
        Ok(d) => d,
    };
    let mut group = group;
    let mut first = group.swap_remove(0);
    first.name = name;
    first.description = desc;
    first.display_name = dname;
    first.dim = Some(
        DimElement {
            dim: #[verifier::truncate] (dim as u32),
            dim_increment: inc,
            dim_index: Some(idx),
            dim_name: None,
        },
    );
    let ghost arr = first;
    assert(reg_array_built(rspec@, g, h, arr));
    let cfg = Config {
        show_patch_on_error: config.show_patch_on_error,
        enum_derive: config.enum_derive,
        update_fields: true,
    };
    match first.process(rmod, path, &cfg) {
        Err(e) => {
            *regs = others;
            return Err(e);
        },
        Ok(()) => {},
    }
    let mut out = others;
    out.insert(place, RegisterCluster::Register(first));
    *regs = out;
    Ok(())
}

/// The description (or, when `display`, the display name) of the array built
/// from `group` (see [`array_desc`]).
fn array_text(group: &Vec<Register>, idx: &Vec<String>, rmod: &YamlHash, display: bool) -> (r: Result<Option<String>, PatchError>)
    requires
        group@.len() > 0,
        idx@.len() == group@.len(),
    ensures
        ({
            let key = if display { k_display_name() } else { seq!['d', 'e', 's', 'c', 'r', 'i', 'p', 't', 'i', 'o', 'n'] };
            let first = if display { opt_view(group@[0].display_name) } else { opt_view(group@[0].description) };
            let all = if display { reg_display_names(group@) } else { reg_descs(group@) };
            match array_desc(entry(rmod.view_pairs(), key), first, all, string_views(idx@)) {
                Some(d) => r matches Ok(x) && opt_view(x) == d,
                None => r is Err,
            }
        }),
{
    proof {
        reveal_strlit("description");
        reveal_strlit("displayName");
        reveal_strlit("_original");
        assert("description"@ =~= seq!['d', 'e', 's', 'c', 'r', 'i', 'p', 't', 'i', 'o', 'n']);
        assert("displayName"@ =~= k_display_name());
        assert("_original"@ =~= original_marker());
    }
    let got = if display { rmod.get_str("displayName") } else { rmod.get_str("description") };
    match got {
        Err(e) => Err(PatchError::Yaml(e)),
        Ok(Some(d)) => if str_eq(d, "_original") {
            let o = if display { &group[0].display_name } else { &group[0].description };
            Ok(
                match o {
                    Some(x) => Some(x.clone()),
                    None => None,
                },
            )
        } else {
            Ok(Some(copy_str(d)))
        },
        Ok(None) => {
            let texts = reg_text_slices(group, display);
            assert(opt_str_views(texts@).len() == texts@.len());
            assert(reg_descs(group@).len() == group@.len());
            assert(reg_display_names(group@).len() == group@.len());
            match common_description(texts.as_slice(), idx.as_slice()) {
                None => Err(PatchError::Invalid(String::new())),
                Some(d) => Ok(d),
            }
        },
    }
}

} // verus!
