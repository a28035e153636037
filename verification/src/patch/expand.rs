//! The rules that turn a register array, or a cluster array, into its
//! single elements.
use vstd::prelude::*;
use crate::model::{Cluster, DimElement, Register, RegisterCluster};
use crate::patch::block::{Kinds, kind_compiles, keep_kind, rc_name, remove_selected};
use crate::patch::block_edit::select_flags;
use crate::patch::duplicate::{reg_same, rc_same, dup_register, dup_cluster};
use crate::patch::block_edit::rc_offset;
use crate::patch::{Spec, spec_parts};
use crate::patch::error::{PatchError, PatchErrorKind, failed_with};
use crate::patch::names::{name_matches, spec_compiles_for, try_matchname};
use crate::text::{chars_of, copy_str, decimal, matches_at, occurs_at, opt_view, push_decimal, replace_all, replace_str};

verus! {

/// The text of index `i` of the array `d`: its `dimIndex` entry, or the
/// number itself.
pub open spec fn index_text(d: DimElement, i: int) -> Seq<char> {
    match d.dim_index {
        Some(v) => v@[i]@,
        None => decimal(i as nat),
    }
}

/// `s` with `[%s]`, then `%s`, replaced by the index text `idx`.
pub open spec fn subst(s: Seq<char>, idx: Seq<char>) -> Seq<char> {
    replace_all(replace_all(s, seq!['[', '%', 's', ']'], idx), seq!['%', 's'], idx)
}

/// An optional text with the index text `idx` filled in.
pub open spec fn opt_subst(s: Option<Seq<char>>, idx: Seq<char>) -> Option<Seq<char>> {
    match s {
        Some(t) => Some(subst(t, idx)),
        None => None,
    }
}

/// `s` with `[%s]`, then `%s`, replaced by `idx`.
pub fn subst_str(s: &str, idx: &str) -> (r: String)
    ensures
        r@ == subst(s@, idx@),
{
    proof {
        reveal_strlit("[%s]");
        reveal_strlit("%s");
        assert("[%s]"@ =~= seq!['[', '%', 's', ']']);
        assert("%s"@ =~= seq!['%', 's']);
    }
    let t = replace_str(s, "[%s]", idx);
    replace_str(t.as_str(), "%s", idx)
}

fn opt_subst_str(s: &Option<String>, idx: &str) -> (r: Option<String>)
    ensures
        opt_view(r) == opt_subst(opt_view(*s), idx@),
{
    match s {
        Some(t) => Some(subst_str(t.as_str(), idx)),
        None => None,
    }
}

/// Every element of the array `d` of register `r` can be made: the index
/// list, when given, has an entry for each, and every offset fits in 32
/// bits.
pub open spec fn elements_fit(r: Register, d: DimElement) -> bool {
    &&& d.dim_index matches Some(v) ==> v@.len() >= d.dim
    &&& d.dim > 0 ==> r.address_offset + (d.dim - 1) * d.dim_increment <= u32::MAX
}

/// `e` is element `i` of the register array `r` with description `d`: a
/// single register with the index filled into its name, description and
/// display name, at offset `i` steps from the array's.
pub open spec fn array_element(r: Register, d: DimElement, i: int, e: Register) -> bool {
    let idx = index_text(d, i);
    exists|c: Register|
        #![trigger reg_same(c, r)]
        {
            &&& reg_same(c, r)
            &&& e == Register {
                name: e.name,
                description: e.description,
                display_name: e.display_name,
                address_offset: e.address_offset,
                dim: None,
                ..c
            }
            &&& e.name@ == subst(r.name@, idx)
            &&& opt_view(e.description) == opt_subst(opt_view(r.description), idx)
            &&& opt_view(e.display_name) == opt_subst(opt_view(r.display_name), idx)
            &&& e.address_offset == r.address_offset + i * d.dim_increment
        }
}

/// Element `i` of the register array `r` with description `d`.
fn element_of(r: &Register, d: &DimElement, i: u32) -> (e: Register)
    requires
        i < d.dim,
        elements_fit(*r, *d),
    ensures
        array_element(*r, *d, i as int, e),
{
    let idx: String = match &d.dim_index {
        Some(v) => v[i as usize].clone(),
        None => {
            let mut s = String::new();
            push_decimal(&mut s, i as u64);
            s
        },
    };
    assert(idx@ == index_text(*d, i as int));
    proof {
        assert(i * d.dim_increment <= (d.dim - 1) * d.dim_increment) by (nonlinear_arith)
            requires
                i < d.dim,
        ;
    }
    let mut e = dup_register(r);
    let ghost c = e;
    e.name = subst_str(r.name.as_str(), idx.as_str());
    e.description = opt_subst_str(&r.description, idx.as_str());
    e.display_name = opt_subst_str(&r.display_name, idx.as_str());
    e.address_offset = r.address_offset + i * d.dim_increment;
    e.dim = None;
    assert(reg_same(c, *r));
    e
}

/// Member `m` is a register array whose name `rspec` selects.
pub open spec fn expands(rspec: Seq<char>, m: RegisterCluster) -> bool {
    m matches RegisterCluster::Register(r) && r.dim is Some && name_matches(r.name@, rspec)
}

/// `o` is the members `a` with every register array that `rspec` selects
/// replaced by its elements, in order.
pub open spec fn expansion(a: Seq<RegisterCluster>, rspec: Seq<char>, o: Seq<RegisterCluster>) -> bool
    decreases a.len(),
{
    if a.len() == 0 {
        o.len() == 0
    } else {
        let m = a.last();
        if expands(rspec, m) {
            let r = m->Register_0;
            let d = r.dim->Some_0;
            let k = d.dim as int;
            &&& o.len() >= k
            &&& expansion(a.drop_last(), rspec, o.take(o.len() - k))
            &&& forall|i: int|
                0 <= i < k ==> (#[trigger] o[o.len() - k + i]) is Register && array_element(
                    r,
                    d,
                    i,
                    o[o.len() - k + i]->Register_0,
                )
        } else {
            &&& o.len() >= 1
            &&& o.last() == m
            &&& expansion(a.drop_last(), rspec, o.drop_last())
        }
    }
}

/// Every glob needed to match the names of the register arrays among `a`
/// against `rspec` compiles.
pub open spec fn arrays_compile(a: Seq<RegisterCluster>, rspec: Seq<char>) -> bool {
    forall|i: int|
        0 <= i < a.len() && (#[trigger] a[i] matches RegisterCluster::Register(r) && r.dim is Some)
            ==> spec_compiles_for(a[i]->Register_0.name@, rspec)
}

/// Some register array among `a` is selected by `rspec`.
pub open spec fn any_expands(a: Seq<RegisterCluster>, rspec: Seq<char>) -> bool {
    exists|i: int| 0 <= i < a.len() && #[trigger] expands(rspec, a[i])
}

/// Every selected register array among `a` can be split.
pub open spec fn all_fit(a: Seq<RegisterCluster>, rspec: Seq<char>) -> bool {
    forall|i: int|
        0 <= i < a.len() && #[trigger] expands(rspec, a[i]) ==> elements_fit(
            a[i]->Register_0,
            (a[i]->Register_0).dim->Some_0,
        )
}

/// Whether member `m` is a register array that `rspec` selects; `None` when
/// the glob does not compile.
fn test_expands(m: &RegisterCluster, rspec: &str) -> (r: Option<bool>)
    ensures
        (m matches RegisterCluster::Register(x) && x.dim is Some) ==> (r is None <==> !spec_compiles_for(
            m->Register_0.name@,
            rspec@,
        )),
        !(m matches RegisterCluster::Register(x) && x.dim is Some) ==> r == Some(false),
        r matches Some(b) ==> b == expands(rspec@, *m),
{
    match m {
        RegisterCluster::Register(x) => match &x.dim {
            Some(_) => try_matchname(x.name.as_str(), rspec),
            None => Some(false),
        },
        RegisterCluster::Cluster(_) => Some(false),
    }
}

/// Whether the elements of the register array `m` can be made.
fn test_fit(m: &RegisterCluster) -> (r: bool)
    requires
        m matches RegisterCluster::Register(x) && x.dim is Some,
    ensures
        r == elements_fit(m->Register_0, (m->Register_0).dim->Some_0),
{
    match m {
        RegisterCluster::Register(x) => match &x.dim {
            Some(d) => {
                let ix_ok = match &d.dim_index {
                    Some(v) => v.len() >= d.dim as usize,
                    None => true,
                };
                let off_ok = if d.dim == 0 {
                    true
                } else {
                    let steps = (d.dim - 1) as u64;
                    let inc = d.dim_increment as u64;
                    assert(steps * inc <= 0xffff_ffffu64 * 0xffff_ffffu64) by (nonlinear_arith)
                        requires
                            steps <= 0xffff_ffffu64,
                            inc <= 0xffff_ffffu64,
                    ;
                    (x.address_offset as u64) + steps * inc <= 0xffff_ffffu64
                };
                ix_ok && off_ok
            },
            None => false,
        },
        RegisterCluster::Cluster(_) => false,
    }
}

/// Replaces every register array of the block that `rspec` selects by its
/// single elements.
pub fn expand_array_in(cs: &mut Vec<RegisterCluster>, rspec: &str) -> (r: Result<(), PatchError>)
    ensures
        !arrays_compile(old(cs)@, rspec@) ==> failed_with(r, PatchErrorKind::InvalidSpec) && final(cs)@ == old(cs)@,
        arrays_compile(old(cs)@, rspec@) && !any_expands(old(cs)@, rspec@) ==> failed_with(
            r,
            PatchErrorKind::NotFound,
        ) && final(cs)@ == old(cs)@,
        arrays_compile(old(cs)@, rspec@) && any_expands(old(cs)@, rspec@) && !all_fit(old(cs)@, rspec@)
            ==> failed_with(r, PatchErrorKind::Invalid) && final(cs)@ == old(cs)@,
        arrays_compile(old(cs)@, rspec@) && any_expands(old(cs)@, rspec@) && all_fit(old(cs)@, rspec@) ==> r is Ok
            && expansion(old(cs)@, rspec@, final(cs)@),
{
    let ghost a = cs@;
    let n = cs.len();
    let mut found = false;
    let mut fit = true;
    let mut i: usize = 0;
    while i < n
        invariant
            n == a.len(),
            cs@ == a,
            i <= n,
            forall|j: int|
                0 <= j < i && (#[trigger] a[j] matches RegisterCluster::Register(r) && r.dim is Some)
                    ==> spec_compiles_for(a[j]->Register_0.name@, rspec@),
            found <==> exists|j: int| 0 <= j < i && #[trigger] expands(rspec@, a[j]),
            fit <==> forall|j: int|
                0 <= j < i && #[trigger] expands(rspec@, a[j]) ==> elements_fit(
                    a[j]->Register_0,
                    (a[j]->Register_0).dim->Some_0,
                ),
        decreases n - i,
    {
        match test_expands(&cs[i], rspec) {
            None => {
                assert(!arrays_compile(a, rspec@));
                return Err(PatchError::InvalidSpec(copy_str(rspec)));
            },
            Some(true) => {
                assert(expands(rspec@, a[i as int]));
                found = true;
                if !test_fit(&cs[i]) {
                    fit = false;
                }
            },
            Some(false) => {},
        }
        i = i + 1;
    }
    if !found {
        return Err(PatchError::NotFound(copy_str(rspec)));
    }
    if !fit {
        return Err(PatchError::Invalid(copy_str(rspec)));
    }
    let mut out: Vec<RegisterCluster> = Vec::new();
    let mut i: usize = 0;
    assert(a.take(0) =~= Seq::<RegisterCluster>::empty());
    while i < n
        invariant
            n == a.len(),
            i <= n,
            cs@ == a.skip(i as int),
            all_fit(a, rspec@),
            expansion(a.take(i as int), rspec@, out@),
        decreases n - i,
    {
        assert(cs@[0] == a[i as int]);
        let m = cs.remove(0);
        let ghost before = out@;
        let ghost pre = a.take(i as int);
        assert(a.take(i + 1).drop_last() =~= pre);
        assert(a.take(i + 1).last() == a[i as int]);
        let sel = match test_expands(&m, rspec) {
            Some(b) => b,
            None => false,
        };
        if sel {
            match m {
                RegisterCluster::Register(x) => {
                    match &x.dim {
                        Some(d) => {
                            assert(elements_fit(x, *d));
                            let mut k: u32 = 0;
                            while k < d.dim
                                invariant
                                    k <= d.dim,
                                    elements_fit(x, *d),
                                    out@.len() == before.len() + k,
                                    out@.take(before.len() as int) == before,
                                    forall|q: int|
                                        0 <= q < k ==> (#[trigger] out@[before.len() + q]) is Register
                                            && array_element(x, *d, q, out@[before.len() + q]->Register_0),
                                decreases d.dim - k,
                            {
                                let e = element_of(&x, d, k);
                                let ghost prev = out@;
                                out.push(RegisterCluster::Register(e));
                                assert(out@.take(before.len() as int) =~= prev.take(before.len() as int));
                                k = k + 1;
                            }
                            proof {
                                let kk = d.dim as int;
                                assert(out@.take(out@.len() - kk) =~= before);
                                assert forall|q: int| 0 <= q < kk implies (#[trigger] out@[out@.len() - kk + q]) is Register
                                    && array_element(x, *d, q, out@[out@.len() - kk + q]->Register_0) by {
                                    assert(out@.len() - kk + q == before.len() + q);
                                }
                            }
                        },
                        None => {},
                    }
                },
                RegisterCluster::Cluster(_) => {},
            }
        } else {
            out.push(m);
            assert(out@.drop_last() =~= before);
        }
        i = i + 1;
        assert(cs@ =~= a.skip(i as int));
    }
    assert(a.take(n as int) =~= a);
    *cs = out;
    Ok(())
}

/// The text `[%s]`.
pub open spec fn k_bracket() -> Seq<char> {
    seq!['[', '%', 's', ']']
}

/// `name` holds `[%s]`.
pub open spec fn has_bracket(name: Seq<char>) -> bool {
    exists|i: int| #[trigger] occurs_at(name, k_bracket(), i)
}

/// Whether `name` holds `[%s]`.
fn find_bracket(name: &str) -> (r: bool)
    ensures
        r == has_bracket(name@),
{
    proof {
        reveal_strlit("[%s]");
        assert("[%s]"@ =~= k_bracket());
    }
    let cs = chars_of(name);
    let pat = chars_of("[%s]");
    let mut i: usize = 0;
    while i < cs.len()
        invariant
            cs@ == name@,
            pat@ == k_bracket(),
            i <= cs@.len(),
            forall|j: int| 0 <= j < i ==> !#[trigger] occurs_at(name@, k_bracket(), j),
        decreases cs.len() - i,
    {
        if matches_at(&cs, &pat, i) {
            return true;
        }
        i = i + 1;
    }
    assert forall|j: int| !#[trigger] occurs_at(name@, k_bracket(), j) by {
        if j >= cs@.len() {
            assert(!occurs_at(name@, k_bracket(), j));
        }
    }
    false
}

/// How the names of the members of an expanded cluster are made: the texts
/// before and after the index (`_` unless given), whether a single element
/// still gets its index, and whether no prefix at all is wanted.
pub struct ExpandOpts {
    pub pre: Option<String>,
    pub post: Option<String>,
    pub zeroindex: Option<bool>,
    pub noprefix: Option<bool>,
}

/// A delimiter as given, or `_`.
pub open spec fn delim(o: Option<String>) -> Seq<char> {
    match o {
        Some(t) => t@,
        None => seq!['_'],
    }
}

/// The cluster array with description `d` is expanded with indexes.
pub open spec fn indexed(d: DimElement, opts: ExpandOpts) -> bool {
    d.dim > 1 || opts.zeroindex == Some(true)
}

/// The prefixes for the cluster `name` with description `d` cannot be made.
pub open spec fn prefix_err(name: Seq<char>, d: DimElement, opts: ExpandOpts) -> bool {
    indexed(d, opts) && {
        ||| opts.noprefix == Some(true)
        ||| (d.dim_index is Some && has_bracket(name))
        ||| (d.dim_index matches Some(v) && !has_bracket(name) && v@.len() != d.dim)
    }
}

/// The prefix given to the names of the members of element `n` of the
/// cluster `name` with description `d`.
pub open spec fn prefix_of(name: Seq<char>, d: DimElement, n: int, opts: ExpandOpts) -> Seq<char> {
    let pre = delim(opts.pre);
    let post = delim(opts.post);
    if indexed(d, opts) {
        match d.dim_index {
            Some(v) => replace_all(name, seq!['%', 's'], pre + v@[n]@) + post,
            None => if has_bracket(name) {
                replace_all(name, k_bracket(), pre + decimal(n as nat)) + post
            } else {
                name + pre + decimal(n as nat) + post
            },
        }
    } else if opts.noprefix == Some(true) {
        Seq::empty()
    } else if has_bracket(name) {
        replace_all(name, k_bracket(), Seq::empty()) + post
    } else {
        name + post
    }
}

/// The prefix for element `n` of the cluster `c` with description `d`;
/// `None` when it cannot be made.
fn prefix_for(c: &Cluster, d: &DimElement, n: u32, opts: &ExpandOpts) -> (r: Option<String>)
    requires
        n < d.dim,
    ensures
        r is None <==> prefix_err(c.name@, *d, *opts),
        r matches Some(p) ==> p@ == prefix_of(c.name@, *d, n as int, *opts),
{
    proof {
        reveal_strlit("_");
        reveal_strlit("%s");
        reveal_strlit("[%s]");
        reveal_strlit("");
        assert("%s"@ =~= seq!['%', 's']);
        assert("[%s]"@ =~= k_bracket());
    }
    let pre = match &opts.pre {
        Some(t) => t.clone(),
        None => copy_str("_"),
    };
    let post = match &opts.post {
        Some(t) => t.clone(),
        None => copy_str("_"),
    };
    let bracket = find_bracket(c.name.as_str());
    let zeroindex = match opts.zeroindex {
        Some(true) => true,
        _ => false,
    };
    let noprefix = match opts.noprefix {
        Some(true) => true,
        _ => false,
    };
    let multi = d.dim > 1 || zeroindex;
    if multi {
        if noprefix {
            return None;
        }
        match &d.dim_index {
            Some(v) => {
                if bracket || v.len() != d.dim as usize {
                    return None;
                }
                let mut idx = pre.clone();
                idx.append(v[n as usize].as_str());
                let mut t = replace_str(c.name.as_str(), "%s", idx.as_str());
                t.append(post.as_str());
                assert(idx@ =~= pre@ + v@[n as int]@);
                assert(pre@ == delim(opts.pre));
                assert(post@ == delim(opts.post));
                assert(indexed(*d, *opts));
                assert(t@ == replace_all(c.name@, seq!['%', 's'], pre@ + v@[n as int]@) + post@);
                assert(t@ =~= prefix_of(c.name@, *d, n as int, *opts));
                Some(t)
            },
            None => {
                let mut idx = pre.clone();
                push_decimal(&mut idx, n as u64);
                if bracket {
                    let mut t = replace_str(c.name.as_str(), "[%s]", idx.as_str());
                    t.append(post.as_str());
                    assert(pre@ == delim(opts.pre));
                    assert(post@ == delim(opts.post));
                    assert(indexed(*d, *opts));
                    assert(idx@ == pre@ + decimal(n as nat));
                    assert(t@ == replace_all(c.name@, k_bracket(), pre@ + decimal(n as nat)) + post@);
                    assert(t@ =~= prefix_of(c.name@, *d, n as int, *opts));
                    Some(t)
                } else {
                    let mut t = c.name.clone();
                    t.append(idx.as_str());
                    t.append(post.as_str());
                    assert(t@ =~= c.name@ + pre@ + decimal(n as nat) + post@);
                    Some(t)
                }
            },
        }
    } else if noprefix {
        let t = String::new();
        assert(t@ =~= prefix_of(c.name@, *d, n as int, *opts));
        Some(t)
    } else if bracket {
        let mut t = replace_str(c.name.as_str(), "[%s]", "");
        assert(""@ =~= Seq::<char>::empty());
        t.append(post.as_str());
        assert(t@ =~= prefix_of(c.name@, *d, n as int, *opts));
        Some(t)
    } else {
        let mut t = c.name.clone();
        t.append(post.as_str());
        assert(t@ =~= prefix_of(c.name@, *d, n as int, *opts));
        Some(t)
    }
}

/// The test that keeps registers.
pub open spec fn regs_only() -> spec_fn(RegisterCluster) -> bool {
    |x: RegisterCluster| x is Register
}

/// The test that keeps clusters.
pub open spec fn clusters_only() -> spec_fn(RegisterCluster) -> bool {
    |x: RegisterCluster| x is Cluster
}

/// The members that expanding cluster `c` moves out, for each element: its
/// registers, then its clusters.
pub open spec fn moved_items(c: Cluster) -> Seq<RegisterCluster> {
    c.children@.filter(regs_only()) + c.children@.filter(clusters_only())
}

/// `y` is member `x` moved out of a cluster: its name behind `prefix`, its
/// offset `off` further, and all else the same.
pub open spec fn moved(x: RegisterCluster, prefix: Seq<char>, off: int, y: RegisterCluster) -> bool {
    match (x, y) {
        (RegisterCluster::Register(a), RegisterCluster::Register(b)) => exists|c: Register|
            #![trigger reg_same(c, a)]
            {
                &&& reg_same(c, a)
                &&& b == Register { name: b.name, address_offset: b.address_offset, ..c }
                &&& b.name@ == prefix + a.name@
                &&& b.address_offset == a.address_offset + off
            },
        (RegisterCluster::Cluster(a), RegisterCluster::Cluster(b)) => exists|c: Cluster|
            #![trigger rc_same(RegisterCluster::Cluster(c), RegisterCluster::Cluster(a))]
            {
                &&& rc_same(RegisterCluster::Cluster(c), RegisterCluster::Cluster(a))
                &&& b == Cluster { name: b.name, address_offset: b.address_offset, ..c }
                &&& b.name@ == prefix + a.name@
                &&& b.address_offset == a.address_offset + off
            },
        _ => false,
    }
}

/// `s` holds the members of cluster `c` moved out as `moved` says with
/// `prefix` and `off`, in the order of [`moved_items`].
pub open spec fn moved_block(c: Cluster, prefix: Seq<char>, off: int, s: Seq<RegisterCluster>) -> bool {
    &&& s.len() == moved_items(c).len()
    &&& forall|j: int| 0 <= j < s.len() ==> moved(#[trigger] moved_items(c)[j], prefix, off, s[j])
}

/// `s` holds the moved members of elements `0..n` of the cluster array `c`
/// with description `d`, element after element.
pub open spec fn cluster_copies(c: Cluster, d: DimElement, opts: ExpandOpts, n: int, s: Seq<RegisterCluster>) -> bool
    decreases n,
{
    if n <= 0 {
        s.len() == 0
    } else {
        let l = moved_items(c).len() as int;
        &&& s.len() >= l
        &&& cluster_copies(c, d, opts, n - 1, s.take(s.len() - l))
        &&& moved_block(
            c,
            prefix_of(c.name@, d, n - 1, opts),
            c.address_offset + (n - 1) * d.dim_increment,
            s.skip(s.len() - l),
        )
    }
}

/// Member `m` is a cluster array whose name `spec` selects.
pub open spec fn exp_sel(spec: Seq<char>, m: RegisterCluster) -> bool {
    m matches RegisterCluster::Cluster(c) && c.dim is Some && name_matches(c.name@, spec)
}

/// Every offset of the moved members of the cluster array `c` fits in 32
/// bits.
pub open spec fn cluster_fits(c: Cluster, d: DimElement) -> bool {
    d.dim > 0 ==> forall|i: int|
        0 <= i < c.children@.len() ==> rc_offset(#[trigger] c.children@[i]) + c.address_offset + (d.dim - 1)
            * d.dim_increment <= u32::MAX
}

/// Why the cluster array `c` with description `d` cannot be expanded, if
/// it cannot.
pub open spec fn cluster_expand_err(c: Cluster, d: DimElement, opts: ExpandOpts) -> Option<PatchErrorKind> {
    if d.dim > 0 && prefix_err(c.name@, d, opts) {
        Some(PatchErrorKind::Invalid)
    } else if d.dim == 0 || c.children@.len() == 0 {
        Some(PatchErrorKind::NotFound)
    } else if !cluster_fits(c, d) {
        Some(PatchErrorKind::Invalid)
    } else {
        None
    }
}

/// Why the selected member `m` cannot be expanded, if it cannot.
pub open spec fn member_expand_err(m: RegisterCluster, opts: ExpandOpts) -> Option<PatchErrorKind> {
    cluster_expand_err(m->Cluster_0, (m->Cluster_0).dim->Some_0, opts)
}

/// `added` holds the moved members of every cluster array of `a` that
/// `spec` selects, cluster after cluster.
pub open spec fn appended(a: Seq<RegisterCluster>, spec: Seq<char>, opts: ExpandOpts, added: Seq<RegisterCluster>) -> bool
    decreases a.len(),
{
    if a.len() == 0 {
        added.len() == 0
    } else {
        let m = a.last();
        if exp_sel(spec, m) {
            let c = m->Cluster_0;
            let d = c.dim->Some_0;
            let l = d.dim * moved_items(c).len();
            &&& added.len() >= l
            &&& appended(a.drop_last(), spec, opts, added.take(added.len() - l))
            &&& cluster_copies(c, d, opts, d.dim as int, added.skip(added.len() - l))
        } else {
            appended(a.drop_last(), spec, opts, added)
        }
    }
}

/// One more selected cluster array at the end of `a` adds its copies.
proof fn lemma_appended_step(a: Seq<RegisterCluster>, spec: Seq<char>, opts: ExpandOpts, added: Seq<RegisterCluster>, k: int)
    requires
        a.len() > 0,
        exp_sel(spec, a.last()),
        0 <= k <= added.len(),
        appended(a.drop_last(), spec, opts, added.take(k)),
        cluster_copies(
            a.last()->Cluster_0,
            (a.last()->Cluster_0).dim->Some_0,
            opts,
            ((a.last()->Cluster_0).dim->Some_0).dim as int,
            added.skip(k),
        ),
    ensures
        appended(a, spec, opts, added),
{
    let c = a.last()->Cluster_0;
    let d = c.dim->Some_0;
    lemma_copies_len(c, d, opts, d.dim as int, added.skip(k));
    assert(added.take(k) =~= added.take(added.len() - d.dim * moved_items(c).len()));
}

/// The copies of `n` elements of a cluster array are `n` blocks long.
proof fn lemma_copies_len(c: Cluster, d: DimElement, opts: ExpandOpts, n: int, s: Seq<RegisterCluster>)
    requires
        n >= 0,
        cluster_copies(c, d, opts, n, s),
    ensures
        s.len() == n * moved_items(c).len(),
    decreases n,
{
    let l = moved_items(c).len() as int;
    if n > 0 {
        assert(s.len() >= l);
        lemma_copies_len(c, d, opts, n - 1, s.take(s.len() - l));
        assert(s.take(s.len() - l).len() == s.len() - l);
        assert((n - 1) * l + l == n * l) by (nonlinear_arith);
    } else {
        assert(n * l == 0) by (nonlinear_arith)
            requires
                n == 0,
        ;
    }
}

/// What expanding the cluster arrays of `a` that `cspec` selects, with the
/// options `opts`, makes of them: `o`, with the outcome `r`. The moved
/// members are added at the end, then every cluster that `cspec` selects
/// goes.
pub open spec fn expand_cluster_outcome(
    a: Seq<RegisterCluster>,
    o: Seq<RegisterCluster>,
    r: Result<(), PatchError>,
    cspec: Seq<char>,
    opts: ExpandOpts,
) -> bool {
    let (spec, ignore) = spec_parts(cspec);
    if !kind_compiles(a, spec, Kinds::Clusters) {
        failed_with(r, PatchErrorKind::InvalidSpec) && o == a
    } else if !ignore && !exists|i: int| 0 <= i < a.len() && #[trigger] exp_sel(spec, a[i]) {
        failed_with(r, PatchErrorKind::NotFound) && o == a
    } else if exists|i: int| 0 <= i < a.len() && #[trigger] exp_sel(spec, a[i]) && member_expand_err(a[i], opts) is Some {
        exists|i: int|
            {
                &&& 0 <= i < a.len()
                &&& #[trigger] exp_sel(spec, a[i])
                &&& member_expand_err(a[i], opts) is Some
                &&& forall|j: int| 0 <= j < i && #[trigger] exp_sel(spec, a[j]) ==> member_expand_err(a[j], opts) is None
                &&& failed_with(r, member_expand_err(a[i], opts)->0)
                &&& o == a
            }
    } else {
        exists|added: Seq<RegisterCluster>|
            #[trigger] appended(a, spec, opts, added) && {
                let all = a + added;
                if !kind_compiles(all, spec, Kinds::Clusters) {
                    failed_with(r, PatchErrorKind::InvalidSpec) && o == all
                } else if !ignore && !exists|i: int|
                    0 <= i < all.len() && !keep_kind(spec, Kinds::Clusters)(#[trigger] all[i]) {
                    failed_with(r, PatchErrorKind::NotFound) && o == all.filter(keep_kind(spec, Kinds::Clusters))
                } else {
                    r is Ok && o == all.filter(keep_kind(spec, Kinds::Clusters))
                }
            }
    }
}

/// Member `x` moved out of a cluster as [`moved`] says.
fn moved_copy(x: &RegisterCluster, prefix: &str, off: u32) -> (y: RegisterCluster)
    requires
        rc_offset(*x) + off <= u32::MAX,
    ensures
        moved(*x, prefix@, off as int, y),
{
    match x {
        RegisterCluster::Register(r) => {
            let mut c = dup_register(r);
            let ghost c0 = c;
            let mut name = copy_str(prefix);
            name.append(r.name.as_str());
            c.name = name;
            c.address_offset = r.address_offset + off;
            assert(reg_same(c0, *r));
            RegisterCluster::Register(c)
        },
        RegisterCluster::Cluster(k) => {
            let mut c = dup_cluster(k);
            let ghost c0 = c;
            let mut name = copy_str(prefix);
            name.append(k.name.as_str());
            c.name = name;
            c.address_offset = k.address_offset + off;
            assert(rc_same(RegisterCluster::Cluster(c0), RegisterCluster::Cluster(*k)));
            RegisterCluster::Cluster(c)
        },
    }
}

/// Adds to `out` the members of cluster `c` moved out with `prefix` and
/// `off` (see [`moved_block`]).
fn push_moved_block(out: &mut Vec<RegisterCluster>, c: &Cluster, prefix: &str, off: u32)
    requires
        forall|i: int| 0 <= i < c.children@.len() ==> rc_offset(#[trigger] c.children@[i]) + off <= u32::MAX,
    ensures
        final(out)@.take(old(out)@.len() as int) == old(out)@,
        final(out)@.len() >= old(out)@.len(),
        moved_block(*c, prefix@, off as int, final(out)@.skip(old(out)@.len() as int)),
{
    let ghost start = out@;
    let ghost ch = c.children@;
    let ghost fr = ch.filter(regs_only());
    let ghost fc = ch.filter(clusters_only());
    let n = c.children.len();
    let mut i: usize = 0;
    assert(ch.take(0) =~= Seq::<RegisterCluster>::empty());
    while i < n
        invariant
            n == ch.len(),
            ch == c.children@,
            i <= n,
            forall|q: int| 0 <= q < ch.len() ==> rc_offset(#[trigger] ch[q]) + off <= u32::MAX,
            out@.take(start.len() as int) == start,
            out@.len() == start.len() + ch.take(i as int).filter(regs_only()).len(),
            forall|j: int|
                0 <= j < ch.take(i as int).filter(regs_only()).len() ==> moved(
                    #[trigger] ch.take(i as int).filter(regs_only())[j],
                    prefix@,
                    off as int,
                    out@[start.len() + j],
                ),
        decreases n - i,
    {
        proof {
            ch.take(i as int).lemma_filter_push(ch[i as int], regs_only());
            assert(ch.take(i + 1) =~= ch.take(i as int).push(ch[i as int]));
        }
        let is_reg = match &c.children[i] {
            RegisterCluster::Register(_) => true,
            RegisterCluster::Cluster(_) => false,
        };
        if is_reg {
            let y = moved_copy(&c.children[i], prefix, off);
            let ghost prev = out@;
            out.push(y);
            assert(out@.take(start.len() as int) =~= prev.take(start.len() as int));
        }
        i = i + 1;
    }
    assert(ch.take(n as int) =~= ch);
    let ghost mid = out@;
    let mut i: usize = 0;
    while i < n
        invariant
            n == ch.len(),
            ch == c.children@,
            i <= n,
            forall|q: int| 0 <= q < ch.len() ==> rc_offset(#[trigger] ch[q]) + off <= u32::MAX,
            fr == ch.filter(regs_only()),
            mid.len() == start.len() + fr.len(),
            mid.take(start.len() as int) == start,
            forall|j: int| 0 <= j < fr.len() ==> moved(#[trigger] fr[j], prefix@, off as int, mid[start.len() + j]),
            out@.take(mid.len() as int) == mid,
            out@.len() == mid.len() + ch.take(i as int).filter(clusters_only()).len(),
            forall|j: int|
                0 <= j < ch.take(i as int).filter(clusters_only()).len() ==> moved(
                    #[trigger] ch.take(i as int).filter(clusters_only())[j],
                    prefix@,
                    off as int,
                    out@[mid.len() + j],
                ),
        decreases n - i,
    {
        proof {
            ch.take(i as int).lemma_filter_push(ch[i as int], clusters_only());
            assert(ch.take(i + 1) =~= ch.take(i as int).push(ch[i as int]));
        }
        let is_cl = match &c.children[i] {
            RegisterCluster::Register(_) => false,
            RegisterCluster::Cluster(_) => true,
        };
        if is_cl {
            let y = moved_copy(&c.children[i], prefix, off);
            let ghost prev = out@;
            out.push(y);
            assert(out@.take(mid.len() as int) =~= prev.take(mid.len() as int));
        }
        i = i + 1;
    }
    assert(ch.take(n as int) =~= ch);
    proof {
        let s = out@.skip(start.len() as int);
        assert(out@.take(start.len() as int) =~= mid.take(start.len() as int));
        assert forall|j: int| 0 <= j < s.len() implies moved(#[trigger] moved_items(*c)[j], prefix@, off as int, s[j]) by {
            if j < fr.len() {
                assert(moved_items(*c)[j] == fr[j]);
                assert(out@[start.len() + j] == mid[start.len() + j]);
            } else {
                assert(moved_items(*c)[j] == fc[j - fr.len()]);
            }
        }
    }
}

/// Why the selected member `m` cannot be expanded, if it cannot (see
/// [`member_expand_err`]).
fn expand_err_of(m: &RegisterCluster, opts: &ExpandOpts) -> (r: Option<PatchError>)
    requires
        m matches RegisterCluster::Cluster(c) && c.dim is Some,
    ensures
        match member_expand_err(*m, *opts) {
            None => r is None,
            Some(k) => r matches Some(e) && e.kind() == k,
        },
{
    match m {
        RegisterCluster::Cluster(c) => match &c.dim {
            Some(d) => {
                if d.dim > 0 && prefix_for(c, d, 0, opts).is_none() {
                    return Some(PatchError::Invalid(c.name.clone()));
                }
                if d.dim == 0 || c.children.len() == 0 {
                    return Some(PatchError::NotFound(c.name.clone()));
                }
                let steps = (d.dim - 1) as u64;
                let inc = d.dim_increment as u64;
                assert(steps * inc <= 0xffff_ffffu64 * 0xffff_ffffu64) by (nonlinear_arith)
                    requires
                        steps <= 0xffff_ffffu64,
                        inc <= 0xffff_ffffu64,
                ;
                let span = steps * inc;
                let mut fits = true;
                let mut i: usize = 0;
                while i < c.children.len()
                    invariant
                        i <= c.children@.len(),
                        span == (d.dim - 1) * d.dim_increment,
                        span <= 0xffff_ffffu64 * 0xffff_ffffu64,
                        fits <==> forall|q: int|
                            0 <= q < i ==> rc_offset(#[trigger] c.children@[q]) + c.address_offset + (d.dim - 1)
                                * d.dim_increment <= u32::MAX,
                    decreases c.children.len() - i,
                {
                    let o = match &c.children[i] {
                        RegisterCluster::Register(x) => x.address_offset,
                        RegisterCluster::Cluster(x) => x.address_offset,
                    };
                    if (o as u64) + (c.address_offset as u64) + span > 0xffff_ffffu64 {
                        fits = false;
                    }
                    i = i + 1;
                }
                if !fits {
                    return Some(PatchError::Invalid(c.name.clone()));
                }
                None
            },
            None => None,
        },
        RegisterCluster::Register(_) => None,
    }
}

/// Whether member `m` is a cluster array.
fn is_cluster_array(m: &RegisterCluster) -> (r: bool)
    ensures
        r == (m matches RegisterCluster::Cluster(c) && c.dim is Some),
{
    match m {
        RegisterCluster::Cluster(c) => c.dim.is_some(),
        RegisterCluster::Register(_) => false,
    }
}

/// Adds to `out` the moved members of every element of the cluster array
/// `c` (see [`cluster_copies`]).
fn push_cluster_copies(out: &mut Vec<RegisterCluster>, c: &Cluster, d: &DimElement, opts: &ExpandOpts)
    requires
        d.dim > 0 ==> !prefix_err(c.name@, *d, *opts),
        cluster_fits(*c, *d),
        c.children@.len() > 0,
    ensures
        final(out)@.len() >= old(out)@.len(),
        final(out)@.take(old(out)@.len() as int) == old(out)@,
        cluster_copies(*c, *d, *opts, d.dim as int, final(out)@.skip(old(out)@.len() as int)),
{
    let ghost start = out@;
    let mut k: u32 = 0;
    assert(out@.skip(start.len() as int) =~= Seq::<RegisterCluster>::empty());
    while k < d.dim
        invariant
            k <= d.dim,
            d.dim > 0 ==> !prefix_err(c.name@, *d, *opts),
            cluster_fits(*c, *d),
            c.children@.len() > 0,
            out@.len() >= start.len(),
            out@.take(start.len() as int) == start,
            cluster_copies(*c, *d, *opts, k as int, out@.skip(start.len() as int)),
        decreases d.dim - k,
    {
        let prefix = match prefix_for(c, d, k, opts) {
            Some(p) => p,
            None => {
                proof {
                    assert(false);
                }
                String::new()
            },
        };
        proof {
            assert(k * d.dim_increment <= (d.dim - 1) * d.dim_increment) by (nonlinear_arith)
                requires
                    k < d.dim,
            ;
            assert forall|q: int| 0 <= q < c.children@.len() implies rc_offset(#[trigger] c.children@[q]) + (
            c.address_offset + k * d.dim_increment) <= u32::MAX by {
                assert(rc_offset(c.children@[q]) + c.address_offset + (d.dim - 1) * d.dim_increment <= u32::MAX);
            }
            assert(rc_offset(c.children@[0]) + (c.address_offset + k * d.dim_increment) <= u32::MAX);
        }
        let off = c.address_offset + k * d.dim_increment;
        let ghost before = out@;
        push_moved_block(out, c, prefix.as_str(), off);
        proof {
            let l = moved_items(*c).len() as int;
            let s = out@.skip(start.len() as int);
            assert(out@.take(start.len() as int) =~= before.take(start.len() as int));
            assert(s.take(s.len() - l) =~= before.skip(start.len() as int));
            assert(s.skip(s.len() - l) =~= out@.skip(before.len() as int));
            assert(cluster_copies(*c, *d, *opts, k + 1, s));
        }
        k = k + 1;
    }
}

/// Replaces every cluster array of the block that `cspec` selects by the
/// members of each of its elements, moved out with names and offsets as
/// `opts` says (see [`expand_cluster_outcome`]).
pub fn expand_cluster_in(cs: &mut Vec<RegisterCluster>, cspec: &str, opts: &ExpandOpts) -> (r: Result<(), PatchError>)
    ensures
        expand_cluster_outcome(old(cs)@, final(cs)@, r, cspec@, *opts),
{
    let ghost a = cs@;
    let (spec, ignore) = cspec.spec();
    let flags = match select_flags(cs, spec, Kinds::Clusters) {
        None => {
            return Err(PatchError::InvalidSpec(copy_str(spec)));
        },
        Some(f) => f,
    };
    let n = cs.len();
    let mut any = false;
    let mut bad: Option<PatchError> = None;
    let ghost mut bad_at: int = 0;
    let mut i: usize = 0;
    while i < n && bad.is_none()
        invariant
            n == a.len(),
            cs@ == a,
            flags@.len() == n,
            forall|j: int| 0 <= j < n ==> flags@[j] == (#[trigger] a[j] is Cluster && name_matches(rc_name(a[j]), spec@)),
            i <= n,
            any <==> exists|j: int| 0 <= j < i && #[trigger] exp_sel(spec@, a[j]),
            bad is None ==> forall|j: int| 0 <= j < i && #[trigger] exp_sel(spec@, a[j]) ==> member_expand_err(a[j], *opts) is None,
            bad matches Some(e) ==> {
                &&& 0 <= bad_at < i
                &&& exp_sel(spec@, a[bad_at])
                &&& member_expand_err(a[bad_at], *opts) == Some(e.kind())
                &&& forall|j: int| 0 <= j < bad_at && #[trigger] exp_sel(spec@, a[j]) ==> member_expand_err(a[j], *opts) is None
            },
        decreases n - i,
    {
        if flags[i] && is_cluster_array(&cs[i]) {
            assert(exp_sel(spec@, a[i as int]));
            any = true;
            match expand_err_of(&cs[i], opts) {
                Some(e) => {
                    proof {
                        bad_at = i as int;
                    }
                    bad = Some(e);
                },
                None => {},
            }
        }
        i = i + 1;
    }
    if !any && !ignore {
        return Err(PatchError::NotFound(copy_str(cspec)));
    }
    match bad {
        Some(e) => {
            assert(exp_sel(spec@, a[bad_at]));
            return Err(e);
        },
        None => {},
    }
    assert(forall|j: int| 0 <= j < n && #[trigger] exp_sel(spec@, a[j]) ==> member_expand_err(a[j], *opts) is None);
    let mut added: Vec<RegisterCluster> = Vec::new();
    let mut i: usize = 0;
    assert(a.take(0) =~= Seq::<RegisterCluster>::empty());
    while i < n
        invariant
            n == a.len(),
            cs@ == a,
            flags@.len() == n,
            forall|j: int| 0 <= j < n ==> flags@[j] == (#[trigger] a[j] is Cluster && name_matches(rc_name(a[j]), spec@)),
            forall|j: int| 0 <= j < n && #[trigger] exp_sel(spec@, a[j]) ==> member_expand_err(a[j], *opts) is None,
            i <= n,
            appended(a.take(i as int), spec@, *opts, added@),
        decreases n - i,
    {
        let ghost before = added@;
        proof {
            assert(a.take(i + 1).drop_last() =~= a.take(i as int));
            assert(a.take(i + 1).last() == a[i as int]);
        }
        if flags[i] && is_cluster_array(&cs[i]) {
            assert(exp_sel(spec@, a[i as int]));
            match &cs[i] {
                RegisterCluster::Cluster(c) => match &c.dim {
                    Some(d) => {
                        push_cluster_copies(&mut added, c, d, opts);
                        proof {
                            let k = before.len() as int;
                            assert(a[i as int] == RegisterCluster::Cluster(*c));
                            assert(a.take(i + 1).last() == RegisterCluster::Cluster(*c));
                            assert(c.dim == Some(*d));
                            assert(exp_sel(spec@, a.take(i + 1).last()));
                            assert(added@.take(k) == before);
                            assert(appended(a.take(i + 1).drop_last(), spec@, *opts, added@.take(k)));
                            assert(cluster_copies(*c, *d, *opts, d.dim as int, added@.skip(k)));
                            lemma_appended_step(a.take(i + 1), spec@, *opts, added@, k);
                            assert(appended(a.take(i + 1), spec@, *opts, added@));
                        }
                    },
                    None => {},
                },
                RegisterCluster::Register(_) => {},
            }
        } else {
            assert(!exp_sel(spec@, a[i as int]));
        }
        i = i + 1;
    }
    assert(a.take(n as int) =~= a);
    let ghost ad = added@;
    assert(appended(a, spec@, *opts, ad));
    let total = added.len();
    let mut k: usize = 0;
    assert(ad.skip(0) =~= ad);
    assert(a + ad.take(0) =~= a);
    while k < total
        invariant
            total == ad.len(),
            k <= total,
            added@ == ad.skip(k as int),
            cs@ == a + ad.take(k as int),
        decreases total - k,
    {
        assert(added@[0] == ad[k as int]);
        let x = added.remove(0);
        cs.push(x);
        k = k + 1;
        assert(added@ =~= ad.skip(k as int));
        assert(cs@ =~= a + ad.take(k as int));
    }
    assert(ad.take(total as int) =~= ad);
    match remove_selected(cs, spec, Kinds::Clusters) {
        None => {
            return Err(PatchError::InvalidSpec(copy_str(spec)));
        },
        Some(gone) => {
            if !gone && !ignore {
                return Err(PatchError::NotFound(copy_str(cspec)));
            }
        },
    }
    Ok(())
}

} // verus!
