//! A text memory map of a device: one line for each peripheral, interrupt,
//! register and field, sorted.
use vstd::prelude::*;
use crate::common::str_utils::{format_address, get_description, hex_upper, join, text_or_empty, words};
use crate::interrupts::svd_reader::Interrupt;
use crate::model::{Access, Field, Peripheral, Register, RegisterCluster};
use crate::text::{copy_str, decimal_padded, push_char, push_decimal_padded};

verus! {

broadcast use vstd::seq_lib::to_multiset_insert;

/// `a` comes before `b`, or is `b`, in the order of texts: compared
/// character by character, a text before every text that it begins.
pub open spec fn lex_le(a: Seq<char>, b: Seq<char>) -> bool
    decreases a.len(),
{
    if a.len() == 0 {
        true
    } else if b.len() == 0 {
        false
    } else if a[0] != b[0] {
        a[0] < b[0]
    } else {
        lex_le(a.drop_first(), b.drop_first())
    }
}

/// Of two texts, one comes first.
pub proof fn lemma_lex_total(a: Seq<char>, b: Seq<char>)
    ensures
        lex_le(a, b) || lex_le(b, a),
    decreases a.len(),
{
    if a.len() > 0 && b.len() > 0 && a[0] == b[0] {
        lemma_lex_total(a.drop_first(), b.drop_first());
    }
}

/// The order of texts is transitive.
pub proof fn lemma_lex_trans(a: Seq<char>, b: Seq<char>, c: Seq<char>)
    requires
        lex_le(a, b),
        lex_le(b, c),
    ensures
        lex_le(a, c),
    decreases a.len(),
{
    if a.len() > 0 && b.len() > 0 && c.len() > 0 && a[0] == b[0] && b[0] == c[0] {
        lemma_lex_trans(a.drop_first(), b.drop_first(), c.drop_first());
    }
}

/// Two texts that each come before the other are the same.
pub proof fn lemma_lex_antisym(a: Seq<char>, b: Seq<char>)
    requires
        lex_le(a, b),
        lex_le(b, a),
    ensures
        a == b,
    decreases a.len(),
{
    if a.len() > 0 && b.len() > 0 {
        lemma_lex_antisym(a.drop_first(), b.drop_first());
        assert(a =~= seq![a[0]] + a.drop_first());
        assert(b =~= seq![b[0]] + b.drop_first());
    } else {
        assert(a =~= b);
    }
}

/// Every text comes before itself.
pub proof fn lemma_lex_refl(a: Seq<char>)
    ensures
        lex_le(a, a),
    decreases a.len(),
{
    if a.len() > 0 {
        lemma_lex_refl(a.drop_first());
    }
}

/// Two lists of texts in order that hold the same texts are the same list:
/// the memory map's order leaves no choice.
pub proof fn lemma_sorted_unique(a: Seq<Seq<char>>, b: Seq<Seq<char>>)
    requires
        sorted(a),
        sorted(b),
        a.to_multiset() == b.to_multiset(),
    ensures
        a == b,
    decreases a.len(),
{
    broadcast use vstd::seq_lib::to_multiset_contains, vstd::seq_lib::to_multiset_len, vstd::seq_lib::to_multiset_remove;

    if a.len() == 0 {
        assert(b.to_multiset().len() == 0);
        assert(b.len() == 0);
        assert(a =~= b);
    } else {
        assert(a.to_multiset().len() == a.len());
        assert(b.to_multiset().len() == b.len());
        assert(b.len() == a.len());
        assert(a.to_multiset().count(a[0]) > 0) by {
            assert(a.contains(a[0]));
        }
        assert(b.contains(a[0]));
        let jb = choose|j: int| 0 <= j < b.len() && b[j] == a[0];
        assert(a.contains(b[0])) by {
            assert(b.contains(b[0]));
            assert(b.to_multiset().count(b[0]) > 0);
            assert(a.to_multiset().count(b[0]) > 0);
        }
        let ja = choose|j: int| 0 <= j < a.len() && a[j] == b[0];
        if jb > 0 {
            assert(lex_le(b[0], b[jb]));
        } else {
            lemma_lex_refl(b[0]);
        }
        if ja > 0 {
            assert(lex_le(a[0], a[ja]));
        } else {
            lemma_lex_refl(a[0]);
        }
        lemma_lex_antisym(a[0], b[0]);
        assert(a.remove(0) =~= a.drop_first());
        assert(b.remove(0) =~= b.drop_first());
        assert(a.drop_first().to_multiset() == b.drop_first().to_multiset());
        assert(sorted(a.drop_first())) by {
            assert forall|i: int, j: int| 0 <= i < j < a.drop_first().len() implies lex_le(
                #[trigger] a.drop_first()[i],
                #[trigger] a.drop_first()[j],
            ) by {
                assert(a.drop_first()[i] == a[i + 1] && a.drop_first()[j] == a[j + 1]);
            }
        }
        assert(sorted(b.drop_first())) by {
            assert forall|i: int, j: int| 0 <= i < j < b.drop_first().len() implies lex_le(
                #[trigger] b.drop_first()[i],
                #[trigger] b.drop_first()[j],
            ) by {
                assert(b.drop_first()[i] == b[i + 1] && b.drop_first()[j] == b[j + 1]);
            }
        }
        lemma_sorted_unique(a.drop_first(), b.drop_first());
        assert(a =~= b) by {
            assert forall|i: int| 0 <= i < a.len() implies a[i] == b[i] by {
                if i > 0 {
                    assert(a[i] == a.drop_first()[i - 1]);
                    assert(b[i] == b.drop_first()[i - 1]);
                }
            }
        }
    }
}

/// The texts `s` are in order.
pub open spec fn sorted(s: Seq<Seq<char>>) -> bool {
    forall|i: int, j: int| 0 <= i < j < s.len() ==> lex_le(#[trigger] s[i], #[trigger] s[j])
}

/// The texts of a list of strings.
pub open spec fn views_of(v: Seq<String>) -> Seq<Seq<char>> {
    v.map_values(|x: String| x@)
}

/// Whether `a` comes before `b`, or is `b` (see [`lex_le`]).
pub fn text_le(a: &str, b: &str) -> (r: bool)
    ensures
        r == lex_le(a@, b@),
{
    let n = a.unicode_len();
    let m = b.unicode_len();
    let mut i: usize = 0;
    assert(a@.skip(0) =~= a@);
    assert(b@.skip(0) =~= b@);
    while i < n && i < m
        invariant
            n == a@.len(),
            m == b@.len(),
            i <= n,
            i <= m,
            lex_le(a@, b@) == lex_le(a@.skip(i as int), b@.skip(i as int)),
        decreases n - i,
    {
        let x = a.get_char(i);
        let y = b.get_char(i);
        assert(a@.skip(i as int)[0] == x && b@.skip(i as int)[0] == y);
        if x != y {
            return x < y;
        }
        assert(a@.skip(i as int).drop_first() =~= a@.skip(i + 1));
        assert(b@.skip(i as int).drop_first() =~= b@.skip(i + 1));
        i = i + 1;
    }
    if i == n {
        true
    } else {
        false
    }
}

/// The texts `v` in order (see [`lex_le`]).
pub fn sort_texts(v: Vec<String>) -> (r: Vec<String>)
    ensures
        sorted(views_of(r@)),
        views_of(r@).to_multiset() == views_of(v@).to_multiset(),
{
    let mut out: Vec<String> = Vec::new();
    let n = v.len();
    let mut v = v;
    let ghost orig = v@;
    let mut i: usize = 0;
    assert(views_of(out@) =~= views_of(orig.take(0)));
    assert(v@ =~= orig.skip(0));
    while i < n
        invariant
            n == orig.len(),
            i <= n,
            v@ == orig.skip(i as int),
            sorted(views_of(out@)),
            views_of(out@).to_multiset() == views_of(orig.take(i as int)).to_multiset(),
        decreases n - i,
    {
        assert(v@[0] == orig[i as int]);
        let x = v.remove(0);
        let ghost xs = x@;
        let mut p: usize = 0;
        while p < out.len() && text_le(out[p].as_str(), x.as_str())
            invariant
                p <= out@.len(),
                forall|q: int| 0 <= q < p ==> lex_le(#[trigger] views_of(out@)[q], xs),
                x@ == xs,
            decreases out.len() - p,
        {
            p = p + 1;
        }
        proof {
            let s = views_of(out@);
            if p < out@.len() {
                assert(!lex_le(s[p as int], xs));
                lemma_lex_total(s[p as int], xs);
            }
            assert forall|j: int| p <= j < s.len() implies lex_le(xs, #[trigger] s[j]) by {
                if j > p {
                    lemma_lex_trans(xs, s[p as int], s[j]);
                }
            }
        }
        let ghost before = out@;
        out.insert(p, x);
        proof {
            let s = views_of(before);
            assert(views_of(out@) =~= s.insert(p as int, xs));
            let t = views_of(out@);
            assert forall|a: int, b: int| 0 <= a < b < t.len() implies lex_le(#[trigger] t[a], #[trigger] t[b]) by {
                if a < p && b < p {
                    assert(t[a] == s[a] && t[b] == s[b]);
                } else if a < p && b == p {
                } else if a < p && b > p {
                    assert(t[a] == s[a] && t[b] == s[b - 1]);
                    lemma_lex_trans(s[a], xs, s[b - 1]);
                } else if a == p {
                    assert(t[b] == s[b - 1]);
                } else {
                    assert(t[a] == s[a - 1] && t[b] == s[b - 1]);
                }
            }
            assert(views_of(orig.take(i + 1)) =~= views_of(orig.take(i as int)).push(xs));
            assert(views_of(orig.take(i as int)).push(xs) =~= views_of(orig.take(i as int)).insert(
                views_of(orig.take(i as int)).len() as int,
                xs,
            ));
        }
        i = i + 1;
        assert(v@ =~= orig.skip(i as int));
    }
    assert(orig.take(n as int) =~= orig);
    out
}

/// The text of an access, as the map writes it.
pub open spec fn access_text(a: Option<Access>) -> Seq<char> {
    match a {
        None => Seq::empty(),
        Some(Access::ReadOnly) => seq!['r', 'o'],
        Some(Access::ReadWrite) => seq!['r', 'w'],
        Some(Access::ReadWriteOnce) => seq!['r', 'w', 'o', 'n', 'c', 'e'],
        Some(Access::WriteOnce) => seq!['w', 'o', 'n', 'c', 'e'],
        Some(Access::WriteOnly) => seq!['w', 'o'],
    }
}

/// The access in brackets after a space, or nothing when none is given.
pub open spec fn access_brace(a: Option<Access>) -> Seq<char> {
    if a is None {
        Seq::empty()
    } else {
        seq![' ', '('] + access_text(a) + seq![')']
    }
}

/// Appends the access text (see [`access_text`]).
fn push_access(out: &mut String, a: Option<Access>)
    ensures
        final(out)@ == old(out)@ + access_text(a),
{
    let t = match a {
        None => "",
        Some(Access::ReadOnly) => "ro",
        Some(Access::ReadWrite) => "rw",
        Some(Access::ReadWriteOnce) => "rwonce",
        Some(Access::WriteOnce) => "wonce",
        Some(Access::WriteOnly) => "wo",
    };
    proof {
        reveal_strlit("");
        reveal_strlit("ro");
        reveal_strlit("rw");
        reveal_strlit("rwonce");
        reveal_strlit("wonce");
        reveal_strlit("wo");
    }
    out.append(t);
    assert(out@ =~= old(out)@ + access_text(a));
}

/// The access of an element in brackets (see [`access_brace`]).
pub fn access_with_brace(a: Option<Access>) -> (r: String)
    ensures
        r@ == access_brace(a),
{
    let mut out = String::new();
    if a.is_some() {
        push_char(&mut out, ' ');
        push_char(&mut out, '(');
        push_access(&mut out, a);
        push_char(&mut out, ')');
    }
    assert(out@ =~= access_brace(a));
    out
}

/// A description with its whitespace collapsed (see [`get_description`]).
pub open spec fn desc_text(d: Option<String>) -> Seq<char> {
    join(words(text_or_empty(d)), seq![' '])
}

/// An address as the map writes it.
pub open spec fn addr_text(a: nat) -> Seq<char> {
    seq!['0', 'x'] + hex_upper(a)
}

/// The line of a peripheral.
pub open spec fn periph_line(p: Peripheral) -> Seq<char> {
    addr_text(p.base_address as nat) + seq![' ', 'A', ' '] + seq!['P', 'E', 'R', 'I', 'P', 'H', 'E', 'R', 'A', 'L', ' ']
        + p.name@
}

/// The line of an interrupt of the peripheral `pname`.
pub open spec fn irq_line(i: Interrupt, pname: Seq<char>) -> Seq<char> {
    seq!['I', 'N', 'T', 'E', 'R', 'R', 'U', 'P', 'T', ' '] + decimal_padded(i.value as nat, 3) + seq![':', ' ']
        + i.name@ + seq![' ', '('] + pname + seq![')', ':', ' '] + desc_text(i.description)
}

/// The line of a register at the address text `addr`.
pub open spec fn reg_line(addr: Seq<char>, r: Register) -> Seq<char> {
    addr + seq![' ', 'B', ' ', ' '] + seq!['R', 'E', 'G', 'I', 'S', 'T', 'E', 'R', ' '] + r.name@ + access_brace(
        r.properties.access,
    ) + seq![':', ' '] + desc_text(r.description)
}

/// The line of a field of a register at the address text `addr`.
pub open spec fn field_line(addr: Seq<char>, f: Field) -> Seq<char> {
    addr + seq![' ', 'C', ' ', ' ', ' '] + seq!['F', 'I', 'E', 'L', 'D', ' '] + decimal_padded(f.bit_offset as nat, 2)
        + seq!['w'] + decimal_padded(f.bit_width as nat, 2) + seq![' '] + f.name@ + access_brace(f.access) + seq![
        ':',
        ' ',
    ] + desc_text(f.description)
}

/// The lines of the fields of register `r` at the address text `addr`.
pub open spec fn field_lines(addr: Seq<char>, r: Register) -> Seq<Seq<char>> {
    match r.fields {
        Some(v) => v@.map_values(|f: Field| field_line(addr, f)),
        None => Seq::empty(),
    }
}

/// The lines of the registers among `regs` of a peripheral at `base`, each
/// followed by the lines of its fields; clusters give none.
pub open spec fn reg_lines(base: nat, regs: Seq<RegisterCluster>) -> Seq<Seq<char>>
    decreases regs.len(),
{
    if regs.len() == 0 {
        Seq::empty()
    } else {
        reg_lines(base, regs.drop_last()) + match regs.last() {
            RegisterCluster::Register(r) => {
                let addr = addr_text((base + r.address_offset) as nat);
                seq![reg_line(addr, r)] + field_lines(addr, r)
            },
            RegisterCluster::Cluster(_) => Seq::empty(),
        }
    }
}

/// The place of the last peripheral among `ps` called `name`.
pub open spec fn last_named(ps: Seq<Peripheral>, name: Seq<char>) -> Option<int>
    decreases ps.len(),
{
    if ps.len() == 0 {
        None
    } else if ps.last().name@ == name {
        Some(ps.len() - 1)
    } else {
        last_named(ps.drop_last(), name)
    }
}

/// The registers shown for peripheral `p` of the device with peripherals
/// `all`: its own, or, when it derives, those of the last peripheral of
/// that name.
pub open spec fn shown_regs(p: Peripheral, all: Seq<Peripheral>) -> Seq<RegisterCluster> {
    let regs = match p.derived_from {
        None => p.registers,
        Some(f) => match last_named(all, f@) {
            Some(i) => all[i].registers,
            None => None,
        },
    };
    match regs {
        Some(v) => v@,
        None => Seq::empty(),
    }
}

/// The lines of the peripherals `ps` of the device with peripherals `all`,
/// before sorting.
pub open spec fn map_lines(ps: Seq<Peripheral>, all: Seq<Peripheral>) -> Seq<Seq<char>>
    decreases ps.len(),
{
    if ps.len() == 0 {
        Seq::empty()
    } else {
        let p = ps.last();
        map_lines(ps.drop_last(), all) + seq![periph_line(p)] + p.interrupt@.map_values(
            |i: Interrupt| irq_line(i, p.name@),
        ) + reg_lines(p.base_address as nat, shown_regs(p, all))
    }
}

/// Every register address of the peripherals fits in 64 bits.
pub open spec fn addresses_fit(all: Seq<Peripheral>) -> bool {
    forall|i: int, j: int|
        0 <= i < all.len() && 0 <= j < shown_regs(all[i], all).len() && #[trigger] shown_regs(all[i], all)[j] is Register
            ==> all[i].base_address + (shown_regs(all[i], all)[j]->Register_0).address_offset <= u64::MAX
}

/// The registers shown for peripheral `p` (see [`shown_regs`]); `None`
/// when there are none.
fn shown_regs_of<'a>(p: &'a Peripheral, all: &'a Vec<Peripheral>) -> (r: Option<&'a Vec<RegisterCluster>>)
    ensures
        match r {
            Some(v) => v@ == shown_regs(*p, all@),
            None => shown_regs(*p, all@).len() == 0,
        },
{
    match &p.derived_from {
        None => p.registers.as_ref(),
        Some(f) => {
            let mut last: Option<usize> = None;
            let mut i: usize = 0;
            while i < all.len()
                invariant
                    i <= all@.len(),
                    match last {
                        Some(k) => last_named(all@.take(i as int), f@) == Some(k as int) && k < i,
                        None => last_named(all@.take(i as int), f@) is None,
                    },
                decreases all.len() - i,
            {
                assert(all@.take(i + 1).drop_last() =~= all@.take(i as int));
                if crate::text::str_eq(all[i].name.as_str(), f.as_str()) {
                    last = Some(i);
                }
                i = i + 1;
            }
            assert(all@.take(i as int) =~= all@);
            match last {
                Some(k) => all[k].registers.as_ref(),
                None => None,
            }
        },
    }
}

/// Appends the lines of the registers `regs` of a peripheral at `base` (see
/// [`reg_lines`]).
fn push_reg_lines(out: &mut Vec<String>, base: u64, regs: &Vec<RegisterCluster>)
    requires
        forall|j: int| 0 <= j < regs@.len() && #[trigger] regs@[j] is Register ==> base + (regs@[j]->Register_0).address_offset <= u64::MAX,
    ensures
        views_of(final(out)@) == views_of(old(out)@) + reg_lines(base as nat, regs@),
{
    let ghost start = views_of(out@);
    let mut i: usize = 0;
    assert(regs@.take(0) =~= Seq::<RegisterCluster>::empty());
    assert(start + reg_lines(base as nat, regs@.take(0)) =~= start);
    while i < regs.len()
        invariant
            i <= regs@.len(),
            forall|j: int| 0 <= j < regs@.len() && #[trigger] regs@[j] is Register ==> base + (regs@[j]->Register_0).address_offset <= u64::MAX,
            views_of(out@) == start + reg_lines(base as nat, regs@.take(i as int)),
        decreases regs.len() - i,
    {
        assert(regs@.take(i + 1).drop_last() =~= regs@.take(i as int));
        assert(regs@.take(i + 1).last() == regs@[i as int]);
        match &regs[i] {
            RegisterCluster::Register(r) => {
                assert(regs@[i as int] is Register);
                let addr = format_address(base + r.address_offset as u64);
                let mut line = addr.clone();
                proof {
                    reveal_strlit(" B  REGISTER ");
                    reveal_strlit(": ");
                }
                line.append(" B  REGISTER ");
                line.append(r.name.as_str());
                line.append(access_with_brace(r.properties.access).as_str());
                line.append(": ");
                line.append(get_description(&r.description).as_str());
                let ghost a = addr@;
                assert(line@ =~= reg_line(a, *r));
                let ghost before = views_of(out@);
                out.push(line);
                assert(views_of(out@) =~= before.push(reg_line(a, *r)));
                match &r.fields {
                    Some(fs) => {
                        let mut k: usize = 0;
                        let ghost mid = views_of(out@);
                        while k < fs.len()
                            invariant
                                k <= fs@.len(),
                                views_of(out@) == mid + fs@.take(k as int).map_values(|f: Field| field_line(a, f)),
                                addr@ == a,
                            decreases fs.len() - k,
                        {
                            let f = &fs[k];
                            let mut fl = addr.clone();
                            proof {
                                reveal_strlit(" C   FIELD ");
                                reveal_strlit(": ");
                                reveal_strlit("w");
                                reveal_strlit(" ");
                            }
                            fl.append(" C   FIELD ");
                            push_decimal_padded(&mut fl, f.bit_offset as u64, 2);
                            fl.append("w");
                            push_decimal_padded(&mut fl, f.bit_width as u64, 2);
                            fl.append(" ");
                            fl.append(f.name.as_str());
                            fl.append(access_with_brace(f.access).as_str());
                            fl.append(": ");
                            fl.append(get_description(&f.description).as_str());
                            assert(fl@ =~= field_line(a, *f));
                            let ghost b2 = views_of(out@);
                            out.push(fl);
                            assert(views_of(out@) =~= b2.push(field_line(a, *f)));
                            assert(fs@.take(k + 1).map_values(|f: Field| field_line(a, f)) =~= fs@.take(k as int).map_values(
                                |f: Field| field_line(a, f),
                            ).push(field_line(a, fs@[k as int])));
                            k = k + 1;
                        }
                        assert(fs@.take(k as int) =~= fs@);
                    },
                    None => {},
                }
                assert(views_of(out@) =~= start + reg_lines(base as nat, regs@.take(i + 1)));
            },
            RegisterCluster::Cluster(_) => {
                assert(reg_lines(base as nat, regs@.take(i + 1)) =~= reg_lines(base as nat, regs@.take(i as int)));
            },
        }
        i = i + 1;
    }
    assert(regs@.take(i as int) =~= regs@);
}

/// Whether every register address of the peripherals fits in 64 bits (see
/// [`addresses_fit`]).
pub fn check_addresses(ps: &Vec<Peripheral>) -> (r: bool)
    ensures
        r == addresses_fit(ps@),
{
    let mut fits = true;
    let mut i: usize = 0;
    while i < ps.len()
        invariant
            i <= ps@.len(),
            fits <==> forall|a: int, j: int|
                0 <= a < i && 0 <= j < shown_regs(ps@[a], ps@).len() && #[trigger] shown_regs(ps@[a], ps@)[j] is Register
                    ==> ps@[a].base_address + (shown_regs(ps@[a], ps@)[j]->Register_0).address_offset <= u64::MAX,
        decreases ps.len() - i,
    {
        let ghost before = fits;
        let mut here = true;
        match shown_regs_of(&ps[i], ps) {
            Some(regs) => {
                let mut j: usize = 0;
                while j < regs.len()
                    invariant
                        i < ps@.len(),
                        j <= regs@.len(),
                        regs@ == shown_regs(ps@[i as int], ps@),
                        here <==> forall|q: int| 0 <= q < j && #[trigger] regs@[q] is Register ==> ps@[i as int].base_address + (regs@[q]->Register_0).address_offset <= u64::MAX,
                    decreases regs.len() - j,
                {
                    match &regs[j] {
                        RegisterCluster::Register(r) => {
                            if ps[i].base_address > u64::MAX - (r.address_offset as u64) {
                                here = false;
                            }
                        },
                        RegisterCluster::Cluster(_) => {},
                    }
                    j = j + 1;
                }
            },
            None => {},
        }
        if !here {
            fits = false;
        }
        i = i + 1;
    }
    fits
}

/// The memory map of the peripherals `ps`: the lines of [`map_lines`],
/// sorted, one per line.
pub fn to_text(ps: &Vec<Peripheral>) -> (r: String)
    requires
        addresses_fit(ps@),
    ensures
        exists|s: Seq<Seq<char>>|
            sorted(s) && s.to_multiset() == map_lines(ps@, ps@).to_multiset() && r@ == join(s, seq!['\n']),
{
    let mut lines: Vec<String> = Vec::new();
    let mut i: usize = 0;
    assert(ps@.take(0) =~= Seq::<Peripheral>::empty());
    while i < ps.len()
        invariant
            i <= ps@.len(),
            addresses_fit(ps@),
            views_of(lines@) == map_lines(ps@.take(i as int), ps@),
        decreases ps.len() - i,
    {
        let p = &ps[i];
        assert(ps@.take(i + 1).drop_last() =~= ps@.take(i as int));
        assert(ps@.take(i + 1).last() == *p);
        proof {
            reveal_strlit(" A PERIPHERAL ");
            reveal_strlit("INTERRUPT ");
            reveal_strlit(": ");
            reveal_strlit(" (");
            reveal_strlit("): ");
        }
        let mut pl = format_address(p.base_address);
        pl.append(" A PERIPHERAL ");
        pl.append(p.name.as_str());
        assert(pl@ =~= periph_line(*p));
        let ghost b0 = views_of(lines@);
        lines.push(pl);
        assert(views_of(lines@) =~= b0.push(periph_line(*p)));
        let ghost mid = views_of(lines@);
        let mut k: usize = 0;
        while k < p.interrupt.len()
            invariant
                k <= p.interrupt@.len(),
                views_of(lines@) == mid + p.interrupt@.take(k as int).map_values(|x: Interrupt| irq_line(x, p.name@)),
            decreases p.interrupt.len() - k,
        {
            let irq = &p.interrupt[k];
            proof {
                reveal_strlit("INTERRUPT ");
                reveal_strlit(": ");
                reveal_strlit(" (");
                reveal_strlit("): ");
            }
            let mut il = copy_str("INTERRUPT ");
            push_decimal_padded(&mut il, irq.value as u64, 3);
            il.append(": ");
            il.append(irq.name.as_str());
            il.append(" (");
            il.append(p.name.as_str());
            il.append("): ");
            let ghost dv = decimal_padded(irq.value as nat, 3);
            il.append(get_description(&irq.description).as_str());
            assert(il@ =~= seq!['I', 'N', 'T', 'E', 'R', 'R', 'U', 'P', 'T', ' '] + dv + seq![':', ' '] + irq.name@ + seq![' ', '('] + p.name@ + seq![')', ':', ' '] + desc_text(irq.description));
            assert(il@ =~= irq_line(*irq, p.name@));
            let ghost b1 = views_of(lines@);
            lines.push(il);
            assert(views_of(lines@) =~= b1.push(irq_line(*irq, p.name@)));
            assert(p.interrupt@.take(k + 1).map_values(|x: Interrupt| irq_line(x, p.name@)) =~= p.interrupt@.take(
                k as int,
            ).map_values(|x: Interrupt| irq_line(x, p.name@)).push(irq_line(p.interrupt@[k as int], p.name@)));
            k = k + 1;
        }
        assert(p.interrupt@.take(k as int) =~= p.interrupt@);
        match shown_regs_of(p, ps) {
            Some(regs) => {
                proof {
                    assert forall|j: int| 0 <= j < regs@.len() && #[trigger] regs@[j] is Register implies p.base_address
                        + (regs@[j]->Register_0).address_offset <= u64::MAX by {
                        assert(ps@[i as int] == *p);
                        assert(shown_regs(ps@[i as int], ps@)[j] is Register);
                    }
                }
                push_reg_lines(&mut lines, p.base_address, regs);
            },
            None => {
                assert(reg_lines(p.base_address as nat, shown_regs(*p, ps@)) =~= Seq::<Seq<char>>::empty());
            },
        }
        assert(views_of(lines@) =~= map_lines(ps@.take(i + 1), ps@));
        i = i + 1;
    }
    assert(ps@.take(i as int) =~= ps@);
    let sorted_lines = sort_texts(lines);
    let ghost s = views_of(sorted_lines@);
    let mut out = String::new();
    let mut k: usize = 0;
    while k < sorted_lines.len()
        invariant
            k <= sorted_lines@.len(),
            s == views_of(sorted_lines@),
            out@ == join(s.take(k as int), seq!['\n']),
        decreases sorted_lines.len() - k,
    {
        if k > 0 {
            push_char(&mut out, '\n');
        }
        out.append(sorted_lines[k].as_str());
        proof {
            assert(s.take(k + 1).drop_last() =~= s.take(k as int));
            if k == 0 {
                assert(out@ =~= join(s.take(1), seq!['\n']));
            } else {
                assert(out@ =~= join(s.take(k + 1), seq!['\n']));
            }
        }
        k = k + 1;
    }
    assert(s.take(k as int) =~= s);
    out
}

} // verus!
