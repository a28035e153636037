//! Interrupts of a device, ordered by number, and the numbers left unused.
use vstd::prelude::*;
use crate::interrupts::svd_reader::{Interrupt, InterruptV, Peripheral};

verus! {

/// An interrupt together with the name of the peripheral that declares it.
pub struct InterruptWithPeriph {
    pub peripheral: String,
    pub interrupt: Interrupt,
}

/// The mathematical content of an [`InterruptWithPeriph`].
pub struct EntryV {
    pub peripheral: Seq<char>,
    pub interrupt: InterruptV,
}

impl View for InterruptWithPeriph {
    type V = EntryV;

    open spec fn view(&self) -> EntryV {
        EntryV { peripheral: self.peripheral@, interrupt: self.interrupt@ }
    }
}

impl InterruptWithPeriph {
    /// A copy of this entry.
    pub fn duplicate(&self) -> (r: InterruptWithPeriph)
        ensures
            r@ == self@,
    {
        InterruptWithPeriph { peripheral: self.peripheral.clone(), interrupt: self.interrupt.duplicate() }
    }
}

/// The views of a sequence of entries.
pub open spec fn entry_views(s: Seq<InterruptWithPeriph>) -> Seq<EntryV> {
    s.map_values(|e: InterruptWithPeriph| e@)
}

/// Every interrupt of every peripheral, paired with its peripheral's name, in
/// the order of the peripherals and of their interrupts.
pub open spec fn entries(ps: Seq<Peripheral>) -> Seq<EntryV>
    decreases ps.len(),
{
    if ps.len() == 0 {
        Seq::empty()
    } else {
        entries(ps.drop_last()) + ps.last().interrupt@.map_values(entry_of(ps.last().name@))
    }
}

/// The entry of an interrupt of the peripheral named `name`.
pub open spec fn entry_of(name: Seq<char>) -> spec_fn(Interrupt) -> EntryV {
    |i: Interrupt| EntryV { peripheral: name, interrupt: i@ }
}

/// Whether the entries come in non-decreasing order of interrupt number.
pub open spec fn sorted_by_value(s: Seq<EntryV>) -> bool {
    forall|i: int, j: int| 0 <= i <= j < s.len() ==> s[i].interrupt.value <= s[j].interrupt.value
}

/// The predicate "has interrupt number `v`".
pub open spec fn value_is(v: u32) -> spec_fn(EntryV) -> bool {
    |e: EntryV| e.interrupt.value == v
}

/// `r` is `s` stably sorted by interrupt number: sorted, and for every
/// number the entries with that number come in the order they had in `s`.
pub open spec fn stable_sorted(r: Seq<EntryV>, s: Seq<EntryV>) -> bool {
    &&& sorted_by_value(r)
    &&& forall|v: u32| #[trigger] r.filter(value_is(v)) == s.filter(value_is(v))
}

/// Inserting `x` after every entry whose number is at most `x`'s keeps the
/// order sorted and appends `x` to the entries of its number.
proof fn lemma_insert_sorted(r: Seq<EntryV>, pos: int, x: EntryV)
    requires
        sorted_by_value(r),
        0 <= pos <= r.len(),
        forall|k: int| 0 <= k < pos ==> r[k].interrupt.value <= x.interrupt.value,
        forall|k: int| pos <= k < r.len() ==> r[k].interrupt.value > x.interrupt.value,
    ensures
        sorted_by_value(r.insert(pos, x)),
        forall|v: u32|
            #[trigger] r.insert(pos, x).filter(value_is(v)) == if v == x.interrupt.value {
                r.filter(value_is(v)).push(x)
            } else {
                r.filter(value_is(v))
            },
{
    let r2 = r.insert(pos, x);
    r.insert_ensures(pos, x);
    assert forall|i: int, j: int| 0 <= i <= j < r2.len() implies r2[i].interrupt.value
        <= r2[j].interrupt.value by {
        if i < pos && j < pos {
        } else if i < pos && j == pos {
        } else if i < pos {
            assert(r2[j] == r[j - 1]);
        } else if i == pos && j == pos {
        } else if i == pos {
            assert(r2[j] == r[j - 1]);
        } else {
            assert(r2[i] == r[i - 1]);
            assert(r2[j] == r[j - 1]);
        }
    }
    let a = r.subrange(0, pos);
    let b = r.subrange(pos, r.len() as int);
    assert(r =~= a + b);
    assert(r2 =~= a.push(x) + b);
    assert forall|v: u32| #[trigger] r.insert(pos, x).filter(value_is(v)) == if v
        == x.interrupt.value {
        r.filter(value_is(v)).push(x)
    } else {
        r.filter(value_is(v))
    } by {
        Seq::filter_distributes_over_add(a.push(x), b, value_is(v));
        Seq::filter_distributes_over_add(a, b, value_is(v));
        a.lemma_filter_push(x, value_is(v));
        if v == x.interrupt.value {
            assert(b.filter(value_is(v)) =~= Seq::<EntryV>::empty()) by {
                assert forall|k: int| 0 <= k < b.len() implies !value_is(v)(b[k]) by {
                    assert(b[k] == r[pos + k]);
                }
                b.lemma_all_neg_filter_empty(value_is(v));
            }
            assert(r.filter(value_is(v)) =~= a.filter(value_is(v)));
            assert(a.filter(value_is(v)).push(x) + b.filter(value_is(v)) =~= a.filter(
                value_is(v),
            ).push(x));
        }
    }
}

/// Flattens the peripherals into their (peripheral, interrupt) entries.
fn flatten(peripherals: &Vec<Peripheral>) -> (r: Vec<InterruptWithPeriph>)
    ensures
        entry_views(r@) == entries(peripherals@),
{
    let mut out: Vec<InterruptWithPeriph> = Vec::new();
    let mut i: usize = 0;
    while i < peripherals.len()
        invariant
            i <= peripherals.len(),
            entry_views(out@) == entries(peripherals@.take(i as int)),
        decreases peripherals.len() - i,
    {
        let p = &peripherals[i];
        let ghost base = entry_views(out@);
        let ghost f = entry_of(p.name@);
        let mut j: usize = 0;
        while j < p.interrupt.len()
            invariant
                i < peripherals.len(),
                p == peripherals@[i as int],
                f == entry_of(p.name@),
                j <= p.interrupt.len(),
                entry_views(out@) == base + p.interrupt@.take(j as int).map_values(f),
            decreases p.interrupt.len() - j,
        {
            let e = InterruptWithPeriph { peripheral: p.name.clone(), interrupt: p.interrupt[j].duplicate() };
            let ghost before = out@;
            assert(e@ == f(p.interrupt@[j as int]));
            out.push(e);
            j = j + 1;
            assert(entry_views(out@) =~= entry_views(before).push(e@));
            assert(p.interrupt@.take(j as int).map_values(f) =~= p.interrupt@.take(j - 1).map_values(f).push(f(p.interrupt@[j - 1])));
        }
        assert(p.interrupt@.take(j as int) =~= p.interrupt@);
        let ghost pre = peripherals@.take(i + 1);
        assert(pre.drop_last() =~= peripherals@.take(i as int));
        assert(pre.last() == p);
        i = i + 1;
    }
    assert(peripherals@.take(peripherals.len() as int) =~= peripherals@);
    out
}

/// Sorts the entries by interrupt number, keeping entries with the same number
/// in their order.
fn stable_sort(items: &Vec<InterruptWithPeriph>) -> (r: Vec<InterruptWithPeriph>)
    ensures
        stable_sorted(entry_views(r@), entry_views(items@)),
{
    let mut out: Vec<InterruptWithPeriph> = Vec::new();
    let mut i: usize = 0;
    while i < items.len()
        invariant
            i <= items.len(),
            sorted_by_value(entry_views(out@)),
            forall|v: u32| #[trigger] entry_views(out@).filter(value_is(v)) == entry_views(items@).take(i as int).filter(value_is(v)),
        decreases items.len() - i,
    {
        let x = items[i].duplicate();
        let xv = x.interrupt.value;
        let mut pos: usize = 0;
        while pos < out.len() && out[pos].interrupt.value <= xv
            invariant
                pos <= out.len(),
                forall|k: int| 0 <= k < pos ==> out@[k].interrupt.value <= xv,
            decreases out.len() - pos,
        {
            pos = pos + 1;
        }
        let ghost before = entry_views(out@);
        proof {
            assert forall|k: int| pos <= k < before.len() implies before[k].interrupt.value > xv by {
                assert(before[pos as int].interrupt.value > xv);
            }
            lemma_insert_sorted(before, pos as int, x@);
        }
        let ghost xview = x@;
        out.insert(pos, x);
        assert(entry_views(out@) =~= before.insert(pos as int, xview));
        proof {
            let pre = entry_views(items@).take(i as int);
            let cur = entry_views(items@).take(i + 1);
            assert(cur =~= pre.push(xview));
            assert forall|v: u32| #[trigger] entry_views(out@).filter(value_is(v)) == cur.filter(value_is(v)) by {
                pre.lemma_filter_push(xview, value_is(v));
            }
        }
        i = i + 1;
    }
    assert(entry_views(items@).take(items.len() as int) =~= entry_views(items@));
    out
}

/// Interrupts of a device ordered by interrupt number.
pub struct InterruptList {
    ordered_interrupts: Vec<InterruptWithPeriph>,
}

impl InterruptList {
    #[verifier::type_invariant]
    spec fn well_formed(self) -> bool {
        sorted_by_value(entry_views(self.ordered_interrupts@))
    }

    /// The ordered entries of the list.
    pub closed spec fn spec_entries(self) -> Seq<EntryV> {
        entry_views(self.ordered_interrupts@)
    }

    /// Collects the interrupts of all peripherals, ordered by interrupt number
    /// (interrupts with equal numbers keep their order).
    pub fn new(peripherals: Vec<Peripheral>) -> (r: InterruptList)
        ensures
            stable_sorted(r.spec_entries(), entries(peripherals@)),
    {
        let ordered_interrupts = Self::get_ordered_interrupts(&peripherals);
        InterruptList { ordered_interrupts }
    }

    /// Get interrupts ordered by interrupt value
    pub fn ordered(&self) -> (r: &[InterruptWithPeriph])
        ensures
            entry_views(r@) == self.spec_entries(),
    {
        self.ordered_interrupts.as_slice()
    }

    fn get_ordered_interrupts(peripherals: &Vec<Peripheral>) -> (r: Vec<InterruptWithPeriph>)
        ensures
            stable_sorted(entry_views(r@), entries(peripherals@)),
    {
        let flat = flatten(peripherals);
        stable_sort(&flat)
    }

    /// Get missing interrupt values
    pub fn gaps(&self) -> (r: Vec<u32>)
        ensures
            r@ == gaps_spec(self.spec_entries().map_values(|e: EntryV| e.interrupt.value)),
    {
        let mut gaps: Vec<u32> = Vec::new();
        let mut last_interrupt: i64 = -1;
        let n = self.ordered_interrupts.len();
        let ghost vals = self.spec_entries().map_values(|e: EntryV| e.interrupt.value);
        let mut k: usize = 0;
        while k < n
            invariant
                n == self.ordered_interrupts@.len(),
                vals == self.spec_entries().map_values(|e: EntryV| e.interrupt.value),
                k <= n,
                gaps@ == gaps_spec(vals.take(k as int)),
                last_interrupt == last_value(vals.take(k as int)),
            decreases n - k,
        {
            let curr_interrupt = self.ordered_interrupts[k].interrupt.value;
            let required_interrupt = (last_interrupt + 1) as u32;
            let ghost pre = vals.take(k as int);
            let ghost cur = vals.take(k + 1);
            assert(cur.drop_last() =~= pre);
            assert(cur.last() == curr_interrupt);
            let mut gap = required_interrupt;
            let ghost base = gaps@;
            while gap < curr_interrupt
                invariant
                    required_interrupt <= gap <= curr_interrupt || (required_interrupt >= curr_interrupt && gap == required_interrupt),
                    gaps@ == base + range_seq(required_interrupt as int, gap as int),
                decreases curr_interrupt - gap,
            {
                gaps.push(gap);
                gap = gap + 1;
                assert(range_seq(required_interrupt as int, gap as int) =~= range_seq(required_interrupt as int, gap - 1).push((gap - 1) as u32));
            }
            proof {
                if required_interrupt < curr_interrupt {
                    assert(gap == curr_interrupt);
                } else {
                    assert(range_seq(required_interrupt as int, gap as int) =~= range_seq(required_interrupt as int, curr_interrupt as int));
                }
            }
            last_interrupt = curr_interrupt as i64;
            k = k + 1;
        }
        assert(vals.take(n as int) =~= vals);
        gaps
    }
}

/// The consecutive numbers `lo, lo + 1, ..., hi - 1` (empty when `hi <= lo`).
pub open spec fn range_seq(lo: int, hi: int) -> Seq<u32> {
    Seq::new(if hi > lo { (hi - lo) as nat } else { 0 }, |k: int| (lo + k) as u32)
}

/// The last number of `vals`, or `-1` for an empty sequence.
pub open spec fn last_value(vals: Seq<u32>) -> int {
    if vals.len() == 0 {
        -1
    } else {
        vals.last() as int
    }
}

/// The numbers that [`InterruptList::gaps`] reports for the interrupt numbers
/// `vals` (taken in order): before each number, every number from one past the
/// previous one (from `0` at the start) up to it, exclusive.
pub open spec fn gaps_spec(vals: Seq<u32>) -> Seq<u32>
    decreases vals.len(),
{
    if vals.len() == 0 {
        Seq::empty()
    } else {
        let prev = vals.drop_last();
        let required = ((last_value(prev) + 1) as u32) as int;
        gaps_spec(prev) + range_seq(required, vals.last() as int)
    }
}

/// The gaps of a non-decreasing sequence of interrupt numbers are, in
/// increasing order, exactly the numbers below the largest one that no
/// interrupt uses (provided the largest possible number is not used twice).
pub proof fn gaps_are_missing_numbers(vals: Seq<u32>)
    requires
        forall|i: int, j: int| 0 <= i <= j < vals.len() ==> vals[i] <= vals[j],
        forall|i: int, j: int| 0 <= i < j < vals.len() ==> !(vals[i] == u32::MAX && vals[j] == u32::MAX),
    ensures
        forall|i: int, j: int| 0 <= i < j < gaps_spec(vals).len() ==> gaps_spec(vals)[i] < gaps_spec(vals)[j],
        forall|v: u32| #[trigger] gaps_spec(vals).contains(v) <==> (vals.len() > 0 && v < vals.last() && !vals.contains(v)),
    decreases vals.len(),
{
    if vals.len() > 0 {
        let prev = vals.drop_last();
        let last = vals.last();
        assert forall|i: int, j: int| 0 <= i < j < prev.len() implies !(prev[i] == u32::MAX && prev[j] == u32::MAX) by {
            assert(prev[i] == vals[i] && prev[j] == vals[j]);
        }
        gaps_are_missing_numbers(prev);
        let g = gaps_spec(prev);
        let req = ((last_value(prev) + 1) as u32) as int;
        if prev.len() > 0 {
            assert(prev.last() == vals[vals.len() - 2]);
            assert(prev.last() < u32::MAX);
            assert(req == prev.last() + 1);
        } else {
            assert(req == 0);
        }
        let r = range_seq(req, last as int);
        let full = g + r;
        assert(gaps_spec(vals) == full);
        assert forall|i: int, j: int| 0 <= i < j < full.len() implies full[i] < full[j] by {
            if j < g.len() {
            } else if i < g.len() {
                assert(g.contains(g[i]));
                assert(full[j] == r[j - g.len()]);
            } else {
                assert(full[i] == r[i - g.len()]);
                assert(full[j] == r[j - g.len()]);
            }
        }
        assert forall|v: u32| #[trigger] full.contains(v) <==> (v < last && !vals.contains(v)) by {
            if full.contains(v) {
                let k = choose|k: int| 0 <= k < full.len() && full[k] == v;
                if k < g.len() {
                    assert(g.contains(v));
                    assert(v < prev.last());
                    if vals.contains(v) {
                        let m = choose|m: int| 0 <= m < vals.len() && vals[m] == v;
                        if m < prev.len() {
                            assert(prev[m] == v);
                        } else {
                            assert(prev.last() <= last);
                        }
                    }
                } else {
                    assert(r[k - g.len()] == v);
                    assert(req <= v < last);
                    if vals.contains(v) {
                        let m = choose|m: int| 0 <= m < vals.len() && vals[m] == v;
                        if m < prev.len() {
                            assert(vals[m] <= vals[prev.len() - 1]);
                        }
                    }
                }
            }
            if v < last && !vals.contains(v) {
                if prev.len() > 0 && v < prev.last() {
                    assert(!prev.contains(v)) by {
                        if prev.contains(v) {
                            let m = choose|m: int| 0 <= m < prev.len() && prev[m] == v;
                            assert(vals[m] == v);
                        }
                    }
                    assert(g.contains(v));
                    let k = choose|k: int| 0 <= k < g.len() && g[k] == v;
                    assert(full[k] == v);
                } else {
                    if prev.len() > 0 {
                        assert(v != prev.last()) by {
                            assert(vals[prev.len() - 1] == prev.last());
                        }
                    }
                    assert(req <= v);
                    assert(r[v - req] == v);
                    assert(full[g.len() + v - req] == v);
                }
            }
        }
    }
}

} // verus!
