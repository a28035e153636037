//! The interrupts that a device description declares, peripheral by peripheral.
use vstd::prelude::*;
use crate::text::{opt_view, copy_opt};

verus! {

/// One interrupt of a peripheral.
#[derive(Debug)]
pub struct Interrupt {
    pub name: String,
    pub description: Option<String>,
    pub value: u32,
}

/// The mathematical content of an [`Interrupt`].
pub struct InterruptV {
    pub name: Seq<char>,
    pub description: Option<Seq<char>>,
    pub value: u32,
}

impl View for Interrupt {
    type V = InterruptV;

    open spec fn view(&self) -> InterruptV {
        InterruptV { name: self.name@, description: opt_view(self.description), value: self.value }
    }
}

impl Interrupt {
    /// A copy of this interrupt.
    pub fn duplicate(&self) -> (r: Interrupt)
        ensures
            r@ == self@,
    {
        Interrupt {
            name: self.name.clone(),
            description: copy_opt(&self.description),
            value: self.value,
        }
    }
}

/// A peripheral together with the interrupts that it declares.
pub struct Peripheral {
    pub name: String,
    pub interrupt: Vec<Interrupt>,
}

/// A peripheral as the description file lists it: its interrupt list may be
/// absent.
pub struct PeripheralXml {
    pub name: String,
    pub interrupt: Option<Vec<Interrupt>>,
}

/// The peripherals of `ps` that have an interrupt list, in order, each with its
/// name and interrupts.
pub open spec fn with_interrupts(ps: Seq<PeripheralXml>) -> Seq<Peripheral>
    decreases ps.len(),
{
    if ps.len() == 0 {
        Seq::empty()
    } else {
        let rest = with_interrupts(ps.drop_last());
        match ps.last().interrupt {
            Some(ints) => rest.push(Peripheral { name: ps.last().name, interrupt: ints }),
            None => rest,
        }
    }
}

/// Keeps the peripherals that have an interrupt list, in their order.
pub fn peripherals_with_interrupts(peripheral_list: Vec<PeripheralXml>) -> (r: Vec<Peripheral>)
    ensures
        r@ == with_interrupts(peripheral_list@),
{
    let mut list = peripheral_list;
    let ghost orig = list@;
    let mut out: Vec<Peripheral> = Vec::new();
    let mut rev: Vec<PeripheralXml> = Vec::new();
    // Take the items off the end, then replay them in their original order.
    while list.len() > 0
        invariant
            orig == list@ + rev@.reverse(),
        decreases list.len(),
    {
        let p = list.pop().unwrap();
        let ghost before = list@;
        rev.push(p);
        assert(orig =~= list@ + rev@.reverse());
    }
    assert(rev@.reverse() =~= orig);
    let ghost n = rev@.len();
    while rev.len() > 0
        invariant
            rev@.len() <= n,
            n == orig.len(),
            forall|k: int| 0 <= k < rev@.len() ==> rev@[k] == orig[n - 1 - k],
            out@ == with_interrupts(orig.take(n - rev@.len())),
        decreases rev.len(),
    {
        let p = rev.pop().unwrap();
        let ghost idx = n - 1 - rev@.len();
        assert(p == orig[idx]);
        let ghost pre = orig.take(idx);
        assert(orig.take(idx + 1).drop_last() =~= pre);
        match p.interrupt {
            Some(interrupt) => {
                out.push(Peripheral { name: p.name, interrupt });
            },
            None => {},
        }
    }
    assert(orig.take(n as int) =~= orig);
    out
}

} // verus!
