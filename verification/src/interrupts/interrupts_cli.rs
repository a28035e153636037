//! Text lines that describe a device's interrupts.
use vstd::prelude::*;
use crate::common::str_utils::{unwrap_or_empty_str, text_or_empty};
use crate::interrupts::interrupt_list::{InterruptWithPeriph, EntryV, range_seq};
use crate::text::{copy_str, push_decimal, decimal, replace_str, replace_all, opt_view};

verus! {

/// The text of an optional description, or the empty text.
pub open spec fn opt_text(o: Option<Seq<char>>) -> Seq<char> {
    match o {
        Some(s) => s,
        None => Seq::empty(),
    }
}

/// The line that describes one interrupt:
/// `<number> <name>: <description> (in <peripheral>)`, with the line breaks of
/// the description turned into spaces.
pub open spec fn interrupt_line_spec(e: EntryV) -> Seq<char> {
    decimal(e.interrupt.value as nat) + seq![' '] + e.interrupt.name + seq![':', ' ']
        + replace_all(
        replace_all(opt_text(e.interrupt.description), seq!['\r', '\n'], seq![' ']),
        seq!['\n'],
        seq![' '],
    ) + seq![' ', '(', 'i', 'n', ' '] + e.peripheral + seq![')']
}

/// Formats the line that describes an interrupt.
pub fn interrupt_line(entry: &InterruptWithPeriph) -> (r: String)
    ensures
        r@ == interrupt_line_spec(entry@),
{
    let interrupt = &entry.interrupt;
    let description = unwrap_or_empty_str(&interrupt.description);
    proof {
        reveal_strlit("\r\n");
        reveal_strlit("\n");
        reveal_strlit(" ");
        reveal_strlit(": ");
        reveal_strlit(" (in ");
        reveal_strlit(")");
    }
    assert(description@ == opt_text(opt_view(interrupt.description)));
    assert("\r\n"@ =~= seq!['\r', '\n']);
    assert("\n"@ =~= seq!['\n']);
    assert(" "@ =~= seq![' ']);
    assert(": "@ =~= seq![':', ' ']);
    assert(" (in "@ =~= seq![' ', '(', 'i', 'n', ' ']);
    assert(")"@ =~= seq![')']);
    let d1 = replace_str(description, "\r\n", " ");
    let d2 = replace_str(d1.as_str(), "\n", " ");
    let mut out = String::new();
    push_decimal(&mut out, interrupt.value as u64);
    out.append(" ");
    out.append(interrupt.name.as_str());
    out.append(": ");
    out.append(d2.as_str());
    out.append(" (in ");
    out.append(entry.peripheral.as_str());
    out.append(")");
    assert(out@ =~= interrupt_line_spec(entry@));
    out
}

/// The numbers joined with `, ` between them.
pub open spec fn join_numbers(gaps: Seq<u32>) -> Seq<char>
    decreases gaps.len(),
{
    if gaps.len() == 0 {
        Seq::empty()
    } else if gaps.len() == 1 {
        decimal(gaps[0] as nat)
    } else {
        join_numbers(gaps.drop_last()) + seq![',', ' '] + decimal(gaps.last() as nat)
    }
}

/// Formats the line that lists the unused interrupt numbers:
/// `Gaps: ` followed by the numbers separated by `, `.
pub fn gaps_line(gaps: &[u32]) -> (r: String)
    ensures
        r@ == seq!['G', 'a', 'p', 's', ':', ' '] + join_numbers(gaps@),
{
    proof {
        reveal_strlit("Gaps: ");
        reveal_strlit(", ");
    }
    let mut out = copy_str("Gaps: ");
    let ghost head = out@;
    let mut i: usize = 0;
    while i < gaps.len()
        invariant
            head == seq!['G', 'a', 'p', 's', ':', ' '],
            i <= gaps@.len(),
            out@ == head + join_numbers(gaps@.take(i as int)),
        decreases gaps.len() - i,
    {
        let ghost pre = gaps@.take(i as int);
        let ghost cur = gaps@.take(i + 1);
        assert(cur.drop_last() =~= pre);
        if i > 0 {
            out.append(", ");
        }
        push_decimal(&mut out, gaps[i] as u64);
        i = i + 1;
        proof {
            assert(cur.last() == gaps@[i - 1]);
            reveal_strlit(", ");
            assert(", "@ =~= seq![',', ' ']);
            if i == 1 {
                assert(pre =~= Seq::<u32>::empty());
                assert(cur.len() == 1);
                assert(join_numbers(cur) == decimal(cur[0] as nat));
            } else {
                assert(join_numbers(cur) == join_numbers(pre) + seq![',', ' '] + decimal(cur.last() as nat));
            }
        }
        assert(out@ =~= head + join_numbers(gaps@.take(i as int)));
    }
    assert(gaps@.take(gaps@.len() as int) =~= gaps@);
    out
}

/// The numbers strictly between each pair of consecutive numbers of `vals`.
pub open spec fn between_consecutive(vals: Seq<u32>) -> Seq<u32>
    decreases vals.len(),
{
    if vals.len() < 2 {
        Seq::empty()
    } else {
        between_consecutive(vals.drop_last()) + range_seq(
            vals[vals.len() - 2] + 1,
            vals.last() as int,
        )
    }
}

/// The interrupt numbers of a list of entries.
pub open spec fn values_of(s: Seq<InterruptWithPeriph>) -> Seq<u32> {
    s.map_values(|e: InterruptWithPeriph| e.interrupt.value)
}

/// The numbers missing between consecutive interrupts of the list.
pub fn get_gaps(interrupt_list: &[InterruptWithPeriph]) -> (r: Vec<u32>)
    requires
        forall|i: int| 0 <= i < interrupt_list@.len() - 1 ==> interrupt_list@[i].interrupt.value < u32::MAX,
    ensures
        r@ == between_consecutive(values_of(interrupt_list@)),
{
    let ghost vals = values_of(interrupt_list@);
    let mut gaps: Vec<u32> = Vec::new();
    let n = interrupt_list.len();
    if n == 0 {
        return gaps;
    }
    let mut i: usize = 0;
    assert(between_consecutive(vals.take(1)) =~= Seq::<u32>::empty());
    while i + 1 < n
        invariant
            n == interrupt_list@.len(),
            n > 0,
            vals == values_of(interrupt_list@),
            forall|k: int| 0 <= k < n - 1 ==> interrupt_list@[k].interrupt.value < u32::MAX,
            i < n,
            gaps@ == between_consecutive(vals.take(i + 1)),
        decreases n - i,
    {
        let curr_num = interrupt_list[i].interrupt.value;
        let next_num = interrupt_list[i + 1].interrupt.value;
        let ghost base = gaps@;
        let mut k = curr_num + 1;
        while k < next_num
            invariant
                curr_num < u32::MAX,
                curr_num + 1 <= k <= next_num || (curr_num + 1 >= next_num && k == curr_num + 1),
                gaps@ == base + range_seq(curr_num + 1, k as int),
            decreases next_num - k,
        {
            gaps.push(k);
            k = k + 1;
            assert(range_seq(curr_num + 1, k as int) =~= range_seq(curr_num + 1, k - 1).push((k - 1) as u32));
        }
        proof {
            if curr_num + 1 >= next_num {
                assert(range_seq(curr_num + 1, k as int) =~= range_seq(curr_num + 1, next_num as int));
            }
            let cur = vals.take(i + 2);
            assert(cur.drop_last() =~= vals.take(i + 1));
            assert(cur[cur.len() - 2] == curr_num);
            assert(cur.last() == next_num);
        }
        i = i + 1;
    }
    assert(vals.take(i + 1) =~= vals);
    gaps
}

} // verus!
