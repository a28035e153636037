use svdtools::interrupts::interrupt_list::InterruptList;
use svdtools::interrupts::interrupts_cli::{gaps_line, get_gaps};
use svdtools::interrupts::svd_reader::{peripherals_with_interrupts, Interrupt, Peripheral, PeripheralXml};

fn irq(name: &str, description: Option<&str>, value: u32) -> Interrupt {
    Interrupt {
        name: name.to_string(),
        description: description.map(|d| d.to_string()),
        value,
    }
}

#[test]
fn correct_gaps_if_zero_and_two_are_missing() {
    let peripherals = vec![
        Peripheral {
            name: "PeriphA".to_string(),
            interrupt: vec![irq("INT_A1", None, 1)],
        },
        Peripheral {
            name: "PeriphB".to_string(),
            interrupt: vec![irq("INT_B3", None, 3)],
        },
    ];
    let interrupt_list = InterruptList::new(peripherals);

    let expected_gaps = vec![0, 2];
    let actual_gaps = interrupt_list.gaps();

    assert_eq!(actual_gaps, expected_gaps);
}

/// The device description of the original test, as the XML reader hands it
/// over: PeriphA with INT_A1 (1), PeriphB with INT_B3 (3).
#[test]
fn peripherals_interrupts_are_parsed_correctly() {
    let parsed = vec![
        PeripheralXml {
            name: "PeriphA".to_string(),
            interrupt: Some(vec![irq("INT_A1", Some("Interrupt A1"), 1)]),
        },
        PeripheralXml {
            name: "PeriphB".to_string(),
            interrupt: Some(vec![irq("INT_B3", Some("Interrupt B3"), 3)]),
        },
    ];
    let actual_peripherals = peripherals_with_interrupts(parsed);
    let expected = [("PeriphA", "INT_A1", "Interrupt A1", 1u32), ("PeriphB", "INT_B3", "Interrupt B3", 3u32)];
    assert_eq!(actual_peripherals.len(), expected.len());
    for (p, (pn, iname, idesc, ival)) in actual_peripherals.iter().zip(expected.iter()) {
        assert_eq!(p.name, *pn);
        assert_eq!(p.interrupt.len(), 1);
        assert_eq!(p.interrupt[0].name, *iname);
        assert_eq!(p.interrupt[0].description.as_deref(), Some(*idesc));
        assert_eq!(p.interrupt[0].value, *ival);
    }
}

#[test]
fn peripherals_without_interrupts_are_dropped() {
    let parsed = vec![
        PeripheralXml { name: "A".to_string(), interrupt: None },
        PeripheralXml { name: "B".to_string(), interrupt: Some(vec![irq("I", None, 0)]) },
    ];
    let ps = peripherals_with_interrupts(parsed);
    assert_eq!(ps.len(), 1);
    assert_eq!(ps[0].name, "B");
}

#[test]
fn interrupts_come_out_ordered_by_number() {
    let peripherals = vec![Peripheral {
        name: "P".to_string(),
        interrupt: vec![irq("C", None, 7), irq("A", None, 2), irq("B", None, 5)],
    }];
    let list = InterruptList::new(peripherals);
    let values: Vec<u32> = list.ordered().iter().map(|e| e.interrupt.value).collect();
    assert_eq!(values, vec![2, 5, 7]);
    assert_eq!(list.gaps(), vec![0, 1, 3, 4, 6]);
    // only the numbers between two interrupts count here
    assert_eq!(get_gaps(list.ordered()), vec![3, 4, 6]);
}

#[test]
fn no_gaps_without_missing_numbers() {
    let peripherals = vec![Peripheral {
        name: "P".to_string(),
        interrupt: vec![irq("A", None, 0), irq("B", None, 1)],
    }];
    assert_eq!(InterruptList::new(peripherals).gaps(), Vec::<u32>::new());
    assert_eq!(gaps_line(&[]), "Gaps: ");
    assert_eq!(gaps_line(&[0, 2]), "Gaps: 0, 2");
}
