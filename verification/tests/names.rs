use svdtools::patch::names::{matchname, try_matchname};

fn nested(depth: usize) -> String {
    let mut p = String::new();
    for _ in 0..depth {
        p.push_str("{a");
    }
    for _ in 0..depth {
        p.push('}');
    }
    p
}

#[test]
fn globs_and_alternatives() {
    assert!(matchname("GPIOA", "GPIO?"));
    assert!(matchname("GPIOB", "GPIOA,GPIOB"));
    assert!(!matchname("GPIOC", "GPIO{A,B}"));
    assert_eq!(try_matchname("GPIOA", "GPIO[A"), None);
}

#[test]
fn a_name_with_a_backslash_matches_no_glob() {
    assert_eq!(try_matchname("A\\B", "A*"), Some(false));
    assert_eq!(try_matchname("A\\B", "A\\\\B"), Some(false));
    assert_eq!(try_matchname("A\\B", "A[B"), None);
}

#[test]
fn deeply_nested_alternates_are_refused() {
    let deep = nested(32);
    assert_eq!(try_matchname(&"a".repeat(32), &deep), Some(true));
    assert_eq!(try_matchname(&"a".repeat(260), &nested(260)), None);
    assert_eq!(try_matchname("a", &nested(33)), None);
}

#[test]
fn long_patterns_are_refused() {
    let long = "A".repeat(1001);
    assert_eq!(try_matchname(&long, &long), None);
    let fits = "A".repeat(1000);
    assert_eq!(try_matchname(&fits, &fits), Some(true));
}
