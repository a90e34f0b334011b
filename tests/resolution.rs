use rocks::index::{IndexError, ReferenceIndex};
use rocks::resolve::{Mode, Resolution};

fn apple_index() -> ReferenceIndex {
    let equities = b"Symbol,Name\nAAPL,Apple Inc.\n".to_vec();
    let funds = b"Symbol,Name\nAAPL.W,Apple Warrant\n".to_vec();
    ReferenceIndex::build(&vec![equities, funds]).unwrap()
}

fn candidates(r: Resolution) -> Vec<String> {
    match r {
        Resolution::Candidates(c) => c,
        Resolution::Direct(s) => panic!("expected candidates, got symbol {}", s),
    }
}

fn direct(r: Resolution) -> String {
    match r {
        Resolution::Direct(s) => s,
        Resolution::Candidates(c) => panic!("expected a symbol, got {:?}", c),
    }
}

fn row(fields: &[&str]) -> Vec<String> {
    fields.iter().map(|f| f.to_string()).collect()
}

#[test]
fn known_symbol_resolves_directly() {
    let ix = apple_index();
    assert_eq!(direct(ix.resolve("AAPL", Mode::Auto)), "AAPL");
    assert_eq!(direct(ix.resolve("AAPL.W", Mode::Auto)), "AAPL.W");
}

#[test]
fn symbol_match_is_case_sensitive() {
    let ix = apple_index();
    assert!(!ix.contains_symbol("aapl"));
    assert_eq!(
        candidates(ix.resolve("aapl", Mode::Auto)),
        vec!["apple inc.".to_string(), "apple warrant".to_string()]
    );
}

#[test]
fn force_name_skips_symbol_check() {
    let ix = apple_index();
    assert_eq!(
        candidates(ix.resolve("AAPL", Mode::ForceName)),
        vec!["apple inc.".to_string(), "apple warrant".to_string()]
    );
}

#[test]
fn shared_prefix_gives_both_names() {
    let ix = apple_index();
    let c = candidates(ix.resolve("appl", Mode::Auto));
    assert_eq!(c, vec!["apple inc.".to_string(), "apple warrant".to_string()]);
    let names: Vec<String> = c.iter().map(|k| ix.lookup(k).unwrap().name.clone()).collect();
    assert_eq!(names, vec!["Apple Inc.".to_string(), "Apple Warrant".to_string()]);
}

#[test]
fn full_name_prefix_gives_one_name() {
    let ix = apple_index();
    let c = candidates(ix.resolve("apple inc", Mode::Auto));
    assert_eq!(c, vec!["apple inc.".to_string()]);
    assert_eq!(ix.lookup(&c[0]).unwrap().name, "Apple Inc.");
    assert_eq!(ix.symbol_for(&c[0]), Some("AAPL".to_string()));
}

#[test]
fn unknown_query_gives_no_candidates() {
    let ix = apple_index();
    assert!(candidates(ix.resolve("xyz-unknown", Mode::Auto)).is_empty());
}

#[test]
fn longest_matching_prefix_is_kept() {
    let ix = apple_index();
    assert_eq!(
        candidates(ix.resolve("apple zzz", Mode::Auto)),
        vec!["apple inc.".to_string(), "apple warrant".to_string()]
    );
    assert_eq!(candidates(ix.resolve("apple w", Mode::Auto)), vec!["apple warrant".to_string()]);
    assert_eq!(candidates(ix.resolve("apple wx", Mode::Auto)), vec!["apple warrant".to_string()]);
}

#[test]
fn resolving_twice_is_identical() {
    let ix = apple_index();
    let a = candidates(ix.resolve("apple q", Mode::Auto));
    let b = candidates(ix.resolve("apple q", Mode::Auto));
    assert_eq!(a, b);
    assert_eq!(a.len(), 2);
}

#[test]
fn resolution_ignores_case() {
    let ix = apple_index();
    let lower = candidates(ix.resolve("apple", Mode::Auto));
    let upper = candidates(ix.resolve("APPLE", Mode::Auto));
    let title = candidates(ix.resolve("Apple", Mode::ForceName));
    assert_eq!(lower, vec!["apple inc.".to_string(), "apple warrant".to_string()]);
    assert_eq!(lower, upper);
    assert_eq!(lower, title);
}

#[test]
fn lowercased_query_is_narrowed_directly() {
    let ix = apple_index();
    assert_eq!(ix.narrow_lowercase("apple w"), vec!["apple warrant".to_string()]);
    assert!(ix.narrow_lowercase("APPLE").is_empty());
    assert_eq!(ix.find_candidates("APPLE W"), vec!["apple warrant".to_string()]);
}

#[test]
fn force_symbol_takes_unknown_symbol() {
    let ix = apple_index();
    assert!(!ix.contains_symbol("ZZZZ"));
    assert_eq!(direct(ix.resolve("ZZZZ", Mode::ForceSymbol)), "ZZZZ");
}

#[test]
fn later_record_overwrites_name() {
    let rows = vec![row(&["X", "Foo"]), row(&["Y", "FOO"])];
    let ix = ReferenceIndex::from_rows(&rows);
    assert_eq!(ix.len(), 2);
    assert_eq!(ix.symbol_for("foo"), Some("Y".to_string()));
    assert_eq!(ix.lookup("foo").unwrap().name, "FOO");
    assert!(ix.contains_symbol("X"));
    assert!(ix.contains_symbol("Y"));
    assert_eq!(candidates(ix.resolve("f", Mode::Auto)), vec!["foo".to_string()]);
}

#[test]
fn short_rows_are_skipped() {
    let rows = vec![row(&["ONLY"]), row(&[]), row(&["MSFT", "Microsoft Corp", "extra"])];
    let ix = ReferenceIndex::from_rows(&rows);
    assert_eq!(ix.len(), 1);
    assert!(!ix.contains_symbol("ONLY"));
    assert_eq!(ix.symbol_for("microsoft corp"), Some("MSFT".to_string()));
    assert_eq!(ix.symbol_for("Microsoft Corp"), None);
}

#[test]
fn header_row_is_not_indexed() {
    let ix = ReferenceIndex::build(&vec![b"Symbol,Name\nIBM,IBM Corp\n".to_vec()]).unwrap();
    assert_eq!(ix.len(), 1);
    assert!(!ix.contains_symbol("Symbol"));
    assert!(ix.contains_symbol("IBM"));
}

#[test]
fn unreadable_source_is_reported() {
    let good = b"Symbol,Name\nIBM,IBM Corp\n".to_vec();
    let not_utf8 = b"Symbol,Name\nIBM,\xff\xfe\n".to_vec();
    let r = ReferenceIndex::build(&vec![good, not_utf8]);
    assert_eq!(r.err(), Some(IndexError::DataUnavailable { source: 1 }));
}

#[test]
fn short_rows_in_a_source_are_skipped() {
    let data = b"Symbol,Name\nONLY\nIBM,IBM Corp\n\nMSFT,Microsoft,extra\n".to_vec();
    let ix = ReferenceIndex::build(&vec![data]).unwrap();
    assert_eq!(ix.len(), 2);
    assert!(!ix.contains_symbol("ONLY"));
    assert_eq!(ix.symbol_for("ibm corp"), Some("IBM".to_string()));
    assert_eq!(ix.symbol_for("microsoft"), Some("MSFT".to_string()));
}

#[test]
fn name_that_prefixes_an_earlier_one_is_found() {
    let rows = vec![row(&["B", "Apple Inc."]), row(&["A", "Apple"])];
    let ix = ReferenceIndex::from_rows(&rows);
    assert_eq!(
        candidates(ix.resolve("apple", Mode::Auto)),
        vec!["apple".to_string(), "apple inc.".to_string()]
    );
    assert_eq!(candidates(ix.resolve("app", Mode::Auto)).len(), 2);
    assert_eq!(ix.symbol_for("apple"), Some("A".to_string()));

    let rows = vec![row(&["A", "Apple"]), row(&["B", "Apple Inc."])];
    let ix = ReferenceIndex::from_rows(&rows);
    assert_eq!(
        candidates(ix.resolve("apple", Mode::Auto)),
        vec!["apple".to_string(), "apple inc.".to_string()]
    );
}

#[test]
fn repeated_and_empty_names_are_harmless() {
    let rows = vec![
        row(&["E", ""]),
        row(&["X", "Zeta Corp"]),
        row(&["Y", "zeta corp"]),
        row(&["Z", "Zeta"]),
    ];
    let ix = ReferenceIndex::from_rows(&rows);
    assert_eq!(ix.len(), 4);
    assert_eq!(
        candidates(ix.resolve("zeta", Mode::ForceName)),
        vec!["zeta".to_string(), "zeta corp".to_string()]
    );
    assert_eq!(ix.symbol_for("zeta corp"), Some("Y".to_string()));
    assert!(candidates(ix.resolve("", Mode::ForceName)).is_empty());
}

#[test]
fn candidates_come_in_ascending_order() {
    let rows = vec![row(&["C", "Beta"]), row(&["A", "Bat"]), row(&["B", "Band"])];
    let ix = ReferenceIndex::from_rows(&rows);
    assert_eq!(
        candidates(ix.resolve("b", Mode::Auto)),
        vec!["band".to_string(), "bat".to_string(), "beta".to_string()]
    );
}

#[test]
fn non_ascii_names_are_found() {
    let rows = vec![row(&["NESN", "Nestlé SA"]), row(&["NOK", "Nokia"])];
    let ix = ReferenceIndex::from_rows(&rows);
    assert_eq!(candidates(ix.resolve("NESTLÉ", Mode::Auto)), vec!["nestlé sa".to_string()]);
}

#[test]
fn candidate_choice_maps_to_symbol() {
    let ix = apple_index();
    let c = candidates(ix.resolve("appl", Mode::Auto));
    assert_eq!(ix.choose_candidate(&c, 0), Some("AAPL".to_string()));
    assert_eq!(ix.choose_candidate(&c, 1), Some("AAPL.W".to_string()));
    assert_eq!(ix.choose_candidate(&c, 2), None);
}
