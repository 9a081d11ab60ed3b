use linecount::error::CountError;
use linecount::filter::NameFilter;

#[test]
fn default_pattern_accepts_every_name() {
    let filter = NameFilter::new(".*", false).unwrap();
    assert!(filter.accepts("Cargo.lock"));
    assert!(filter.accepts(""));
    assert!(filter.accepts(".hidden"));
}

#[test]
fn pattern_is_searched_anywhere_in_the_name() {
    let filter = NameFilter::new("arg", false).unwrap();
    assert!(filter.accepts("Cargo.lock"));
    assert!(!filter.accepts("main.rs"));
}

#[test]
fn extension_pattern_matches_the_end_of_the_name() {
    let filter = NameFilter::new("(\\.lock)$", false).unwrap();
    assert!(filter.accepts("Cargo.lock"));
    assert!(!filter.accepts("Cargo.lock.bak"));
    assert!(!filter.accepts("lock"));
    assert!(!filter.accepts("main.rs"));
}

#[test]
fn several_extensions_in_one_pattern() {
    let filter = NameFilter::new("(\\.(txt|html))$", false).unwrap();
    assert!(filter.accepts("notes.txt"));
    assert!(filter.accepts("index.html"));
    assert!(!filter.accepts("index.htm"));
}

#[test]
fn inverted_filter_flips_every_verdict() {
    let names = ["Cargo.lock", "main.rs", "", "lock", ".lock", "a.lock.b"];
    let plain = NameFilter::new("(\\.lock)$", false).unwrap();
    let inverted = NameFilter::new("(\\.lock)$", true).unwrap();
    for name in names {
        assert_eq!(inverted.accepts(name), !plain.accepts(name));
    }
    assert!(inverted.accepts("main.rs"));
    assert!(!inverted.accepts("Cargo.lock"));
}

#[test]
fn inverted_default_pattern_accepts_nothing() {
    let filter = NameFilter::new(".*", true).unwrap();
    assert!(!filter.accepts("Cargo.lock"));
    assert!(!filter.accepts(""));
}

#[test]
fn invalid_pattern_is_turned_down() {
    let r = NameFilter::new("(unclosed", false);
    assert!(matches!(r, Err(CountError::InvalidPattern(_))));
    let r = NameFilter::new("a{2,1}", true);
    assert!(matches!(r, Err(CountError::InvalidPattern(_))));
}

#[test]
fn from_compiled_keeps_the_outcome_of_compiling() {
    let filter = NameFilter::from_compiled(regex::Regex::new("^a"), true).unwrap();
    assert!(!filter.accepts("abc"));
    assert!(filter.accepts("bca"));
    let cause = regex::Regex::new("[").unwrap_err();
    match NameFilter::from_compiled(Err(cause.clone()), false) {
        Err(CountError::InvalidPattern(e)) => assert_eq!(e, cause),
        _ => panic!("an invalid pattern must be reported as such"),
    }
}
