use std::cell::Cell;
use std::cell::RefCell;

use mwparser_utils::CachedTexChecker;
use mwparser_utils::CheckerFailure;
use mwparser_utils::TexChecker;
use mwparser_utils::TexResult;
use mwparser_utils::classify_output;

#[test]
fn classify_plus_is_valid_with_payload() {
    assert_eq!(
        classify_output("+OK".as_bytes()),
        Ok(TexResult::Valid("OK".to_string()))
    );
}

#[test]
fn classify_f_is_unknown_function_with_payload() {
    assert_eq!(
        classify_output("F\\foo".as_bytes()),
        Ok(TexResult::UnknownFunction("\\foo".to_string()))
    );
}

#[test]
fn classify_s_is_syntax_error_payload_discarded() {
    assert_eq!(
        classify_output("Ssome detail".as_bytes()),
        Ok(TexResult::SyntaxError)
    );
}

#[test]
fn classify_e_is_lexing_error_payload_discarded() {
    assert_eq!(
        classify_output("Edetail".as_bytes()),
        Ok(TexResult::LexingError)
    );
}

#[test]
fn classify_unknown_first_byte_is_unknown_error() {
    assert_eq!(
        classify_output("Xwhatever".as_bytes()),
        Ok(TexResult::UnknownError)
    );
}

#[test]
fn classify_empty_output_is_unknown_error() {
    assert_eq!(classify_output("".as_bytes()), Ok(TexResult::UnknownError));
}

#[test]
fn classify_rejects_corrupt_payload() {
    assert_eq!(
        classify_output(&[b'+', 0xff]),
        Err(CheckerFailure::CorruptOutput)
    );
}

#[test]
fn new_checker_is_empty() {
    let c = CachedTexChecker::new("/usr/local/bin/texvccheck", 100);
    assert_eq!(c.cache_len(), 0);
    assert_eq!(c.get_path().as_str(), "/usr/local/bin/texvccheck");
    assert_eq!(c.lookup("x"), None);
}

#[test]
fn duplicate_is_an_equal_copy() {
    let r = TexResult::Valid("x^{2}".to_string());
    assert_eq!(r.duplicate(), r);
}

#[test]
fn miss_populates_cache_with_returned_value() {
    let mut c = CachedTexChecker::new("p", 8);
    assert_eq!(c.lookup("\\foo"), None);
    let r = c.check_output("\\foo", "F\\foo".as_bytes()).unwrap();
    assert_eq!(r, TexResult::UnknownFunction("\\foo".to_string()));
    assert_eq!(c.lookup("\\foo"), Some(r));
    assert_eq!(c.cache_len(), 1);
}

#[test]
fn unknown_error_is_cached_too() {
    let mut c = CachedTexChecker::new("p", 8);
    assert_eq!(
        c.check_output("w", "".as_bytes()),
        Ok(TexResult::UnknownError)
    );
    assert_eq!(c.lookup("w"), Some(TexResult::UnknownError));
}

#[test]
fn corrupt_output_caches_nothing() {
    let mut c = CachedTexChecker::new("p", 4);
    assert_eq!(
        c.check_output("q", &[b'F', 0xc0]),
        Err(CheckerFailure::CorruptOutput)
    );
    assert_eq!(c.cache_len(), 0);
    assert_eq!(c.lookup("q"), None);
}

#[test]
fn cache_never_exceeds_max_size_plus_one() {
    let mut c = CachedTexChecker::new("p", 10);
    for i in 0..50 {
        let key = format!("f{}", i);
        if c.lookup(&key).is_none() {
            c.check_output(&key, "+r".as_bytes()).unwrap();
        }
        assert!(c.cache_len() <= 11);
    }
}

#[test]
fn eviction_drops_one_in_ten() {
    let mut c = CachedTexChecker::new("p", 10);
    for i in 0..10 {
        let key = format!("k{}", i);
        c.check_output(&key, "+v".as_bytes()).unwrap();
    }
    assert_eq!(c.cache_len(), 10);
    c.check_output("k10", "+v".as_bytes()).unwrap();
    // of the ten older entries exactly one, the first, was dropped
    assert_eq!(c.cache_len(), 10);
    assert_eq!(c.lookup("k0"), None);
    assert_eq!(c.lookup("k1"), Some(TexResult::Valid("v".to_string())));
    assert_eq!(c.lookup("k10"), Some(TexResult::Valid("v".to_string())));
}

#[test]
fn set_path_keeps_cached_results() {
    let mut c = CachedTexChecker::new("old_checker", 4);
    c.check_output("a+b", "+a+b".as_bytes()).unwrap();
    c.set_path("new_checker");
    assert_eq!(c.get_path().as_str(), "new_checker");
    assert_eq!(c.lookup("a+b"), Some(TexResult::Valid("a+b".to_string())));
}

#[test]
fn end_to_end_with_small_cache() {
    let mut c = CachedTexChecker::new("fake", 2);
    assert_eq!(c.lookup("1+1"), None);
    assert_eq!(
        c.check_output("1+1", "+OK".as_bytes()),
        Ok(TexResult::Valid("OK".to_string()))
    );
    assert_eq!(c.lookup("bad"), None);
    assert_eq!(
        c.check_output("bad", "S".as_bytes()),
        Ok(TexResult::SyntaxError)
    );
    assert_eq!(c.lookup("foo(x)"), None);
    assert_eq!(
        c.check_output("foo(x)", "F".as_bytes()),
        Ok(TexResult::UnknownFunction("".to_string()))
    );
    // the third result crossed max_size = 2 and triggered an eviction pass
    assert_eq!(c.cache_len(), 2);
    assert_eq!(c.lookup("bad"), Some(TexResult::SyntaxError));
    assert_eq!(c.lookup("foo(x)"), Some(TexResult::UnknownFunction("".to_string())));
    assert_eq!(c.lookup("1+1"), None);
}

/// A checker double whose "external process" is a canned table, counting
/// how often it is consulted.
struct CountingChecker {
    cache: RefCell<CachedTexChecker>,
    invocations: Cell<u32>,
}

impl CountingChecker {
    fn new(size: usize) -> CountingChecker {
        CountingChecker {
            cache: RefCell::new(CachedTexChecker::new("fake", size)),
            invocations: Cell::new(0),
        }
    }

    fn fake_output(source: &str) -> Vec<u8> {
        match source {
            "1+1" => "+OK".as_bytes().to_vec(),
            "bad" => "S".as_bytes().to_vec(),
            _ => "X".as_bytes().to_vec(),
        }
    }
}

impl TexChecker for CountingChecker {
    fn check(&self, source: &str) -> TexResult {
        let mut cache = self.cache.borrow_mut();
        if let Some(result) = cache.lookup(source) {
            return result;
        }
        self.invocations.set(self.invocations.get() + 1);
        let output = Self::fake_output(source);
        cache
            .check_output(source, &output)
            .expect("Corrupted texvccheck output!")
    }
}

#[test]
fn repeated_check_returns_equal_results_and_invokes_once() {
    let checker = CountingChecker::new(8);
    let first = checker.check("1+1");
    let second = checker.check("1+1");
    assert_eq!(first, TexResult::Valid("OK".to_string()));
    assert_eq!(first, second);
    assert_eq!(checker.invocations.get(), 1);
    let other = checker.check("bad");
    assert_eq!(other, TexResult::SyntaxError);
    assert_eq!(checker.invocations.get(), 2);
}
