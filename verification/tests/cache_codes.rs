use transit_rs::cache_codes::{code_number, code_text, KeyCacher, NumbersIter, CACHE_CODE_DIGITS};
use transit_rs::de::ErrorKind;

#[test]
fn single_digit() {
    let mut cacher = KeyCacher::new();

    assert_eq!(cacher.cache("test1".to_owned()), None);
    assert_eq!(cacher.cache("test2".to_owned()), None);
    assert_eq!(cacher.cache("test3".to_owned()), None);
    assert_eq!(cacher.cache("test4".to_owned()), None);
    assert_eq!(cacher.cache("test5".to_owned()), None);
    assert_eq!(cacher.cache("test6".to_owned()), None);
    assert_eq!(cacher.cache("test7".to_owned()), None);
    assert_eq!(cacher.cache("test8".to_owned()), None);
    assert_eq!(cacher.cache("test9".to_owned()), None);
    assert_eq!(cacher.cache("test10".to_owned()), None);
    assert_eq!(cacher.cache("test11".to_owned()), None);

    assert_eq!(cacher.cache("test5".to_owned()), Some("^4".to_owned()));
    assert_eq!(cacher.cache("test6".to_owned()), Some("^5".to_owned()));

    assert_eq!(cacher.cache("test12".to_owned()), None);
}

#[test]
fn two_digits() {
    let mut cacher = KeyCacher::new();

    for i in 0..CACHE_CODE_DIGITS {
        cacher.cache(format!("test{}", i));
    }

    assert_eq!(cacher.cache("another one".to_owned()), None);
    assert_eq!(cacher.cache("another one".to_owned()), Some("^10".to_owned()));
    assert_eq!(cacher.cache("another two".to_owned()), None);

    assert_eq!(cacher.cache("another one".to_owned()), Some("^10".to_owned()));
    assert_eq!(cacher.cache("another one".to_owned()), Some("^10".to_owned()));
    assert_eq!(cacher.cache("another two".to_owned()), Some("^11".to_owned()));
}

#[test]
fn codes_follow_the_alphabet() {
    assert_eq!(code_text(0), "^0");
    assert_eq!(code_text(9), "^9");
    assert_eq!(code_text(10), "^:");
    assert_eq!(code_text(17), "^A");
    assert_eq!(code_text(43), "^[");
    assert_eq!(code_text(44), "^10");
    assert_eq!(code_text(45), "^11");
    assert_eq!(code_text(87), "^1[");
    assert_eq!(code_text(88), "^20");
    assert_eq!(code_text(1935), "^[[");
    assert_eq!(code_text(1979), "^\\[");
}

#[test]
fn code_numbers_invert_codes() {
    for n in 0..1980u16 {
        assert_eq!(code_number(&code_text(n)), Some(n));
    }
    assert_eq!(code_number("^"), None);
    assert_eq!(code_number("^\\\\"), None);
    assert_eq!(code_number("^00"), None);
    assert_eq!(code_number("~0"), None);
    assert_eq!(code_number("^000"), None);
    assert_eq!(code_number("^/"), None);
}

#[test]
fn numbers_iter_ends_after_the_last_code() {
    let mut it = NumbersIter::new();
    assert_eq!(it.next(), Some("^0".to_owned()));
    assert_eq!(it.next(), Some("^1".to_owned()));
    for _ in 2..1979 {
        assert!(it.next().is_some());
    }
    assert_eq!(it.next(), Some("^\\[".to_owned()));
    assert_eq!(it.next(), None);
    assert_eq!(it.next(), None);
}

#[test]
fn short_strings_are_never_admitted() {
    let mut cacher = KeyCacher::new();
    assert_eq!(cacher.cache("abc".to_owned()), None);
    assert_eq!(cacher.cache("abc".to_owned()), None);
    assert_eq!(cacher.cache("".to_owned()), None);
    assert_eq!(cacher.len(), 0);
    assert_eq!(cacher.cache("abcd".to_owned()), None);
    assert_eq!(cacher.len(), 1);
    assert_eq!(cacher.cache("abcd".to_owned()), Some("^0".to_owned()));
    assert_eq!(cacher.len(), 1);
    // three characters, though more than three bytes
    assert_eq!(cacher.cache("äöü".to_owned()), None);
    assert_eq!(cacher.len(), 1);
}

#[test]
fn the_cache_only_grows_at_its_end() {
    let mut cacher = KeyCacher::new();
    let words = ["alpha", "beta", "alpha", "gamma", "be", "beta", "delta"];
    let mut seen: Vec<&str> = Vec::new();
    for w in words {
        let before = cacher.len();
        let code = cacher.cache(w.to_owned());
        if w.len() > 3 && !seen.contains(&w) {
            assert_eq!(code, None);
            assert_eq!(cacher.len(), before + 1);
            seen.push(w);
        } else {
            assert_eq!(cacher.len(), before);
        }
        for (i, s) in seen.iter().enumerate() {
            assert_eq!(cacher.find(s), Some(i));
        }
    }
}

#[test]
fn full_cache_overflows() {
    let mut cacher = KeyCacher::new();
    for i in 0..1980 {
        assert!(matches!(cacher.try_cache(format!("key-{}", i)), Ok(None)));
    }
    assert_eq!(cacher.len(), 1980);
    let r = cacher.try_cache("one too many".to_owned());
    assert_eq!(r.unwrap_err().kind(), ErrorKind::CacheOverflow);
    assert_eq!(cacher.len(), 1980);
    // what is in the cache still comes out as its code, and short strings still pass
    assert_eq!(cacher.try_cache("key-1979".to_owned()).unwrap(), Some("^\\[".to_owned()));
    assert_eq!(cacher.try_cache("abc".to_owned()).unwrap(), None);
}

#[test]
fn resolve_mirrors_cache() {
    let mut writer = KeyCacher::new();
    let mut reader = KeyCacher::new();
    let words = ["alpha", "beta", "alpha", "ab", "gamma", "beta", "alpha"];
    for w in words {
        let wire = match writer.cache(w.to_owned()) {
            Some(code) => code,
            None => w.to_owned(),
        };
        assert_eq!(reader.resolve(wire).unwrap(), w);
        assert_eq!(reader.len(), writer.len());
    }
}

#[test]
fn resolve_reports_a_miss() {
    let mut reader = KeyCacher::new();
    assert_eq!(reader.resolve("^0".to_owned()).unwrap_err().kind(), ErrorKind::CacheMiss);
    assert_eq!(reader.resolve("alpha".to_owned()).unwrap(), "alpha");
    assert_eq!(reader.resolve("^0".to_owned()).unwrap(), "alpha");
    assert_eq!(reader.resolve("^1".to_owned()).unwrap_err().kind(), ErrorKind::CacheMiss);
    assert_eq!(reader.resolve("^".to_owned()).unwrap_err().kind(), ErrorKind::CacheMiss);
    assert_eq!(reader.resolve("^zz".to_owned()).unwrap_err().kind(), ErrorKind::CacheMiss);
}
