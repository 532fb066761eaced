use dropsync::util::get_case_insensitive;
use dropsync::util::get_primary_hostname;
use dropsync::util::str_eq;
use dropsync::util::str_eq_ignore_case;

#[test]
fn test_get_case_insensitive() {
    let mut h: Vec<(String, i32)> = Vec::new();

    h.push(("Boop".to_owned(), 1));

    assert_eq!(get_case_insensitive(&h, &"BOOP".to_owned()), Some(&1));
    assert_eq!(get_case_insensitive(&h, &"meh".to_owned()), None);
}

#[test]
fn test_get_case_insensitive_first_match_wins() {
    let mut h: Vec<(String, i32)> = Vec::new();
    h.push(("app".to_owned(), 1));
    h.push(("APP".to_owned(), 2));
    assert_eq!(get_case_insensitive(&h, &"App".to_owned()), Some(&1));
}

#[test]
fn test_get_primary_hostname() {
    assert_eq!(get_primary_hostname("boop"), "boop".to_owned());
    assert_eq!(get_primary_hostname("boop.local"), "boop".to_owned());
    assert_eq!(get_primary_hostname("boop.blap.local"), "boop".to_owned());
}

#[test]
fn test_get_primary_hostname_leading_dot() {
    assert_eq!(get_primary_hostname(".local"), "".to_owned());
}

#[test]
fn test_case_insensitive_lookup_folds_beyond_latin_letters() {
    let mut h: Vec<(String, i32)> = Vec::new();
    h.push(("\u{c4}rger".to_owned(), 7));
    assert_eq!(get_case_insensitive(&h, &"\u{e4}rger".to_owned()), Some(&7));
    assert_eq!(get_case_insensitive(&h, &"\u{c4}RGER".to_owned()), Some(&7));
}

#[test]
fn test_str_helpers() {
    assert!(str_eq("abc", "abc"));
    assert!(!str_eq("abc", "abd"));
    assert!(!str_eq("abc", "ab"));
    assert!(str_eq_ignore_case("Use App", "use app"));
    assert!(str_eq_ignore_case("\u{dc}BER", "\u{fc}ber"));
    assert!(str_eq_ignore_case("", ""));
    assert!(!str_eq_ignore_case("use app", "use dropbox"));
}
