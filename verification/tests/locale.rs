use cirula::locale::{parse_posix_locale, AppLocale};

#[test]
fn test_parse_posix_locale() {
    // Standard POSIX format with encoding
    assert_eq!(
        parse_posix_locale("en_US.UTF-8"),
        Some("en-US".parse().unwrap())
    );
    assert_eq!(
        parse_posix_locale("de_DE.UTF-8"),
        Some("de-DE".parse().unwrap())
    );
    assert_eq!(
        parse_posix_locale("sv_SE.UTF-8"),
        Some("sv-SE".parse().unwrap())
    );
    assert_eq!(
        parse_posix_locale("nb_NO.UTF-8"),
        Some("nb-NO".parse().unwrap())
    );
}

#[test]
fn test_parse_posix_locale_without_encoding() {
    assert_eq!(parse_posix_locale("en_US"), Some("en-US".parse().unwrap()));
    assert_eq!(parse_posix_locale("de"), Some("de".parse().unwrap()));
}

#[test]
fn test_parse_posix_locale_special() {
    // C and POSIX should return None
    assert_eq!(parse_posix_locale("C"), None);
    assert_eq!(parse_posix_locale("POSIX"), None);
    assert_eq!(parse_posix_locale("C.UTF-8"), None);
}

#[test]
fn test_parse_posix_locale_empty() {
    assert_eq!(parse_posix_locale(""), None);
}

#[test]
fn posix_locale_that_is_no_tag_gives_none() {
    assert_eq!(parse_posix_locale("not a locale!"), None);
    assert_eq!(parse_posix_locale(".UTF-8"), None);
}

#[test]
fn locales_carry_their_canonical_tag() {
    assert_eq!(AppLocale::parse("EN-us").unwrap().tag(), "en-US");
    assert_eq!(parse_posix_locale("sv_SE.UTF-8").unwrap().tag(), "sv-SE");
    assert!(AppLocale::parse("not a tag").is_none());
    assert_eq!(parse_posix_locale("de").unwrap(), AppLocale::parse("de").unwrap());
}
