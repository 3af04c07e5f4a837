use scala_native_demangle::error::{describe, label_of, ErrorKind};
use scala_native_demangle::names::{length_of, name, number};
use scala_native_demangle::DemanglingConfig;

fn config() -> DemanglingConfig {
    DemanglingConfig::default()
}

#[test]
fn name_takes_the_counted_bytes() {
    assert_eq!(name("3abcdef", &config()), Ok((4, "abc".to_string())));
    assert_eq!(name("10__dispatch", &config()), Ok((12, "__dispatch".to_string())));
}

#[test]
fn name_consumes_the_sign_marker() {
    assert_eq!(name("3-abcdef", &config()), Ok((5, "abc".to_string())));
    assert_eq!(name("2-1a", &config()), Ok((4, "1a".to_string())));
    assert_eq!(name("1--", &config()), Ok((3, "-".to_string())));
}

#[test]
fn name_of_no_bytes() {
    assert_eq!(name("0", &config()), Ok((1, String::new())));
    assert_eq!(name("0-", &config()), Ok((2, String::new())));
    assert_eq!(name("0x", &config()), Ok((1, String::new())));
}

#[test]
fn name_takes_leading_zeros() {
    assert_eq!(name("003abc", &config()), Ok((6, "abc".to_string())));
}

#[test]
fn name_reads_every_leading_digit_as_length() {
    assert_eq!(
        name("21a", &config()),
        Err("truncated input: `21a`".to_string())
    );
}

#[test]
fn name_without_length() {
    assert_eq!(
        name("abc", &config()),
        Err("invalid name length: `abc`".to_string())
    );
    assert_eq!(
        name("", &config()),
        Err("invalid name length: unexpected end of input".to_string())
    );
    assert_eq!(
        name("-3abc", &config()),
        Err("invalid name length: `-3abc`".to_string())
    );
}

#[test]
fn name_with_a_length_no_word_holds() {
    let input = "99999999999999999999999999999999999999999x";
    assert_eq!(
        name(input, &config()),
        Err(format!("invalid name length: `{}`", input))
    );
}

#[test]
fn name_cut_short() {
    assert_eq!(
        name("5abc", &config()),
        Err("truncated input: `5abc`".to_string())
    );
    assert_eq!(
        name("1", &config()),
        Err("truncated input: `1`".to_string())
    );
    assert_eq!(
        name("3-ab", &config()),
        Err("truncated input: `3-ab`".to_string())
    );
}

#[test]
fn name_counts_bytes_not_characters() {
    assert_eq!(name("2\u{e9}x", &config()), Ok((3, "\u{e9}".to_string())));
    assert_eq!(name("4\u{1f600}", &config()), Ok((5, "\u{1f600}".to_string())));
}

#[test]
fn name_that_ends_inside_a_character() {
    assert_eq!(
        name("1\u{e9}", &config()),
        Err("invalid name length: `1\u{e9}`".to_string())
    );
    assert_eq!(
        name("3a\u{1f600}", &config()),
        Err("invalid name length: `3a\u{1f600}`".to_string())
    );
}

#[test]
fn number_counts_leading_digits() {
    assert_eq!(number(""), 0);
    assert_eq!(number("abc"), 0);
    assert_eq!(number("42_"), 2);
    assert_eq!(number("007"), 3);
    assert_eq!(number("1\u{663}"), 1);
}

#[test]
fn length_of_digits() {
    assert_eq!(length_of(""), Some(0));
    assert_eq!(length_of("0"), Some(0));
    assert_eq!(length_of("42"), Some(42));
    assert_eq!(length_of("0042"), Some(42));
    assert_eq!(length_of(&usize::MAX.to_string()), Some(usize::MAX));
    assert_eq!(length_of("340282366920938463463374607431768211456"), None);
}

#[test]
fn round_trip_of_a_name() {
    for payload in ["", "a", "scala.Int", "$anonfun$5", "\u{e9}t\u{e9}", "x-1"] {
        for tail in ["", "E", "oT1a"] {
            let plain = format!("{}{}{}", payload.len(), payload, tail);
            let opens_badly = format!("{}{}", payload, tail)
                .bytes()
                .next()
                .map_or(false, |b| b.is_ascii_digit() || b == b'-');
            if !opens_badly {
                assert_eq!(
                    name(&plain, &config()),
                    Ok((payload.len().to_string().len() + payload.len(), payload.to_string()))
                );
            }
            let marked = format!("{}-{}{}", payload.len(), payload, tail);
            assert_eq!(
                name(&marked, &config()),
                Ok((payload.len().to_string().len() + 1 + payload.len(), payload.to_string()))
            );
        }
    }
}

#[test]
fn messages_name_the_category_and_the_place() {
    assert_eq!(
        describe(ErrorKind::MissingSchemePrefix, "abc"),
        "missing scheme prefix _S: `abc`"
    );
    assert_eq!(
        describe(ErrorKind::MalformedDefinition, ""),
        "malformed definition: unexpected end of input"
    );
    assert_eq!(label_of(ErrorKind::InvalidNameLength), "invalid name length");
    assert_eq!(label_of(ErrorKind::TruncatedInput), "truncated input");
    assert_eq!(label_of(ErrorKind::UnknownTypeTag), "unknown type tag");
    assert_eq!(label_of(ErrorKind::UnknownNullableTag), "unknown nullable type tag");
    assert_eq!(label_of(ErrorKind::MalformedCPointer), "malformed C pointer");
    assert_eq!(label_of(ErrorKind::UnknownScopeTag), "unknown scope tag");
    assert_eq!(label_of(ErrorKind::UnknownSignatureTag), "unknown signature tag");
    assert_eq!(label_of(ErrorKind::MalformedSignature), "malformed signature");
    assert_eq!(label_of(ErrorKind::NestingTooDeep), "nesting too deep");
}
