use scala_native_demangle::types::{
    common_type_name, decode_type_name, nullable_type_name, primitive_of, read_type_names,
    scala_root_name,
};
use scala_native_demangle::grammar::MAX_NESTING;
use scala_native_demangle::names::name;
use scala_native_demangle::syntax::PrimitiveKind;
use scala_native_demangle::text::{join, same_text, starts_with, without_prefix};
use scala_native_demangle::DemanglingConfig;

fn short() -> DemanglingConfig {
    DemanglingConfig::default()
}

fn full() -> DemanglingConfig {
    DemanglingConfig {
        collapse_scala_names: false,
        debug: false,
    }
}

fn ok(count: usize, text: &str) -> Result<(usize, String), String> {
    Ok((count, text.to_string()))
}

fn err(message: &str) -> Result<(usize, String), String> {
    Err(message.to_string())
}

#[test]
fn default_config_collapses_and_is_quiet() {
    let config = DemanglingConfig::default();
    assert!(config.collapse_scala_names);
    assert!(!config.debug);
}

#[test]
fn primitive_kinds_by_tag() {
    let table = [
        ('z', "Boolean"),
        ('c', "Char"),
        ('f', "Float"),
        ('d', "Double"),
        ('u', "Unit"),
        ('l', "Null"),
        ('n', "Nothing"),
        ('b', "Byte"),
        ('s', "Short"),
        ('i', "Int"),
        ('j', "Long"),
    ];
    for (tag, name) in table {
        let input = format!("{}rest", tag);
        assert_eq!(decode_type_name(&input, &short()), ok(1, name));
        assert_eq!(
            decode_type_name(&input, &full()),
            ok(1, &format!("scala.{}", name))
        );
        assert_eq!(primitive_of(tag as u8).unwrap().name(), name);
    }
    assert_eq!(primitive_of(b'v'), None);
    assert_eq!(primitive_of(b'i'), Some(PrimitiveKind::Int));
}

#[test]
fn c_types() {
    assert_eq!(decode_type_name("v", &short()), ok(1, "<c vararg>"));
    assert_eq!(decode_type_name("R_x", &short()), ok(2, "<c pointer>"));
    assert_eq!(decode_type_name("R_x", &full()), ok(2, "<c pointer>"));
}

#[test]
fn c_pointer_without_its_mark() {
    assert_eq!(decode_type_name("Rx", &short()), err("malformed C pointer: `x`"));
    assert_eq!(
        decode_type_name("R", &short()),
        err("truncated input: unexpected end of input")
    );
}

#[test]
fn arrays_count_tag_element_digits_and_mark() {
    assert_eq!(decode_type_name("Ai_", &short()), ok(3, "CArray[Int]"));
    assert_eq!(decode_type_name("Ai5_", &short()), ok(4, "CArray[Int]"));
    assert_eq!(decode_type_name("Ai128_E", &short()), ok(6, "CArray[Int]"));
    assert_eq!(decode_type_name("AAi2_3_", &full()), ok(7, "CArray[CArray[scala.Int]]"));
    assert_eq!(
        decode_type_name("AL3Foo_", &short()),
        ok(7, "CArray[Foo]")
    );
}

#[test]
fn array_without_its_mark() {
    assert_eq!(decode_type_name("Ai5x", &short()), err("unknown type tag: `x`"));
    assert_eq!(
        decode_type_name("Ai5", &short()),
        err("truncated input: unexpected end of input")
    );
    assert_eq!(
        decode_type_name("A", &short()),
        err("truncated input: unexpected end of input")
    );
    assert_eq!(decode_type_name("Ai\u{e9}", &short()), err("unknown type tag: `\u{e9}`"));
}

#[test]
fn exact_class_is_shown_as_written() {
    assert_eq!(
        decode_type_name("X16java.lang.String", &short()),
        ok(19, "java.lang.String")
    );
    assert_eq!(decode_type_name("X3Foo", &full()), ok(5, "Foo"));
    assert_eq!(decode_type_name("Xfoo", &short()), err("invalid name length: `foo`"));
}

#[test]
fn unknown_type_tags() {
    assert_eq!(decode_type_name("Q", &short()), err("unknown type tag: `Q`"));
    assert_eq!(decode_type_name("SiE", &short()), err("unknown type tag: `SiE`"));
    assert_eq!(decode_type_name("3Foo", &short()), err("unknown type tag: `3Foo`"));
    assert_eq!(
        decode_type_name("", &short()),
        err("truncated input: unexpected end of input")
    );
}

#[test]
fn nullable_classes() {
    assert_eq!(decode_type_name("L3Foo", &short()), ok(5, "Foo"));
    assert_eq!(nullable_type_name("3Foo", &short()), ok(4, "Foo"));
    assert_eq!(nullable_type_name("X3Foo", &short()), ok(5, "Foo"));
    assert_eq!(decode_type_name("LX3Foo", &short()), ok(6, "Foo"));
    assert_eq!(decode_type_name("L16java.lang.String", &short()), ok(19, "String"));
    assert_eq!(
        decode_type_name("L16java.lang.String", &full()),
        ok(19, "java.lang.String")
    );
    assert_eq!(decode_type_name("LX16java.lang.Object", &short()), ok(20, "Object"));
}

#[test]
fn nullable_class_is_read_as_name_reads_it() {
    for input in ["16java.lang.String", "3Foo", "31scala.collection.immutable.Listx", "5ab", "0"] {
        assert_eq!(nullable_type_name(input, &short()), name(input, &short()));
        assert_eq!(nullable_type_name(input, &full()), name(input, &full()));
    }
    assert_eq!(
        nullable_type_name("16java.lang.String", &short()),
        ok(18, "java.lang.String")
    );
    assert_eq!(
        nullable_type_name("X16java.lang.String", &short()),
        ok(19, "java.lang.String")
    );
    assert_eq!(
        decode_type_name("L16java.lang.String", &short()),
        ok(19, "String")
    );
    assert_eq!(
        decode_type_name("L31scala.collection.immutable.Listx", &short()),
        ok(34, "List")
    );
}

#[test]
fn nullable_arrays() {
    assert_eq!(nullable_type_name("Ai_", &short()), ok(3, "Array[Int]"));
    assert_eq!(decode_type_name("LAi_", &full()), ok(4, "Array[scala.Int]"));
    assert_eq!(
        decode_type_name("LAL10fansi.Trie_L12scala.Tuple2", &short()),
        ok(16, "Array[fansi.Trie]")
    );
    assert_eq!(decode_type_name("LALAb__", &short()), ok(7, "Array[Array[Byte]]"));
}

#[test]
fn nullable_array_without_its_mark() {
    assert_eq!(nullable_type_name("Aix", &short()), err("unknown nullable type tag: `x`"));
    assert_eq!(
        nullable_type_name("Ai", &short()),
        err("truncated input: unexpected end of input")
    );
}

#[test]
fn unknown_nullable_tags() {
    assert_eq!(nullable_type_name("i", &short()), err("unknown nullable type tag: `i`"));
    assert_eq!(decode_type_name("Lz", &short()), err("unknown nullable type tag: `z`"));
    assert_eq!(
        decode_type_name("L", &short()),
        err("truncated input: unexpected end of input")
    );
}

#[test]
fn well_known_names_collapse() {
    let cases = [
        ("java.lang.Object", "Object"),
        ("java.lang.String", "String"),
        ("java.lang.Throwable", "Throwable"),
        ("scala.collection.immutable.List", "List"),
        ("scala.collection.immutable.", ""),
        ("scala.collection.immutable.Map$Map1", "Map$Map1"),
        ("scala.collection.immutable", "scala.collection.immutable"),
        ("scala.collection.mutable.List", "scala.collection.mutable.List"),
        ("java.lang.Objects", "java.lang.Objects"),
        ("java.lang.Strin", "java.lang.Strin"),
        ("xjava.lang.String", "xjava.lang.String"),
        ("", ""),
        ("Object", "Object"),
    ];
    for (long, collapsed) in cases {
        assert_eq!(common_type_name(long.to_string(), &short()), collapsed);
        assert_eq!(common_type_name(long.to_string(), &full()), long);
    }
}

#[test]
fn root_names() {
    assert_eq!(scala_root_name("Int", &short()), "Int");
    assert_eq!(scala_root_name("Int", &full()), "scala.Int");
    assert_eq!(scala_root_name("", &full()), "scala.");
}

#[test]
fn type_lists_end_at_the_terminator() {
    assert_eq!(read_type_names("E", &short()), Ok((0, vec![])));
    assert_eq!(read_type_names("iE", &short()), Ok((1, vec!["Int".to_string()])));
    assert_eq!(
        read_type_names("iL3FoozEo", &full()),
        Ok((
            7,
            vec![
                "scala.Int".to_string(),
                "Foo".to_string(),
                "scala.Boolean".to_string()
            ]
        ))
    );
    assert_eq!(
        read_type_names("L1EiE", &short()),
        Ok((4, vec!["E".to_string(), "Int".to_string()]))
    );
}

#[test]
fn type_lists_without_terminator() {
    assert_eq!(
        read_type_names("ii", &short()),
        Err("truncated input: unexpected end of input".to_string())
    );
    assert_eq!(
        read_type_names("", &short()),
        Err("truncated input: unexpected end of input".to_string())
    );
    assert_eq!(
        read_type_names("i?E", &short()),
        Err("unknown type tag: `?E`".to_string())
    );
}

#[test]
fn texts_compare_and_split() {
    assert!(same_text("abc", "abc"));
    assert!(!same_text("abc", "abd"));
    assert!(!same_text("abc", "ab"));
    assert!(same_text("", ""));
    assert!(starts_with("abc", ""));
    assert!(starts_with("abc", "ab"));
    assert!(!starts_with("ab", "abc"));
    assert!(!starts_with("abc", "b"));
    assert_eq!(without_prefix("abc", "ab"), "c");
    assert_eq!(without_prefix("\u{e9}t\u{e9}", "\u{e9}"), "t\u{e9}");
}

#[test]
fn joining_puts_the_separator_between() {
    let parts = vec!["a".to_string(), "bc".to_string(), "".to_string(), "d".to_string()];
    assert_eq!(join(&parts, 0, ","), "");
    assert_eq!(join(&parts, 1, ","), "a");
    assert_eq!(join(&parts, 2, ","), "a,bc");
    assert_eq!(join(&parts, 4, ", "), "a, bc, , d");
}

#[test]
fn arrays_nest_as_deep_as_allowed() {
    let nested = |levels: usize| format!("{}i{}", "A".repeat(levels), "_".repeat(levels));
    assert_eq!(
        decode_type_name(&nested(MAX_NESTING), &short()),
        Ok((
            2 * MAX_NESTING + 1,
            format!("{}Int{}", "CArray[".repeat(MAX_NESTING), "]".repeat(MAX_NESTING))
        ))
    );
    assert_eq!(
        decode_type_name(&nested(MAX_NESTING + 1), &short()),
        Err(format!("nesting too deep: `Ai{}`", "_".repeat(MAX_NESTING + 1)))
    );
    let nullable = |levels: usize| format!("{}b{}", "LA".repeat(levels), "_".repeat(levels));
    assert_eq!(
        decode_type_name(&nullable(MAX_NESTING), &full()),
        Ok((
            3 * MAX_NESTING + 1,
            format!("{}scala.Byte{}", "Array[".repeat(MAX_NESTING), "]".repeat(MAX_NESTING))
        ))
    );
    assert_eq!(
        nullable_type_name(&format!("A{}", nullable(MAX_NESTING)), &short()),
        Err(format!("nesting too deep: `Ab{}`", "_".repeat(MAX_NESTING)))
    );
    assert_eq!(
        read_type_names(&format!("i{}E", nested(MAX_NESTING + 1)), &short()),
        Err(format!("nesting too deep: `Ai{}E`", "_".repeat(MAX_NESTING + 1)))
    );
}
