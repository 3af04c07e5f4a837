use scala_native_demangle::grammar::MAX_NESTING;
use scala_native_demangle::types::{decode_type_name, read_type_names};
use scala_native_demangle::signature::{
    defn_name, member_name, render_callable, render_scope, scope, sig_name, toplevel_name, Scope,
};
use scala_native_demangle::{demangle, demangle_with_defaults, DemanglingConfig};

fn short() -> DemanglingConfig {
    DemanglingConfig::default()
}

fn full() -> DemanglingConfig {
    DemanglingConfig {
        collapse_scala_names: false,
        debug: false,
    }
}

fn ok(text: &str) -> Result<String, String> {
    Ok(text.to_string())
}

fn err(message: &str) -> Result<String, String> {
    Err(message.to_string())
}

#[test]
fn identifiers_without_the_scheme_marker() {
    for input in ["", "_", "S", "_s", "T3abc", "S_T3abc", " _ST3abc", "_\u{e9}", "_TST3abc"] {
        let expected = if input.is_empty() {
            "missing scheme prefix _S: unexpected end of input".to_string()
        } else {
            format!("missing scheme prefix _S: `{}`", input)
        };
        assert_eq!(demangle(input, &short()), Err(expected.clone()));
        assert_eq!(demangle(input, &full()), Err(expected.clone()));
        assert_eq!(demangle_with_defaults(input), Err(expected));
    }
}

#[test]
fn top_level_names() {
    assert_eq!(demangle("_ST10__dispatch", &short()), ok("__dispatch"));
    assert_eq!(demangle("_ST3Foobar", &short()), ok("Foo"));
    assert_eq!(demangle("_ST16java.lang.String", &short()), ok("java.lang.String"));
    assert_eq!(toplevel_name("3Foo", &short()), ok("Foo"));
    assert_eq!(defn_name("T3Foo", &short()), ok("Foo"));
}

#[test]
fn malformed_definitions() {
    assert_eq!(
        demangle("_S", &short()),
        err("malformed definition: unexpected end of input")
    );
    assert_eq!(demangle("_SX3Foo", &short()), err("malformed definition: `X3Foo`"));
    assert_eq!(defn_name("m3Foo", &short()), err("malformed definition: `m3Foo`"));
    assert_eq!(demangle("_ST", &short()), err("invalid name length: unexpected end of input"));
    assert_eq!(demangle("_SM3Foo", &short()), err("unknown signature tag: unexpected end of input"));
}

#[test]
fn static_initializer() {
    assert_eq!(
        demangle("_SM38scala.scalanative.junit.JUnitFrameworkIE", &short()),
        ok("scala.scalanative.junit.JUnitFramework.<clinit>")
    );
    assert_eq!(sig_name("I", &short()), ok("<clinit>"));
    assert_eq!(member_name("3FooI", &short()), ok("Foo.<clinit>"));
}

#[test]
fn extern_and_generated_names() {
    assert_eq!(demangle("_SM3FooC6malloc", &short()), ok("Foo.malloc"));
    assert_eq!(demangle("_SM3FooG4typeXYZ", &short()), ok("Foo.type"));
    assert_eq!(sig_name("C", &short()), err("invalid name length: unexpected end of input"));
}

#[test]
fn fields() {
    assert_eq!(demangle("_SM3FooF3barO", &short()), ok("Foo.bar"));
    assert_eq!(demangle("_SM3FooF3baro", &short()), ok("Foo.bar"));
    assert_eq!(
        demangle("_SM3FooF3barPT3Foo", &short()),
        ok("Foo.<private[Foo]>bar")
    );
    assert_eq!(
        demangle("_SM3FooF3barpM3BazF1xO", &short()),
        ok("Foo.<private[Baz.x]>bar")
    );
    assert_eq!(sig_name("F3barO", &short()), ok("bar"));
    assert_eq!(sig_name("F3bar", &short()), err("unknown scope tag: unexpected end of input"));
    assert_eq!(sig_name("F3barQ", &short()), err("unknown scope tag: `Q`"));
}

#[test]
fn constructors() {
    assert_eq!(demangle("_SM3FooRE", &short()), ok("Foo."));
    assert_eq!(demangle("_SM3FooRiE", &short()), ok("Foo.Int"));
    assert_eq!(
        demangle("_SM3FooRiL16java.lang.StringzE", &short()),
        ok("Foo.Int, String, Boolean")
    );
    assert_eq!(
        sig_name("RiL16java.lang.StringE", &full()),
        ok("scala.Int, java.lang.String")
    );
    assert_eq!(
        sig_name("Ri", &short()),
        err("truncated input: unexpected end of input")
    );
}

#[test]
fn methods() {
    assert_eq!(
        demangle("_SM17java.lang.IntegerD7compareiiiEo", &short()),
        ok("java.lang.Integer.compare(Int,Int): Int")
    );
    assert_eq!(
        demangle("_SM17java.lang.IntegerD7compareiiiEo", &full()),
        ok("java.lang.Integer.compare(scala.Int,scala.Int): scala.Int")
    );
    assert_eq!(sig_name("D3fooiEO", &short()), ok("foo: Int"));
    assert_eq!(sig_name("D3fooziEO", &short()), ok("foo(Boolean): Int"));
    assert_eq!(sig_name("D3foozjiEO", &short()), ok("foo(Boolean,Long): Int"));
    assert_eq!(
        sig_name("D3fooiEPT3Bar", &short()),
        ok("<private[Bar]>foo: Int")
    );
}

#[test]
fn private_scope_shows_the_owner_under_the_same_config() {
    let input = "_SM3FooD3baruEPM3BazD3quxL16java.lang.StringiEO";
    assert_eq!(
        demangle(input, &short()),
        ok("Foo.<private[Baz.qux(String): Int]>bar: Unit")
    );
    assert_eq!(
        demangle(input, &full()),
        ok("Foo.<private[Baz.qux(java.lang.String): scala.Int]>bar: scala.Unit")
    );
}

#[test]
fn method_without_a_result() {
    assert_eq!(sig_name("D3fooEO", &short()), err("malformed signature: `EO`"));
    assert_eq!(demangle("_SM3FooD3barEO", &short()), err("malformed signature: `EO`"));
    assert_eq!(sig_name("P3fooE", &short()), err("malformed signature: `E`"));
    assert_eq!(demangle("_SM3FooK3barE", &short()), err("malformed signature: `E`"));
}

#[test]
fn method_without_a_scope() {
    assert_eq!(
        demangle("_SM3FooD3bariE", &short()),
        err("unknown scope tag: unexpected end of input")
    );
    assert_eq!(demangle("_SM3FooD3bariEx", &short()), err("unknown scope tag: `x`"));
}

#[test]
fn proxies_and_duplicates_have_no_scope() {
    assert_eq!(demangle("_SM3FooP3bariE", &short()), ok("Foo.bar: Int"));
    assert_eq!(demangle("_SM3FooP3barziE", &short()), ok("Foo.bar(Boolean): Int"));
    assert_eq!(demangle("_SM3FooP3barzjiE", &short()), ok("Foo.bar(Boolean,Long): Int"));
    assert_eq!(demangle("_SM3FooK3barzjiE", &short()), ok("Foo.bar(Boolean,Long): Int"));
    assert_eq!(demangle("_SM3FooK3bariEO", &full()), ok("Foo.bar: scala.Int"));
    assert_eq!(sig_name("P3barzjiE", &full()), ok("bar(scala.Boolean,scala.Long): scala.Int"));
}

#[test]
fn unknown_signature_tags() {
    assert_eq!(sig_name("Z3foo", &short()), err("unknown signature tag: `Z3foo`"));
    assert_eq!(sig_name("", &short()), err("unknown signature tag: unexpected end of input"));
    assert_eq!(demangle("_SM3Foof3barO", &short()), err("unknown signature tag: `f3barO`"));
}

#[test]
fn scopes() {
    assert!(matches!(scope("O", &short()), Ok(Scope::Public)));
    assert!(matches!(scope("Oxyz", &short()), Ok(Scope::Public)));
    assert!(matches!(scope("o", &short()), Ok(Scope::PublicStatic)));
    match scope("PT3Foo", &short()) {
        Ok(Scope::Private(path)) => assert_eq!(path, "Foo"),
        _ => panic!("expected a private scope"),
    }
    match scope("pM3FooI", &short()) {
        Ok(Scope::PrivateStatic(path)) => assert_eq!(path, "Foo.<clinit>"),
        _ => panic!("expected a private static scope"),
    }
    assert!(matches!(scope("", &short()), Err(message) if message == "unknown scope tag: unexpected end of input"));
    assert!(matches!(scope("x", &short()), Err(message) if message == "unknown scope tag: `x`"));
    assert!(matches!(scope("P", &short()), Err(message) if message == "malformed definition: unexpected end of input"));
}

#[test]
fn scope_prefixes() {
    assert_eq!(render_scope(Scope::Public), "");
    assert_eq!(render_scope(Scope::PublicStatic), "");
    assert_eq!(render_scope(Scope::Private("a.B".to_string())), "<private[a.B]>");
    assert_eq!(render_scope(Scope::PrivateStatic("a.B".to_string())), "<private[a.B]>");
}

#[test]
fn callables() {
    assert_eq!(
        render_callable("p", "n", &vec!["R".to_string()]),
        "pn: R"
    );
    assert_eq!(
        render_callable("", "n", &vec!["A".to_string(), "B".to_string(), "R".to_string()]),
        "n(A,B): R"
    );
}

#[test]
fn errors_inside_a_name_or_type_are_handed_up() {
    assert_eq!(demangle("_SM9Foo", &short()), err("truncated input: `9Foo`"));
    assert_eq!(demangle("_SM3FooD3barRxEO", &short()), err("malformed C pointer: `xEO`"));
    assert_eq!(demangle("_SM3FooD3barL?EO", &short()), err("unknown nullable type tag: `?EO`"));
    assert_eq!(demangle("_SM3FooD3barSiEEO", &short()), err("unknown type tag: `SiEEO`"));
    assert_eq!(demangle("_ST2\u{e9}", &short()), ok("\u{e9}"));
    assert_eq!(demangle("_ST1\u{e9}", &short()), err("invalid name length: `1\u{e9}`"));
}

#[test]
fn debug_does_not_change_the_result() {
    let inputs = [
        "_ST10__dispatch",
        "_SM17java.lang.IntegerD7compareiiiEo",
        "_SM3FooD3barEO",
        "nothing",
    ];
    for input in inputs {
        for collapse in [true, false] {
            let quiet = DemanglingConfig { collapse_scala_names: collapse, debug: false };
            let loud = DemanglingConfig { collapse_scala_names: collapse, debug: true };
            assert_eq!(demangle(input, &quiet), demangle(input, &loud));
            assert_eq!(demangle(input, &quiet), demangle(input, &quiet));
        }
    }
}

#[test]
fn collapsing_keeps_the_shape() {
    let inputs = [
        "_SM3FooD3barL16java.lang.StringiL30scala.collection.immutable.MapzEO",
        "_SM3FooF3barPT16java.lang.String",
        "_SM3FooD3barEO",
        "_SM3FooD3barL3BazR_vEO",
    ];
    for input in inputs {
        let short = demangle(input, &short());
        let full = demangle(input, &full());
        assert_eq!(short.is_ok(), full.is_ok());
        if let (Ok(short), Ok(full)) = (&short, &full) {
            assert_eq!(short.matches(',').count(), full.matches(',').count());
            assert_eq!(short.contains('('), full.contains('('));
        } else {
            assert_eq!(short, full);
        }
    }
    assert_eq!(
        demangle(inputs[0], &short()),
        ok("Foo.bar(String,Int,Map): Boolean")
    );
    assert_eq!(
        demangle(inputs[0], &full()),
        ok("Foo.bar(java.lang.String,scala.Int,scala.collection.immutable.Map): scala.Boolean")
    );
    assert_eq!(demangle(inputs[3], &short()), demangle(inputs[3], &full()));
}

#[test]
fn private_scopes_nest_as_deep_as_allowed() {
    let nested = |levels: usize| format!("_S{}T1c", "M1aF1bP".repeat(levels));
    let mut expected = "c".to_string();
    for _ in 0..MAX_NESTING {
        expected = format!("a.<private[{}]>b", expected);
    }
    assert_eq!(demangle(&nested(2), &short()), ok("a.<private[a.<private[c]>b]>b"));
    assert_eq!(demangle(&nested(MAX_NESTING), &short()), Ok(expected));
    assert_eq!(
        demangle(&nested(MAX_NESTING + 1), &short()),
        err("nesting too deep: `PT1c`")
    );
    assert_eq!(
        demangle(&nested(MAX_NESTING + 100), &full()),
        Err(format!("nesting too deep: `P{}T1c`", "M1aF1bP".repeat(99)))
    );
}

#[test]
fn arrays_and_scopes_nest_together() {
    let scopes = MAX_NESTING - 2;
    let field = |arrays: usize| {
        format!(
            "_S{}M1xD1f{}i{}EO",
            "M1aF1bP".repeat(scopes),
            "A".repeat(arrays),
            "_".repeat(arrays)
        )
    };
    assert!(demangle(&field(2), &short()).is_ok());
    assert_eq!(
        demangle(&field(3), &short()),
        err("nesting too deep: `Ai___EO`")
    );
}

#[test]
fn method_is_shown_with_the_types_as_written() {
    let names = ["f", "compare", "$anonfun$5", "\u{e9}t\u{e9}", "(x)"];
    let lists = [
        "ii",
        "L16java.lang.Stringz",
        "Ai3_LAb_R_vL3Foou",
        "L1EiX2EEj",
        "zcfdulnbsij",
    ];
    for config in [short(), full()] {
        for name in names {
            for written in lists {
                let (used, texts) = read_type_names(&format!("{}E", written), &config).unwrap();
                assert_eq!(used, written.len());
                let last = texts.len() - 1;
                let input = format!("D{}{}{}EO", name.len(), name, written);
                assert_eq!(
                    sig_name(&input, &config),
                    Ok(format!("{}({}): {}", name, texts[..last].join(","), texts[last]))
                );
            }
        }
    }
}

#[test]
fn method_without_parameters_is_shown_without_parentheses() {
    let names = ["f", "productArity", "\u{e9}t\u{e9}"];
    let types = ["i", "L16java.lang.String", "LAL3Foo_", "Ai12_", "X0", "L0", "R_", "v"];
    for config in [short(), full()] {
        for name in names {
            for written in types {
                let (used, text) = decode_type_name(written, &config).unwrap();
                assert_eq!(used, written.len());
                let input = format!("D{}{}{}EO", name.len(), name, written);
                let shown = sig_name(&input, &config).unwrap();
                assert_eq!(shown, format!("{}: {}", name, text));
                assert!(!shown.contains('(') && !shown.contains(')'));
            }
        }
    }
}
