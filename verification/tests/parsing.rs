use stacky::parser::parse_header_chars;
use stacky::symbol::parse_symbol;
use stacky::{parse, parse_location, ParseErrorKind};

fn chars(s: &str) -> Vec<char> {
    s.chars().collect()
}

#[test]
fn symbol_parser_test() {
    // A single bracketed group is one segment: nothing is stripped and
    // the text is reproduced verbatim, brackets balanced.
    let input = "<impl core::ops::function::FnOnce<A> for &F>";
    let parsed = parse_symbol(&chars(input)).unwrap();
    assert_eq!(parsed, input);
}

#[test]
fn symbol_parser_test2() {
    // A trailing `::{{closure}}` segment is an ordinary segment: the
    // hash after it is stripped, the closure marker kept.
    let input = "foo::bar_bar::{{closure}}::h31f3d4001ecc8331";
    let parsed = parse_symbol(&chars(input)).unwrap();
    assert_eq!(parsed, "foo::bar_bar::{{closure}}");
}

#[test]
fn symbol_parser_test3() {
    let input = "core::result::Result<T,E>::unwrap::h66b3d7e86d5c6f91";
    let parsed = parse_symbol(&chars(input)).unwrap();
    assert_eq!(parsed, "core::result::Result<T,E>::unwrap");
}

#[test]
fn function_parser_test() {
    let input_fun2 = "core::ops::<impl core::ops::function::{{closure}}::FnOnce<A> for &F>::call_once::h92bf06c783fb5223";
    let parsed_fun2 = parse_symbol(&chars(input_fun2)).unwrap();
    let output =
        "core::ops::<impl core::ops::function::{{closure}}::FnOnce<A> for &F>::call_once";
    assert_eq!(output, parsed_fun2);
}

#[test]
fn path_parser_test() {
    let parsed_path = parse_location(
        "  at /rustc/60dcc4348e/library/std/src/sys_common/backtrace.rs:44:22",
    )
    .unwrap();
    assert_eq!(
        parsed_path.path,
        "/rustc/60dcc4348e/library/std/src/sys_common/backtrace.rs"
    );
    assert_eq!(parsed_path.line, 44);
    assert_eq!(parsed_path.column, 22);
}

#[test]
fn indexed_parser_test() {
    let input = "  0:     0x55a98f23062c - std::foo::bar::123";
    parse_header_chars(&chars(input)).unwrap();

    let input = "0:     0x55a98f2306 - std::foo::bar::123";
    parse_header_chars(&chars(input)).unwrap();

    let input = "prefix1234 0:     0x55a98f23062c - std::foo::bar::123";
    parse_header_chars(&chars(input)).unwrap();
}

#[test]
fn location_parser_test() {
    let input = "prefix   at /rustc/348e/library/std/src/../../backtrace/src/backtrace/libunwind.rs:93:5";
    parse_location(input).unwrap();

    let input = "  at /file.rs:1:2";
    parse_location(input).unwrap();

    let input = "at /file.rs:3:4";
    parse_location(input).unwrap();
}

#[test]
fn nom_location_parser_test() {
    let input = "\nprefix  at /file.rs:1:2";
    let parsed = parse_location(input).unwrap();
    assert_eq!(parsed.path, "/file.rs");
    assert_eq!(parsed.line, 1);
    assert_eq!(parsed.column, 2);

    let input = "\n  at /file.rs:1:2";
    let parsed = parse_location(input).unwrap();
    assert_eq!(parsed.path, "/file.rs");
    assert_eq!(parsed.line, 1);
    assert_eq!(parsed.column, 2);

    let input = "jibberish";
    assert!(parse_location(input).is_none());
}

#[test]
fn nom_top_indexed_parser_test() {
    let input = "0:     0x55a98f23062c - std::foo::bar::123";
    let function = parse_header_chars(&chars(input)).unwrap();
    assert_eq!(function, "std::foo::bar");
}

#[test]
fn nom_top_parser_test() {
    let input = "  0:     0x55a98f23062c - std::foo::bar::123\n";
    let bt = parse(input).unwrap();
    assert_eq!(bt.entries().len(), 1);
    assert_eq!(bt.entries()[0].function, "std::foo::bar");

    let input = "prefix1234 0:     0x55a98f23062c - std::foo::bar::123\n";
    let bt = parse(input).unwrap();
    assert_eq!(bt.entries().len(), 1);
    assert_eq!(bt.entries()[0].function, "std::foo::bar");
}

#[test]
fn nom_entry_parser_test() {
    let input = "  0:     0x55a98f23062c - std::foo::bar::123\n  at /rustc/348e/library/std/src/../../backtrace/src/backtrace/libunwind.rs:93:5\n";
    let bt = parse(input).unwrap();
    assert_eq!(bt.entries().len(), 1);
    let entry = &bt.entries()[0];
    assert_eq!(entry.function, "std::foo::bar");
    let loc = entry.location.as_ref().unwrap();
    assert_eq!(
        loc.path,
        "/rustc/348e/library/std/src/../../backtrace/src/backtrace/libunwind.rs"
    );
    assert_eq!(loc.line, 93);
    assert_eq!(loc.column, 5);
}

#[test]
fn nom_full_parser_test() {
    // One block in each dialect, several frames, some with locations.
    let plain = "   0:     0x55a98f23062c - std::backtrace_rs::backtrace::libunwind::trace::hf6e4c53959f734ce\n                               at /rustc/60dcc4348e/library/std/src/../../backtrace/src/backtrace/libunwind.rs:93:5\n   1:     0x55a98f230111 - core::fmt::write::h312b2c7e421d3b78\n   2:     0x55a98f230222 - my_app::run::h0011223344556677\n                               at /home/me/proj/src/main.rs:10:4\n   3:     0x55a98f230333 - main\n   4:     0x55a98f230444 - __libc_start_main\n                               at /build/glibc/sysdeps/nptl/libc_start_call_main.h:58:16\n";
    let bt = parse(plain).unwrap();
    assert_eq!(bt.entries().len(), 5);

    let prefixed = "worker1  0:     0x55a98f23062c - std::backtrace_rs::backtrace::libunwind::trace::hf6e4c53959f734ce\nworker1                             at /rustc/60dcc4348e/library/std/src/../../backtrace/src/backtrace/libunwind.rs:93:5\nworker1  1:     0x55a98f230111 - core::fmt::write::h312b2c7e421d3b78\nworker1  2:     0x55a98f230222 - my_app::run::h0011223344556677\nworker1                             at /home/me/proj/src/main.rs:10:4\nworker1  3:     0x55a98f230333 - main\nworker1  4:     0x55a98f230444 - __libc_start_main\nworker1                             at /build/glibc/sysdeps/nptl/libc_start_call_main.h:58:16\n";
    let bt2 = parse(prefixed).unwrap();
    assert_eq!(bt2.entries().len(), 5);
    for (a, b) in bt.entries().iter().zip(bt2.entries().iter()) {
        assert_eq!(a.function, b.function);
        match (&a.location, &b.location) {
            (Some(la), Some(lb)) => {
                assert_eq!(la.path, lb.path);
                assert_eq!(la.line, lb.line);
                assert_eq!(la.column, lb.column);
            }
            (None, None) => {}
            _ => panic!("dialects disagree on a location"),
        }
    }
}

#[test]
fn hash_segment_is_stripped() {
    let bt = parse("0:     0x55a98f23062c - std::foo::bar::123").unwrap();
    assert_eq!(bt.entries().len(), 1);
    assert_eq!(bt.entries()[0].function, "std::foo::bar");
}

#[test]
fn single_segment_is_kept() {
    let bt = parse("0:     0x1 - main").unwrap();
    assert_eq!(bt.entries().len(), 1);
    assert_eq!(bt.entries()[0].function, "main");
}

#[test]
fn location_line_attaches() {
    let bt = parse("0:     0x1 - foo::bar::h12\n   at /file.rs:1:2").unwrap();
    assert_eq!(bt.entries().len(), 1);
    let loc = bt.entries()[0].location.as_ref().unwrap();
    assert_eq!(loc.path, "/file.rs");
    assert_eq!(loc.line, 1);
    assert_eq!(loc.column, 2);

    let bt = parse("0:     0x1 - foo::bar::h12\n1:     0x2 - main").unwrap();
    assert_eq!(bt.entries().len(), 2);
    assert!(bt.entries()[0].location.is_none());
    assert!(bt.entries()[1].location.is_none());
}

#[test]
fn unbalanced_bracket_fails_whole_block() {
    let err = parse("0:     0x1 - foo::<bar::123").unwrap_err();
    assert_eq!(err.kind, ParseErrorKind::UnbalancedSymbol);

    // a good frame before the bad one is discarded too: the parse
    // yields an error, not a partial backtrace
    let err = parse("0:     0x1 - fine::h1\n1:     0x2 - foo::<bar::123").unwrap_err();
    assert_eq!(err.kind, ParseErrorKind::UnbalancedSymbol);
    assert_eq!(err.line, "1:     0x2 - foo::<bar::123");
}

#[test]
fn malformed_header_reports_offset_and_line() {
    let err = parse("0:     0x1 - fine::h1\nnot a frame at all").unwrap_err();
    assert_eq!(err.kind, ParseErrorKind::MalformedFrame);
    assert_eq!(err.line, "not a frame at all");
    assert!(err.offset >= "0:     0x1 - fine::h1\n".len());
}

#[test]
fn pointer_must_be_hexadecimal() {
    let err = parse("0:     0xzz - foo::h1").unwrap_err();
    assert_eq!(err.kind, ParseErrorKind::NotANumber);
}

#[test]
fn pointer_overflow_is_reported() {
    let err = parse("0:     0x00112233445566778899 - foo::h1").unwrap_err();
    assert_eq!(err.kind, ParseErrorKind::NumericOverflow);
}

#[test]
fn nesting_guard_trips() {
    let mut sym = String::new();
    for _ in 0..70 {
        sym.push('<');
    }
    let input = format!("0:     0x1 - {}", sym);
    let err = parse(&input).unwrap_err();
    assert_eq!(err.kind, ParseErrorKind::MaxNestingExceeded);
}

#[test]
fn deep_but_bounded_nesting_parses() {
    let mut sym = String::from("f::");
    for _ in 0..60 {
        sym.push('<');
    }
    sym.push('x');
    for _ in 0..60 {
        sym.push('>');
    }
    sym.push_str("::h99");
    let input = format!("0:     0x1 - {}", sym);
    let bt = parse(&input).unwrap();
    assert!(bt.entries()[0].function.starts_with("f::<"));
}

#[test]
fn location_numeric_overflow_is_rejected() {
    // a location whose line number overflows is no location at all —
    // not a location with the field defaulted to zero
    assert!(parse_location("  at /file.rs:99999999999:2").is_none());
    assert!(parse_location("  at /file.rs:1:99999999999").is_none());
    // and on a frame, such a line is simply not a location line
    let err = parse("0:     0x1 - foo::h1\n  at /file.rs:x:2").unwrap_err();
    assert_eq!(err.kind, ParseErrorKind::MalformedFrame);
}

#[test]
fn location_needs_digits() {
    assert!(parse_location("  at /file.rs:1:").is_none());
    assert!(parse_location("  at /file.rs::2").is_none());
    assert!(parse_location("  at /file.rs").is_none());
    assert!(parse_location("nothing here").is_none());
}

#[test]
fn empty_block_parses_to_empty_backtrace() {
    let bt = parse("").unwrap();
    assert_eq!(bt.entries().len(), 0);
    let bt = parse("\n\n").unwrap();
    assert_eq!(bt.entries().len(), 0);
}
