use stacky::{parse, Backtrace, Entry, Location};

fn loc(path: &str, line: u32, column: u32) -> Option<Location> {
    Some(Location::new(path.to_string(), line, column))
}

fn sample() -> Backtrace {
    Backtrace::with_entries(vec![
        Entry::new(
            "std::backtrace_rs::trace::h1".to_string(),
            loc("/rustc/60dcc4348e/library/std/src/backtrace.rs", 44, 22),
        ),
        Entry::new("core::fmt::write::h2".to_string(), None),
        Entry::new("my_app::run::inner".to_string(), loc("/home/me/proj/src/main.rs", 10, 4)),
        Entry::new("my_app::main".to_string(), loc("/home/me/proj/src/main.rs", 3, 1)),
        Entry::new("__libc_start_main".to_string(), loc("/build/glibc/csu/libc-start.c", 308, 16)),
        Entry::new("start_thread".to_string(), loc("/build/glibc/x/pthread_create.c", 477, 8)),
        Entry::new("boot".to_string(), loc("_start", 1, 1)),
        Entry::new("mystery".to_string(), loc("", 1, 1)),
        Entry::new("glue".to_string(), loc("/build/glibc/sysdeps/x86_64/start.S", 120, 1)),
    ])
}

#[test]
fn filter_drops_noise_and_keeps_order() {
    let mut bt = sample();
    bt.filter();
    let names: Vec<&str> = bt.entries().iter().map(|e| e.function.as_str()).collect();
    assert_eq!(names, vec!["my_app::run::inner", "my_app::main"]);
}

#[test]
fn filter_is_idempotent() {
    let mut once = sample();
    once.filter();
    let mut twice = sample();
    twice.filter();
    twice.filter();
    assert_eq!(once.entries().len(), twice.entries().len());
    for (a, b) in once.entries().iter().zip(twice.entries().iter()) {
        assert_eq!(a.function, b.function);
        match (&a.location, &b.location) {
            (Some(la), Some(lb)) => {
                assert_eq!(la.path, lb.path);
                assert_eq!(la.line, lb.line);
                assert_eq!(la.column, lb.column);
            }
            (None, None) => {}
            _ => panic!("pruning twice changed a location"),
        }
    }
}

#[test]
fn filter_with_caller_supplied_markers() {
    let mut bt = Backtrace::with_entries(vec![
        Entry::new("alpha::go".to_string(), loc("/srv/app/a.rs", 1, 1)),
        Entry::new("beta::helper::go".to_string(), loc("/srv/app/b.rs", 2, 2)),
        Entry::new("gamma::go".to_string(), loc("/vendor/dep/c.rs", 3, 3)),
    ]);
    bt.filter_with(&vec!["helper".to_string()], &vec!["/vendor/".to_string()]);
    let names: Vec<&str> = bt.entries().iter().map(|e| e.function.as_str()).collect();
    assert_eq!(names, vec!["alpha::go"]);
}

#[test]
fn has_location_is_a_prefix_match() {
    let bt = sample();
    assert!(bt.has_location("/home/me/proj"));
    assert!(bt.has_location("/home/me"));
    assert!(!bt.has_location("/home/you"));
    // plain prefix match, not path-segment-aware
    assert!(bt.has_location("/home/me/pro"));
}

#[test]
fn has_location_false_for_empty_backtrace() {
    let bt = Backtrace::with_entries(Vec::new());
    assert!(!bt.has_location("/home/me/proj"));
    assert!(!bt.has_location(""));
}

#[test]
fn has_location_ignores_entries_without_location() {
    let bt = Backtrace::with_entries(vec![Entry::new("f".to_string(), None)]);
    assert!(!bt.has_location(""));
}

#[test]
fn end_to_end_parse_then_filter_then_query() {
    let block = "   0:     0x55a98f23062c - std::sys_common::backtrace::__rust_begin_short_backtrace::h1\n                               at /rustc/60dcc4348e/library/std/src/sys_common/backtrace.rs:44:22\n   1:     0x55a98f230222 - my_app::explode::h2\n                               at /home/me/proj/src/lib.rs:7:9\n   2:     0x55a98f230333 - main\n   3:     0x55a98f230444 - __libc_start_main\n                               at /build/glibc/sysdeps/nptl/libc_start_call_main.h:58:16\n";
    let mut bt = parse(block).unwrap();
    assert_eq!(bt.entries().len(), 4);
    bt.filter();
    assert_eq!(bt.entries().len(), 1);
    assert_eq!(bt.entries()[0].function, "my_app::explode");
    assert!(bt.has_location("/home/me/proj"));
    assert!(!bt.has_location("/rustc/"));
}

#[test]
fn config_default_values() {
    let config = stacky::Config::default();
    assert!(!config.verbose);
    assert_eq!(config.stacky_function, "stacky_global");
}
