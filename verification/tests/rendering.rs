use stacky::render::color;
use stacky::{Backtrace, Entry, Location};

#[test]
fn color_wraps_in_ansi_codes() {
    assert_eq!(color(4, 0, "name"), "\u{1b}[38;5;4m\u{1b}[48;5;0mname\u{1b}[0m");
    assert_eq!(color(255, 16, ""), "\u{1b}[38;5;255m\u{1b}[48;5;16m\u{1b}[0m");
}

#[test]
fn entry_renders_function_and_location() {
    let entry = Entry::new(
        "my_app::run".to_string(),
        Some(Location::new("/home/me/proj/src/main.rs".to_string(), 12345, 7)),
    );
    let rendered = entry.render();
    let expected = format!(
        "{} {}:{}:{}",
        color(4, 0, "my_app::run"),
        color(2, 0, "/home/me/proj/src/main.rs"),
        color(3, 0, "12345"),
        color(3, 0, "7"),
    );
    assert_eq!(rendered, expected);
}

#[test]
fn entry_without_location_renders_function_alone() {
    let entry = Entry::new("main".to_string(), None);
    assert_eq!(entry.render(), color(4, 0, "main"));
}

#[test]
fn backtrace_renders_between_banners() {
    let bt = Backtrace::with_entries(vec![
        Entry::new("a::b".to_string(), None),
        Entry::new("c::d".to_string(), Some(Location::new("/x.rs".to_string(), 1, 2))),
    ]);
    let rendered = bt.render();
    let expected = format!(
        "{}{}\n{}\n{}",
        color(1, 0, "\n--- BACKTRACE START ---\n"),
        color(4, 0, "a::b"),
        format!(
            "{} {}:{}:{}",
            color(4, 0, "c::d"),
            color(2, 0, "/x.rs"),
            color(3, 0, "1"),
            color(3, 0, "2")
        ),
        color(1, 0, "--- BACKTRACE END ------\n"),
    );
    assert_eq!(rendered, expected);
}

#[test]
fn empty_backtrace_renders_banners_only() {
    let bt = Backtrace::with_entries(Vec::new());
    let rendered = bt.render();
    let expected = format!(
        "{}{}",
        color(1, 0, "\n--- BACKTRACE START ---\n"),
        color(1, 0, "--- BACKTRACE END ------\n"),
    );
    assert_eq!(rendered, expected);
}
