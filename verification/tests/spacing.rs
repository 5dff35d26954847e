use progenitor_impl::space_out_items;
use progenitor_impl::spacing::{space_out_for, space_out_lines};

fn unix(text: &str) -> String {
    space_out_lines(text, false)
}

fn run_together(text: &str) -> String {
    text.chars().filter(|c| *c != '\n' && *c != '\r').collect()
}

#[test]
fn blank_line_after_item() {
    assert_eq!(
        unix("fn a() {\n    b();\n}\nfn c() {\n}\n"),
        "fn a() {\n    b();\n}\n\nfn c() {\n}\n",
    );
}

#[test]
fn blank_line_at_two_levels() {
    let text = "mod m {\n    impl S {\n        fn a() {\n            b\n        }\n        fn c() {}\n    }\n    fn d() {}\n}\n";
    assert_eq!(
        unix(text),
        "mod m {\n    impl S {\n        fn a() {\n            b\n        }\n\n        fn c() {}\n    }\n\n    fn d() {}\n}\n",
    );
}

#[test]
fn no_blank_line_deeper() {
    let text = "{\n            }\n            next();\n";
    assert_eq!(unix(text), text);
}

#[test]
fn no_blank_line_after_deeper_brace() {
    // The brace stands at three levels, what follows at two.
    let text = "f(\n            }\n        )";
    assert_eq!(unix(text), text);
    let text = "f(\r\n            }\r\n        )";
    assert_eq!(space_out_lines(text, true), text);
    // Eight characters are two levels, nine are more.
    assert_eq!(unix("\n        }\nx"), "\n        }\n\nx");
    assert_eq!(unix("\n         }\nx"), "\n         }\nx");
}

#[test]
fn no_blank_line_between_closing_braces() {
    let text = "a {\n    b {\n    }\n}\n";
    assert_eq!(unix(text), text);
}

#[test]
fn no_blank_line_without_brace_on_its_own_line() {
    let text = "a {}\nb\n";
    assert_eq!(unix(text), text);
    assert_eq!(unix(""), "");
    assert_eq!(unix("}\nx"), "}\nx");
}

#[test]
fn blank_line_stays_one_more() {
    // A line that is blank already gets another before it.
    assert_eq!(unix("\n}\n\nx"), "\n}\n\n\nx");
}

#[test]
fn overlapping_ends_are_passed_over() {
    // The line end before the second brace belongs to the first match.
    assert_eq!(unix("\n}\n\n}\nx"), "\n}\n\n\n}\nx");
}

#[test]
fn windows_line_ends() {
    assert_eq!(
        space_out_lines("a {\r\n}\r\nb\r\n", true),
        "a {\r\n}\r\n\r\nb\r\n",
    );
    // Line feeds alone do not end an item there, nor do pairs elsewhere.
    assert_eq!(space_out_lines("a {\n}\nb\n", true), "a {\n}\nb\n");
    assert_eq!(unix("a {\r\n}\r\nb\r\n"), "a {\r\n}\r\nb\r\n");
}

#[test]
fn only_line_ends_are_added() {
    for text in [
        "fn a() {\n}\nfn b() {\n}\nfn c() {\n}\n",
        "\u{e9}\n\u{2003}}\n\u{a0}x\n}\ny",
        "no braces at all",
    ] {
        let spaced = unix(text);
        assert_eq!(run_together(&spaced), run_together(text));
        assert!(spaced.len() >= text.len());
    }
    assert_eq!(unix("\u{e9}\n\u{2003}}\n\u{a0}x\n}\ny"), "\u{e9}\n\u{2003}}\n\n\u{a0}x\n}\n\ny");
    assert_eq!(unix("no braces at all"), "no braces at all");
}

#[test]
fn separator_decides_line_ends() {
    let text = "a {\n}\nb {\r\n}\r\nc";
    assert_eq!(space_out_for(text, '/'), "a {\n}\n\nb {\r\n}\r\nc");
    assert_eq!(space_out_for(text, '\\'), "a {\n}\nb {\r\n}\r\n\r\nc");
}

#[test]
fn platform_decides_line_ends() {
    let text = "a {\n}\nb {\r\n}\r\nc";
    let spaced = space_out_items(text.to_string()).unwrap();
    assert_eq!(spaced, space_out_for(text, std::path::MAIN_SEPARATOR));
    assert_ne!(spaced, text);
}
