use mini_coreutils::cat::args::show_nonprinting_chars;
use mini_coreutils::cat::args::show_tabs;
use mini_coreutils::cat::args::Args;
use mini_coreutils::cat::args::LineState;

fn no_options() -> Args {
    Args {
        files: Vec::new(),
        show_all: false,
        number_nonblank: false,
        e_flag: false,
        show_ends: false,
        number: false,
        squeeze_blank: false,
        t_flag: false,
        show_tabs: false,
        u_flag: false,
        show_nonprinting: false,
    }
}

fn normalize_newline(s: &str) -> String {
    s.replace("\r\n", "\n")
}

fn lines_of(input: &str) -> Vec<String> {
    input.lines().map(|line| line.to_string()).collect()
}

/// Runs the inputs through the options as the program does: the combined
/// options spelled out, each input read line by line, and each line that is
/// printed closed by a line feed.
fn cat(mut args: Args, inputs: &[&str]) -> String {
    args.process_combined_flags();
    let inputs: Vec<Vec<String>> = inputs.iter().map(|input| lines_of(input)).collect();
    let mut out = String::new();
    for text in args.print_files(&inputs) {
        out.push_str(&text);
        out.push('\n');
    }
    out
}

#[test]
fn test_cat_single_file() {
    let content = "Hello, world!\nThis is a test.\n";
    let mut args = no_options();
    args.files = vec!["single.txt".to_string()];
    assert_eq!(args.get_files(), vec!["single.txt".to_string()]);
    assert_eq!(cat(args, &[content]), content);
}

#[test]
fn test_cat_multiple_files() {
    let content1 = "File 1 content.\n";
    let content2 = "File 2 content.\n";
    let mut args = no_options();
    args.files = vec!["one.txt".to_string(), "two.txt".to_string()];
    assert_eq!(args.get_files(), vec!["one.txt".to_string(), "two.txt".to_string()]);
    assert_eq!(
        cat(args, &[content1, content2]),
        normalize_newline(&format!("{}{}", content1, content2))
    );
}

#[test]
fn test_cat_stdin() {
    let input = "Hello from stdin!\n";
    let args = no_options();
    assert_eq!(args.get_files(), vec!["-".to_string()]);
    assert_eq!(cat(args, &[input]), normalize_newline(input));
}

#[test]
fn test_cat_number_all_lines() {
    let content = "Line 1\n\nLine 3\n";
    let expected = "     1  Line 1\n     2  \n     3  Line 3\n";
    let mut args = no_options();
    args.number = true;
    assert_eq!(cat(args, &[content]), normalize_newline(expected));
}

#[test]
fn test_cat_number_nonblank_lines() {
    let content = "Line 1\n\nLine 3\n";
    let expected = "     1  Line 1\n\n     2  Line 3\n";
    let mut args = no_options();
    args.number_nonblank = true;
    assert_eq!(cat(args, &[content]), normalize_newline(expected));
}

#[test]
fn test_cat_show_ends() {
    let content = "Line 1\nLine 2\n";
    let expected = "Line 1$\nLine 2$\n";
    let mut args = no_options();
    args.show_ends = true;
    assert_eq!(cat(args, &[content]), normalize_newline(expected));
}

#[test]
fn test_cat_squeeze_blank() {
    let content = "Line 1\n\n\nLine 2\n";
    let expected = "Line 1\n\nLine 2\n";
    let mut args = no_options();
    args.squeeze_blank = true;
    assert_eq!(cat(args, &[content]), normalize_newline(expected));
}

#[test]
fn test_cat_show_tabs() {
    let content = "Line\twith\ttabs\n";
    let expected = "Line^Iwith^Itabs\n";
    let mut args = no_options();
    args.show_tabs = true;
    assert_eq!(cat(args, &[content]), normalize_newline(expected));
}

#[test]
fn test_cat_show_nonprinting() {
    let content = "\x01\x02\x7f\n"; // SOH, STX, DEL
    let expected = "^A^B^?\n";
    let mut args = no_options();
    args.show_nonprinting = true;
    assert_eq!(cat(args, &[content]), normalize_newline(expected));
}

#[test]
fn test_cat_show_all() {
    let content = "Line\t1\n\nLine\t3\n";
    let expected = "Line^I1$\n$\nLine^I3$\n";
    let mut args = no_options();
    args.show_all = true;
    assert_eq!(cat(args, &[content]), normalize_newline(expected));
}

#[test]
fn test_cat_e_flag() {
    let content = "Line\n\n";
    let expected = "Line$\n$\n";
    let mut args = no_options();
    args.e_flag = true;
    assert_eq!(cat(args, &[content]), normalize_newline(expected));
}

#[test]
fn test_cat_t_flag() {
    let content = "Line\t1\n";
    let expected = "Line^I1\n";
    let mut args = no_options();
    args.t_flag = true;
    assert_eq!(cat(args, &[content]), normalize_newline(expected));
}

#[test]
fn combined_flags_switch_on_what_they_stand_for() {
    let mut args = no_options();
    args.show_all = true;
    args.process_combined_flags();
    assert!(args.show_nonprinting && args.show_ends && args.show_tabs);
    assert!(!args.number);

    let mut args = no_options();
    args.e_flag = true;
    args.process_combined_flags();
    assert!(args.show_nonprinting && args.show_ends && !args.show_tabs);

    let mut args = no_options();
    args.t_flag = true;
    args.process_combined_flags();
    assert!(args.show_nonprinting && !args.show_ends && args.show_tabs);

    let mut args = no_options();
    args.number_nonblank = true;
    args.process_combined_flags();
    assert!(args.number && args.number_nonblank);
    assert!(!args.show_nonprinting && !args.show_ends && !args.show_tabs);
}

#[test]
fn combining_a_second_time_changes_nothing() {
    let mut args = no_options();
    args.show_all = true;
    args.number_nonblank = true;
    args.files = vec!["a".to_string()];
    args.process_combined_flags();
    let once = format!("{:?}", args);
    args.process_combined_flags();
    assert_eq!(format!("{:?}", args), once);
}

#[test]
fn caret_notation_of_each_kind_of_character() {
    assert_eq!(show_nonprinting_chars("\x00"), "^@");
    assert_eq!(show_nonprinting_chars("\x1b[0m"), "^[[0m");
    assert_eq!(show_nonprinting_chars("\x1f"), "^_");
    assert_eq!(show_nonprinting_chars("a\tb"), "a\tb");
    assert_eq!(show_nonprinting_chars("a\nb"), "a\nb");
    assert_eq!(show_nonprinting_chars("\r"), "^M");
    assert_eq!(show_nonprinting_chars("\x7f"), "^?");
    assert_eq!(show_nonprinting_chars("a\u{80}b\u{9f}c"), "abc");
    assert_eq!(show_nonprinting_chars("\u{a0}é漢"), "\u{a0}é漢");
    assert_eq!(show_nonprinting_chars(""), "");
}

#[test]
fn tabs_become_caret_i() {
    assert_eq!(show_tabs("\t"), "^I");
    assert_eq!(show_tabs("a\t\tb"), "a^I^Ib");
    assert_eq!(show_tabs("no tabs"), "no tabs");
}

#[test]
fn numbering_runs_on_over_several_inputs() {
    let mut args = no_options();
    args.number = true;
    assert_eq!(cat(args, &["a\nb\n", "c\n"]), "     1  a\n     2  b\n     3  c\n");
}

#[test]
fn squeezing_runs_on_over_several_inputs() {
    let mut args = no_options();
    args.squeeze_blank = true;
    assert_eq!(cat(args, &["a\n\n", "\n\nb\n"]), "a\n\nb\n");
}

#[test]
fn wide_numbers_push_the_line_to_the_right() {
    let mut args = no_options();
    args.number = true;
    let mut state = LineState { line_number: 1234567, prev_line_empty: false };
    assert_eq!(args.format_line(&mut state, "x"), Some("1234567  x".to_string()));
    assert_eq!(state, LineState { line_number: 1234568, prev_line_empty: false });
    state.line_number = 999999;
    assert_eq!(args.format_line(&mut state, "y"), Some("999999  y".to_string()));
}

#[test]
fn a_squeezed_line_leaves_the_state_alone() {
    let mut args = no_options();
    args.squeeze_blank = true;
    args.number = true;
    let mut state = LineState::new();
    assert_eq!(state, LineState { line_number: 1, prev_line_empty: false });
    assert_eq!(args.format_line(&mut state, ""), Some("     1  ".to_string()));
    assert_eq!(state, LineState { line_number: 2, prev_line_empty: true });
    assert_eq!(args.format_line(&mut state, ""), None);
    assert_eq!(state, LineState { line_number: 2, prev_line_empty: true });
    assert_eq!(args.format_line(&mut state, "z"), Some("     2  z".to_string()));
    assert_eq!(state, LineState { line_number: 3, prev_line_empty: false });
}

#[test]
fn nonblank_numbering_needs_numbering_switched_on() {
    let mut args = no_options();
    args.number_nonblank = true;
    let mut state = LineState::new();
    assert_eq!(args.format_line(&mut state, "a"), Some("a".to_string()));
    args.process_combined_flags();
    assert_eq!(args.format_line(&mut state, ""), Some("".to_string()));
    assert_eq!(args.format_line(&mut state, "a"), Some("     1  a".to_string()));
}

#[test]
fn control_characters_are_shown_before_tabs_and_ends() {
    let mut args = no_options();
    args.show_nonprinting = true;
    args.show_tabs = true;
    args.show_ends = true;
    let mut state = LineState::new();
    assert_eq!(args.format_line(&mut state, "\x01\t\x7f"), Some("^A^I^?$".to_string()));
}

#[test]
fn lines_of_one_input_are_rewritten_with_the_state_carried_in() {
    let mut args = no_options();
    args.number = true;
    args.squeeze_blank = true;
    let mut state = LineState { line_number: 7, prev_line_empty: true };
    let texts = args.format_lines(&mut state, &lines_of("\n\nx\n\n"));
    assert_eq!(texts, vec!["     7  x", "     8  "]);
    assert_eq!(state, LineState { line_number: 9, prev_line_empty: true });
    let texts = args.format_lines(&mut state, &Vec::new());
    assert!(texts.is_empty());
    assert_eq!(state, LineState { line_number: 9, prev_line_empty: true });
}

#[test]
fn printing_in_one_go_is_printing_line_by_line() {
    let mut args = no_options();
    args.show_all = true;
    args.number_nonblank = true;
    args.squeeze_blank = true;
    args.process_combined_flags();
    let inputs = vec![lines_of("a\tb\n\n\n"), Vec::new(), lines_of("\n\x7f\nlast")];
    let mut state = LineState::new();
    let mut one_by_one = Vec::new();
    for input in &inputs {
        for line in input {
            one_by_one.extend(args.format_line(&mut state, line));
        }
    }
    assert_eq!(args.print_files(&inputs), one_by_one);
    assert_eq!(one_by_one, vec!["     1  a^Ib$", "$", "     2  ^?$", "     3  last$"]);
    assert!(args.print_files(&Vec::new()).is_empty());
}
