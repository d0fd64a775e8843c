use generate_kernel_cmdline::lines::trim_lines;
use generate_kernel_cmdline::merge::{apply_config, merge_fragments};
use generate_kernel_cmdline::render::join_options;

fn strings(items: &[&str]) -> Vec<String> {
    items.iter().map(|s| s.to_string()).collect()
}

fn merged_line(fragments: &[&[&str]]) -> String {
    let frags: Vec<Vec<String>> = fragments.iter().map(|f| strings(f)).collect();
    join_options(&merge_fragments(&frags))
}

#[test]
fn removal_then_addition_across_fragments() {
    assert_eq!(merged_line(&[&["quiet", "splash"], &["-quiet", "debug"]]), "splash debug");
}

#[test]
fn comments_and_blanks_skipped() {
    assert_eq!(merged_line(&[&["# comment", "", "root=/dev/sda1"]]), "root=/dev/sda1");
}

#[test]
fn duplicate_addition_kept_once() {
    assert_eq!(merged_line(&[&["loglevel=7"], &["loglevel=7"]]), "loglevel=7");
}

#[test]
fn removal_of_absent_value_is_harmless() {
    assert_eq!(merged_line(&[&["-nosuch"]]), "");
}

#[test]
fn readded_value_moves_to_end() {
    assert_eq!(merged_line(&[&["a", "b"], &["-a", "a"]]), "b a");
}

#[test]
fn no_fragments_give_empty_line() {
    assert_eq!(merged_line(&[]), "");
    assert!(merge_fragments(&Vec::new()).is_empty());
}

#[test]
fn only_comments_give_empty_line() {
    assert_eq!(merged_line(&[&["# a", ""], &["#quiet"]]), "");
}

#[test]
fn addition_twice_same_as_once() {
    let mut once = strings(&["x"]);
    apply_config(&mut once, strings(&["quiet"]));
    let mut twice = strings(&["x"]);
    apply_config(&mut twice, strings(&["quiet", "quiet"]));
    assert_eq!(once, twice);
    assert_eq!(twice, strings(&["x", "quiet"]));
}

#[test]
fn removal_matches_exactly() {
    let mut cmdline = strings(&["console", "console=ttyS0", "consol", "xconsole", "console"]);
    apply_config(&mut cmdline, strings(&["-console"]));
    assert_eq!(cmdline, strings(&["console=ttyS0", "consol", "xconsole"]));
}

#[test]
fn distinct_additions_keep_first_seen_order() {
    assert_eq!(merged_line(&[&["c", "a"], &["b"], &["d", "e"]]), "c a b d e");
}

#[test]
fn no_value_appears_twice() {
    let frags: Vec<Vec<String>> = vec![
        strings(&["a", "b", "a", "c"]),
        strings(&["b", "-c", "c", "c"]),
        strings(&["-b", "a", "b", "b"]),
    ];
    let result = merge_fragments(&frags);
    assert_eq!(result, strings(&["a", "c", "b"]));
}

#[test]
fn inserted_comment_lines_change_nothing() {
    let plain = merged_line(&[&["quiet", "-quiet", "splash", "ro"]]);
    let padded = merged_line(&[&["", "quiet", "# note", "-quiet", "", "splash", "#-splash", "ro", "#"]]);
    assert_eq!(plain, "splash ro");
    assert_eq!(plain, padded);
}

#[test]
fn removal_line_is_not_trimmed_after_dash() {
    let mut cmdline = strings(&["quiet"]);
    apply_config(&mut cmdline, strings(&["- quiet"]));
    assert_eq!(cmdline, strings(&["quiet"]));
    apply_config(&mut cmdline, strings(&["-"]));
    assert_eq!(cmdline, strings(&["quiet"]));
}

#[test]
fn bare_dash_removes_empty_option() {
    let mut cmdline = strings(&["", "quiet"]);
    apply_config(&mut cmdline, strings(&["-"]));
    assert_eq!(cmdline, strings(&["quiet"]));
}

#[test]
fn join_uses_single_spaces() {
    assert_eq!(join_options(&strings(&[])), "");
    assert_eq!(join_options(&strings(&["one"])), "one");
    assert_eq!(join_options(&strings(&["a=1", "b", "c=x y"])), "a=1 b c=x y");
}

#[test]
fn non_ascii_options_are_kept_whole() {
    assert_eq!(merged_line(&[&["é=ü", "-é=ü", "ß"], &["#ß", "日本"]]), "ß 日本");
}

#[test]
fn trim_removes_surrounding_whitespace() {
    let raw = strings(&["  quiet  ", "\tsplash\n", "", "   ", "a b", "-quiet "]);
    assert_eq!(trim_lines(&raw), strings(&["quiet", "splash", "", "", "a b", "-quiet"]));
}

#[test]
fn trimmed_lines_then_merged() {
    let raw = strings(&["  quiet ", " # note", "   ", "splash\t", " -quiet"]);
    let mut cmdline = Vec::new();
    apply_config(&mut cmdline, trim_lines(&raw));
    assert_eq!(join_options(&cmdline), "splash");
}
