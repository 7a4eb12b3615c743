use nginx_lint::fixes::{apply_fixes_to_content, apply_fixes_to_content_detailed};
use nginx_lint::lint::Fix;
use nginx_lint::linter::Linter;
use nginx_lint::parser::parse_string;

fn insert_after(line: usize, text: &str) -> Fix {
    Fix {
        line,
        old_text: None,
        new_text: text.to_string(),
        delete_line: false,
        insert_after: true,
        start_offset: None,
        end_offset: None,
    }
}

fn replace_text(line: usize, old: &str, new: &str) -> Fix {
    Fix {
        line,
        old_text: Some(old.to_string()),
        new_text: new.to_string(),
        delete_line: false,
        insert_after: false,
        start_offset: None,
        end_offset: None,
    }
}

#[test]
fn no_fixes_leave_the_text_unchanged() {
    let r = apply_fixes_to_content_detailed("a;\r\nb;\n", &vec![]);
    assert_eq!(r.content, "a;\r\nb;\n");
    assert_eq!(r.applied, 0);
    assert_eq!(r.skipped_invalid, 0);
}

#[test]
fn range_fix_replaces_its_bytes() {
    let r = apply_fixes_to_content_detailed("listen 80 ;\n", &vec![Fix::replace_range(9, 10, "")]);
    assert_eq!(r.content, "listen 80;\n");
    assert_eq!(r.applied, 1);
    assert_eq!(r.skipped_invalid, 0);
}

#[test]
fn range_fixes_apply_from_the_last_range() {
    let fixes = vec![Fix::replace_range(0, 1, "AA"), Fix::replace_range(4, 5, "EE")];
    let r = apply_fixes_to_content_detailed("abcdef", &fixes);
    assert_eq!(r.content, "AAbcdEEf");
    assert_eq!(r.applied, 2);
}

#[test]
fn overlapping_range_fix_is_passed_over() {
    let fixes = vec![Fix::replace_range(0, 5, "X"), Fix::replace_range(3, 8, "Y")];
    let r = apply_fixes_to_content_detailed("0123456789", &fixes);
    assert_eq!(r.content, "012Y89");
    assert_eq!(r.applied, 1);
    assert_eq!(r.skipped_invalid, 0);
}

#[test]
fn range_past_the_end_is_invalid() {
    let r = apply_fixes_to_content_detailed("abc", &vec![Fix::replace_range(2, 9, "")]);
    assert_eq!(r.content, "abc");
    assert_eq!(r.applied, 0);
    assert_eq!(r.skipped_invalid, 1);
}

#[test]
fn range_inside_a_character_is_invalid() {
    let r = apply_fixes_to_content_detailed("é;", &vec![Fix::replace_range(1, 2, "")]);
    assert_eq!(r.content, "é;");
    assert_eq!(r.skipped_invalid, 1);
    let r = apply_fixes_to_content_detailed("é;", &vec![Fix::replace_range(2, 3, "")]);
    assert_eq!(r.content, "é");
    assert_eq!(r.applied, 1);
}

#[test]
fn range_out_of_order_is_invalid() {
    let r = apply_fixes_to_content_detailed("abc", &vec![Fix::replace_range(2, 1, "x")]);
    assert_eq!(r.content, "abc");
    assert_eq!(r.skipped_invalid, 1);
}

#[test]
fn delete_line_fix_removes_the_line() {
    let r = apply_fixes_to_content_detailed("a;\nb;\nc;\n", &vec![Fix::delete(2)]);
    assert_eq!(r.content, "a;\nc;");
    assert_eq!(r.applied, 1);
}

#[test]
fn replace_line_fix_rewrites_the_line() {
    let r = apply_fixes_to_content_detailed("a;\nb;", &vec![Fix::replace_line(1, "x;")]);
    assert_eq!(r.content, "x;\nb;");
    assert_eq!(r.applied, 1);
}

#[test]
fn old_text_fix_replaces_each_occurrence() {
    let r = apply_fixes_to_content_detailed("on on off;", &vec![replace_text(1, "on", "no")]);
    assert_eq!(r.content, "no no off;");
    assert_eq!(r.applied, 1);
    let r = apply_fixes_to_content_detailed("off;", &vec![replace_text(1, "on", "no")]);
    assert_eq!(r.content, "off;");
    assert_eq!(r.applied, 0);
    assert_eq!(r.skipped_invalid, 0);
}

#[test]
fn insert_after_last_line_appends() {
    let r = apply_fixes_to_content_detailed("a;\nb;", &vec![insert_after(3, "c;")]);
    assert_eq!(r.content, "a;\nb;\nc;");
    assert_eq!(r.applied, 1);
}

#[test]
fn inserts_after_one_line_go_least_indented_first() {
    let fixes = vec![insert_after(1, "    inner;"), insert_after(1, "outer;")];
    let r = apply_fixes_to_content_detailed("a;\nb;", &fixes);
    assert_eq!(r.content, "a;\n    inner;\nouter;\nb;");
    assert_eq!(r.applied, 2);
}

#[test]
fn line_fixes_go_from_the_last_line() {
    let fixes = vec![Fix::delete(1), Fix::replace_line(2, "B;")];
    let r = apply_fixes_to_content_detailed("a;\nb;\nc;", &fixes);
    assert_eq!(r.content, "B;\nc;");
    assert_eq!(r.applied, 2);
}

#[test]
fn line_zero_and_lines_past_the_end_are_invalid() {
    let fixes = vec![Fix::replace_line(0, "x"), Fix::delete(5)];
    let r = apply_fixes_to_content_detailed("a;\nb;", &fixes);
    assert_eq!(r.content, "a;\nb;");
    assert_eq!(r.applied, 0);
    assert_eq!(r.skipped_invalid, 2);
}

#[test]
fn range_fixes_go_before_line_fixes() {
    let fixes = vec![Fix::delete(1), Fix::replace_range(3, 7, "y;")];
    let r = apply_fixes_to_content_detailed("a;\nb ;;\n", &fixes);
    assert_eq!(r.content, "y;");
    assert_eq!(r.applied, 2);
}

#[test]
fn short_form_gives_text_and_count() {
    let (text, applied) = apply_fixes_to_content("a ;", &vec![Fix::replace_range(1, 2, "")]);
    assert_eq!(text, "a;");
    assert_eq!(applied, 1);
}

#[test]
fn fixing_space_before_semicolon_resolves_it() {
    let content = "worker_processes 1 ;\nhttp {\n    server_tokens off ;\n}\n";
    let linter = Linter::with_default_rules();
    let config = parse_string(content).unwrap();
    let (errors, _) = linter.lint_checked(&config, "nginx.conf", content).unwrap();
    let fixes: Vec<Fix> = errors.iter().filter_map(|e| e.fix.clone()).collect();
    assert_eq!(fixes.len(), 2);
    let r = apply_fixes_to_content_detailed(content, &fixes);
    assert_eq!(r.applied, 2);
    assert_eq!(r.content, "worker_processes 1;\nhttp {\n    server_tokens off;\n}\n");
    let config = parse_string(&r.content).unwrap();
    assert!(linter.lint_checked(&config, "nginx.conf", &r.content).unwrap().0.is_empty());
}
