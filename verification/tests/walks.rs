use nginx_lint::categories::{group_by_category, text_less};
use nginx_lint::include_walk::{context_for, IncludeWalk};
use nginx_lint::linter::Linter;
use nginx_lint::run::{filter_names, rule_only_problems};

fn strings(v: &[&str]) -> Vec<String> {
    v.iter().map(|s| s.to_string()).collect()
}

#[test]
fn rules_are_grouped_by_category() {
    let cats = strings(&["style", "syntax", "zeta", "style", "alpha", "syntax"]);
    let order = strings(&["syntax", "security", "style"]);
    let groups = group_by_category(&cats, &order);
    let names: Vec<&str> = groups.iter().map(|g| g.0.as_str()).collect();
    assert_eq!(names, vec!["syntax", "style", "alpha", "zeta"]);
    assert_eq!(groups[0].1, vec![1, 5]);
    assert_eq!(groups[1].1, vec![0, 3]);
    assert_eq!(groups[2].1, vec![4]);
    assert_eq!(groups[3].1, vec![2]);
}

#[test]
fn texts_compare_by_code_point() {
    assert!(text_less("abc", "abd"));
    assert!(text_less("ab", "abc"));
    assert!(!text_less("b", "abc"));
    assert!(!text_less("same", "same"));
    assert!(text_less("Z", "a"));
}

#[test]
fn rule_only_reports_what_cannot_run() {
    let requested = strings(&["block-lines", "indent", "no-such-rule"]);
    let registered = strings(&["block-lines", "trailing-whitespace"]);
    let catalog = strings(&["block-lines", "indent", "trailing-whitespace"]);
    let (not_loaded, unknown) = rule_only_problems(&requested, &registered, &catalog);
    assert_eq!(not_loaded, strings(&["indent"]));
    assert_eq!(unknown, strings(&["no-such-rule"]));
    assert_eq!(filter_names(&registered, &requested, false), strings(&["trailing-whitespace"]));
}

#[test]
fn rules_are_removed_by_name() {
    let mut linter = Linter::with_default_rules();
    linter.remove_rules_by_name(&strings(&["duplicate-directive", "block-lines"]));
    assert_eq!(
        linter.rule_names(),
        strings(&["invalid-directive-context", "space-before-semicolon", "trailing-whitespace"])
    );
}

#[test]
fn include_walk_is_depth_first_and_visits_each_file_once() {
    let mut walk = IncludeWalk::new("nginx.conf".to_string(), vec![]);
    let (root, ctx) = walk.next_file().unwrap();
    assert_eq!(root, "nginx.conf");
    assert!(ctx.is_empty());
    assert!(walk.first_visit("/etc/nginx/nginx.conf"));
    walk.push_children(vec![
        ("a.conf".to_string(), strings(&["http"])),
        ("b.conf".to_string(), strings(&["http", "server"])),
    ]);
    let (a, actx) = walk.next_file().unwrap();
    assert_eq!(a, "a.conf");
    assert_eq!(actx, strings(&["http"]));
    assert!(walk.first_visit("/etc/nginx/a.conf"));
    walk.push_children(vec![("nginx.conf".to_string(), vec![])]);
    let (again, _) = walk.next_file().unwrap();
    assert_eq!(again, "nginx.conf");
    assert!(!walk.first_visit("/etc/nginx/nginx.conf"));
    let (b, bctx) = walk.next_file().unwrap();
    assert_eq!(b, "b.conf");
    assert_eq!(bctx, strings(&["http", "server"]));
    assert!(walk.next_file().is_none());
}

#[test]
fn a_file_without_a_parent_takes_its_declared_context() {
    assert_eq!(context_for(vec![], "# nginx-lint:context http,server\nlisten 80;\n"), strings(&["http", "server"]));
    assert_eq!(context_for(strings(&["http"]), "# nginx-lint:context stream\n"), strings(&["http"]));
    assert!(context_for(vec![], "listen 80;\n").is_empty());
}
