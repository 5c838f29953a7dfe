use agent_orchestrator::paths::join;
use agent_orchestrator::template::{render, Vars};

#[test]
fn basic_substitution() {
    let mut vars = Vars::new();
    vars.insert("owner", "zerokrab".to_string());
    vars.insert("repo", "bento-hancho".to_string());
    vars.insert("issue_number", "42".to_string());
    let tmpl = "Read GitHub issue #{{issue_number}} in {{owner}}/{{repo}}.";
    let result = render(tmpl, &vars);
    assert_eq!(result, "Read GitHub issue #42 in zerokrab/bento-hancho.");
}

#[test]
fn unknown_placeholder_left_as_is() {
    let vars = Vars::new();
    let result = render("hello {{unknown}}", &vars);
    assert_eq!(result, "hello {{unknown}}");
}

#[test]
fn output_path_substitution() {
    let mut vars = Vars::new();
    vars.insert("output_path", "data/owner/repo/42".to_string());
    let result = render("Write triage to {{output_path}}/triage.md.", &vars);
    assert_eq!(result, "Write triage to data/owner/repo/42/triage.md.");
}

#[test]
fn output_path_is_absolute_when_data_root_is_absolute() {
    let data_root = "/home/user/.agent-orchestrator";
    let issue_dir = join(&join(&join(data_root, "owner"), "repo"), "42");
    assert!(std::path::Path::new(&issue_dir).is_absolute());
    let mut vars = Vars::new();
    vars.insert("output_path", issue_dir.clone());
    let result = render("Write to {{output_path}}/plan.md", &vars);
    let expected_prefix = format!("Write to {}/", issue_dir);
    assert!(result.starts_with(&expected_prefix), "got {:?}", result);
}

#[test]
fn workspace_substitution() {
    let mut vars = Vars::new();
    vars.insert("workspace", "/data/owner/repo/workspace".to_string());
    let result = render("Work in {{workspace}} for this issue.", &vars);
    assert_eq!(result, "Work in /data/owner/repo/workspace for this issue.");
}

#[test]
fn pr_number_substitution() {
    let mut vars = Vars::new();
    vars.insert("pr_number", "123".to_string());
    vars.insert("owner", "acme".to_string());
    vars.insert("repo", "project".to_string());
    let result = render("Review PR #{{pr_number}} in {{owner}}/{{repo}}.", &vars);
    assert_eq!(result, "Review PR #123 in acme/project.");
}

#[test]
fn trigger_specific_vars_merge_with_globals() {
    let mut vars = Vars::new();
    vars.insert("owner", "acme".to_string());
    vars.insert("repo", "project".to_string());
    vars.insert("output_path", "/data/acme/project/42".to_string());
    vars.insert("workspace", "/data/acme/project/workspace".to_string());

    let mut trigger_vars = Vars::new();
    trigger_vars.insert("pr_number", "7".to_string());
    vars.extend(&trigger_vars);

    let result = render(
        "Review PR #{{pr_number}} in {{owner}}/{{repo}}. Write to {{output_path}}.",
        &vars,
    );
    assert_eq!(
        result,
        "Review PR #7 in acme/project. Write to /data/acme/project/42."
    );
}

#[test]
fn setting_a_variable_again_replaces_its_value() {
    let mut vars = Vars::new();
    vars.insert("a", "1".to_string());
    vars.insert("b", "2".to_string());
    vars.insert("a", "3".to_string());
    assert_eq!(vars.len(), 2);
    assert_eq!(vars.get("a"), Some(&"3".to_string()));
    assert_eq!(vars.get("b"), Some(&"2".to_string()));
    assert_eq!(vars.get("c"), None);
    assert_eq!(vars.entry(1).0, "b");
}

#[test]
fn extending_overrides_and_keeps() {
    let mut vars = Vars::new();
    vars.insert("owner", "acme".to_string());
    vars.insert("repo", "project".to_string());
    let mut extra = Vars::new();
    extra.insert("repo", "other".to_string());
    extra.insert("file_name", "todo.md".to_string());
    vars.extend(&extra);
    assert_eq!(vars.get("owner"), Some(&"acme".to_string()));
    assert_eq!(vars.get("repo"), Some(&"other".to_string()));
    assert_eq!(vars.get("file_name"), Some(&"todo.md".to_string()));
    let copy = vars.clone();
    assert_eq!(copy.get("repo"), Some(&"other".to_string()));
}

#[test]
fn filling_does_not_depend_on_the_order_of_the_variables() {
    let mut first = Vars::new();
    first.insert("a", "x".to_string());
    first.insert("b", "y".to_string());
    let mut second = Vars::new();
    second.insert("b", "y".to_string());
    second.insert("a", "x".to_string());
    let template = "{ \"one\": \"{{a}}\", \"two\": \"{{b}}\" } {{c}} }}";
    assert_eq!(render(template, &first), "{ \"one\": \"x\", \"two\": \"y\" } {{c}} }}");
    assert_eq!(render(template, &first), render(template, &second));
}

#[test]
fn placeholders_are_taken_from_left_to_right() {
    let mut vars = Vars::new();
    vars.insert("a", "1".to_string());
    assert_eq!(render("{{{a}}}", &vars), "{1}");
    assert_eq!(render("{{a}}{{a}}", &vars), "11");
    assert_eq!(render("", &vars), "");
    assert_eq!(render("{{ a }}", &vars), "{{ a }}");
}
