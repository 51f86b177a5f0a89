use flakreate::flake_template::{plan_operations, FlakeTemplate};
use flakreate::param::Param;
use flakreate::path::{file_name, rename_path};
use flakreate::replace::ReplaceOp;
use flakreate::text::{contains, replace_all_exec, same_text, text_less};

fn files(paths: &[&str]) -> Vec<String> {
    paths.iter().map(|p| p.to_string()).collect()
}

fn param(name: &str, default: &str, paths: &[&str]) -> Param {
    Param::new(
        name.to_string(),
        format!("Value for {}", name),
        default.to_string(),
        None,
        files(paths),
        false,
    )
    .unwrap()
}

fn content(path: &str, from: &str, to: &str) -> ReplaceOp {
    ReplaceOp::ContentReplace(path.to_string(), from.to_string(), to.to_string())
}

fn rename(path: &str, new_path: &str) -> ReplaceOp {
    ReplaceOp::FileRename(path.to_string(), new_path.to_string())
}

fn same_ops(a: &[ReplaceOp], b: &[ReplaceOp]) -> bool {
    format!("{:?}", a) == format!("{:?}", b)
}

#[test]
fn identity_plan_is_empty() {
    let fs = files(&["/tmp/proj/my-app.nix", "/tmp/proj/README.md"]);
    let ops = ReplaceOp::ops_for_replacing("my-app", "my-app", &fs);
    assert!(ops.is_empty());
}

#[test]
fn identity_parameter_contributes_nothing_to_the_plan() {
    let p = param("name", "my-app", &["/tmp/proj/my-app.nix"]);
    let r = p.replacement("my-app");
    assert_eq!(r.from, "my-app");
    assert_eq!(r.to, "my-app");
    assert!(r.ops.is_empty());
}

#[test]
fn content_replace_all_replaces_every_occurrence() {
    assert_eq!(replace_all_exec("foo and foo and fo", "foo", "bar"), "bar and bar and fo");
    assert_eq!(replace_all_exec("Hello my-app!", "my-app", "super-app"), "Hello super-app!");
    assert_eq!(replace_all_exec("no match here", "xyz", "abc"), "no match here");
    assert_eq!(replace_all_exec("", "xyz", "abc"), "");
}

#[test]
fn content_replace_all_takes_leftmost_non_overlapping() {
    assert_eq!(replace_all_exec("aaa", "aa", "b"), "ba");
    assert_eq!(replace_all_exec("aaaa", "aa", "b"), "bb");
    assert_eq!(replace_all_exec("abab", "ab", ""), "");
    assert_eq!(replace_all_exec("é-é", "é", "e"), "e-e");
}

#[test]
fn rename_on_file_name_match() {
    let fs = files(&["/tmp/proj/{default}-app.rs"]);
    let ops = ReplaceOp::ops_for_replacing("{default}", "widget", &fs);
    assert!(same_ops(
        &ops,
        &[
            content("/tmp/proj/{default}-app.rs", "{default}", "widget"),
            rename("/tmp/proj/{default}-app.rs", "/tmp/proj/widget-app.rs"),
        ]
    ));
}

#[test]
fn rename_keeps_directory_part() {
    let fs = files(&["/tmp/{default}/{default}-{default}.rs"]);
    let ops = ReplaceOp::ops_for_replacing("{default}", "widget", &fs);
    assert_eq!(ops.len(), 2);
    match &ops[1] {
        ReplaceOp::FileRename(from, to) => {
            assert_eq!(from, "/tmp/{default}/{default}-{default}.rs");
            assert_eq!(to, "/tmp/{default}/widget-widget.rs");
        }
        other => panic!("expected a rename, got {:?}", other),
    }
}

#[test]
fn placeholder_in_directory_is_not_renamed() {
    let fs = files(&["/tmp/proj/{default}-app/main.rs"]);
    let ops = ReplaceOp::ops_for_replacing("{default}", "widget", &fs);
    assert!(same_ops(
        &ops,
        &[content("/tmp/proj/{default}-app/main.rs", "{default}", "widget")]
    ));
}

#[test]
fn no_spurious_rename() {
    let fs = files(&["/tmp/proj/readme.md"]);
    let ops = ReplaceOp::ops_for_replacing("oldname", "newname", &fs);
    assert!(same_ops(&ops, &[content("/tmp/proj/readme.md", "oldname", "newname")]));
}

#[test]
fn content_replace_precedes_rename() {
    let fs = files(&["/a/x-old.txt", "/a/plain.txt", "old.md"]);
    let ops = ReplaceOp::ops_for_replacing("old", "new", &fs);
    assert!(same_ops(
        &ops,
        &[
            content("/a/x-old.txt", "old", "new"),
            rename("/a/x-old.txt", "/a/x-new.txt"),
            content("/a/plain.txt", "old", "new"),
            content("old.md", "old", "new"),
            rename("old.md", "new.md"),
        ]
    ));
}

#[test]
fn template_plan_follows_key_order() {
    let a = param("first", "aaa", &["/t/one.txt"]);
    let b = param("second", "bbb", &["/t/two.txt"]);
    let t = FlakeTemplate::new(
        "demo".to_string(),
        "./demo".to_string(),
        None,
        vec![("a".to_string(), a), ("b".to_string(), b)],
    )
    .unwrap();
    let plan = t
        .prompt_replacements(&["AAA".to_string(), "BBB".to_string()])
        .unwrap();
    assert_eq!(plan.len(), 2);
    assert_eq!(plan[0].0, "a");
    assert_eq!(plan[1].0, "b");
    let ops = plan_operations(&plan);
    let names: Vec<&str> = ops.iter().map(|(n, _)| n.as_str()).collect();
    assert_eq!(names, vec!["first", "second"]);
    assert!(same_ops(
        &ops.iter().map(|(_, o)| o.clone()).collect::<Vec<_>>(),
        &[content("/t/one.txt", "aaa", "AAA"), content("/t/two.txt", "bbb", "BBB")]
    ));
}

#[test]
fn template_keys_out_of_order_are_refused() {
    let a = param("first", "aaa", &["/t/one.txt"]);
    let b = param("second", "bbb", &["/t/two.txt"]);
    let t = FlakeTemplate::new(
        "demo".to_string(),
        "./demo".to_string(),
        None,
        vec![("b".to_string(), b), ("a".to_string(), a)],
    );
    assert!(t.is_none());
}

#[test]
fn template_plan_needs_one_value_per_parameter() {
    let a = param("first", "aaa", &["/t/one.txt"]);
    let t = FlakeTemplate::new(
        "demo".to_string(),
        "./demo".to_string(),
        Some("Welcome".to_string()),
        vec![("a".to_string(), a)],
    )
    .unwrap();
    assert!(t.prompt_replacements(&[]).is_none());
    assert!(t
        .prompt_replacements(&["x".to_string(), "y".to_string()])
        .is_none());
    assert_eq!(t.welcome_text().map(|w| w.as_str()), Some("Welcome"));
}

#[test]
fn empty_default_is_refused() {
    let p = Param::new(
        "name".to_string(),
        "help".to_string(),
        String::new(),
        None,
        vec![],
        true,
    );
    assert!(p.is_none());
}

#[test]
fn required_parameter_refuses_empty_value() {
    let req = Param::new(
        "name".to_string(),
        "help".to_string(),
        "x".to_string(),
        Some("hint".to_string()),
        vec![],
        true,
    )
    .unwrap();
    assert!(!req.accepts(""));
    assert!(req.accepts("y"));
    assert_eq!(req.placeholder().map(|p| p.as_str()), Some("hint"));
    let opt = param("name", "x", &[]);
    assert!(opt.accepts(""));
}

#[test]
fn text_helpers() {
    assert!(contains("my-app.nix", "app"));
    assert!(!contains("my-app.nix", "apps"));
    assert!(contains("abc", ""));
    assert!(same_text("abc", "abc"));
    assert!(!same_text("abc", "abd"));
    assert!(text_less("a", "b"));
    assert!(text_less("ab", "abc"));
    assert!(!text_less("b", "a"));
    assert!(!text_less("a", "a"));
    assert_eq!(file_name("/tmp/t/my-app.txt"), "my-app.txt");
    assert_eq!(file_name("plain"), "plain");
    assert_eq!(rename_path("/tmp/t/my-app.txt", "my-app", "super-app"), "/tmp/t/super-app.txt");
}
