use renzora_authoring::content_problems::{ContentProblem, ContentProblems, ProblemSeverity};

fn err(message: &str) -> ContentProblem {
    ContentProblem {
        severity: ProblemSeverity::Error,
        message: message.to_string(),
        line: None,
    }
}

fn warn(message: &str) -> ContentProblem {
    ContentProblem {
        severity: ProblemSeverity::Warning,
        message: message.to_string(),
        line: Some(3),
    }
}

/// The panel must show a repaired file as fixed. `set` replaces rather than appends, so
/// recompiling clean is what clears it.
#[test]
fn recompiling_clean_clears_the_path() {
    let mut problems = ContentProblems::default();
    problems.set("materials/a.material", vec![err("boom")]);
    assert_eq!(problems.error_count(), 1);

    problems.set("materials/a.material", Vec::new());
    assert!(problems.is_empty());
}

#[test]
fn one_path_does_not_clear_another() {
    let mut problems = ContentProblems::default();
    problems.set("a.material", vec![err("a broke")]);
    problems.set("b.material", vec![err("b broke")]);
    problems.set("a.material", Vec::new());

    assert_eq!(problems.get("a.material").len(), 0);
    assert_eq!(problems.get("b.material").len(), 1);
}

#[test]
fn iteration_is_in_path_order_with_errors_first() {
    let mut problems = ContentProblems::default();
    problems.set("z.material", vec![err("z")]);
    problems.set("b.material", vec![warn("b1"), err("b2"), warn("b3")]);
    problems.set("a.material", vec![warn("a")]);
    let listed: Vec<(&str, &str)> = problems
        .iter()
        .into_iter()
        .map(|(path, p)| (path, p.message.as_str()))
        .collect();
    assert_eq!(
        listed,
        vec![
            ("a.material", "a"),
            ("b.material", "b2"),
            ("b.material", "b1"),
            ("b.material", "b3"),
            ("z.material", "z"),
        ]
    );
    assert_eq!(problems.error_count(), 2);
    assert_eq!(problems.warning_count(), 3);
}

#[test]
fn a_later_set_replaces_the_list() {
    let mut problems = ContentProblems::new();
    problems.set("m.material", vec![err("one"), err("two")]);
    problems.set("m.material", vec![warn("three")]);
    let got = problems.get("m.material");
    assert_eq!(got.len(), 1);
    assert_eq!(got[0].message, "three");
    assert_eq!(got[0].line, Some(3));
    assert_eq!(problems.error_count(), 0);
    assert_eq!(problems.warning_count(), 1);
}

#[test]
fn clear_path_forgets_only_that_path() {
    let mut problems = ContentProblems::new();
    problems.set("a", vec![err("a")]);
    problems.set("ab", vec![err("ab")]);
    problems.clear_path("a");
    assert!(problems.get("a").is_empty());
    assert_eq!(problems.get("ab")[0].message, "ab");
    problems.clear_path("missing");
    assert!(!problems.is_empty());
}

#[test]
fn paths_order_by_code_point() {
    let mut problems = ContentProblems::new();
    problems.set("é.material", vec![err("accent")]);
    problems.set("z.material", vec![err("z")]);
    problems.set("Z.material", vec![err("upper")]);
    let paths: Vec<&str> = problems.iter().into_iter().map(|(p, _)| p).collect();
    assert_eq!(paths, vec!["Z.material", "z.material", "é.material"]);
}

#[test]
fn the_order_does_not_depend_on_the_order_of_sets() {
    let mut first = ContentProblems::new();
    first.set("b", vec![err("b")]);
    first.set("a", vec![warn("a")]);
    first.set("c", vec![err("c")]);
    let mut second = ContentProblems::new();
    second.set("c", vec![err("c")]);
    second.set("a", vec![warn("a")]);
    second.set("b", vec![err("b")]);
    let listed = |p: &ContentProblems| -> Vec<(String, String)> {
        p.iter().into_iter().map(|(path, q)| (path.to_string(), q.message.clone())).collect()
    };
    assert_eq!(listed(&first), listed(&second));
    assert_eq!(first.error_count() + first.warning_count(), 3);
}
