use lean_ctx::intent::{classify, TaskType};
use lean_ctx::task_briefing::{
    build_briefing, build_context_hints, estimate_completeness, format_briefing,
    format_briefing_with, inject_into_instructions, CompletenessSignal,
};

fn files(list: &[(&str, usize)]) -> Vec<(String, usize)> {
    list.iter().map(|(p, n)| (p.to_string(), *n)).collect()
}

#[test]
fn briefing_for_generate_task() {
    let files = vec![("src/core/entropy.rs".to_string(), 120)];
    let briefing = build_briefing("add normalized_token_entropy to entropy.rs", &files);
    assert_eq!(briefing.classification.task_type, TaskType::Generate);
    assert!(briefing.output_instruction.contains("code blocks"));
    assert!(briefing.lab_thinking_instruction.contains("Skip analysis"));
}

#[test]
fn briefing_for_fix_bug() {
    let files = vec![
        ("src/core/entropy.rs".to_string(), 200),
        ("src/core/tokens.rs".to_string(), 50),
    ];
    let briefing = build_briefing("fix the NaN bug in token_entropy", &files);
    assert_eq!(briefing.classification.task_type, TaskType::FixBug);
    assert!(briefing.output_instruction.contains("changed lines"));
    assert!(!briefing.lab_thinking_instruction.is_empty());
}

#[test]
fn completeness_single_file() {
    let files = vec![("src/core/entropy.rs".to_string(), 200)];
    let briefing = build_briefing("add a function", &files);
    assert!(matches!(briefing.completeness_signal, CompletenessSignal::SingleFile));
}

#[test]
fn completeness_cross_module() {
    let files = vec![
        ("src/core/a.rs".to_string(), 100),
        ("src/tools/b.rs".to_string(), 100),
        ("src/server.rs".to_string(), 100),
        ("tests/integration.rs".to_string(), 100),
    ];
    let briefing = build_briefing("refactor compression pipeline", &files);
    assert!(matches!(
        briefing.completeness_signal,
        CompletenessSignal::CrossModule
    ));
}

#[test]
fn format_briefing_includes_all_sections() {
    let files = vec![("src/core/entropy.rs".to_string(), 120)];
    let briefing = build_briefing("fix bug in entropy.rs", &files);
    let formatted = format_briefing(&briefing);
    assert!(formatted.contains("[TASK:"));
    assert!(formatted.contains("OUTPUT-HINT:"));
    assert!(formatted.contains("SCOPE:"));
}

#[test]
fn format_briefing_without_output_hint_keeps_classification_and_hints() {
    let files = vec![("src/core/entropy.rs".to_string(), 120)];
    let briefing = build_briefing("how does the entropy scorer work?", &files);
    let quiet = format_briefing_with(&briefing, false);
    assert!(quiet.contains("[TASK:"));
    assert!(quiet.contains("SCOPE:"));
    assert!(!quiet.contains("OUTPUT-HINT:"), "{quiet}");
    assert!(
        !briefing.context_hints.is_empty(),
        "explore tasks carry hints"
    );
    for hint in &briefing.context_hints {
        assert!(quiet.contains(hint), "hint '{hint}' must survive");
    }
    assert_eq!(
        format_briefing(&briefing),
        format_briefing_with(&briefing, true)
    );
}

#[test]
fn inject_empty_task_unchanged() {
    let base = "some instructions";
    let result = inject_into_instructions(base, "");
    assert_eq!(result, base);
}

#[test]
fn briefing_covers_all_task_types() {
    let scenarios: &[(&str, &str)] = &[
        ("add a new function to entropy.rs", "generate"),
        ("fix the bug in token_optimizer.rs", "fix_bug"),
        ("how does the session cache work?", "explore"),
        ("refactor compression pipeline", "refactor"),
        ("write unit tests for entropy", "test"),
        ("debug why compression ratio drops", "debug"),
    ];
    for &(task, expected_type) in scenarios {
        let briefing = build_briefing(task, &[("src/main.rs".to_string(), 100)]);
        assert_eq!(
            briefing.classification.task_type.as_str(),
            expected_type,
            "Task '{task}' should be classified as '{expected_type}'",
        );
        let formatted = format_briefing(&briefing);
        assert!(formatted.contains("[TASK:"));
        assert!(formatted.contains("OUTPUT-HINT:"));
    }
}

#[test]
fn scope_follows_targets_and_directories() {
    let named = classify("fix alpha_one and beta_two");
    assert_eq!(named.targets, vec!["alpha_one".to_string(), "beta_two".to_string()]);
    let plain = classify("fix it");
    let one = files(&[("src/a.rs", 1), ("src/b.rs", 2)]);
    let three = files(&[("src/a.rs", 1), ("lib/b.rs", 2), ("c.rs", 3), ("./d.rs", 3)]);
    assert_eq!(estimate_completeness(&plain, &[]).as_str(), "SCOPE:unknown");
    assert_eq!(estimate_completeness(&plain, &one).as_str(), "SCOPE:single-file");
    assert_eq!(estimate_completeness(&named, &one).as_str(), "SCOPE:multi-file");
    assert_eq!(estimate_completeness(&plain, &three).as_str(), "SCOPE:cross-module");
    assert_eq!(
        estimate_completeness(&plain, &three[..3]).as_str(),
        "SCOPE:multi-file"
    );
    // The root lies in no directory.
    assert_eq!(
        estimate_completeness(&plain, &files(&[("/", 1)])).as_str(),
        "SCOPE:single-file"
    );
}

#[test]
fn hints_name_targets_and_the_last_of_the_largest_files() {
    let generate = classify("create parse_tree in tree.rs, see tree.rs.");
    assert_eq!(
        build_context_hints(&generate, &[]),
        vec![
            "Pattern: match existing code style in context".to_string(),
            "Insert near: parse_tree, tree.rs".to_string(),
        ]
    );
    let bug = classify("fix bug");
    let ties = files(&[("a.rs", 7), ("b.rs", 9), ("c.rs", 9), ("d.rs", 1)]);
    assert_eq!(
        build_context_hints(&bug, &ties),
        vec![
            "Focus: identify root cause, minimal fix".to_string(),
            "Primary file: c.rs (9L)".to_string(),
        ]
    );
    assert_eq!(build_context_hints(&bug, &[]).len(), 1);
    let refactor = classify("refactor");
    assert_eq!(
        build_context_hints(&refactor, &ties)[1],
        "Files in scope: 4".to_string()
    );
    let deploy = classify("deploy it");
    assert_eq!(deploy.task_type, TaskType::Deploy);
    assert!(build_context_hints(&deploy, &ties).is_empty());
}

#[test]
fn briefing_text_is_exact() {
    let briefing = build_briefing("fix bug", &files(&[("a.rs", 3)]));
    assert_eq!(
        format_briefing(&briefing),
        "[TASK:fix_bug SCOPE:single-file]\n\
         OUTPUT-HINT: Prefer showing only changed lines as +/- diffs.\n\
         • Focus: identify root cause, minimal fix\n\
         • Primary file: a.rs (3L)"
    );
    assert_eq!(
        format_briefing_with(&briefing, false),
        "[TASK:fix_bug SCOPE:single-file]\n\
         • Focus: identify root cause, minimal fix\n\
         • Primary file: a.rs (3L)"
    );
}

#[test]
fn injection_puts_the_briefing_behind_the_instructions() {
    assert_eq!(inject_into_instructions("base", " \t\u{2003}\n"), "base");
    let all = inject_into_instructions("base", "explain it");
    assert_eq!(
        all,
        "base\n\n[TASK:explore SCOPE:unknown]\n\
         OUTPUT-HINT: Brief summary, then code or data if relevant.\n\
         • Depth: signatures + key logic, skip boilerplate"
    );
    let lab = build_briefing("explain it", &[]).lab_thinking_instruction;
    assert!(!all.contains(lab));
}

#[test]
fn strongest_cue_wins_and_nothing_means_explore() {
    assert_eq!(classify("hello there").task_type, TaskType::Explore);
    assert_eq!(classify("").task_type, TaskType::Explore);
    assert_eq!(classify("REVIEW the change").task_type, TaskType::Review);
    assert_eq!(classify("configure the env").task_type, TaskType::Config);
    // One cue each: the earlier kind of the same weight stays.
    assert_eq!(classify("add debug").task_type, TaskType::Generate);
    // Two cues beat one.
    assert_eq!(classify("add debug trace").task_type, TaskType::Debug);
}
