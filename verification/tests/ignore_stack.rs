use standardoc_core::filters::{descent_pruned, file_layer, is_matchable, pattern_layer, IgnoreLayer, IgnoreStack};

const ROOT: &str = "/ws";

/// A stack as the workspace build assembles it: the root layer, then each
/// nested file layer whose directory the root layer does not prune.
fn stack_of(root: Option<IgnoreLayer>, nested: &[(&str, &str)]) -> IgnoreStack {
    let root_lines = root.as_ref().map(|l| l.lines.clone()).unwrap_or_default();
    let mut stack = IgnoreStack::new(ROOT.to_string());
    if let Some(l) = root {
        stack.add_layer(l);
    }
    for (dir, text) in nested {
        let pruned = dir
            .split('/')
            .scan(String::new(), |acc, part| {
                if !acc.is_empty() {
                    acc.push('/');
                }
                acc.push_str(part);
                Some(acc.clone())
            })
            .any(|prefix| descent_pruned(ROOT, &root_lines, &prefix, true));
        if !pruned {
            stack.add_layer(file_layer(dir.to_string(), text));
        }
    }
    stack
}

fn root_file(text: &str) -> Option<IgnoreLayer> {
    Some(file_layer(String::new(), text))
}

#[test]
fn is_ignored_returns_false_when_no_layer() {
    let stack = stack_of(None, &[]);
    assert!(!stack.is_ignored("src/lib.rs"));
    assert!(!stack.is_ignored("anything"));
}

#[test]
fn gitignore_stack_root_only() {
    let stack = stack_of(root_file("target/\nbuild/\n"), &[]);
    assert!(stack.is_ignored("target/debug/foo.rs"));
    assert!(stack.is_ignored("build/output.js"));
    assert!(!stack.is_ignored("src/lib.rs"));
}

#[test]
fn gitignore_stack_nested_layers_extend_root() {
    let stack = stack_of(root_file("target/\n"), &[("crates", "vendor/\n")]);
    assert!(stack.is_ignored("target/debug.rs"));
    assert!(stack.is_ignored("crates/vendor/lib.rs"));
    assert!(!stack.is_ignored("crates/src/lib.rs"));
}

#[test]
fn gitignore_stack_negation_override() {
    let stack = stack_of(root_file("build/\n"), &[("crates", "!build/\n")]);
    assert!(stack.is_ignored("build/output.js"));
    assert!(!stack.is_ignored("crates/build/output.js"));
}

#[test]
fn is_ignored_matches_glob_patterns() {
    let stack = stack_of(root_file("*.lock\n**/generated/**\n"), &[]);
    assert!(stack.is_ignored("Cargo.lock"));
    assert!(stack.is_ignored("crates/foo/generated/api.ts"));
    assert!(!stack.is_ignored("Cargo.toml"));
}

#[test]
fn build_skips_descent_into_excluded_subtrees() {
    let stack = stack_of(root_file("target/\n"), &[("target", "!debug/\n")]);
    assert!(
        stack.is_ignored("target/debug/foo.rs"),
        "nested .stdignore inside an excluded subtree must not be discovered"
    );
}

#[test]
fn is_ignored_handles_root_path_safely() {
    let stack = stack_of(None, &[]);
    assert!(!stack.is_ignored(""));
}

#[test]
fn sxd_root_patterns_prune_descent_into_excluded_dirs() {
    let stack = stack_of(Some(pattern_layer("target/\n")), &[("target", "!important.rs\n")]);
    assert!(
        stack.is_ignored("target/important.rs"),
        "a file under an sxd-excluded dir must stay ignored even if a nested \
         .stdignore tries to re-include it (descent walk must be pruned)"
    );
}

#[test]
fn build_with_root_patterns_overrides_stdignore() {
    // The configured patterns stand in for the root `.stdignore` ("build/").
    let stack = stack_of(Some(pattern_layer("target/\n")), &[]);
    assert!(stack.is_ignored("target/debug.rs"));
    assert!(!stack.is_ignored("build/out.js"));
}

#[test]
fn build_with_root_patterns_skips_blank_and_comment_lines() {
    let patterns = "\n# leading comment\ntarget/\n\n# trailing\nbuild/\n";
    let stack = stack_of(Some(pattern_layer(patterns)), &[]);
    assert!(stack.is_ignored("target/foo"));
    assert!(stack.is_ignored("build/bar"));
}

#[test]
fn ignore_stack_orders_layers_by_depth() {
    // Added deepest first, the deeper layer still decides.
    let mut stack = IgnoreStack::new(ROOT.to_string());
    stack.add_layer(file_layer("a/b".to_string(), "!x.rs\n"));
    stack.add_layer(file_layer(String::new(), "*.rs\n"));
    assert!(!stack.is_ignored("a/b/x.rs"));
    assert!(stack.is_ignored("a/y.rs"));
}

#[test]
fn file_layer_strips_byte_order_mark_and_line_ends() {
    let l = file_layer("d".to_string(), "\u{feff}target/\r\nbuild/\n");
    assert_eq!(l.lines, vec!["target/", "build/"]);
    assert_eq!(l.dir, "d");
}

#[test]
fn descent_pruned_follows_root_lines_only() {
    let lines = vec!["target/".to_string()];
    assert!(descent_pruned(ROOT, &lines, "target", true));
    assert!(!descent_pruned(ROOT, &lines, "target", false));
    assert!(!descent_pruned(ROOT, &lines, "src", true));
    assert!(!descent_pruned(ROOT, &Vec::new(), "target", true));
    assert!(is_matchable("a/b"));
    assert!(!is_matchable("a//b"));
    assert!(!is_matchable("/a"));
}
