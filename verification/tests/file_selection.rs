use tsmetrics::utils::{
    default_excludes, glob_match, is_excluded_entry, is_excluded_name, is_excluded_path, is_glob_excluded,
    is_ts_extension,
};

fn strings(v: &[&str]) -> Vec<String> {
    v.iter().map(|s| s.to_string()).collect()
}

#[test]
fn default_excludes_list() {
    assert_eq!(default_excludes(), ["node_modules", ".git", "dist", "build", "coverage", ".next", "__pycache__"]);
}

#[test]
fn default_and_extra_names_are_excluded() {
    let extra = strings(&["generated"]);
    assert!(is_excluded_name("node_modules", &extra));
    assert!(is_excluded_name("generated", &extra));
    assert!(!is_excluded_name("src", &extra));
    assert!(!is_excluded_name("distribution", &extra));
}

#[test]
fn path_is_excluded_when_any_component_is() {
    let extra = strings(&[]);
    assert!(is_excluded_path(
        "project/node_modules/lib/a.ts",
        &strings(&["project", "node_modules", "lib", "a.ts"]),
        &extra
    ));
    assert!(!is_excluded_path("project/src/a.ts", &strings(&["project", "src", "a.ts"]), &extra));
}

#[test]
fn typescript_extensions() {
    assert!(is_ts_extension(Some("ts")));
    assert!(is_ts_extension(Some("tsx")));
    assert!(!is_ts_extension(Some("js")));
    assert!(!is_ts_extension(Some("TS")));
    assert!(!is_ts_extension(None));
}

#[test]
fn glob_wildcards() {
    assert!(glob_match("*.ts", "a.ts"));
    assert!(!glob_match("*.ts", "src/a.ts"));
    assert!(glob_match("**/*.ts", "a.ts"));
    assert!(glob_match("**/*.ts", "src/deep/a.ts"));
    assert!(glob_match("src/generated/**", "src/generated/x/y.ts"));
    assert!(!glob_match("src/generated/**", "src/other/y.ts"));
    assert!(glob_match("a?c", "abc"));
    assert!(!glob_match("a?c", "a/c"));
    assert!(!glob_match("a?c", "ac"));
    assert!(glob_match("", ""));
    assert!(!glob_match("", "a"));
    assert!(glob_match("**", ""));
}

#[test]
fn test_files_are_excluded_by_the_readme_pattern() {
    // A directory `d` holding `a.test.ts` and `b.ts`, walked with `--exclude "**/*.test.ts"`.
    let extra = strings(&["**/*.test.ts"]);
    assert!(is_excluded_entry("a.test.ts", "d/a.test.ts", &extra));
    assert!(!is_excluded_entry("b.ts", "d/b.ts", &extra));
    assert!(!is_excluded_entry("d", "d", &extra));
    assert!(is_excluded_path("./src/a.test.ts", &strings(&[".", "src", "a.test.ts"]), &extra));
}

#[test]
fn directory_globs_apply_below_any_start() {
    let extra = strings(&["src/generated/**"]);
    assert!(is_glob_excluded("src/generated/api.ts", &extra));
    assert!(is_glob_excluded("./src/generated/api.ts", &extra));
    assert!(is_glob_excluded("/home/me/project/src/generated/deep/api.ts", &extra));
    assert!(!is_glob_excluded("src/gen/api.ts", &extra));
    assert!(!is_glob_excluded("lib/src/generatedx/api.ts", &extra));
}

#[test]
fn plain_names_still_exclude_directories() {
    let extra = strings(&["vendor"]);
    assert!(is_excluded_entry("vendor", "project/vendor", &extra));
    assert!(is_excluded_path("project/vendor/a.ts", &strings(&["project", "vendor", "a.ts"]), &extra));
    assert!(!is_excluded_entry("src", "project/src", &extra));
}
