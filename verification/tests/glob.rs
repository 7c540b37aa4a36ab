use swab::glob::compile;
use swab::glob::is_usable;
use swab::glob::pattern_accepts;

#[test]
fn patterns_match_whole_paths() {
    assert!(pattern_accepts("target", "target"));
    assert!(!pattern_accepts("target", "a/target"));
    assert!(!pattern_accepts("target", "target/debug"));
    assert!(pattern_accepts("**/target", "target"));
    assert!(pattern_accepts("**/target", "crates/foo/target"));
    assert!(!pattern_accepts("**/target", "crates/foo/target/debug"));
    assert!(pattern_accepts("node_modules/**", "node_modules/a/b"));
    assert!(!pattern_accepts("node_modules/**", "node_modules"));
    assert!(pattern_accepts("*.log", "a.log"));
    assert!(pattern_accepts("*.log", "logs/a.log"));
    assert!(!pattern_accepts("*.log", "a.log.txt"));
    assert!(pattern_accepts("build.gradle{,.kts}", "build.gradle.kts"));
    assert!(pattern_accepts("[a-c]?", "bz"));
    assert!(!pattern_accepts("[!a-c]?", "bz"));
}

#[test]
fn matching_is_case_sensitive() {
    assert!(pattern_accepts("Obj", "Obj"));
    assert!(!pattern_accepts("Obj", "obj"));
}

#[test]
fn malformed_patterns_are_not_usable() {
    for pattern in ["[", "[a", "{a,b", "a}", "[z-a]"] {
        assert!(!is_usable(pattern));
        assert!(compile(pattern).is_none());
        assert!(!pattern_accepts(pattern, pattern));
    }
    for pattern in ["", "a", "**", "{a,b}", "[a-z]", "a\\*b"] {
        assert!(is_usable(pattern));
        assert!(compile(pattern).is_some());
    }
}

#[test]
fn patterns_beyond_the_limit_are_not_usable() {
    let fits = "?".repeat(256);
    let long = "?".repeat(257);
    assert!(is_usable(&fits));
    assert!(pattern_accepts(&fits, &"x".repeat(256)));
    assert!(!is_usable(&long));
    assert!(compile(&long).is_none());
    assert!(!pattern_accepts(&long, &"x".repeat(257)));
    let wide = "é".repeat(256);
    assert!(is_usable(&wide));
    assert!(pattern_accepts(&wide, &wide));
    assert!(!is_usable(&"é".repeat(257)));
}

#[test]
fn patterns_within_the_limit_compile_whatever_they_hold() {
    let patterns = [
        format!("{}a{}", "{".repeat(127), "}".repeat(127)),
        format!("{}a{}", "{?".repeat(85), "}".repeat(85)),
        format!("{}[!z]{}", "{a,".repeat(62), "}".repeat(62)),
        "[!é]".repeat(64),
        "[é-ü]".repeat(51),
        "[a-é]".repeat(51),
        "{a,b}".repeat(51),
        "**/".repeat(85),
        "*".repeat(256),
        "\u{10ffff}".repeat(256),
        "[\u{10000}-\u{10ffff}]".repeat(51),
    ];
    for pattern in &patterns {
        assert!(pattern.chars().count() <= 256);
        assert!(is_usable(pattern));
        assert!(compile(pattern).is_some());
    }
}

#[test]
fn patterns_and_paths_may_hold_any_text() {
    assert!(pattern_accepts("é*", "école"));
    assert!(pattern_accepts("**/журнал", "a/b/журнал"));
    assert!(!pattern_accepts("é*", "ecole"));
}
