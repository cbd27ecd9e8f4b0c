use fuzz_suite::{detect_language, CompilerConfig, Language};

#[test]
fn test_language_detection() {
    assert_eq!(detect_language("test.c"), Some(Language::C));
    assert_eq!(detect_language("test.cpp"), Some(Language::Cpp));
    assert_eq!(detect_language("test.txt"), None);
}

#[test]
fn test_compiler_config() {
    let config = CompilerConfig::new(Language::Cpp)
        .with_optimization("-O2")
        .with_flags(vec!["-Wall".to_string()]);

    assert_eq!(config.language, Language::Cpp);
    assert_eq!(config.optimization_level, "-O2");
    assert!(config.extra_flags.contains(&"-Wall".to_string()));
}

#[test]
fn language_detection_edge_paths() {
    assert_eq!(detect_language("src/dir/x.cc"), Some(Language::Cpp));
    assert_eq!(detect_language("x.cxx"), Some(Language::Cpp));
    assert_eq!(detect_language("build/main.c/"), Some(Language::C));
    assert_eq!(detect_language(".c"), None);
    assert_eq!(detect_language("a/.."), None);
    assert_eq!(detect_language("archive.tar.c"), Some(Language::C));
    assert_eq!(detect_language("noext"), None);
    assert_eq!(detect_language("x.C"), None);
    assert_eq!(detect_language(""), None);
}

#[test]
fn language_from_extension() {
    assert_eq!(Language::from_extension("c"), Some(Language::C));
    assert_eq!(Language::from_extension("cc"), Some(Language::Cpp));
    assert_eq!(Language::from_extension("h"), None);
    assert_eq!(Language::C.compiler_name(), "clang");
    assert_eq!(Language::Cpp.compiler_name(), "clang++");
}

#[test]
fn compiler_defaults_and_args() {
    let c = CompilerConfig::new(Language::C);
    assert_eq!(c.compiler_path, "clang");
    assert_eq!(c.optimization_level, "-O0");
    assert!(c.extra_flags.is_empty());
    let d = CompilerConfig::default();
    assert_eq!(d.compiler_path, "clang");
    let c = c.with_flags(vec!["-g".to_string()]).with_flags(vec!["-DTESTING".to_string()]);
    let args = c.coverage_args("in.c", "out");
    assert_eq!(
        args,
        vec![
            "in.c", "-o", "out", "-O0", "--coverage", "-fprofile-instr-generate",
            "-fcoverage-mapping", "-g", "-DTESTING"
        ]
    );
}
