use rust_cpp::{build_env, decimal_string, merge_cxxflags, out_dir_from_args, resolve_out_dir};

fn v(xs: &[&str]) -> Vec<String> {
    xs.iter().map(|x| x.to_string()).collect()
}

#[test]
fn out_dir_is_the_argument_after_the_flag() {
    assert_eq!(out_dir_from_args(&v(&["rustc", "--out-dir", "/tmp/o", "x.rs"])), Some("/tmp/o".to_string()));
    assert_eq!(out_dir_from_args(&v(&["rustc", "--out-dir", "--out-dir", "/d"])), Some("/d".to_string()));
    assert_eq!(out_dir_from_args(&v(&["rustc", "x.rs"])), None);
    assert_eq!(out_dir_from_args(&v(&["rustc", "--out-dir"])), None);
}

#[test]
fn out_dir_falls_back_to_working_directory() {
    assert_eq!(resolve_out_dir(&v(&["rustc"]), Some("/cwd".to_string())), Some("/cwd".to_string()));
    assert_eq!(
        resolve_out_dir(&v(&["--out-dir", "/o"]), Some("/cwd".to_string())),
        Some("/o".to_string())
    );
    assert_eq!(resolve_out_dir(&v(&[]), None), None);
}

#[test]
fn cxxflags_get_the_standard_flag() {
    assert_eq!(merge_cxxflags(None), " -std=c++0x");
    assert_eq!(merge_cxxflags(Some("-O2 -g".to_string())), "-O2 -g -std=c++0x");
}

#[test]
fn decimal_rendering() {
    assert_eq!(decimal_string(0), "0");
    assert_eq!(decimal_string(7), "7");
    assert_eq!(decimal_string(1234), "1234");
    assert_eq!(decimal_string(u64::MAX), u64::MAX.to_string());
}

#[test]
fn toolchain_environment() {
    let env = build_env(
        &"x86_64-unknown-linux-gnu".to_string(),
        &"aarch64-apple-darwin".to_string(),
        Some(3),
        &"/out".to_string(),
        Some("-Wall".to_string()),
    );
    let expect: Vec<(String, String)> = [
        ("TARGET", "x86_64-unknown-linux-gnu"),
        ("HOST", "aarch64-apple-darwin"),
        ("OPT_LEVEL", "3"),
        ("CARGO_MANIFEST_DIR", "/out"),
        ("OUT_DIR", "/out"),
        ("PROFILE", ""),
        ("CXXFLAGS", "-Wall -std=c++0x"),
    ]
    .iter()
    .map(|(a, b)| (a.to_string(), b.to_string()))
    .collect();
    assert_eq!(env, expect);
    let env0 = build_env(&"t".to_string(), &"h".to_string(), None, &"/o".to_string(), None);
    assert_eq!(env0[2], ("OPT_LEVEL".to_string(), "0".to_string()));
    assert_eq!(env0[6], ("CXXFLAGS".to_string(), " -std=c++0x".to_string()));
}
