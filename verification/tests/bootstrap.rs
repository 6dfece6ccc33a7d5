use pycn::bootstrap::{
    download_progress, archive_name, archive_url, install_root_for, is_compiled_file, is_stdlib_dir_name, platform_tags,
    removable_stdlib_dirs, stdlib_candidates, strip_stdlib_prefix,
};
use pycn::imports::{imported_modules, module_file_name};
use pycn::ast::AstNode;
use std::path::Path;

#[test]
fn strip_prefix_works() {
    let rel = strip_stdlib_prefix("python/lib/python3.12/os.py").expect("应匹配标准库前缀");
    assert_eq!(Path::new(&rel), Path::new("os.py"));
    assert!(strip_stdlib_prefix("python/bin/python3").is_none());
    assert!(strip_stdlib_prefix("python/lib/libpython3.12.a").is_none());
}

#[test]
fn strip_prefix_reads_components() {
    assert_eq!(strip_stdlib_prefix("python//lib/./python3.12/a/b.py"), Some("a/b.py".to_string()));
    assert_eq!(strip_stdlib_prefix("python/lib/python3.12"), Some(String::new()));
    assert_eq!(strip_stdlib_prefix("/python/lib/python3.12/os.py"), None);
    assert_eq!(strip_stdlib_prefix("./python/lib/python3.12/os.py"), None);
}

#[test]
fn install_root_in_and_out_of_target() {
    assert_eq!(install_root_for("/w/pycn/target/release"), "/w/pycn/target/release/../..");
    assert_eq!(install_root_for("/opt/pycn"), "/opt/pycn");
    assert_eq!(install_root_for("release"), "release");
}

#[test]
fn candidate_directories_in_order() {
    assert_eq!(
        stdlib_candidates("/d"),
        vec![
            "/d/python-stdlib".to_string(),
            "/d/../../python-stdlib".to_string(),
            "/d/../python-stdlib".to_string(),
            "/d/lib".to_string(),
            "/d/../lib".to_string(),
        ]
    );
}

#[test]
fn platform_names() {
    assert_eq!(platform_tags("linux", "x86_64"), Ok(("unknown-linux-gnu".to_string(), "x86_64".to_string())));
    assert_eq!(platform_tags("macos", "arm64"), Ok(("apple-darwin".to_string(), "aarch64".to_string())));
    assert_eq!(platform_tags("windows", "amd64"), Ok(("pc-windows-msvc".to_string(), "x86_64".to_string())));
    assert_eq!(platform_tags("plan9", "x86_64"), Err("不支持的操作系统: plan9".to_string()));
    assert_eq!(platform_tags("linux", "mips"), Err("不支持的 CPU 架构: mips".to_string()));
}

#[test]
fn archive_names() {
    let n = archive_name("x86_64", "unknown-linux-gnu");
    assert_eq!(n, "cpython-3.12.13+20260718-x86_64-unknown-linux-gnu-install_only.tar.gz");
    assert_eq!(
        archive_url(&n),
        "https://github.com/astral-sh/python-build-standalone/releases/download/20260718/cpython-3.12.13+20260718-x86_64-unknown-linux-gnu-install_only.tar.gz"
    );
}

#[test]
fn file_and_directory_rules() {
    assert!(is_stdlib_dir_name("python3.12"));
    assert!(is_stdlib_dir_name("Lib"));
    assert!(!is_stdlib_dir_name("python2.7"));
    assert!(is_compiled_file("os.cpython-312.pyc"));
    assert!(is_compiled_file("a.pyo"));
    assert!(!is_compiled_file(".pyc"));
    assert!(!is_compiled_file("os.py"));
    assert_eq!(removable_stdlib_dirs().len(), 9);
    assert!(removable_stdlib_dirs().contains(&"site-packages".to_string()));
}

#[test]
fn imports_of_a_program() {
    let p = AstNode::Program(vec![
        AstNode::Import { module: "工具".to_string(), alias: None },
        AstNode::Pass,
        AstNode::ImportFrom { module: "数学".to_string(), names: vec![("pi".to_string(), None)] },
    ]);
    assert_eq!(imported_modules(&p), vec!["工具".to_string(), "数学".to_string()]);
    assert_eq!(module_file_name("工具"), "工具.pycn");
}

#[test]
fn relative_path_lands_below_the_target() {
    let entry = "python/lib/python3.12//lib-dynload/./_ssl.so";
    let rel = strip_stdlib_prefix(entry).unwrap();
    let below: Vec<_> = Path::new(entry).components().skip(3).collect();
    let again: Vec<_> = Path::new(&rel).components().collect();
    assert_eq!(below, again);
    let out = Path::new("/tmp/stdlib/python3.12").join(&rel);
    assert_eq!(out, Path::new("/tmp/stdlib/python3.12/lib-dynload/_ssl.so"));
}

#[test]
fn download_progress_reports_each_new_megabyte() {
    assert_eq!(download_progress(0, 1000, 0, 0), (1000, 0, None));
    assert_eq!(
        download_progress(1000, 1048576, 0, 0),
        (1049576, 1, Some("[pycn] 下载进度: 1 MB".to_string()))
    );
    assert_eq!(
        download_progress(2097000, 1000, 1, 3145728),
        (2098000, 2, Some("[pycn] 下载进度: 2 MB / 3 MB".to_string()))
    );
    assert_eq!(download_progress(2098000, 10, 2, 3145728), (2098010, 2, None));
}

#[test]
fn platform_tags_are_known() {
    let (os, arch) = platform_tags("linux", "x86_64").expect("当前平台应受支持");
    assert!(!os.is_empty() && !arch.is_empty());
}
