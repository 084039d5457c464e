use std::path::{Path, PathBuf};

use oftb::paths::{join_path, main_file_of, oft_stem, path_is_file, source_module_name};

fn s(x: &str) -> String {
    x.to_string()
}

fn strings(xs: &[&str]) -> Vec<String> {
    xs.iter().map(|x| x.to_string()).collect()
}

#[test]
fn main_file_strips_src_dir() {
    assert_eq!(main_file_of(&s("src/main.oft")), Some(s("main.oft")));
    assert_eq!(main_file_of(&s("src/bin/tool.oft")), Some(s("bin/tool.oft")));
    assert_eq!(main_file_of(&s("src/")), Some(s("")));
}

#[test]
fn main_file_outside_src_dir() {
    assert_eq!(main_file_of(&s("bin/main.oft")), None);
    assert_eq!(main_file_of(&s("src")), None);
    assert_eq!(main_file_of(&s("sources/main.oft")), None);
    assert_eq!(main_file_of(&s("")), None);
}

#[test]
fn join_path_matches_pathbuf_join() {
    let cases = [
        ("pkg", "src/main.oft"),
        ("pkg/", "src/main.oft"),
        ("", "main.oft"),
        ("pkg", "/abs/main.oft"),
        ("a/b", ""),
        ("/", "x"),
        ("a//", "b"),
    ];
    for (base, rel) in cases.iter() {
        let expected = PathBuf::from(base).join(rel).to_str().unwrap().to_string();
        assert_eq!(join_path(&s(base), &s(rel)), expected, "{} + {}", base, rel);
    }
}

#[test]
fn join_path_exact_values() {
    assert_eq!(join_path(&s("pkg"), &s("src/main.oft")), s("pkg/src/main.oft"));
    assert_eq!(join_path(&s("pkg"), &s("/etc/x")), s("/etc/x"));
    assert_eq!(join_path(&s("a"), &s("")), s("a/"));
}

#[test]
fn oft_stem_matches_path_stem_and_extension() {
    let names = ["foo.oft", ".oft", "foo.txt", "a.b.oft", "..oft", "foo", "foo.oft.txt", "x.", "lib.oft"];
    for name in names.iter() {
        let p = Path::new(name);
        let expected = if p.extension() == Some("oft".as_ref()) {
            Some(p.file_stem().unwrap().to_str().unwrap().to_string())
        } else {
            None
        };
        assert_eq!(oft_stem(&s(name)), expected, "{}", name);
    }
}

#[test]
fn oft_stem_exact_values() {
    assert_eq!(oft_stem(&s("foo.oft")), Some(s("foo")));
    assert_eq!(oft_stem(&s(".oft")), None);
    assert_eq!(oft_stem(&s("..oft")), Some(s(".")));
    assert_eq!(oft_stem(&s("foo.txt")), None);
}

#[test]
fn path_is_file_matches_path_equality() {
    let paths = ["main.oft", "main.oft/", "main.oft//", "main.oft/.", "main.oft/./", "./main.oft",
        "main.oft/..", "bin/main.oft", "main.oftx", "main.of", "main.oft/.x", "main.oft/x"];
    let files = ["main.oft", "x"];
    for p in paths.iter() {
        for f in files.iter() {
            let expected = Path::new(p) == Path::new(f);
            assert_eq!(path_is_file(&s(p), &s(f)), expected, "{} vs {}", p, f);
        }
    }
}

#[test]
fn lib_oft_names_the_package() {
    let stack = strings(&["pkg"]);
    assert_eq!(source_module_name(&stack, &s("lib.oft"), &vec![]), Some(s("pkg")));
}

#[test]
fn nested_files_are_named_by_their_directories() {
    let stack = strings(&["pkg"]);
    assert_eq!(source_module_name(&stack, &s("foo.oft"), &vec![]), Some(s("pkg/foo")));
    let stack = strings(&["pkg", "sub", "deeper"]);
    assert_eq!(source_module_name(&stack, &s("bar.oft"), &vec![]), Some(s("pkg/sub/deeper/bar")));
    let stack = strings(&["pkg", "sub"]);
    assert_eq!(source_module_name(&stack, &s("lib.oft"), &vec![]), Some(s("pkg/sub/lib")));
}

#[test]
fn main_files_and_other_extensions_are_skipped() {
    let stack = strings(&["pkg"]);
    let main_files = strings(&["main.oft", "bin/tool.oft"]);
    assert_eq!(source_module_name(&stack, &s("main.oft"), &main_files), None);
    assert_eq!(source_module_name(&stack, &s("tool.oft"), &main_files), Some(s("pkg/tool")));
    assert_eq!(source_module_name(&stack, &s("notes.txt"), &main_files), None);
    let stack = strings(&["pkg", "sub"]);
    assert_eq!(source_module_name(&stack, &s("main.oft"), &main_files), None);
}
