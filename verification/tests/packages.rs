use oftb::assoc::{upsert, Named};
use oftb::compile::{qualified_name, Bundle};
use oftb::error::ErrorKind;
use oftb::metadata::{
    main_files_of, BinaryComponentMetadata, ComponentsMetadata, LibraryComponentMetadata,
    PackageMetadata,
};
use oftb::module::{augment_module_imports, Module};
use oftb::packages::{builtins_wf, Crawl, CrawlAction, DependencyStep, EntryKind, ModulesStep, Packages};

fn s(x: &str) -> String {
    x.to_string()
}

fn module(name: &str, no_prelude: bool, imports: &[(&str, &str)], exports: &[&str]) -> Module {
    Module {
        name: s(name),
        no_prelude,
        imports: imports.iter().map(|(a, b)| (s(a), s(b))).collect(),
        exports: exports.iter().map(|x| s(x)).collect(),
    }
}

fn meta(name: &str, library: bool, binaries: &[(&str, &str)], deps: &[&str]) -> PackageMetadata {
    PackageMetadata {
        name: s(name),
        components: ComponentsMetadata {
            library: if library { Some(LibraryComponentMetadata {}) } else { None },
            binaries: binaries
                .iter()
                .map(|(n, p)| BinaryComponentMetadata { name: s(n), path: s(p) })
                .collect(),
        },
        dependencies: deps.iter().map(|x| s(x)).collect(),
    }
}

fn crawl_of(r: Result<Option<Crawl>, ErrorKind>) -> Crawl {
    match r {
        Ok(Some(c)) => c,
        other => panic!("expected a crawl, got {:?}", other),
    }
}

fn package_crawl(r: Result<ModulesStep, ErrorKind>, name: &str) -> Crawl {
    match r {
        Ok(ModulesStep::Package(n, Some(c))) if n == name => c,
        other => panic!("expected a crawl of {}, got {:?}", name, other),
    }
}

/// A context with a standard library `std` (prelude exporting `list` and `map`) and
/// a package `app` with a library module and a `main` binary.
fn sample_context() -> Packages {
    let mut p = Packages::new();
    let std_meta = meta("std", true, &[], &[]);
    let mut c = crawl_of(p.add_stdlib_from(s("/lib/std"), &std_meta, std_meta.clone()));
    assert_eq!(c.source_file(&s("prelude.oft")), Some(s("std/prelude")));
    c.add_module(&s("prelude.oft"), module("std/prelude", true, &[], &["list", "map"])).unwrap();
    c.add_module(&s("lib.oft"), module("std", false, &[], &["id"])).unwrap();
    p.finish_package(c);

    let app_meta = meta("app", true, &[("app", "src/main.oft")], &[]);
    let loading = vec![s("app")];
    let mut c = package_crawl(p.add_modules_from(s("/home/app"), &app_meta, app_meta.clone(), &loading), "app");
    assert_eq!(c.source_file(&s("main.oft")), None);
    c.enter_dir(s("util"));
    assert_eq!(c.source_file(&s("strings.oft")), Some(s("app/util/strings")));
    c.add_module(&s("strings.oft"), module("app/util/strings", false, &[], &["join"])).unwrap();
    assert_eq!(c.leave_dir(), s("util"));
    c.add_module(&s("lib.oft"), module("app", false, &[("std/prelude", "list")], &[])).unwrap();
    p.finish_package(c);

    let decls = vec![
        Named { name: s(""), value: vec![s("car"), s("cdr")] },
        Named { name: s("math"), value: vec![s("add")] },
    ];
    p.add_builtins(s("intrinsics"), decls);
    p
}

#[test]
fn new_context_has_no_std() {
    let p = Packages::new();
    assert!(format!("{:?}", p).contains("std_name: None"));
}

#[test]
fn misnamed_package_is_refused() {
    let mut p = Packages::new();
    let m = meta("other", true, &[], &[]);
    let r = p.add_package_from(s("wanted"), s("/x"), false, vec![], m);
    assert_eq!(r.unwrap_err(), ErrorKind::MisnamedPackage(s("wanted"), s("other")));
}

#[test]
fn dependency_without_library_is_refused() {
    let mut p = Packages::new();
    let m = meta("dep", false, &[], &[]);
    let r = p.add_package_from(s("dep"), s("/x"), true, vec![], m);
    assert_eq!(r.unwrap_err(), ErrorKind::DependencyMustExportLib(s("dep")));
}

#[test]
fn package_without_library_is_added_empty() {
    let mut p = Packages::new();
    let m = meta("tool", false, &[("tool", "src/main.oft")], &[]);
    let r = p.add_package_from(s("tool"), s("/tool"), false, vec![s("main.oft")], m);
    assert!(matches!(r, Ok(None)));
    let std_meta = meta("std", true, &[], &[]);
    let mut c = crawl_of(p.add_stdlib_from(s("/std"), &std_meta, std_meta.clone()));
    c.add_module(&s("prelude.oft"), module("std/prelude", true, &[], &[])).unwrap();
    p.finish_package(c);
    let req = p.compile(s("tool"), "tool").unwrap();
    assert_eq!(req.binary_path, s("/tool/src/main.oft"));
    assert_eq!(req.modules.len(), 1);
}

#[test]
fn misnamed_module_is_refused() {
    let mut p = Packages::new();
    let m = meta("pkg", true, &[], &[]);
    let mut c = crawl_of(p.add_package_from(s("pkg"), s("/pkg"), false, vec![], m));
    c.enter_dir(s("sub"));
    let r = c.add_module(&s("x.oft"), module("pkg/x", false, &[], &[]));
    assert_eq!(r.unwrap_err(), ErrorKind::MisnamedModule(s("pkg/sub/x"), s("pkg/x")));
}

#[test]
fn stdlib_name_is_recorded_even_when_loading_fails() {
    let mut p = Packages::new();
    let root = meta("std", false, &[], &[]);
    let r = p.add_stdlib_from(s("/std"), &root, root.clone());
    assert_eq!(r.unwrap_err(), ErrorKind::DependencyMustExportLib(s("std")));
    assert_eq!(p.std_name(), s("std"));
}

#[test]
fn stdlib_misnamed_on_second_read() {
    let mut p = Packages::new();
    let root = meta("std", true, &[], &[]);
    let again = meta("stdx", true, &[], &[]);
    let r = p.add_stdlib_from(s("/std"), &root, again);
    assert_eq!(r.unwrap_err(), ErrorKind::MisnamedPackage(s("std"), s("stdx")));
    assert_eq!(p.std_name(), s("std"));
}

#[test]
fn main_files_of_binaries_under_src() {
    let m = meta("p", true, &[("a", "src/a.oft"), ("b", "bin/b.oft"), ("c", "src/c/d.oft")], &[]);
    assert_eq!(main_files_of(&m), vec![s("a.oft"), s("c/d.oft")]);
}

#[test]
fn exports_of_finds_the_module() {
    let p = sample_context();
    assert_eq!(p.exports_of(&s("std"), &s("std/prelude")).unwrap(), vec![s("list"), s("map")]);
    assert_eq!(p.exports_of(&s("app"), &s("app/util/strings")).unwrap(), vec![s("join")]);
}

#[test]
fn load_module_refuses_colons() {
    let m = module("m", false, &[], &[]);
    let names = vec![s("ok"), s("bad:name"), s("worse:")];
    assert_eq!(Packages::load_module(&names, m.clone()).unwrap_err(), ErrorKind::IllegalDeclName(s("bad:name")));
    let names = vec![s("ok"), s("fine")];
    assert_eq!(Packages::load_module(&names, m.clone()).unwrap(), m);
    assert_eq!(Packages::load_module(&vec![], m.clone()).unwrap(), m);
}

#[test]
fn compile_gathers_modules_with_the_prelude() {
    let p = sample_context();
    let req = p.compile(s("app"), "app").unwrap();
    assert_eq!(req.prelude, s("std/prelude"));
    assert_eq!(req.prelude_exports, vec![s("list"), s("map")]);
    assert_eq!(req.binary_path, s("/home/app/src/main.oft"));
    assert_eq!(req.modules.len(), 4);
    // The prelude itself opts out and is unchanged.
    assert_eq!(req.modules[0], module("std/prelude", true, &[], &["list", "map"]));
    // The std library root gets the prelude's exports.
    assert_eq!(
        req.modules[1],
        module("std", false, &[("std/prelude", "list"), ("std/prelude", "map")], &["id"])
    );
    assert_eq!(
        req.modules[2],
        module("app/util/strings", false, &[("std/prelude", "list"), ("std/prelude", "map")], &["join"])
    );
    // A module that already imports from the prelude is left as it is.
    assert_eq!(req.modules[3], module("app", false, &[("std/prelude", "list")], &[]));
}

#[test]
fn compile_files_builtins_under_qualified_names() {
    let p = sample_context();
    let req = p.compile(s("app"), "app").unwrap();
    assert_eq!(
        req.builtins,
        vec![
            Named { name: s("intrinsics"), value: vec![s("car"), s("cdr")] },
            Named { name: s("intrinsics/math"), value: vec![s("add")] },
        ]
    );
}

#[test]
fn qualified_names() {
    assert_eq!(qualified_name(&s("intrinsics"), &s("")), s("intrinsics"));
    assert_eq!(qualified_name(&s("intrinsics"), &s("io")), s("intrinsics/io"));
}

#[test]
fn add_binary_appends_main_last() {
    let p = sample_context();
    let req = p.compile(s("app"), "app").unwrap();
    let n = req.modules.len();
    let bundle: Bundle = req.add_binary(module("main", false, &[], &[])).unwrap();
    assert_eq!(bundle.modules.len(), n + 1);
    assert_eq!(
        bundle.modules[n],
        module("main", false, &[("std/prelude", "list"), ("std/prelude", "map")], &[])
    );
    assert_eq!(bundle.builtins.len(), 2);
}

#[test]
fn binary_must_be_named_main() {
    let p = sample_context();
    let req = p.compile(s("app"), "app").unwrap();
    let r = req.add_binary(module("app/main", false, &[], &[]));
    assert_eq!(r.unwrap_err(), ErrorKind::BadBinaryName(s("app/main")));
}

#[test]
fn unknown_binary_is_refused() {
    let p = sample_context();
    let r = p.compile(s("app"), "nope");
    assert_eq!(r.unwrap_err(), ErrorKind::NoSuchBinary(s("app"), s("nope")));
}

#[test]
fn unknown_root_package_is_refused() {
    let p = sample_context();
    let r = p.compile(s("ghost"), "app");
    assert_eq!(r.unwrap_err(), ErrorKind::NoSuchBinary(s("ghost"), s("app")));
    let p = sample_context();
    let r = p.compile(s("intrinsics"), "app");
    assert_eq!(r.unwrap_err(), ErrorKind::NoSuchBinary(s("intrinsics"), s("app")));
}

#[test]
fn reloading_a_package_replaces_it() {
    let mut p = sample_context();
    let m = meta("app", true, &[("app", "src/other.oft")], &[]);
    let mut c = crawl_of(p.add_package_from(s("app"), s("/elsewhere"), false, vec![], m));
    c.add_module(&s("lib.oft"), module("app", true, &[], &[])).unwrap();
    p.finish_package(c);
    let req = p.compile(s("app"), "app").unwrap();
    assert_eq!(req.binary_path, s("/elsewhere/src/other.oft"));
    // std's two modules, then the replaced app's one, in the order packages were filed.
    assert_eq!(req.modules.len(), 3);
    assert_eq!(req.modules[2], module("app", true, &[], &[]));
}

#[test]
fn upsert_replaces_in_place_and_appends_new_names() {
    let mut t: Vec<Named<Vec<String>>> = Vec::new();
    upsert(&mut t, s("a"), vec![s("1")]);
    upsert(&mut t, s("b"), vec![s("2")]);
    upsert(&mut t, s("a"), vec![s("3")]);
    assert_eq!(
        t,
        vec![Named { name: s("a"), value: vec![s("3")] }, Named { name: s("b"), value: vec![s("2")] }]
    );
}

#[test]
fn adding_the_prelude_twice_changes_nothing_more() {
    let exports = vec![s("list"), s("map")];
    let mut m = module("m", false, &[("other", "x")], &["y"]);
    augment_module_imports(&mut m, &s("std/prelude"), &exports);
    let once = m.clone();
    assert_eq!(
        once,
        module("m", false, &[("other", "x"), ("std/prelude", "list"), ("std/prelude", "map")], &["y"])
    );
    augment_module_imports(&mut m, &s("std/prelude"), &exports);
    assert_eq!(m, once);
    let mut quiet = module("q", true, &[], &[]);
    augment_module_imports(&mut quiet, &s("std/prelude"), &exports);
    assert_eq!(quiet, module("q", true, &[], &[]));
}

#[test]
fn colliding_builtin_names_are_linked_once() {
    let mut p = sample_context();
    p.add_builtins(s("intrinsics/math"), vec![Named { name: s(""), value: vec![s("pow")] }]);
    let req = p.compile(s("app"), "app").unwrap();
    assert_eq!(
        req.builtins,
        vec![
            Named { name: s("intrinsics"), value: vec![s("car"), s("cdr")] },
            Named { name: s("intrinsics/math"), value: vec![s("pow")] },
        ]
    );
}

#[test]
fn crawled_modules_are_named_after_their_package() {
    let mut p = Packages::new();
    let m = meta("pkg", true, &[], &[]);
    let mut c = crawl_of(p.add_package_from(s("pkg"), s("/pkg"), false, vec![], m));
    c.enter_dir(s("a"));
    c.enter_dir(s("b"));
    assert_eq!(c.source_file(&s("lib.oft")), Some(s("pkg/a/b/lib")));
    assert_eq!(c.source_file(&s("c.oft")), Some(s("pkg/a/b/c")));
    assert_eq!(c.leave_dir(), s("b"));
    assert_eq!(c.leave_dir(), s("a"));
    assert_eq!(c.source_file(&s("lib.oft")), Some(s("pkg")));
    assert!(p.get(&s("pkg")).is_none());
    p.finish_package(c);
    assert!(matches!(p.get(&s("pkg")), Some(oftb::packages::Package::Filesystem(_, _, ms)) if ms.is_empty()));
}

#[test]
fn prelude_and_std_checks() {
    let p = Packages::new();
    assert!(!p.std_loaded());
    assert!(!p.prelude_loaded());
    let p = sample_context();
    assert!(p.std_loaded());
    assert!(p.prelude_loaded());
    assert_eq!(p.std_name(), s("std"));
}

#[test]
fn missing_dependencies_lists_those_not_loaded() {
    let mut p = Packages::new();
    let m = meta("app", true, &[], &["std", "util", "json"]);
    assert_eq!(p.missing_dependencies(&m), vec![s("std"), s("util"), s("json")]);
    let u = meta("util", false, &[], &[]);
    assert!(matches!(p.add_package_from(s("util"), s("/util"), false, vec![], u), Ok(None)));
    assert_eq!(p.missing_dependencies(&m), vec![s("std"), s("json")]);
    let none = meta("solo", true, &[], &[]);
    assert!(p.missing_dependencies(&none).is_empty());
}

#[test]
fn dependencies_loaded_first_remain_packages() {
    let mut p = Packages::new();
    let dep = meta("dep", true, &[], &[]);
    let mut c = crawl_of(p.add_package_from(s("dep"), s("/dep"), true, vec![], dep));
    c.add_module(&s("lib.oft"), module("dep", false, &[], &["f"])).unwrap();
    p.finish_package(c);
    let root = meta("app", false, &[], &["dep"]);
    assert!(p.missing_dependencies(&root).is_empty());
    let r = p.add_modules_from(s("/app"), &root, root.clone(), &vec![s("app")]);
    assert!(matches!(r, Ok(ModulesStep::Package(ref n, None)) if n == "app"));
    assert!(p.get(&s("dep")).is_some());
    assert!(p.get(&s("app")).is_some());
}

#[test]
fn crawl_actions_by_entry_kind() {
    let mut p = Packages::new();
    let m = meta("pkg", true, &[("pkg", "src/main.oft")], &[]);
    let c = crawl_of(p.add_package_from(s("pkg"), s("/pkg"), false, vec![s("main.oft")], m));
    assert_eq!(c.action_for(EntryKind::Dir, &s("sub")), CrawlAction::Descend);
    assert_eq!(c.action_for(EntryKind::Other, &s("link.oft")), CrawlAction::NeitherDirNorFile);
    assert_eq!(c.action_for(EntryKind::File, &s("a.oft")), CrawlAction::Load(s("pkg/a")));
    assert_eq!(c.action_for(EntryKind::File, &s("main.oft")), CrawlAction::Skip);
    assert_eq!(c.action_for(EntryKind::File, &s("notes.md")), CrawlAction::Skip);
}

#[test]
fn crawl_knows_the_modules_found() {
    let mut p = Packages::new();
    let m = meta("pkg", true, &[], &[]);
    let mut c = crawl_of(p.add_package_from(s("pkg"), s("/pkg"), false, vec![], m));
    assert!(!c.has_module(&s("pkg/a")));
    c.add_module(&s("a.oft"), module("pkg/a", false, &[], &["x", "y"])).unwrap();
    assert!(c.has_module(&s("pkg/a")));
    assert!(!c.has_module(&s("pkg")));
}

#[test]
fn builtin_tables_must_not_repeat_names() {
    let ok = vec![Named { name: s(""), value: vec![s("a"), s("b")] }, Named { name: s("m"), value: vec![] }];
    assert!(builtins_wf(&ok));
    let twice = vec![Named { name: s("m"), value: vec![] }, Named { name: s("m"), value: vec![] }];
    assert!(!builtins_wf(&twice));
    let dup = vec![Named { name: s("m"), value: vec![s("a"), s("a")] }];
    assert!(!builtins_wf(&dup));
}

#[test]
fn module_exports_must_not_repeat() {
    assert!(module("m", false, &[], &["a", "b"]).exports_distinct());
    assert!(!module("m", false, &[], &["a", "b", "a"]).exports_distinct());
}

#[test]
fn exports_of_gives_distinct_names() {
    let p = sample_context();
    let e = p.exports_of(&s("std"), &s("std/prelude")).unwrap();
    let mut sorted = e.clone();
    sorted.sort();
    sorted.dedup();
    assert_eq!(sorted.len(), e.len());
}

#[test]
fn packages_clone_keeps_everything() {
    let p = sample_context();
    let q = p.clone();
    assert_eq!(q.std_name(), s("std"));
    assert_eq!(format!("{:?}", p), format!("{:?}", q));
    let a = p.compile(s("app"), "app").unwrap();
    let b = q.compile(s("app"), "app").unwrap();
    assert_eq!(a, b);
    assert_eq!(b.modules.len(), 4);
}

#[test]
fn next_dependency_loads_the_first_missing_one() {
    let mut p = Packages::new();
    let m = meta("app", true, &[], &["util", "json"]);
    let loading = vec![s("app")];
    assert_eq!(p.next_dependency(&m, &loading), DependencyStep::Load(s("util")));
    assert_eq!(p.missing_dependencies(&m).len(), 2);
    let u = meta("util", false, &[], &[]);
    assert!(matches!(p.add_package_from(s("util"), s("/util"), false, vec![], u), Ok(None)));
    assert_eq!(p.missing_dependencies(&m).len(), 1);
    assert_eq!(p.next_dependency(&m, &loading), DependencyStep::Load(s("json")));
    let j = meta("json", false, &[], &[]);
    assert!(matches!(p.add_package_from(s("json"), s("/json"), false, vec![], j), Ok(None)));
    assert_eq!(p.next_dependency(&m, &loading), DependencyStep::Done);
}

#[test]
fn next_dependency_reports_a_cycle() {
    let p = Packages::new();
    let b = meta("b", true, &[], &["a"]);
    let loading = vec![s("a"), s("b")];
    assert_eq!(p.next_dependency(&b, &loading), DependencyStep::Cycle(s("a")));
}

#[test]
fn add_modules_from_asks_for_missing_dependencies_first() {
    let mut p = Packages::new();
    let root = meta("app", true, &[], &["dep"]);
    let loading = vec![s("app")];
    let r = p.add_modules_from(s("/app"), &root, root.clone(), &loading);
    assert!(matches!(r, Ok(ModulesStep::NeedsDependency(DependencyStep::Load(ref d))) if d == "dep"));
    assert!(p.get(&s("app")).is_none());
    assert!(p.get(&s("dep")).is_none());

    let dep = meta("dep", true, &[], &[]);
    let mut c = crawl_of(p.add_package_from(s("dep"), s("/dep"), true, vec![], dep));
    c.add_module(&s("lib.oft"), module("dep", false, &[], &["f"])).unwrap();
    p.finish_package(c);

    let mut c = package_crawl(p.add_modules_from(s("/app"), &root, root.clone(), &loading), "app");
    c.add_module(&s("lib.oft"), module("app", false, &[], &[])).unwrap();
    p.finish_package(c);
    assert!(p.missing_dependencies(&root).is_empty());
    assert!(p.get(&s("app")).is_some());
}

#[test]
fn add_modules_from_reports_a_dependency_cycle() {
    let mut p = Packages::new();
    let root = meta("app", true, &[], &["app"]);
    let r = p.add_modules_from(s("/app"), &root, root.clone(), &vec![s("app")]);
    assert!(matches!(r, Ok(ModulesStep::NeedsDependency(DependencyStep::Cycle(ref d))) if d == "app"));
    assert!(p.get(&s("app")).is_none());
}
