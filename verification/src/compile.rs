//! Linking a binary: gathering every loaded module, with the prelude imported, and
//! every builtin module under its qualified name.

use vstd::prelude::*;
use vstd::string::StrSliceExecFns;
use vstd::string::StringExecFns;
use crate::assoc::{Named, keys_distinct, spec_insert, upsert};
use crate::error::{ErrorKind, ErrorView};
use crate::metadata::{MetadataView, PackageMetadata, find_binary, spec_find_binary};
use crate::module::{Module, ModuleView, augment_module_imports, spec_augment};
use crate::packages::{Package, PackageView, Packages, PackagesView, spec_find_module};
use crate::paths::{join_path, spec_join_path};

verus! {

/// The characters `/prelude`.
pub open spec fn prelude_suffix() -> Seq<char> {
    seq!['/', 'p', 'r', 'e', 'l', 'u', 'd', 'e']
}

/// The name of the standard library's prelude module.
pub open spec fn spec_prelude(std: Seq<char>) -> Seq<char> {
    std + prelude_suffix()
}

/// The characters `main`, the name every binary's module must declare.
pub open spec fn main_name() -> Seq<char> {
    seq!['m', 'a', 'i', 'n']
}

/// The name under which module `m` of builtin package `pkg` is linked: the package's
/// own name for its root module (the empty name), else `pkg/m`.
pub open spec fn spec_qualified(pkg: Seq<char>, m: Seq<char>) -> Seq<char> {
    if m.len() == 0 {
        pkg
    } else {
        pkg + seq!['/'] + m
    }
}

/// The builtin modules' table after adding the modules `ms` of package `pkg`, in order.
pub open spec fn spec_add_builtin_modules(
    acc: Seq<(Seq<char>, Seq<Seq<char>>)>,
    pkg: Seq<char>,
    ms: Seq<(Seq<char>, Seq<Seq<char>>)>,
) -> Seq<(Seq<char>, Seq<Seq<char>>)>
    decreases ms.len(),
{
    if ms.len() == 0 {
        acc
    } else {
        spec_insert(
            spec_add_builtin_modules(acc, pkg, ms.drop_last()),
            spec_qualified(pkg, ms.last().0),
            ms.last().1,
        )
    }
}

/// Every builtin module of the packages, under its qualified name, with what it declares.
pub open spec fn spec_bundle_builtins(pkgs: Seq<(Seq<char>, PackageView)>) -> Seq<
    (Seq<char>, Seq<Seq<char>>),
>
    decreases pkgs.len(),
{
    if pkgs.len() == 0 {
        Seq::empty()
    } else {
        let acc = spec_bundle_builtins(pkgs.drop_last());
        match pkgs.last().1 {
            PackageView::Builtins(ms) => spec_add_builtin_modules(acc, pkgs.last().0, ms),
            PackageView::Filesystem(_, _, _) => acc,
        }
    }
}

/// Adding one package's builtin modules keeps the table's names distinct.
proof fn lemma_add_builtin_modules_distinct(
    acc: Seq<(Seq<char>, Seq<Seq<char>>)>,
    pkg: Seq<char>,
    ms: Seq<(Seq<char>, Seq<Seq<char>>)>,
)
    requires
        keys_distinct(acc),
    ensures
        keys_distinct(spec_add_builtin_modules(acc, pkg, ms)),
    decreases ms.len(),
{
    if ms.len() > 0 {
        lemma_add_builtin_modules_distinct(acc, pkg, ms.drop_last());
        crate::assoc::lemma_insert_lookup(
            spec_add_builtin_modules(acc, pkg, ms.drop_last()),
            spec_qualified(pkg, ms.last().0),
            ms.last().1,
            spec_qualified(pkg, ms.last().0),
        );
    }
}

/// Every builtin module is linked under a name of its own: no qualified name occurs
/// twice among the builtins of a bundle.
pub proof fn lemma_bundle_builtins_distinct(pkgs: Seq<(Seq<char>, PackageView)>)
    ensures
        keys_distinct(spec_bundle_builtins(pkgs)),
    decreases pkgs.len(),
{
    if pkgs.len() > 0 {
        lemma_bundle_builtins_distinct(pkgs.drop_last());
        match pkgs.last().1 {
            PackageView::Builtins(ms) => {
                lemma_add_builtin_modules_distinct(spec_bundle_builtins(pkgs.drop_last()), pkgs.last().0, ms);
            },
            PackageView::Filesystem(_, _, _) => {},
        }
    }
}

/// The modules with the prelude added to each.
pub open spec fn spec_augment_all(ms: Seq<ModuleView>, prelude: Seq<char>, exports: Seq<Seq<char>>) -> Seq<
    ModuleView,
> {
    ms.map_values(|m: ModuleView| spec_augment(m, prelude, exports))
}

/// Every module of the packages loaded from directories, in order, with the prelude added.
pub open spec fn spec_bundle_modules(
    pkgs: Seq<(Seq<char>, PackageView)>,
    prelude: Seq<char>,
    exports: Seq<Seq<char>>,
) -> Seq<ModuleView>
    decreases pkgs.len(),
{
    if pkgs.len() == 0 {
        Seq::empty()
    } else {
        let acc = spec_bundle_modules(pkgs.drop_last(), prelude, exports);
        match pkgs.last().1 {
            PackageView::Filesystem(_, _, ms) => acc + spec_augment_all(ms, prelude, exports),
            PackageView::Builtins(_) => acc,
        }
    }
}

/// The path and metadata of the package `root`, where it was loaded from a directory.
pub open spec fn spec_root_package(pkgs: Seq<(Seq<char>, PackageView)>, root: Seq<char>) -> Option<
    (Seq<char>, MetadataView),
>
    decreases pkgs.len(),
{
    if pkgs.len() == 0 {
        None
    } else {
        match pkgs.last().1 {
            PackageView::Filesystem(path, meta, _) => if pkgs.last().0 == root {
                Some((path, meta))
            } else {
                spec_root_package(pkgs.drop_last(), root)
            },
            PackageView::Builtins(_) => spec_root_package(pkgs.drop_last(), root),
        }
    }
}

impl PackagesView {
    /// The standard library is loaded, from a directory, and has its prelude module.
    pub open spec fn has_prelude(self) -> bool {
        &&& self.std_name is Some
        &&& self.lookup(self.std_name->0) matches Some(PackageView::Filesystem(_, _, ms))
            && spec_find_module(ms, spec_prelude(self.std_name->0)) is Some
    }

    /// What the standard library's prelude module exports.
    pub open spec fn prelude_exports(self) -> Seq<Seq<char>> {
        match self.lookup(self.std_name->0) {
            Some(PackageView::Filesystem(_, _, ms)) => spec_find_module(
                ms,
                spec_prelude(self.std_name->0),
            )->0.exports,
            _ => Seq::empty(),
        }
    }
}

/// A binary ready to be linked once its module is loaded: every module of the
/// packages with the prelude added, the builtin modules under their qualified names,
/// the prelude and its exports, and the path of the binary's module.
#[derive(Debug, Clone, PartialEq, Eq)]
pub struct BinaryRequest {
    pub modules: Vec<Module>,
    pub builtins: Vec<Named<Vec<String>>>,
    pub prelude: String,
    pub prelude_exports: Vec<String>,
    pub binary_path: String,
}

/// The mathematical value of a binary request.
pub struct BinaryRequestView {
    pub modules: Seq<ModuleView>,
    pub builtins: Seq<(Seq<char>, Seq<Seq<char>>)>,
    pub prelude: Seq<char>,
    pub prelude_exports: Seq<Seq<char>>,
    pub binary_path: Seq<char>,
}

impl View for BinaryRequest {
    type V = BinaryRequestView;

    open spec fn view(&self) -> BinaryRequestView {
        BinaryRequestView {
            modules: self.modules.deep_view(),
            builtins: self.builtins.deep_view(),
            prelude: self.prelude@,
            prelude_exports: self.prelude_exports.deep_view(),
            binary_path: self.binary_path@,
        }
    }
}

/// Everything a program is built from: the modules, the binary's last, and the
/// builtin modules with what each declares.
#[derive(Debug, Clone, PartialEq, Eq)]
pub struct Bundle {
    pub modules: Vec<Module>,
    pub builtins: Vec<Named<Vec<String>>>,
}

/// The mathematical value of a bundle.
pub struct BundleView {
    pub modules: Seq<ModuleView>,
    pub builtins: Seq<(Seq<char>, Seq<Seq<char>>)>,
}

impl View for Bundle {
    type V = BundleView;

    open spec fn view(&self) -> BundleView {
        BundleView { modules: self.modules.deep_view(), builtins: self.builtins.deep_view() }
    }
}

/// What `Packages::compile` gives for a context, a root package and a binary's name.
pub open spec fn spec_compile(v: PackagesView, root: Seq<char>, binary: Seq<char>) -> Result<
    BinaryRequestView,
    ErrorView,
> {
    let prelude = spec_prelude(v.std_name->0);
    let exports = v.prelude_exports();
    match spec_root_package(v.pkgs, root) {
        None => Err(ErrorView::NoSuchBinary(root, binary)),
        Some((path, meta)) => match spec_find_binary(meta.binaries, binary) {
            None => Err(ErrorView::NoSuchBinary(root, binary)),
            Some(rel) => Ok(
                BinaryRequestView {
                    modules: spec_bundle_modules(v.pkgs, prelude, exports),
                    builtins: spec_bundle_builtins(v.pkgs),
                    prelude,
                    prelude_exports: exports,
                    binary_path: spec_join_path(path, rel),
                },
            ),
        },
    }
}

/// The name under which module `m` of builtin package `pkg` is linked.
pub fn qualified_name(pkg: &String, m: &String) -> (r: String)
    ensures
        r@ == spec_qualified(pkg@, m@),
{
    if m.as_str().unicode_len() == 0 {
        pkg.clone()
    } else {
        let mut r = pkg.clone();
        r.append("/");
        proof {
            reveal_strlit("/");
        }
        r.append(m.as_str());
        r
    }
}

/// Files the modules of builtin package `pkg` under their qualified names.
fn add_builtin_modules(
    builtins: &mut Vec<Named<Vec<String>>>,
    pkg: &String,
    ms: Vec<Named<Vec<String>>>,
)
    requires
        keys_distinct(old(builtins).deep_view()),
    ensures
        final(builtins).deep_view() == spec_add_builtin_modules(
            old(builtins).deep_view(),
            pkg@,
            ms.deep_view(),
        ),
        keys_distinct(final(builtins).deep_view()),
{
    let ghost msv = ms.deep_view();
    let ghost start = builtins.deep_view();
    let ghost orig = ms@;
    let ghost n: int = ms.len() as int;
    let mut rest = ms;
    let mut i: usize = 0;
    while rest.len() > 0
        invariant
            0 <= i <= n,
            n == orig.len(),
            n <= usize::MAX,
            msv == Seq::new(orig.len(), |j: int| orig[j].deep_view()),
            rest@ == orig.subrange(i as int, n),
            builtins.deep_view() == spec_add_builtin_modules(start, pkg@, msv.take(i as int)),
            keys_distinct(builtins.deep_view()),
        decreases rest.len(),
    {
        let entry = rest.remove(0);
        assert(entry == orig[i as int]);
        assert(msv.take(i + 1).drop_last() =~= msv.take(i as int));
        assert(msv.take(i + 1).last() == entry.deep_view());
        let Named { name, value } = entry;
        let q = qualified_name(pkg, &name);
        upsert(builtins, q, value);
        assert(rest@ =~= orig.subrange(i + 1, n));
        i = i + 1;
    }
    assert(msv.take(n) =~= msv);
}

/// Adds the modules, each with the prelude added, to the end of `mods`.
fn append_augmented(mods: &mut Vec<Module>, ms: Vec<Module>, prelude: &String, exports: &Vec<String>)
    ensures
        final(mods).deep_view() == old(mods).deep_view() + spec_augment_all(
            ms.deep_view(),
            prelude@,
            exports.deep_view(),
        ),
{
    let ghost msv = ms.deep_view();
    let ghost start = mods.deep_view();
    let ghost orig = ms@;
    let ghost n: int = ms.len() as int;
    let mut rest = ms;
    let mut i: usize = 0;
    while rest.len() > 0
        invariant
            0 <= i <= n,
            n == orig.len(),
            n <= usize::MAX,
            msv == Seq::new(orig.len(), |j: int| orig[j].deep_view()),
            rest@ == orig.subrange(i as int, n),
            mods.deep_view() == start + spec_augment_all(msv.take(i as int), prelude@, exports.deep_view()),
        decreases rest.len(),
    {
        let mut m = rest.remove(0);
        assert(m == orig[i as int]);
        augment_module_imports(&mut m, prelude, exports);
        let ghost prev = mods.deep_view();
        mods.push(m);
        assert(mods.deep_view() =~= prev.push(m@));
        assert(spec_augment_all(msv.take(i + 1), prelude@, exports.deep_view()) =~= spec_augment_all(
            msv.take(i as int),
            prelude@,
            exports.deep_view(),
        ).push(spec_augment(msv[i as int], prelude@, exports.deep_view())));
        assert(rest@ =~= orig.subrange(i + 1, n));
        i = i + 1;
    }
    assert(msv.take(n) =~= msv);
}

/// The path and metadata of a root package that was found.
pub open spec fn root_view(root: Option<(String, PackageMetadata)>) -> Option<(Seq<char>, MetadataView)> {
    match root {
        Some((p, m)) => Some((p@, m@)),
        None => None,
    }
}

/// Whether a module's name is `main`.
pub fn is_main(s: &String) -> (r: bool)
    ensures
        r == (s@ == main_name()),
{
    let t = s.as_str();
    let r = t.unicode_len() == 4 && t.get_char(0) == 'm' && t.get_char(1) == 'a' && t.get_char(2)
        == 'i' && t.get_char(3) == 'n';
    if r {
        assert(s@ =~= main_name());
    }
    r
}

impl Packages {
    /// Prepares the binary `binary` of package `root_package_name` for linking: takes
    /// the prelude's exports from the standard library, adds them to the imports of
    /// every module of every package loaded from a directory, files every builtin
    /// module under its qualified name, and finds the path of the binary's module.
    pub fn compile(self, root_package_name: String, binary: &str) -> (r: Result<
        BinaryRequest,
        ErrorKind,
    >)
        requires
            self@.has_prelude(),
        ensures
            match spec_compile(self@, root_package_name@, binary@) {
                Ok(rv) => r matches Ok(req) && req@ == rv,
                Err(ev) => r matches Err(e) && e@ == ev,
            },
    {
        let ghost v = self@;
        let std = self.std_name();
        let mut prelude = std.clone();
        prelude.append("/prelude");
        proof {
            reveal_strlit("/prelude");
        }
        assert(prelude@ == spec_prelude(v.std_name->0));
        let prelude_exports = match self.exports_of(&std, &prelude) {
            Ok(e) => e,
            Err(e) => return Err(e),
        };
        assert(prelude_exports.deep_view() == v.prelude_exports());
        let pkgs = self.into_entries();
        let ghost orig = pkgs@;
        let ghost n: int = pkgs.len() as int;
        let mut rest = pkgs;
        let mut builtins: Vec<Named<Vec<String>>> = Vec::new();
        let mut mods: Vec<Module> = Vec::new();
        let mut root: Option<(String, PackageMetadata)> = None;
        assert(builtins.deep_view() =~= Seq::<(Seq<char>, Seq<Seq<char>>)>::empty());
        assert(mods.deep_view() =~= Seq::<ModuleView>::empty());
        let mut i: usize = 0;
        while rest.len() > 0
            invariant
                0 <= i <= n,
                n == orig.len(),
                n <= usize::MAX,
                v.pkgs == Seq::new(orig.len(), |j: int| orig[j].deep_view()),
                rest@ == orig.subrange(i as int, n),
                mods.deep_view() == spec_bundle_modules(
                    v.pkgs.take(i as int),
                    prelude@,
                    prelude_exports.deep_view(),
                ),
                builtins.deep_view() == spec_bundle_builtins(v.pkgs.take(i as int)),
                keys_distinct(builtins.deep_view()),
                root_view(root) == spec_root_package(v.pkgs.take(i as int), root_package_name@),
            decreases rest.len(),
        {
            let entry = rest.remove(0);
            assert(entry == orig[i as int]);
            assert(v.pkgs.take(i + 1).drop_last() =~= v.pkgs.take(i as int));
            assert(v.pkgs.take(i + 1).last() == entry.deep_view());
            let Named { name: package_name, value: package } = entry;
            match package {
                Package::Builtins(bms) => {
                    add_builtin_modules(&mut builtins, &package_name, bms);
                },
                Package::Filesystem(path, meta, ms) => {
                    if root_package_name == package_name {
                        root = Some((path, meta));
                    }
                    append_augmented(&mut mods, ms, &prelude, &prelude_exports);
                },
            }
            assert(rest@ =~= orig.subrange(i + 1, n));
            i = i + 1;
        }
        assert(v.pkgs.take(n) =~= v.pkgs);
        let (root_path, root_meta) = match root {
            Some((path, meta)) => (path, meta),
            None => {
                return Err(ErrorKind::NoSuchBinary(root_package_name, binary.to_owned()));
            },
        };
        let binary_name = binary.to_owned();
        match find_binary(&root_meta, &binary_name) {
            None => Err(ErrorKind::NoSuchBinary(root_package_name, binary_name)),
            Some(k) => {
                let binary_path = join_path(&root_path, &root_meta.components.binaries[k].path);
                Ok(BinaryRequest { modules: mods, builtins, prelude, prelude_exports, binary_path })
            },
        }
    }
}

impl BinaryRequest {
    /// Adds the binary's module, loaded from `binary_path`, which must be named
    /// `main`; the prelude is added to it as to the others, and it comes last.
    pub fn add_binary(self, binary: Module) -> (r: Result<Bundle, ErrorKind>)
        ensures
            binary@.name != main_name() ==> (r matches Err(e) && e@ == ErrorView::BadBinaryName(
                binary@.name,
            )),
            binary@.name == main_name() ==> (r matches Ok(b) && b@ == BundleView {
                modules: self@.modules.push(
                    spec_augment(binary@, self@.prelude, self@.prelude_exports),
                ),
                builtins: self@.builtins,
            }),
    {
        if !is_main(&binary.name) {
            return Err(ErrorKind::BadBinaryName(binary.name));
        }
        let BinaryRequest { modules, builtins, prelude, prelude_exports, binary_path: _ } = self;
        let mut modules = modules;
        let mut binary = binary;
        augment_module_imports(&mut binary, &prelude, &prelude_exports);
        let ghost prev = modules.deep_view();
        modules.push(binary);
        assert(modules.deep_view() =~= prev.push(binary@));
        Ok(Bundle { modules, builtins })
    }
}

} // verus!
