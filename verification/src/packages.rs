//! The module context: the packages loaded so far, and the standard library's name.

use vstd::prelude::*;
use vstd::string::StringExecFns;
use crate::assoc::{
    Named, has_key, keys_distinct, spec_insert, spec_lookup, upsert, lemma_insert_all,
    lemma_insert_has_key, lemma_insert_keeps_keys, lemma_insert_lookup, lemma_lookup_all,
};
use crate::error::{ErrorKind, ErrorView};
use crate::metadata::{PackageMetadata, MetadataView, copy_metadata, main_files_of, spec_main_files};
use crate::module::{
    Module, ModuleView, clone_names, contains_colon, copy_module, has_colon, names_distinct,
};
use crate::compile::spec_prelude;
use crate::paths::{is_file_name, spec_source_module_name, source_module_name, spec_dir_prefix};

verus! {

/// A loaded package.
#[derive(Debug, Clone, PartialEq, Eq)]
pub enum Package {
    /// A package built into the implementation: each module's name, with the names
    /// it declares.
    Builtins(Vec<Named<Vec<String>>>),
    /// A package read from a directory: its path, its metadata, and its modules.
    Filesystem(String, PackageMetadata, Vec<Module>),
}

/// The mathematical value of a package.
pub enum PackageView {
    Builtins(Seq<(Seq<char>, Seq<Seq<char>>)>),
    Filesystem(Seq<char>, MetadataView, Seq<ModuleView>),
}

impl View for Package {
    type V = PackageView;

    open spec fn view(&self) -> PackageView {
        match self {
            Package::Builtins(ms) => PackageView::Builtins(ms.deep_view()),
            Package::Filesystem(p, meta, ms) => PackageView::Filesystem(p@, meta@, ms.deep_view()),
        }
    }
}

impl DeepView for Package {
    type V = PackageView;

    open spec fn deep_view(&self) -> PackageView {
        self@
    }
}

/// The module context.
#[derive(Debug)]
pub struct Packages {
    pkgs: Vec<Named<Package>>,
    std_name: Option<String>,
}

/// The mathematical value of the module context: the packages, each filed under its
/// name, and the standard library's name once one is loaded.
pub struct PackagesView {
    pub pkgs: Seq<(Seq<char>, PackageView)>,
    pub std_name: Option<Seq<char>>,
}

/// The names of the modules, in order.
pub open spec fn module_names(ms: Seq<ModuleView>) -> Seq<Seq<char>> {
    ms.map_values(|m: ModuleView| m.name)
}

impl PackageView {
    /// Nothing occurs twice: a builtin package's modules have distinct names and each
    /// declares a name once; a loaded package's modules have distinct names and each
    /// exports a name once.
    pub open spec fn wf(self) -> bool {
        match self {
            PackageView::Builtins(ms) => keys_distinct(ms) && forall|i: int|
                0 <= i < ms.len() ==> (#[trigger] ms[i]).1.no_duplicates(),
            PackageView::Filesystem(_, _, ms) => module_names(ms).no_duplicates() && forall|i: int|
                0 <= i < ms.len() ==> (#[trigger] ms[i]).wf(),
        }
    }
}

impl PackagesView {
    /// No package name occurs twice, and every package is well formed.
    pub open spec fn wf(self) -> bool {
        &&& keys_distinct(self.pkgs)
        &&& forall|i: int| 0 <= i < self.pkgs.len() ==> (#[trigger] self.pkgs[i]).1.wf()
    }

    /// Every dependency named is a package of the context.
    pub open spec fn has_all(self, deps: Seq<Seq<char>>) -> bool {
        forall|i: int| 0 <= i < deps.len() ==> has_key(self.pkgs, #[trigger] deps[i])
    }

    /// The package filed under `name`.
    pub open spec fn lookup(self, name: Seq<char>) -> Option<PackageView> {
        spec_lookup(self.pkgs, name)
    }
}

impl Packages {
    /// No package name occurs twice, and every package is well formed.
    #[verifier::type_invariant]
    spec fn inv(self) -> bool {
        self@.wf()
    }
}

/// A copy of a package.
pub fn copy_package(p: &Package) -> (r: Package)
    ensures
        r@ == p@,
{
    match p {
        Package::Builtins(ms) => {
            let mut out: Vec<Named<Vec<String>>> = Vec::new();
            let mut i: usize = 0;
            while i < ms.len()
                invariant
                    i <= ms.len(),
                    out.deep_view() == ms.deep_view().take(i as int),
                decreases ms.len() - i,
            {
                let ghost prev = out.deep_view();
                out.push(Named { name: ms[i].name.clone(), value: clone_names(&ms[i].value) });
                assert(out.deep_view() =~= prev.push(ms.deep_view()[i as int]));
                assert(ms.deep_view().take(i + 1) =~= ms.deep_view().take(i as int).push(
                    ms.deep_view()[i as int],
                ));
                i = i + 1;
            }
            assert(ms.deep_view().take(ms.len() as int) =~= ms.deep_view());
            Package::Builtins(out)
        },
        Package::Filesystem(path, meta, ms) => {
            let mut out: Vec<Module> = Vec::new();
            let mut i: usize = 0;
            while i < ms.len()
                invariant
                    i <= ms.len(),
                    out.deep_view() == ms.deep_view().take(i as int),
                decreases ms.len() - i,
            {
                let ghost prev = out.deep_view();
                out.push(copy_module(&ms[i]));
                assert(out.deep_view() =~= prev.push(ms.deep_view()[i as int]));
                assert(ms.deep_view().take(i + 1) =~= ms.deep_view().take(i as int).push(
                    ms.deep_view()[i as int],
                ));
                i = i + 1;
            }
            assert(ms.deep_view().take(ms.len() as int) =~= ms.deep_view());
            Package::Filesystem(path.clone(), copy_metadata(meta), out)
        },
    }
}

impl Clone for Packages {
    /// A copy of the context.
    fn clone(&self) -> (r: Self)
        ensures
            r@ == self@,
    {
        proof {
            use_type_invariant(self);
        }
        let mut pkgs: Vec<Named<Package>> = Vec::new();
        let mut i: usize = 0;
        while i < self.pkgs.len()
            invariant
                i <= self.pkgs.len(),
                pkgs.deep_view() == self.pkgs.deep_view().take(i as int),
            decreases self.pkgs.len() - i,
        {
            let ghost prev = pkgs.deep_view();
            pkgs.push(Named { name: self.pkgs[i].name.clone(), value: copy_package(&self.pkgs[i].value) });
            assert(pkgs.deep_view() =~= prev.push(self.pkgs.deep_view()[i as int]));
            assert(self.pkgs.deep_view().take(i + 1) =~= self.pkgs.deep_view().take(i as int).push(
                self.pkgs.deep_view()[i as int],
            ));
            i = i + 1;
        }
        assert(self.pkgs.deep_view().take(self.pkgs.len() as int) =~= self.pkgs.deep_view());
        let std_name = match &self.std_name {
            Some(n) => Some(n.clone()),
            None => None,
        };
        Packages { pkgs, std_name }
    }
}

impl View for Packages {
    type V = PackagesView;

    closed spec fn view(&self) -> PackagesView {
        PackagesView {
            pkgs: self.pkgs.deep_view(),
            std_name: match self.std_name {
                Some(s) => Some(s@),
                None => None,
            },
        }
    }
}

/// A module name that belongs to package `pkg`: the package's own name, or one that
/// begins with it and a `/`.
pub open spec fn name_in_package(pkg: Seq<char>, n: Seq<char>) -> bool {
    n == pkg || (n.len() > pkg.len() && n.subrange(0, pkg.len() + 1 as int) == pkg + seq!['/'])
}

/// The first module of the list with the given name.
pub open spec fn spec_find_module(ms: Seq<ModuleView>, name: Seq<char>) -> Option<ModuleView>
    decreases ms.len(),
{
    if ms.len() == 0 {
        None
    } else {
        match spec_find_module(ms.drop_last(), name) {
            Some(m) => Some(m),
            None => if ms.last().name == name {
                Some(ms.last())
            } else {
                None
            },
        }
    }
}

/// The first of the declaration names that holds a colon, by position.
pub open spec fn first_colon_at(names: Seq<Seq<char>>, i: int) -> bool {
    0 <= i < names.len() && has_colon(names[i]) && forall|j: int|
        0 <= j < i ==> !has_colon(#[trigger] names[j])
}

/// Crawling a package's source directory: where the crawl stands, and the modules
/// found so far.
#[derive(Debug, Clone)]
pub struct Crawl {
    package_name: String,
    path: String,
    meta: PackageMetadata,
    main_files: Vec<String>,
    mod_stack: Vec<String>,
    modules: Vec<Module>,
}

/// What a directory entry is.
#[derive(Debug, Clone, Copy, PartialEq, Eq)]
pub enum EntryKind {
    Dir,
    File,
    /// Neither a directory nor a file, such as a symbolic link.
    Other,
}

/// What the crawl does with a directory entry.
#[derive(Debug, Clone, PartialEq, Eq)]
pub enum CrawlAction {
    /// Enter the directory, crawl it, and leave it.
    Descend,
    /// Load the file's module, which must declare this name.
    Load(String),
    /// The file holds no module.
    Skip,
    /// The entry is neither a directory nor a file, and is passed over with a warning.
    NeitherDirNorFile,
}

/// A step in loading a package's dependencies.
#[derive(Debug, Clone, PartialEq, Eq)]
pub enum DependencyStep {
    /// Load this dependency, after its own.
    Load(String),
    /// This dependency's own dependencies are already being loaded: the
    /// dependencies form a cycle.
    Cycle(String),
    /// Every dependency is loaded.
    Done,
}

/// What loading a package with its dependencies gives.
#[derive(Debug)]
pub enum ModulesStep {
    /// A dependency must be loaded first; the context is unchanged.
    NeedsDependency(DependencyStep),
    /// The package of this name is loaded, or is crawled: as `add_package_from`
    /// gives.
    Package(String, Option<Crawl>),
}

/// Whether `r` is the next step in loading the dependencies `deps`: the first that
/// is not a package of `pkgs` is loaded, unless `loading` holds it, which is a
/// cycle; with none missing, nothing is left.
pub open spec fn is_next_dependency(
    r: DependencyStep,
    deps: Seq<Seq<char>>,
    pkgs: Seq<(Seq<char>, PackageView)>,
    loading: Seq<Seq<char>>,
) -> bool {
    let m = spec_missing(deps, pkgs);
    match r {
        DependencyStep::Done => m.len() == 0,
        DependencyStep::Load(d) => m.len() > 0 && d@ == m[0] && !loading.contains(d@),
        DependencyStep::Cycle(d) => m.len() > 0 && d@ == m[0] && loading.contains(d@),
    }
}

/// The mathematical value of a crawl.
pub struct CrawlView {
    pub package_name: Seq<char>,
    pub path: Seq<char>,
    pub meta: MetadataView,
    pub main_files: Seq<Seq<char>>,
    /// The package's name, then the directories entered below `src/`.
    pub stack: Seq<Seq<char>>,
    pub modules: Seq<ModuleView>,
}

impl CrawlView {
    /// The stack starts at the package; every module found is named after it, no
    /// two have one name, and none exports a name twice.
    pub open spec fn wf(self) -> bool {
        &&& self.stack.len() >= 1
        &&& self.stack[0] == self.package_name
        &&& forall|i: int|
            0 <= i < self.modules.len() ==> name_in_package(
                self.package_name,
                #[trigger] self.modules[i].name,
            )
        &&& module_names(self.modules).no_duplicates()
        &&& forall|i: int| 0 <= i < self.modules.len() ==> (#[trigger] self.modules[i]).wf()
    }

    /// The name that the module in file `f` of the current directory must declare.
    pub open spec fn expected_name(self, f: Seq<char>) -> Option<Seq<char>> {
        spec_source_module_name(self.stack, f, self.main_files)
    }
}

impl View for Crawl {
    type V = CrawlView;

    closed spec fn view(&self) -> CrawlView {
        CrawlView {
            package_name: self.package_name@,
            path: self.path@,
            meta: self.meta@,
            main_files: self.main_files.deep_view(),
            stack: self.mod_stack.deep_view(),
            modules: self.modules.deep_view(),
        }
    }
}

/// The directories' prefix of a module name begins with the package's name and a `/`.
proof fn lemma_dir_prefix_starts(stack: Seq<Seq<char>>)
    requires
        stack.len() >= 1,
    ensures
        spec_dir_prefix(stack).len() >= stack[0].len() + 1,
        spec_dir_prefix(stack).subrange(0, stack[0].len() + 1 as int) == stack[0] + seq!['/'],
    decreases stack.len(),
{
    let p = spec_dir_prefix(stack);
    if stack.len() == 1 {
        assert(stack.drop_last().len() == 0);
        assert(spec_dir_prefix(stack.drop_last()) == Seq::<char>::empty());
        assert(p =~= stack[0] + seq!['/']);
        assert(p.subrange(0, stack[0].len() + 1 as int) =~= p);
    } else {
        let d = stack.drop_last();
        lemma_dir_prefix_starts(d);
        assert(d[0] == stack[0]);
        let q = spec_dir_prefix(d);
        assert(p == q + stack.last() + seq!['/']);
        assert(p.subrange(0, stack[0].len() + 1 as int) =~= q.subrange(0, stack[0].len() + 1 as int));
    }
}

/// Every name that a source file's location gives lies in the crawled package.
proof fn lemma_expected_name_in_package(c: CrawlView, f: Seq<char>)
    requires
        c.wf(),
        c.expected_name(f) is Some,
    ensures
        name_in_package(c.package_name, c.expected_name(f)->0),
{
    let n = c.expected_name(f)->0;
    if !(c.stack.len() == 1 && f == crate::paths::lib_file()) {
        lemma_dir_prefix_starts(c.stack);
        let p = spec_dir_prefix(c.stack);
        let stem = crate::paths::spec_oft_stem(f)->0;
        assert(n == p + stem);
        assert(n.subrange(0, c.package_name.len() + 1 as int) =~= p.subrange(0, c.package_name.len() + 1 as int));
    }
}

impl Crawl {
    /// Enters a subdirectory of the one being crawled.
    pub fn enter_dir(&mut self, name: String)
        requires
            old(self)@.wf(),
        ensures
            final(self)@ == (CrawlView { stack: old(self)@.stack.push(name@), ..old(self)@ }),
            final(self)@.wf(),
    {
        let ghost before = self.mod_stack.deep_view();
        let ghost nv = name@;
        self.mod_stack.push(name);
        assert(self.mod_stack.deep_view() =~= before.push(nv));
    }

    /// Leaves the directory being crawled for its parent, returning its name.
    pub fn leave_dir(&mut self) -> (r: String)
        requires
            old(self)@.wf(),
            old(self)@.stack.len() > 1,
        ensures
            r@ == old(self)@.stack.last(),
            final(self)@ == (CrawlView { stack: old(self)@.stack.drop_last(), ..old(self)@ }),
            final(self)@.wf(),
    {
        let ghost before = self.mod_stack.deep_view();
        let r = self.mod_stack.pop().unwrap();
        assert(self.mod_stack.deep_view() =~= before.drop_last());
        r
    }

    /// Whether a module of that name has been found.
    pub fn has_module(&self, name: &String) -> (r: bool)
        ensures
            r == module_names(self@.modules).contains(name@),
    {
        let ghost names = module_names(self@.modules);
        let mut i: usize = 0;
        while i < self.modules.len()
            invariant
                i <= self.modules.len(),
                names == module_names(self.modules.deep_view()),
                forall|j: int| 0 <= j < i ==> names[j] != name@,
            decreases self.modules.len() - i,
        {
            if self.modules[i].name == *name {
                assert(names[i as int] == name@);
                return true;
            }
            i = i + 1;
        }
        false
    }

    /// What to do with an entry of the directory being crawled: descend into a
    /// directory, load the module of a source file or skip the file, and pass over
    /// whatever is neither.
    pub fn action_for(&self, kind: EntryKind, name: &String) -> (r: CrawlAction)
        requires
            is_file_name(name@),
        ensures
            kind is Dir ==> r is Descend,
            kind is Other ==> r is NeitherDirNorFile,
            kind is File ==> match self@.expected_name(name@) {
                Some(n) => r matches CrawlAction::Load(m) && m@ == n,
                None => r is Skip,
            },
    {
        match kind {
            EntryKind::Dir => CrawlAction::Descend,
            EntryKind::Other => CrawlAction::NeitherDirNorFile,
            EntryKind::File => match self.source_file(name) {
                Some(n) => CrawlAction::Load(n),
                None => CrawlAction::Skip,
            },
        }
    }

    /// The name that the module in file `f` of the directory being crawled must
    /// declare, or `None` where the file holds no module and is skipped.
    pub fn source_file(&self, f: &String) -> (r: Option<String>)
        requires
            is_file_name(f@),
        ensures
            match r {
                Some(n) => self@.expected_name(f@) == Some(n@),
                None => self@.expected_name(f@) is None,
            },
    {
        source_module_name(&self.mod_stack, f, &self.main_files)
    }

    /// Adds the module loaded from file `f` of the directory being crawled, which
    /// must declare the name that the file's location gives it.
    pub fn add_module(&mut self, f: &String, module: Module) -> (r: Result<(), ErrorKind>)
        requires
            old(self)@.wf(),
            is_file_name(f@),
            old(self)@.expected_name(f@) is Some,
            !module_names(old(self)@.modules).contains(old(self)@.expected_name(f@)->0),
            module@.wf(),
        ensures
            final(self)@.wf(),
            module@.name == old(self)@.expected_name(f@)->0 ==> r is Ok && final(self)@ == (
            CrawlView { modules: old(self)@.modules.push(module@), ..old(self)@ }),
            module@.name != old(self)@.expected_name(f@)->0 ==> (r matches Err(e) && e@
                == ErrorView::MisnamedModule(old(self)@.expected_name(f@)->0, module@.name)
                && final(self)@ == old(self)@),
    {
        let expected = source_module_name(&self.mod_stack, f, &self.main_files).unwrap();
        proof {
            lemma_expected_name_in_package(self@, f@);
        }
        if module.name == expected {
            let ghost before = self.modules.deep_view();
            self.modules.push(module);
            assert(self.modules.deep_view() =~= before.push(module@));
            assert(module_names(self@.modules) =~= module_names(before).push(module@.name));
            Ok(())
        } else {
            Err(ErrorKind::MisnamedModule(expected, module.name))
        }
    }
}

impl Packages {
    /// Creates a context with no packages and no standard library.
    pub fn new() -> (r: Packages)
        ensures
            r@.pkgs == Seq::<(Seq<char>, PackageView)>::empty(),
            r@.std_name is None,
            r@.wf(),
    {
        let pkgs: Vec<Named<Package>> = Vec::new();
        assert(pkgs.deep_view() =~= Seq::<(Seq<char>, PackageView)>::empty());
        let r = Packages { pkgs, std_name: None };
        assert(r@.pkgs =~= Seq::<(Seq<char>, PackageView)>::empty());
        r
    }

    /// Adds a builtin package, `name`, whose modules are `decls`, each with the names
    /// it declares; it replaces any package of the same name.
    pub fn add_builtins(&mut self, name: String, decls: Vec<Named<Vec<String>>>)
        requires
            PackageView::Builtins(decls.deep_view()).wf(),
        ensures
            final(self)@.pkgs == spec_insert(
                old(self)@.pkgs,
                name@,
                PackageView::Builtins(decls.deep_view()),
            ),
            final(self)@.std_name == old(self)@.std_name,
            final(self)@.wf(),
            forall|k: Seq<char>| has_key(old(self)@.pkgs, k) ==> #[trigger] has_key(final(self)@.pkgs, k),
    {
        self.file_package(name, Package::Builtins(decls));
    }

    /// Files a well-formed package under `name`, replacing any package of that name.
    fn file_package(&mut self, name: String, pkg: Package)
        requires
            pkg@.wf(),
        ensures
            final(self)@.pkgs == spec_insert(old(self)@.pkgs, name@, pkg@),
            final(self)@.std_name == old(self)@.std_name,
            final(self)@.wf(),
            final(self)@.lookup(name@) == Some(pkg@),
            forall|k: Seq<char>| has_key(old(self)@.pkgs, k) ==> #[trigger] has_key(final(self)@.pkgs, k),
    {
        proof {
            use_type_invariant(&*self);
            lemma_insert_all(old(self)@.pkgs, name@, pkg@, |p: PackageView| p.wf());
            lemma_insert_lookup(old(self)@.pkgs, name@, pkg@, name@);
            assert forall|k: Seq<char>| has_key(old(self)@.pkgs, k) implies #[trigger] has_key(
                spec_insert(old(self)@.pkgs, name@, pkg@),
                k,
            ) by {
                lemma_insert_has_key(old(self)@.pkgs, name@, pkg@, k);
            }
        }
        let mut pkgs = Vec::new();
        assert(pkgs.deep_view() =~= Seq::<(Seq<char>, PackageView)>::empty());
        std::mem::swap(&mut pkgs, &mut self.pkgs);
        upsert(&mut pkgs, name, pkg);
        self.pkgs = pkgs;
    }

    /// Starts loading the package in directory `path`, without its dependencies, from
    /// the metadata read there; its dependencies must already be packages of the
    /// context. A package without a library is added at once, with no modules; a
    /// package with one is crawled, and the crawl comes back to the caller, who hands
    /// it to `finish_package` when it is done. A dependency is loaded by this same
    /// call, with `require_library` set, once its own dependencies are.
    pub fn add_package_from(
        &mut self,
        package_name: String,
        path: String,
        require_library: bool,
        main_files: Vec<String>,
        meta: PackageMetadata,
    ) -> (r: Result<Option<Crawl>, ErrorKind>)
        requires
            old(self)@.has_all(meta@.dependencies),
        ensures
            final(self)@.has_all(meta@.dependencies),
            final(self)@.wf(),
            final(self)@.std_name == old(self)@.std_name,
            forall|k: Seq<char>| has_key(old(self)@.pkgs, k) ==> #[trigger] has_key(final(self)@.pkgs, k),
            package_name@ != meta@.name ==> (r matches Err(e) && e@ == ErrorView::MisnamedPackage(
                package_name@,
                meta@.name,
            ) && final(self)@ == old(self)@),
            package_name@ == meta@.name && !meta@.has_library && require_library ==> (r matches Err(
                e,
            ) && e@ == ErrorView::DependencyMustExportLib(package_name@) && final(self)@ == old(
                self,
            )@),
            package_name@ == meta@.name && !meta@.has_library && !require_library ==> (r matches Ok(
                None,
            ) && final(self)@.pkgs == spec_insert(
                old(self)@.pkgs,
                package_name@,
                PackageView::Filesystem(path@, meta@, Seq::empty()),
            )),
            package_name@ == meta@.name && meta@.has_library ==> (r matches Ok(Some(c)) && c@ == (
            CrawlView {
                package_name: package_name@,
                path: path@,
                meta: meta@,
                main_files: main_files.deep_view(),
                stack: seq![package_name@],
                modules: Seq::empty(),
            }) && c@.wf() && final(self)@ == old(self)@),
    {
        proof {
            use_type_invariant(&*self);
        }
        if package_name != meta.name {
            return Err(ErrorKind::MisnamedPackage(package_name, meta.name));
        } else if meta.components.library.is_none() {
            if require_library {
                return Err(ErrorKind::DependencyMustExportLib(package_name));
            } else {
                let none: Vec<Module> = Vec::new();
                assert(none.deep_view() =~= Seq::<ModuleView>::empty());
                let ghost deps = meta@.dependencies;
                let pkg = Package::Filesystem(path, meta, none);
                assert(module_names(Seq::<ModuleView>::empty()) =~= Seq::<Seq<char>>::empty());
                let ghost before = self@;
                self.file_package(package_name, pkg);
                proof {
                    assert forall|i: int| 0 <= i < deps.len() implies has_key(
                        self@.pkgs,
                        #[trigger] deps[i],
                    ) by {
                        lemma_insert_keeps_keys(before.pkgs, package_name@, pkg@, deps[i]);
                    }
                }
                return Ok(None);
            }
        }
        let mut mod_stack: Vec<String> = Vec::new();
        mod_stack.push(package_name.clone());
        let c = Crawl {
            package_name,
            path,
            meta,
            main_files,
            mod_stack,
            modules: Vec::new(),
        };
        assert(c@.stack =~= seq![c@.package_name]);
        assert(c@.modules =~= Seq::<ModuleView>::empty());
        Ok(Some(c))
    }

    /// Adds the package whose crawl is done, with the modules found, replacing any
    /// package of the same name.
    pub fn finish_package(&mut self, crawl: Crawl)
        requires
            crawl@.wf(),
        ensures
            final(self)@.pkgs == spec_insert(
                old(self)@.pkgs,
                crawl@.package_name,
                PackageView::Filesystem(crawl@.path, crawl@.meta, crawl@.modules),
            ),
            final(self)@.std_name == old(self)@.std_name,
            final(self)@.wf(),
            final(self)@.lookup(crawl@.package_name) == Some(
                PackageView::Filesystem(crawl@.path, crawl@.meta, crawl@.modules),
            ),
            forall|i: int|
                0 <= i < crawl@.modules.len() ==> name_in_package(
                    crawl@.package_name,
                    #[trigger] crawl@.modules[i].name,
                ),
            module_names(crawl@.modules).no_duplicates(),
            forall|k: Seq<char>| has_key(old(self)@.pkgs, k) ==> #[trigger] has_key(final(self)@.pkgs, k),
    {
        let Crawl { package_name, path, meta, main_files: _, mod_stack: _, modules } = crawl;
        self.file_package(package_name, Package::Filesystem(path, meta, modules));
    }

    /// Loads the package in directory `path`, whose metadata `root_meta` names it,
    /// with any dependencies, skipping the main files of its binaries; `meta` is the
    /// metadata read again when the package itself is loaded, and `loading` the
    /// packages whose dependencies are being loaded. While a dependency of `meta` is
    /// not a package of the context, the context is left as it is and the next
    /// dependency step comes back: the caller loads that dependency (by
    /// `add_package_from`, with a library required, after its own dependencies) and
    /// calls again. Once all are loaded, the package itself is loaded as
    /// `add_package_from` does, and every dependency is then a package of the
    /// context; the package comes back under its name, `root_meta`'s.
    pub fn add_modules_from(
        &mut self,
        path: String,
        root_meta: &PackageMetadata,
        meta: PackageMetadata,
        loading: &Vec<String>,
    ) -> (r: Result<ModulesStep, ErrorKind>)
        ensures
            final(self)@.wf(),
            final(self)@.std_name == old(self)@.std_name,
            forall|k: Seq<char>| has_key(old(self)@.pkgs, k) ==> #[trigger] has_key(final(self)@.pkgs, k),
            !old(self)@.has_all(meta@.dependencies) ==> (r matches Ok(
                ModulesStep::NeedsDependency(step),
            ) && is_next_dependency(step, meta@.dependencies, old(self)@.pkgs, loading.deep_view())
                && !(step is Done) && final(self)@ == old(self)@),
            old(self)@.has_all(meta@.dependencies) ==> final(self)@.has_all(meta@.dependencies),
            r matches Ok(ModulesStep::Package(n, _)) ==> n@ == root_meta@.name
                && final(self)@.has_all(meta@.dependencies),
            old(self)@.has_all(meta@.dependencies) && root_meta@.name != meta@.name ==> (r matches Err(
                e,
            ) && e@ == ErrorView::MisnamedPackage(root_meta@.name, meta@.name) && final(self)@
                == old(self)@),
            old(self)@.has_all(meta@.dependencies) && root_meta@.name == meta@.name
                && !meta@.has_library ==> (r matches Ok(ModulesStep::Package(_, None))
                && final(self)@.pkgs == spec_insert(
                old(self)@.pkgs,
                root_meta@.name,
                PackageView::Filesystem(path@, meta@, Seq::empty()),
            )),
            old(self)@.has_all(meta@.dependencies) && root_meta@.name == meta@.name
                && meta@.has_library ==> (r matches Ok(ModulesStep::Package(_, Some(c))) && c@ == (
            CrawlView {
                package_name: root_meta@.name,
                path: path@,
                meta: meta@,
                main_files: spec_main_files(root_meta@.binaries),
                stack: seq![root_meta@.name],
                modules: Seq::empty(),
            }) && c@.wf() && final(self)@ == old(self)@),
    {
        proof {
            use_type_invariant(&*self);
        }
        let step = self.next_dependency(&meta, loading);
        match step {
            DependencyStep::Done => {},
            _ => {
                return Ok(ModulesStep::NeedsDependency(step));
            },
        }
        let main_files = main_files_of(root_meta);
        match self.add_package_from(root_meta.name.clone(), path, false, main_files, meta) {
            Ok(c) => Ok(ModulesStep::Package(root_meta.name.clone(), c)),
            Err(e) => Err(e),
        }
    }

    /// The next step in loading the dependencies of a package: load the first that is
    /// not yet a package of the context, or report a cycle where that one's own
    /// dependencies are being loaded (it is in `loading`), or nothing is left.
    pub fn next_dependency(&self, meta: &PackageMetadata, loading: &Vec<String>) -> (r: DependencyStep)
        ensures
            is_next_dependency(r, meta@.dependencies, self@.pkgs, loading.deep_view()),
            (r is Done) == self@.has_all(meta@.dependencies),
    {
        let missing = self.missing_dependencies(meta);
        if missing.len() == 0 {
            return DependencyStep::Done;
        }
        let d = missing[0].clone();
        let ghost lv = loading.deep_view();
        let ghost m = spec_missing(meta@.dependencies, self@.pkgs);
        assert(missing.deep_view()[0] == d@);
        let mut i: usize = 0;
        while i < loading.len()
            invariant
                i <= loading.len(),
                lv == loading.deep_view(),
                m == spec_missing(meta@.dependencies, self@.pkgs),
                m.len() > 0,
                m[0] == d@,
                !self@.has_all(meta@.dependencies),
                forall|j: int| 0 <= j < i ==> lv[j] != d@,
            decreases loading.len() - i,
        {
            if loading[i] == d {
                assert(lv[i as int] == d@);
                return DependencyStep::Cycle(d);
            }
            i = i + 1;
        }
        DependencyStep::Load(d)
    }

    /// Starts loading the standard library from directory `path`, whose metadata
    /// `root_meta` names it and declares no dependencies; `meta` is the metadata read
    /// again when the package itself is loaded. The standard library must export a
    /// library. Its name is recorded whether or not loading succeeds.
    pub fn add_stdlib_from(&mut self, path: String, root_meta: &PackageMetadata, meta: PackageMetadata) -> (r: Result<
        Option<Crawl>,
        ErrorKind,
    >)
        requires
            root_meta@.dependencies.len() == 0,
            old(self)@.has_all(meta@.dependencies),
        ensures
            final(self)@.wf(),
            final(self)@.has_all(meta@.dependencies),
            final(self)@.std_name == Some(root_meta@.name),
            forall|k: Seq<char>| has_key(old(self)@.pkgs, k) ==> #[trigger] has_key(final(self)@.pkgs, k),
            root_meta@.name != meta@.name ==> (r matches Err(e) && e@ == ErrorView::MisnamedPackage(
                root_meta@.name,
                meta@.name,
            ) && final(self)@.pkgs == old(self)@.pkgs),
            root_meta@.name == meta@.name && !meta@.has_library ==> (r matches Err(e) && e@
                == ErrorView::DependencyMustExportLib(root_meta@.name) && final(self)@.pkgs == old(
                self,
            )@.pkgs),
            root_meta@.name == meta@.name && meta@.has_library ==> (r matches Ok(Some(c)) && c@ == (
            CrawlView {
                package_name: root_meta@.name,
                path: path@,
                meta: meta@,
                main_files: spec_main_files(root_meta@.binaries),
                stack: seq![root_meta@.name],
                modules: Seq::empty(),
            }) && c@.wf() && final(self)@.pkgs == old(self)@.pkgs),
    {
        proof {
            use_type_invariant(&*self);
        }
        self.std_name = Some(root_meta.name.clone());
        assert(self@.pkgs == old(self)@.pkgs);
        let main_files = main_files_of(root_meta);
        self.add_package_from(root_meta.name.clone(), path, true, main_files, meta)
    }

    /// Gives up the context for its packages, in the order they are filed.
    pub(crate) fn into_entries(self) -> (r: Vec<Named<Package>>)
        ensures
            r.deep_view() == self@.pkgs,
            self@.wf(),
    {
        proof {
            use_type_invariant(&self);
        }
        self.pkgs
    }

    /// The dependencies of a package that are not yet packages of the context, in
    /// order; none remain exactly when all are loaded.
    pub fn missing_dependencies(&self, meta: &PackageMetadata) -> (r: Vec<String>)
        ensures
            r.deep_view() == spec_missing(meta@.dependencies, self@.pkgs),
            (r.len() == 0) == self@.has_all(meta@.dependencies),
    {
        let deps = &meta.dependencies;
        let ghost dv = meta@.dependencies;
        let mut r: Vec<String> = Vec::new();
        let mut i: usize = 0;
        while i < deps.len()
            invariant
                i <= deps.len(),
                dv == deps.deep_view(),
                r.deep_view() == spec_missing(dv.take(i as int), self@.pkgs),
            decreases deps.len() - i,
        {
            assert(dv.take(i + 1).drop_last() =~= dv.take(i as int));
            assert(dv.take(i + 1).last() == dv[i as int]);
            if self.get(&deps[i]).is_none() {
                let ghost prev = r.deep_view();
                r.push(deps[i].clone());
                assert(r.deep_view() =~= prev.push(dv[i as int]));
            }
            i = i + 1;
        }
        assert(dv.take(deps.len() as int) =~= dv);
        proof {
            lemma_missing_empty(dv, self@.pkgs);
        }
        r
    }

    /// Whether a standard library has been named.
    pub fn std_loaded(&self) -> (r: bool)
        ensures
            r == self@.std_name is Some,
    {
        self.std_name.is_some()
    }

    /// The standard library's name.
    pub fn std_name(&self) -> (r: String)
        requires
            self@.std_name is Some,
        ensures
            r@ == self@.std_name->0,
    {
        self.std_name.as_ref().unwrap().clone()
    }

    /// The exports of module `module` of the package `package` that was loaded from
    /// a directory.
    pub fn exports_of(&self, package: &String, module: &String) -> (r: Result<Vec<String>, ErrorKind>)
        requires
            self@.lookup(package@) matches Some(PackageView::Filesystem(_, _, ms)) && spec_find_module(
                ms,
                module@,
            ) is Some,
        ensures
            self@.lookup(package@) matches Some(PackageView::Filesystem(_, _, ms)) && r matches Ok(e)
                && e.deep_view() == spec_find_module(ms, module@)->0.exports,
            r matches Ok(e) && e.deep_view().no_duplicates(),
    {
        let found = self.get(package);
        proof {
            lemma_lookup_all(self@.pkgs, package@, |p: PackageView| p.wf());
            match self@.lookup(package@) {
                Some(PackageView::Filesystem(_, _, ms)) => lemma_find_module_in(ms, module@),
                _ => {},
            }
        }
        match found {
            Some(Package::Filesystem(_, _, ms)) => match find_module(ms, module) {
                Some(k) => Ok(clone_names(&ms[k].exports)),
                None => Ok(Vec::new()),
            },
            _ => Ok(Vec::new()),
        }
    }

    /// The package filed under `name`.
    pub fn get(&self, name: &String) -> (r: Option<&Package>)
        ensures
            match r {
                Some(p) => self@.lookup(name@) == Some(p@),
                None => self@.lookup(name@) is None,
            },
            self@.wf(),
    {
        proof {
            use_type_invariant(self);
        }
        let ghost pv = self.pkgs.deep_view();
        let mut i: usize = 0;
        while i < self.pkgs.len()
            invariant
                i <= self.pkgs.len(),
                pv == self.pkgs.deep_view(),
                keys_distinct(pv),
                self@.wf(),
                forall|j: int| 0 <= j < i ==> #[trigger] pv[j].0 != name@,
            decreases self.pkgs.len() - i,
        {
            if self.pkgs[i].name == *name {
                assert(pv[i as int].0 == name@);
                assert(pv[crate::assoc::key_position(pv, name@)].0 == name@);
                assert(crate::assoc::key_position(pv, name@) == i);
                assert(pv[i as int].1 == self.pkgs@[i as int].value@);
                return Some(&self.pkgs[i].value);
            }
            i = i + 1;
        }
        None
    }

    /// Whether the standard library is loaded, from a directory, with its prelude.
    pub fn prelude_loaded(&self) -> (r: bool)
        ensures
            r == self@.has_prelude(),
    {
        match &self.std_name {
            None => false,
            Some(std) => {
                let mut prelude = std.clone();
                prelude.append("/prelude");
                proof {
                    reveal_strlit("/prelude");
                }
                assert(prelude@ == spec_prelude(std@));
                match self.get(std) {
                    Some(Package::Filesystem(_, _, ms)) => find_module(ms, &prelude).is_some(),
                    _ => false,
                }
            },
        }
    }

    /// Checks the names that a parsed module declares before it is admitted: none may
    /// hold a colon. Returns the module, or the first such name.
    pub fn load_module(decl_names: &Vec<String>, module: Module) -> (r: Result<Module, ErrorKind>)
        ensures
            match r {
                Ok(m) => m == module && forall|i: int|
                    0 <= i < decl_names.deep_view().len() ==> !has_colon(
                        #[trigger] decl_names.deep_view()[i],
                    ),
                Err(e) => exists|i: int|
                    first_colon_at(decl_names.deep_view(), i) && e@ == ErrorView::IllegalDeclName(
                        decl_names.deep_view()[i],
                    ),
            },
    {
        let mut i: usize = 0;
        while i < decl_names.len()
            invariant
                i <= decl_names.len(),
                forall|j: int| 0 <= j < i ==> !has_colon(#[trigger] decl_names.deep_view()[j]),
            decreases decl_names.len() - i,
        {
            if contains_colon(&decl_names[i]) {
                assert(first_colon_at(decl_names.deep_view(), i as int));
                return Err(ErrorKind::IllegalDeclName(decl_names[i].clone()));
            }
            i = i + 1;
        }
        Ok(module)
    }
}

/// The position of the first module of the list with the given name.
pub fn find_module(ms: &Vec<Module>, name: &String) -> (r: Option<usize>)
    ensures
        match r {
            Some(k) => k < ms.len() && spec_find_module(ms.deep_view(), name@) == Some(
                ms.deep_view()[k as int],
            ),
            None => spec_find_module(ms.deep_view(), name@) is None,
        },
{
    let ghost mv = ms.deep_view();
    let mut k: usize = 0;
    while k < ms.len()
        invariant
            k <= ms.len(),
            mv == ms.deep_view(),
            spec_find_module(mv.take(k as int), name@) is None,
        decreases ms.len() - k,
    {
        assert(mv.take(k + 1).drop_last() =~= mv.take(k as int));
        if ms[k].name == *name {
            assert(spec_find_module(mv.take(k + 1), name@) == Some(mv[k as int]));
            proof {
                lemma_find_module_prefix(mv, k + 1, name@);
            }
            return Some(k);
        }
        k = k + 1;
    }
    assert(mv.take(ms.len() as int) =~= mv);
    None
}

/// Whether a builtin package's modules have distinct names and each declares a
/// name once.
pub fn builtins_wf(decls: &Vec<Named<Vec<String>>>) -> (r: bool)
    ensures
        r == PackageView::Builtins(decls.deep_view()).wf(),
{
    let ghost dv = decls.deep_view();
    let mut i: usize = 0;
    while i < decls.len()
        invariant
            i <= decls.len(),
            dv == decls.deep_view(),
            forall|a: int, b: int| 0 <= a < i && 0 <= b < i && a != b ==> #[trigger] dv[a].0 != #[trigger] dv[b].0,
            forall|a: int| 0 <= a < i ==> (#[trigger] dv[a]).1.no_duplicates(),
        decreases decls.len() - i,
    {
        if !names_distinct(&decls[i].value) {
            assert(!dv[i as int].1.no_duplicates());
            return false;
        }
        let mut j: usize = 0;
        while j < i
            invariant
                j <= i < decls.len(),
                dv == decls.deep_view(),
                forall|b: int| 0 <= b < j ==> dv[i as int].0 != #[trigger] dv[b].0,
            decreases i - j,
        {
            if decls[i].name == decls[j].name {
                assert(dv[i as int].0 == dv[j as int].0);
                return false;
            }
            j = j + 1;
        }
        i = i + 1;
    }
    true
}

/// The dependencies that are not packages of the context, in order.
pub open spec fn spec_missing(deps: Seq<Seq<char>>, pkgs: Seq<(Seq<char>, PackageView)>) -> Seq<Seq<char>>
    decreases deps.len(),
{
    if deps.len() == 0 {
        Seq::empty()
    } else {
        let rest = spec_missing(deps.drop_last(), pkgs);
        if has_key(pkgs, deps.last()) {
            rest
        } else {
            rest.push(deps.last())
        }
    }
}

/// No dependency is missing exactly when every one is a package.
proof fn lemma_missing_empty(deps: Seq<Seq<char>>, pkgs: Seq<(Seq<char>, PackageView)>)
    ensures
        (spec_missing(deps, pkgs).len() == 0) == (forall|i: int|
            0 <= i < deps.len() ==> has_key(pkgs, #[trigger] deps[i])),
    decreases deps.len(),
{
    if deps.len() > 0 {
        lemma_missing_empty(deps.drop_last(), pkgs);
        if spec_missing(deps, pkgs).len() == 0 {
            assert forall|i: int| 0 <= i < deps.len() implies has_key(pkgs, #[trigger] deps[i]) by {
                if i < deps.len() - 1 {
                    assert(deps.drop_last()[i] == deps[i]);
                }
            }
        } else if forall|i: int| 0 <= i < deps.len() ==> has_key(pkgs, #[trigger] deps[i]) {
            assert(has_key(pkgs, deps[deps.len() - 1]));
            assert forall|i: int| 0 <= i < deps.drop_last().len() implies has_key(
                pkgs,
                #[trigger] deps.drop_last()[i],
            ) by {
                assert(deps.drop_last()[i] == deps[i]);
            }
        }
    }
}

/// Loading dependencies one step at a time ends: once a missing dependency, such as
/// the one that the next step names, is filed as a package, fewer dependencies are
/// missing than before, and none that was loaded goes missing.
pub proof fn lemma_dependency_step_progress(
    ctx: PackagesView,
    deps: Seq<Seq<char>>,
    d: Seq<char>,
    pkg: PackageView,
)
    requires
        ctx.wf(),
        spec_missing(deps, ctx.pkgs).contains(d),
    ensures
        spec_missing(deps, spec_insert(ctx.pkgs, d, pkg)).len() < spec_missing(deps, ctx.pkgs).len(),
        forall|i: int|
            0 <= i < deps.len() && has_key(ctx.pkgs, #[trigger] deps[i]) ==> has_key(
                spec_insert(ctx.pkgs, d, pkg),
                deps[i],
            ),
{
    lemma_missing_shrinks(deps, ctx.pkgs, d, pkg);
    assert forall|i: int|
        0 <= i < deps.len() && has_key(ctx.pkgs, #[trigger] deps[i]) implies has_key(
        spec_insert(ctx.pkgs, d, pkg),
        deps[i],
    ) by {
        lemma_insert_has_key(ctx.pkgs, d, pkg, deps[i]);
    }
}

/// Filing a package under `d` never adds a missing dependency, and takes away `d`
/// where it was missing.
proof fn lemma_missing_shrinks(
    deps: Seq<Seq<char>>,
    pkgs: Seq<(Seq<char>, PackageView)>,
    d: Seq<char>,
    pkg: PackageView,
)
    requires
        keys_distinct(pkgs),
    ensures
        spec_missing(deps, spec_insert(pkgs, d, pkg)).len() <= spec_missing(deps, pkgs).len(),
        spec_missing(deps, pkgs).contains(d) ==> spec_missing(deps, spec_insert(pkgs, d, pkg)).len()
            < spec_missing(deps, pkgs).len(),
    decreases deps.len(),
{
    if deps.len() > 0 {
        let rest = deps.drop_last();
        let x = deps.last();
        lemma_missing_shrinks(rest, pkgs, d, pkg);
        lemma_insert_has_key(pkgs, d, pkg, x);
        let old_rest = spec_missing(rest, pkgs);
        if !has_key(pkgs, x) && x != d && spec_missing(deps, pkgs).contains(d) {
            let k = choose|k: int| 0 <= k < spec_missing(deps, pkgs).len() && spec_missing(deps, pkgs)[k] == d;
            assert(spec_missing(deps, pkgs) == old_rest.push(x));
            assert(k < old_rest.len());
            assert(old_rest[k] == d);
            assert(old_rest.contains(d));
        }
    }
}

/// The first module of a list with some name is one of the list's modules, and so
/// well formed where they all are.
proof fn lemma_find_module_in(ms: Seq<ModuleView>, name: Seq<char>)
    ensures
        (forall|i: int| 0 <= i < ms.len() ==> (#[trigger] ms[i]).wf()) ==> (spec_find_module(
            ms,
            name,
        ) matches Some(m) ==> m.wf()),
    decreases ms.len(),
{
    if ms.len() > 0 {
        lemma_find_module_in(ms.drop_last(), name);
        if forall|i: int| 0 <= i < ms.len() ==> (#[trigger] ms[i]).wf() {
            assert forall|i: int| 0 <= i < ms.drop_last().len() implies (
            #[trigger] ms.drop_last()[i]).wf() by {
                assert(ms.drop_last()[i] == ms[i]);
            }
            assert(ms[ms.len() - 1].wf());
        }
    }
}

/// Looking a module up by name finds the first module of the list whose name is
/// exactly that name, and finds nothing exactly when no module has it.
pub proof fn lemma_find_module_exact(ms: Seq<ModuleView>, name: Seq<char>)
    ensures
        spec_find_module(ms, name) matches Some(m) ==> m.name == name && exists|k: int|
            0 <= k < ms.len() && ms[k] == m && forall|j: int| 0 <= j < k ==> #[trigger] ms[j].name != name,
        spec_find_module(ms, name) is None <==> forall|k: int| 0 <= k < ms.len() ==> #[trigger] ms[k].name != name,
    decreases ms.len(),
{
    if ms.len() > 0 {
        let d = ms.drop_last();
        lemma_find_module_exact(d, name);
        match spec_find_module(d, name) {
            Some(m) => {
                let k = choose|k: int|
                    0 <= k < d.len() && d[k] == m && forall|j: int| 0 <= j < k ==> #[trigger] d[j].name != name;
                assert(ms[k] == m);
                assert forall|j: int| 0 <= j < k implies #[trigger] ms[j].name != name by {
                    assert(ms[j] == d[j]);
                }
                assert(ms[k].name == name);
            },
            None => {
                assert forall|j: int| 0 <= j < ms.len() - 1 implies #[trigger] ms[j].name != name by {
                    assert(ms[j] == d[j]);
                }
                if ms.last().name == name {
                    let k = ms.len() - 1;
                    assert(ms[k] == ms.last());
                } else {
                    assert forall|j: int| 0 <= j < ms.len() implies #[trigger] ms[j].name != name by {
                        if j < ms.len() - 1 {
                            assert(ms[j] == d[j]);
                        }
                    }
                }
            },
        }
    }
}

/// Where the first module of a prefix has the name, it is the first of the whole list.
proof fn lemma_find_module_prefix(ms: Seq<ModuleView>, k: int, name: Seq<char>)
    requires
        0 <= k <= ms.len(),
        spec_find_module(ms.take(k), name) is Some,
    ensures
        spec_find_module(ms, name) == spec_find_module(ms.take(k), name),
    decreases ms.len() - k,
{
    if k < ms.len() {
        assert(ms.take(k + 1).drop_last() =~= ms.take(k));
        lemma_find_module_prefix(ms, k + 1, name);
    } else {
        assert(ms.take(k) =~= ms);
    }
}

} // verus!
