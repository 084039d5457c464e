//! Modules as the module system sees them: a name, whether the module opts out of
//! the prelude, what it imports and what it exports.

use vstd::prelude::*;
use vstd::string::StrSliceExecFns;

verus! {

/// A compiled module, reduced to what the module system reads of it.
#[derive(Debug, Clone, PartialEq, Eq)]
pub struct Module {
    /// The module's declared name, such as `pkg/sub/mod`.
    pub name: String,
    /// Whether the module carries the `no_prelude` attribute.
    pub no_prelude: bool,
    /// The imports, each a (module, name) pair.
    pub imports: Vec<(String, String)>,
    /// The names the module exports, each once, in the order in which its set of
    /// exports gives them (that order is the set's, not the names' own).
    pub exports: Vec<String>,
}

/// The mathematical value of a module.
pub struct ModuleView {
    pub name: Seq<char>,
    pub no_prelude: bool,
    pub imports: Seq<(Seq<char>, Seq<char>)>,
    pub exports: Seq<Seq<char>>,
}

impl View for Module {
    type V = ModuleView;

    open spec fn view(&self) -> ModuleView {
        ModuleView {
            name: self.name@,
            no_prelude: self.no_prelude,
            imports: self.imports.deep_view(),
            exports: self.exports.deep_view(),
        }
    }
}

impl DeepView for Module {
    type V = ModuleView;

    open spec fn deep_view(&self) -> ModuleView {
        self@
    }
}

impl ModuleView {
    /// No name is exported twice.
    pub open spec fn wf(self) -> bool {
        self.exports.no_duplicates()
    }
}

/// Some import of the list comes from module `m`.
pub open spec fn imports_from(imports: Seq<(Seq<char>, Seq<char>)>, m: Seq<char>) -> bool {
    exists|i: int| 0 <= i < imports.len() && #[trigger] imports[i].0 == m
}

/// One import from `prelude` for each of the names it exports, in order.
pub open spec fn prelude_imports(prelude: Seq<char>, exports: Seq<Seq<char>>) -> Seq<
    (Seq<char>, Seq<char>),
> {
    exports.map_values(|n: Seq<char>| (prelude, n))
}

/// A module with the prelude's exports added to its imports, unless it opts out of
/// the prelude or already imports something from it.
pub open spec fn spec_augment(m: ModuleView, prelude: Seq<char>, exports: Seq<Seq<char>>) -> ModuleView {
    if !m.no_prelude && !imports_from(m.imports, prelude) {
        ModuleView {
            name: m.name,
            no_prelude: m.no_prelude,
            imports: m.imports + prelude_imports(prelude, exports),
            exports: m.exports,
        }
    } else {
        m
    }
}

/// A module that does not opt out of the prelude, and has no import from the
/// module named exactly as the prelude, gets one import from the prelude for each of
/// its exports, in order, after its own; any other module is left as it is.
pub proof fn lemma_augment_adds_prelude(m: ModuleView, prelude: Seq<char>, exports: Seq<Seq<char>>)
    ensures
        !m.no_prelude && (forall|i: int| 0 <= i < m.imports.len() ==> #[trigger] m.imports[i].0 != prelude)
            ==> {
            let a = spec_augment(m, prelude, exports).imports;
            &&& a.len() == m.imports.len() + exports.len()
            &&& forall|i: int| 0 <= i < m.imports.len() ==> #[trigger] a[i] == m.imports[i]
            &&& forall|j: int| 0 <= j < exports.len() ==> a[m.imports.len() + j] == (prelude, #[trigger] exports[j])
        },
        m.no_prelude || (exists|i: int| 0 <= i < m.imports.len() && #[trigger] m.imports[i].0 == prelude)
            ==> spec_augment(m, prelude, exports) == m,
{
    let a = spec_augment(m, prelude, exports).imports;
    if !m.no_prelude && (forall|i: int| 0 <= i < m.imports.len() ==> #[trigger] m.imports[i].0 != prelude) {
        assert(!imports_from(m.imports, prelude));
        assert forall|j: int| 0 <= j < exports.len() implies a[m.imports.len() + j] == (prelude, #[trigger] exports[j]) by {
            assert(prelude_imports(prelude, exports)[j] == (prelude, exports[j]));
        }
    }
}

/// Adding the prelude keeps a module's name, its attribute and its exports, and
/// keeps its imports as they were, in front of any it adds.
pub proof fn lemma_augment_keeps(m: ModuleView, prelude: Seq<char>, exports: Seq<Seq<char>>)
    ensures
        spec_augment(m, prelude, exports).name == m.name,
        spec_augment(m, prelude, exports).no_prelude == m.no_prelude,
        spec_augment(m, prelude, exports).exports == m.exports,
        m.imports.is_prefix_of(spec_augment(m, prelude, exports).imports),
{
    let a = spec_augment(m, prelude, exports);
    assert(a.imports.subrange(0, m.imports.len() as int) =~= m.imports);
}

/// Adds the prelude's exports to a module's imports, unless the module opts out of
/// the prelude or already imports something from it.
pub fn augment_module_imports(m: &mut Module, prelude: &String, exports: &Vec<String>)
    ensures
        final(m)@ == spec_augment(old(m)@, prelude@, exports.deep_view()),
{
    let mut found = false;
    let mut i: usize = 0;
    while i < m.imports.len()
        invariant
            i <= m.imports.len(),
            found <==> exists|j: int| 0 <= j < i && #[trigger] m.imports.deep_view()[j].0 == prelude@,
        decreases m.imports.len() - i,
    {
        if m.imports[i].0 == *prelude {
            assert(m.imports.deep_view()[i as int].0 == prelude@);
            found = true;
        }
        i = i + 1;
    }
    assert(found <==> imports_from(m@.imports, prelude@));
    if !m.no_prelude && !found {
        let ghost before = m@;
        let mut k: usize = 0;
        while k < exports.len()
            invariant
                k <= exports.len(),
                m@ == (ModuleView {
                    name: before.name,
                    no_prelude: before.no_prelude,
                    imports: before.imports + prelude_imports(prelude@, exports.deep_view().take(k as int)),
                    exports: before.exports,
                }),
            decreases exports.len() - k,
        {
            let ghost prev = m.imports.deep_view();
            m.imports.push((prelude.clone(), exports[k].clone()));
            assert(m.imports.deep_view() =~= prev.push((prelude@, exports.deep_view()[k as int])));
            assert(prelude_imports(prelude@, exports.deep_view().take(k + 1)) =~= prelude_imports(
                prelude@,
                exports.deep_view().take(k as int),
            ).push((prelude@, exports.deep_view()[k as int])));
            k = k + 1;
        }
        assert(exports.deep_view().take(exports.len() as int) =~= exports.deep_view());
    }
}

/// Adding the prelude twice adds nothing the first time did not: a module that was
/// augmented is left as it is.
pub proof fn lemma_augment_idempotent(m: ModuleView, prelude: Seq<char>, exports: Seq<Seq<char>>)
    ensures
        spec_augment(spec_augment(m, prelude, exports), prelude, exports) == spec_augment(
            m,
            prelude,
            exports,
        ),
{
    let a = spec_augment(m, prelude, exports);
    if !m.no_prelude && !imports_from(m.imports, prelude) {
        if exports.len() > 0 {
            let k: int = m.imports.len() as int;
            assert(a.imports[k].0 == prelude);
            assert(imports_from(a.imports, prelude));
        } else {
            assert(prelude_imports(prelude, exports) =~= Seq::empty());
            assert(a.imports =~= m.imports);
        }
    }
}


/// A copy of a list of names.
pub fn clone_names(v: &Vec<String>) -> (r: Vec<String>)
    ensures
        r.deep_view() == v.deep_view(),
{
    let mut r: Vec<String> = Vec::new();
    let mut i: usize = 0;
    while i < v.len()
        invariant
            i <= v.len(),
            r.deep_view() == v.deep_view().take(i as int),
        decreases v.len() - i,
    {
        let ghost prev = r.deep_view();
        r.push(v[i].clone());
        assert(r.deep_view() =~= prev.push(v.deep_view()[i as int]));
        assert(v.deep_view().take(i + 1) =~= v.deep_view().take(i as int).push(v.deep_view()[i as int]));
        i = i + 1;
    }
    assert(v.deep_view().take(v.len() as int) =~= v.deep_view());
    r
}

/// Whether no name of the list occurs twice.
pub fn names_distinct(v: &Vec<String>) -> (r: bool)
    ensures
        r == v.deep_view().no_duplicates(),
{
    let ghost vv = v.deep_view();
    let mut i: usize = 0;
    while i < v.len()
        invariant
            i <= v.len(),
            vv == v.deep_view(),
            forall|a: int, b: int| 0 <= a < i && 0 <= b < i && a != b ==> vv[a] != vv[b],
        decreases v.len() - i,
    {
        let mut j: usize = 0;
        while j < i
            invariant
                j <= i < v.len(),
                vv == v.deep_view(),
                forall|a: int, b: int| 0 <= a < i && 0 <= b < i && a != b ==> vv[a] != vv[b],
                forall|b: int| 0 <= b < j ==> vv[i as int] != vv[b],
            decreases i - j,
        {
            if v[i] == v[j] {
                assert(vv[i as int] == vv[j as int]);
                return false;
            }
            j = j + 1;
        }
        i = i + 1;
    }
    true
}

/// A copy of a module.
pub fn copy_module(m: &Module) -> (r: Module)
    ensures
        r@ == m@,
{
    let mut imports: Vec<(String, String)> = Vec::new();
    let mut i: usize = 0;
    while i < m.imports.len()
        invariant
            i <= m.imports.len(),
            imports.deep_view() == m.imports.deep_view().take(i as int),
        decreases m.imports.len() - i,
    {
        let ghost prev = imports.deep_view();
        let (a, b) = &m.imports[i];
        imports.push((a.clone(), b.clone()));
        assert(imports.deep_view() =~= prev.push(m.imports.deep_view()[i as int]));
        assert(m.imports.deep_view().take(i + 1) =~= m.imports.deep_view().take(i as int).push(
            m.imports.deep_view()[i as int],
        ));
        i = i + 1;
    }
    assert(m.imports.deep_view().take(m.imports.len() as int) =~= m.imports.deep_view());
    Module {
        name: m.name.clone(),
        no_prelude: m.no_prelude,
        imports,
        exports: clone_names(&m.exports),
    }
}

impl Module {
    /// Whether no name is exported twice.
    pub fn exports_distinct(&self) -> (r: bool)
        ensures
            r == self@.wf(),
    {
        names_distinct(&self.exports)
    }
}

/// Whether a name holds a colon, which no declaration's name may.
pub open spec fn has_colon(s: Seq<char>) -> bool {
    s.contains(':')
}

/// Whether a name holds a colon.
pub fn contains_colon(s: &String) -> (r: bool)
    ensures
        r == has_colon(s@),
{
    let t = s.as_str();
    let n: usize = t.unicode_len();
    let mut i: usize = 0;
    while i < n
        invariant
            i <= n,
            n == s@.len(),
            t@ == s@,
            forall|j: int| 0 <= j < i ==> s@[j] != ':',
        decreases n - i,
    {
        if t.get_char(i) == ':' {
            assert(s@[i as int] == ':');
            return true;
        }
        i = i + 1;
    }
    false
}

} // verus!
