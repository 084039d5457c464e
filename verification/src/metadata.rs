//! A package's metadata, as read from its `package.oftd`.

use vstd::prelude::*;
use crate::module::clone_names;
use crate::paths::{main_file_of, spec_main_file};

verus! {

/// A binary that a package builds: its name, and the path of its main file relative
/// to the package's directory.
#[derive(Debug, Clone, PartialEq, Eq)]
pub struct BinaryComponentMetadata {
    pub name: String,
    pub path: String,
}

/// The library that a package exports. The module system reads only whether a
/// package has one.
#[derive(Debug, Clone, PartialEq, Eq)]
pub struct LibraryComponentMetadata {}

/// What a package builds.
#[derive(Debug, Clone, PartialEq, Eq)]
pub struct ComponentsMetadata {
    pub library: Option<LibraryComponentMetadata>,
    pub binaries: Vec<BinaryComponentMetadata>,
}

/// A package's metadata: its name, what it builds, and the names of the packages it
/// depends on.
#[derive(Debug, Clone, PartialEq, Eq)]
pub struct PackageMetadata {
    pub name: String,
    pub components: ComponentsMetadata,
    pub dependencies: Vec<String>,
}

/// The mathematical value of a package's metadata.
pub struct MetadataView {
    pub name: Seq<char>,
    pub has_library: bool,
    /// Each binary as a (name, path) pair.
    pub binaries: Seq<(Seq<char>, Seq<char>)>,
    pub dependencies: Seq<Seq<char>>,
}

impl View for PackageMetadata {
    type V = MetadataView;

    open spec fn view(&self) -> MetadataView {
        MetadataView {
            name: self.name@,
            has_library: self.components.library is Some,
            binaries: self.components.binaries@.map_values(
                |b: BinaryComponentMetadata| (b.name@, b.path@),
            ),
            dependencies: self.dependencies.deep_view(),
        }
    }
}

impl DeepView for PackageMetadata {
    type V = MetadataView;

    open spec fn deep_view(&self) -> MetadataView {
        self@
    }
}

/// A copy of a package's metadata.
pub fn copy_metadata(m: &PackageMetadata) -> (r: PackageMetadata)
    ensures
        r@ == m@,
{
    let bins = &m.components.binaries;
    let ghost bv = m@.binaries;
    let mut binaries: Vec<BinaryComponentMetadata> = Vec::new();
    let mut i: usize = 0;
    while i < bins.len()
        invariant
            i <= bins.len(),
            bv == bins@.map_values(|b: BinaryComponentMetadata| (b.name@, b.path@)),
            binaries@.map_values(|b: BinaryComponentMetadata| (b.name@, b.path@)) == bv.take(i as int),
        decreases bins.len() - i,
    {
        let ghost prev = binaries@;
        binaries.push(
            BinaryComponentMetadata { name: bins[i].name.clone(), path: bins[i].path.clone() },
        );
        assert(binaries@.map_values(|b: BinaryComponentMetadata| (b.name@, b.path@)) =~= prev.map_values(
            |b: BinaryComponentMetadata| (b.name@, b.path@),
        ).push(bv[i as int]));
        assert(bv.take(i + 1) =~= bv.take(i as int).push(bv[i as int]));
        i = i + 1;
    }
    assert(bv.take(bins.len() as int) =~= bv);
    let library = match &m.components.library {
        Some(_) => Some(LibraryComponentMetadata {}),
        None => None,
    };
    PackageMetadata {
        name: m.name.clone(),
        components: ComponentsMetadata { library, binaries },
        dependencies: clone_names(&m.dependencies),
    }
}

/// The main files of a package's binaries: the path of each binary that lies under
/// `src/`, relative to `src/`, in order.
pub open spec fn spec_main_files(binaries: Seq<(Seq<char>, Seq<char>)>) -> Seq<Seq<char>>
    decreases binaries.len(),
{
    if binaries.len() == 0 {
        Seq::empty()
    } else {
        let rest = spec_main_files(binaries.drop_last());
        match spec_main_file(binaries.last().1) {
            Some(f) => rest.push(f),
            None => rest,
        }
    }
}

/// The main files of a package's binaries, which crawling its sources skips.
pub fn main_files_of(meta: &PackageMetadata) -> (r: Vec<String>)
    ensures
        r.deep_view() == spec_main_files(meta@.binaries),
{
    let bins = &meta.components.binaries;
    let ghost bv = meta@.binaries;
    let mut r: Vec<String> = Vec::new();
    let mut i: usize = 0;
    while i < bins.len()
        invariant
            i <= bins.len(),
            bv == bins@.map_values(|b: BinaryComponentMetadata| (b.name@, b.path@)),
            r.deep_view() == spec_main_files(bv.take(i as int)),
        decreases bins.len() - i,
    {
        assert(bv.take(i + 1).drop_last() =~= bv.take(i as int));
        assert(bv.take(i + 1).last() == bv[i as int]);
        match main_file_of(&bins[i].path) {
            Some(f) => {
                let ghost prev = r.deep_view();
                r.push(f);
                assert(r.deep_view() =~= prev.push(f@));
            },
            None => {},
        }
        i = i + 1;
    }
    assert(bv.take(bins.len() as int) =~= bv);
    r
}


/// The path of the first binary with the given name.
pub open spec fn spec_find_binary(bins: Seq<(Seq<char>, Seq<char>)>, name: Seq<char>) -> Option<
    Seq<char>,
>
    decreases bins.len(),
{
    if bins.len() == 0 {
        None
    } else {
        match spec_find_binary(bins.drop_last(), name) {
            Some(p) => Some(p),
            None => if bins.last().0 == name {
                Some(bins.last().1)
            } else {
                None
            },
        }
    }
}

/// Looking a binary up by name gives the path of the first binary whose name is
/// exactly that name, and gives nothing exactly when no binary has it.
pub proof fn lemma_find_binary_exact(bins: Seq<(Seq<char>, Seq<char>)>, name: Seq<char>)
    ensures
        spec_find_binary(bins, name) matches Some(p) ==> exists|k: int|
            0 <= k < bins.len() && bins[k] == (name, p) && forall|j: int| 0 <= j < k ==> #[trigger] bins[j].0 != name,
        spec_find_binary(bins, name) is None <==> forall|k: int| 0 <= k < bins.len() ==> #[trigger] bins[k].0 != name,
    decreases bins.len(),
{
    if bins.len() > 0 {
        let d = bins.drop_last();
        lemma_find_binary_exact(d, name);
        match spec_find_binary(d, name) {
            Some(p) => {
                let k = choose|k: int|
                    0 <= k < d.len() && d[k] == (name, p) && forall|j: int| 0 <= j < k ==> #[trigger] d[j].0 != name;
                assert(bins[k] == (name, p));
                assert forall|j: int| 0 <= j < k implies #[trigger] bins[j].0 != name by {
                    assert(bins[j] == d[j]);
                }
            },
            None => {
                assert forall|j: int| 0 <= j < bins.len() - 1 implies #[trigger] bins[j].0 != name by {
                    assert(bins[j] == d[j]);
                }
                if bins.last().0 == name {
                    let k = bins.len() - 1;
                    assert(bins[k] == bins.last());
                    assert(bins[k] == (name, bins.last().1));
                } else {
                    assert forall|j: int| 0 <= j < bins.len() implies #[trigger] bins[j].0 != name by {
                        if j < bins.len() - 1 {
                            assert(bins[j] == d[j]);
                        }
                    }
                }
            },
        }
    }
}

/// Where a prefix already has a binary of the name, the whole list gives the same.
proof fn lemma_find_binary_prefix(bins: Seq<(Seq<char>, Seq<char>)>, k: int, name: Seq<char>)
    requires
        0 <= k <= bins.len(),
        spec_find_binary(bins.take(k), name) is Some,
    ensures
        spec_find_binary(bins, name) == spec_find_binary(bins.take(k), name),
    decreases bins.len() - k,
{
    if k < bins.len() {
        assert(bins.take(k + 1).drop_last() =~= bins.take(k));
        lemma_find_binary_prefix(bins, k + 1, name);
    } else {
        assert(bins.take(k) =~= bins);
    }
}

/// The position of the first binary of the metadata with the given name.
pub fn find_binary(meta: &PackageMetadata, name: &String) -> (r: Option<usize>)
    ensures
        match r {
            Some(k) => k < meta@.binaries.len() && spec_find_binary(meta@.binaries, name@) == Some(
                meta@.binaries[k as int].1,
            ),
            None => spec_find_binary(meta@.binaries, name@) is None,
        },
{
    let bins = &meta.components.binaries;
    let ghost bv = meta@.binaries;
    let mut i: usize = 0;
    while i < bins.len()
        invariant
            i <= bins.len(),
            bv == meta@.binaries,
            bins == meta.components.binaries,
            spec_find_binary(bv.take(i as int), name@) is None,
        decreases bins.len() - i,
    {
        assert(bv.take(i + 1).drop_last() =~= bv.take(i as int));
        assert(bv.take(i + 1).last() == bv[i as int]);
        if bins[i].name == *name {
            proof {
                lemma_find_binary_prefix(bv, i + 1, name@);
            }
            return Some(i);
        }
        i = i + 1;
    }
    assert(bv.take(bins.len() as int) =~= bv);
    None
}

} // verus!
