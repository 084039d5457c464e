//! Names and paths: how the module system turns file locations into module names.

use vstd::prelude::*;
use vstd::string::StrSliceExecFns;
use vstd::string::StringExecFns;

verus! {

/// The characters `src/`, the directory under which a package keeps its sources.
pub open spec fn src_dir() -> Seq<char> {
    seq!['s', 'r', 'c', '/']
}

/// The characters `.oft`, the extension of a source file.
pub open spec fn oft_suffix() -> Seq<char> {
    seq!['.', 'o', 'f', 't']
}

/// The characters `lib.oft`, the file that holds a package's library root module.
pub open spec fn lib_file() -> Seq<char> {
    seq!['l', 'i', 'b', '.', 'o', 'f', 't']
}

/// A binary's path relative to `src/`, where the path begins with `src/`.
pub open spec fn spec_main_file(p: Seq<char>) -> Option<Seq<char>> {
    if p.len() >= 4 && p.subrange(0, 4) == src_dir() {
        Some(p.subrange(4, p.len() as int))
    } else {
        None
    }
}

/// Strips `src/` from the front of a binary's path; `None` where the path does not
/// begin with it.
pub fn main_file_of(p: &String) -> (r: Option<String>)
    ensures
        match r {
            Some(s) => spec_main_file(p@) == Some(s@),
            None => spec_main_file(p@) is None,
        },
{
    let s = p.as_str();
    let n: usize = s.unicode_len();
    if n >= 4 && s.get_char(0) == 's' && s.get_char(1) == 'r' && s.get_char(2) == 'c'
        && s.get_char(3) == '/' {
        assert(s@.subrange(0, 4) =~= src_dir());
        let rest = s.substring_char(4, n);
        Some(rest.to_owned())
    } else {
        assert(p@.len() >= 4 ==> p@.subrange(0, 4)[0] == p@[0] && p@.subrange(0, 4)[1] == p@[1]
            && p@.subrange(0, 4)[2] == p@[2] && p@.subrange(0, 4)[3] == p@[3]);
        None
    }
}

/// What `PathBuf::join` gives on Unix: an absolute `rel` replaces `base`; otherwise
/// `rel` follows `base`, with a `/` between them where `base` is not empty and does
/// not already end in one.
pub open spec fn spec_join_path(base: Seq<char>, rel: Seq<char>) -> Seq<char> {
    if rel.len() > 0 && rel[0] == '/' {
        rel
    } else if base.len() > 0 && base.last() != '/' {
        base + seq!['/'] + rel
    } else {
        base + rel
    }
}

/// Joins two paths as `PathBuf::join` does on Unix.
pub fn join_path(base: &String, rel: &String) -> (r: String)
    ensures
        r@ == spec_join_path(base@, rel@),
{
    let b = base.as_str();
    let rl = rel.as_str();
    let nb: usize = b.unicode_len();
    let nr: usize = rl.unicode_len();
    if nr > 0 && rl.get_char(0) == '/' {
        rel.clone()
    } else if nb > 0 && b.get_char(nb - 1) != '/' {
        let mut r = base.clone();
        r.append("/");
        proof {
            reveal_strlit("/");
        }
        r.append(rl);
        r
    } else {
        let mut r = base.clone();
        r.append(rl);
        r
    }
}


/// The stem of a file whose extension is `oft`, as `Path::file_stem` and
/// `Path::extension` give them: the name must end in `.oft` and have something
/// before that dot.
pub open spec fn spec_oft_stem(f: Seq<char>) -> Option<Seq<char>> {
    if f.len() > 4 && f.subrange(f.len() - 4, f.len() as int) == oft_suffix() {
        Some(f.subrange(0, f.len() - 4))
    } else {
        None
    }
}

/// The stem of a source file's name, or `None` where its extension is not `oft`.
pub fn oft_stem(f: &String) -> (r: Option<String>)
    ensures
        match r {
            Some(s) => spec_oft_stem(f@) == Some(s@),
            None => spec_oft_stem(f@) is None,
        },
{
    let s = f.as_str();
    let n: usize = s.unicode_len();
    if n > 4 && s.get_char(n - 4) == '.' && s.get_char(n - 3) == 'o' && s.get_char(n - 2) == 'f'
        && s.get_char(n - 1) == 't' {
        assert(s@.subrange(n - 4, n as int) =~= oft_suffix());
        Some(s.substring_char(0, n - 4).to_owned())
    } else {
        proof {
            if f@.len() > 4 {
                let t = f@.subrange(f@.len() - 4, f@.len() as int);
                assert(t[0] == f@[f@.len() - 4] && t[1] == f@[f@.len() - 3] && t[2] == f@[f@.len()
                    - 2] && t[3] == f@[f@.len() - 1]);
            }
        }
        None
    }
}

/// Whether the character at `i` of what follows a file name in a path adds no
/// component: it is a separator, or a `.` that stands alone between separators.
pub open spec fn tail_char_ok(r: Seq<char>, i: int) -> bool {
    r[i] == '/' || (r[i] == '.' && r[i - 1] == '/' && (i + 1 == r.len() || r[i + 1] == '/'))
}

/// Whether what follows a file name in a path adds no component: nothing, or a
/// separator followed by separators and lone `.`s.
pub open spec fn redundant_tail(r: Seq<char>) -> bool {
    r.len() == 0 || (r[0] == '/' && forall|i: int| 0 < i < r.len() ==> #[trigger] tail_char_ok(r, i))
}

/// A file name as `read_dir` hands it out: one component, neither `.` nor `..`.
pub open spec fn is_file_name(f: Seq<char>) -> bool {
    &&& f.len() > 0
    &&& forall|i: int| 0 <= i < f.len() ==> f[i] != '/'
    &&& f != seq!['.']
    &&& f != seq!['.', '.']
}

/// Whether the path `p` equals, as a `Path`, the single component `f`: both have the
/// same components, `f` alone.
pub open spec fn spec_path_is_file(p: Seq<char>, f: Seq<char>) -> bool {
    p.len() >= f.len() && p.subrange(0, f.len() as int) == f && redundant_tail(
        p.subrange(f.len() as int, p.len() as int),
    )
}

/// Compares a relative path with a file name as `Path`s compare: by components.
pub fn path_is_file(p: &String, f: &String) -> (r: bool)
    requires
        is_file_name(f@),
    ensures
        r == spec_path_is_file(p@, f@),
{
    let ps = p.as_str();
    let fs = f.as_str();
    let np: usize = ps.unicode_len();
    let nf: usize = fs.unicode_len();
    if np < nf {
        return false;
    }
    let mut i: usize = 0;
    while i < nf
        invariant
            nf <= np,
            np == p@.len(),
            nf == f@.len(),
            ps@ == p@,
            fs@ == f@,
            i <= nf,
            forall|j: int| 0 <= j < i ==> p@[j] == f@[j],
        decreases nf - i,
    {
        if ps.get_char(i) != fs.get_char(i) {
            assert(p@.subrange(0, nf as int)[i as int] != f@[i as int]);
            return false;
        }
        i = i + 1;
    }
    assert(p@.subrange(0, nf as int) =~= f@);
    let ghost tail = p@.subrange(nf as int, np as int);
    if np == nf {
        assert(tail.len() == 0);
        return true;
    }
    if ps.get_char(nf) != '/' {
        assert(tail[0] == p@[nf as int]);
        return false;
    }
    let mut k: usize = nf + 1;
    while k < np
        invariant
            nf < k <= np,
            np == p@.len(),
            nf == f@.len(),
            ps@ == p@,
            tail == p@.subrange(nf as int, np as int),
            tail[0] == '/',
            forall|i: int| 0 < i < k - nf ==> #[trigger] tail_char_ok(tail, i),
        decreases np - k,
    {
        let c = ps.get_char(k);
        let ok = if c == '/' {
            true
        } else if c == '.' {
            ps.get_char(k - 1) == '/' && (k + 1 == np || ps.get_char(k + 1) == '/')
        } else {
            false
        };
        assert(tail[k - nf] == p@[k as int]);
        assert(tail[k - nf - 1] == p@[k - 1]);
        assert(k + 1 < np ==> tail[k - nf + 1] == p@[k + 1]);
        if !ok {
            assert(!tail_char_ok(tail, k - nf));
            return false;
        }
        assert(tail_char_ok(tail, k - nf));
        k = k + 1;
    }
    true
}

/// The characters that a stack of directory names puts before a module's file
/// stem: each name followed by `/`.
pub open spec fn spec_dir_prefix(stack: Seq<Seq<char>>) -> Seq<char>
    decreases stack.len(),
{
    if stack.len() == 0 {
        Seq::empty()
    } else {
        spec_dir_prefix(stack.drop_last()) + stack.last() + seq!['/']
    }
}

/// Whether one of the binaries' main files is the file `f`.
pub open spec fn is_main_file(main_files: Seq<Seq<char>>, f: Seq<char>) -> bool {
    exists|k: int| 0 <= k < main_files.len() && spec_path_is_file(#[trigger] main_files[k], f)
}

/// Every binary's main file holds no module, whichever of the binaries it belongs
/// to; a file with the `oft` extension that is no main file holds one.
pub proof fn lemma_main_files_skipped(stack: Seq<Seq<char>>, f: Seq<char>, main_files: Seq<Seq<char>>)
    ensures
        forall|k: int|
            0 <= k < main_files.len() && spec_path_is_file(#[trigger] main_files[k], f)
                ==> spec_source_module_name(stack, f, main_files) is None,
        (forall|k: int| 0 <= k < main_files.len() ==> !spec_path_is_file(#[trigger] main_files[k], f))
            && spec_oft_stem(f) is Some ==> spec_source_module_name(stack, f, main_files) is Some,
{
}

/// The name that a module found in file `f`, under the directories `stack` (the
/// package's name first), must declare; `None` where the file holds no module: it is
/// a binary's main file, or its extension is not `oft`. The package's `lib.oft`
/// holds the module named after the package.
pub open spec fn spec_source_module_name(
    stack: Seq<Seq<char>>,
    f: Seq<char>,
    main_files: Seq<Seq<char>>,
) -> Option<Seq<char>> {
    if is_main_file(main_files, f) {
        None
    } else {
        match spec_oft_stem(f) {
            None => None,
            Some(stem) => if stack.len() == 1 && f == lib_file() {
                Some(stack[0])
            } else {
                Some(spec_dir_prefix(stack) + stem)
            },
        }
    }
}

/// Each directory name of `stack` followed by `/`, in order.
pub fn dir_prefix(stack: &Vec<String>) -> (r: String)
    ensures
        r@ == spec_dir_prefix(stack.deep_view()),
{
    let mut r = String::new();
    let mut i: usize = 0;
    proof {
        reveal_strlit("/");
    }
    while i < stack.len()
        invariant
            i <= stack.len(),
            r@ == spec_dir_prefix(stack.deep_view().take(i as int)),
            "/"@ == seq!['/'],
        decreases stack.len() - i,
    {
        r.append(stack[i].as_str());
        r.append("/");
        assert(stack.deep_view().take(i + 1).drop_last() =~= stack.deep_view().take(i as int));
        i = i + 1;
    }
    assert(stack.deep_view().take(stack.len() as int) =~= stack.deep_view());
    r
}

/// Decides, for a file met while crawling a package's sources, the name of the
/// module that it must hold, or that it holds none.
pub fn source_module_name(stack: &Vec<String>, f: &String, main_files: &Vec<String>) -> (r: Option<
    String,
>)
    requires
        is_file_name(f@),
    ensures
        match r {
            Some(s) => spec_source_module_name(stack.deep_view(), f@, main_files.deep_view())
                == Some(s@),
            None => spec_source_module_name(stack.deep_view(), f@, main_files.deep_view()) is None,
        },
{
    let mut k: usize = 0;
    while k < main_files.len()
        invariant
            k <= main_files.len(),
            is_file_name(f@),
            forall|j: int|
                0 <= j < k ==> !spec_path_is_file(#[trigger] main_files.deep_view()[j], f@),
        decreases main_files.len() - k,
    {
        if path_is_file(&main_files[k], f) {
            assert(spec_path_is_file(main_files.deep_view()[k as int], f@));
            return None;
        }
        k = k + 1;
    }
    match oft_stem(f) {
        None => None,
        Some(stem) => {
            let fs = f.as_str();
            proof {
                reveal_strlit("lib.oft");
            }
            if stack.len() == 1 && fs.unicode_len() == 7 && fs.get_char(0) == 'l' && fs.get_char(1)
                == 'i' && fs.get_char(2) == 'b' && fs.get_char(3) == '.' && fs.get_char(4) == 'o'
                && fs.get_char(5) == 'f' && fs.get_char(6) == 't' {
                assert(f@ =~= lib_file());
                Some(stack[0].clone())
            } else {
                assert(f@ == lib_file() ==> f@[0] == 'l' && f@[1] == 'i' && f@[2] == 'b' && f@[3]
                    == '.' && f@[4] == 'o' && f@[5] == 'f' && f@[6] == 't');
                let mut name = dir_prefix(stack);
                name.append(stem.as_str());
                Some(name)
            }
        },
    }
}

} // verus!
