# oftb

The module system of the oftb language and the intrinsics that compute on its
values, written in Verus with their contracts proved.

- `src/paths.rs`: how a source file's location gives the name of its module, the
  main files of a package's binaries, and path joining.
- `src/assoc.rs`: tables keyed by name, in which a name occurs once.
- `src/module.rs`, `src/metadata.rs`: modules and package metadata as the module
  system reads them, and adding the prelude to a module's imports.
- `src/packages.rs`: the module context, loading packages and crawling their
  sources, and the steps by which a package's dependencies are loaded first.
- `src/compile.rs`: gathering the modules and builtins that a binary is built from.
- `src/value.rs`, `src/intrinsics.rs`: values, the store of cells and of string
  bytes, and the intrinsics on pairs, lists, numbers, strings, types and vectors,
  with the listing that `read_dir` builds from a directory's entries.
- `app/`: reading directories and printing, around the library; parsing is supplied
  through its `Reader` trait.
