//! The errors that the module system reports.

use vstd::prelude::*;

verus! {

/// What went wrong while loading packages or linking a binary.
#[derive(Debug, Clone, PartialEq, Eq)]
pub enum ErrorKind {
    /// A package was asked for under one name and declares another: (asked, declared).
    MisnamedPackage(String, String),
    /// A package that others depend on exports no library.
    DependencyMustExportLib(String),
    /// A source file holds a module whose declared name differs from the name its
    /// location gives it: (expected, declared).
    MisnamedModule(String, String),
    /// The package has no binary of that name: (package, binary).
    NoSuchBinary(String, String),
    /// The module that a binary names is not called `main`.
    BadBinaryName(String),
    /// A declaration's name contains a colon.
    IllegalDeclName(String),
    /// A directory of a package's sources could not be read: (directory, package).
    CouldntReadPackageDir(String, String),
}


/// The mathematical value of an error.
pub enum ErrorView {
    MisnamedPackage(Seq<char>, Seq<char>),
    DependencyMustExportLib(Seq<char>),
    MisnamedModule(Seq<char>, Seq<char>),
    NoSuchBinary(Seq<char>, Seq<char>),
    BadBinaryName(Seq<char>),
    IllegalDeclName(Seq<char>),
    CouldntReadPackageDir(Seq<char>, Seq<char>),
}

impl View for ErrorKind {
    type V = ErrorView;

    open spec fn view(&self) -> ErrorView {
        match self {
            ErrorKind::MisnamedPackage(a, b) => ErrorView::MisnamedPackage(a@, b@),
            ErrorKind::DependencyMustExportLib(a) => ErrorView::DependencyMustExportLib(a@),
            ErrorKind::MisnamedModule(a, b) => ErrorView::MisnamedModule(a@, b@),
            ErrorKind::NoSuchBinary(a, b) => ErrorView::NoSuchBinary(a@, b@),
            ErrorKind::BadBinaryName(a) => ErrorView::BadBinaryName(a@),
            ErrorKind::IllegalDeclName(a) => ErrorView::IllegalDeclName(a@),
            ErrorKind::CouldntReadPackageDir(a, b) => ErrorView::CouldntReadPackageDir(a@, b@),
        }
    }
}

} // verus!
