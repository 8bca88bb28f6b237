//! What the report is computed from: the dependencies that a manifest
//! declares and the packages that resolution chose.

use crate::version::{Version, VersionView};
use vstd::prelude::*;

verus! {

/// What a declared dependency is needed for.
#[derive(Clone, Copy, Debug, PartialEq, Eq)]
pub enum DepKind {
    /// Needed to build the package itself.
    Normal,
    /// Needed only for tests, examples and benchmarks.
    Development,
    /// Needed only by the build script.
    Build,
}

/// One dependency as the root package's manifest declares it.
pub struct DependencyDeclaration {
    /// The name under which the manifest lists the dependency.
    pub name_in_manifest: String,
    /// The name of the package that the dependency stands for.
    pub package_name: String,
    pub kind: DepKind,
}

/// A declaration as contracts speak of it.
pub ghost struct DeclarationView {
    pub name_in_manifest: Seq<char>,
    pub package_name: Seq<char>,
    pub kind: DepKind,
}

impl View for DependencyDeclaration {
    type V = DeclarationView;

    open spec fn view(&self) -> DeclarationView {
        DeclarationView {
            name_in_manifest: self.name_in_manifest@,
            package_name: self.package_name@,
            kind: self.kind,
        }
    }
}

/// A package that resolution chose, known by its name and version.
pub struct ResolvedPackage {
    pub name: String,
    pub version: Version,
}

/// A resolved package as contracts speak of it; also the key under which
/// its size is kept.
pub ghost struct PackageView {
    pub name: Seq<char>,
    pub version: VersionView,
}

impl View for ResolvedPackage {
    type V = PackageView;

    open spec fn view(&self) -> PackageView {
        PackageView { name: self.name@, version: self.version@ }
    }
}

/// The declarations of `deps`, each by its view.
pub open spec fn declaration_views(deps: Seq<DependencyDeclaration>) -> Seq<DeclarationView> {
    deps.map_values(|d: DependencyDeclaration| d@)
}

/// The packages of `packages`, each by its view.
pub open spec fn package_views(packages: Seq<ResolvedPackage>) -> Seq<PackageView> {
    packages.map_values(|p: ResolvedPackage| p@)
}

/// The strings of `names`, each by its characters.
pub open spec fn texts(names: Seq<String>) -> Seq<Seq<char>> {
    names.map_values(|s: String| s@)
}

} // verus!
