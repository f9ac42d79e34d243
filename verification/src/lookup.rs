//! The entries of a dependency mapping and the lookups that they give rise to.

use crate::version::{declared_pkg, numeric_of, resolvable, InvalidVersionString, Pkg, PkgView};
use vstd::prelude::*;

verus! {

/// One entry of a dependency mapping: a package name and the version string
/// that the manifest declares for it.
#[derive(Debug)]
pub struct Declared {
    pub name: String,
    pub version: String,
}

/// The mathematical value of a [`Declared`].
pub struct DeclaredView {
    pub name: Seq<char>,
    pub version: Seq<char>,
}

impl View for Declared {
    type V = DeclaredView;

    open spec fn view(&self) -> DeclaredView {
        DeclaredView { name: self.name@, version: self.version@ }
    }
}

impl Clone for Declared {
    fn clone(&self) -> (r: Declared)
        ensures
            r@ == self@,
    {
        Declared { name: self.name.clone(), version: self.version.clone() }
    }
}

/// The values of a list of entries.
pub open spec fn declared_views(deps: Seq<Declared>) -> Seq<DeclaredView> {
    deps.map_values(|d: Declared| d@)
}

/// The values of a list of packages.
pub open spec fn pkg_views(pkgs: Seq<Pkg>) -> Seq<PkgView> {
    pkgs.map_values(|p: Pkg| p@)
}

/// Whether every entry declares a non-empty version string.
pub open spec fn well_declared(deps: Seq<DeclaredView>) -> bool {
    forall|i: int| 0 <= i < deps.len() ==> (#[trigger] deps[i]).version.len() > 0
}

/// The lookup that an entry gives rise to: none where the numeric part of the
/// declared version does not start with a digit.
pub open spec fn lookup_of(d: DeclaredView) -> Option<PkgView> {
    if d.version.len() > 0 && resolvable(numeric_of(d.version)) {
        Some(declared_pkg(d.name, d.version))
    } else {
        None
    }
}

/// The lookups of a mapping, in the order of its entries.
pub open spec fn lookups(deps: Seq<DeclaredView>) -> Seq<PkgView> {
    deps.filter_map(|d: DeclaredView| lookup_of(d))
}

/// Builds one lookup for each entry whose version a registry can resolve.
/// Entries such as `workspace:*` or a URL are left out. An entry with an
/// empty version string is an error.
pub fn build_lookups(deps: &Vec<Declared>) -> (r: Result<Vec<Pkg>, InvalidVersionString>)
    ensures
        r is Ok <==> well_declared(declared_views(deps@)),
        r matches Ok(pkgs) ==> pkg_views(pkgs@) == lookups(declared_views(deps@)),
{
    let ghost all = declared_views(deps@);
    let ghost f = |d: DeclaredView| lookup_of(d);
    let mut out: Vec<Pkg> = Vec::new();
    let mut i: usize = 0;
    while i < deps.len()
        invariant
            0 <= i <= deps.len(),
            all == declared_views(deps@),
            f == (|d: DeclaredView| lookup_of(d)),
            well_declared(all.take(i as int)),
            pkg_views(out@) == all.take(i as int).filter_map(f),
        decreases deps.len() - i,
    {
        let entry = &deps[i];
        assert(all[i as int] == entry@);
        match Pkg::parse(entry.name.clone(), entry.version.as_str()) {
            Err(e) => {
                return Err(e);
            },
            Ok(pkg) => {
                proof {
                    all.lemma_filter_map_take_succ(f, i as int);
                    assert(all.take(i + 1) =~= all.take(i as int).push(all[i as int]));
                }
                if pkg.is_resolvable() {
                    let ghost before = out@;
                    out.push(pkg);
                    proof {
                        assert(pkg_views(out@) =~= pkg_views(before).push(pkg@));
                    }
                }
                i += 1;
            },
        }
    }
    proof {
        assert(all.take(i as int) =~= all);
    }
    Ok(out)
}

} // verus!
