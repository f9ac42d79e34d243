//! Declared version strings: the optional range prefix and the numeric part.

use vstd::prelude::*;
use vstd::string::*;

verus! {

/// `String::push` appends one character to the end of the string.
pub assume_specification[ String::push ](s: &mut String, c: char)
    ensures
        final(s)@ == old(s)@.push(c),
;

/// Whether `c` is one of the ASCII digits `0` to `9`: the characters that,
/// standing alone, read as a non-negative integer.
pub open spec fn is_digit(c: char) -> bool {
    '0' <= c && c <= '9'
}

/// The range prefix of a declared version: its first character, unless that is a digit.
pub open spec fn prefix_of(declared: Seq<char>) -> Option<char>
    recommends
        declared.len() > 0,
{
    if is_digit(declared[0]) {
        None
    } else {
        Some(declared[0])
    }
}

/// The numeric part of a declared version: the whole string where it starts
/// with a digit, else everything after the first character.
pub open spec fn numeric_of(declared: Seq<char>) -> Seq<char>
    recommends
        declared.len() > 0,
{
    if is_digit(declared[0]) {
        declared
    } else {
        declared.subrange(1, declared.len() as int)
    }
}

/// `version` with `prefix` put back in front of it.
pub open spec fn prefixed(prefix: Option<char>, version: Seq<char>) -> Seq<char> {
    match prefix {
        Some(c) => seq![c] + version,
        None => version,
    }
}

/// Whether a numeric part looks like a version that a registry can resolve:
/// it starts with a digit.
pub open spec fn resolvable(version: Seq<char>) -> bool {
    version.len() > 0 && is_digit(version[0])
}

/// A package as a manifest declares it.
#[derive(Debug)]
pub struct Pkg {
    pub name: String,
    /// The numeric part of the declared version, without the range prefix.
    pub version: String,
    /// The range prefix (`^`, `~`, ...) of the declared version, if it had one.
    pub prefix: Option<char>,
}

/// The mathematical value of a [`Pkg`].
pub struct PkgView {
    pub name: Seq<char>,
    pub version: Seq<char>,
    pub prefix: Option<char>,
}

impl View for Pkg {
    type V = PkgView;

    open spec fn view(&self) -> PkgView {
        PkgView { name: self.name@, version: self.version@, prefix: self.prefix }
    }
}

/// The package that declares `declared` for `name`.
pub open spec fn declared_pkg(name: Seq<char>, declared: Seq<char>) -> PkgView
    recommends
        declared.len() > 0,
{
    PkgView { name, version: numeric_of(declared), prefix: prefix_of(declared) }
}

impl PkgView {
    /// The declared version string, with its prefix.
    pub open spec fn declared(self) -> Seq<char> {
        prefixed(self.prefix, self.version)
    }

    /// The prefix, when there is one, is not a digit.
    pub open spec fn wf(self) -> bool {
        self.prefix matches Some(c) ==> !is_digit(c)
    }
}

/// Splitting a declared version into prefix and numeric part loses nothing:
/// the prefix, where there is one, is no digit, and put back in front of the
/// numeric part it gives the declared version again.
pub proof fn lemma_parse_round_trip(declared: Seq<char>)
    requires
        declared.len() > 0,
    ensures
        prefixed(prefix_of(declared), numeric_of(declared)) == declared,
        prefix_of(declared) matches Some(c) ==> c == declared[0] && !is_digit(c),
        prefix_of(declared) is None ==> numeric_of(declared) == declared,
{
    assert(prefixed(prefix_of(declared), numeric_of(declared)) =~= declared);
}

/// The declared version string was empty.
#[derive(Debug, Clone, Copy, PartialEq, Eq, Structural)]
pub struct InvalidVersionString;

/// Whether `c` is an ASCII digit.
pub fn char_is_digit(c: char) -> (r: bool)
    ensures
        r == is_digit(c),
{
    '0' <= c && c <= '9'
}

/// Strips the range prefix from a declared version.
pub fn trim_semver(version: String) -> (r: String)
    requires
        version@.len() > 0,
    ensures
        r@ == numeric_of(version@),
{
    let text = version.as_str();
    if !char_is_digit(text.get_char(0)) {
        let n: usize = text.unicode_len();
        return text.substring_char(1, n).to_owned();
    }
    version
}

impl Clone for Pkg {
    fn clone(&self) -> (r: Pkg)
        ensures
            r@ == self@,
    {
        Pkg { name: self.name.clone(), version: self.version.clone(), prefix: self.prefix }
    }
}

impl Pkg {
    /// Reads a declared version string for the package `name`.
    pub fn parse(name: String, declared: &str) -> (r: Result<Pkg, InvalidVersionString>)
        ensures
            declared@.len() == 0 <==> r is Err,
            r matches Ok(p) ==> p@ == declared_pkg(name@, declared@) && p@.wf()
                && p@.declared() == declared@,
    {
        if declared.unicode_len() == 0 {
            return Err(InvalidVersionString);
        }
        let first = declared.get_char(0);
        let prefix = if char_is_digit(first) {
            None
        } else {
            Some(first)
        };
        let version = trim_semver(declared.to_owned());
        proof {
            assert(prefixed(prefix, version@) =~= declared@);
        }
        Ok(Pkg { name, version, prefix })
    }

    /// Whether the numeric part starts with a digit.
    pub fn is_resolvable(&self) -> (r: bool)
        ensures
            r == resolvable(self@.version),
    {
        let text = self.version.as_str();
        text.unicode_len() > 0 && char_is_digit(text.get_char(0))
    }

    /// `version` with this package's range prefix in front of it.
    pub fn with_prefix(&self, version: String) -> (r: String)
        ensures
            r@ == prefixed(self@.prefix, version@),
    {
        match self.prefix {
            Some(prefix) => {
                let mut out = String::new();
                out.push(prefix);
                out.append(version.as_str());
                proof {
                    assert(out@ =~= seq![prefix] + version@);
                }
                out
            },
            None => version,
        }
    }

    /// The declared version, with its range prefix.
    pub fn with_prefix_own(&self) -> (r: String)
        ensures
            r@ == self@.declared(),
    {
        self.with_prefix(self.version.clone())
    }
}

/// A package whose latest published version differs from the declared one.
#[derive(Debug)]
pub struct PkgChange {
    /// The latest published version, without any range prefix.
    pub to: String,
    pub pkg: Pkg,
}

/// The mathematical value of a [`PkgChange`].
pub struct ChangeView {
    pub to: Seq<char>,
    pub pkg: PkgView,
}

impl View for PkgChange {
    type V = ChangeView;

    open spec fn view(&self) -> ChangeView {
        ChangeView { to: self.to@, pkg: self.pkg@ }
    }
}

impl Clone for PkgChange {
    fn clone(&self) -> (r: PkgChange)
        ensures
            r@ == self@,
    {
        PkgChange { to: self.to.clone(), pkg: self.pkg.clone() }
    }
}

impl ChangeView {
    /// The version string that replaces the declared one: the latest version
    /// behind the declared range prefix.
    pub open spec fn updated(self) -> Seq<char> {
        prefixed(self.pkg.prefix, self.to)
    }
}

/// The values of a list of changes.
pub open spec fn change_views(changes: Seq<PkgChange>) -> Seq<ChangeView> {
    changes.map_values(|c: PkgChange| c@)
}

/// The change that a lookup yields when the registry reports `latest`: none
/// where the declared numeric version is the latest already.
pub open spec fn change_of(pkg: PkgView, latest: Seq<char>) -> Option<ChangeView> {
    if latest != pkg.version {
        Some(ChangeView { to: latest, pkg })
    } else {
        None
    }
}

} // verus!
