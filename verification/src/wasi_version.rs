//! The versions of WASI a module can ask for.
#![allow(non_camel_case_types)]

use crate::runtime::{ImportDeclView, ImportKind, Module};
use vstd::prelude::*;
use vstd::string::StringExecFns;
use vstd::std_specs::convert::{FromSpecImpl, TryFromSpecImpl};

verus! {

/// The namespace of the functions of the first snapshot.
pub const SNAPSHOT0_NAMESPACE: &'static str = "wasi_unstable";

/// The namespace of the functions of the second snapshot.
pub const SNAPSHOT1_NAMESPACE: &'static str = "wasi_snapshot_preview1";

/// The version of WASI, as the runtime knows it.
#[derive(Debug, Clone, Copy, PartialEq, Eq, Structural)]
pub enum WasiVersion {
    /// `wasi_unstable`.
    Snapshot0,
    /// `wasi_snapshot_preview1`.
    Snapshot1,
    /// Whichever version is the newest the runtime has.
    Latest,
}

/// The version of WASI, as callers across the C boundary know it.
#[derive(Debug, Clone, Copy, PartialEq, Eq, Structural)]
pub enum wasi_version_t {
    Latest,
    Snapshot0,
    Snapshot1,
    InvalidVersion,
}

impl wasi_version_t {
    /// The number that stands for the version across the C boundary.
    pub open spec fn spec_raw(self) -> u32 {
        match self {
            wasi_version_t::Latest => 0,
            wasi_version_t::Snapshot0 => 1,
            wasi_version_t::Snapshot1 => 2,
            wasi_version_t::InvalidVersion => u32::MAX,
        }
    }

    /// The number that stands for the version across the C boundary.
    #[verifier::when_used_as_spec(spec_raw)]
    pub fn raw(self) -> (n: u32)
        ensures
            n == self.spec_raw(),
    {
        match self {
            wasi_version_t::Latest => 0,
            wasi_version_t::Snapshot0 => 1,
            wasi_version_t::Snapshot1 => 2,
            wasi_version_t::InvalidVersion => u32::MAX,
        }
    }

    /// The version a number stands for; any number that stands for none is
    /// the invalid version.
    pub fn from_raw(n: u32) -> (version: wasi_version_t)
        ensures
            n == 0 ==> version == wasi_version_t::Latest,
            n == 1 ==> version == wasi_version_t::Snapshot0,
            n == 2 ==> version == wasi_version_t::Snapshot1,
            n > 2 ==> version == wasi_version_t::InvalidVersion,
    {
        match n {
            0 => wasi_version_t::Latest,
            1 => wasi_version_t::Snapshot0,
            2 => wasi_version_t::Snapshot1,
            _ => wasi_version_t::InvalidVersion,
        }
    }

    /// The version the runtime knows this one as, if it knows it.
    pub open spec fn spec_known(self) -> Option<WasiVersion> {
        match self {
            wasi_version_t::Snapshot0 => Some(WasiVersion::Snapshot0),
            wasi_version_t::Snapshot1 => Some(WasiVersion::Snapshot1),
            wasi_version_t::Latest => Some(WasiVersion::Latest),
            wasi_version_t::InvalidVersion => None,
        }
    }
}

impl From<WasiVersion> for wasi_version_t {
    fn from(other: WasiVersion) -> (version: Self) {
        match other {
            WasiVersion::Snapshot0 => wasi_version_t::Snapshot0,
            WasiVersion::Snapshot1 => wasi_version_t::Snapshot1,
            WasiVersion::Latest => wasi_version_t::Latest,
        }
    }
}

impl FromSpecImpl<WasiVersion> for wasi_version_t {
    open spec fn obeys_from_spec() -> bool {
        true
    }

    open spec fn from_spec(other: WasiVersion) -> Self {
        spec_version_across(other)
    }
}

/// The version as callers across the C boundary know it.
pub open spec fn spec_version_across(version: WasiVersion) -> wasi_version_t {
    match version {
        WasiVersion::Snapshot0 => wasi_version_t::Snapshot0,
        WasiVersion::Snapshot1 => wasi_version_t::Snapshot1,
        WasiVersion::Latest => wasi_version_t::Latest,
    }
}

impl TryFrom<wasi_version_t> for WasiVersion {
    type Error = &'static str;

    fn try_from(other: wasi_version_t) -> (res: Result<Self, Self::Error>)
        ensures
            match other.spec_known() {
                Some(version) => res == Ok::<WasiVersion, &'static str>(version),
                None => res.is_err() && res.unwrap_err()@
                    == "Invalid WASI version cannot be used"@,
            },
    {
        Ok(
            match other {
                wasi_version_t::Snapshot0 => WasiVersion::Snapshot0,
                wasi_version_t::Snapshot1 => WasiVersion::Snapshot1,
                wasi_version_t::Latest => WasiVersion::Latest,
                wasi_version_t::InvalidVersion => {
                    return Err("Invalid WASI version cannot be used");
                },
            },
        )
    }
}

impl TryFromSpecImpl<wasi_version_t> for WasiVersion {
    open spec fn obeys_try_from_spec() -> bool {
        true
    }

    open spec fn try_from_spec(other: wasi_version_t) -> Result<Self, Self::Error> {
        match other.spec_known() {
            Some(version) => Ok(version),
            None => Err("Invalid WASI version cannot be used"),
        }
    }
}

/// A version survives the trip across the C boundary and back.
pub proof fn lemma_version_round_trip(version: WasiVersion)
    ensures
        spec_version_across(version).spec_known() == Some(version),
        spec_version_across(version) != wasi_version_t::InvalidVersion,
{
}

/// The version a namespace belongs to, if it is a namespace of WASI.
pub open spec fn spec_namespace_version(namespace: Seq<char>) -> Option<WasiVersion> {
    if namespace == SNAPSHOT0_NAMESPACE@ {
        Some(WasiVersion::Snapshot0)
    } else if namespace == SNAPSHOT1_NAMESPACE@ {
        Some(WasiVersion::Snapshot1)
    } else {
        None
    }
}

/// The version of the first function, among the first `upto` requests of a
/// module, that comes from a namespace of WASI.
pub open spec fn spec_first_wasi_version(imports: Seq<ImportDeclView>, upto: int) -> Option<
    WasiVersion,
>
    decreases upto,
{
    if upto <= 0 {
        None
    } else {
        match spec_first_wasi_version(imports, upto - 1) {
            Some(version) => Some(version),
            None => if imports[upto - 1].kind == ImportKind::Function {
                spec_namespace_version(imports[upto - 1].namespace)
            } else {
                None
            },
        }
    }
}

/// Once a version is found among the first requests, it stays the answer
/// however many more are looked at.
pub proof fn lemma_first_wasi_version_stays(imports: Seq<ImportDeclView>, upto: int, later: int)
    requires
        0 <= upto <= later,
        spec_first_wasi_version(imports, upto).is_some(),
    ensures
        spec_first_wasi_version(imports, later) == spec_first_wasi_version(imports, upto),
    decreases later - upto,
{
    if upto < later {
        lemma_first_wasi_version_stays(imports, upto, later - 1);
    }
}

/// The version a namespace belongs to, if it is a namespace of WASI.
pub fn namespace_version(namespace: &String) -> (version: Option<WasiVersion>)
    ensures
        version == spec_namespace_version(namespace@),
{
    let first = String::from_str(SNAPSHOT0_NAMESPACE);
    let second = String::from_str(SNAPSHOT1_NAMESPACE);
    if *namespace == first {
        Some(WasiVersion::Snapshot0)
    } else if *namespace == second {
        Some(WasiVersion::Snapshot1)
    } else {
        None
    }
}

/// The version of WASI a module asks for: that of the first function it
/// imports from a namespace of WASI. A module that imports none asks for no
/// version.
pub fn get_wasi_version(module: &Module) -> (version: Option<WasiVersion>)
    ensures
        version == spec_first_wasi_version(module@.imports, module@.imports.len() as int),
{
    let ghost imports = module@.imports;
    let mut i: usize = 0;
    while i < module.imports.len()
        invariant
            i <= module.imports@.len(),
            imports == module@.imports,
            imports.len() == module.imports@.len(),
            spec_first_wasi_version(imports, i as int).is_none(),
        decreases module.imports@.len() - i,
    {
        let decl = &module.imports[i];
        assert(imports[i as int] == decl@);
        if decl.kind == ImportKind::Function {
            match namespace_version(&decl.namespace) {
                Some(version) => {
                    proof {
                        lemma_first_wasi_version_stays(imports, i + 1, imports.len() as int);
                    }
                    return Some(version);
                },
                None => {},
            }
        }
        i = i + 1;
    }
    None
}

/// The version of WASI a module asks for, as callers across the C boundary
/// know it: the invalid version where the module asks for none.
pub fn wasi_version_of(module: &Module) -> (version: wasi_version_t)
    ensures
        match spec_first_wasi_version(module@.imports, module@.imports.len() as int) {
            Some(found) => version == spec_version_across(found),
            None => version == wasi_version_t::InvalidVersion,
        },
{
    match get_wasi_version(module) {
        Some(found) => wasi_version_t::from(found),
        None => wasi_version_t::InvalidVersion,
    }
}

} // verus!
