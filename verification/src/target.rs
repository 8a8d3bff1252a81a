//! Target configuration: the CPU features and the triple a module is
//! compiled for.
use target_lexicon::Triple;
use vstd::prelude::*;

verus! {

/// `target_lexicon::Triple`: carried through, never looked into.
#[verifier::external_type_specification]
#[verifier::external_body]
pub struct ExTriple(Triple);

/// `<Triple as Clone>::clone`: the clone that `derive` wrote for `Triple`,
/// which clones field by field. The copy is the triple.
#[verifier::external_body]
fn clone_triple(triple: &Triple) -> (copy: Triple)
    ensures
        copy == *triple,
{
    triple.clone()
}

/// The CPU features a compiler may rely on.
///
/// The names follow the `cpuid` nomenclature.
#[allow(missing_docs)]
#[derive(Clone, Copy, Debug, PartialEq, Eq, Hash, Structural)]
pub enum CpuFeature {
    // X86 features
    SSE2,
    SSE3,
    SSSE3,
    SSE41,
    SSE42,
    POPCNT,
    AVX,
    BMI1,
    BMI2,
    AVX2,
    AVX512DQ,
    AVX512VL,
    LZCNT,
}

/// How many features there are.
pub const CPU_FEATURE_COUNT: u16 = 13;

/// What `cpuid` says of each feature, as plain flags.
#[derive(Clone, Copy, Debug, PartialEq, Eq, Structural)]
pub struct CpuProbe {
    pub sse2: bool,
    pub sse3: bool,
    pub ssse3: bool,
    pub sse41: bool,
    pub sse42: bool,
    pub popcnt: bool,
    pub avx: bool,
    pub bmi1: bool,
    pub bmi2: bool,
    pub avx2: bool,
    pub avx512dq: bool,
    pub avx512vl: bool,
    pub lzcnt: bool,
}

/// What the leaf of `cpuid` that holds the basic features says of them.
#[derive(Clone, Copy, Debug, PartialEq, Eq, Structural)]
pub struct BasicFlags {
    pub sse2: bool,
    pub sse3: bool,
    pub ssse3: bool,
    pub sse41: bool,
    pub sse42: bool,
    pub popcnt: bool,
    pub avx: bool,
}

/// What the leaf of `cpuid` that holds the extended features says of them.
#[derive(Clone, Copy, Debug, PartialEq, Eq, Structural)]
pub struct ExtendedFlags {
    pub bmi1: bool,
    pub bmi2: bool,
    pub avx2: bool,
    pub avx512dq: bool,
    pub avx512vl: bool,
}

/// What the extended leaves of `cpuid` say of the features.
#[derive(Clone, Copy, Debug, PartialEq, Eq, Structural)]
pub struct FunctionFlags {
    pub lzcnt: bool,
}

/// A set of [`CpuFeature`]s, one bit each.
#[derive(Clone, Copy, Debug, PartialEq, Eq, Hash)]
pub struct CpuFeatureSet {
    bits: u16,
}

/// This is the target that we will use for compiling
/// the WebAssembly Module, and then run it.
#[derive(Debug, PartialEq, Eq, Hash)]
pub struct Target {
    triple: Triple,
    cpu_features: CpuFeatureSet,
}

pub proof fn lemma_bit_inserted(bits: u16, i: u16, j: u16)
    requires
        i < 13,
        j < 13,
    ensures
        ((bits | (1u16 << i)) & (1u16 << j) != 0) == (i == j || bits & (1u16 << j) != 0),
        bits <= 0x1fff ==> (bits | (1u16 << i)) <= 0x1fff,
{
    assert(((bits | (1u16 << i)) & (1u16 << j) != 0) == (i == j || bits & (1u16 << j) != 0))
        by (bit_vector)
        requires
            i < 13,
            j < 13,
    ;
    assert(bits <= 0x1fff ==> (bits | (1u16 << i)) <= 0x1fff) by (bit_vector)
        requires
            i < 13,
    ;
}

impl CpuFeature {
    /// The position of this feature in the enumeration.
    pub open spec fn spec_index(self) -> u16 {
        match self {
            CpuFeature::SSE2 => 0,
            CpuFeature::SSE3 => 1,
            CpuFeature::SSSE3 => 2,
            CpuFeature::SSE41 => 3,
            CpuFeature::SSE42 => 4,
            CpuFeature::POPCNT => 5,
            CpuFeature::AVX => 6,
            CpuFeature::BMI1 => 7,
            CpuFeature::BMI2 => 8,
            CpuFeature::AVX2 => 9,
            CpuFeature::AVX512DQ => 10,
            CpuFeature::AVX512VL => 11,
            CpuFeature::LZCNT => 12,
        }
    }

    /// The position of this feature in the enumeration.
    #[verifier::when_used_as_spec(spec_index)]
    pub fn index(self) -> (i: u16)
        ensures
            i == self.spec_index(),
            i < CPU_FEATURE_COUNT,
    {
        match self {
            CpuFeature::SSE2 => 0,
            CpuFeature::SSE3 => 1,
            CpuFeature::SSSE3 => 2,
            CpuFeature::SSE41 => 3,
            CpuFeature::SSE42 => 4,
            CpuFeature::POPCNT => 5,
            CpuFeature::AVX => 6,
            CpuFeature::BMI1 => 7,
            CpuFeature::BMI2 => 8,
            CpuFeature::AVX2 => 9,
            CpuFeature::AVX512DQ => 10,
            CpuFeature::AVX512VL => 11,
            CpuFeature::LZCNT => 12,
        }
    }

    /// The feature at a position, if there is one.
    pub fn from_index(i: u16) -> (f: Option<CpuFeature>)
        ensures
            i < CPU_FEATURE_COUNT ==> f.is_some() && f.unwrap().spec_index() == i,
            i >= CPU_FEATURE_COUNT ==> f.is_none(),
    {
        match i {
            0 => Some(CpuFeature::SSE2),
            1 => Some(CpuFeature::SSE3),
            2 => Some(CpuFeature::SSSE3),
            3 => Some(CpuFeature::SSE41),
            4 => Some(CpuFeature::SSE42),
            5 => Some(CpuFeature::POPCNT),
            6 => Some(CpuFeature::AVX),
            7 => Some(CpuFeature::BMI1),
            8 => Some(CpuFeature::BMI2),
            9 => Some(CpuFeature::AVX2),
            10 => Some(CpuFeature::AVX512DQ),
            11 => Some(CpuFeature::AVX512VL),
            12 => Some(CpuFeature::LZCNT),
            _ => None,
        }
    }

    /// Two features at the same position are the same feature.
    pub proof fn lemma_index_injective(f: CpuFeature, g: CpuFeature)
        ensures
            f.spec_index() < 13,
            f.spec_index() == g.spec_index() <==> f == g,
    {
    }
}

impl CpuProbe {
    /// A probe that found nothing.
    pub fn none() -> (probe: CpuProbe)
        ensures
            probe == Self::spec_from_leaves(None, None, None),
            probe.features() == Set::<CpuFeature>::empty(),
    {
        let probe = CpuProbe {
            sse2: false,
            sse3: false,
            ssse3: false,
            sse41: false,
            sse42: false,
            popcnt: false,
            avx: false,
            bmi1: false,
            bmi2: false,
            avx2: false,
            avx512dq: false,
            avx512vl: false,
            lzcnt: false,
        };
        assert(probe.features() =~= Set::<CpuFeature>::empty());
        probe
    }

    /// Whether the probe found this feature.
    pub open spec fn has(self, f: CpuFeature) -> bool {
        match f {
            CpuFeature::SSE2 => self.sse2,
            CpuFeature::SSE3 => self.sse3,
            CpuFeature::SSSE3 => self.ssse3,
            CpuFeature::SSE41 => self.sse41,
            CpuFeature::SSE42 => self.sse42,
            CpuFeature::POPCNT => self.popcnt,
            CpuFeature::AVX => self.avx,
            CpuFeature::BMI1 => self.bmi1,
            CpuFeature::BMI2 => self.bmi2,
            CpuFeature::AVX2 => self.avx2,
            CpuFeature::AVX512DQ => self.avx512dq,
            CpuFeature::AVX512VL => self.avx512vl,
            CpuFeature::LZCNT => self.lzcnt,
        }
    }

    /// Whether the probe found this feature.
    #[verifier::when_used_as_spec(has)]
    pub fn found(self, f: CpuFeature) -> (flag: bool)
        ensures
            flag == self.has(f),
    {
        match f {
            CpuFeature::SSE2 => self.sse2,
            CpuFeature::SSE3 => self.sse3,
            CpuFeature::SSSE3 => self.ssse3,
            CpuFeature::SSE41 => self.sse41,
            CpuFeature::SSE42 => self.sse42,
            CpuFeature::POPCNT => self.popcnt,
            CpuFeature::AVX => self.avx,
            CpuFeature::BMI1 => self.bmi1,
            CpuFeature::BMI2 => self.bmi2,
            CpuFeature::AVX2 => self.avx2,
            CpuFeature::AVX512DQ => self.avx512dq,
            CpuFeature::AVX512VL => self.avx512vl,
            CpuFeature::LZCNT => self.lzcnt,
        }
    }

    /// The features the probe found.
    pub open spec fn features(self) -> Set<CpuFeature> {
        Set::new(|f: CpuFeature| self.has(f))
    }

    /// The probe that three leaves of `cpuid` make. Each leaf, where the
    /// processor has it, sets its own flags as it says; a leaf the
    /// processor lacks leaves its flags unset.
    pub open spec fn spec_from_leaves(
        basic: Option<BasicFlags>,
        extended: Option<ExtendedFlags>,
        function: Option<FunctionFlags>,
    ) -> CpuProbe {
        CpuProbe {
            sse2: basic matches Some(flags) && flags.sse2,
            sse3: basic matches Some(flags) && flags.sse3,
            ssse3: basic matches Some(flags) && flags.ssse3,
            sse41: basic matches Some(flags) && flags.sse41,
            sse42: basic matches Some(flags) && flags.sse42,
            popcnt: basic matches Some(flags) && flags.popcnt,
            avx: basic matches Some(flags) && flags.avx,
            bmi1: extended matches Some(flags) && flags.bmi1,
            bmi2: extended matches Some(flags) && flags.bmi2,
            avx2: extended matches Some(flags) && flags.avx2,
            avx512dq: extended matches Some(flags) && flags.avx512dq,
            avx512vl: extended matches Some(flags) && flags.avx512vl,
            lzcnt: function matches Some(flags) && flags.lzcnt,
        }
    }

    /// The probe that three leaves of `cpuid` make.
    #[verifier::when_used_as_spec(spec_from_leaves)]
    pub fn from_leaves(
        basic: Option<BasicFlags>,
        extended: Option<ExtendedFlags>,
        function: Option<FunctionFlags>,
    ) -> (probe: CpuProbe)
        ensures
            probe == Self::spec_from_leaves(basic, extended, function),
    {
        let mut probe = CpuProbe::none();
        if let Some(flags) = basic {
            probe.sse2 = flags.sse2;
            probe.sse3 = flags.sse3;
            probe.ssse3 = flags.ssse3;
            probe.sse41 = flags.sse41;
            probe.sse42 = flags.sse42;
            probe.popcnt = flags.popcnt;
            probe.avx = flags.avx;
        }
        if let Some(flags) = extended {
            probe.bmi1 = flags.bmi1;
            probe.bmi2 = flags.bmi2;
            probe.avx2 = flags.avx2;
            probe.avx512dq = flags.avx512dq;
            probe.avx512vl = flags.avx512vl;
        }
        if let Some(flags) = function {
            probe.lzcnt = flags.lzcnt;
        }
        probe
    }
}

impl View for CpuFeatureSet {
    type V = Set<CpuFeature>;

    closed spec fn view(&self) -> Set<CpuFeature> {
        Set::new(|f: CpuFeature| self.bits & (1u16 << f.spec_index()) != 0)
    }
}

impl CpuFeatureSet {
    /// Only the bits of known features are ever set.
    pub closed spec fn well_formed(self) -> bool {
        self.bits <= 0x1fff
    }

    /// The empty set.
    pub fn new() -> (set: CpuFeatureSet)
        ensures
            set.well_formed(),
            set@ == Set::<CpuFeature>::empty(),
    {
        let set = CpuFeatureSet { bits: 0 };
        assert forall|f: CpuFeature| !set@.contains(f) by {
            let i = f.spec_index();
            assert(0u16 & (1u16 << i) == 0) by (bit_vector);
        }
        assert(set@ =~= Set::<CpuFeature>::empty());
        set
    }

    /// Adds a feature. Returns whether it was absent before.
    pub fn insert(&mut self, feature: CpuFeature) -> (added: bool)
        ensures
            final(self)@ == old(self)@.insert(feature),
            added == !old(self)@.contains(feature),
            old(self).well_formed() ==> final(self).well_formed(),
    {
        let i = feature.index();
        let mask: u16 = 1u16 << i;
        let added = self.bits & mask == 0;
        let ghost before = *self;
        self.bits = self.bits | mask;
        proof {
            lemma_bit_inserted(before.bits, i, i);
            assert forall|g: CpuFeature| self@.contains(g) == before@.insert(feature).contains(
                g,
            ) by {
                CpuFeature::lemma_index_injective(feature, g);
                lemma_bit_inserted(before.bits, i, g.spec_index());
            }
            assert(self@ =~= before@.insert(feature));
        }
        added
    }

    /// Whether the set holds a feature.
    pub fn contains(&self, feature: CpuFeature) -> (found: bool)
        ensures
            found == self@.contains(feature),
    {
        let i = feature.index();
        self.bits & (1u16 << i) != 0
    }

    /// The set of the features a probe found.
    pub fn from_probe(probe: &CpuProbe) -> (set: CpuFeatureSet)
        ensures
            set.well_formed(),
            set@ == probe.features(),
    {
        let mut set = CpuFeatureSet::new();
        let mut i: u16 = 0;
        while i < CPU_FEATURE_COUNT
            invariant
                i <= CPU_FEATURE_COUNT,
                set.well_formed(),
                forall|f: CpuFeature|
                    #![trigger set@.contains(f)]
                    set@.contains(f) == (f.spec_index() < i && probe.has(f)),
            decreases CPU_FEATURE_COUNT - i,
        {
            if let Some(feature) = CpuFeature::from_index(i) {
                if probe.found(feature) {
                    set.insert(feature);
                }
                proof {
                    assert forall|f: CpuFeature|
                        #![trigger set@.contains(f)]
                        set@.contains(f) == (f.spec_index() < i + 1 && probe.has(f)) by {
                        CpuFeature::lemma_index_injective(feature, f);
                    }
                }
            }
            i = i + 1;
        }
        proof {
            assert forall|f: CpuFeature| set@.contains(f) == probe.features().contains(f) by {
                CpuFeature::lemma_index_injective(f, f);
            }
            assert(set@ =~= probe.features());
        }
        set
    }
}

impl Target {
    /// Creates a new target given a triple
    pub fn new(triple: Triple, cpu_features: CpuFeatureSet) -> (target: Self)
        ensures
            target.spec_triple() == triple,
            target.spec_cpu_features() == cpu_features,
    {
        Self { triple, cpu_features }
    }

    pub closed spec fn spec_triple(&self) -> Triple {
        self.triple
    }

    pub closed spec fn spec_cpu_features(&self) -> CpuFeatureSet {
        self.cpu_features
    }

    /// The triple associated for the target.
    pub fn triple(&self) -> (triple: &Triple)
        ensures
            *triple == self.spec_triple(),
    {
        &self.triple
    }

    /// The features associated for the target.
    pub fn cpu_features(&self) -> (features: &CpuFeatureSet)
        ensures
            *features == self.spec_cpu_features(),
    {
        &self.cpu_features
    }
}

impl Clone for Target {
    fn clone(&self) -> (copy: Self)
        ensures
            copy.spec_triple() == self.spec_triple(),
            copy.spec_cpu_features() == self.spec_cpu_features(),
    {
        Target { triple: clone_triple(&self.triple), cpu_features: self.cpu_features }
    }
}

} // verus!
