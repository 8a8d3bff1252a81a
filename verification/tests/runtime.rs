use wasmer_journal::capture::OutputCapturer;
use wasmer_journal::runtime::{
    compile, compile_with, resolve_imports, Compiler, Import, ImportDecl, ImportKind, Imports, Instance,
    LinkError, Module, PAGE_BYTES,
};
use wasmer_journal::target::{
    BasicFlags, CpuFeature, CpuFeatureSet, CpuProbe, ExtendedFlags, FunctionFlags, Target,
};
use wasmer_journal::wasi_state::{WasiStateBuilder, WasiStateCreationError};
use wasmer_journal::wasi_version::{get_wasi_version, wasi_version_of, wasi_version_t, WasiVersion};

/// Reads a module from text: the first line is the number of pages, each
/// other line is `kind namespace name`.
struct TextCompiler;

impl Compiler for TextCompiler {
    fn compile(&self, wasm: &[u8]) -> Result<Module, String> {
        let text = std::str::from_utf8(wasm).map_err(|_| "not text".to_string())?;
        let mut lines = text.lines();
        let memory_pages = lines.next().ok_or("empty")?.parse().map_err(|_| "no pages")?;
        let mut imports = Vec::new();
        for line in lines {
            let parts: Vec<&str> = line.split(' ').collect();
            if parts.len() != 3 {
                return Err(format!("bad import: {}", line));
            }
            let kind = match parts[0] {
                "func" => ImportKind::Function,
                "table" => ImportKind::Table,
                "memory" => ImportKind::Memory,
                "global" => ImportKind::Global,
                _ => return Err(format!("bad kind: {}", parts[0])),
            };
            imports.push(ImportDecl {
                namespace: parts[1].to_string(),
                name: parts[2].to_string(),
                kind,
            });
        }
        Ok(Module { imports, memory_pages })
    }
}

fn host() -> Imports {
    let mut imports = Imports::new();
    let f = |handle| Import { kind: ImportKind::Function, handle };
    imports.add("env".to_string(), "print".to_string(), f(1));
    imports.add("env".to_string(), "mem".to_string(), Import { kind: ImportKind::Memory, handle: 2 });
    imports.add("wasi_unstable".to_string(), "fd_write".to_string(), f(3));
    // the later import under a name counts
    imports.add("env".to_string(), "print".to_string(), f(4));
    imports
}

#[test]
fn compile_links_a_module_with_what_the_host_provides() {
    let wasm = b"1\nfunc env print\nmemory env mem\nfunc wasi_unstable fd_write";
    let instance = compile(&TextCompiler, wasm, &host()).unwrap();
    assert_eq!(
        instance.imports,
        vec![
            Import { kind: ImportKind::Function, handle: 4 },
            Import { kind: ImportKind::Memory, handle: 2 },
            Import { kind: ImportKind::Function, handle: 3 },
        ]
    );
    assert_eq!(instance.memory, vec![0u8; PAGE_BYTES]);
    assert_eq!(instance.module.memory_pages, 1);
    // a caller that knows its compiler by type gets the same
    assert_eq!(
        compile_with(&TextCompiler, wasm, &host()),
        compile(&TextCompiler, wasm, &host())
    );
    assert_eq!(
        compile_with(&TextCompiler, b"1\nfunc env", &host()),
        Err("bad import: func env".to_string())
    );
    let none = compile(&TextCompiler, b"0", &Imports::new()).unwrap();
    assert_eq!(*none, Instance { module: Module { imports: vec![], memory_pages: 0 }, imports: vec![], memory: vec![] });
}

#[test]
fn compile_says_what_went_wrong() {
    // the compiler's complaint comes through as it is
    assert_eq!(compile(&TextCompiler, b"1\nfunc env", &host()), Err("bad import: func env".to_string()));
    assert_eq!(compile(&TextCompiler, &[0xff], &host()), Err("not text".to_string()));
    // the first request without an answer is named
    assert_eq!(
        compile(&TextCompiler, b"1\nfunc env print\nfunc env missing\nfunc no where", &host()),
        Err("import not found: env:missing".to_string())
    );
    assert_eq!(
        compile(&TextCompiler, b"1\nfunc env mem", &host()),
        Err("incorrect import type: env:mem".to_string())
    );
}

#[test]
fn imports_are_resolved_in_the_order_of_the_requests() {
    let module = TextCompiler.compile(b"0\nmemory env mem\nglobal env print\nfunc a b").unwrap();
    assert_eq!(resolve_imports(&module, &host()), Err(LinkError::WrongKind { index: 1 }));
    assert_eq!(resolve_imports(&module, &Imports::new()), Err(LinkError::NotFound { index: 0 }));
    assert_eq!(
        host().get(&"env".to_string(), &"print".to_string()),
        Some(Import { kind: ImportKind::Function, handle: 4 })
    );
    assert_eq!(host().get(&"env".to_string(), &"nothing".to_string()), None);
}

#[test]
fn the_wasi_version_of_a_module() {
    let version = |wasm: &[u8]| get_wasi_version(&TextCompiler.compile(wasm).unwrap());
    assert_eq!(version(b"0\nfunc env print\nfunc wasi_unstable fd_write"), Some(WasiVersion::Snapshot0));
    assert_eq!(
        version(b"0\nfunc wasi_snapshot_preview1 fd_write\nfunc wasi_unstable fd_write"),
        Some(WasiVersion::Snapshot1)
    );
    // only functions count
    assert_eq!(version(b"0\nmemory wasi_unstable memory"), None);
    assert_eq!(version(b"0\nfunc env print"), None);
    let across = |wasm: &[u8]| wasi_version_of(&TextCompiler.compile(wasm).unwrap());
    assert_eq!(across(b"0\nfunc wasi_unstable fd_write"), wasi_version_t::Snapshot0);
    assert_eq!(across(b"0"), wasi_version_t::InvalidVersion);
}

#[test]
fn versions_cross_the_c_boundary() {
    for version in [WasiVersion::Snapshot0, WasiVersion::Snapshot1, WasiVersion::Latest] {
        let across = wasi_version_t::from(version);
        assert_eq!(WasiVersion::try_from(across), Ok(version));
        assert_eq!(wasi_version_t::from_raw(across.raw()), across);
    }
    assert_eq!(wasi_version_t::from(WasiVersion::Latest), wasi_version_t::Latest);
    assert_eq!(wasi_version_t::Latest.raw(), 0);
    assert_eq!(wasi_version_t::Snapshot0.raw(), 1);
    assert_eq!(wasi_version_t::Snapshot1.raw(), 2);
    assert_eq!(wasi_version_t::InvalidVersion.raw(), u32::MAX);
    assert_eq!(wasi_version_t::from_raw(3), wasi_version_t::InvalidVersion);
    assert_eq!(
        WasiVersion::try_from(wasi_version_t::InvalidVersion),
        Err("Invalid WASI version cannot be used")
    );
}

#[test]
fn feature_sets() {
    let mut set = CpuFeatureSet::new();
    assert!(!set.contains(CpuFeature::AVX));
    assert!(set.insert(CpuFeature::AVX));
    assert!(!set.insert(CpuFeature::AVX));
    assert!(set.insert(CpuFeature::LZCNT));
    assert!(set.contains(CpuFeature::AVX));
    assert!(set.contains(CpuFeature::LZCNT));
    assert!(!set.contains(CpuFeature::SSE2));
    for i in 0..13 {
        assert_eq!(CpuFeature::from_index(i).unwrap().index(), i);
    }
    assert_eq!(CpuFeature::from_index(13), None);
    assert_eq!(CpuFeature::SSE2.index(), 0);
    assert_eq!(CpuFeature::LZCNT.index(), 12);
}

#[test]
fn features_follow_the_probe() {
    let mut probe = CpuProbe::none();
    assert_eq!(CpuFeatureSet::from_probe(&probe), CpuFeatureSet::new());
    probe.sse42 = true;
    probe.bmi2 = true;
    probe.lzcnt = true;
    let set = CpuFeatureSet::from_probe(&probe);
    for i in 0..13 {
        let feature = CpuFeature::from_index(i).unwrap();
        assert_eq!(set.contains(feature), probe.found(feature));
        assert_eq!(
            set.contains(feature),
            matches!(feature, CpuFeature::SSE42 | CpuFeature::BMI2 | CpuFeature::LZCNT)
        );
    }
}

#[test]
fn a_probe_is_what_the_leaves_say() {
    let basic = BasicFlags {
        sse2: true,
        sse3: false,
        ssse3: true,
        sse41: false,
        sse42: true,
        popcnt: false,
        avx: true,
    };
    let extended =
        ExtendedFlags { bmi1: false, bmi2: true, avx2: false, avx512dq: true, avx512vl: false };
    let function = FunctionFlags { lzcnt: true };
    // a leaf the processor lacks leaves its flags unset
    assert_eq!(CpuProbe::from_leaves(None, None, None), CpuProbe::none());
    let only_basic = CpuProbe::from_leaves(Some(basic), None, None);
    assert!(only_basic.sse2 && only_basic.ssse3 && only_basic.sse42 && only_basic.avx);
    assert!(!only_basic.sse3 && !only_basic.sse41 && !only_basic.popcnt);
    assert!(!only_basic.bmi2 && !only_basic.avx512dq && !only_basic.lzcnt);
    let only_function = CpuProbe::from_leaves(None, None, Some(function));
    assert_eq!(only_function, CpuProbe { lzcnt: true, ..CpuProbe::none() });
    let all = CpuProbe::from_leaves(Some(basic), Some(extended), Some(function));
    assert_eq!(
        all,
        CpuProbe {
            sse2: true,
            sse3: false,
            ssse3: true,
            sse41: false,
            sse42: true,
            popcnt: false,
            avx: true,
            bmi1: false,
            bmi2: true,
            avx2: false,
            avx512dq: true,
            avx512vl: false,
            lzcnt: true,
        }
    );
    let features = CpuFeatureSet::from_probe(&all);
    assert!(features.contains(CpuFeature::SSE2));
    assert!(features.contains(CpuFeature::BMI2));
    assert!(features.contains(CpuFeature::LZCNT));
    assert!(!features.contains(CpuFeature::AVX2));
}

#[test]
fn a_target_holds_its_triple_and_its_features() {
    let mut features = CpuFeatureSet::new();
    features.insert(CpuFeature::AVX);
    let target = Target::new(target_lexicon::Triple::host(), features);
    assert_eq!(*target.cpu_features(), features);
    assert_eq!(*target.triple(), target_lexicon::Triple::host());
    let copy = target.clone();
    assert_eq!(copy, target);
    let other = Target::new(target_lexicon::Triple::unknown(), CpuFeatureSet::new());
    assert_eq!(*other.triple(), target_lexicon::Triple::unknown());
    assert_eq!(*other.cpu_features(), CpuFeatureSet::new());
    assert!(other != target);
}

#[test]
fn a_capturer_hands_out_what_it_kept() {
    let mut capturer = OutputCapturer::new();
    assert_eq!(capturer.write(b"hello "), 6);
    assert_eq!(capturer.write(b"world"), 5);
    assert_eq!(capturer.len(), 11);
    assert_eq!(capturer.read_at(5, 0), b"hello".to_vec());
    assert_eq!(capturer.read_at(100, 6), b"world".to_vec());
    assert_eq!(capturer.read_at(3, 6), b"wor".to_vec());
    assert_eq!(capturer.read_at(3, 11), Vec::<u8>::new());
    assert_eq!(capturer.read_at(0, 2), Vec::<u8>::new());
}

#[test]
fn a_state_is_built_from_arguments_and_environment() {
    let mut builder = WasiStateBuilder::new(b"prog");
    builder.arg(b"-v");
    builder.env(b"HOME", b"/root");
    builder.env(b"EMPTY", b"");
    let state = builder.build().unwrap();
    assert_eq!(state.args(), &vec![b"prog".to_vec(), b"-v".to_vec()]);
    assert_eq!(state.envs(), &vec![b"HOME=/root".to_vec(), b"EMPTY=".to_vec()]);
    assert_eq!(state.args_bytes(), b"prog\0-v\0".to_vec());
    assert_eq!(state.environ_bytes(), b"HOME=/root\0EMPTY=\0".to_vec());
}

#[test]
fn a_state_that_cannot_be_laid_out_is_refused() {
    let refused = |build: &dyn Fn(&mut WasiStateBuilder)| {
        let mut builder = WasiStateBuilder::new(b"prog");
        build(&mut builder);
        builder.build().map(|_| ()).unwrap_err()
    };
    let env = WasiStateCreationError::EnvironmentVariableFormatError;
    assert_eq!(refused(&|b| b.arg(b"a\0b")), WasiStateCreationError::ArgumentContainsNulByte);
    assert_eq!(refused(&|b| b.env(b"A=B", b"c")), env);
    assert_eq!(refused(&|b| b.env(b"A\0", b"c")), env);
    assert_eq!(refused(&|b| b.env(b"A", b"c\0")), env);
    // arguments are looked at first
    assert_eq!(
        refused(&|b| {
            b.env(b"=", b"");
            b.arg(b"\0")
        }),
        WasiStateCreationError::ArgumentContainsNulByte
    );
    // a value may hold `=`
    let mut fine = WasiStateBuilder::new(b"prog");
    fine.env(b"A", b"b=c");
    assert!(fine.build().is_ok());
}
