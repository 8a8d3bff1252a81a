//! Compiling a module and linking it with what the host provides.
use vstd::prelude::*;
use vstd::string::StringExecFns;

verus! {

/// How many bytes one page of linear memory holds.
pub const PAGE_BYTES: usize = 65536;

/// What an import is.
#[derive(Clone, Copy, Debug, PartialEq, Eq, Structural)]
pub enum ImportKind {
    Function,
    Table,
    Memory,
    Global,
}

/// Something the host provides to a module: its kind and the handle the
/// host knows it by.
#[derive(Clone, Copy, Debug, PartialEq, Eq, Structural)]
pub struct Import {
    pub kind: ImportKind,
    pub handle: u64,
}

/// Something a module asks the host for.
#[derive(Debug, PartialEq, Eq)]
pub struct ImportDecl {
    pub namespace: String,
    pub name: String,
    pub kind: ImportKind,
}

/// What a module asks for, read as sequences.
pub struct ImportDeclView {
    pub namespace: Seq<char>,
    pub name: Seq<char>,
    pub kind: ImportKind,
}

/// A compiled module: what it asks the host for and how many pages of
/// linear memory it starts with.
#[derive(Debug, PartialEq, Eq)]
pub struct Module {
    pub imports: Vec<ImportDecl>,
    pub memory_pages: u16,
}

/// What a module is, read as sequences.
pub struct ModuleView {
    pub imports: Seq<ImportDeclView>,
    pub memory_pages: u16,
}

/// An import under the name the host provides it by.
#[derive(Debug, PartialEq, Eq)]
pub struct NamedImport {
    pub namespace: String,
    pub name: String,
    pub import: Import,
}

/// A named import, read as sequences.
pub struct NamedImportView {
    pub namespace: Seq<char>,
    pub name: Seq<char>,
    pub import: Import,
}

/// All the host provides. Of two imports added under one name the later
/// one counts.
#[derive(Debug, PartialEq, Eq)]
pub struct Imports {
    entries: Vec<NamedImport>,
}

/// An instantiated module: the module, the import that answers each of its
/// requests, and its linear memory.
#[derive(Debug, PartialEq, Eq)]
pub struct Instance {
    pub module: Module,
    pub imports: Vec<Import>,
    pub memory: Vec<u8>,
}

/// What an instance is, read as sequences.
pub struct InstanceView {
    pub module: ModuleView,
    pub imports: Seq<Import>,
    pub memory: Seq<u8>,
}

/// Why a module could not be linked: the request that failed, by its
/// position among the requests of the module.
#[derive(Clone, Copy, Debug, PartialEq, Eq, Structural)]
pub enum LinkError {
    /// The host provides nothing under the name.
    NotFound { index: usize },
    /// The host provides something of another kind under the name.
    WrongKind { index: usize },
}

impl View for ImportDecl {
    type V = ImportDeclView;

    open spec fn view(&self) -> ImportDeclView {
        ImportDeclView { namespace: self.namespace@, name: self.name@, kind: self.kind }
    }
}

impl View for NamedImport {
    type V = NamedImportView;

    open spec fn view(&self) -> NamedImportView {
        NamedImportView { namespace: self.namespace@, name: self.name@, import: self.import }
    }
}

impl View for Module {
    type V = ModuleView;

    open spec fn view(&self) -> ModuleView {
        ModuleView {
            imports: Seq::new(self.imports@.len(), |i: int| self.imports@[i]@),
            memory_pages: self.memory_pages,
        }
    }
}

impl View for Imports {
    type V = Seq<NamedImportView>;

    closed spec fn view(&self) -> Seq<NamedImportView> {
        Seq::new(self.entries@.len(), |i: int| self.entries@[i]@)
    }
}

impl View for Instance {
    type V = InstanceView;

    open spec fn view(&self) -> InstanceView {
        InstanceView { module: self.module@, imports: self.imports@, memory: self.memory@ }
    }
}

/// What the host provides under a name: the import added last under it.
pub open spec fn spec_lookup(
    env: Seq<NamedImportView>,
    namespace: Seq<char>,
    name: Seq<char>,
) -> Option<Import>
    decreases env.len(),
{
    if env.len() == 0 {
        None
    } else if env.last().namespace == namespace && env.last().name == name {
        Some(env.last().import)
    } else {
        spec_lookup(env.drop_last(), namespace, name)
    }
}

/// Why a request cannot be answered, if it cannot.
pub open spec fn spec_fault_of(decl: ImportDeclView, env: Seq<NamedImportView>, index: int) -> Option<
    LinkError,
> {
    match spec_lookup(env, decl.namespace, decl.name) {
        None => Some(LinkError::NotFound { index: index as usize }),
        Some(import) => if import.kind == decl.kind {
            None
        } else {
            Some(LinkError::WrongKind { index: index as usize })
        },
    }
}

/// The first fault among the first `upto` requests, if there is one.
pub open spec fn spec_link_fault(
    decls: Seq<ImportDeclView>,
    env: Seq<NamedImportView>,
    upto: int,
) -> Option<LinkError>
    decreases upto,
{
    if upto <= 0 {
        None
    } else {
        match spec_link_fault(decls, env, upto - 1) {
            Some(fault) => Some(fault),
            None => spec_fault_of(decls[upto - 1], env, upto - 1),
        }
    }
}

/// The import that answers each request.
pub open spec fn spec_resolved(decls: Seq<ImportDeclView>, env: Seq<NamedImportView>) -> Seq<
    Import,
> {
    Seq::new(decls.len(), |i: int| spec_lookup(env, decls[i].namespace, decls[i].name).unwrap())
}

/// Links the requests of a module with what the host provides: the import
/// that answers each request, or the first request that has no answer.
pub open spec fn spec_resolve(decls: Seq<ImportDeclView>, env: Seq<NamedImportView>) -> Result<
    Seq<Import>,
    LinkError,
> {
    match spec_link_fault(decls, env, decls.len() as int) {
        Some(fault) => Err(fault),
        None => Ok(spec_resolved(decls, env)),
    }
}

/// What the caller is told when linking fails.
pub open spec fn spec_link_message(decls: Seq<ImportDeclView>, fault: LinkError) -> Seq<char> {
    match fault {
        LinkError::NotFound { index } => "import not found: "@ + decls[index as int].namespace
            + ":"@ + decls[index as int].name,
        LinkError::WrongKind { index } => "incorrect import type: "@ + decls[index as int].namespace
            + ":"@ + decls[index as int].name,
    }
}

/// The linear memory a module starts with: its pages, all zero.
pub open spec fn spec_fresh_memory(pages: u16) -> Seq<u8> {
    Seq::new((pages as nat) * (PAGE_BYTES as nat), |i: int| 0u8)
}

/// What instantiating a module gives: the instance, or what the caller is
/// told.
pub open spec fn spec_instantiate(module: ModuleView, env: Seq<NamedImportView>) -> Result<
    InstanceView,
    Seq<char>,
> {
    match spec_resolve(module.imports, env) {
        Err(fault) => Err(spec_link_message(module.imports, fault)),
        Ok(imports) => if (module.memory_pages as nat) * (PAGE_BYTES as nat) > usize::MAX {
            Err("linear memory does not fit the address space"@)
        } else {
            Ok(InstanceView { module, imports, memory: spec_fresh_memory(module.memory_pages) })
        },
    }
}

/// What compiling and instantiating gives, given what the compiler made of
/// the bytes.
pub open spec fn spec_compile(
    compiled: Result<ModuleView, Seq<char>>,
    env: Seq<NamedImportView>,
) -> Result<InstanceView, Seq<char>> {
    match compiled {
        Err(message) => Err(message),
        Ok(module) => spec_instantiate(module, env),
    }
}

/// A compiler backend: turns the bytes of a WebAssembly module into a
/// module that can be instantiated.
pub trait Compiler {
    /// What this compiler makes of the bytes: a module, or its complaint.
    open spec fn compiled(&self, wasm: Seq<u8>) -> Result<ModuleView, Seq<char>> {
        arbitrary()
    }

    /// Compiles the bytes.
    fn compile(&self, wasm: &[u8]) -> (res: Result<Module, String>)
        ensures
            match self.compiled(wasm@) {
                Ok(module) => res.is_ok() && res.unwrap()@ == module,
                Err(message) => res.is_err() && res.unwrap_err()@ == message,
            },
    ;
}

impl Imports {
    /// Nothing provided yet.
    pub fn new() -> (imports: Imports)
        ensures
            imports@ == Seq::<NamedImportView>::empty(),
    {
        let imports = Imports { entries: Vec::new() };
        assert(imports@ =~= Seq::<NamedImportView>::empty());
        imports
    }

    /// Provides an import under a name. It takes the place of any import
    /// provided under that name before.
    pub fn add(&mut self, namespace: String, name: String, import: Import)
        ensures
            final(self)@ == old(self)@.push(
                NamedImportView { namespace: namespace@, name: name@, import },
            ),
    {
        self.entries.push(NamedImport { namespace, name, import });
        assert(self@ =~= old(self)@.push(
            NamedImportView { namespace: namespace@, name: name@, import },
        ));
    }

    /// What is provided under a name.
    pub fn get(&self, namespace: &String, name: &String) -> (found: Option<Import>)
        ensures
            found == spec_lookup(self@, namespace@, name@),
    {
        let mut i: usize = self.entries.len();
        assert(self@.take(i as int) =~= self@);
        while i > 0
            invariant
                i <= self.entries@.len(),
                spec_lookup(self@, namespace@, name@) == spec_lookup(
                    self@.take(i as int),
                    namespace@,
                    name@,
                ),
            decreases i,
        {
            let ghost front = self@.take(i as int);
            i = i - 1;
            let entry = &self.entries[i];
            assert(front.last() == entry@);
            assert(front.drop_last() =~= self@.take(i as int));
            if entry.namespace == *namespace && entry.name == *name {
                return Some(entry.import);
            }
        }
        assert(self@.take(0) =~= Seq::<NamedImportView>::empty());
        None
    }
}

/// Links the requests of a module with what the host provides.
pub fn resolve_imports(module: &Module, imports: &Imports) -> (res: Result<Vec<Import>, LinkError>)
    ensures
        match spec_resolve(module@.imports, imports@) {
            Ok(resolved) => res.is_ok() && res.unwrap()@ == resolved,
            Err(fault) => res == Err::<Vec<Import>, LinkError>(fault),
        },
{
    let ghost decls = module@.imports;
    let mut resolved: Vec<Import> = Vec::new();
    let mut i: usize = 0;
    while i < module.imports.len()
        invariant
            i <= module.imports@.len(),
            decls == module@.imports,
            decls.len() == module.imports@.len(),
            spec_link_fault(decls, imports@, i as int).is_none(),
            resolved@ == spec_resolved(decls, imports@).take(i as int),
        decreases module.imports@.len() - i,
    {
        let decl = &module.imports[i];
        assert(decls[i as int] == decl@);
        match imports.get(&decl.namespace, &decl.name) {
            None => {
                proof {
                    lemma_link_fault_stays(decls, imports@, i + 1, decls.len() as int);
                }
                return Err(LinkError::NotFound { index: i });
            },
            Some(import) => {
                if import.kind != decl.kind {
                    proof {
                        lemma_link_fault_stays(decls, imports@, i + 1, decls.len() as int);
                    }
                    return Err(LinkError::WrongKind { index: i });
                }
                resolved.push(import);
            },
        }
        i = i + 1;
        assert(resolved@ =~= spec_resolved(decls, imports@).take(i as int));
    }
    assert(resolved@ =~= spec_resolved(decls, imports@));
    Ok(resolved)
}

/// Once a fault is found among the first requests, it stays the first
/// fault however many more are looked at.
pub proof fn lemma_link_fault_stays(
    decls: Seq<ImportDeclView>,
    env: Seq<NamedImportView>,
    upto: int,
    later: int,
)
    requires
        0 <= upto <= later,
        spec_link_fault(decls, env, upto).is_some(),
    ensures
        spec_link_fault(decls, env, later) == spec_link_fault(decls, env, upto),
    decreases later - upto,
{
    if upto < later {
        lemma_link_fault_stays(decls, env, upto, later - 1);
    }
}

/// What the caller is told when linking fails.
pub fn link_message(module: &Module, fault: LinkError) -> (message: String)
    requires
        match fault {
            LinkError::NotFound { index } => index < module.imports@.len(),
            LinkError::WrongKind { index } => index < module.imports@.len(),
        },
    ensures
        message@ == spec_link_message(module@.imports, fault),
{
    match fault {
        LinkError::NotFound { index } => {
            let decl = &module.imports[index];
            let mut message = String::from_str("import not found: ");
            message.append(decl.namespace.as_str());
            message.append(":");
            message.append(decl.name.as_str());
            message
        },
        LinkError::WrongKind { index } => {
            let decl = &module.imports[index];
            let mut message = String::from_str("incorrect import type: ");
            message.append(decl.namespace.as_str());
            message.append(":");
            message.append(decl.name.as_str());
            message
        },
    }
}

/// A run of zero bytes.
pub fn zeroed(len: usize) -> (bytes: Vec<u8>)
    ensures
        bytes@ == Seq::new(len as nat, |i: int| 0u8),
{
    let bytes = vec![0u8; len];
    assert(bytes@ =~= Seq::new(len as nat, |i: int| 0u8));
    bytes
}

impl Instance {
    /// Instantiates a module: links each of its requests with what the
    /// host provides and gives it its linear memory, all zero.
    pub fn new(module: Module, imports: &Imports) -> (res: Result<Box<Instance>, String>)
        ensures
            match spec_instantiate(module@, imports@) {
                Ok(instance) => res.is_ok() && res.unwrap()@ == instance,
                Err(message) => res.is_err() && res.unwrap_err()@ == message,
            },
    {
        match resolve_imports(&module, imports) {
            Err(fault) => {
                proof {
                    lemma_fault_in_range(module@.imports, imports@, module@.imports.len() as int);
                }
                Err(link_message(&module, fault))
            },
            Ok(resolved) => {
                let pages = module.memory_pages as u64;
                let bytes: u64 = pages * (PAGE_BYTES as u64);
                if bytes > usize::MAX as u64 {
                    return Err(String::from_str("linear memory does not fit the address space"));
                }
                let memory = zeroed(bytes as usize);
                Ok(Box::new(Instance { module, imports: resolved, memory }))
            },
        }
    }
}

/// A fault names one of the requests that were looked at.
pub proof fn lemma_fault_in_range(decls: Seq<ImportDeclView>, env: Seq<NamedImportView>, upto: int)
    requires
        0 <= upto <= decls.len(),
        upto <= usize::MAX,
    ensures
        match spec_link_fault(decls, env, upto) {
            Some(LinkError::NotFound { index }) => index < upto,
            Some(LinkError::WrongKind { index }) => index < upto,
            None => true,
        },
    decreases upto,
{
    if upto > 0 {
        lemma_fault_in_range(decls, env, upto - 1);
    }
}

/// Compile a webassembly module using the provided compiler and linked with the provided imports.
///
/// Whether the bytes compile is the compiler's to say; if they do, the
/// module is instantiated as [`spec_instantiate`] says.
pub fn compile(compiler: &dyn Compiler, wasm: &[u8], imports: &Imports) -> (res: Result<
    Box<Instance>,
    String,
>)
    ensures
        match spec_compile(compiler.compiled(wasm@), imports@) {
            Ok(instance) => res.is_ok() && res.unwrap()@ == instance,
            Err(message) => res.is_err() && res.unwrap_err()@ == message,
        },
{
    compile_with(compiler, wasm, imports)
}

/// [`compile`] for a caller that knows its compiler by its type: what the
/// result is follows from what that compiler says it makes of the bytes.
pub fn compile_with<C: Compiler + ?Sized>(compiler: &C, wasm: &[u8], imports: &Imports) -> (res:
    Result<Box<Instance>, String>)
    ensures
        match spec_compile(compiler.compiled(wasm@), imports@) {
            Ok(instance) => res.is_ok() && res.unwrap()@ == instance,
            Err(message) => res.is_err() && res.unwrap_err()@ == message,
        },
{
    let module = compiler.compile(wasm)?;
    Instance::new(module, imports)
}

} // verus!
