//! How source modules are brought together: what they declare, what they import, and in which
//! order their declarations are looked at.
use vstd::prelude::*;

use crate::compiler::{Compiler, CompilerV, Module, ModuleItem, ModuleItemV, ModuleV};
use crate::dict::{views, DictV, NameDict};
use crate::error::{CompileError, CompileErrorV, Span};
use crate::funcs::{dup_names, FuncMapV, ScopedName, ScopedNameV};
use crate::module_map::{
    add_function, add_type, generate_type_id, has_module, is_listing, last_part, short_type_name,
    type_id, ImportItem, ImportItemV, ModulesV,
};
use crate::preprocess::{
    apply_annotation, continues, declare_function, entry_ok, function_type,
    law_nothing_reported_is_lost, preprocess_class, preprocess_entry, preprocess_enum,
    preprocess_func, preprocess_let,
};
use crate::repo::{RepoV, TypeRepo};
use crate::scope::{
    overloads_of, push_global, Global, GlobalV, NameScope, NameScopeV, ScopedMapV, TypeScope,
    TypeScopeV,
};
use crate::source::{FunctionSource, Import, ParseError, ParsedFile, SourceEntry, SourceModule};
use crate::types::TypeId;

verus! {

/// What a declaration makes known before anything is resolved: a type under its name and its full
/// name, or the name of a function.
pub open spec fn populate_entry(
    c: CompilerV,
    path: Seq<Seq<char>>,
    entry: SourceEntry,
    types: TypeScopeV,
) -> (CompilerV, TypeScopeV) {
    match entry {
        SourceEntry::Class(class) => populate_type(c, path, class.name@, types),
        SourceEntry::Struct(class) => populate_type(c, path, class.name@, types),
        SourceEntry::Enum(source) => populate_type(c, path, source.name@, types),
        SourceEntry::Function(func) => {
            let name = ScopedNameV { path, name: func.decl.name@ };
            (
                CompilerV {
                    repo: RepoV { globals: c.repo.globals.reserve(name), ..c.repo },
                    modules: add_function(c.modules, name, c.repo.globals.func_of(name)),
                    ..c
                },
                types,
            )
        },
        SourceEntry::GlobalLet(_) => (c, types),
    }
}

/// A type is made known under its name and its full name.
pub open spec fn populate_type(
    c: CompilerV,
    path: Seq<Seq<char>>,
    name: Seq<char>,
    types: TypeScopeV,
) -> (CompilerV, TypeScopeV) {
    let id = type_id(name, path);
    (CompilerV { modules: add_type(c.modules, id), ..c }, types.insert(name, id))
}

/// What the first `n` declarations make known.
pub open spec fn populate_entries(
    c: CompilerV,
    path: Seq<Seq<char>>,
    entries: Seq<SourceEntry>,
    n: int,
    types: TypeScopeV,
) -> (CompilerV, TypeScopeV)
    decreases n,
{
    if n <= 0 {
        (c, types)
    } else {
        let (at, scope) = populate_entries(c, path, entries, n - 1, types);
        populate_entry(at, path, entries[n - 1], scope)
    }
}

/// What is known once modules are populated: the global types, and those of each module.
pub struct PopulatedV {
    pub compiler: CompilerV,
    pub types: TypeScopeV,
    pub scopes: Seq<DictV<Seq<char>, Seq<char>>>,
}

/// What the first `n` modules make known. A file without a module path adds to the global types.
pub open spec fn populate_modules(
    c: CompilerV,
    modules: Seq<SourceModule>,
    n: int,
    types: TypeScopeV,
) -> PopulatedV
    decreases n,
{
    if n <= 0 {
        PopulatedV { compiler: c, types, scopes: Seq::empty() }
    } else {
        let at = populate_modules(c, modules, n - 1, types);
        let module = modules[n - 1];
        let path = views(module.path@);
        if module.path@.len() == 0 {
            let (compiler, types) = populate_entries(
                at.compiler,
                path,
                module.entries@,
                module.entries@.len() as int,
                at.types,
            );
            PopulatedV { compiler, types, scopes: at.scopes.push(DictV::empty()) }
        } else {
            let (compiler, types) = populate_entries(
                at.compiler,
                path,
                module.entries@,
                module.entries@.len() as int,
                at.types.push_scope(DictV::empty()),
            );
            PopulatedV { compiler, types: types.outside(), scopes: at.scopes.push(types.top()) }
        }
    }
}

/// The types and the function names that are known in a module.
pub struct ScopesV {
    pub types: TypeScopeV,
    pub names: NameScopeV,
}

/// What is known once an item is imported: a type under its short name, a function under its name.
pub open spec fn import_item(globals: FuncMapV, item: ImportItemV, s: ScopesV) -> ScopesV {
    match item {
        ImportItemV::Type(id) => ScopesV { types: s.types.insert(last_part(id), id), ..s },
        ImportItemV::Func(func) => ScopesV {
            names: push_global(s.names, globals.names[func].name, GlobalV::Func(func)),
            ..s
        },
    }
}

/// What is known once the first `n` items are imported.
pub open spec fn import_items(globals: FuncMapV, items: Seq<ImportItemV>, n: int, s: ScopesV) -> ScopesV
    decreases n,
{
    if n <= 0 {
        s
    } else {
        import_item(globals, items[n - 1], import_items(globals, items, n - 1, s))
    }
}

/// What is known once the first `n` selected items of a module are imported, and the path of the
/// first one that is not there.
pub open spec fn import_selected(
    modules: ModulesV,
    globals: FuncMapV,
    path: Seq<Seq<char>>,
    selected: Seq<Seq<char>>,
    n: int,
    s: ScopesV,
) -> (ScopesV, Option<Seq<Seq<char>>>)
    decreases n,
{
    if n <= 0 {
        (s, None)
    } else {
        let (at, missing) = import_selected(modules, globals, path, selected, n - 1, s);
        let next = path.push(selected[n - 1]);
        if missing is Some {
            (at, missing)
        } else if modules.dom().contains(next) {
            (import_item(globals, modules[next], at), None)
        } else {
            (at, Some(next))
        }
    }
}

/// What is known after an import, and the error where it leads nowhere. `walk` is what an import
/// of a whole module finds in it, in the order in which it is found.
pub open spec fn import(
    modules: ModulesV,
    globals: FuncMapV,
    import: Import,
    walk: Seq<ImportItemV>,
    s: ScopesV,
) -> (ScopesV, Option<CompileErrorV>) {
    match import {
        Import::Exact(path, span) => {
            let at = views(path@);
            if modules.dom().contains(at) {
                (import_item(globals, modules[at], s), None)
            } else {
                (s, Some(CompileErrorV::UnresolvedImport(at, span)))
            }
        },
        Import::Selected(path, selected, span) => {
            let (done, missing) = import_selected(
                modules,
                globals,
                views(path@),
                views(selected@),
                selected@.len() as int,
                s,
            );
            match missing {
                Some(next) => (done, Some(CompileErrorV::UnresolvedImport(next, span))),
                None => (done, None),
            }
        },
        Import::All(path, span) => if has_module(modules, views(path@)) {
            (import_items(globals, walk, walk.len() as int, s), None)
        } else {
            (s, Some(CompileErrorV::UnresolvedImport(views(path@), span)))
        },
    }
}

/// Whether `walk` is what an import of a whole module may find.
pub open spec fn walk_ok(modules: ModulesV, import: Import, walk: Seq<ImportItemV>) -> bool {
    match import {
        Import::All(path, _) => has_module(modules, views(path@)) ==> is_listing(
            modules,
            views(path@),
            walk,
        ),
        _ => true,
    }
}

/// Whether each walk is what the import at the same place may find.
pub open spec fn walks_ok(
    modules: ModulesV,
    imports: Seq<Import>,
    walks: Seq<Seq<ImportItemV>>,
) -> bool {
    &&& walks.len() == imports.len()
    &&& forall|i: int|
        0 <= i < imports.len() ==> walk_ok(modules, imports[i], #[trigger] walks[i])
}

/// What is known after the first `n` imports, and the errors.
pub open spec fn import_all(
    modules: ModulesV,
    globals: FuncMapV,
    imports: Seq<Import>,
    n: int,
    walks: Seq<Seq<ImportItemV>>,
    s: ScopesV,
) -> (ScopesV, Seq<CompileErrorV>)
    decreases n,
{
    if n <= 0 {
        (s, Seq::empty())
    } else {
        let (at, errors) = import_all(modules, globals, imports, n - 1, walks, s);
        let (done, err) = import(modules, globals, imports[n - 1], walks[n - 1], at);
        match err {
            Some(err) => (done, errors.push(err)),
            None => (done, errors),
        }
    }
}

/// A module while its declarations are looked at.
pub struct EntriesV {
    pub compiler: CompilerV,
    pub names: NameScopeV,
    pub items: Seq<ModuleItemV>,
}

/// What one more declaration adds to a module. A declaration with an error is left out.
pub open spec fn compile_entry(
    at: EntriesV,
    path: Seq<Seq<char>>,
    entry: SourceEntry,
    types: TypeScopeV,
) -> EntriesV {
    let done = preprocess_entry(at.compiler, path, entry, types, at.names);
    EntriesV {
        compiler: match done.res {
            Ok(_) => done.compiler,
            Err(err) => CompilerV { errors: done.compiler.errors.push(err), ..done.compiler },
        },
        names: done.names,
        items: match done.res {
            Ok(Some(item)) => at.items.push(item),
            _ => at.items,
        },
    }
}

/// What the first `n` declarations of a module come to.
pub open spec fn compile_entries(
    c: CompilerV,
    path: Seq<Seq<char>>,
    entries: Seq<SourceEntry>,
    n: int,
    types: TypeScopeV,
    names: NameScopeV,
) -> EntriesV
    decreases n,
{
    if n <= 0 {
        EntriesV { compiler: c, names, items: Seq::empty() }
    } else {
        compile_entry(
            compile_entries(c, path, entries, n - 1, types, names),
            path,
            entries[n - 1],
            types,
        )
    }
}

/// Whether each declaration of a module can be preprocessed when its turn comes.
pub open spec fn entries_ok(
    c: CompilerV,
    path: Seq<Seq<char>>,
    entries: Seq<SourceEntry>,
    types: TypeScopeV,
    names: NameScopeV,
) -> bool {
    forall|i: int|
        #![trigger entries[i]]
        0 <= i < entries.len() ==> entry_ok(
            compile_entries(c, path, entries, i, types, names).compiler.repo,
            entries[i],
            types,
        )
}

/// What a module comes to, and the compiler and the names afterwards. What a module with a path
/// declares and imports is known in it alone.
pub struct CompiledV {
    pub compiler: CompilerV,
    pub names: NameScopeV,
    pub module: ModuleV,
}

/// What is known in a module after its imports, and the compiler with the errors of the imports.
pub open spec fn after_imports(
    c: CompilerV,
    module: SourceModule,
    types: TypeScopeV,
    names: NameScopeV,
    walks: Seq<Seq<ImportItemV>>,
) -> (CompilerV, ScopesV) {
    let (scopes, errors) = import_all(
        c.modules,
        c.repo.globals,
        module.imports@,
        module.imports@.len() as int,
        walks,
        ScopesV { types, names },
    );
    (CompilerV { errors: c.errors + errors, ..c }, scopes)
}

pub open spec fn compile_module(
    c: CompilerV,
    module: SourceModule,
    types: TypeScopeV,
    names: NameScopeV,
    walks: Seq<Seq<ImportItemV>>,
) -> CompiledV {
    let (at, scopes) = after_imports(c, module, types, names, walks);
    let done = compile_entries(
        at,
        views(module.path@),
        module.entries@,
        module.entries@.len() as int,
        scopes.types,
        scopes.names,
    );
    CompiledV {
        compiler: done.compiler,
        names: done.names.outside(),
        module: ModuleV {
            names: match done.names.local {
                Some(local) => local,
                None => DictV::empty(),
            },
            types: scopes.types.top(),
            items: done.items,
        },
    }
}

/// Whether the declarations of a module can be preprocessed, whatever its imports find.
pub open spec fn module_ok(
    c: CompilerV,
    module: SourceModule,
    types: TypeScopeV,
    names: NameScopeV,
    walks: Seq<Seq<ImportItemV>>,
) -> bool {
    let (at, scopes) = after_imports(c, module, types, names, walks);
    entries_ok(at, views(module.path@), module.entries@, scopes.types, scopes.names)
}

/// The compiler and the names after the first `n` modules.
pub struct CollectedV {
    pub compiler: CompilerV,
    pub names: NameScopeV,
}

/// The names that a module starts with. A file without a module path adds to the global names.
pub open spec fn module_names(module: SourceModule, names: NameScopeV) -> NameScopeV {
    if module.path@.len() == 0 {
        names
    } else {
        names.push_scope(DictV::empty())
    }
}

pub open spec fn compile_modules(
    at: PopulatedV,
    names: NameScopeV,
    modules: Seq<SourceModule>,
    n: int,
    walks: Seq<Seq<Seq<ImportItemV>>>,
) -> CollectedV
    decreases n,
{
    if n <= 0 {
        CollectedV { compiler: at.compiler, names }
    } else {
        let so_far = compile_modules(at, names, modules, n - 1, walks);
        let done = compile_module(
            so_far.compiler,
            modules[n - 1],
            at.types.push_scope(at.scopes[n - 1]),
            module_names(modules[n - 1], so_far.names),
            walks[n - 1],
        );
        CollectedV {
            compiler: CompilerV {
                queue: done.compiler.queue.push(done.module),
                ..done.compiler
            },
            names: done.names,
        }
    }
}

/// Whether the walks are what the imports of the first modules may find.
pub open spec fn all_walks_ok(
    known: ModulesV,
    modules: Seq<SourceModule>,
    walks: Seq<Seq<Seq<ImportItemV>>>,
) -> bool {
    &&& walks.len() <= modules.len()
    &&& forall|i: int|
        0 <= i < walks.len() ==> walks_ok(known, modules[i].imports@, #[trigger] walks[i])
}

/// Whether the last module that walks are given for can be preprocessed when its turn comes.
pub open spec fn turn_ok(
    at: PopulatedV,
    names: NameScopeV,
    modules: Seq<SourceModule>,
    walks: Seq<Seq<Seq<ImportItemV>>>,
) -> bool {
    let last = walks.len() - 1;
    let so_far = compile_modules(at, names, modules, last, walks);
    module_ok(
        so_far.compiler,
        modules[last],
        at.types.push_scope(at.scopes[last]),
        module_names(modules[last], so_far.names),
        walks[last],
    )
}

/// Whether each module can be preprocessed when its turn comes, whatever the imports find.
pub open spec fn modules_ok(
    at: PopulatedV,
    names: NameScopeV,
    modules: Seq<SourceModule>,
) -> bool {
    forall|walks: Seq<Seq<Seq<ImportItemV>>>|
        walks.len() > 0 && #[trigger] all_walks_ok(at.compiler.modules, modules, walks) ==> turn_ok(
            at,
            names,
            modules,
            walks,
        )
}

/// Whether this is what all modules may come to.
pub open spec fn is_collected(
    at: PopulatedV,
    names: NameScopeV,
    modules: Seq<SourceModule>,
    done: CollectedV,
) -> bool {
    exists|walks: Seq<Seq<Seq<ImportItemV>>>|
        {
            &&& walks.len() == modules.len()
            &&& #[trigger] all_walks_ok(at.compiler.modules, modules, walks)
            &&& done == compile_modules(at, names, modules, modules.len() as int, walks)
        }
}

/// The types that are known to start with: each under its full name.
pub open spec fn known_types(repo: RepoV) -> TypeScopeV {
    ScopedMapV {
        global: DictV { keys: repo.types.keys, vals: repo.types.keys },
        local: None,
    }
}

/// The function names that are known to start with.
pub open spec fn known_names(globals: FuncMapV, n: int) -> NameScopeV
    decreases n,
{
    if n <= 0 {
        ScopedMapV { global: DictV::empty(), local: None }
    } else {
        push_global(
            known_names(globals, n - 1),
            globals.names[n - 1].name,
            GlobalV::Func(n - 1),
        )
    }
}

/// The error of a result.
pub open spec fn err_view(res: Result<(), CompileError>) -> Option<CompileErrorV> {
    match res {
        Ok(_) => None,
        Err(err) => Some(err@),
    }
}

/// Whether an import may have this effect.
pub open spec fn is_imported(
    modules: ModulesV,
    globals: FuncMapV,
    source: Import,
    before: ScopesV,
    after: ScopesV,
    err: Option<CompileErrorV>,
) -> bool {
    exists|walk: Seq<ImportItemV>|
        #[trigger] walk_ok(modules, source, walk) && (after, err) == import(
            modules,
            globals,
            source,
            walk,
            before,
        )
}

/// Imports do not touch the global types.
proof fn lemma_import_items(globals: FuncMapV, items: Seq<ImportItemV>, n: int, s: ScopesV)
    ensures
        import_items(globals, items, n, s).types.local is Some <==> s.types.local is Some,
        s.types.local is Some ==> import_items(globals, items, n, s).types.global
            == s.types.global,
    decreases n,
{
    if n > 0 {
        lemma_import_items(globals, items, n - 1, s);
    }
}

proof fn lemma_import_selected(
    modules: ModulesV,
    globals: FuncMapV,
    path: Seq<Seq<char>>,
    selected: Seq<Seq<char>>,
    n: int,
    s: ScopesV,
)
    ensures
        import_selected(modules, globals, path, selected, n, s).0.types.local is Some
            <==> s.types.local is Some,
        s.types.local is Some ==> import_selected(
            modules,
            globals,
            path,
            selected,
            n,
            s,
        ).0.types.global == s.types.global,
    decreases n,
{
    if n > 0 {
        lemma_import_selected(modules, globals, path, selected, n - 1, s);
    }
}

proof fn lemma_selected_missing(
    modules: ModulesV,
    globals: FuncMapV,
    path: Seq<Seq<char>>,
    selected: Seq<Seq<char>>,
    n: int,
    m: int,
    s: ScopesV,
)
    requires
        0 <= n <= m,
        import_selected(modules, globals, path, selected, n, s).1 is Some,
    ensures
        import_selected(modules, globals, path, selected, m, s) == import_selected(
            modules,
            globals,
            path,
            selected,
            n,
            s,
        ),
    decreases m,
{
    if n < m {
        lemma_selected_missing(modules, globals, path, selected, n, m - 1, s);
    }
}

proof fn lemma_import_all_agrees(
    modules: ModulesV,
    globals: FuncMapV,
    imports: Seq<Import>,
    n: int,
    walks: Seq<Seq<ImportItemV>>,
    others: Seq<Seq<ImportItemV>>,
    s: ScopesV,
)
    requires
        forall|i: int| 0 <= i < n ==> walks[i] == others[i],
    ensures
        import_all(modules, globals, imports, n, walks, s) == import_all(
            modules,
            globals,
            imports,
            n,
            others,
            s,
        ),
    decreases n,
{
    if n > 0 {
        lemma_import_all_agrees(modules, globals, imports, n - 1, walks, others, s);
        assert(walks[n - 1] == others[n - 1]);
    }
}

/// Whether a compiler still has the modules and all function names of another one.
pub open spec fn keeps_names(before: CompilerV, after: CompilerV) -> bool {
    &&& after.modules == before.modules
    &&& after.queue == before.queue
    &&& after.intrinsics == before.intrinsics
    &&& after.repo.globals.names.len() >= before.repo.globals.names.len()
}

proof fn lemma_func_keeps_names(
    c: CompilerV,
    path: Seq<Seq<char>>,
    func: FunctionSource,
    types: TypeScopeV,
    names: NameScopeV,
)
    ensures
        keeps_names(c, preprocess_func(c, path, func, types, names).compiler),
{
    match function_type(func, types, DictV::empty()) {
        Ok((env, typ)) => {
            if func.decl.annotations@.len() > 0 {
                let done = apply_annotation(c, func, func.decl.annotations@[0], env, typ, types).0;
                assert(keeps_names(c, done));
            } else {
                let done = declare_function(c, path, func, env, typ, names).compiler;
                assert(keeps_names(c, done));
            }
        },
        Err(_) => {},
    }
}

/// Looking at a declaration leaves the modules as they are, and no function name is lost.
proof fn lemma_entry_keeps_names(
    c: CompilerV,
    path: Seq<Seq<char>>,
    entry: SourceEntry,
    types: TypeScopeV,
    names: NameScopeV,
)
    ensures
        keeps_names(c, preprocess_entry(c, path, entry, types, names).compiler),
{
    reveal(preprocess_entry);
    match entry {
        SourceEntry::Class(class) => {
            assert(keeps_names(c, preprocess_class(c, path, class, false, types).0));
        },
        SourceEntry::Struct(class) => {
            assert(keeps_names(c, preprocess_class(c, path, class, true, types).0));
        },
        SourceEntry::Enum(source) => {
            assert(keeps_names(c, preprocess_enum(c, path, source)));
        },
        SourceEntry::Function(func) => {
            lemma_func_keeps_names(c, path, func, types, names);
        },
        SourceEntry::GlobalLet(field) => {
            assert(keeps_names(c, preprocess_let(c, field, types).0));
        },
    }
}

pub proof fn lemma_entries_keep_names(
    c: CompilerV,
    path: Seq<Seq<char>>,
    entries: Seq<SourceEntry>,
    n: int,
    types: TypeScopeV,
    names: NameScopeV,
)
    ensures
        keeps_names(c, compile_entries(c, path, entries, n, types, names).compiler),
    decreases n,
{
    if n > 0 {
        lemma_entries_keep_names(c, path, entries, n - 1, types, names);
        let at = compile_entries(c, path, entries, n - 1, types, names);
        lemma_entry_keeps_names(at.compiler, path, entries[n - 1], types, at.names);
    }
}

impl Compiler {
    /// Makes a type known under its name and its full name.
    fn populate_type(&mut self, path: &Vec<String>, name: &String, types: &mut TypeScope)
        ensures
            (final(self)@, final(types)@) == populate_type(
                old(self)@,
                views(path@),
                name@,
                old(types)@,
            ),
    {
        let id = generate_type_id(name, path);
        self.modules.add_type(&id);
        types.insert(name.clone(), id);
    }

    /// Makes known what a declaration declares, before anything is resolved.
    pub fn populate_entry(
        &mut self,
        path: &Vec<String>,
        entry: &SourceEntry,
        types: &mut TypeScope,
    )
        requires
            old(self)@.wf(),
        ensures
            (final(self)@, final(types)@) == populate_entry(
                old(self)@,
                views(path@),
                *entry,
                old(types)@,
            ),
            final(self)@.wf(),
    {
        let ghost before = self@;
        match entry {
            SourceEntry::Class(class) => {
                self.populate_type(path, &class.name, types);
            },
            SourceEntry::Struct(class) => {
                self.populate_type(path, &class.name, types);
            },
            SourceEntry::Enum(source) => {
                self.populate_type(path, &source.name, types);
            },
            SourceEntry::Function(func) => {
                let name = ScopedName::new(&func.decl.name, path);
                let func = self.repo.globals.reserve_name(name.dup());
                self.modules.add_function(&name, func);
            },
            SourceEntry::GlobalLet(_) => {},
        }
        proof {
            lemma_populate_wf(before, views(path@), *entry, types@);
        }
    }

    /// Imports an item.
    pub fn populate_import_item(
        imported: &ImportItem,
        repo: &TypeRepo,
        types: &mut TypeScope,
        names: &mut NameScope,
    )
        requires
            imported matches ImportItem::Func(func) ==> *func < repo@.globals.names.len(),
        ensures
            (ScopesV { types: final(types)@, names: final(names)@ }) == import_item(
                repo@.globals,
                imported@,
                (ScopesV { types: old(types)@, names: old(names)@ }),
            ),
    {
        match imported {
            ImportItem::Type(id) => {
                types.insert(short_type_name(id), id.clone());
            },
            ImportItem::Func(func) => {
                let name = repo.globals.get_name(*func);
                names.push_global(&name.name, Global::Func(*func));
            },
        }
    }

    /// Imports what was found in a module, in the order in which it was found.
    pub fn populate_import_items(
        items: &Vec<ImportItem>,
        repo: &TypeRepo,
        types: &mut TypeScope,
        names: &mut NameScope,
    )
        requires
            forall|i: int|
                #![trigger items@[i]]
                0 <= i < items@.len() ==> (items@[i] matches ImportItem::Func(func) ==> func
                    < repo@.globals.names.len()),
        ensures
            (ScopesV { types: final(types)@, names: final(names)@ }) == import_items(
                repo@.globals,
                views(items@),
                items@.len() as int,
                (ScopesV { types: old(types)@, names: old(names)@ }),
            ),
    {
        let ghost start = ScopesV { types: types@, names: names@ };
        let mut i: usize = 0;
        while i < items.len()
            invariant
                i <= items.len(),
                forall|k: int|
                    #![trigger items@[k]]
                    0 <= k < items@.len() ==> (items@[k] matches ImportItem::Func(func) ==> func
                        < repo@.globals.names.len()),
                (ScopesV { types: types@, names: names@ }) == import_items(
                    repo@.globals,
                    views(items@),
                    i as int,
                    start,
                ),
            decreases items.len() - i,
        {
            assert(views(items@)[i as int] == items@[i as int]@);
            Self::populate_import_item(&items[i], repo, types, names);
            i += 1;
        }
    }
}

proof fn lemma_populate_wf(
    c: CompilerV,
    path: Seq<Seq<char>>,
    entry: SourceEntry,
    types: TypeScopeV,
)
    requires
        c.wf(),
    ensures
        populate_entry(c, path, entry, types).0.wf(),
{
    let done = populate_entry(c, path, entry, types).0;
    assert forall|at: Seq<Seq<char>>| #[trigger] done.modules.dom().contains(at) implies (
    done.modules[at] matches ImportItemV::Func(func) ==> 0 <= func
        < done.repo.globals.names.len()) by {}
}

impl Compiler {
    /// Imports the selected items of a module, up to the first one that is not there.
    fn populate_selected(
        &self,
        path: &Vec<String>,
        selected: &Vec<String>,
        span: Span,
        types: &mut TypeScope,
        names: &mut NameScope,
    ) -> (res: Result<(), CompileError>)
        requires
            self@.wf(),
        ensures
            ({
                let (done, missing) = import_selected(
                    self@.modules,
                    self@.repo.globals,
                    views(path@),
                    views(selected@),
                    selected@.len() as int,
                    (ScopesV { types: old(types)@, names: old(names)@ }),
                );
                &&& done == (ScopesV { types: final(types)@, names: final(names)@ })
                &&& match missing {
                    Some(next) => res matches Err(err) && err@ == CompileErrorV::UnresolvedImport(
                        next,
                        span,
                    ),
                    None => res is Ok,
                }
            }),
    {
        broadcast use crate::dict::group_views;

        let ghost start = ScopesV { types: types@, names: names@ };
        let mut i: usize = 0;
        while i < selected.len()
            invariant
                i <= selected.len(),
                self@.wf(),
                start == (ScopesV { types: old(types)@, names: old(names)@ }),
                import_selected(
                    self@.modules,
                    self@.repo.globals,
                    views(path@),
                    views(selected@),
                    i as int,
                    start,
                ) == ((ScopesV { types: types@, names: names@ }), None::<Seq<Seq<char>>>),
            decreases selected.len() - i,
        {
            let mut next = dup_names(path);
            next.push(selected[i].clone());
            assert(views(next@) == views(path@).push(views(selected@)[i as int]));
            match self.modules.get(&next) {
                Some(item) => {
                    Self::populate_import_item(&item, &self.repo, types, names);
                },
                None => {
                    proof {
                        lemma_selected_missing(
                            self@.modules,
                            self@.repo.globals,
                            views(path@),
                            views(selected@),
                            i + 1,
                            selected@.len() as int,
                            start,
                        );
                    }
                    return Err(CompileError::UnresolvedImport(next, span));
                },
            }
            i += 1;
        }
        Ok(())
    }

    /// Imports what an import leads to.
    pub fn populate_import(
        &self,
        import: Import,
        types: &mut TypeScope,
        names: &mut NameScope,
    ) -> (res: Result<(), CompileError>)
        requires
            self@.wf(),
        ensures
            is_imported(
                self@.modules,
                self@.repo.globals,
                import,
                (ScopesV { types: old(types)@, names: old(names)@ }),
                (ScopesV { types: final(types)@, names: final(names)@ }),
                err_view(res),
            ),
            final(types)@.local is Some <==> old(types)@.local is Some,
            old(types)@.local is Some ==> final(types)@.global == old(types)@.global,
    {
        let ghost source = import;
        let ghost known = self@.modules;
        let ghost globals = self@.repo.globals;
        let ghost start = ScopesV { types: types@, names: names@ };
        match import {
            Import::Exact(path, span) => {
                assert(walk_ok(known, source, Seq::empty()));
                match self.modules.get(&path) {
                    Some(item) => {
                        Self::populate_import_item(&item, &self.repo, types, names);
                        Ok(())
                    },
                    None => Err(CompileError::UnresolvedImport(path, span)),
                }
            },
            Import::Selected(path, selected, span) => {
                assert(walk_ok(known, source, Seq::empty()));
                proof {
                    lemma_import_selected(
                        known,
                        globals,
                        views(path@),
                        views(selected@),
                        selected@.len() as int,
                        start,
                    );
                }
                self.populate_selected(&path, &selected, span, types, names)
            },
            Import::All(path, span) => match self.modules.get_direct_descendants(&path) {
                Some(items) => {
                    proof {
                        let at = views(path@);
                        assert(walk_ok(known, source, views(items@)));
                        let steps = choose|steps: Seq<Seq<char>>|
                            crate::module_map::lists_module(known, at, steps, views(items@));
                        assert forall|i: int|
                            #![trigger items@[i]]
                            0 <= i < items@.len() implies (items@[i] matches ImportItem::Func(func)
                            ==> func < globals.names.len()) by {
                            assert(views(items@)[i] == known[at.push(steps[i])]);
                            assert(steps.contains(steps[i]));
                            assert(views(items@)[i] == items@[i]@);
                        }
                        lemma_import_items(globals, views(items@), items@.len() as int, start);
                    }
                    Self::populate_import_items(&items, &self.repo, types, names);
                    Ok(())
                },
                None => {
                    assert(walk_ok(known, source, Seq::empty()));
                    Err(CompileError::UnresolvedImport(path, span))
                },
            },
        }
    }
}

pub proof fn lemma_compile_agrees(
    at: PopulatedV,
    names: NameScopeV,
    modules: Seq<SourceModule>,
    n: int,
    walks: Seq<Seq<Seq<ImportItemV>>>,
    others: Seq<Seq<Seq<ImportItemV>>>,
)
    requires
        forall|i: int| 0 <= i < n ==> walks[i] == others[i],
    ensures
        compile_modules(at, names, modules, n, walks) == compile_modules(
            at,
            names,
            modules,
            n,
            others,
        ),
    decreases n,
{
    if n > 0 {
        lemma_compile_agrees(at, names, modules, n - 1, walks, others);
        assert(walks[n - 1] == others[n - 1]);
    }
}

impl Compiler {
    /// Imports all that a module imports, and reports the errors.
    fn populate_imports(
        &mut self,
        imports: Vec<Import>,
        types: &mut TypeScope,
        names: &mut NameScope,
    ) -> (walks: Ghost<Seq<Seq<ImportItemV>>>)
        requires
            old(self)@.wf(),
            old(types)@.local is Some,
        ensures
            walks_ok(old(self)@.modules, imports@, walks@),
            ({
                let (done, errors) = import_all(
                    old(self)@.modules,
                    old(self)@.repo.globals,
                    imports@,
                    imports@.len() as int,
                    walks@,
                    (ScopesV { types: old(types)@, names: old(names)@ }),
                );
                &&& done == (ScopesV { types: final(types)@, names: final(names)@ })
                &&& final(self)@ == (CompilerV {
                    errors: old(self)@.errors + errors,
                    ..old(self)@
                })
            }),
            final(types)@.local is Some,
            final(types)@.global == old(types)@.global,
    {
        let ghost all = imports@;
        let ghost before = self@;
        let ghost start = ScopesV { types: types@, names: names@ };
        let ghost mut walks: Seq<Seq<ImportItemV>> = Seq::empty();
        assert(before.errors + Seq::<CompileErrorV>::empty() =~= before.errors);
        for import in iter: imports
            invariant
                iter.seq() == all,
                before.wf(),
                start.types.local is Some,
                walks.len() == iter.index(),
                forall|i: int|
                    0 <= i < walks.len() ==> walk_ok(before.modules, all[i], #[trigger] walks[i]),
                ({
                    let (done, errors) = import_all(
                        before.modules,
                        before.repo.globals,
                        all,
                        iter.index() as int,
                        walks,
                        start,
                    );
                    &&& done == (ScopesV { types: types@, names: names@ })
                    &&& self@ == (CompilerV { errors: before.errors + errors, ..before })
                }),
                types@.local is Some,
                types@.global == start.types.global,
        {
            let ghost at = ScopesV { types: types@, names: names@ };
            let ghost source = import;
            let res = self.populate_import(import, types, names);
            proof {
                let err = err_view(res);
                let after = ScopesV { types: types@, names: names@ };
                let walk = choose|walk: Seq<ImportItemV>|
                    #[trigger] walk_ok(before.modules, source, walk) && (after, err)
                        == self::import(before.modules, before.repo.globals, source, walk, at);
                lemma_import_all_agrees(
                    before.modules,
                    before.repo.globals,
                    all,
                    walks.len() as int,
                    walks,
                    walks.push(walk),
                    start,
                );
                let errors = import_all(
                    before.modules,
                    before.repo.globals,
                    all,
                    walks.len() as int,
                    walks,
                    start,
                ).1;
                walks = walks.push(walk);
                if err is Some {
                    assert((before.errors + errors).push(err->0) =~= before.errors + errors.push(
                        err->0,
                    ));
                }
            }
            let _ = self.reporter.unwrap_err(res);
        }
        Ghost(walks)
    }

    /// Looks at one more declaration of a module, and reports the error.
    fn compile_entry(
        &mut self,
        path: &Vec<String>,
        entry: SourceEntry,
        types: &TypeScope,
        names: &mut NameScope,
        items: &mut Vec<ModuleItem>,
    )
        requires
            entry_ok(old(self)@.repo, entry, types@),
        ensures
            (EntriesV {
                compiler: final(self)@,
                names: final(names)@,
                items: views(final(items)@),
            }) == compile_entry(
                (EntriesV {
                    compiler: old(self)@,
                    names: old(names)@,
                    items: views(old(items)@),
                }),
                views(path@),
                entry,
                types@,
            ),
    {
        broadcast use crate::dict::group_views;

        let res = self.preprocess_entry(path, entry, types, names);
        match self.reporter.unwrap_err(res) {
            Some(Some(item)) => {
                items.push(item);
            },
            _ => {},
        }
    }

    /// Brings a module to the point where its function bodies can be compiled. There is no module
    /// where one of its declarations cannot be preprocessed.
    fn compile_module(
        &mut self,
        module: SourceModule,
        types: &mut TypeScope,
        names: &mut NameScope,
    ) -> (res: (Option<Module>, Ghost<Seq<Seq<ImportItemV>>>))
        requires
            old(self)@.wf(),
            old(types)@.local is Some,
        ensures
            walks_ok(old(self)@.modules, module.imports@, res.1@),
            match res.0 {
                Some(done) => {
                    &&& (CompiledV {
                        compiler: final(self)@,
                        names: final(names)@,
                        module: done@,
                    }) == compile_module(old(self)@, module, old(types)@, old(names)@, res.1@)
                    &&& final(types)@ == old(types)@.outside()
                    &&& final(self)@.wf()
                    &&& final(self)@.modules == old(self)@.modules
                },
                None => !module_ok(old(self)@, module, old(types)@, old(names)@, res.1@),
            },
    {
        broadcast use crate::dict::group_views;

        let ghost source = module;
        let ghost before = self@;
        let ghost scope = types@;
        let ghost outer = names@;
        let SourceModule { path, imports, entries } = module;
        let Ghost(walks) = self.populate_imports(imports, types, names);
        let ghost at = self@;
        let ghost start = names@;
        let ghost all = entries@;
        let mut items: Vec<ModuleItem> = Vec::new();
        for entry in iter: entries
            invariant
                iter.seq() == all,
                source == module,
                before == old(self)@,
                scope == old(types)@,
                outer == old(names)@,
                source.path == path,
                source.entries@ == all,
                walks_ok(before.modules, source.imports@, walks),
                (at, (ScopesV { types: types@, names: start })) == after_imports(
                    before,
                    source,
                    scope,
                    outer,
                    walks,
                ),
                (EntriesV {
                    compiler: self@,
                    names: names@,
                    items: views(items@),
                }) == compile_entries(at, views(path@), all, iter.index() as int, types@, start),
        {
            let ghost i = iter.index() as int;
            assert(entry == all[i]);
            if !self.can_preprocess(&entry, types) {
                assert(!entries_ok(at, views(path@), all, types@, start)) by {
                    assert(!entry_ok(
                        compile_entries(at, views(path@), all, i, types@, start).compiler.repo,
                        all[i],
                        types@,
                    ));
                }
                return (None, Ghost(walks));
            }
            self.compile_entry(&path, entry, types, names, &mut items);
        }
        proof {
            lemma_entries_keep_names(at, views(path@), all, all.len() as int, types@, start);
        }
        let local_types = types.pop_scope();
        let local_names = names.pop_scope();
        (Some(Module { types: local_types, names: local_names, items }), Ghost(walks))
    }
}

/// Whether the positions of syntax errors can be counted over all files.
pub open spec fn offsets_ok(files: Seq<ParsedFile>) -> bool {
    forall|i: int|
        #![trigger files[i]]
        0 <= i < files.len() ==> (files[i].result matches Err(err) ==> files[i].byte_offset
            + err.offset <= usize::MAX)
}

/// The first file with a syntax error, or the number of files.
pub open spec fn first_error(files: Seq<ParsedFile>) -> int
    decreases files.len(),
{
    if files.len() == 0 || files[0].result is Err {
        0
    } else {
        1 + first_error(files.drop_first())
    }
}

/// What the syntax error of a file is told as: its place is counted over all files.
pub open spec fn is_parse_error(file: ParsedFile, err: ParseError) -> bool {
    match file.result {
        Ok(_) => false,
        Err(e) => {
            let pos = file.byte_offset + e.offset;
            err.expected == e.expected && err.span.low == pos && err.span.high == pos
        },
    }
}

proof fn lemma_first_error(files: Seq<ParsedFile>, n: int)
    requires
        0 <= n <= files.len(),
        forall|i: int| 0 <= i < n ==> (#[trigger] files[i]).result is Ok,
        n < files.len() ==> files[n].result is Err,
    ensures
        first_error(files) == n,
    decreases files.len(),
{
    if n > 0 {
        let rest = files.drop_first();
        assert forall|i: int| 0 <= i < n - 1 implies (#[trigger] rest[i]).result is Ok by {
            assert(rest[i] == files[i + 1]);
        }
        assert(files[0].result is Ok);
        lemma_first_error(rest, n - 1);
    }
}

/// Whether the positions of syntax errors can be counted over all files.
pub fn are_offsets_ok(files: &Vec<ParsedFile>) -> (res: bool)
    ensures
        res == offsets_ok(files@),
{
    let mut i: usize = 0;
    while i < files.len()
        invariant
            i <= files.len(),
            forall|k: int|
                #![trigger files@[k]]
                0 <= k < i ==> (files@[k].result matches Err(err) ==> files@[k].byte_offset
                    + err.offset <= usize::MAX),
        decreases files.len() - i,
    {
        if let Err(err) = &files[i].result {
            if err.offset > usize::MAX - files[i].byte_offset {
                assert(files@[i as int].result is Err);
                return false;
            }
        }
        i += 1;
    }
    true
}

impl Compiler {
    /// The modules of all files, or the first syntax error.
    pub fn parse_modules(files: Vec<ParsedFile>) -> (res: Result<Vec<SourceModule>, ParseError>)
        requires
            offsets_ok(files@),
        ensures
            ({
                let bad = first_error(files@);
                match res {
                    Ok(modules) => {
                        &&& bad == files@.len()
                        &&& modules@.len() == files@.len()
                        &&& forall|i: int|
                            0 <= i < files@.len() ==> (#[trigger] files@[i]).result == (Ok::<
                                SourceModule,
                                crate::source::GrammarError,
                            >(modules@[i]))
                    },
                    Err(err) => bad < files@.len() && is_parse_error(files@[bad], err),
                }
            }),
    {
        let ghost all = files@;
        let mut modules: Vec<SourceModule> = Vec::new();
        for file in iter: files
            invariant
                iter.seq() == all,
                all == files@,
                offsets_ok(all),
                modules@.len() == iter.index(),
                forall|i: int|
                    0 <= i < modules@.len() ==> (#[trigger] all[i]).result == (Ok::<
                        SourceModule,
                        crate::source::GrammarError,
                    >(modules@[i])),
        {
            assert(file == all[iter.index() as int]);
            match file.result {
                Ok(module) => {
                    modules.push(module);
                },
                Err(err) => {
                    proof {
                        lemma_first_error(all, iter.index() as int);
                    }
                    let pos: usize = file.byte_offset + err.offset;
                    return Err(
                        ParseError { expected: err.expected, span: Span { low: pos, high: pos } },
                    );
                },
            }
        }
        proof {
            lemma_first_error(all, all.len() as int);
        }
        Ok(modules)
    }
}

impl Compiler {
    /// The types that are known to start with.
    fn known_types(&self) -> (res: TypeScope)
        ensures
            res@ == known_types(self@.repo),
    {
        let n: usize = self.repo.types.len();
        let mut global: NameDict<TypeId> = NameDict::new();
        let mut i: usize = 0;
        while i < n
            invariant
                i <= n,
                n == self@.repo.types.keys.len(),
                self@.repo.types.wf(),
                global@.keys =~= self@.repo.types.keys.take(i as int),
                global@.vals =~= self@.repo.types.keys.take(i as int),
            decreases n - i,
        {
            let id = self.repo.types.key_at(i);
            assert(!global@.has(id@));
            global.insert(id.clone(), id.clone());
            i += 1;
        }
        assert(self@.repo.types.keys.take(n as int) =~= self@.repo.types.keys);
        TypeScope { global, local: None }
    }

    /// The function names that are known to start with.
    fn known_names(&self) -> (res: NameScope)
        ensures
            res@ == known_names(self@.repo.globals, self@.repo.globals.names.len() as int),
    {
        let n: usize = self.repo.globals.names_len();
        let mut names: NameScope = NameScope::new();
        let mut i: usize = 0;
        while i < n
            invariant
                i <= n,
                n == self@.repo.globals.names.len(),
                names@ == known_names(self@.repo.globals, i as int),
            decreases n - i,
        {
            let name = self.repo.globals.get_name(i);
            names.push_global(&name.name, Global::Func(i));
            i += 1;
        }
        names
    }

    /// Makes known what the declarations of a module declare.
    fn populate_entries(
        &mut self,
        path: &Vec<String>,
        entries: &Vec<SourceEntry>,
        types: &mut TypeScope,
    )
        requires
            old(self)@.wf(),
        ensures
            (final(self)@, final(types)@) == populate_entries(
                old(self)@,
                views(path@),
                entries@,
                entries@.len() as int,
                old(types)@,
            ),
            final(self)@.wf(),
    {
        let ghost before = self@;
        let ghost start = types@;
        let mut i: usize = 0;
        while i < entries.len()
            invariant
                i <= entries.len(),
                self@.wf(),
                (self@, types@) == populate_entries(
                    before,
                    views(path@),
                    entries@,
                    i as int,
                    start,
                ),
            decreases entries.len() - i,
        {
            self.populate_entry(path, &entries[i], types);
            i += 1;
        }
    }

    /// Makes known what all modules declare, and gives the types of each module.
    fn populate_modules(&mut self, modules: &Vec<SourceModule>, types: &mut TypeScope) -> (scopes:
        Vec<NameDict<TypeId>>)
        requires
            old(self)@.wf(),
            old(types)@.local is None,
        ensures
            (PopulatedV {
                compiler: final(self)@,
                types: final(types)@,
                scopes: views(scopes@),
            }) == populate_modules(
                old(self)@,
                modules@,
                modules@.len() as int,
                old(types)@,
            ),
            final(self)@.wf(),
            final(types)@.local is None,
            scopes@.len() == modules@.len(),
    {
        broadcast use crate::dict::group_views;

        let ghost before = self@;
        let ghost start = types@;
        let mut scopes: Vec<NameDict<TypeId>> = Vec::new();
        let mut i: usize = 0;
        while i < modules.len()
            invariant
                i <= modules.len(),
                self@.wf(),
                types@.local is None,
                scopes@.len() == i,
                (PopulatedV {
                    compiler: self@,
                    types: types@,
                    scopes: views(scopes@),
                }) == populate_modules(before, modules@, i as int, start),
            decreases modules.len() - i,
        {
            let module = &modules[i];
            let ghost so_far = scopes@;
            if module.path.len() == 0 {
                let ghost at = self@;
                let ghost scope = types@;
                self.populate_entries(&module.path, &module.entries, types);
                proof {
                    lemma_populate_keeps_level(
                        at,
                        views(module.path@),
                        module.entries@,
                        module.entries@.len() as int,
                        scope,
                    );
                }
                let local: NameDict<TypeId> = NameDict::new();
                scopes.push(local);
                assert(views(scopes@) =~= views(so_far).push(local@));
            } else {
                types.introduce_scope();
                let ghost at = self@;
                let ghost scope = types@;
                self.populate_entries(&module.path, &module.entries, types);
                proof {
                    lemma_populate_keeps_level(
                        at,
                        views(module.path@),
                        module.entries@,
                        module.entries@.len() as int,
                        scope,
                    );
                }
                let local = types.pop_scope();
                scopes.push(local);
                assert(views(scopes@) =~= views(so_far).push(local@));
            }
            i += 1;
        }
        scopes
    }
}

/// Declarations stay in the scope that they are made in.
proof fn lemma_populate_keeps_level(
    c: CompilerV,
    path: Seq<Seq<char>>,
    entries: Seq<SourceEntry>,
    n: int,
    types: TypeScopeV,
)
    ensures
        ({
            let done = populate_entries(c, path, entries, n, types).1;
            &&& done.local is Some == types.local is Some
            &&& types.local is Some ==> done.global == types.global
        }),
    decreases n,
{
    if n > 0 {
        lemma_populate_keeps_level(c, path, entries, n - 1, types);
    }
}

/// The compiler and the names that the next module starts with.
spec fn turn(
    at: PopulatedV,
    names: NameScopeV,
    modules: Seq<SourceModule>,
    walks: Seq<Seq<Seq<ImportItemV>>>,
) -> CollectedV {
    compile_modules(at, names, modules, walks.len() as int, walks)
}

proof fn lemma_walks_push(
    known: ModulesV,
    modules: Seq<SourceModule>,
    walks: Seq<Seq<Seq<ImportItemV>>>,
    walk: Seq<Seq<ImportItemV>>,
)
    requires
        all_walks_ok(known, modules, walks),
        walks.len() < modules.len(),
        walks_ok(known, modules[walks.len() as int].imports@, walk),
    ensures
        all_walks_ok(known, modules, walks.push(walk)),
{
    let more = walks.push(walk);
    assert forall|j: int| 0 <= j < more.len() implies walks_ok(
        known,
        modules[j].imports@,
        #[trigger] more[j],
    ) by {
        if j < walks.len() {
            assert(more[j] == walks[j]);
        }
    }
}

/// When the next module cannot be preprocessed, not all modules can.
proof fn lemma_turn(
    at: PopulatedV,
    names: NameScopeV,
    modules: Seq<SourceModule>,
    walks: Seq<Seq<Seq<ImportItemV>>>,
    walk: Seq<Seq<ImportItemV>>,
)
    requires
        all_walks_ok(at.compiler.modules, modules, walks),
        walks.len() < modules.len(),
        walks_ok(at.compiler.modules, modules[walks.len() as int].imports@, walk),
        ({
            let k = walks.len() as int;
            let so_far = turn(at, names, modules, walks);
            !module_ok(
                so_far.compiler,
                modules[k],
                at.types.push_scope(at.scopes[k]),
                module_names(modules[k], so_far.names),
                walk,
            )
        }),
    ensures
        !modules_ok(at, names, modules),
{
    let k = walks.len() as int;
    let more = walks.push(walk);
    lemma_walks_push(at.compiler.modules, modules, walks, walk);
    lemma_compile_agrees(at, names, modules, k, walks, more);
    assert(!turn_ok(at, names, modules, more));
}

proof fn lemma_turn_taken(
    at: PopulatedV,
    names: NameScopeV,
    modules: Seq<SourceModule>,
    walks: Seq<Seq<Seq<ImportItemV>>>,
    walk: Seq<Seq<ImportItemV>>,
)
    requires
        all_walks_ok(at.compiler.modules, modules, walks),
        walks.len() < modules.len(),
        walks_ok(at.compiler.modules, modules[walks.len() as int].imports@, walk),
    ensures
        all_walks_ok(at.compiler.modules, modules, walks.push(walk)),
        ({
            let k = walks.len() as int;
            let so_far = turn(at, names, modules, walks);
            let done = compile_module(
                so_far.compiler,
                modules[k],
                at.types.push_scope(at.scopes[k]),
                module_names(modules[k], so_far.names),
                walk,
            );
            turn(at, names, modules, walks.push(walk)) == (CollectedV {
                compiler: CompilerV {
                    queue: done.compiler.queue.push(done.module),
                    ..done.compiler
                },
                names: done.names,
            })
        }),
{
    lemma_walks_push(at.compiler.modules, modules, walks, walk);
    lemma_compile_agrees(at, names, modules, walks.len() as int, walks, walks.push(walk));
}

/// What is known once all modules are populated.
pub open spec fn populated(c: CompilerV, modules: Seq<SourceModule>) -> PopulatedV {
    populate_modules(c, modules, modules.len() as int, known_types(c.repo))
}

/// The function names that are known before any module is looked at.
pub open spec fn start_names(c: CompilerV) -> NameScopeV {
    known_names(c.repo.globals, c.repo.globals.names.len() as int)
}

impl Compiler {
    /// Brings the next module to the point where its function bodies can be compiled, and says
    /// whether that was possible.
    fn collect_module(
        &mut self,
        module: SourceModule,
        scope: NameDict<TypeId>,
        types: &mut TypeScope,
        names: &mut NameScope,
        Ghost(at): Ghost<PopulatedV>,
        Ghost(start): Ghost<NameScopeV>,
        Ghost(all): Ghost<Seq<SourceModule>>,
        Ghost(walks): Ghost<Seq<Seq<Seq<ImportItemV>>>>,
    ) -> (res: (bool, Ghost<Seq<Seq<ImportItemV>>>))
        requires
            walks.len() < all.len(),
            module == all[walks.len() as int],
            scope@ == at.scopes[walks.len() as int],
            old(types)@ == at.types,
            at.types.local is None,
            old(self)@.wf(),
            old(self)@.modules == at.compiler.modules,
            all_walks_ok(at.compiler.modules, all, walks),
            (CollectedV { compiler: old(self)@, names: old(names)@ }) == compile_modules(
                at,
                start,
                all,
                walks.len() as int,
                walks,
            ),
        ensures
            !res.0 ==> !modules_ok(at, start, all),
            res.0 ==> {
                &&& final(types)@ == at.types
                &&& final(self)@.wf()
                &&& final(self)@.modules == at.compiler.modules
                &&& all_walks_ok(at.compiler.modules, all, walks.push(res.1@))
                &&& (CollectedV { compiler: final(self)@, names: final(names)@ })
                    == compile_modules(
                    at,
                    start,
                    all,
                    (walks.len() + 1) as int,
                    walks.push(res.1@),
                )
            },
    {
        broadcast use crate::dict::group_views;

        types.push_scope(scope);
        if module.path.len() > 0 {
            names.introduce_scope();
        }
        let (done, Ghost(walk)) = self.compile_module(module, types, names);
        match done {
            Some(done) => {
                proof {
                    lemma_turn_taken(at, start, all, walks, walk);
                }
                self.compile_queue.push(done);
                (true, Ghost(walk))
            },
            None => {
                proof {
                    lemma_turn(at, start, all, walks, walk);
                }
                (false, Ghost(walk))
            },
        }
    }

    /// Brings all modules to the point where their function bodies can be compiled. Gives the
    /// types and the function names that are known in all of them, or nothing where a declaration
    /// cannot be preprocessed.
    pub fn collect(&mut self, modules: Vec<SourceModule>) -> (res: Option<(TypeScope, NameScope)>)
        requires
            old(self)@.wf(),
        ensures
            match res {
                Some((types, names)) => {
                    &&& is_collected(
                        populated(old(self)@, modules@),
                        start_names(old(self)@),
                        modules@,
                        (CollectedV { compiler: final(self)@, names: names@ }),
                    )
                    &&& types@ == populated(old(self)@, modules@).types
                    &&& final(self)@.wf()
                },
                None => !modules_ok(
                    populated(old(self)@, modules@),
                    start_names(old(self)@),
                    modules@,
                ),
            },
    {
        broadcast use crate::dict::group_views;

        let ghost all = modules@;
        let ghost at = populated(self@, all);
        let ghost start = start_names(self@);
        let mut types = self.known_types();
        let mut names = self.known_names();
        let mut scopes = self.populate_modules(&modules, &mut types);
        let ghost mut walks: Seq<Seq<Seq<ImportItemV>>> = Seq::empty();
        let mut i: usize = 0;
        for module in iter: modules
            invariant
                iter.seq() == all,
                all == modules@,
                at == populated(old(self)@, all),
                start == start_names(old(self)@),
                i == iter.index(),
                scopes@.len() == all.len(),
                at.scopes.len() == all.len(),
                forall|i: int|
                    iter.index() <= i < all.len() ==> (#[trigger] scopes@[i])@ == at.scopes[i],
                types@ == at.types,
                types@.local is None,
                self@.wf(),
                self@.modules == at.compiler.modules,
                walks.len() == iter.index(),
                all_walks_ok(at.compiler.modules, all, walks),
                (CollectedV { compiler: self@, names: names@ }) == compile_modules(
                    at,
                    start,
                    all,
                    iter.index() as int,
                    walks,
                ),
        {
            assert(module == all[i as int]);
            let mut scope: NameDict<TypeId> = NameDict::new();
            std::mem::swap(&mut scope, &mut scopes[i]);
            let (done, Ghost(walk)) = self.collect_module(
                module,
                scope,
                &mut types,
                &mut names,
                Ghost(at),
                Ghost(start),
                Ghost(all),
                Ghost(walks),
            );
            if !done {
                return None;
            }
            proof {
                walks = walks.push(walk);
            }
            assert(i < scopes.len());
            i += 1;
        }
        Some((types, names))
    }
}

/// Whether nothing but the names of one module differs between two scopes.
pub open spec fn only_inside<V>(before: ScopedMapV<V>, after: ScopedMapV<V>) -> bool {
    before.local is Some ==> after.local is Some && after.global == before.global
}

proof fn lemma_items_inside(globals: FuncMapV, items: Seq<ImportItemV>, n: int, s: ScopesV)
    ensures
        only_inside(s.names, import_items(globals, items, n, s).names),
    decreases n,
{
    if n > 0 {
        lemma_items_inside(globals, items, n - 1, s);
    }
}

proof fn lemma_selected_inside(
    modules: ModulesV,
    globals: FuncMapV,
    path: Seq<Seq<char>>,
    selected: Seq<Seq<char>>,
    n: int,
    s: ScopesV,
)
    ensures
        only_inside(
            s.names,
            import_selected(modules, globals, path, selected, n, s).0.names,
        ),
    decreases n,
{
    if n > 0 {
        lemma_selected_inside(modules, globals, path, selected, n - 1, s);
    }
}

proof fn lemma_imports_inside(
    modules: ModulesV,
    globals: FuncMapV,
    imports: Seq<Import>,
    n: int,
    walks: Seq<Seq<ImportItemV>>,
    s: ScopesV,
)
    ensures
        only_inside(s.names, import_all(modules, globals, imports, n, walks, s).0.names),
    decreases n,
{
    if n > 0 {
        lemma_imports_inside(modules, globals, imports, n - 1, walks, s);
        let at = import_all(modules, globals, imports, n - 1, walks, s).0;
        match imports[n - 1] {
            Import::Exact(_, _) => {},
            Import::Selected(path, selected, _) => {
                lemma_selected_inside(
                    modules,
                    globals,
                    views(path@),
                    views(selected@),
                    selected@.len() as int,
                    at,
                );
            },
            Import::All(_, _) => {
                let walk = walks[n - 1];
                lemma_items_inside(globals, walk, walk.len() as int, at);
            },
        }
    }
}

proof fn lemma_entries_inside(
    c: CompilerV,
    path: Seq<Seq<char>>,
    entries: Seq<SourceEntry>,
    n: int,
    types: TypeScopeV,
    names: NameScopeV,
)
    ensures
        only_inside(names, compile_entries(c, path, entries, n, types, names).names),
    decreases n,
{
    if n > 0 {
        lemma_entries_inside(c, path, entries, n - 1, types, names);
        let at = compile_entries(c, path, entries, n - 1, types, names);
        lemma_entry_inside(at.compiler, path, entries[n - 1], types, at.names);
    }
}

proof fn lemma_entry_inside(
    c: CompilerV,
    path: Seq<Seq<char>>,
    entry: SourceEntry,
    types: TypeScopeV,
    names: NameScopeV,
)
    ensures
        only_inside(names, preprocess_entry(c, path, entry, types, names).names),
{
    reveal(preprocess_entry);
    if let SourceEntry::Function(func) = entry {
        match function_type(func, types, DictV::empty()) {
            Ok((env, typ)) => {
                if func.decl.annotations@.len() == 0 {
                    assert(only_inside(
                        names,
                        declare_function(c, path, func, env, typ, names).names,
                    ));
                }
            },
            Err(_) => {},
        }
    }
}

/// What a module with a path declares and imports is not known outside of it: the function names
/// that all modules see are the same before and after it.
pub proof fn law_module_names_stay_inside(
    c: CompilerV,
    module: SourceModule,
    types: TypeScopeV,
    names: NameScopeV,
    walks: Seq<Seq<ImportItemV>>,
)
    requires
        names.local is Some,
    ensures
        compile_module(c, module, types, names, walks).names == names.outside(),
{
    lemma_imports_inside(
        c.modules,
        c.repo.globals,
        module.imports@,
        module.imports@.len() as int,
        walks,
        ScopesV { types, names },
    );
    let (at, scopes) = after_imports(c, module, types, names, walks);
    lemma_entries_inside(
        at,
        views(module.path@),
        module.entries@,
        module.entries@.len() as int,
        scopes.types,
        scopes.names,
    );
}

/// The types that a module with a path declares are not known outside of it.
pub proof fn law_module_types_stay_inside(
    c: CompilerV,
    path: Seq<Seq<char>>,
    entries: Seq<SourceEntry>,
    types: TypeScopeV,
)
    requires
        types.local is None,
    ensures
        populate_entries(
            c,
            path,
            entries,
            entries.len() as int,
            types.push_scope(DictV::empty()),
        ).1.outside() == types,
{
    lemma_populate_keeps_level(
        c,
        path,
        entries,
        entries.len() as int,
        types.push_scope(DictV::empty()),
    );
}

/// What is imported by its path is known afterwards: a type under its short name, and a function
/// under its name, next to what that name stood for in the module before.
pub proof fn law_imported_is_known(
    modules: ModulesV,
    globals: FuncMapV,
    source: Import,
    walk: Seq<ImportItemV>,
    s: ScopesV,
)
    requires
        s.types.top().wf(),
        s.names.top().wf(),
        source is Exact,
        modules.dom().contains(views(source->Exact_0@)),
    ensures
        ({
            let (done, err) = import(modules, globals, source, walk, s);
            &&& err is None
            &&& match modules[views(source->Exact_0@)] {
                ImportItemV::Type(id) => done.names == s.names && done.types.lookup(last_part(id))
                    == Some(id),
                ImportItemV::Func(func) => {
                    let name = globals.names[func].name;
                    done.types == s.types && done.names.lookup(name) == Some(
                        overloads_of(s.names, name).push(GlobalV::Func(func)),
                    )
                },
            }
        }),
{
    match modules[views(source->Exact_0@)] {
        ImportItemV::Type(id) => {
            lemma_inserted(s.types, last_part(id), id);
        },
        ImportItemV::Func(func) => {
            let name = globals.names[func].name;
            lemma_inserted(s.names, name, overloads_of(s.names, name).push(GlobalV::Func(func)));
        },
    }
}

/// What is added to a scope is found in it.
proof fn lemma_inserted<V>(scope: ScopedMapV<V>, name: Seq<char>, val: V)
    requires
        scope.top().wf(),
    ensures
        scope.insert(name, val).lookup(name) == Some(val),
{
    scope.top().lemma_put(name, val);
    assert(scope.top().put(name, val).get(name) == Some(val));
}

/// An import that leads nowhere is an error that names the path. It makes nothing known, but for
/// the selected items in front of the first one that is not there.
pub proof fn law_unresolved_import(
    modules: ModulesV,
    globals: FuncMapV,
    source: Import,
    walk: Seq<ImportItemV>,
    s: ScopesV,
)
    ensures
        match source {
            Import::Exact(path, span) => !modules.dom().contains(views(path@)) ==> import(
                modules,
                globals,
                source,
                walk,
                s,
            ) == (s, Some(CompileErrorV::UnresolvedImport(views(path@), span))),
            Import::All(path, span) => !has_module(modules, views(path@)) ==> import(
                modules,
                globals,
                source,
                walk,
                s,
            ) == (s, Some(CompileErrorV::UnresolvedImport(views(path@), span))),
            Import::Selected(path, selected, span) => {
                let n = selected@.len() as int;
                forall|i: int|
                    #![trigger views(selected@)[i]]
                    0 <= i < n && !modules.dom().contains(views(path@).push(views(selected@)[i]))
                        && (forall|j: int|
                        0 <= j < i ==> modules.dom().contains(
                            #[trigger] views(path@).push(views(selected@)[j]),
                        )) ==> import(modules, globals, source, walk, s) == (
                        import_selected(
                            modules,
                            globals,
                            views(path@),
                            views(selected@),
                            i,
                            s,
                        ).0,
                        Some(
                            CompileErrorV::UnresolvedImport(
                                views(path@).push(views(selected@)[i]),
                                span,
                            ),
                        ),
                    )
            },
        },
{
    if let Import::Selected(path, selected, _) = source {
        let names = views(selected@);
        let n = selected@.len() as int;
        assert forall|i: int|
            #![trigger names[i]]
            0 <= i < n && !modules.dom().contains(views(path@).push(names[i])) && (forall|j: int|
                0 <= j < i ==> modules.dom().contains(
                    #[trigger] views(path@).push(names[j]),
                )) implies import_selected(modules, globals, views(path@), names, n, s) == (
            import_selected(modules, globals, views(path@), names, i, s).0,
            Some(views(path@).push(names[i])),
        ) by {
            lemma_selected_until(modules, globals, views(path@), names, i, s);
            lemma_selected_stops(modules, globals, views(path@), names, i, n, s);
        }
    }
}

/// As long as every selected item is there, nothing is missing.
proof fn lemma_selected_until(
    modules: ModulesV,
    globals: FuncMapV,
    path: Seq<Seq<char>>,
    selected: Seq<Seq<char>>,
    i: int,
    s: ScopesV,
)
    requires
        forall|j: int|
            0 <= j < i ==> modules.dom().contains(#[trigger] path.push(selected[j])),
    ensures
        import_selected(modules, globals, path, selected, i, s).1 is None,
    decreases i,
{
    if i > 0 {
        lemma_selected_until(modules, globals, path, selected, i - 1, s);
        assert(modules.dom().contains(path.push(selected[i - 1])));
    }
}

/// Behind the first selected item that is not there nothing more is imported.
proof fn lemma_selected_stops(
    modules: ModulesV,
    globals: FuncMapV,
    path: Seq<Seq<char>>,
    selected: Seq<Seq<char>>,
    i: int,
    n: int,
    s: ScopesV,
)
    requires
        0 <= i < n,
        !modules.dom().contains(path.push(selected[i])),
        import_selected(modules, globals, path, selected, i, s).1 is None,
    ensures
        import_selected(modules, globals, path, selected, n, s) == (
            import_selected(modules, globals, path, selected, i, s).0,
            Some(path.push(selected[i])),
        ),
    decreases n,
{
    if i < n - 1 {
        lemma_selected_stops(modules, globals, path, selected, i, n - 1, s);
    }
}

/// Making declarations known reports nothing.
pub proof fn lemma_populate_reports_nothing(
    c: CompilerV,
    modules: Seq<SourceModule>,
    n: int,
    types: TypeScopeV,
)
    ensures
        populate_modules(c, modules, n, types).compiler.errors == c.errors,
    decreases n,
{
    if n > 0 {
        lemma_populate_reports_nothing(c, modules, n - 1, types);
        let at = populate_modules(c, modules, n - 1, types);
        let module = modules[n - 1];
        let scope = if module.path@.len() == 0 {
            at.types
        } else {
            at.types.push_scope(DictV::empty())
        };
        lemma_entries_report_nothing(
            at.compiler,
            views(module.path@),
            module.entries@,
            module.entries@.len() as int,
            scope,
        );
    }
}

proof fn lemma_entries_report_nothing(
    c: CompilerV,
    path: Seq<Seq<char>>,
    entries: Seq<SourceEntry>,
    n: int,
    types: TypeScopeV,
)
    ensures
        populate_entries(c, path, entries, n, types).0.errors == c.errors,
    decreases n,
{
    if n > 0 {
        lemma_entries_report_nothing(c, path, entries, n - 1, types);
    }
}

proof fn lemma_entries_continue(
    c: CompilerV,
    path: Seq<Seq<char>>,
    entries: Seq<SourceEntry>,
    n: int,
    types: TypeScopeV,
    names: NameScopeV,
)
    ensures
        continues(
            c.errors,
            compile_entries(c, path, entries, n, types, names).compiler.errors,
        ),
    decreases n,
{
    if n > 0 {
        lemma_entries_continue(c, path, entries, n - 1, types, names);
        let at = compile_entries(c, path, entries, n - 1, types, names);
        law_nothing_reported_is_lost(at.compiler, path, entries[n - 1], types, at.names);
    }
}

/// Compiling modules loses no error.
pub proof fn lemma_modules_continue(
    at: PopulatedV,
    names: NameScopeV,
    modules: Seq<SourceModule>,
    n: int,
    walks: Seq<Seq<Seq<ImportItemV>>>,
)
    ensures
        continues(
            at.compiler.errors,
            compile_modules(at, names, modules, n, walks).compiler.errors,
        ),
    decreases n,
{
    if n > 0 {
        lemma_modules_continue(at, names, modules, n - 1, walks);
        let so_far = compile_modules(at, names, modules, n - 1, walks);
        let module = modules[n - 1];
        let (start, scopes) = after_imports(
            so_far.compiler,
            module,
            at.types.push_scope(at.scopes[n - 1]),
            module_names(module, so_far.names),
            walks[n - 1],
        );
        lemma_entries_continue(
            start,
            views(module.path@),
            module.entries@,
            module.entries@.len() as int,
            scopes.types,
            scopes.names,
        );
    }
}

} // verus!
