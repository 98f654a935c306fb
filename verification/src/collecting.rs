//! What the files of a compilation come to: the types and functions that they make known, and the
//! modules that are left to be compiled.
use vstd::prelude::*;

use crate::compiler::CompilerV;
use crate::dict::{views, DictV};
use crate::funcs::{FuncMapV, ScopedNameV};
use crate::module_map::{
    add_function, add_type, has_module, last_part, type_id, type_parts, ImportItemV, ModulesV,
};
use crate::modules::{
    after_imports, compile_entries, compile_entry, compile_module, compile_modules, first_error,
    import, import_all, import_items, is_parse_error, lemma_entries_keep_names, module_names,
    populate_entries, populate_entry, populate_modules, EntriesV, PopulatedV, ScopesV,
};
use crate::naming::{
    law_inserted_is_found, lemma_import_more, lemma_imports_more, names_wf, stands_for,
};
use crate::preprocess::preprocess_entry;
use crate::queue::outputs_of;
use crate::scope::{GlobalV, NameScopeV, TypeScopeV};
use crate::source::{Import, ParseError, ParsedFile, SourceEntry, SourceModule};
use crate::text::joined;

verus! {

/// The full name of a type is its name behind those of the modules that it is in, with dots
/// between them.
pub proof fn law_full_name(name: Seq<char>, path: Seq<Seq<char>>, inner: Seq<char>)
    ensures
        type_id(name, Seq::empty()) == name,
        type_id(name, path.push(inner)) == type_id(inner, path) + "."@ + name,
{
    let parts = path.push(inner).push(name);
    assert(parts.drop_last() =~= path.push(inner));
    assert(parts.last() == name);
    if path.len() == 0 {
        assert(joined(path.push(inner), "."@) == path.push(inner)[0]);
    }
}

/// The name of the type that a declaration declares, if it declares one.
pub open spec fn declared_name(entry: SourceEntry) -> Option<Seq<char>> {
    match entry {
        SourceEntry::Class(class) => Some(class.name@),
        SourceEntry::Struct(class) => Some(class.name@),
        SourceEntry::Enum(source) => Some(source.name@),
        _ => None,
    }
}

/// A type is made known under its name and at its path. A function has its name reserved, and its
/// path leads to it. Nothing else becomes known.
pub proof fn law_entry_is_known(
    c: CompilerV,
    path: Seq<Seq<char>>,
    entry: SourceEntry,
    types: TypeScopeV,
    other: Seq<char>,
    at: Seq<Seq<char>>,
)
    requires
        types.global.wf(),
        types.local is Some ==> types.local->0.wf(),
    ensures
        ({
            let (done, known) = populate_entry(c, path, entry, types);
            &&& done.errors == c.errors
            &&& done.queue == c.queue
            &&& done.defined == c.defined
            &&& done.repo.types == c.repo.types
            &&& done.repo.globals.entries == c.repo.globals.entries
            &&& known.local is Some <==> types.local is Some
            &&& known.global.wf()
            &&& known.local is Some ==> known.local->0.wf()
            &&& declared_name(entry) matches Some(name) ==> {
                let id = type_id(name, path);
                &&& known.lookup(name) == Some(id)
                &&& known.top().get(name) == Some(id)
                &&& other != name ==> known.lookup(other) == types.lookup(other)
                    && known.top().get(other) == types.top().get(other)
                &&& done.repo.globals.names == c.repo.globals.names
                &&& done.modules.dom().contains(type_parts(id))
                &&& done.modules[type_parts(id)] == ImportItemV::Type(id)
                &&& at != type_parts(id) ==> done.modules.dom().contains(at)
                    == c.modules.dom().contains(at) && done.modules[at] == c.modules[at]
            }
            &&& entry matches SourceEntry::Function(func) ==> {
                let name = func.decl.name@;
                let place = path.push(name);
                &&& known == types
                &&& done.modules.dom().contains(place)
                &&& done.modules[place] matches ImportItemV::Func(f) && 0 <= f
                    < done.repo.globals.names.len() && done.repo.globals.names[f] == (ScopedNameV {
                    path,
                    name,
                })
                &&& c.repo.globals.names.is_prefix_of(done.repo.globals.names)
                &&& at != place ==> done.modules.dom().contains(at) == c.modules.dom().contains(at)
                    && done.modules[at] == c.modules[at]
            }
            &&& entry is GlobalLet ==> done == c && known == types
        }),
{
    if let Some(name) = declared_name(entry) {
        law_inserted_is_found(types, name, type_id(name, path), other);
        types.top().lemma_put(name, type_id(name, path));
    }
    if let SourceEntry::Function(func) = entry {
        let name = ScopedNameV { path, name: func.decl.name@ };
        let names = c.repo.globals.names;
        let done = c.repo.globals.reserve(name).names;
        if names.contains(name) {
            assert(names[names.index_of(name)] == name);
        }
        assert(names =~= done.subrange(0, names.len() as int));
    }
}

/// The types that are declared are known under their names. Of several of one name the last one
/// counts, but in one module they are the same.
pub proof fn law_declared_types_are_known(
    c: CompilerV,
    path: Seq<Seq<char>>,
    entries: Seq<SourceEntry>,
    n: int,
    types: TypeScopeV,
    name: Seq<char>,
)
    requires
        0 <= n <= entries.len(),
        types.global.wf(),
        types.local is Some ==> types.local->0.wf(),
    ensures
        ({
            let known = populate_entries(c, path, entries, n, types).1;
            let declared = exists|i: int|
                0 <= i < n && declared_name(#[trigger] entries[i]) == Some(name);
            &&& known.global.wf()
            &&& known.local is Some <==> types.local is Some
            &&& known.local is Some ==> known.local->0.wf()
            &&& known.lookup(name) == if declared {
                Some(type_id(name, path))
            } else {
                types.lookup(name)
            }
            &&& declared ==> known.top().get(name) == Some(type_id(name, path))
        }),
    decreases n,
{
    if n > 0 {
        law_declared_types_are_known(c, path, entries, n - 1, types, name);
        let (at, known) = populate_entries(c, path, entries, n - 1, types);
        law_entry_is_known(at, path, entries[n - 1], known, name, Seq::empty());
        if declared_name(entries[n - 1]) == Some(name) {
            assert(exists|i: int| 0 <= i < n && declared_name(#[trigger] entries[i]) == Some(name));
        } else if exists|i: int|
            0 <= i < n - 1 && declared_name(#[trigger] entries[i]) == Some(name) {
            let i = choose|i: int|
                0 <= i < n - 1 && declared_name(#[trigger] entries[i]) == Some(name);
            assert(0 <= i < n && declared_name(entries[i]) == Some(name));
        }
    }
}

/// Each file has a scope of its own: the types that it declares are known in it under their names,
/// where it has a path, and everywhere, where it has none.
pub proof fn law_module_knows_its_types(
    c: CompilerV,
    modules: Seq<SourceModule>,
    n: int,
    types: TypeScopeV,
    i: int,
    name: Seq<char>,
)
    requires
        0 <= i < n <= modules.len(),
        types.local is None,
        types.global.wf(),
        exists|k: int|
            0 <= k < modules[i].entries@.len() && declared_name(#[trigger] modules[i].entries@[k])
                == Some(name),
        modules[i].path@.len() == 0 ==> forall|j: int, k: int|
            #![trigger modules[j].entries@[k]]
            i < j < n && modules[j].path@.len() == 0 && 0 <= k < modules[j].entries@.len()
                ==> declared_name(modules[j].entries@[k]) != Some(name),
    ensures
        ({
            let done = populate_modules(c, modules, n, types);
            let id = type_id(name, views(modules[i].path@));
            &&& done.scopes.len() == n
            &&& done.types.local is None
            &&& modules[i].path@.len() > 0 ==> done.scopes[i].get(name) == Some(id)
            &&& modules[i].path@.len() == 0 ==> done.types.lookup(name) == Some(id)
            &&& modules[i].path@.len() == 0 ==> done.scopes[i].keys.len() == 0
        }),
    decreases n,
{
    let last = n - 1;
    let at = populate_modules(c, modules, last, types);
    let module = modules[last];
    let path = views(module.path@);
    let entries = module.entries@;
    lemma_populated_wf(c, modules, last, types);
    let start = if module.path@.len() == 0 {
        at.types
    } else {
        at.types.push_scope(DictV::empty())
    };
    law_declared_types_are_known(at.compiler, path, entries, entries.len() as int, start, name);
    lemma_level_stays(at.compiler, path, entries, entries.len() as int, start);
    if i < last {
        law_module_knows_its_types(c, modules, last, types, i, name);
        if modules[i].path@.len() == 0 && module.path@.len() == 0 {
            assert(!exists|k: int|
                0 <= k < entries.len() && declared_name(#[trigger] entries[k]) == Some(name)) by {
                assert forall|k: int| 0 <= k < entries.len() implies declared_name(
                    #[trigger] entries[k],
                ) != Some(name) by {
                    assert(modules[last].entries@[k] == entries[k]);
                }
            }
        }
    } else if module.path@.len() > 0 {
        assert(start.global == at.types.global);
    }
}

proof fn lemma_populated_wf(c: CompilerV, modules: Seq<SourceModule>, n: int, types: TypeScopeV)
    requires
        types.local is None,
        types.global.wf(),
    ensures
        ({
            let done = populate_modules(c, modules, n, types);
            &&& done.types.local is None
            &&& done.types.global.wf()
            &&& n >= 0 ==> done.scopes.len() == n
        }),
    decreases n,
{
    if n > 0 {
        lemma_populated_wf(c, modules, n - 1, types);
        let at = populate_modules(c, modules, n - 1, types);
        let module = modules[n - 1];
        let start = if module.path@.len() == 0 {
            at.types
        } else {
            at.types.push_scope(DictV::empty())
        };
        let entries = module.entries@;
        let path = views(module.path@);
        law_declared_types_are_known(
            at.compiler,
            path,
            entries,
            entries.len() as int,
            start,
            Seq::empty(),
        );
        lemma_level_stays(at.compiler, path, entries, entries.len() as int, start);
    }
}

/// Declarations in a module leave what is outside as it was.
proof fn lemma_level_stays(
    c: CompilerV,
    path: Seq<Seq<char>>,
    entries: Seq<SourceEntry>,
    n: int,
    types: TypeScopeV,
)
    ensures
        ({
            let known = populate_entries(c, path, entries, n, types).1;
            &&& known.local is Some <==> types.local is Some
            &&& types.local is Some ==> known.global == types.global
        }),
    decreases n,
{
    if n > 0 {
        lemma_level_stays(c, path, entries, n - 1, types);
    }
}

/// Every import that leads nowhere is told, and nothing else is: the errors are those of the
/// imports, in their order.
pub proof fn law_import_errors(
    modules: ModulesV,
    globals: FuncMapV,
    imports: Seq<Import>,
    n: int,
    walks: Seq<Seq<ImportItemV>>,
    s: ScopesV,
    i: int,
)
    requires
        0 <= i < n <= imports.len(),
    ensures
        ({
            let errors = import_all(modules, globals, imports, n, walks, s).1;
            let at = import_all(modules, globals, imports, i, walks, s).0;
            let before = import_all(modules, globals, imports, i, walks, s).1;
            match import(modules, globals, imports[i], walks[i], at).1 {
                Some(err) => before.push(err).is_prefix_of(errors),
                None => before.is_prefix_of(errors),
            }
        }),
    decreases n,
{
    let errors = import_all(modules, globals, imports, n - 1, walks, s).1;
    let done = import_all(modules, globals, imports, n, walks, s).1;
    assert(errors =~= done.subrange(0, errors.len() as int));
    if i < n - 1 {
        law_import_errors(modules, globals, imports, n - 1, walks, s, i);
        let first = import_all(modules, globals, imports, i, walks, s);
        let head = match import(modules, globals, imports[i], walks[i], first.0).1 {
            Some(err) => first.1.push(err),
            None => first.1,
        };
        assert(head =~= done.subrange(0, head.len() as int)) by {
            assert(head =~= errors.subrange(0, head.len() as int));
        }
    } else {
        assert(done =~= done.subrange(0, done.len() as int));
    }
}

/// Imports that all lead somewhere report nothing, and every error is that of an import.
pub proof fn law_only_import_errors(
    modules: ModulesV,
    globals: FuncMapV,
    imports: Seq<Import>,
    n: int,
    walks: Seq<Seq<ImportItemV>>,
    s: ScopesV,
)
    requires
        0 <= n <= imports.len(),
    ensures
        ({
            let errors = import_all(modules, globals, imports, n, walks, s).1;
            forall|e: int|
                0 <= e < errors.len() ==> exists|i: int|
                    0 <= i < n && import(
                        modules,
                        globals,
                        #[trigger] imports[i],
                        walks[i],
                        import_all(modules, globals, imports, i, walks, s).0,
                    ).1 == Some(#[trigger] errors[e])
        }),
    decreases n,
{
    if n > 0 {
        law_only_import_errors(modules, globals, imports, n - 1, walks, s);
        let was = import_all(modules, globals, imports, n - 1, walks, s).1;
        let errors = import_all(modules, globals, imports, n, walks, s).1;
        assert forall|e: int| 0 <= e < errors.len() implies exists|i: int|
            0 <= i < n && import(
                modules,
                globals,
                #[trigger] imports[i],
                walks[i],
                import_all(modules, globals, imports, i, walks, s).0,
            ).1 == Some(#[trigger] errors[e]) by {
            if e < was.len() {
                assert(errors[e] == was[e]);
                let i = choose|i: int|
                    0 <= i < n - 1 && import(
                        modules,
                        globals,
                        #[trigger] imports[i],
                        walks[i],
                        import_all(modules, globals, imports, i, walks, s).0,
                    ).1 == Some(was[e]);
                assert(0 <= i < n && imports[i] == imports[i]);
            } else {
                assert(imports[n - 1] == imports[n - 1]);
            }
        }
    }
}

/// What an import makes a name stand for, it still stands for after the further imports.
pub proof fn law_imports_add_up(
    modules: ModulesV,
    globals: FuncMapV,
    imports: Seq<Import>,
    n: int,
    walks: Seq<Seq<ImportItemV>>,
    s: ScopesV,
    i: int,
    name: Seq<char>,
    what: GlobalV,
)
    requires
        names_wf(s.names),
        0 <= i < n <= imports.len(),
        stands_for(
            import(
                modules,
                globals,
                imports[i],
                walks[i],
                import_all(modules, globals, imports, i, walks, s).0,
            ).0.names,
            name,
            what,
        ),
    ensures
        stands_for(import_all(modules, globals, imports, n, walks, s).0.names, name, what),
    decreases n,
{
    if i < n - 1 {
        law_imports_add_up(modules, globals, imports, n - 1, walks, s, i, name, what);
        lemma_imports_more(modules, globals, imports, n - 1, walks, s);
        let at = import_all(modules, globals, imports, n - 1, walks, s).0;
        lemma_import_more(modules, globals, imports[n - 1], walks[n - 1], at);
    }
}

/// A type that an import finds in a whole module is known under its short name, where no other one
/// that it finds has that.
pub proof fn law_module_types_are_known(
    globals: FuncMapV,
    walk: Seq<ImportItemV>,
    n: int,
    s: ScopesV,
    i: int,
)
    requires
        names_wf(s.names),
        s.types.global.wf(),
        s.types.local is Some ==> s.types.local->0.wf(),
        0 <= i < n <= walk.len(),
        walk[i] is Type,
        forall|j: int|
            i < j < n ==> (#[trigger] walk[j] matches ImportItemV::Type(id) ==> last_part(id)
                != last_part(walk[i]->Type_0)),
    ensures
        import_items(globals, walk, n, s).types.lookup(last_part(walk[i]->Type_0)) == Some(
            walk[i]->Type_0,
        ),
    decreases n,
{
    lemma_import_items_wf(globals, walk, n - 1, s);
    let at = import_items(globals, walk, n - 1, s);
    let id = walk[i]->Type_0;
    if i < n - 1 {
        law_module_types_are_known(globals, walk, n - 1, s, i);
        assert(walk[n - 1] == walk[n - 1]);
    }
    if let ImportItemV::Type(other) = walk[n - 1] {
        law_inserted_is_found(at.types, last_part(other), other, last_part(id));
    }
}

proof fn lemma_import_items_wf(globals: FuncMapV, walk: Seq<ImportItemV>, n: int, s: ScopesV)
    requires
        s.types.global.wf(),
        s.types.local is Some ==> s.types.local->0.wf(),
    ensures
        ({
            let done = import_items(globals, walk, n, s).types;
            done.global.wf() && (done.local is Some ==> done.local->0.wf())
        }),
    decreases n,
{
    if n > 0 {
        lemma_import_items_wf(globals, walk, n - 1, s);
        let at = import_items(globals, walk, n - 1, s);
        if let ImportItemV::Type(id) = walk[n - 1] {
            at.types.top().lemma_put(last_part(id), id);
        }
    }
}

/// A declaration that comes to something is left to be compiled behind those before it. One that
/// is refused is left out, and why is reported.
pub proof fn law_entry_outcome(
    at: EntriesV,
    path: Seq<Seq<char>>,
    entry: SourceEntry,
    types: TypeScopeV,
)
    ensures
        ({
            let done = compile_entry(at, path, entry, types);
            let out = preprocess_entry(at.compiler, path, entry, types, at.names);
            &&& done.names == out.names
            &&& done.compiler.repo == out.compiler.repo
            &&& done.compiler.defined == out.compiler.defined
            &&& done.compiler.queue == out.compiler.queue
            &&& out.res matches Ok(Some(item)) ==> done.items == at.items.push(item)
                && done.compiler.errors == out.compiler.errors
            &&& out.res matches Ok(None) ==> done.items == at.items && done.compiler.errors
                == out.compiler.errors
            &&& out.res matches Err(err) ==> done.items == at.items && done.compiler.errors
                == out.compiler.errors.push(err)
        }),
{
}

/// What is left to be compiled of a module: what its declarations come to after its imports, seen
/// with the types and names that are known in it then. Each declaration is looked at once.
pub proof fn law_module_outcome(
    c: CompilerV,
    module: SourceModule,
    types: TypeScopeV,
    names: NameScopeV,
    walks: Seq<Seq<ImportItemV>>,
)
    ensures
        ({
            let done = compile_module(c, module, types, names, walks);
            let (scopes, errors) = import_all(
                c.modules,
                c.repo.globals,
                module.imports@,
                module.imports@.len() as int,
                walks,
                (ScopesV { types, names }),
            );
            let start = CompilerV { errors: c.errors + errors, ..c };
            let all = compile_entries(
                start,
                views(module.path@),
                module.entries@,
                module.entries@.len() as int,
                scopes.types,
                scopes.names,
            );
            &&& done.compiler == all.compiler
            &&& done.module.items == all.items
            &&& done.module.types == scopes.types.top()
            &&& all.names.local matches Some(local) ==> done.module.names == local
            &&& all.names.local is None ==> done.module.names.keys.len() == 0
            &&& done.names.global == all.names.global
            &&& done.names.local is None
        }),
{
}

/// Each file becomes one module that is left to be compiled, in the order of the files, with the
/// types of its own scope on top of the global ones. A file without a path adds to the global
/// names.
pub proof fn law_one_module_for_each_file(
    at: PopulatedV,
    names: NameScopeV,
    modules: Seq<SourceModule>,
    n: int,
    walks: Seq<Seq<Seq<ImportItemV>>>,
    i: int,
)
    requires
        0 <= i < n <= modules.len(),
    ensures
        ({
            let done = compile_modules(at, names, modules, n, walks);
            let so_far = compile_modules(at, names, modules, i, walks);
            let first = at.compiler.queue.len();
            let start = if modules[i].path@.len() == 0 {
                so_far.names
            } else {
                so_far.names.push_scope(DictV::empty())
            };
            &&& done.compiler.queue.len() == first + n
            &&& at.compiler.queue.is_prefix_of(done.compiler.queue)
            &&& done.compiler.queue[first + i] == compile_module(
                so_far.compiler,
                modules[i],
                at.types.push_scope(at.scopes[i]),
                start,
                walks[i],
            ).module
        }),
    decreases n,
{
    lemma_queue_grows(at, names, modules, n - 1, walks);
    let was = compile_modules(at, names, modules, n - 1, walks);
    let done = compile_modules(at, names, modules, n, walks);
    let first = at.compiler.queue.len() as int;
    let one = compile_module(
        was.compiler,
        modules[n - 1],
        at.types.push_scope(at.scopes[n - 1]),
        module_names(modules[n - 1], was.names),
        walks[n - 1],
    );
    lemma_module_keeps_queue(
        was.compiler,
        modules[n - 1],
        at.types.push_scope(at.scopes[n - 1]),
        module_names(modules[n - 1], was.names),
        walks[n - 1],
    );
    assert(done.compiler.queue == was.compiler.queue.push(one.module));
    if i < n - 1 {
        law_one_module_for_each_file(at, names, modules, n - 1, walks, i);
    }
    assert(at.compiler.queue =~= done.compiler.queue.subrange(0, first));
}

/// What a module comes to waits for no module.
proof fn lemma_module_keeps_queue(
    c: CompilerV,
    module: SourceModule,
    types: TypeScopeV,
    names: NameScopeV,
    walks: Seq<Seq<ImportItemV>>,
)
    ensures
        compile_module(c, module, types, names, walks).compiler.queue == c.queue,
{
    let (at, scopes) = after_imports(c, module, types, names, walks);
    lemma_entries_keep_names(
        at,
        views(module.path@),
        module.entries@,
        module.entries@.len() as int,
        scopes.types,
        scopes.names,
    );
}

proof fn lemma_queue_grows(
    at: PopulatedV,
    names: NameScopeV,
    modules: Seq<SourceModule>,
    n: int,
    walks: Seq<Seq<Seq<ImportItemV>>>,
)
    ensures
        ({
            let queue = compile_modules(at, names, modules, n, walks).compiler.queue;
            &&& n >= 0 ==> queue.len() == at.compiler.queue.len() + n
            &&& queue.len() >= at.compiler.queue.len()
            &&& at.compiler.queue =~= queue.subrange(0, at.compiler.queue.len() as int)
        }),
    decreases n,
{
    if n > 0 {
        lemma_queue_grows(at, names, modules, n - 1, walks);
        let was = compile_modules(at, names, modules, n - 1, walks);
        lemma_module_keeps_queue(
            was.compiler,
            modules[n - 1],
            at.types.push_scope(at.scopes[n - 1]),
            module_names(modules[n - 1], was.names),
            walks[n - 1],
        );
        let first = at.compiler.queue.len() as int;
        let done = compile_modules(at, names, modules, n, walks).compiler.queue;
        assert(done.subrange(0, first) =~= was.compiler.queue.subrange(0, first));
    } else {
        let queue = at.compiler.queue;
        assert(queue =~= queue.subrange(0, queue.len() as int));
    }
}

/// The scopes of the modules are handed on, one for each module that is left to be compiled, with
/// all that has been declared and reported.
pub proof fn law_outputs(c: CompilerV, types: TypeScopeV, names: NameScopeV, i: int)
    ensures
        ({
            let out = outputs_of(c, types, names);
            &&& out.repo == c.repo
            &&& out.defined == c.defined
            &&& out.errors == c.errors
            &&& out.types == types
            &&& out.names == names
            &&& out.scopes.len() == c.queue.len()
            &&& 0 <= i < c.queue.len() ==> out.scopes[i].types == c.queue[i].types
                && out.scopes[i].names == c.queue[i].names
        }),
{
}

/// The error that is told is that of the first file that has one: what was expected, at the place
/// in all files taken together. There is one exactly if a file has one.
pub proof fn law_first_syntax_error(files: Seq<ParsedFile>, i: int, err: ParseError)
    ensures
        0 <= first_error(files) <= files.len(),
        0 <= i < first_error(files) ==> files[i].result is Ok,
        first_error(files) < files.len() ==> files[first_error(files)].result is Err,
        0 <= i < files.len() && is_parse_error(files[i], err) ==> (files[i].result matches Err(e)
            && err.expected == e.expected && err.span.low == files[i].byte_offset + e.offset
            && err.span.high == err.span.low),
    decreases files.len(),
{
    if files.len() > 0 && files[0].result is Ok {
        let rest = files.drop_first();
        law_first_syntax_error(rest, i - 1, err);
        assert(0 < i < files.len() ==> rest[i - 1] == files[i]);
        assert(first_error(files) < files.len() ==> rest[first_error(files) - 1]
            == files[first_error(files)]);
    }
}

/// A module is there exactly if something lies at its path or below it. The root is always there,
/// and whatever is added makes all the modules that it is in be there.
pub proof fn law_module_is_there(
    modules: ModulesV,
    path: Seq<Seq<char>>,
    id: Seq<char>,
    name: ScopedNameV,
    func: int,
)
    ensures
        has_module(modules, Seq::empty()),
        has_module(modules, path) && path.len() > 0 ==> exists|key: Seq<Seq<char>>|
            modules.dom().contains(key) && path.len() <= key.len() && key.take(path.len() as int)
                == path,
        path.is_prefix_of(type_parts(id)) ==> has_module(add_type(modules, id), path),
        path.is_prefix_of(name.path.push(name.name)) ==> has_module(
            add_function(modules, name, func),
            path,
        ),
        has_module(modules, path) ==> has_module(add_type(modules, id), path),
{
    if has_module(modules, path) && path.len() > 0 {
        let key = choose|key: Seq<Seq<char>>| #[trigger]
            modules.dom().contains(key) && path.is_prefix_of(key);
        assert(key.take(path.len() as int) =~= path);
        assert(add_type(modules, id).dom().contains(key));
    }
    if path.is_prefix_of(type_parts(id)) {
        assert(add_type(modules, id).dom().contains(type_parts(id)));
    }
    if path.is_prefix_of(name.path.push(name.name)) {
        assert(add_function(modules, name, func).dom().contains(name.path.push(name.name)));
    }
}

} // verus!
