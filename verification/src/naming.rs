//! What names stand for: in scopes, in type names, and where functions of the pool are called.
use vstd::prelude::*;

use crate::compiler::{is_run, CompilerV};
use crate::dict::{views, DictV};
use crate::error::TypeErrorV;
use crate::funcs::{FuncMapV, TypeVarV};
use crate::inheritance::is_inherited;
use crate::module_map::{last_part, ImportItemV, ModulesV};
use crate::modules::{
    compile_entries, compile_modules, import, import_all, import_item, import_items,
    import_selected, is_collected, known_names, known_types, module_names, populated, start_names,
    CollectedV, PopulatedV, ScopesV,
};
use crate::order::types_at_paths;
use crate::preprocess::preprocess_entry;
use crate::queue::{outputs_of, OutputsV};
use crate::repo::RepoV;
use crate::scope::{
    add_global, instantiate_vars, push_global, resolve_args, resolve_type, var_scope, GlobalV,
    NameScopeV, ScopedMapV, TypeScopeV,
};
use crate::source::{Import, SourceEntry, SourceModule, TypeName, TypeParam};
use crate::types::{prim_name, prim_named, TypeV};

verus! {

/// A name of a module hides a global one of the same name, and no other.
pub proof fn law_local_hides_global<V>(
    scope: ScopedMapV<V>,
    local: DictV<Seq<char>, V>,
    name: Seq<char>,
)
    ensures
        local.get(name) is Some ==> scope.push_scope(local).lookup(name) == local.get(name),
        local.get(name) is None ==> scope.push_scope(local).lookup(name) == scope.global.get(name),
        scope.push_scope(local).outside().lookup(name) == scope.global.get(name),
        scope.local is None ==> scope.lookup(name) == scope.global.get(name),
{
}

/// What is put into a scope is found, and nothing else changes. In a module it hides what lies
/// outside.
pub proof fn law_inserted_is_found<V>(
    scope: ScopedMapV<V>,
    name: Seq<char>,
    val: V,
    other: Seq<char>,
)
    requires
        scope.global.wf(),
        scope.local is Some ==> scope.local->0.wf(),
    ensures
        scope.insert(name, val).lookup(name) == Some(val),
        other != name ==> scope.insert(name, val).lookup(other) == scope.lookup(other),
        scope.local is Some ==> scope.insert(name, val).global == scope.global,
{
    scope.top().lemma_put(name, val);
    let top = scope.top().put(name, val);
    assert(top.get(name) == Some(val));
    if other != name {
        assert(top.get(other) == scope.top().get(other));
    }
}

/// Whether a name of the innermost scope stands for a function, among other things.
pub open spec fn stands_for(names: NameScopeV, name: Seq<char>, global: GlobalV) -> bool {
    match names.local {
        Some(local) => local.has(name) && local.at(name).contains(global),
        None => names.global.has(name) && names.global.at(name).contains(global),
    }
}

/// A name that is made to stand for one more thing stands for it, for all that it stood for before,
/// and for nothing else. No other name changes.
pub proof fn law_pushed_global(
    names: NameScopeV,
    name: Seq<char>,
    global: GlobalV,
    other: Seq<char>,
    what: GlobalV,
)
    requires
        names.global.wf(),
        names.local is Some ==> names.local->0.wf(),
    ensures
        stands_for(push_global(names, name, global), other, what) <==> stands_for(
            names,
            other,
            what,
        ) || (other == name && what == global),
        stands_for(add_global(names, name, global), other, what) <==> stands_for(
            names,
            other,
            what,
        ) || (other == name && what == global),
        stands_for(names, name, global) ==> add_global(names, name, global) == names,
        push_global(names, name, global).local is Some <==> names.local is Some,
        names.local is Some ==> push_global(names, name, global).global == names.global,
        push_global(names, name, global).global.wf(),
        names.local is Some ==> push_global(names, name, global).local->0.wf(),
{
    let top = names.top();
    let was = match top.get(name) {
        Some(items) => items,
        None => Seq::empty(),
    };
    top.lemma_put(name, was.push(global));
    let done = top.put(name, was.push(global));
    assert(done.get(name) == Some(was.push(global)));
    assert(was.push(global)[was.len() as int] == global);
    assert(was.push(global).contains(what) <==> was.contains(what) || what == global) by {
        if was.contains(what) {
            let i = choose|i: int| 0 <= i < was.len() && was[i] == what;
            assert(was.push(global)[i] == what);
        }
        if was.push(global).contains(what) && what != global {
            let i = choose|i: int|
                0 <= i < was.push(global).len() && was.push(global)[i] == what;
            assert(was[i] == what);
        }
    }
    if other != name {
        assert(done.get(other) == top.get(other));
    }
}

/// Whether a scope of the names of all modules is in order.
spec fn is_global(names: NameScopeV) -> bool {
    names.local is None && names.global.wf()
}

proof fn lemma_known_names(globals: FuncMapV, n: int)
    requires
        0 <= n <= globals.names.len(),
    ensures
        is_global(known_names(globals, n)),
        forall|name: Seq<char>, what: GlobalV| #[trigger]
            stands_for(known_names(globals, n), name, what) <==> (what matches GlobalV::Func(f) && 0
                <= f < n && globals.names[f].name == name),
    decreases n,
{
    let names = known_names(globals, n);
    if n > 0 {
        lemma_known_names(globals, n - 1);
        let at = known_names(globals, n - 1);
        let own = globals.names[n - 1].name;
        law_pushed_global(at, own, GlobalV::Func(n - 1), own, GlobalV::Func(n - 1));
        assert forall|name: Seq<char>, what: GlobalV| #[trigger]
            stands_for(names, name, what) <==> (what matches GlobalV::Func(f) && 0 <= f < n
                && globals.names[f].name == name) by {
            law_pushed_global(at, own, GlobalV::Func(n - 1), name, what);
            assert(stands_for(at, name, what) <==> (what matches GlobalV::Func(f) && 0 <= f < n - 1
                && globals.names[f].name == name));
        }
    }
}

/// Before any module is looked at, every function of the repository is known under its own name,
/// and a name stands for nothing but the functions of that name.
pub proof fn law_functions_known_by_name(c: CompilerV, f: int, name: Seq<char>, what: GlobalV)
    ensures
        0 <= f < c.repo.globals.names.len() ==> ({
            let own = c.repo.globals.names[f].name;
            &&& start_names(c).lookup(own) is Some
            &&& start_names(c).lookup(own)->0.contains(GlobalV::Func(f))
        }),
        start_names(c).lookup(name) is Some && start_names(c).lookup(name)->0.contains(what)
            ==> (what matches GlobalV::Func(g) && 0 <= g < c.repo.globals.names.len()
            && c.repo.globals.names[g].name == name),
{
    let n = c.repo.globals.names.len() as int;
    lemma_known_names(c.repo.globals, n);
    if 0 <= f < n {
        assert(stands_for(start_names(c), c.repo.globals.names[f].name, GlobalV::Func(f)));
    }
    assert(stands_for(start_names(c), name, what) ==> (what matches GlobalV::Func(g) && 0 <= g < n
        && c.repo.globals.names[g].name == name));
}

/// Whether no name has lost anything that it stood for.
pub open spec fn only_more(before: NameScopeV, after: NameScopeV) -> bool {
    &&& before.local is Some <==> after.local is Some
    &&& after.global.wf()
    &&& after.local is Some ==> after.local->0.wf()
    &&& before.local is Some ==> after.global == before.global
    &&& forall|name: Seq<char>, what: GlobalV| #[trigger]
        stands_for(before, name, what) ==> stands_for(after, name, what)
}

/// Whether the names of a scope are in order.
pub open spec fn names_wf(names: NameScopeV) -> bool {
    names.global.wf() && (names.local is Some ==> names.local->0.wf())
}

proof fn lemma_push_more(names: NameScopeV, name: Seq<char>, global: GlobalV)
    requires
        names_wf(names),
    ensures
        only_more(names, push_global(names, name, global)),
        only_more(names, add_global(names, name, global)),
{
    law_pushed_global(names, name, global, name, global);
    assert forall|other: Seq<char>, what: GlobalV| #[trigger]
        stands_for(names, other, what) implies stands_for(
        push_global(names, name, global),
        other,
        what,
    ) && stands_for(add_global(names, name, global), other, what) by {
        law_pushed_global(names, name, global, other, what);
    }
}

proof fn lemma_items_more(globals: FuncMapV, items: Seq<ImportItemV>, n: int, s: ScopesV)
    requires
        names_wf(s.names),
    ensures
        only_more(s.names, import_items(globals, items, n, s).names),
    decreases n,
{
    if n > 0 {
        lemma_items_more(globals, items, n - 1, s);
        lemma_item_more(globals, items[n - 1], import_items(globals, items, n - 1, s));
    }
}

proof fn lemma_item_more(globals: FuncMapV, item: ImportItemV, s: ScopesV)
    requires
        names_wf(s.names),
    ensures
        only_more(s.names, import_item(globals, item, s).names),
{
    if let ImportItemV::Func(func) = item {
        lemma_push_more(s.names, globals.names[func].name, GlobalV::Func(func));
    }
}

proof fn lemma_selected_more(
    modules: ModulesV,
    globals: FuncMapV,
    path: Seq<Seq<char>>,
    selected: Seq<Seq<char>>,
    n: int,
    s: ScopesV,
)
    requires
        names_wf(s.names),
    ensures
        only_more(s.names, import_selected(modules, globals, path, selected, n, s).0.names),
    decreases n,
{
    if n > 0 {
        lemma_selected_more(modules, globals, path, selected, n - 1, s);
        let (at, missing) = import_selected(modules, globals, path, selected, n - 1, s);
        let next = path.push(selected[n - 1]);
        if missing is None && modules.dom().contains(next) {
            lemma_item_more(globals, modules[next], at);
        }
    }
}

/// An import takes nothing from what names stand for.
pub proof fn lemma_import_more(
    modules: ModulesV,
    globals: FuncMapV,
    source: Import,
    walk: Seq<ImportItemV>,
    at: ScopesV,
)
    requires
        names_wf(at.names),
    ensures
        only_more(at.names, import(modules, globals, source, walk, at).0.names),
{
    match source {
        Import::Exact(path, _) => {
            if modules.dom().contains(views(path@)) {
                lemma_item_more(globals, modules[views(path@)], at);
            }
        },
        Import::Selected(path, selected, _) => {
            lemma_selected_more(
                modules,
                globals,
                views(path@),
                views(selected@),
                selected@.len() as int,
                at,
            );
        },
        Import::All(_, _) => {
            lemma_items_more(globals, walk, walk.len() as int, at);
        },
    }
}

pub proof fn lemma_imports_more(
    modules: ModulesV,
    globals: FuncMapV,
    imports: Seq<Import>,
    n: int,
    walks: Seq<Seq<ImportItemV>>,
    s: ScopesV,
)
    requires
        names_wf(s.names),
    ensures
        only_more(s.names, import_all(modules, globals, imports, n, walks, s).0.names),
    decreases n,
{
    if n > 0 {
        lemma_imports_more(modules, globals, imports, n - 1, walks, s);
        let at = import_all(modules, globals, imports, n - 1, walks, s).0;
        lemma_import_more(modules, globals, imports[n - 1], walks[n - 1], at);
    }
}

proof fn lemma_entries_more(
    c: CompilerV,
    path: Seq<Seq<char>>,
    entries: Seq<SourceEntry>,
    n: int,
    types: TypeScopeV,
    names: NameScopeV,
)
    requires
        names_wf(names),
    ensures
        only_more(names, compile_entries(c, path, entries, n, types, names).names),
    decreases n,
{
    if n > 0 {
        lemma_entries_more(c, path, entries, n - 1, types, names);
        let at = compile_entries(c, path, entries, n - 1, types, names);
        reveal(preprocess_entry);
        if let SourceEntry::Function(func) = entries[n - 1] {
            let index = at.compiler.repo.globals.func_of(
                crate::funcs::ScopedNameV { path, name: func.decl.name@ },
            );
            lemma_push_more(
                at.names,
                func.decl.name@,
                crate::preprocess::global_named(at.compiler, func.decl.name@, index),
            );
        }
    }
}

proof fn lemma_modules_more(
    at: PopulatedV,
    names: NameScopeV,
    modules: Seq<SourceModule>,
    n: int,
    walks: Seq<Seq<Seq<ImportItemV>>>,
)
    requires
        is_global(names),
    ensures
        is_global(compile_modules(at, names, modules, n, walks).names),
        only_more(names, compile_modules(at, names, modules, n, walks).names),
    decreases n,
{
    if n > 0 {
        lemma_modules_more(at, names, modules, n - 1, walks);
        let so_far = compile_modules(at, names, modules, n - 1, walks);
        let module = modules[n - 1];
        let own = module_names(module, so_far.names);
        let s = ScopesV { types: at.types.push_scope(at.scopes[n - 1]), names: own };
        lemma_imports_more(
            so_far.compiler.modules,
            so_far.compiler.repo.globals,
            module.imports@,
            module.imports@.len() as int,
            walks[n - 1],
            s,
        );
        let (start, scopes) = crate::modules::after_imports(
            so_far.compiler,
            module,
            s.types,
            own,
            walks[n - 1],
        );
        lemma_entries_more(
            start,
            views(module.path@),
            module.entries@,
            module.entries@.len() as int,
            scopes.types,
            scopes.names,
        );
        let done = compile_modules(at, names, modules, n, walks).names;
        if module.path@.len() > 0 {
            assert(done == so_far.names);
        }
    }
}

/// The functions that the repository has to start with are still known under their names when
/// function bodies are checked.
pub proof fn law_functions_stay_known(
    c: CompilerV,
    modules: Seq<SourceModule>,
    out: OutputsV,
    f: int,
)
    requires
        is_run(c, modules, out),
        0 <= f < c.repo.globals.names.len(),
    ensures
        ({
            let own = c.repo.globals.names[f].name;
            &&& out.names.lookup(own) is Some
            &&& out.names.lookup(own)->0.contains(GlobalV::Func(f))
        }),
{
    let at = populated(c, modules);
    let names = start_names(c);
    let (done, after) = choose|done: CollectedV, after: CompilerV|
        {
            &&& #[trigger] is_collected(at, names, modules, done)
            &&& #[trigger] is_inherited(done.compiler, after)
            &&& out == outputs_of(after, at.types, done.names)
        };
    let walks = choose|walks: Seq<Seq<Seq<ImportItemV>>>|
        {
            &&& walks.len() == modules.len()
            &&& #[trigger] crate::modules::all_walks_ok(at.compiler.modules, modules, walks)
            &&& done == compile_modules(at, names, modules, modules.len() as int, walks)
        };
    lemma_known_names(c.repo.globals, c.repo.globals.names.len() as int);
    lemma_modules_more(at, names, modules, modules.len() as int, walks);
    assert(stands_for(names, c.repo.globals.names[f].name, GlobalV::Func(f)));
    assert(stands_for(done.names, c.repo.globals.names[f].name, GlobalV::Func(f)));
}

/// To start with, a name stands for a type exactly if it is the full name of that type.
pub proof fn law_types_known_by_full_name(repo: RepoV, name: Seq<char>)
    requires
        repo.types.wf(),
    ensures
        known_types(repo).lookup(name) == if repo.has(name) {
            Some(name)
        } else {
            None::<Seq<char>>
        },
{
}

/// A written type name stands for what it says: a type variable in scope before anything else, a
/// primitive type where it has no arguments, and otherwise the type that its name stands for,
/// applied to what its arguments stand for, in order. It stands for nothing exactly if it, or one
/// of its arguments, is not known.
pub proof fn law_resolved_type(
    tn: TypeName,
    types: TypeScopeV,
    outer: DictV<Seq<char>, TypeV>,
    inner: DictV<Seq<char>, TypeV>,
)
    ensures
        ({
            let res = resolve_type(tn, types, outer, inner);
            let is_var = outer.has(tn.name@) || inner.has(tn.name@);
            let is_prim = tn.args@.len() == 0 && prim_named(tn.name@) is Some;
            &&& is_var ==> res == Ok::<TypeV, TypeErrorV>(TypeV::Var(tn.name@))
            &&& !is_var && is_prim ==> (res matches Ok(TypeV::Prim(prim)) && prim_name(prim)
                == tn.name@)
            &&& !is_var && !is_prim ==> {
                &&& types.lookup(tn.name@) is None ==> res == Err::<TypeV, TypeErrorV>(
                    TypeErrorV::UnresolvedType(tn.name@),
                )
                &&& types.lookup(tn.name@) matches Some(id) ==> {
                    &&& res is Ok <==> forall|i: int|
                        0 <= i < tn.args@.len() ==> resolve_type(
                            #[trigger] tn.args@[i],
                            types,
                            outer,
                            inner,
                        ) is Ok
                    &&& res matches Ok(typ) ==> {
                        &&& typ matches TypeV::Data(data) && data.id == id && data.args.len()
                            == tn.args@.len()
                        &&& forall|i: int|
                            0 <= i < tn.args@.len() ==> resolve_type(
                                #[trigger] tn.args@[i],
                                types,
                                outer,
                                inner,
                            ) == Ok::<TypeV, TypeErrorV>(typ->Data_0.args[i])
                    }
                }
            }
        }),
{
    lemma_resolved_args(tn.args@, tn.args@.len(), types, outer, inner);
    if prim_named(tn.name@) is Some {
        let prim = choose|prim: crate::types::Prim| prim_name(prim) == tn.name@;
        assert(prim_name(prim) == tn.name@);
    }
}

proof fn lemma_resolved_args(
    args: Seq<TypeName>,
    n: nat,
    types: TypeScopeV,
    outer: DictV<Seq<char>, TypeV>,
    inner: DictV<Seq<char>, TypeV>,
)
    requires
        n <= args.len(),
    ensures
        ({
            let res = resolve_args(args, n, types, outer, inner);
            &&& res is Ok <==> forall|i: int|
                0 <= i < n ==> resolve_type(#[trigger] args[i], types, outer, inner) is Ok
            &&& res matches Ok(done) ==> done.len() == n && forall|i: int|
                0 <= i < n ==> resolve_type(#[trigger] args[i], types, outer, inner) == Ok::<
                    TypeV,
                    TypeErrorV,
                >(done[i])
        }),
    decreases n,
{
    if n > 0 {
        lemma_resolved_args(args, (n - 1) as nat, types, outer, inner);
    }
}

/// Type parameters introduce one variable each, in order and under its name. Each is bounded by
/// what its written bound stands for, or by nothing where none is written.
pub proof fn law_type_variables(
    params: Seq<TypeParam>,
    n: int,
    types: TypeScopeV,
    outer: DictV<Seq<char>, TypeV>,
    inner: DictV<Seq<char>, TypeV>,
)
    requires
        0 <= n <= params.len(),
    ensures
        ({
            let res = instantiate_vars(params, n, types, outer, inner);
            &&& res is Ok <==> forall|i: int|
                0 <= i < n ==> ((#[trigger] params[i]).extends matches Some(tn) ==> resolve_type(
                    tn,
                    types,
                    outer,
                    inner,
                ) is Ok)
            &&& res matches Ok(vars) ==> vars.len() == n && forall|i: int|
                0 <= i < n ==> {
                    &&& vars[i].name == (#[trigger] params[i]).name@
                    &&& match params[i].extends {
                        Some(tn) => resolve_type(tn, types, outer, inner) == Ok::<
                            TypeV,
                            TypeErrorV,
                        >(vars[i].upper),
                        None => vars[i].upper == TypeV::Top,
                    }
                }
        }),
    decreases n,
{
    if n > 0 {
        law_type_variables(params, n - 1, types, outer, inner);
    }
}

/// Type variables are in scope under their names, each as itself, and nothing else is.
pub proof fn law_variables_in_scope(vars: Seq<TypeVarV>, n: int, name: Seq<char>)
    requires
        0 <= n <= vars.len(),
    ensures
        var_scope(vars, n).wf(),
        var_scope(vars, n).has(name) <==> exists|i: int|
            0 <= i < n && (#[trigger] vars[i]).name == name,
        var_scope(vars, n).has(name) ==> var_scope(vars, n).at(name) == TypeV::Var(name),
    decreases n,
{
    if n > 0 {
        law_variables_in_scope(vars, n - 1, name);
        let at = var_scope(vars, n - 1);
        let own = vars[n - 1].name;
        at.lemma_put(own, TypeV::Var(own));
        let done = at.put(own, TypeV::Var(own));
        if own != name {
            assert(done.get(name) == at.get(name));
            if at.has(name) {
                let i = choose|i: int| 0 <= i < n - 1 && (#[trigger] vars[i]).name == name;
                assert(vars[i].name == name);
            }
        } else {
            assert(done.get(name) == Some(TypeV::Var(name)));
            assert(vars[n - 1].name == name);
        }
    }
}

/// An imported item is known under its own name: a type under the last part of its full name, and a
/// function as itself next to what its name stood for. Nothing else changes.
pub proof fn law_imported_item(
    globals: FuncMapV,
    item: ImportItemV,
    s: ScopesV,
    name: Seq<char>,
    what: GlobalV,
)
    requires
        names_wf(s.names),
        s.types.global.wf(),
        s.types.local is Some ==> s.types.local->0.wf(),
    ensures
        ({
            let done = import_item(globals, item, s);
            match item {
                ImportItemV::Type(id) => {
                    &&& done.names == s.names
                    &&& done.types.lookup(name) == if name == last_part(id) {
                        Some(id)
                    } else {
                        s.types.lookup(name)
                    }
                },
                ImportItemV::Func(f) => {
                    &&& done.types == s.types
                    &&& stands_for(done.names, name, what) <==> stands_for(s.names, name, what) || (
                    name == globals.names[f].name && what == GlobalV::Func(f))
                },
            }
        }),
{
    match item {
        ImportItemV::Type(id) => {
            law_inserted_is_found(s.types, last_part(id), id, name);
        },
        ImportItemV::Func(f) => {
            law_pushed_global(s.names, globals.names[f].name, GlobalV::Func(f), name, what);
        },
    }
}

proof fn lemma_selected_stops(
    modules: ModulesV,
    globals: FuncMapV,
    path: Seq<Seq<char>>,
    selected: Seq<Seq<char>>,
    n: int,
    s: ScopesV,
)
    requires
        0 <= n <= selected.len(),
        import_selected(modules, globals, path, selected, n, s).1 is None,
    ensures
        forall|i: int| 0 <= i < n ==> modules.dom().contains(path.push(#[trigger] selected[i])),
    decreases n,
{
    if n > 0 {
        lemma_selected_stops(modules, globals, path, selected, n - 1, s);
    }
}

/// Every selected item of a module is known after an import of them: a function as itself under its
/// name, and a type under its short name where no other selected item has that.
pub proof fn law_selected_are_known(
    modules: ModulesV,
    globals: FuncMapV,
    path: Seq<Seq<char>>,
    selected: Seq<Seq<char>>,
    n: int,
    s: ScopesV,
    i: int,
)
    requires
        types_at_paths(modules),
        selected.no_duplicates(),
        names_wf(s.names),
        s.types.global.wf(),
        s.types.local is Some ==> s.types.local->0.wf(),
        0 <= i < n <= selected.len(),
        import_selected(modules, globals, path, selected, n, s).1 is None,
    ensures
        ({
            let done = import_selected(modules, globals, path, selected, n, s).0;
            &&& modules.dom().contains(path.push(selected[i]))
            &&& names_wf(done.names)
            &&& done.types.global.wf()
            &&& done.types.local is Some ==> done.types.local->0.wf()
            &&& match modules[path.push(selected[i])] {
                ImportItemV::Type(id) => done.types.lookup(selected[i]) == Some(id),
                ImportItemV::Func(f) => stands_for(
                    done.names,
                    globals.names[f].name,
                    GlobalV::Func(f),
                ),
            }
        }),
    decreases n,
{
    lemma_selected_stops(modules, globals, path, selected, n, s);
    let at = import_selected(modules, globals, path, selected, n - 1, s).0;
    let item = modules[path.push(selected[n - 1])];
    assert(modules.dom().contains(path.push(selected[n - 1])));
    assert(modules.dom().contains(path.push(selected[i])));
    if n - 1 > 0 {
        law_selected_are_known(modules, globals, path, selected, n - 1, s, if i < n - 1 {
            i
        } else {
            0
        });
    }
    lemma_item_more(globals, item, at);
    match item {
        ImportItemV::Type(id) => {
            assert(last_part(id) == selected[n - 1]);
            at.types.top().lemma_put(last_part(id), id);
            law_inserted_is_found(at.types, last_part(id), id, selected[i]);
        },
        ImportItemV::Func(f) => {
            law_pushed_global(
                at.names,
                globals.names[f].name,
                GlobalV::Func(f),
                globals.names[f].name,
                GlobalV::Func(f),
            );
            if i < n - 1 {
                if let ImportItemV::Func(g) = modules[path.push(selected[i])] {
                    law_pushed_global(
                        at.names,
                        globals.names[f].name,
                        GlobalV::Func(f),
                        globals.names[g].name,
                        GlobalV::Func(g),
                    );
                }
            }
        },
    }
}

/// After an import of a whole module each item that was found in it is known: a function as itself
/// under its name.
pub proof fn law_module_functions_are_known(
    globals: FuncMapV,
    walk: Seq<ImportItemV>,
    n: int,
    s: ScopesV,
    i: int,
)
    requires
        names_wf(s.names),
        0 <= i < n <= walk.len(),
        walk[i] is Func,
    ensures
        ({
            let f = walk[i]->Func_0;
            stands_for(
                import_items(globals, walk, n, s).names,
                globals.names[f].name,
                GlobalV::Func(f),
            )
        }),
    decreases n,
{
    let at = import_items(globals, walk, n - 1, s);
    let f = walk[i]->Func_0;
    lemma_items_more(globals, walk, n - 1, s);
    lemma_item_more(globals, walk[n - 1], at);
    if i < n - 1 {
        law_module_functions_are_known(globals, walk, n - 1, s, i);
        assert(stands_for(at.names, globals.names[f].name, GlobalV::Func(f)));
    } else {
        law_pushed_global(
            at.names,
            globals.names[f].name,
            GlobalV::Func(f),
            globals.names[f].name,
            GlobalV::Func(f),
        );
    }
}

} // verus!
