//! What a declared type refers to, whatever the order of the files.
use vstd::prelude::*;

use crate::compiler::{is_run, run_ok, CompilerV};
use crate::dict::{views, DictV};
use crate::error::Span;
use crate::flags::{function_flags, ClassFlags};
use crate::funcs::{promoted, FuncMapV, ScopedNameV, TypeVarV};
use crate::inheritance::{
    bases_of, bases_ok, fills_params, fills_ret, inherit_ok, is_inherited, lemma_bases_of,
    method_at, promote_all, root,
};
use crate::module_map::{
    has_module, is_listing, last_part, lists_module, type_id, type_parts, ImportItemV, ModulesV,
};
use crate::modules::{
    after_imports, all_walks_ok, compile_entries, compile_modules, import, import_all, import_item,
    import_items, import_selected, is_collected, known_types, module_names, populate_entries,
    populate_modules, populated, start_names, walk_ok, walks_ok, CollectedV, PopulatedV, ScopesV,
};
use crate::preprocess::{
    add_field, add_members, annotation_target, class_base, empty_class, enum_members,
    field_annotation, function_type, only_ident, preprocess_class, preprocess_entry, resolve_params,
    MembersV,
};
use crate::queue::{outputs_of, OutputsV};
use crate::repo::{with_method, ClassTypeV, DataTypeV, RepoV};
use crate::scope::{
    instantiate_vars, resolve_args, resolve_param_type, resolve_type, var_scope, NameScopeV,
    ScopedMapV, TypeScopeV,
};
use crate::source::{
    ClassSource, FunctionSource, Import, MemberSource, ParameterSource, SourceEntry, SourceModule,
    TypeName, TypeParam,
};
use crate::tables::MemberIdV;
use crate::text::{joined, lemma_join_undoes_split};
use crate::types::{ParameterizedV, TypeV};

verus! {

/// Whether every name stands for the same type in two scopes.
pub open spec fn same_types(a: TypeScopeV, b: TypeScopeV) -> bool {
    forall|name: Seq<char>| #[trigger] a.lookup(name) == b.lookup(name)
}

pub proof fn lemma_resolve_same(
    tn: TypeName,
    a: TypeScopeV,
    b: TypeScopeV,
    outer: DictV<Seq<char>, TypeV>,
    inner: DictV<Seq<char>, TypeV>,
)
    requires
        same_types(a, b),
    ensures
        resolve_type(tn, a, outer, inner) == resolve_type(tn, b, outer, inner),
        resolve_param_type(tn, a, outer, inner) == resolve_param_type(tn, b, outer, inner),
    decreases tn, 2nat,
{
    assert(a.lookup(tn.name@) == b.lookup(tn.name@));
    lemma_args_same(tn.args@, tn.args@.len(), a, b, outer, inner);
}

proof fn lemma_args_same(
    args: Seq<TypeName>,
    n: nat,
    a: TypeScopeV,
    b: TypeScopeV,
    outer: DictV<Seq<char>, TypeV>,
    inner: DictV<Seq<char>, TypeV>,
)
    requires
        same_types(a, b),
    ensures
        resolve_args(args, n, a, outer, inner) == resolve_args(args, n, b, outer, inner),
    decreases args, n,
{
    if 0 < n <= args.len() {
        lemma_args_same(args, (n - 1) as nat, a, b, outer, inner);
        lemma_resolve_same(args[n - 1], a, b, outer, inner);
    }
}

pub proof fn lemma_vars_same(
    params: Seq<TypeParam>,
    n: int,
    a: TypeScopeV,
    b: TypeScopeV,
    outer: DictV<Seq<char>, TypeV>,
    inner: DictV<Seq<char>, TypeV>,
)
    requires
        same_types(a, b),
    ensures
        instantiate_vars(params, n, a, outer, inner) == instantiate_vars(
            params,
            n,
            b,
            outer,
            inner,
        ),
    decreases n,
{
    if n > 0 {
        lemma_vars_same(params, n - 1, a, b, outer, inner);
        if params[n - 1].extends is Some {
            lemma_resolve_same(params[n - 1].extends->0, a, b, outer, inner);
        }
    }
}

proof fn lemma_params_same(
    params: Seq<ParameterSource>,
    n: int,
    a: TypeScopeV,
    b: TypeScopeV,
    outer: DictV<Seq<char>, TypeV>,
    inner: DictV<Seq<char>, TypeV>,
)
    requires
        same_types(a, b),
    ensures
        resolve_params(params, n, a, outer, inner) == resolve_params(params, n, b, outer, inner),
    decreases n,
{
    if n > 0 {
        lemma_params_same(params, n - 1, a, b, outer, inner);
        lemma_resolve_same(params[n - 1].type_, a, b, outer, inner);
    }
}

pub proof fn lemma_function_same(
    func: FunctionSource,
    a: TypeScopeV,
    b: TypeScopeV,
    outer: DictV<Seq<char>, TypeV>,
)
    requires
        same_types(a, b),
    ensures
        function_type(func, a, outer) == function_type(func, b, outer),
{
    let n = func.tparams@.len() as int;
    lemma_vars_same(func.tparams@, n, a, b, outer, DictV::empty());
    let vars = instantiate_vars(func.tparams@, n, a, outer, DictV::empty());
    if vars is Ok {
        let inner = var_scope(vars->Ok_0, vars->Ok_0.len() as int);
        lemma_params_same(
            func.parameters@,
            func.parameters@.len() as int,
            a,
            b,
            outer,
            inner,
        );
        if func.type_ is Some {
            lemma_resolve_same(func.type_->0, a, b, outer, inner);
        }
    }
}

pub proof fn lemma_members_same(
    members: Seq<MemberSource>,
    n: int,
    a: TypeScopeV,
    b: TypeScopeV,
    vars: DictV<Seq<char>, TypeV>,
    s: MembersV,
    t: MembersV,
)
    requires
        same_types(a, b),
        s.class == t.class,
        s.bodies == t.bodies,
    ensures
        add_members(members, n, a, vars, s).class == add_members(members, n, b, vars, t).class,
        add_members(members, n, a, vars, s).bodies == add_members(members, n, b, vars, t).bodies,
    decreases n,
{
    if n > 0 {
        lemma_members_same(members, n - 1, a, b, vars, s, t);
        match members[n - 1] {
            MemberSource::Method(func) => {
                lemma_function_same(func, a, b, vars);
            },
            MemberSource::Field(field) => {
                lemma_resolve_same(field.type_, a, b, DictV::empty(), vars);
            },
        }
    }
}

/// What a class declaration comes to depends on what the names that are known stand for, and on
/// nothing else that has been declared: the class has the same base, fields and functions, and what
/// is left to compile or the error is the same.
pub proof fn law_class_by_names(
    c: CompilerV,
    d: CompilerV,
    path: Seq<Seq<char>>,
    class: ClassSource,
    is_struct: bool,
    a: TypeScopeV,
    b: TypeScopeV,
)
    requires
        same_types(a, b),
        c.repo.types.wf(),
        d.repo.types.wf(),
    ensures
        ({
            let id = type_id(class.name@, path);
            let (one, res) = preprocess_class(c, path, class, is_struct, a);
            let (two, other) = preprocess_class(d, path, class, is_struct, b);
            &&& res == other
            &&& res is Ok ==> one.repo.is_class(id) && two.repo.is_class(id) && one.repo.class(id)
                == two.repo.class(id)
        }),
{
    let n = class.tparams@.len() as int;
    let id = type_id(class.name@, path);
    lemma_vars_same(class.tparams@, n, a, b, DictV::empty(), DictV::empty());
    let vars = instantiate_vars(class.tparams@, n, a, DictV::empty(), DictV::empty());
    if vars is Ok {
        let vars = vars->Ok_0;
        let scope = var_scope(vars, vars.len() as int);
        if class.base is Some {
            lemma_resolve_same(class.base->0, a, b, DictV::empty(), scope);
        }
        let base = class_base(class, is_struct, a, scope);
        if base is Ok {
            let empty = empty_class(class, is_struct, vars, base->Ok_0);
            let s = MembersV { errors: c.errors, class: empty, bodies: Seq::empty() };
            let t = MembersV { errors: d.errors, class: empty, bodies: Seq::empty() };
            let count = class.members@.len() as int;
            lemma_members_same(class.members@, count, a, b, scope, s, t);
            let one = add_members(class.members@, count, a, scope, s).class;
            c.repo.types.lemma_put(id, DataTypeV::Class(one));
            d.repo.types.lemma_put(id, DataTypeV::Class(one));
        }
    }
}

/// The name of the type that a declaration makes known, if it does.
pub open spec fn declares(entry: SourceEntry) -> Option<Seq<char>> {
    match entry {
        SourceEntry::Class(class) => Some(class.name@),
        SourceEntry::Struct(class) => Some(class.name@),
        SourceEntry::Enum(source) => Some(source.name@),
        _ => None,
    }
}

/// Whether one of the first `n` declarations makes a type of this name known.
pub open spec fn has_type(entries: Seq<SourceEntry>, n: int, name: Seq<char>) -> bool {
    exists|e: int| 0 <= e < n && declares(#[trigger] entries[e]) == Some(name)
}

/// Whether one of the first `n` declarations makes a type known at a path.
pub open spec fn has_type_at(
    path: Seq<Seq<char>>,
    entries: Seq<SourceEntry>,
    n: int,
    at: Seq<Seq<char>>,
) -> bool {
    exists|e: int| 0 <= e < n && type_at(path, #[trigger] entries[e], at)
}

/// Whether a declaration makes a type known at a path.
pub open spec fn type_at(path: Seq<Seq<char>>, entry: SourceEntry, at: Seq<Seq<char>>) -> bool {
    declares(entry) matches Some(name) && type_parts(type_id(name, path)) == at
}

/// Whether one of the first `n` declarations makes a function known at a path.
pub open spec fn has_func_at(
    path: Seq<Seq<char>>,
    entries: Seq<SourceEntry>,
    n: int,
    at: Seq<Seq<char>>,
) -> bool {
    exists|e: int| 0 <= e < n && func_at(path, #[trigger] entries[e], at)
}

/// Whether a declaration makes a function known at a path.
pub open spec fn func_at(path: Seq<Seq<char>>, entry: SourceEntry, at: Seq<Seq<char>>) -> bool {
    entry matches SourceEntry::Function(func) && (ScopedNameV {
        path,
        name: func.decl.name@,
    }).parts() == at
}

/// Whether a module makes a type known at a path.
pub open spec fn module_type_at(module: SourceModule, at: Seq<Seq<char>>) -> bool {
    has_type_at(views(module.path@), module.entries@, module.entries@.len() as int, at)
}

/// Whether a module makes a function known at a path.
pub open spec fn module_func_at(module: SourceModule, at: Seq<Seq<char>>) -> bool {
    has_func_at(views(module.path@), module.entries@, module.entries@.len() as int, at)
}

/// Whether a file without a module path makes a type of this name known.
pub open spec fn is_global_type(module: SourceModule, name: Seq<char>) -> bool {
    module.path@.len() == 0 && has_type(module.entries@, module.entries@.len() as int, name)
}

/// The types that the first `n` declarations of a module make known by their short names.
pub open spec fn own_types(
    path: Seq<Seq<char>>,
    entries: Seq<SourceEntry>,
    n: int,
) -> DictV<Seq<char>, Seq<char>>
    decreases n,
{
    if n <= 0 {
        DictV::empty()
    } else {
        match declares(entries[n - 1]) {
            Some(name) => own_types(path, entries, n - 1).put(name, type_id(name, path)),
            None => own_types(path, entries, n - 1),
        }
    }
}

/// The types that a module makes known in itself alone.
pub open spec fn module_types(module: SourceModule) -> DictV<Seq<char>, Seq<char>> {
    if module.path@.len() == 0 {
        DictV::empty()
    } else {
        own_types(views(module.path@), module.entries@, module.entries@.len() as int)
    }
}

/// What lies at a path: nothing, a type, or a function.
pub enum ItemKind {
    Nothing,
    Type(Seq<char>),
    Func,
}

pub open spec fn kind_at(modules: ModulesV, at: Seq<Seq<char>>) -> ItemKind {
    if modules.dom().contains(at) {
        match modules[at] {
            ImportItemV::Type(id) => ItemKind::Type(id),
            ImportItemV::Func(_) => ItemKind::Func,
        }
    } else {
        ItemKind::Nothing
    }
}

/// Whether each type in a map of modules is at the path that its full name gives.
pub open spec fn types_at_paths(modules: ModulesV) -> bool {
    forall|at: Seq<Seq<char>>| #[trigger]
        modules.dom().contains(at) ==> (modules[at] matches ImportItemV::Type(id) ==> type_parts(id)
            == at)
}

/// Whether this is what declarations make known at a path. Where they make both a type and a
/// function known at it, it is left open which of them is found.
spec fn is_due(
    was: ItemKind,
    now: ItemKind,
    has_type: bool,
    has_func: bool,
    at: Seq<Seq<char>>,
) -> bool {
    if has_type && has_func {
        !(now is Nothing)
    } else if has_type {
        now == ItemKind::Type(joined(at, "."@))
    } else if has_func {
        now is Func
    } else {
        now == was
    }
}

proof fn lemma_entries_kinds(
    c: CompilerV,
    path: Seq<Seq<char>>,
    entries: Seq<SourceEntry>,
    n: int,
    types: TypeScopeV,
)
    requires
        0 <= n <= entries.len(),
        types_at_paths(c.modules),
    ensures
        ({
            let done = populate_entries(c, path, entries, n, types).0;
            &&& types_at_paths(done.modules)
            &&& done.repo.types == c.repo.types
            &&& forall|at: Seq<Seq<char>>|
                is_due(
                    kind_at(c.modules, at),
                    #[trigger] kind_at(done.modules, at),
                    has_type_at(path, entries, n, at),
                    has_func_at(path, entries, n, at),
                    at,
                )
        }),
    decreases n,
{
    let done = populate_entries(c, path, entries, n, types).0;
    if n > 0 {
        let entry = entries[n - 1];
        lemma_entries_kinds(c, path, entries, n - 1, types);
        let at = populate_entries(c, path, entries, n - 1, types).0;
        if declares(entry) is Some {
            lemma_join_undoes_split(type_id(declares(entry)->0, path), '.');
        }
        reveal_strlit(".");
        assert("."@ =~= seq!['.']);
        assert forall|p: Seq<Seq<char>>|
            is_due(
                kind_at(c.modules, p),
                #[trigger] kind_at(done.modules, p),
                has_type_at(path, entries, n, p),
                has_func_at(path, entries, n, p),
                p,
            ) by {
            lemma_at_step(path, entries, n, p);
            assert(is_due(
                kind_at(c.modules, p),
                kind_at(at.modules, p),
                has_type_at(path, entries, n - 1, p),
                has_func_at(path, entries, n - 1, p),
                p,
            ));
        }
    }
}

proof fn lemma_at_step(
    path: Seq<Seq<char>>,
    entries: Seq<SourceEntry>,
    n: int,
    at: Seq<Seq<char>>,
)
    requires
        0 < n <= entries.len(),
    ensures
        has_type_at(path, entries, n, at) <==> has_type_at(path, entries, n - 1, at) || type_at(
            path,
            entries[n - 1],
            at,
        ),
        has_func_at(path, entries, n, at) <==> has_func_at(path, entries, n - 1, at) || func_at(
            path,
            entries[n - 1],
            at,
        ),
{
    if has_type_at(path, entries, n - 1, at) {
        let e = choose|e: int| 0 <= e < n - 1 && type_at(path, #[trigger] entries[e], at);
        assert(type_at(path, entries[e], at));
    }
    if has_func_at(path, entries, n - 1, at) {
        let e = choose|e: int| 0 <= e < n - 1 && func_at(path, #[trigger] entries[e], at);
        assert(func_at(path, entries[e], at));
    }
}

/// The types that a module with a path makes known are its own.
proof fn lemma_entries_local(
    c: CompilerV,
    path: Seq<Seq<char>>,
    entries: Seq<SourceEntry>,
    n: int,
    global: DictV<Seq<char>, Seq<char>>,
)
    ensures
        populate_entries(
            c,
            path,
            entries,
            n,
            ScopedMapV { global, local: Some(DictV::empty()) },
        ).1 == (ScopedMapV { global, local: Some(own_types(path, entries, n)) }),
    decreases n,
{
    if n > 0 {
        lemma_entries_local(c, path, entries, n - 1, global);
    }
}

/// A file without a module path makes its types known under their names.
proof fn lemma_entries_global(
    c: CompilerV,
    path: Seq<Seq<char>>,
    entries: Seq<SourceEntry>,
    n: int,
    types: TypeScopeV,
)
    requires
        path.len() == 0,
        0 <= n <= entries.len(),
        types.local is None,
        types.global.wf(),
    ensures
        ({
            let done = populate_entries(c, path, entries, n, types).1;
            &&& done.local is None
            &&& done.global.wf()
            &&& forall|name: Seq<char>| #[trigger]
                done.global.get(name) == if has_type(entries, n, name) {
                    Some(name)
                } else {
                    types.global.get(name)
                }
        }),
    decreases n,
{
    if n > 0 {
        lemma_entries_global(c, path, entries, n - 1, types);
        let at = populate_entries(c, path, entries, n - 1, types).1;
        let done = populate_entries(c, path, entries, n, types).1;
        let entry = entries[n - 1];
        if declares(entry) is Some {
            at.global.lemma_put(declares(entry)->0, declares(entry)->0);
        }
        assert forall|name: Seq<char>| #[trigger] done.global.get(name) == if has_type(
            entries,
            n,
            name,
        ) {
            Some(name)
        } else {
            types.global.get(name)
        } by {
            assert(at.global.get(name) == if has_type(entries, n - 1, name) {
                Some(name)
            } else {
                types.global.get(name)
            });
            if has_type(entries, n - 1, name) {
                let e = choose|e: int|
                    0 <= e < n - 1 && declares(#[trigger] entries[e]) == Some(name);
                assert(declares(entries[e]) == Some(name));
            }
        }
    }
}

/// Whether one of the first `n` modules makes a type known at a path.
pub open spec fn some_type_at(modules: Seq<SourceModule>, n: int, at: Seq<Seq<char>>) -> bool {
    exists|k: int| 0 <= k < n && module_type_at(#[trigger] modules[k], at)
}

/// Whether one of the first `n` modules makes a function known at a path.
pub open spec fn some_func_at(modules: Seq<SourceModule>, n: int, at: Seq<Seq<char>>) -> bool {
    exists|k: int| 0 <= k < n && module_func_at(#[trigger] modules[k], at)
}

/// Whether one of the first `n` files that have no module path makes a type of this name known.
pub open spec fn some_global_type(modules: Seq<SourceModule>, n: int, name: Seq<char>) -> bool {
    exists|k: int| 0 <= k < n && is_global_type(#[trigger] modules[k], name)
}

proof fn lemma_some_step(
    modules: Seq<SourceModule>,
    n: int,
    at: Seq<Seq<char>>,
    name: Seq<char>,
)
    requires
        0 < n <= modules.len(),
    ensures
        some_type_at(modules, n, at) <==> some_type_at(modules, n - 1, at) || module_type_at(
            modules[n - 1],
            at,
        ),
        some_func_at(modules, n, at) <==> some_func_at(modules, n - 1, at) || module_func_at(
            modules[n - 1],
            at,
        ),
        some_global_type(modules, n, name) <==> some_global_type(modules, n - 1, name)
            || is_global_type(modules[n - 1], name),
{
    if some_type_at(modules, n - 1, at) {
        let k = choose|k: int| 0 <= k < n - 1 && module_type_at(#[trigger] modules[k], at);
        assert(module_type_at(modules[k], at));
    }
    if some_func_at(modules, n - 1, at) {
        let k = choose|k: int| 0 <= k < n - 1 && module_func_at(#[trigger] modules[k], at);
        assert(module_func_at(modules[k], at));
    }
    if some_global_type(modules, n - 1, name) {
        let k = choose|k: int| 0 <= k < n - 1 && is_global_type(#[trigger] modules[k], name);
        assert(is_global_type(modules[k], name));
    }
}

proof fn lemma_populated(c: CompilerV, modules: Seq<SourceModule>, n: int, types: TypeScopeV)
    requires
        0 <= n <= modules.len(),
        types.local is None,
        types.global.wf(),
        types_at_paths(c.modules),
    ensures
        ({
            let done = populate_modules(c, modules, n, types);
            &&& done.types.local is None
            &&& done.types.global.wf()
            &&& done.scopes.len() == n
            &&& done.compiler.repo.types == c.repo.types
            &&& types_at_paths(done.compiler.modules)
            &&& forall|k: int|
                0 <= k < n ==> #[trigger] done.scopes[k] == module_types(modules[k])
            &&& forall|at: Seq<Seq<char>>|
                is_due(
                    kind_at(c.modules, at),
                    #[trigger] kind_at(done.compiler.modules, at),
                    some_type_at(modules, n, at),
                    some_func_at(modules, n, at),
                    at,
                )
            &&& forall|name: Seq<char>| #[trigger]
                done.types.global.get(name) == if some_global_type(modules, n, name) {
                    Some(name)
                } else {
                    types.global.get(name)
                }
        }),
    decreases n,
{
    if n > 0 {
        lemma_populated(c, modules, n - 1, types);
        let at = populate_modules(c, modules, n - 1, types);
        let done = populate_modules(c, modules, n, types);
        let module = modules[n - 1];
        let path = views(module.path@);
        let entries = module.entries@;
        let count = entries.len() as int;
        if module.path@.len() == 0 {
            lemma_entries_kinds(at.compiler, path, entries, count, at.types);
            lemma_entries_global(at.compiler, path, entries, count, at.types);
        } else {
            let scope = at.types.push_scope(DictV::empty());
            lemma_entries_kinds(at.compiler, path, entries, count, scope);
            lemma_entries_local(at.compiler, path, entries, count, at.types.global);
        }
        assert forall|k: int| 0 <= k < n implies #[trigger] done.scopes[k] == module_types(
            modules[k],
        ) by {
            if k < n - 1 {
                assert(done.scopes[k] == at.scopes[k]);
            }
        }
        assert forall|p: Seq<Seq<char>>|
            is_due(
                kind_at(c.modules, p),
                #[trigger] kind_at(done.compiler.modules, p),
                some_type_at(modules, n, p),
                some_func_at(modules, n, p),
                p,
            ) by {
            lemma_some_step(modules, n, p, Seq::empty());
            assert(is_due(
                kind_at(c.modules, p),
                kind_at(at.compiler.modules, p),
                some_type_at(modules, n - 1, p),
                some_func_at(modules, n - 1, p),
                p,
            ));
            assert(is_due(
                kind_at(at.compiler.modules, p),
                kind_at(done.compiler.modules, p),
                module_type_at(module, p),
                module_func_at(module, p),
                p,
            ));
        }
        assert forall|name: Seq<char>| #[trigger]
            done.types.global.get(name) == if some_global_type(modules, n, name) {
                Some(name)
            } else {
                types.global.get(name)
            } by {
            lemma_some_step(modules, n, Seq::empty(), name);
            assert(at.types.global.get(name) == if some_global_type(modules, n - 1, name) {
                Some(name)
            } else {
                types.global.get(name)
            });
        }
    }
}

/// Whether two lists hold the same files, in any order.
pub open spec fn same_files(a: Seq<SourceModule>, b: Seq<SourceModule>) -> bool {
    forall|module: SourceModule| #[trigger] a.contains(module) <==> b.contains(module)
}

pub proof fn lemma_same_files(
    a: Seq<SourceModule>,
    b: Seq<SourceModule>,
    at: Seq<Seq<char>>,
    name: Seq<char>,
)
    requires
        same_files(a, b),
    ensures
        some_type_at(a, a.len() as int, at) ==> some_type_at(b, b.len() as int, at),
        some_func_at(a, a.len() as int, at) ==> some_func_at(b, b.len() as int, at),
        some_global_type(a, a.len() as int, name) ==> some_global_type(b, b.len() as int, name),
{
    let n = a.len() as int;
    if some_type_at(a, n, at) {
        let k = choose|k: int| 0 <= k < n && module_type_at(#[trigger] a[k], at);
        let l = lemma_found_in(a, b, k);
        assert(module_type_at(b[l], at));
    }
    if some_func_at(a, n, at) {
        let k = choose|k: int| 0 <= k < n && module_func_at(#[trigger] a[k], at);
        let l = lemma_found_in(a, b, k);
        assert(module_func_at(b[l], at));
    }
    if some_global_type(a, n, name) {
        let k = choose|k: int| 0 <= k < n && is_global_type(#[trigger] a[k], name);
        let l = lemma_found_in(a, b, k);
        assert(is_global_type(b[l], name));
    }
}

proof fn lemma_found_in(a: Seq<SourceModule>, b: Seq<SourceModule>, k: int) -> (l: int)
    requires
        same_files(a, b),
        0 <= k < a.len(),
    ensures
        0 <= l < b.len(),
        b[l] == a[k],
{
    assert(a.contains(a[k]));
    choose|l: int| 0 <= l < b.len() && b[l] == a[k]
}

/// Before anything is resolved, the same types are known in a module in whatever order the files
/// come: a type may be used before the file that declares it.
pub proof fn law_types_known_in_any_order(
    c: CompilerV,
    a: Seq<SourceModule>,
    b: Seq<SourceModule>,
    k: int,
    l: int,
)
    requires
        c.repo.types.wf(),
        types_at_paths(c.modules),
        same_files(a, b),
        0 <= k < a.len(),
        0 <= l < b.len(),
        a[k] == b[l],
    ensures
        same_types(
            populated(c, a).types.push_scope(populated(c, a).scopes[k]),
            populated(c, b).types.push_scope(populated(c, b).scopes[l]),
        ),
{
    let types = known_types(c.repo);
    assert(types.global.wf());
    lemma_populated(c, a, a.len() as int, types);
    lemma_populated(c, b, b.len() as int, types);
    let one = populated(c, a);
    let two = populated(c, b);
    assert(one.scopes[k] == two.scopes[l]);
    assert forall|name: Seq<char>| #[trigger] one.types.push_scope(one.scopes[k]).lookup(name)
        == two.types.push_scope(two.scopes[l]).lookup(name) by {
        lemma_same_files(a, b, Seq::empty(), name);
        lemma_same_files(b, a, Seq::empty(), name);
        assert(one.types.global.get(name) == two.types.global.get(name));
    }
}

/// Whether the files make both a type and a function known at a path.
pub open spec fn clashes(modules: Seq<SourceModule>, at: Seq<Seq<char>>) -> bool {
    some_type_at(modules, modules.len() as int, at) && some_func_at(
        modules,
        modules.len() as int,
        at,
    )
}

/// What lies at a path is the same in whatever order the files come, unless it is both a type and a
/// function.
pub proof fn lemma_kinds_same(
    c: CompilerV,
    a: Seq<SourceModule>,
    b: Seq<SourceModule>,
    at: Seq<Seq<char>>,
)
    requires
        c.repo.types.wf(),
        types_at_paths(c.modules),
        same_files(a, b),
    ensures
        types_at_paths(populated(c, a).compiler.modules),
        populated(c, a).compiler.modules.dom().contains(at) <==> populated(
            c,
            b,
        ).compiler.modules.dom().contains(at),
        !clashes(a, at) ==> kind_at(populated(c, a).compiler.modules, at) == kind_at(
            populated(c, b).compiler.modules,
            at,
        ),
{
    let types = known_types(c.repo);
    assert(types.global.wf());
    lemma_populated(c, a, a.len() as int, types);
    lemma_populated(c, b, b.len() as int, types);
    lemma_same_files(a, b, at, Seq::empty());
    lemma_same_files(b, a, at, Seq::empty());
    let one = kind_at(populated(c, a).compiler.modules, at);
    let two = kind_at(populated(c, b).compiler.modules, at);
    assert(is_due(
        kind_at(c.modules, at),
        one,
        some_type_at(a, a.len() as int, at),
        some_func_at(a, a.len() as int, at),
        at,
    ));
    assert(is_due(
        kind_at(c.modules, at),
        two,
        some_type_at(b, b.len() as int, at),
        some_func_at(b, b.len() as int, at),
        at,
    ));
}

/// Whether an import may lead to a path.
pub open spec fn leads_to(import: Import, at: Seq<Seq<char>>) -> bool {
    match import {
        Import::Exact(path, _) => at == views(path@),
        Import::Selected(path, selected, _) => exists|i: int|
            0 <= i < selected@.len() && at == views(path@).push(#[trigger] views(selected@)[i]),
        Import::All(path, _) => exists|step: Seq<char>| at == #[trigger] views(path@).push(step),
    }
}

/// Whether no import of a module leads to a type and a function at once.
pub open spec fn imports_clear(modules: Seq<SourceModule>, module: SourceModule) -> bool {
    forall|i: int, at: Seq<Seq<char>>|
        0 <= i < module.imports@.len() && #[trigger] leads_to(module.imports@[i], at) ==> !clashes(
            modules,
            at,
        )
}

/// Whether an import finds the same in two maps of modules.
spec fn finds_same(a: ModulesV, b: ModulesV, import: Import) -> bool {
    &&& types_at_paths(a)
    &&& types_at_paths(b)
    &&& forall|at: Seq<Seq<char>>| #[trigger] a.dom().contains(at) <==> b.dom().contains(at)
    &&& forall|at: Seq<Seq<char>>| #[trigger]
        leads_to(import, at) ==> kind_at(a, at) == kind_at(b, at)
}

/// The types of two scopes that have a module on top are the same.
spec fn same_scopes(s: ScopesV, t: ScopesV) -> bool {
    &&& same_types(s.types, t.types)
    &&& s.types.local is Some
    &&& t.types.local is Some
    &&& s.types.local->0.wf()
    &&& t.types.local->0.wf()
}

/// A type that is added to the names of a module is found, and the others are found as before.
proof fn lemma_insert_lookup(types: TypeScopeV, name: Seq<char>, id: Seq<char>)
    requires
        types.local is Some,
        types.local->0.wf(),
    ensures
        ({
            let done = types.insert(name, id);
            &&& done.local is Some
            &&& done.local->0.wf()
            &&& forall|other: Seq<char>| #[trigger]
                done.lookup(other) == if other == name {
                    Some(id)
                } else {
                    types.lookup(other)
                }
        }),
{
    let local = types.local->0;
    local.lemma_put(name, id);
    let done = types.insert(name, id);
    assert forall|other: Seq<char>| #[trigger] done.lookup(other) == if other == name {
        Some(id)
    } else {
        types.lookup(other)
    } by {
        assert(local.put(name, id).get(other) == if other == name {
            Some(id)
        } else {
            local.get(other)
        });
    }
}

proof fn lemma_item_same(
    f: FuncMapV,
    g: FuncMapV,
    a: ImportItemV,
    b: ImportItemV,
    s: ScopesV,
    t: ScopesV,
)
    requires
        same_scopes(s, t),
        a is Type <==> b is Type,
        a is Type ==> a->Type_0 == b->Type_0,
    ensures
        same_scopes(import_item(f, a, s), import_item(g, b, t)),
{
    if let ImportItemV::Type(id) = a {
        lemma_insert_lookup(s.types, last_part(id), id);
        lemma_insert_lookup(t.types, last_part(id), id);
        let one = import_item(f, a, s).types;
        let two = import_item(g, b, t).types;
        assert forall|name: Seq<char>| #[trigger] one.lookup(name) == two.lookup(name) by {
            assert(s.types.lookup(name) == t.types.lookup(name));
        }
    }
}

/// The type that an import of a whole module gives a name, once the first `n` steps are imported.
spec fn walked(
    modules: ModulesV,
    path: Seq<Seq<char>>,
    steps: Seq<Seq<char>>,
    n: int,
    name: Seq<char>,
    was: Option<Seq<char>>,
) -> Option<Seq<char>> {
    if steps.take(n).contains(name) {
        match modules[path.push(name)] {
            ImportItemV::Type(id) => Some(id),
            ImportItemV::Func(_) => was,
        }
    } else {
        was
    }
}

proof fn lemma_walk(
    f: FuncMapV,
    modules: ModulesV,
    path: Seq<Seq<char>>,
    steps: Seq<Seq<char>>,
    walk: Seq<ImportItemV>,
    n: int,
    s: ScopesV,
)
    requires
        types_at_paths(modules),
        lists_module(modules, path, steps, walk),
        0 <= n <= walk.len(),
        s.types.local is Some,
        s.types.local->0.wf(),
    ensures
        ({
            let done = import_items(f, walk, n, s).types;
            &&& done.local is Some
            &&& done.local->0.wf()
            &&& forall|name: Seq<char>| #[trigger]
                done.lookup(name) == walked(modules, path, steps, n, name, s.types.lookup(name))
        }),
    decreases n,
{
    if n > 0 {
        lemma_walk(f, modules, path, steps, walk, n - 1, s);
        let at = import_items(f, walk, n - 1, s);
        let done = import_items(f, walk, n, s);
        let step = steps[n - 1];
        assert(walk[n - 1] == modules[path.push(step)]);
        assert(steps.contains(step));
        if let ImportItemV::Type(id) = walk[n - 1] {
            assert(type_parts(id) == path.push(step));
            assert(path.push(step).last() == step);
            lemma_insert_lookup(at.types, step, id);
        }
        let first = steps.take(n);
        let before = steps.take(n - 1);
        assert forall|name: Seq<char>| #[trigger] done.types.lookup(name) == walked(
            modules,
            path,
            steps,
            n,
            name,
            s.types.lookup(name),
        ) by {
            assert(at.types.lookup(name) == walked(
                modules,
                path,
                steps,
                n - 1,
                name,
                s.types.lookup(name),
            ));
            assert(first.contains(name) <==> before.contains(name) || name == step) by {
                if before.contains(name) {
                    let i = choose|i: int| 0 <= i < before.len() && before[i] == name;
                    assert(first[i] == name);
                }
                if first.contains(name) {
                    let i = choose|i: int| 0 <= i < first.len() && first[i] == name;
                    if i < n - 1 {
                        assert(before[i] == name);
                    }
                }
                assert(first[n - 1] == step);
            }
            assert(!before.contains(step)) by {
                if before.contains(step) {
                    let i = choose|i: int| 0 <= i < before.len() && before[i] == step;
                    assert(steps[i] == step);
                }
            }
        }
    } else {
        assert forall|name: Seq<char>| #[trigger] s.types.lookup(name) == walked(
            modules,
            path,
            steps,
            0,
            name,
            s.types.lookup(name),
        ) by {
            assert(steps.take(0).len() == 0);
        }
    }
}

proof fn lemma_selected_same(
    f: FuncMapV,
    g: FuncMapV,
    a: ModulesV,
    b: ModulesV,
    path: Seq<Seq<char>>,
    selected: Seq<Seq<char>>,
    n: int,
    s: ScopesV,
    t: ScopesV,
)
    requires
        same_scopes(s, t),
        0 <= n <= selected.len(),
        forall|i: int|
            0 <= i < selected.len() ==> kind_at(a, path.push(#[trigger] selected[i])) == kind_at(
                b,
                path.push(selected[i]),
            ),
    ensures
        ({
            let (one, lost) = import_selected(a, f, path, selected, n, s);
            let (two, gone) = import_selected(b, g, path, selected, n, t);
            same_scopes(one, two) && (lost is Some <==> gone is Some)
        }),
    decreases n,
{
    if n > 0 {
        lemma_selected_same(f, g, a, b, path, selected, n - 1, s, t);
        let (one, lost) = import_selected(a, f, path, selected, n - 1, s);
        let (two, _) = import_selected(b, g, path, selected, n - 1, t);
        let next = path.push(selected[n - 1]);
        assert(kind_at(a, next) == kind_at(b, next));
        if lost is None && a.dom().contains(next) {
            lemma_item_same(f, g, a[next], b[next], one, two);
        }
    }
}

proof fn lemma_all_same(
    f: FuncMapV,
    g: FuncMapV,
    a: ModulesV,
    b: ModulesV,
    source: Import,
    path: Seq<Seq<char>>,
    wa: Seq<ImportItemV>,
    wb: Seq<ImportItemV>,
    s: ScopesV,
    t: ScopesV,
)
    requires
        same_scopes(s, t),
        finds_same(a, b, source),
        source matches Import::All(at, _) && views(at@) == path,
        is_listing(a, path, wa),
        is_listing(b, path, wb),
    ensures
        same_scopes(
            import_items(f, wa, wa.len() as int, s),
            import_items(g, wb, wb.len() as int, t),
        ),
{
    let sa = choose|steps: Seq<Seq<char>>| lists_module(a, path, steps, wa);
    let sb = choose|steps: Seq<Seq<char>>| lists_module(b, path, steps, wb);
    lemma_walk(f, a, path, sa, wa, wa.len() as int, s);
    lemma_walk(g, b, path, sb, wb, wb.len() as int, t);
    assert(sa.take(wa.len() as int) =~= sa);
    assert(sb.take(wb.len() as int) =~= sb);
    let one = import_items(f, wa, wa.len() as int, s).types;
    let two = import_items(g, wb, wb.len() as int, t).types;
    assert forall|name: Seq<char>| #[trigger] one.lookup(name) == two.lookup(name) by {
        let at = path.push(name);
        assert(leads_to(source, at));
        assert(kind_at(a, at) == kind_at(b, at));
        assert(sa.contains(name) <==> a.dom().contains(at));
        assert(sb.contains(name) <==> b.dom().contains(at));
        assert(s.types.lookup(name) == t.types.lookup(name));
    }
}

/// An import makes the same types known.
proof fn lemma_import_same(
    f: FuncMapV,
    g: FuncMapV,
    a: ModulesV,
    b: ModulesV,
    source: Import,
    wa: Seq<ImportItemV>,
    wb: Seq<ImportItemV>,
    s: ScopesV,
    t: ScopesV,
)
    requires
        same_scopes(s, t),
        finds_same(a, b, source),
        walk_ok(a, source, wa),
        walk_ok(b, source, wb),
    ensures
        same_scopes(import(a, f, source, wa, s).0, import(b, g, source, wb, t).0),
{
    match source {
        Import::Exact(path, _) => {
            let at = views(path@);
            assert(leads_to(source, at));
            assert(kind_at(a, at) == kind_at(b, at));
            if a.dom().contains(at) {
                lemma_item_same(f, g, a[at], b[at], s, t);
            }
        },
        Import::Selected(path, selected, _) => {
            let names = views(selected@);
            assert forall|i: int| 0 <= i < names.len() implies kind_at(
                a,
                views(path@).push(#[trigger] names[i]),
            ) == kind_at(b, views(path@).push(names[i])) by {
                assert(leads_to(source, views(path@).push(views(selected@)[i])));
            }
            lemma_selected_same(f, g, a, b, views(path@), names, names.len() as int, s, t);
        },
        Import::All(path, _) => {
            let at = views(path@);
            assert(has_module(a, at) <==> has_module(b, at)) by {
                if has_module(a, at) && at.len() > 0 {
                    let key = choose|key: Seq<Seq<char>>|
                        #[trigger] a.dom().contains(key) && at.is_prefix_of(key);
                    assert(b.dom().contains(key));
                }
                if has_module(b, at) && at.len() > 0 {
                    let key = choose|key: Seq<Seq<char>>|
                        #[trigger] b.dom().contains(key) && at.is_prefix_of(key);
                    assert(a.dom().contains(key));
                }
            }
            if has_module(a, at) {
                lemma_all_same(f, g, a, b, source, at, wa, wb, s, t);
            }
        },
    }
}

proof fn lemma_imports_same(
    f: FuncMapV,
    g: FuncMapV,
    a: ModulesV,
    b: ModulesV,
    imports: Seq<Import>,
    n: int,
    wa: Seq<Seq<ImportItemV>>,
    wb: Seq<Seq<ImportItemV>>,
    s: ScopesV,
    t: ScopesV,
)
    requires
        same_scopes(s, t),
        forall|i: int| 0 <= i < imports.len() ==> finds_same(a, b, #[trigger] imports[i]),
        walks_ok(a, imports, wa),
        walks_ok(b, imports, wb),
        0 <= n <= imports.len(),
    ensures
        same_scopes(
            import_all(a, f, imports, n, wa, s).0,
            import_all(b, g, imports, n, wb, t).0,
        ),
    decreases n,
{
    if n > 0 {
        lemma_imports_same(f, g, a, b, imports, n - 1, wa, wb, s, t);
        assert(finds_same(a, b, imports[n - 1]));
        assert(walk_ok(a, imports[n - 1], wa[n - 1]));
        assert(walk_ok(b, imports[n - 1], wb[n - 1]));
        lemma_import_same(
            f,
            g,
            a,
            b,
            imports[n - 1],
            wa[n - 1],
            wb[n - 1],
            import_all(a, f, imports, n - 1, wa, s).0,
            import_all(b, g, imports, n - 1, wb, t).0,
        );
    }
}

/// What a class says of itself: its type variables, what it extends, its flags and its place.
pub struct OutlineV {
    pub type_vars: Seq<TypeVarV>,
    pub extends: Option<ParameterizedV>,
    pub flags: ClassFlags,
    pub span: Option<Span>,
}

pub open spec fn outline_of(class: ClassTypeV) -> OutlineV {
    OutlineV {
        type_vars: class.type_vars,
        extends: class.extends,
        flags: class.flags,
        span: class.span,
    }
}

/// What a class of the repository says of itself, if there is such a class.
pub open spec fn outline(repo: RepoV, id: Seq<char>) -> Option<OutlineV> {
    if repo.is_class(id) {
        Some(outline_of(repo.class(id)))
    } else {
        None
    }
}

/// The full name of the type that a declaration makes known, if it does.
pub open spec fn declared_id(path: Seq<Seq<char>>, entry: SourceEntry) -> Option<Seq<char>> {
    match declares(entry) {
        Some(name) => Some(type_id(name, path)),
        None => None,
    }
}

/// What a declared class says of itself. One that cannot be resolved leaves what was there.
spec fn declared_outline(
    entry: SourceEntry,
    types: TypeScopeV,
    was: Option<OutlineV>,
) -> Option<OutlineV> {
    match entry {
        SourceEntry::Class(class) => class_outline(class, false, types, was),
        SourceEntry::Struct(class) => class_outline(class, true, types, was),
        _ => None,
    }
}

spec fn class_outline(
    class: ClassSource,
    is_struct: bool,
    types: TypeScopeV,
    was: Option<OutlineV>,
) -> Option<OutlineV> {
    match instantiate_vars(
        class.tparams@,
        class.tparams@.len() as int,
        types,
        DictV::empty(),
        DictV::empty(),
    ) {
        Ok(vars) => match class_base(class, is_struct, types, var_scope(vars, vars.len() as int)) {
            Ok(extends) => Some(outline_of(empty_class(class, is_struct, vars, extends))),
            Err(_) => was,
        },
        Err(_) => was,
    }
}

proof fn lemma_outline_same(
    entry: SourceEntry,
    a: TypeScopeV,
    b: TypeScopeV,
    was: Option<OutlineV>,
)
    requires
        same_types(a, b),
    ensures
        declared_outline(entry, a, was) == declared_outline(entry, b, was),
{
    match entry {
        SourceEntry::Class(class) | SourceEntry::Struct(class) => {
            let n = class.tparams@.len() as int;
            lemma_vars_same(class.tparams@, n, a, b, DictV::empty(), DictV::empty());
            let vars = instantiate_vars(class.tparams@, n, a, DictV::empty(), DictV::empty());
            if vars is Ok && class.base is Some {
                let scope = var_scope(vars->Ok_0, vars->Ok_0.len() as int);
                lemma_resolve_same(class.base->0, a, b, DictV::empty(), scope);
            }
        },
        _ => {},
    }
}

/// Members do not change what a class says of itself.
proof fn lemma_members_outline(
    members: Seq<MemberSource>,
    n: int,
    types: TypeScopeV,
    vars: DictV<Seq<char>, TypeV>,
    start: MembersV,
)
    ensures
        outline_of(add_members(members, n, types, vars, start).class) == outline_of(start.class),
    decreases n,
{
    if n > 0 {
        lemma_members_outline(members, n - 1, types, vars, start);
    }
}

proof fn lemma_class_outline(
    c: CompilerV,
    path: Seq<Seq<char>>,
    class: ClassSource,
    is_struct: bool,
    types: TypeScopeV,
    id: Seq<char>,
)
    requires
        c.repo.types.wf(),
    ensures
        ({
            let done = preprocess_class(c, path, class, is_struct, types).0;
            &&& done.repo.types.wf()
            &&& done.modules == c.modules
            &&& outline(done.repo, id) == if type_id(class.name@, path) == id {
                class_outline(class, is_struct, types, outline(c.repo, id))
            } else {
                outline(c.repo, id)
            }
        }),
{
    let own = type_id(class.name@, path);
    let n = class.tparams@.len() as int;
    let vars = instantiate_vars(class.tparams@, n, types, DictV::empty(), DictV::empty());
    if vars is Ok {
        let vars = vars->Ok_0;
        let scope = var_scope(vars, vars.len() as int);
        let base = class_base(class, is_struct, types, scope);
        if base is Ok {
            let start = MembersV {
                errors: c.errors,
                class: empty_class(class, is_struct, vars, base->Ok_0),
                bodies: Seq::empty(),
            };
            let count = class.members@.len() as int;
            lemma_members_outline(class.members@, count, types, scope, start);
            let done = add_members(class.members@, count, types, scope, start).class;
            lemma_put_outline(c.repo, own, DataTypeV::Class(done), id);
        }
    }
}

/// Only the type that is put changes.
proof fn lemma_put_outline(repo: RepoV, own: Seq<char>, typ: DataTypeV, id: Seq<char>)
    requires
        repo.types.wf(),
    ensures
        repo.put(own, typ).types.wf(),
        outline(repo.put(own, typ), id) == if own == id {
            match typ {
                DataTypeV::Class(class) => Some(outline_of(class)),
                _ => None,
            }
        } else {
            outline(repo, id)
        },
{
    repo.types.lemma_put(own, typ);
    assert(repo.put(own, typ).types.get(id) == if own == id {
        Some(typ)
    } else {
        repo.types.get(id)
    });
}

/// A declaration changes what its own type says of itself, and that of no other.
proof fn lemma_entry_outline(
    c: CompilerV,
    path: Seq<Seq<char>>,
    entry: SourceEntry,
    types: TypeScopeV,
    names: NameScopeV,
    id: Seq<char>,
)
    requires
        c.repo.types.wf(),
    ensures
        ({
            let done = preprocess_entry(c, path, entry, types, names).compiler;
            &&& done.repo.types.wf()
            &&& done.modules == c.modules
            &&& outline(done.repo, id) == if declared_id(path, entry) == Some(id) {
                declared_outline(entry, types, outline(c.repo, id))
            } else {
                outline(c.repo, id)
            }
        }),
{
    reveal(preprocess_entry);
    match entry {
        SourceEntry::Class(class) => {
            lemma_class_outline(c, path, class, false, types, id);
        },
        SourceEntry::Struct(class) => {
            lemma_class_outline(c, path, class, true, types, id);
        },
        SourceEntry::Enum(source) => {
            let members = enum_members(source.members@, source.members@.len() as int);
            lemma_put_outline(
                c.repo,
                type_id(source.name@, path),
                DataTypeV::Enum(members),
                id,
            );
        },
        SourceEntry::Function(func) => {
            if func.decl.annotations@.len() > 0 {
                let ann = func.decl.annotations@[0];
                if let Some((name, span)) = only_ident(ann.args@) {
                    if let Ok(target) = annotation_target(c.repo, types, name, span) {
                        let class = c.repo.class(target);
                        if let Ok((_, typ)) = function_type(func, types, DictV::empty()) {
                            let made = with_method(
                                class,
                                func.decl.name@,
                                typ,
                                function_flags(func.decl.qualifiers@),
                            );
                            lemma_put_outline(c.repo, target, DataTypeV::Class(made), id);
                        }
                    }
                }
            }
        },
        SourceEntry::GlobalLet(field) => {
            if let Some(ann) = field_annotation(field.declaration.annotations@) {
                if let Some((name, span)) = only_ident(ann.args@) {
                    if let Ok(target) = annotation_target(c.repo, types, name, span) {
                        let made = add_field(
                            field,
                            types,
                            DictV::empty(),
                            MembersV {
                                errors: c.errors,
                                class: c.repo.class(target),
                                bodies: Seq::empty(),
                            },
                        ).class;
                        lemma_put_outline(c.repo, target, DataTypeV::Class(made), id);
                    }
                }
            }
        },
    }
}

/// Whether a declaration is the only one of a module that declares a type.
pub open spec fn only_in(module: SourceModule, e: int, id: Seq<char>) -> bool {
    forall|i: int|
        0 <= i < module.entries@.len() && declared_id(
            views(module.path@),
            #[trigger] module.entries@[i],
        ) == Some(id) ==> i == e
}

proof fn lemma_entries_outline(
    c: CompilerV,
    module: SourceModule,
    n: int,
    types: TypeScopeV,
    names: NameScopeV,
    e: int,
    id: Seq<char>,
)
    requires
        c.repo.types.wf(),
        0 <= n <= module.entries@.len(),
        only_in(module, e, id),
        0 <= e < module.entries@.len() ==> declared_id(views(module.path@), module.entries@[e])
            == Some(id),
    ensures
        ({
            let done = compile_entries(
                c,
                views(module.path@),
                module.entries@,
                n,
                types,
                names,
            ).compiler;
            &&& done.repo.types.wf()
            &&& done.modules == c.modules
            &&& outline(done.repo, id) == if 0 <= e < n {
                declared_outline(module.entries@[e], types, outline(c.repo, id))
            } else {
                outline(c.repo, id)
            }
        }),
    decreases n,
{
    if n > 0 {
        let path = views(module.path@);
        lemma_entries_outline(c, module, n - 1, types, names, e, id);
        let at = compile_entries(c, path, module.entries@, n - 1, types, names);
        lemma_entry_outline(at.compiler, path, module.entries@[n - 1], types, at.names, id);
    }
}

/// Whether a type is declared by the declaration at one place, and by no other.
pub open spec fn declared_once(
    modules: Seq<SourceModule>,
    k: int,
    e: int,
    id: Seq<char>,
) -> bool {
    &&& 0 <= k < modules.len()
    &&& 0 <= e < modules[k].entries@.len()
    &&& declared_id(views(modules[k].path@), modules[k].entries@[e]) == Some(id)
    &&& forall|i: int|
        0 <= i < modules.len() ==> only_in(
            #[trigger] modules[i],
            if i == k {
                e
            } else {
                -1
            },
            id,
        )
}

/// The types that are known in a module once its imports are.
pub open spec fn turn_types(
    at: PopulatedV,
    names: NameScopeV,
    modules: Seq<SourceModule>,
    walks: Seq<Seq<Seq<ImportItemV>>>,
    k: int,
) -> TypeScopeV {
    let so_far = compile_modules(at, names, modules, k, walks);
    after_imports(
        so_far.compiler,
        modules[k],
        at.types.push_scope(at.scopes[k]),
        module_names(modules[k], so_far.names),
        walks[k],
    ).1.types
}

proof fn lemma_modules_outline(
    at: PopulatedV,
    names: NameScopeV,
    modules: Seq<SourceModule>,
    n: int,
    walks: Seq<Seq<Seq<ImportItemV>>>,
    k: int,
    e: int,
    id: Seq<char>,
)
    requires
        at.compiler.repo.types.wf(),
        0 <= n <= modules.len(),
        declared_once(modules, k, e, id),
    ensures
        ({
            let done = compile_modules(at, names, modules, n, walks).compiler;
            &&& done.repo.types.wf()
            &&& done.modules == at.compiler.modules
            &&& outline(done.repo, id) == if k < n {
                declared_outline(
                    modules[k].entries@[e],
                    turn_types(at, names, modules, walks, k),
                    outline(at.compiler.repo, id),
                )
            } else {
                outline(at.compiler.repo, id)
            }
        }),
    decreases n,
{
    if n > 0 {
        lemma_modules_outline(at, names, modules, n - 1, walks, k, e, id);
        let so_far = compile_modules(at, names, modules, n - 1, walks);
        let module = modules[n - 1];
        let (start, scopes) = after_imports(
            so_far.compiler,
            module,
            at.types.push_scope(at.scopes[n - 1]),
            module_names(module, so_far.names),
            walks[n - 1],
        );
        let own = if n - 1 == k {
            e
        } else {
            -1
        };
        assert(only_in(modules[n - 1], own, id));
        lemma_entries_outline(
            start,
            module,
            module.entries@.len() as int,
            scopes.types,
            scopes.names,
            own,
            id,
        );
    }
}

proof fn lemma_own_types_wf(path: Seq<Seq<char>>, entries: Seq<SourceEntry>, n: int)
    ensures
        own_types(path, entries, n).wf(),
    decreases n,
{
    if n > 0 {
        lemma_own_types_wf(path, entries, n - 1);
        if let Some(name) = declares(entries[n - 1]) {
            own_types(path, entries, n - 1).lemma_put(name, type_id(name, path));
        }
    }
}

pub proof fn lemma_entries_keep(
    c: CompilerV,
    path: Seq<Seq<char>>,
    entries: Seq<SourceEntry>,
    n: int,
    types: TypeScopeV,
    names: NameScopeV,
)
    requires
        c.repo.types.wf(),
    ensures
        ({
            let done = compile_entries(c, path, entries, n, types, names).compiler;
            done.repo.types.wf() && done.modules == c.modules
        }),
    decreases n,
{
    if n > 0 {
        lemma_entries_keep(c, path, entries, n - 1, types, names);
        let at = compile_entries(c, path, entries, n - 1, types, names);
        lemma_entry_outline(at.compiler, path, entries[n - 1], types, at.names, Seq::empty());
    }
}

/// What lies at the paths of modules does not change while they are looked at.
pub proof fn lemma_modules_keep(
    at: PopulatedV,
    names: NameScopeV,
    modules: Seq<SourceModule>,
    n: int,
    walks: Seq<Seq<Seq<ImportItemV>>>,
)
    requires
        at.compiler.repo.types.wf(),
    ensures
        ({
            let done = compile_modules(at, names, modules, n, walks).compiler;
            done.repo.types.wf() && done.modules == at.compiler.modules
        }),
    decreases n,
{
    if n > 0 {
        lemma_modules_keep(at, names, modules, n - 1, walks);
        let so_far = compile_modules(at, names, modules, n - 1, walks);
        let module = modules[n - 1];
        let (start, scopes) = after_imports(
            so_far.compiler,
            module,
            at.types.push_scope(at.scopes[n - 1]),
            module_names(module, so_far.names),
            walks[n - 1],
        );
        lemma_entries_keep(
            start,
            views(module.path@),
            module.entries@,
            module.entries@.len() as int,
            scopes.types,
            scopes.names,
        );
    }
}

/// In whatever order the files come, every name stands for the same type when the declarations of a
/// module are looked at, after the imports of the module.
pub proof fn law_names_in_any_order(
    c: CompilerV,
    a: Seq<SourceModule>,
    b: Seq<SourceModule>,
    wa: Seq<Seq<Seq<ImportItemV>>>,
    wb: Seq<Seq<Seq<ImportItemV>>>,
    k: int,
    l: int,
)
    requires
        c.repo.types.wf(),
        types_at_paths(c.modules),
        same_files(a, b),
        0 <= k < a.len(),
        0 <= l < b.len(),
        a[k] == b[l],
        imports_clear(a, a[k]),
        wa.len() == a.len(),
        wb.len() == b.len(),
        all_walks_ok(populated(c, a).compiler.modules, a, wa),
        all_walks_ok(populated(c, b).compiler.modules, b, wb),
    ensures
        same_types(
            turn_types(populated(c, a), start_names(c), a, wa, k),
            turn_types(populated(c, b), start_names(c), b, wb, l),
        ),
{
    let one = populated(c, a);
    let two = populated(c, b);
    let names = start_names(c);
    let types = known_types(c.repo);
    assert(types.global.wf());
    lemma_populated(c, a, a.len() as int, types);
    lemma_populated(c, b, b.len() as int, types);
    law_types_known_in_any_order(c, a, b, k, l);
    lemma_modules_keep(one, names, a, k, wa);
    lemma_modules_keep(two, names, b, l, wb);
    let module = a[k];
    let so_far = compile_modules(one, names, a, k, wa);
    let other = compile_modules(two, names, b, l, wb);
    let s = ScopesV {
        types: one.types.push_scope(one.scopes[k]),
        names: module_names(module, so_far.names),
    };
    let t = ScopesV {
        types: two.types.push_scope(two.scopes[l]),
        names: module_names(module, other.names),
    };
    assert(same_scopes(s, t)) by {
        assert(one.scopes[k] == module_types(a[k]));
        assert(two.scopes[l] == module_types(b[l]));
        lemma_own_types_wf(views(module.path@), module.entries@, module.entries@.len() as int);
    }
    let imports = module.imports@;
    assert forall|i: int| 0 <= i < imports.len() implies finds_same(
        one.compiler.modules,
        two.compiler.modules,
        #[trigger] imports[i],
    ) by {
        assert forall|at: Seq<Seq<char>>| #[trigger]
            one.compiler.modules.dom().contains(at) <==> two.compiler.modules.dom().contains(
                at,
            ) by {
            lemma_kinds_same(c, a, b, at);
        }
        assert forall|at: Seq<Seq<char>>| #[trigger] leads_to(imports[i], at) implies kind_at(
            one.compiler.modules,
            at,
        ) == kind_at(two.compiler.modules, at) by {
            assert(leads_to(module.imports@[i], at));
            lemma_kinds_same(c, a, b, at);
        }
    }
    assert(walks_ok(one.compiler.modules, a[k].imports@, wa[k]));
    assert(walks_ok(two.compiler.modules, b[l].imports@, wb[l]));
    lemma_imports_same(
        so_far.compiler.repo.globals,
        other.compiler.repo.globals,
        one.compiler.modules,
        two.compiler.modules,
        imports,
        imports.len() as int,
        wa[k],
        wb[l],
        s,
        t,
    );
}

/// Marking overriding methods does not change what classes say of themselves.
proof fn lemma_promote_outline(
    repo: RepoV,
    bases: DictV<MemberIdV, MemberIdV>,
    n: int,
    id: Seq<char>,
)
    requires
        repo.types.wf(),
        bases_ok(repo, bases),
        0 <= n <= bases.keys.len(),
    ensures
        promote_all(repo, bases, n).types.wf(),
        outline(promote_all(repo, bases, n), id) == outline(repo, id),
    decreases n,
{
    if n > 0 {
        let at = promote_all(repo, bases, n - 1);
        let done = promote_all(repo, bases, n);
        let key = bases.keys[n - 1];
        assert(bases.has(key));
        lemma_promote_outline(repo, bases, n - 1, id);
        lemma_promote_outline(repo, bases, n - 1, key.owner);
        assert(at.is_class(key.owner));
        let top = root(repo, bases, bases.vals[n - 1]);
        let own = method_at(at, key);
        let made = ClassTypeV {
            methods: FuncMapV {
                names: at.class(key.owner).methods.names,
                entries: at.class(key.owner).methods.entries.update(
                    key.slot,
                    promoted(
                        at.class(key.owner).methods.entries[key.slot],
                        bases.vals[n - 1],
                        fills_ret(method_at(at, top).typ, own.typ),
                        fills_params(method_at(at, top).typ, own.typ),
                    ),
                ),
            },
            ..at.class(key.owner)
        };
        assert(done == at.put(key.owner, DataTypeV::Class(made)));
        lemma_put_outline(at, key.owner, DataTypeV::Class(made), id);
    }
}

/// What a declared class refers to does not depend on the order of the files. Where two runs
/// compile the same files in whatever order, a class that is declared once has the same type
/// variables, extends the same class and has the same flags in both, or cannot be resolved in
/// either. No import of its file may lead to a type and a function at once: the later one of those
/// would be found.
pub proof fn law_class_in_any_order(
    c: CompilerV,
    a: Seq<SourceModule>,
    b: Seq<SourceModule>,
    one: OutputsV,
    two: OutputsV,
    k: int,
    l: int,
    e: int,
    id: Seq<char>,
)
    requires
        c.repo.types.wf(),
        types_at_paths(c.modules),
        same_files(a, b),
        declared_once(a, k, e, id),
        declared_once(b, l, e, id),
        a[k] == b[l],
        imports_clear(a, a[k]),
        run_ok(c, a),
        run_ok(c, b),
        is_run(c, a, one),
        is_run(c, b, two),
    ensures
        outline(one.repo, id) == outline(two.repo, id),
{
    let wa = lemma_run_outline(c, a, one, k, e, id);
    let wb = lemma_run_outline(c, b, two, l, e, id);
    law_names_in_any_order(c, a, b, wa, wb, k, l);
    lemma_outline_same(
        a[k].entries@[e],
        turn_types(populated(c, a), start_names(c), a, wa, k),
        turn_types(populated(c, b), start_names(c), b, wb, l),
        outline(c.repo, id),
    );
}

proof fn lemma_run_outline(
    c: CompilerV,
    modules: Seq<SourceModule>,
    out: OutputsV,
    k: int,
    e: int,
    id: Seq<char>,
) -> (walks: Seq<Seq<Seq<ImportItemV>>>)
    requires
        c.repo.types.wf(),
        types_at_paths(c.modules),
        declared_once(modules, k, e, id),
        run_ok(c, modules),
        is_run(c, modules, out),
    ensures
        walks.len() == modules.len(),
        all_walks_ok(populated(c, modules).compiler.modules, modules, walks),
        outline(out.repo, id) == declared_outline(
            modules[k].entries@[e],
            turn_types(populated(c, modules), start_names(c), modules, walks, k),
            outline(c.repo, id),
        ),
{
    let at = populated(c, modules);
    let names = start_names(c);
    let types = known_types(c.repo);
    let n = modules.len() as int;
    assert(types.global.wf());
    lemma_populated(c, modules, n, types);
    let (done, after) = choose|done: CollectedV, after: CompilerV|
        {
            &&& #[trigger] is_collected(at, names, modules, done)
            &&& #[trigger] is_inherited(done.compiler, after)
            &&& out == outputs_of(after, at.types, done.names)
        };
    let walks = choose|walks: Seq<Seq<Seq<ImportItemV>>>|
        {
            &&& walks.len() == modules.len()
            &&& #[trigger] all_walks_ok(at.compiler.modules, modules, walks)
            &&& done == compile_modules(at, names, modules, n, walks)
        };
    lemma_modules_outline(at, names, modules, n, walks, k, e, id);
    assert(inherit_ok(done.compiler));
    lemma_bases_of(done.compiler);
    let bases = bases_of(done.compiler).bases;
    lemma_promote_outline(done.compiler.repo, bases, bases.keys.len() as int, id);
    assert(after.repo == promote_all(done.compiler.repo, bases, bases.keys.len() as int));
    assert(outline(at.compiler.repo, id) == outline(c.repo, id));
    walks
}

} // verus!
