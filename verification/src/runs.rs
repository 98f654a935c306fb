//! What two runs over the same files have in common, whatever the order of the files.
use vstd::multiset::Multiset;
use vstd::prelude::*;

use crate::compiler::{is_run, run_ok, CompilerV, ModuleItemV, ModuleV};
use crate::dict::{views, DictV};
use crate::error::CompileErrorV;
use crate::funcs::FuncMapV;
use crate::gather::{
    gathered, lemma_gathered_alike, lemma_gathered_in_any_order, lemma_gathered_step,
    lemma_same_items,
};
use crate::inheritance::{
    all_errors, bases_of, inherit, inherit_ok, is_inherited, item_bases, item_ok, items_bases,
    law_sort_by_depth, lemma_bases_of, lemma_sort_len, queue_bases, queue_ok, sort_by_depth,
    tells_all, BasesV,
};
use crate::likeness::{
    bare_class, is_like, lemma_errors_in_any_order, lemma_item_bases_alike, lemma_item_bases_keep,
    lemma_item_errors_alike, lemma_promoted_alike, lemma_queue_bases_alike,
    lemma_queue_errors_alike, same_classes, same_entries,
};
use crate::module_map::{has_module, type_id, ImportItemV, ModulesV};
use crate::modules::{
    after_imports, all_walks_ok, compile_entries, compile_entry, compile_modules, entries_ok,
    import_all, import_selected, is_collected, known_types, lemma_compile_agrees, module_names,
    modules_ok, populate_entries, populate_modules, populated, start_names, turn_ok, walks_ok,
    CollectedV, EntriesV, PopulatedV, ScopesV,
};
use crate::order::{
    clashes, declared_id, imports_clear, law_class_by_names, law_names_in_any_order, leads_to,
    lemma_entries_keep, lemma_function_same, lemma_kinds_same, lemma_members_same,
    lemma_modules_keep, lemma_resolve_same, lemma_same_files, lemma_vars_same, only_in, same_files,
    same_types, turn_types, types_at_paths,
};
use crate::preprocess::{
    add_field, add_members, annotation_target, class_base, empty_class, entry_ok, enum_members,
    field_annotation, only_ident, preprocess_class, preprocess_entry, preprocess_let, MembersV,
};
use crate::queue::{outputs_of, OutputsV};
use crate::repo::{has_depth, ClassTypeV, DataTypeV, RepoV};
use crate::scope::{instantiate_vars, var_scope, NameScopeV, ScopedMapV, TypeScopeV};
use crate::source::{ClassSource, FieldSource, Import, MemberSource, SourceEntry, SourceModule};
use crate::tables::MemberIdV;
use crate::types::TypeV;

verus! {

/// A compiler that knows types, and nothing has been declared to.
spec fn blank(repo: RepoV) -> CompilerV {
    CompilerV {
        repo,
        intrinsics: DictV::empty(),
        defined: Seq::empty(),
        modules: Map::empty(),
        queue: Seq::empty(),
        errors: Seq::empty(),
    }
}

spec fn no_names() -> NameScopeV {
    ScopedMapV { global: DictV::empty(), local: None }
}

/// What a declaration comes to by itself.
spec fn alone(
    path: Seq<Seq<char>>,
    entry: SourceEntry,
    types: TypeScopeV,
    repo: RepoV,
) -> EntriesV {
    compile_entry(
        EntriesV { compiler: blank(repo), names: no_names(), items: Seq::empty() },
        path,
        entry,
        types,
    )
}

proof fn lemma_base_same(class: ClassSource, is_struct: bool, a: TypeScopeV, b: TypeScopeV)
    requires
        same_types(a, b),
    ensures
        instantiate_vars(
            class.tparams@,
            class.tparams@.len() as int,
            a,
            DictV::empty(),
            DictV::empty(),
        ) == instantiate_vars(
            class.tparams@,
            class.tparams@.len() as int,
            b,
            DictV::empty(),
            DictV::empty(),
        ),
        ({
            let vars = instantiate_vars(
                class.tparams@,
                class.tparams@.len() as int,
                a,
                DictV::empty(),
                DictV::empty(),
            );
            let scope = var_scope(vars->Ok_0, vars->Ok_0.len() as int);
            vars is Ok ==> class_base(class, is_struct, a, scope) == class_base(
                class,
                is_struct,
                b,
                scope,
            )
        }),
{
    let n = class.tparams@.len() as int;
    lemma_vars_same(class.tparams@, n, a, b, DictV::empty(), DictV::empty());
    let vars = instantiate_vars(class.tparams@, n, a, DictV::empty(), DictV::empty());
    if vars is Ok && class.base is Some {
        let scope = var_scope(vars->Ok_0, vars->Ok_0.len() as int);
        lemma_resolve_same(class.base->0, a, b, DictV::empty(), scope);
    }
}

/// Whether a class can be resolved depends on nothing but what names stand for.
proof fn lemma_class_defined(
    c: CompilerV,
    d: CompilerV,
    path: Seq<Seq<char>>,
    class: ClassSource,
    is_struct: bool,
    a: TypeScopeV,
    b: TypeScopeV,
)
    requires
        same_types(a, b),
        d.defined.len() == 0,
    ensures
        ({
            let (one, res) = preprocess_class(c, path, class, is_struct, a);
            let (two, _) = preprocess_class(d, path, class, is_struct, b);
            one.defined == c.defined + two.defined && one.queue == c.queue
        }),
{
    lemma_base_same(class, is_struct, a, b);
    let one = preprocess_class(c, path, class, is_struct, a).0;
    let two = preprocess_class(d, path, class, is_struct, b).0;
    assert(one.defined =~= c.defined + two.defined);
}

/// A function and a `let` list no types.
proof fn lemma_member_defined(
    c: CompilerV,
    path: Seq<Seq<char>>,
    entry: SourceEntry,
    types: TypeScopeV,
    names: NameScopeV,
)
    requires
        entry is Function || entry is GlobalLet,
    ensures
        ({
            let done = preprocess_entry(c, path, entry, types, names).compiler;
            done.defined == c.defined && done.queue == c.queue
        }),
{
    reveal(preprocess_entry);
}

/// A declaration lists the types that it lists by itself.
proof fn lemma_entry_defined(
    s: EntriesV,
    path: Seq<Seq<char>>,
    entry: SourceEntry,
    a: TypeScopeV,
    b: TypeScopeV,
    repo: RepoV,
)
    requires
        same_types(a, b),
    ensures
        ({
            let done = compile_entry(s, path, entry, a).compiler;
            &&& done.defined == s.compiler.defined + alone(path, entry, b, repo).compiler.defined
            &&& done.queue == s.compiler.queue
        }),
{
    let done = compile_entry(s, path, entry, a).compiler;
    let own = alone(path, entry, b, repo).compiler;
    if entry is Function || entry is GlobalLet {
        lemma_member_defined(s.compiler, path, entry, a, s.names);
        lemma_member_defined(blank(repo), path, entry, b, no_names());
    } else {
        reveal(preprocess_entry);
        match entry {
            SourceEntry::Class(class) => {
                lemma_class_defined(s.compiler, blank(repo), path, class, false, a, b);
            },
            SourceEntry::Struct(class) => {
                lemma_class_defined(s.compiler, blank(repo), path, class, true, a, b);
            },
            _ => {},
        }
    }
    assert(done.defined =~= s.compiler.defined + own.defined);
}

/// The types that the first `n` declarations of a module list.
spec fn ids_in(
    path: Seq<Seq<char>>,
    entries: Seq<SourceEntry>,
    n: int,
    types: TypeScopeV,
    repo: RepoV,
) -> Seq<Seq<char>>
    decreases n,
{
    if n <= 0 {
        Seq::empty()
    } else {
        ids_in(path, entries, n - 1, types, repo) + alone(
            path,
            entries[n - 1],
            types,
            repo,
        ).compiler.defined
    }
}

proof fn lemma_entries_defined(
    c: CompilerV,
    path: Seq<Seq<char>>,
    entries: Seq<SourceEntry>,
    n: int,
    types: TypeScopeV,
    names: NameScopeV,
    repo: RepoV,
)
    ensures
        ({
            let done = compile_entries(c, path, entries, n, types, names).compiler;
            &&& done.defined == c.defined + ids_in(path, entries, n, types, repo)
            &&& done.queue == c.queue
        }),
    decreases n,
{
    let done = compile_entries(c, path, entries, n, types, names).compiler;
    if n > 0 {
        lemma_entries_defined(c, path, entries, n - 1, types, names, repo);
        let at = compile_entries(c, path, entries, n - 1, types, names);
        lemma_entry_defined(at, path, entries[n - 1], types, types, repo);
    }
    assert(done.defined =~= c.defined + ids_in(path, entries, n, types, repo));
}

proof fn lemma_ids_same(
    path: Seq<Seq<char>>,
    entries: Seq<SourceEntry>,
    n: int,
    a: TypeScopeV,
    b: TypeScopeV,
    s: RepoV,
    t: RepoV,
)
    requires
        same_types(a, b),
    ensures
        ids_in(path, entries, n, a, s) == ids_in(path, entries, n, b, t),
    decreases n,
{
    if n > 0 {
        lemma_ids_same(path, entries, n - 1, a, b, s, t);
        let start = EntriesV { compiler: blank(s), names: no_names(), items: Seq::empty() };
        lemma_entry_defined(start, path, entries[n - 1], a, b, t);
        assert(alone(path, entries[n - 1], a, s).compiler.defined =~= alone(
            path,
            entries[n - 1],
            b,
            t,
        ).compiler.defined);
    }
}

/// The types that are known to a module at its first place in a list.
spec fn first_types(
    at: PopulatedV,
    names: NameScopeV,
    modules: Seq<SourceModule>,
    walks: Seq<Seq<Seq<ImportItemV>>>,
    module: SourceModule,
) -> TypeScopeV {
    turn_types(at, names, modules, walks, modules.index_of(module))
}

/// The types that a module lists.
spec fn module_ids(
    at: PopulatedV,
    names: NameScopeV,
    modules: Seq<SourceModule>,
    walks: Seq<Seq<Seq<ImportItemV>>>,
) -> spec_fn(SourceModule) -> Multiset<Seq<char>> {
    |module: SourceModule|
        ids_in(
            views(module.path@),
            module.entries@,
            module.entries@.len() as int,
            first_types(at, names, modules, walks, module),
            at.compiler.repo,
        ).to_multiset()
}

/// Whether the same files come in two orders, and no import of any leads to a type and a function
/// at once.
pub open spec fn only_reordered(a: Seq<SourceModule>, b: Seq<SourceModule>) -> bool {
    &&& a.to_multiset() == b.to_multiset()
    &&& forall|k: int| 0 <= k < a.len() ==> imports_clear(a, #[trigger] a[k])
}

proof fn lemma_reordered(a: Seq<SourceModule>, b: Seq<SourceModule>)
    requires
        a.to_multiset() == b.to_multiset(),
    ensures
        same_files(a, b),
{
    assert forall|module: SourceModule| #[trigger] a.contains(module) <==> b.contains(module) by {
        lemma_same_items(a, b, module);
    }
}

/// What holds of the files in one order holds of them in the other.
proof fn lemma_reordered_back(a: Seq<SourceModule>, b: Seq<SourceModule>)
    requires
        only_reordered(a, b),
    ensures
        only_reordered(b, a),
        only_reordered(a, a),
        only_reordered(b, b),
{
    lemma_reordered(a, b);
    lemma_reordered(b, a);
    assert forall|k: int| 0 <= k < b.len() implies imports_clear(b, #[trigger] b[k]) by {
        assert(b.contains(b[k]));
        let l = choose|l: int| 0 <= l < a.len() && a[l] == b[k];
        assert(imports_clear(a, a[l]));
        let module = b[k];
        assert forall|i: int, at: Seq<Seq<char>>|
            0 <= i < module.imports@.len() && #[trigger] leads_to(
                module.imports@[i],
                at,
            ) implies !clashes(b, at) by {
            lemma_same_files(b, a, at, Seq::empty());
        }
    }
}

/// Whether imports may find these walks where the same files come in two orders.
spec fn walked_twice(
    c: CompilerV,
    a: Seq<SourceModule>,
    b: Seq<SourceModule>,
    wa: Seq<Seq<Seq<ImportItemV>>>,
    wb: Seq<Seq<Seq<ImportItemV>>>,
) -> bool {
    &&& c.repo.types.wf()
    &&& types_at_paths(c.modules)
    &&& only_reordered(a, b)
    &&& wa.len() == a.len()
    &&& wb.len() == b.len()
    &&& all_walks_ok(populated(c, a).compiler.modules, a, wa)
    &&& all_walks_ok(populated(c, b).compiler.modules, b, wb)
}

/// A module knows the same types at whatever place it comes, in either order.
proof fn lemma_turns_same(
    c: CompilerV,
    a: Seq<SourceModule>,
    b: Seq<SourceModule>,
    wa: Seq<Seq<Seq<ImportItemV>>>,
    wb: Seq<Seq<Seq<ImportItemV>>>,
    k: int,
)
    requires
        walked_twice(c, a, b, wa, wb),
        0 <= k < a.len(),
    ensures
        b.contains(a[k]),
        same_types(
            turn_types(populated(c, a), start_names(c), a, wa, k),
            first_types(populated(c, b), start_names(c), b, wb, a[k]),
        ),
{
    lemma_reordered(a, b);
    assert(a.contains(a[k]));
    assert(imports_clear(a, a[k]));
    law_names_in_any_order(c, a, b, wa, wb, k, b.index_of(a[k]));
}

/// Making declarations known neither lists types nor reports anything.
proof fn lemma_populate_only_names(
    c: CompilerV,
    path: Seq<Seq<char>>,
    entries: Seq<SourceEntry>,
    n: int,
    types: TypeScopeV,
)
    ensures
        ({
            let done = populate_entries(c, path, entries, n, types).0;
            &&& done.repo.types == c.repo.types
            &&& done.defined == c.defined
            &&& done.queue == c.queue
            &&& done.errors == c.errors
        }),
    decreases n,
{
    if n > 0 {
        lemma_populate_only_names(c, path, entries, n - 1, types);
    }
}

proof fn lemma_populated_only_names(
    c: CompilerV,
    modules: Seq<SourceModule>,
    n: int,
    types: TypeScopeV,
)
    ensures
        ({
            let done = populate_modules(c, modules, n, types).compiler;
            &&& done.repo.types == c.repo.types
            &&& done.defined == c.defined
            &&& done.queue == c.queue
            &&& done.errors == c.errors
        }),
    decreases n,
{
    if n > 0 {
        lemma_populated_only_names(c, modules, n - 1, types);
        let at = populate_modules(c, modules, n - 1, types);
        let module = modules[n - 1];
        let count = module.entries@.len() as int;
        lemma_populate_only_names(
            at.compiler,
            views(module.path@),
            module.entries@,
            count,
            at.types,
        );
        lemma_populate_only_names(
            at.compiler,
            views(module.path@),
            module.entries@,
            count,
            at.types.push_scope(DictV::empty()),
        );
    }
}

proof fn lemma_modules_defined(
    c: CompilerV,
    modules: Seq<SourceModule>,
    n: int,
    walks: Seq<Seq<Seq<ImportItemV>>>,
)
    requires
        c.repo.types.wf(),
        types_at_paths(c.modules),
        only_reordered(modules, modules),
        walks.len() == modules.len(),
        all_walks_ok(populated(c, modules).compiler.modules, modules, walks),
        0 <= n <= modules.len(),
    ensures
        ({
            let at = populated(c, modules);
            let names = start_names(c);
            let done = compile_modules(at, names, modules, n, walks).compiler;
            done.defined.to_multiset() == c.defined.to_multiset().add(
                gathered(modules.take(n), module_ids(at, names, modules, walks)),
            )
        }),
    decreases n,
{
    let at = populated(c, modules);
    let names = start_names(c);
    let each = module_ids(at, names, modules, walks);
    let done = compile_modules(at, names, modules, n, walks).compiler;
    if n == 0 {
        lemma_populated_only_names(
            c,
            modules,
            modules.len() as int,
            known_types(c.repo),
        );
        assert(modules.take(0) =~= Seq::empty());
        assert(done.defined.to_multiset() =~= c.defined.to_multiset().add(
            gathered(modules.take(n), each),
        ));
    } else {
        lemma_modules_defined(c, modules, n - 1, walks);
        lemma_gathered_step(modules, each, n);
        let so_far = compile_modules(at, names, modules, n - 1, walks);
        let module = modules[n - 1];
        let path = views(module.path@);
        let count = module.entries@.len() as int;
        let (start, scopes) = after_imports(
            so_far.compiler,
            module,
            at.types.push_scope(at.scopes[n - 1]),
            module_names(module, so_far.names),
            walks[n - 1],
        );
        let repo = at.compiler.repo;
        lemma_entries_defined(
            start,
            path,
            module.entries@,
            count,
            scopes.types,
            scopes.names,
            repo,
        );
        lemma_turns_same(c, modules, modules, walks, walks, n - 1);
        let types = first_types(at, names, modules, walks, module);
        lemma_ids_same(path, module.entries@, count, scopes.types, types, repo, repo);
        let own = ids_in(path, module.entries@, count, types, repo);
        vstd::seq_lib::lemma_multiset_commutative(so_far.compiler.defined, own);
        assert(done.defined == so_far.compiler.defined + own);
        assert(done.defined.to_multiset() =~= c.defined.to_multiset().add(
            gathered(modules.take(n), each),
        ));
    }
}

/// What all modules come to with these walks.
spec fn collected(
    c: CompilerV,
    modules: Seq<SourceModule>,
    walks: Seq<Seq<Seq<ImportItemV>>>,
) -> CollectedV {
    compile_modules(populated(c, modules), start_names(c), modules, modules.len() as int, walks)
}

/// Whether a run found these walks in its imports, and told these methods.
spec fn ran(
    c: CompilerV,
    modules: Seq<SourceModule>,
    out: OutputsV,
    walks: Seq<Seq<Seq<ImportItemV>>>,
    told: Seq<Seq<MemberIdV>>,
) -> bool {
    let done = collected(c, modules, walks);
    let types = sort_by_depth(
        done.compiler.repo,
        done.compiler.defined,
        done.compiler.defined.len() as int,
    );
    &&& walks.len() == modules.len()
    &&& all_walks_ok(populated(c, modules).compiler.modules, modules, walks)
    &&& told.len() == done.compiler.defined.len()
    &&& tells_all(done.compiler.repo, bases_of(done.compiler).bases, types, told)
    &&& out == outputs_of(inherit(done.compiler, told), populated(c, modules).types, done.names)
}

proof fn lemma_ran(c: CompilerV, modules: Seq<SourceModule>, out: OutputsV) -> (res: (
    Seq<Seq<Seq<ImportItemV>>>,
    Seq<Seq<MemberIdV>>,
))
    requires
        is_run(c, modules, out),
    ensures
        ran(c, modules, out, res.0, res.1),
{
    let at = populated(c, modules);
    let names = start_names(c);
    let (done, after) = choose|done: CollectedV, after: CompilerV|
        {
            &&& #[trigger] is_collected(at, names, modules, done)
            &&& #[trigger] is_inherited(done.compiler, after)
            &&& out == outputs_of(after, at.types, done.names)
        };
    let walks = choose|walks: Seq<Seq<Seq<ImportItemV>>>|
        {
            &&& walks.len() == modules.len()
            &&& #[trigger] all_walks_ok(at.compiler.modules, modules, walks)
            &&& done == compile_modules(at, names, modules, modules.len() as int, walks)
        };
    let c = done.compiler;
    let told = choose|told: Seq<Seq<MemberIdV>>|
        {
            &&& told.len() == c.defined.len()
            &&& #[trigger] tells_all(
                c.repo,
                bases_of(c).bases,
                sort_by_depth(c.repo, c.defined, c.defined.len() as int),
                told,
            )
            &&& after == inherit(c, told)
        };
    (walks, told)
}

proof fn lemma_collected_listed(
    c: CompilerV,
    a: Seq<SourceModule>,
    b: Seq<SourceModule>,
    wa: Seq<Seq<Seq<ImportItemV>>>,
    wb: Seq<Seq<Seq<ImportItemV>>>,
)
    requires
        walked_twice(c, a, b, wa, wb),
    ensures
        collected(c, a, wa).compiler.defined.to_multiset() == collected(
            c,
            b,
            wb,
        ).compiler.defined.to_multiset(),
{
    let names = start_names(c);
    lemma_reordered_back(a, b);
    lemma_modules_defined(c, a, a.len() as int, wa);
    lemma_modules_defined(c, b, b.len() as int, wb);
    assert(a.take(a.len() as int) =~= a);
    assert(b.take(b.len() as int) =~= b);
    let one = module_ids(populated(c, a), names, a, wa);
    let two = module_ids(populated(c, b), names, b, wb);
    assert forall|k: int| 0 <= k < a.len() implies one(#[trigger] a[k]) == two(a[k]) by {
        lemma_turns_same(c, a, b, wa, wb, a.index_of(a[k]));
        lemma_ids_same(
            views(a[k].path@),
            a[k].entries@,
            a[k].entries@.len() as int,
            first_types(populated(c, a), names, a, wa, a[k]),
            first_types(populated(c, b), names, b, wb, a[k]),
            populated(c, a).compiler.repo,
            populated(c, b).compiler.repo,
        );
    }
    lemma_gathered_alike(a, one, two);
    lemma_gathered_in_any_order(a, b, two);
}

/// The same types are listed in whatever order the files come: two runs over the same files list
/// them in orders of the same types. No import may lead to a type and a function at once: the later
/// one of those would be found.
pub proof fn law_types_listed_in_any_order(
    c: CompilerV,
    a: Seq<SourceModule>,
    b: Seq<SourceModule>,
    one: OutputsV,
    two: OutputsV,
)
    requires
        c.repo.types.wf(),
        types_at_paths(c.modules),
        only_reordered(a, b),
        is_run(c, a, one),
        is_run(c, b, two),
    ensures
        one.defined.to_multiset() == two.defined.to_multiset(),
{
    let (wa, va) = lemma_ran(c, a, one);
    let (wb, vb) = lemma_ran(c, b, two);
    lemma_collected_listed(c, a, b, wa, wb);
    let x = collected(c, a, wa).compiler;
    let y = collected(c, b, wb).compiler;
    law_sort_by_depth(x.repo, x.defined, x.defined.len() as int);
    law_sort_by_depth(y.repo, y.defined, y.defined.len() as int);
    assert(x.defined.take(x.defined.len() as int) =~= x.defined);
    assert(y.defined.take(y.defined.len() as int) =~= y.defined);
}

/// Whether a declaration stands by itself: it is not a function with an annotation, which changes
/// what other files declare.
pub open spec fn stands_alone(entry: SourceEntry) -> bool {
    entry matches SourceEntry::Function(func) ==> func.decl.annotations@.len() == 0
}

/// The type that a `let` adds a field to, as far as it names one.
pub open spec fn field_target(entry: SourceEntry, types: TypeScopeV) -> Option<Seq<char>> {
    match entry {
        SourceEntry::GlobalLet(field) => match field_annotation(field.declaration.annotations@) {
            Some(ann) => match only_ident(ann.args@) {
                Some((name, _)) => types.lookup(name),
                None => None,
            },
            None => None,
        },
        _ => None,
    }
}

/// Whether the class that a `let` adds a field to is the same in two repositories.
spec fn target_alike(a: RepoV, b: RepoV, entry: SourceEntry, types: TypeScopeV) -> bool {
    field_target(entry, types) matches Some(id) ==> is_like(a, b, id)
}

proof fn lemma_members_errors(
    members: Seq<MemberSource>,
    n: int,
    a: TypeScopeV,
    b: TypeScopeV,
    vars: DictV<Seq<char>, TypeV>,
    s: MembersV,
    t: MembersV,
)
    requires
        same_types(a, b),
        s.class == t.class,
        s.bodies == t.bodies,
        t.errors.len() == 0,
    ensures
        add_members(members, n, a, vars, s).errors == s.errors + add_members(
            members,
            n,
            b,
            vars,
            t,
        ).errors,
    decreases n,
{
    let one = add_members(members, n, a, vars, s).errors;
    let two = add_members(members, n, b, vars, t).errors;
    if n > 0 {
        lemma_members_errors(members, n - 1, a, b, vars, s, t);
        lemma_members_same(members, n - 1, a, b, vars, s, t);
        match members[n - 1] {
            MemberSource::Method(func) => {
                lemma_function_same(func, a, b, vars);
            },
            MemberSource::Field(field) => {
                lemma_resolve_same(field.type_, a, b, DictV::empty(), vars);
            },
        }
    }
    assert(one =~= s.errors + two);
}

/// The errors of a class depend on nothing but what names stand for.
proof fn lemma_class_errors(
    c: CompilerV,
    d: CompilerV,
    path: Seq<Seq<char>>,
    class: ClassSource,
    is_struct: bool,
    a: TypeScopeV,
    b: TypeScopeV,
)
    requires
        same_types(a, b),
        d.errors.len() == 0,
    ensures
        preprocess_class(c, path, class, is_struct, a).0.errors == c.errors + preprocess_class(
            d,
            path,
            class,
            is_struct,
            b,
        ).0.errors,
{
    lemma_base_same(class, is_struct, a, b);
    let n = class.tparams@.len() as int;
    let vars = instantiate_vars(class.tparams@, n, a, DictV::empty(), DictV::empty());
    if vars is Ok {
        let vars = vars->Ok_0;
        let scope = var_scope(vars, vars.len() as int);
        let base = class_base(class, is_struct, a, scope);
        if base is Ok {
            let empty = empty_class(class, is_struct, vars, base->Ok_0);
            let s = MembersV { errors: c.errors, class: empty, bodies: Seq::empty() };
            let t = MembersV { errors: d.errors, class: empty, bodies: Seq::empty() };
            let count = class.members@.len() as int;
            lemma_members_errors(class.members@, count, a, b, scope, s, t);
        }
    }
    assert(preprocess_class(c, path, class, is_struct, a).0.errors =~= c.errors
        + preprocess_class(d, path, class, is_struct, b).0.errors);
}

proof fn lemma_let_errors(
    c: CompilerV,
    d: CompilerV,
    field: FieldSource,
    a: TypeScopeV,
    b: TypeScopeV,
)
    requires
        same_types(a, b),
        d.errors.len() == 0,
        target_alike(c.repo, d.repo, SourceEntry::GlobalLet(field), a),
    ensures
        ({
            let (one, res) = preprocess_let(c, field, a);
            let (two, other) = preprocess_let(d, field, b);
            one.errors == c.errors + two.errors && res == other
        }),
{
    if let Some(ann) = field_annotation(field.declaration.annotations@) {
        if let Some((name, span)) = only_ident(ann.args@) {
            assert(a.lookup(name) == b.lookup(name));
            lemma_resolve_same(field.type_, a, b, DictV::empty(), DictV::empty());
        }
    }
    let one = preprocess_let(c, field, a).0;
    let two = preprocess_let(d, field, b).0;
    assert(one.errors =~= c.errors + two.errors);
}

/// A declaration reports the errors that it reports by itself.
proof fn lemma_entry_errors(
    s: EntriesV,
    path: Seq<Seq<char>>,
    entry: SourceEntry,
    a: TypeScopeV,
    b: TypeScopeV,
    repo: RepoV,
)
    requires
        same_types(a, b),
        stands_alone(entry),
        s.compiler.repo.types.wf(),
        repo.types.wf(),
        target_alike(s.compiler.repo, repo, entry, a),
    ensures
        compile_entry(s, path, entry, a).compiler.errors == s.compiler.errors + alone(
            path,
            entry,
            b,
            repo,
        ).compiler.errors,
{
    reveal(preprocess_entry);
    let d = blank(repo);
    match entry {
        SourceEntry::Class(class) => {
            lemma_class_errors(s.compiler, d, path, class, false, a, b);
            law_class_by_names(s.compiler, d, path, class, false, a, b);
        },
        SourceEntry::Struct(class) => {
            lemma_class_errors(s.compiler, d, path, class, true, a, b);
            law_class_by_names(s.compiler, d, path, class, true, a, b);
        },
        SourceEntry::Function(func) => {
            lemma_function_same(func, a, b, DictV::empty());
        },
        SourceEntry::GlobalLet(field) => {
            lemma_let_errors(s.compiler, d, field, a, b);
        },
        _ => {},
    }
    assert(compile_entry(s, path, entry, a).compiler.errors =~= s.compiler.errors + alone(
        path,
        entry,
        b,
        repo,
    ).compiler.errors);
}

/// The class that a declaration queues.
spec fn entry_item(
    repo: RepoV,
    path: Seq<Seq<char>>,
    entry: SourceEntry,
    types: TypeScopeV,
) -> Option<ModuleItemV> {
    match entry {
        SourceEntry::Class(class) => match preprocess_class(
            blank(repo),
            path,
            class,
            false,
            types,
        ).1 {
            Ok(item) => item,
            Err(_) => None,
        },
        SourceEntry::Struct(class) => match preprocess_class(
            blank(repo),
            path,
            class,
            true,
            types,
        ).1 {
            Ok(item) => item,
            Err(_) => None,
        },
        _ => None,
    }
}

/// What is queued depends on nothing but what names stand for.
proof fn lemma_item_same(
    s: RepoV,
    t: RepoV,
    path: Seq<Seq<char>>,
    entry: SourceEntry,
    a: TypeScopeV,
    b: TypeScopeV,
)
    requires
        same_types(a, b),
        s.types.wf(),
        t.types.wf(),
    ensures
        entry_item(s, path, entry, a) == entry_item(t, path, entry, b),
        entry_item(s, path, entry, a) matches Some(ModuleItemV::Class(this, _, _)) ==> declared_id(
            path,
            entry,
        ) == Some(this.id),
{
    match entry {
        SourceEntry::Class(class) => {
            law_class_by_names(blank(s), blank(t), path, class, false, a, b);
        },
        SourceEntry::Struct(class) => {
            law_class_by_names(blank(s), blank(t), path, class, true, a, b);
        },
        _ => {},
    }
}

/// What a declaration makes known of overriding.
spec fn entry_bases(
    repo: RepoV,
    path: Seq<Seq<char>>,
    entry: SourceEntry,
    types: TypeScopeV,
    at: BasesV,
) -> BasesV {
    match entry_item(repo, path, entry, types) {
        Some(item) => item_bases(repo, item, at),
        None => at,
    }
}

proof fn lemma_items_push(
    repo: RepoV,
    items: Seq<ModuleItemV>,
    item: ModuleItemV,
    n: int,
    at: BasesV,
)
    requires
        0 <= n <= items.len(),
    ensures
        items_bases(repo, items.push(item), n, at) == items_bases(repo, items, n, at),
    decreases n,
{
    if n > 0 {
        lemma_items_push(repo, items, item, n - 1, at);
    }
}

proof fn lemma_entry_bases(
    s: EntriesV,
    path: Seq<Seq<char>>,
    entry: SourceEntry,
    a: TypeScopeV,
    b: TypeScopeV,
    repo: RepoV,
    at: BasesV,
)
    requires
        same_types(a, b),
        stands_alone(entry),
        s.compiler.repo.types.wf(),
        repo.types.wf(),
    ensures
        ({
            let items = compile_entry(s, path, entry, a).items;
            items_bases(repo, items, items.len() as int, at) == entry_bases(
                repo,
                path,
                entry,
                b,
                items_bases(repo, s.items, s.items.len() as int, at),
            )
        }),
        ({
            let items = compile_entry(s, path, entry, a).items;
            &&& entry_item(repo, path, entry, b) matches Some(item) ==> items == s.items.push(item)
            &&& items == s.items || items == s.items.push(items.last())
        }),
{
    reveal(preprocess_entry);
    let items = compile_entry(s, path, entry, a).items;
    match entry {
        SourceEntry::Class(class) => {
            law_class_by_names(s.compiler, blank(repo), path, class, false, a, b);
        },
        SourceEntry::Struct(class) => {
            law_class_by_names(s.compiler, blank(repo), path, class, true, a, b);
        },
        _ => {},
    }
    if items.len() > s.items.len() {
        assert(items == s.items.push(items.last()));
        lemma_items_push(repo, s.items, items.last(), s.items.len() as int, at);
    }
}

/// The class that a declaration makes, without its fields. One that cannot be resolved leaves what
/// was there.
spec fn declared_bare(
    path: Seq<Seq<char>>,
    entry: SourceEntry,
    types: TypeScopeV,
    repo: RepoV,
    id: Seq<char>,
) -> Option<ClassTypeV> {
    bare_class(alone(path, entry, types, repo).compiler.repo, id)
}

/// Only the type that is put changes.
proof fn lemma_put_bare(repo: RepoV, own: Seq<char>, typ: DataTypeV, id: Seq<char>)
    requires
        repo.types.wf(),
    ensures
        repo.put(own, typ).types.wf(),
        repo.put(own, typ).has(id) <==> own == id || repo.has(id),
        bare_class(repo.put(own, typ), id) == if own == id {
            match typ {
                DataTypeV::Class(class) => Some(ClassTypeV { fields: DictV::empty(), ..class }),
                _ => None,
            }
        } else {
            bare_class(repo, id)
        },
{
    repo.types.lemma_put(own, typ);
    assert(repo.put(own, typ).types.get(id) == if own == id {
        Some(typ)
    } else {
        repo.types.get(id)
    });
}

proof fn lemma_let_bare(c: CompilerV, field: FieldSource, types: TypeScopeV, id: Seq<char>)
    requires
        c.repo.types.wf(),
    ensures
        ({
            let done = preprocess_let(c, field, types).0.repo;
            &&& done.types.wf()
            &&& done.has(id) <==> c.repo.has(id)
            &&& bare_class(done, id) == bare_class(c.repo, id)
        }),
{
    if let Some(ann) = field_annotation(field.declaration.annotations@) {
        if let Some((name, span)) = only_ident(ann.args@) {
            if let Ok(target) = annotation_target(c.repo, types, name, span) {
                let made = add_field(
                    field,
                    types,
                    DictV::empty(),
                    MembersV {
                        errors: c.errors,
                        class: c.repo.class(target),
                        bodies: Seq::empty(),
                    },
                ).class;
                lemma_put_bare(c.repo, target, DataTypeV::Class(made), id);
            }
        }
    }
}

/// A declaration changes its own type, and no other but for its fields.
proof fn lemma_entry_bare(
    s: EntriesV,
    path: Seq<Seq<char>>,
    entry: SourceEntry,
    a: TypeScopeV,
    b: TypeScopeV,
    repo: RepoV,
    id: Seq<char>,
)
    requires
        same_types(a, b),
        stands_alone(entry),
        s.compiler.repo.types.wf(),
        repo.types.wf(),
        declared_id(path, entry) == Some(id) ==> is_like(s.compiler.repo, repo, id),
    ensures
        ({
            let done = compile_entry(s, path, entry, a).compiler.repo;
            &&& done.types.wf()
            &&& bare_class(done, id) == if declared_id(path, entry) == Some(id) {
                declared_bare(path, entry, b, repo, id)
            } else {
                bare_class(s.compiler.repo, id)
            }
            &&& declared_id(path, entry) != Some(id) ==> (done.has(id) <==> s.compiler.repo.has(id))
        }),
{
    reveal(preprocess_entry);
    let c = s.compiler;
    let d = blank(repo);
    match entry {
        SourceEntry::Class(class) => {
            lemma_class_bare(c, path, class, false, a, id);
            lemma_class_bare(d, path, class, false, b, id);
            law_class_by_names(c, d, path, class, false, a, b);
        },
        SourceEntry::Struct(class) => {
            lemma_class_bare(c, path, class, true, a, id);
            lemma_class_bare(d, path, class, true, b, id);
            law_class_by_names(c, d, path, class, true, a, b);
        },
        SourceEntry::Enum(source) => {
            let members = enum_members(source.members@, source.members@.len() as int);
            let own = type_id(source.name@, path);
            lemma_put_bare(c.repo, own, DataTypeV::Enum(members), id);
            lemma_put_bare(d.repo, own, DataTypeV::Enum(members), id);
        },
        SourceEntry::GlobalLet(field) => {
            lemma_let_bare(c, field, a, id);
        },
        _ => {},
    }
}

proof fn lemma_class_bare(
    c: CompilerV,
    path: Seq<Seq<char>>,
    class: ClassSource,
    is_struct: bool,
    types: TypeScopeV,
    id: Seq<char>,
)
    requires
        c.repo.types.wf(),
    ensures
        ({
            let own = type_id(class.name@, path);
            let (done, res) = preprocess_class(c, path, class, is_struct, types);
            &&& done.repo.types.wf()
            &&& res is Err ==> done.repo == c.repo
            &&& own != id ==> (done.repo.has(id) <==> c.repo.has(id)) && bare_class(done.repo, id)
                == bare_class(c.repo, id)
        }),
{
    let own = type_id(class.name@, path);
    let n = class.tparams@.len() as int;
    let vars = instantiate_vars(class.tparams@, n, types, DictV::empty(), DictV::empty());
    if vars is Ok {
        let vars = vars->Ok_0;
        let scope = var_scope(vars, vars.len() as int);
        let base = class_base(class, is_struct, types, scope);
        if base is Ok {
            let start = MembersV {
                errors: c.errors,
                class: empty_class(class, is_struct, vars, base->Ok_0),
                bodies: Seq::empty(),
            };
            let made = add_members(
                class.members@,
                class.members@.len() as int,
                types,
                scope,
                start,
            ).class;
            lemma_put_bare(c.repo, own, DataTypeV::Class(made), id);
        }
    }
}

/// Whether the declaration at a place declares a type.
pub open spec fn declares_at(modules: Seq<SourceModule>, k: int, e: int, id: Seq<char>) -> bool {
    &&& 0 <= k < modules.len()
    &&& 0 <= e < modules[k].entries@.len()
    &&& declared_id(views(modules[k].path@), modules[k].entries@[e]) == Some(id)
}

/// Whether no type is declared at two places.
pub open spec fn each_once(modules: Seq<SourceModule>) -> bool {
    forall|k: int, e: int, l: int, f: int, id: Seq<char>|
        #[trigger] declares_at(modules, k, e, id) && #[trigger] declares_at(modules, l, f, id) ==> k
            == l && e == f
}

/// Whether every declaration of the files stands by itself.
pub open spec fn all_alone(modules: Seq<SourceModule>) -> bool {
    forall|k: int, e: int|
        0 <= k < modules.len() && 0 <= e < modules[k].entries@.len() ==> stands_alone(
            #[trigger] modules[k].entries@[e],
        )
}

/// Whether a type is declared at one place, and at no other. No place is given for a type that is
/// not declared.
spec fn is_place(modules: Seq<SourceModule>, k: int, e: int, id: Seq<char>) -> bool {
    &&& 0 <= k < modules.len() ==> declares_at(modules, k, e, id)
    &&& forall|i: int|
        0 <= i < modules.len() ==> only_in(
            #[trigger] modules[i],
            if i == k {
                e
            } else {
                -1
            },
            id,
        )
}

proof fn lemma_place(modules: Seq<SourceModule>, id: Seq<char>) -> (at: (int, int))
    requires
        each_once(modules),
    ensures
        is_place(modules, at.0, at.1, id),
{
    if exists|k: int, e: int| declares_at(modules, k, e, id) {
        let (k, e) = choose|k: int, e: int| declares_at(modules, k, e, id);
        assert forall|i: int| 0 <= i < modules.len() implies only_in(
            #[trigger] modules[i],
            if i == k {
                e
            } else {
                -1
            },
            id,
        ) by {
            let module = modules[i];
            assert forall|f: int|
                0 <= f < module.entries@.len() && declared_id(
                    views(module.path@),
                    #[trigger] module.entries@[f],
                ) == Some(id) implies i == k && f == e by {
                assert(declares_at(modules, i, f, id));
            }
        }
        (k, e)
    } else {
        assert forall|i: int| 0 <= i < modules.len() implies only_in(
            #[trigger] modules[i],
            -1,
            id,
        ) by {
            let module = modules[i];
            assert forall|f: int|
                0 <= f < module.entries@.len() && declared_id(
                    views(module.path@),
                    #[trigger] module.entries@[f],
                ) == Some(id) implies f == -1 by {
                assert(declares_at(modules, i, f, id));
            }
        }
        (-1, 0)
    }
}

proof fn lemma_entries_bare(
    c: CompilerV,
    module: SourceModule,
    n: int,
    types: TypeScopeV,
    names: NameScopeV,
    e: int,
    id: Seq<char>,
    repo: RepoV,
)
    requires
        c.repo.types.wf(),
        repo.types.wf(),
        0 <= n <= module.entries@.len(),
        forall|i: int|
            0 <= i < module.entries@.len() ==> stands_alone(#[trigger] module.entries@[i]),
        only_in(module, e, id),
        0 <= e < module.entries@.len() ==> is_like(c.repo, repo, id) && declared_id(
            views(module.path@),
            module.entries@[e],
        ) == Some(id),
    ensures
        ({
            let path = views(module.path@);
            let done = compile_entries(c, path, module.entries@, n, types, names).compiler.repo;
            &&& done.types.wf()
            &&& bare_class(done, id) == if 0 <= e < n {
                declared_bare(path, module.entries@[e], types, repo, id)
            } else {
                bare_class(c.repo, id)
            }
            &&& !(0 <= e < n) ==> (done.has(id) <==> c.repo.has(id))
        }),
    decreases n,
{
    if n > 0 {
        let path = views(module.path@);
        lemma_entries_bare(c, module, n - 1, types, names, e, id, repo);
        let at = compile_entries(c, path, module.entries@, n - 1, types, names);
        assert(stands_alone(module.entries@[n - 1]));
        lemma_entry_bare(at, path, module.entries@[n - 1], types, types, repo, id);
    }
}

/// The compiler and what is known in a module when its declarations are looked at.
spec fn turn_start(
    c: CompilerV,
    modules: Seq<SourceModule>,
    walks: Seq<Seq<Seq<ImportItemV>>>,
    k: int,
) -> (CompilerV, ScopesV) {
    let at = populated(c, modules);
    let so_far = compile_modules(at, start_names(c), modules, k, walks);
    after_imports(
        so_far.compiler,
        modules[k],
        at.types.push_scope(at.scopes[k]),
        module_names(modules[k], so_far.names),
        walks[k],
    )
}

/// The class that a run makes of the declaration at a place.
spec fn made_at(
    c: CompilerV,
    modules: Seq<SourceModule>,
    walks: Seq<Seq<Seq<ImportItemV>>>,
    k: int,
    e: int,
    id: Seq<char>,
) -> Option<ClassTypeV> {
    declared_bare(
        views(modules[k].path@),
        modules[k].entries@[e],
        turn_start(c, modules, walks, k).1.types,
        c.repo,
        id,
    )
}

/// After the first `n` modules a type is what its declaration makes of it, or what it was.
proof fn lemma_modules_bare(
    c: CompilerV,
    modules: Seq<SourceModule>,
    n: int,
    walks: Seq<Seq<Seq<ImportItemV>>>,
    k: int,
    e: int,
    id: Seq<char>,
)
    requires
        c.repo.types.wf(),
        all_alone(modules),
        0 <= n <= modules.len(),
        is_place(modules, k, e, id),
    ensures
        ({
            let done = compile_modules(
                populated(c, modules),
                start_names(c),
                modules,
                n,
                walks,
            ).compiler.repo;
            &&& done.types.wf()
            &&& bare_class(done, id) == if 0 <= k < n {
                made_at(c, modules, walks, k, e, id)
            } else {
                bare_class(c.repo, id)
            }
            &&& !(0 <= k < n) ==> (done.has(id) <==> c.repo.has(id))
        }),
    decreases n,
{
    if n > 0 {
        lemma_modules_bare(c, modules, n - 1, walks, k, e, id);
        lemma_turn_bare(c, modules, walks, n - 1, modules[n - 1].entries@.len() as int, k, e, id);
    } else {
        lemma_populated_only_names(c, modules, modules.len() as int, known_types(c.repo));
    }
}

/// After the first `n` declarations of a module a type is what its declaration makes of it, or what
/// it was.
proof fn lemma_turn_bare(
    c: CompilerV,
    modules: Seq<SourceModule>,
    walks: Seq<Seq<Seq<ImportItemV>>>,
    m: int,
    n: int,
    k: int,
    e: int,
    id: Seq<char>,
)
    requires
        c.repo.types.wf(),
        all_alone(modules),
        0 <= m < modules.len(),
        0 <= n <= modules[m].entries@.len(),
        is_place(modules, k, e, id),
        ({
            let before = compile_modules(
                populated(c, modules),
                start_names(c),
                modules,
                m,
                walks,
            ).compiler.repo;
            &&& before.types.wf()
            &&& bare_class(before, id) == if 0 <= k < m {
                made_at(c, modules, walks, k, e, id)
            } else {
                bare_class(c.repo, id)
            }
            &&& !(0 <= k < m) ==> (before.has(id) <==> c.repo.has(id))
        }),
    ensures
        ({
            let (start, scopes) = turn_start(c, modules, walks, m);
            let done = compile_entries(
                start,
                views(modules[m].path@),
                modules[m].entries@,
                n,
                scopes.types,
                scopes.names,
            ).compiler.repo;
            let is_done = 0 <= k < m || (k == m && e < n);
            &&& done.types.wf()
            &&& bare_class(done, id) == if is_done {
                made_at(c, modules, walks, k, e, id)
            } else {
                bare_class(c.repo, id)
            }
            &&& !is_done ==> (done.has(id) <==> c.repo.has(id))
        }),
{
    let (start, scopes) = turn_start(c, modules, walks, m);
    let own = if m == k {
        e
    } else {
        -1
    };
    let module = modules[m];
    assert(only_in(modules[m], own, id));
    assert forall|i: int| 0 <= i < module.entries@.len() implies stands_alone(
        #[trigger] module.entries@[i],
    ) by {
        assert(stands_alone(modules[m].entries@[i]));
    }
    lemma_entries_bare(start, module, n, scopes.types, scopes.names, own, id, c.repo);
}

/// A type that is declared in one order is declared in the other, by the same declaration.
proof fn lemma_place_moves(
    a: Seq<SourceModule>,
    b: Seq<SourceModule>,
    k: int,
    e: int,
    l: int,
    f: int,
    id: Seq<char>,
)
    requires
        a.to_multiset() == b.to_multiset(),
        each_once(a),
        is_place(a, k, e, id),
        is_place(b, l, f, id),
    ensures
        0 <= k < a.len() <==> 0 <= l < b.len(),
        0 <= k < a.len() ==> a[k] == b[l] && e == f,
{
    if 0 <= k < a.len() {
        lemma_same_items(a, b, a[k]);
        assert(a.contains(a[k]));
        let i = choose|i: int| 0 <= i < b.len() && b[i] == a[k];
        assert(declared_id(views(b[i].path@), b[i].entries@[e]) == Some(id));
        assert(only_in(b[i], if i == l { f } else { -1 }, id));
    } else if 0 <= l < b.len() {
        lemma_same_items(a, b, b[l]);
        assert(b.contains(b[l]));
        let i = choose|i: int| 0 <= i < a.len() && a[i] == b[l];
        assert(declared_id(views(a[i].path@), a[i].entries@[f]) == Some(id));
        assert(only_in(a[i], if i == k { e } else { -1 }, id));
    }
}

/// Two runs over the same files make the same classes, but for their fields.
proof fn lemma_classes_same(
    c: CompilerV,
    a: Seq<SourceModule>,
    b: Seq<SourceModule>,
    wa: Seq<Seq<Seq<ImportItemV>>>,
    wb: Seq<Seq<Seq<ImportItemV>>>,
)
    requires
        walked_twice(c, a, b, wa, wb),
        all_alone(a),
        all_alone(b),
        each_once(a),
        each_once(b),
    ensures
        collected(c, a, wa).compiler.repo.types.wf(),
        collected(c, b, wb).compiler.repo.types.wf(),
        same_classes(collected(c, a, wa).compiler.repo, collected(c, b, wb).compiler.repo),
{
    let x = collected(c, a, wa).compiler.repo;
    let y = collected(c, b, wb).compiler.repo;
    assert forall|id: Seq<char>| x.types.wf() && y.types.wf() && #[trigger] is_like(x, y, id) by {
        let (k, e) = lemma_place(a, id);
        let (l, f) = lemma_place(b, id);
        lemma_place_moves(a, b, k, e, l, f, id);
        lemma_modules_bare(c, a, a.len() as int, wa, k, e, id);
        lemma_modules_bare(c, b, b.len() as int, wb, l, f, id);
        if 0 <= k < a.len() {
            lemma_reordered(a, b);
            assert(imports_clear(a, a[k]));
            law_names_in_any_order(c, a, b, wa, wb, k, l);
            let start = EntriesV {
                compiler: blank(c.repo),
                names: no_names(),
                items: Seq::empty(),
            };
            assert(stands_alone(a[k].entries@[e]));
            lemma_entry_bare(
                start,
                views(a[k].path@),
                a[k].entries@[e],
                turn_start(c, a, wa, k).1.types,
                turn_start(c, b, wb, l).1.types,
                c.repo,
                id,
            );
        }
    }
    assert(is_like(x, y, Seq::empty()));
}

/// Whether a `let` at a place adds a field to a class.
pub open spec fn adds_field_at(modules: Seq<SourceModule>, k: int, e: int) -> bool {
    &&& 0 <= k < modules.len()
    &&& 0 <= e < modules[k].entries@.len()
    &&& modules[k].entries@[e] matches SourceEntry::GlobalLet(field)
    &&& field_annotation(field.declaration.annotations@) is Some
}

/// Whether, where a `let` adds a field to a class, only types that were not known before are
/// declared.
pub open spec fn fields_clear(repo: RepoV, modules: Seq<SourceModule>) -> bool {
    forall|k: int, e: int, l: int, f: int, id: Seq<char>|
        #[trigger] adds_field_at(modules, k, e) && #[trigger] declares_at(modules, l, f, id)
            ==> !repo.has(id)
}

/// The declarations of a module can be preprocessed when their turn comes.
proof fn lemma_turn_ok(
    c: CompilerV,
    modules: Seq<SourceModule>,
    walks: Seq<Seq<Seq<ImportItemV>>>,
    k: int,
)
    requires
        modules_ok(populated(c, modules), start_names(c), modules),
        walks.len() == modules.len(),
        all_walks_ok(populated(c, modules).compiler.modules, modules, walks),
        0 <= k < modules.len(),
    ensures
        ({
            let (start, scopes) = turn_start(c, modules, walks, k);
            entries_ok(
                start,
                views(modules[k].path@),
                modules[k].entries@,
                scopes.types,
                scopes.names,
            )
        }),
{
    let at = populated(c, modules);
    let names = start_names(c);
    let first = walks.take(k + 1);
    assert(all_walks_ok(at.compiler.modules, modules, first)) by {
        assert forall|i: int| 0 <= i < first.len() implies walks_ok(
            at.compiler.modules,
            modules[i].imports@,
            #[trigger] first[i],
        ) by {
            assert(first[i] == walks[i]);
        }
    }
    lemma_compile_agrees(at, names, modules, k, first, walks);
    assert(turn_ok(at, names, modules, first));
}

/// The class that a `let` adds a field to is what it is in the end, but for its fields.
proof fn lemma_target_settled(
    c: CompilerV,
    modules: Seq<SourceModule>,
    walks: Seq<Seq<Seq<ImportItemV>>>,
    k: int,
    e: int,
)
    requires
        c.repo.types.wf(),
        modules_ok(populated(c, modules), start_names(c), modules),
        walks.len() == modules.len(),
        all_walks_ok(populated(c, modules).compiler.modules, modules, walks),
        all_alone(modules),
        each_once(modules),
        fields_clear(c.repo, modules),
        0 <= k < modules.len(),
        0 <= e < modules[k].entries@.len(),
    ensures
        ({
            let (start, scopes) = turn_start(c, modules, walks, k);
            let at = compile_entries(
                start,
                views(modules[k].path@),
                modules[k].entries@,
                e,
                scopes.types,
                scopes.names,
            );
            &&& at.compiler.repo.types.wf()
            &&& target_alike(
                at.compiler.repo,
                collected(c, modules, walks).compiler.repo,
                modules[k].entries@[e],
                scopes.types,
            )
        }),
{
    let (start, scopes) = turn_start(c, modules, walks, k);
    let path = views(modules[k].path@);
    let entries = modules[k].entries@;
    let at = compile_entries(start, path, entries, e, scopes.types, scopes.names);
    let entry = entries[e];
    let id = match field_target(entry, scopes.types) {
        Some(id) => id,
        None => Seq::empty(),
    };
    let (l, f) = lemma_place(modules, id);
    lemma_modules_bare(c, modules, k, walks, l, f, id);
    lemma_turn_bare(c, modules, walks, k, e, l, f, id);
    lemma_modules_bare(c, modules, modules.len() as int, walks, l, f, id);
    if field_target(entry, scopes.types) is Some {
        lemma_turn_ok(c, modules, walks, k);
        assert(entry_ok(at.compiler.repo, entries[e], scopes.types));
        assert(at.compiler.repo.has(id));
        assert(adds_field_at(modules, k, e));
        if 0 <= l < modules.len() {
            assert(declares_at(modules, l, f, id));
            assert(!c.repo.has(id));
        }
    }
}

/// The errors that the first `n` declarations of a module report, where types are what they are in
/// a repository.
spec fn errors_in(
    path: Seq<Seq<char>>,
    entries: Seq<SourceEntry>,
    n: int,
    types: TypeScopeV,
    repo: RepoV,
) -> Seq<CompileErrorV>
    decreases n,
{
    if n <= 0 {
        Seq::empty()
    } else {
        errors_in(path, entries, n - 1, types, repo) + alone(
            path,
            entries[n - 1],
            types,
            repo,
        ).compiler.errors
    }
}

proof fn lemma_errors_same(
    path: Seq<Seq<char>>,
    entries: Seq<SourceEntry>,
    n: int,
    a: TypeScopeV,
    b: TypeScopeV,
    s: RepoV,
    t: RepoV,
)
    requires
        same_types(a, b),
        same_classes(s, t),
        s.types.wf(),
        t.types.wf(),
        0 <= n <= entries.len(),
        forall|i: int| 0 <= i < entries.len() ==> stands_alone(#[trigger] entries[i]),
    ensures
        errors_in(path, entries, n, a, s) == errors_in(path, entries, n, b, t),
    decreases n,
{
    if n > 0 {
        lemma_errors_same(path, entries, n - 1, a, b, s, t);
        let entry = entries[n - 1];
        let start = EntriesV { compiler: blank(s), names: no_names(), items: Seq::empty() };
        assert(stands_alone(entries[n - 1]));
        if let Some(id) = field_target(entry, a) {
            assert(is_like(s, t, id));
        }
        lemma_entry_errors(start, path, entry, a, b, t);
        assert(alone(path, entry, a, s).compiler.errors =~= alone(
            path,
            entry,
            b,
            t,
        ).compiler.errors);
    }
}

proof fn lemma_turn_errors(
    c: CompilerV,
    modules: Seq<SourceModule>,
    walks: Seq<Seq<Seq<ImportItemV>>>,
    k: int,
    n: int,
)
    requires
        c.repo.types.wf(),
        modules_ok(populated(c, modules), start_names(c), modules),
        walks.len() == modules.len(),
        all_walks_ok(populated(c, modules).compiler.modules, modules, walks),
        all_alone(modules),
        each_once(modules),
        fields_clear(c.repo, modules),
        0 <= k < modules.len(),
        0 <= n <= modules[k].entries@.len(),
        collected(c, modules, walks).compiler.repo.types.wf(),
    ensures
        ({
            let (start, scopes) = turn_start(c, modules, walks, k);
            let path = views(modules[k].path@);
            let entries = modules[k].entries@;
            compile_entries(
                start,
                path,
                entries,
                n,
                scopes.types,
                scopes.names,
            ).compiler.errors == start.errors + errors_in(
                path,
                entries,
                n,
                scopes.types,
                collected(c, modules, walks).compiler.repo,
            )
        }),
    decreases n,
{
    let (start, scopes) = turn_start(c, modules, walks, k);
    let path = views(modules[k].path@);
    let entries = modules[k].entries@;
    let last = collected(c, modules, walks).compiler.repo;
    let done = compile_entries(start, path, entries, n, scopes.types, scopes.names).compiler;
    if n > 0 {
        lemma_turn_errors(c, modules, walks, k, n - 1);
        let at = compile_entries(start, path, entries, n - 1, scopes.types, scopes.names);
        lemma_target_settled(c, modules, walks, k, n - 1);
        assert(stands_alone(modules[k].entries@[n - 1]));
        lemma_entry_errors(at, path, entries[n - 1], scopes.types, scopes.types, last);
    }
    assert(done.errors =~= start.errors + errors_in(path, entries, n, scopes.types, last));
}

proof fn lemma_selected_error(
    a: ModulesV,
    b: ModulesV,
    f: FuncMapV,
    g: FuncMapV,
    path: Seq<Seq<char>>,
    selected: Seq<Seq<char>>,
    n: int,
    s: ScopesV,
    t: ScopesV,
)
    requires
        forall|at: Seq<Seq<char>>| #[trigger] a.dom().contains(at) <==> b.dom().contains(at),
    ensures
        import_selected(a, f, path, selected, n, s).1 == import_selected(
            b,
            g,
            path,
            selected,
            n,
            t,
        ).1,
    decreases n,
{
    if n > 0 {
        lemma_selected_error(a, b, f, g, path, selected, n - 1, s, t);
        assert(a.dom().contains(path.push(selected[n - 1])) <==> b.dom().contains(
            path.push(selected[n - 1]),
        ));
    }
}

/// The errors of imports depend on nothing but what lies at paths.
proof fn lemma_import_errors(
    a: ModulesV,
    b: ModulesV,
    f: FuncMapV,
    g: FuncMapV,
    imports: Seq<Import>,
    n: int,
    wa: Seq<Seq<ImportItemV>>,
    wb: Seq<Seq<ImportItemV>>,
    s: ScopesV,
    t: ScopesV,
)
    requires
        forall|at: Seq<Seq<char>>| #[trigger] a.dom().contains(at) <==> b.dom().contains(at),
    ensures
        import_all(a, f, imports, n, wa, s).1 == import_all(b, g, imports, n, wb, t).1,
    decreases n,
{
    if n > 0 {
        lemma_import_errors(a, b, f, g, imports, n - 1, wa, wb, s, t);
        match imports[n - 1] {
            Import::Exact(path, _) => {
                assert(a.dom().contains(views(path@)) <==> b.dom().contains(views(path@)));
            },
            Import::Selected(path, selected, _) => {
                lemma_selected_error(
                    a,
                    b,
                    f,
                    g,
                    views(path@),
                    views(selected@),
                    selected@.len() as int,
                    import_all(a, f, imports, n - 1, wa, s).0,
                    import_all(b, g, imports, n - 1, wb, t).0,
                );
            },
            Import::All(path, _) => {
                let at = views(path@);
                if has_module(a, at) && at.len() > 0 {
                    let key = choose|key: Seq<Seq<char>>|
                        #[trigger] a.dom().contains(key) && at.is_prefix_of(key);
                    assert(b.dom().contains(key));
                }
                if has_module(b, at) && at.len() > 0 {
                    let key = choose|key: Seq<Seq<char>>|
                        #[trigger] b.dom().contains(key) && at.is_prefix_of(key);
                    assert(a.dom().contains(key));
                }
            },
        }
    }
}

/// The errors of the imports of a module.
spec fn errors_of_imports(modules: ModulesV, module: SourceModule) -> Seq<CompileErrorV> {
    import_all(
        modules,
        FuncMapV { names: Seq::empty(), entries: Seq::empty() },
        module.imports@,
        module.imports@.len() as int,
        Seq::empty(),
        ScopesV { types: ScopedMapV { global: DictV::empty(), local: None }, names: no_names() },
    ).1
}

/// The errors that a module reports.
spec fn module_errors(
    c: CompilerV,
    modules: Seq<SourceModule>,
    walks: Seq<Seq<Seq<ImportItemV>>>,
) -> spec_fn(SourceModule) -> Multiset<CompileErrorV> {
    |module: SourceModule|
        (errors_of_imports(populated(c, modules).compiler.modules, module) + errors_in(
            views(module.path@),
            module.entries@,
            module.entries@.len() as int,
            first_types(populated(c, modules), start_names(c), modules, walks, module),
            collected(c, modules, walks).compiler.repo,
        )).to_multiset()
}

proof fn lemma_modules_errors(
    c: CompilerV,
    modules: Seq<SourceModule>,
    n: int,
    walks: Seq<Seq<Seq<ImportItemV>>>,
)
    requires
        c.repo.types.wf(),
        types_at_paths(c.modules),
        only_reordered(modules, modules),
        modules_ok(populated(c, modules), start_names(c), modules),
        walks.len() == modules.len(),
        all_walks_ok(populated(c, modules).compiler.modules, modules, walks),
        all_alone(modules),
        each_once(modules),
        fields_clear(c.repo, modules),
        0 <= n <= modules.len(),
        collected(c, modules, walks).compiler.repo.types.wf(),
    ensures
        ({
            let done = compile_modules(
                populated(c, modules),
                start_names(c),
                modules,
                n,
                walks,
            ).compiler;
            done.errors.to_multiset() == c.errors.to_multiset().add(
                gathered(modules.take(n), module_errors(c, modules, walks)),
            )
        }),
    decreases n,
{
    let at = populated(c, modules);
    let names = start_names(c);
    let each = module_errors(c, modules, walks);
    let done = compile_modules(at, names, modules, n, walks).compiler;
    if n == 0 {
        lemma_populated_only_names(c, modules, modules.len() as int, known_types(c.repo));
        assert(modules.take(0) =~= Seq::empty());
        assert(done.errors.to_multiset() =~= c.errors.to_multiset().add(
            gathered(modules.take(n), each),
        ));
    } else {
        lemma_modules_errors(c, modules, n - 1, walks);
        lemma_gathered_step(modules, each, n);
        lemma_populated_only_names(c, modules, modules.len() as int, known_types(c.repo));
        let k = n - 1;
        let module = modules[k];
        let path = views(module.path@);
        let count = module.entries@.len() as int;
        let so_far = compile_modules(at, names, modules, k, walks);
        let (start, scopes) = turn_start(c, modules, walks, k);
        let last = collected(c, modules, walks).compiler.repo;
        lemma_turn_errors(c, modules, walks, k, count);
        lemma_turns_same(c, modules, modules, walks, walks, k);
        let types = first_types(at, names, modules, walks, module);
        lemma_alone_in(modules, k);
        assert(same_classes(last, last));
        lemma_errors_same(path, module.entries@, count, scopes.types, types, last, last);
        lemma_modules_keep(at, names, modules, k, walks);
        let imported = errors_of_imports(at.compiler.modules, module);
        assert(start.errors == so_far.compiler.errors + imported) by {
            lemma_import_errors(
                at.compiler.modules,
                at.compiler.modules,
                so_far.compiler.repo.globals,
                FuncMapV { names: Seq::empty(), entries: Seq::empty() },
                module.imports@,
                module.imports@.len() as int,
                walks[k],
                Seq::empty(),
                ScopesV {
                    types: at.types.push_scope(at.scopes[k]),
                    names: module_names(module, so_far.names),
                },
                ScopesV {
                    types: ScopedMapV { global: DictV::empty(), local: None },
                    names: no_names(),
                },
            );
        }
        let own = imported + errors_in(path, module.entries@, count, types, last);
        assert(done.errors =~= so_far.compiler.errors + own);
        vstd::seq_lib::lemma_multiset_commutative(so_far.compiler.errors, own);
        assert(done.errors.to_multiset() =~= c.errors.to_multiset().add(
            gathered(modules.take(n), each),
        ));
    }
}

proof fn lemma_alone_in(modules: Seq<SourceModule>, k: int)
    requires
        all_alone(modules),
        0 <= k < modules.len(),
    ensures
        forall|i: int|
            0 <= i < modules[k].entries@.len() ==> stands_alone(#[trigger] modules[k].entries@[i]),
{
}

/// Two runs over the same files report the same errors of imports and declarations.
proof fn lemma_collected_errors(
    c: CompilerV,
    a: Seq<SourceModule>,
    b: Seq<SourceModule>,
    wa: Seq<Seq<Seq<ImportItemV>>>,
    wb: Seq<Seq<Seq<ImportItemV>>>,
)
    requires
        walked_twice(c, a, b, wa, wb),
        modules_ok(populated(c, a), start_names(c), a),
        modules_ok(populated(c, b), start_names(c), b),
        all_alone(a),
        all_alone(b),
        each_once(a),
        each_once(b),
        fields_clear(c.repo, a),
        fields_clear(c.repo, b),
    ensures
        collected(c, a, wa).compiler.errors.to_multiset() == collected(
            c,
            b,
            wb,
        ).compiler.errors.to_multiset(),
{
    lemma_reordered_back(a, b);
    lemma_classes_same(c, a, b, wa, wb);
    lemma_modules_errors(c, a, a.len() as int, wa);
    lemma_modules_errors(c, b, b.len() as int, wb);
    assert(a.take(a.len() as int) =~= a);
    assert(b.take(b.len() as int) =~= b);
    let one = module_errors(c, a, wa);
    let two = module_errors(c, b, wb);
    assert forall|k: int| 0 <= k < a.len() implies one(#[trigger] a[k]) == two(a[k]) by {
        let module = a[k];
        lemma_alone_in(a, k);
        lemma_turns_same(c, a, b, wa, wb, a.index_of(module));
        lemma_errors_same(
            views(module.path@),
            module.entries@,
            module.entries@.len() as int,
            first_types(populated(c, a), start_names(c), a, wa, module),
            first_types(populated(c, b), start_names(c), b, wb, module),
            collected(c, a, wa).compiler.repo,
            collected(c, b, wb).compiler.repo,
        );
        let x = populated(c, a).compiler.modules;
        let y = populated(c, b).compiler.modules;
        assert forall|at: Seq<Seq<char>>| #[trigger] x.dom().contains(at) <==> y.dom().contains(
            at,
        ) by {
            lemma_reordered(a, b);
            lemma_kinds_same(c, a, b, at);
        }
        lemma_import_errors(
            x,
            y,
            FuncMapV { names: Seq::empty(), entries: Seq::empty() },
            FuncMapV { names: Seq::empty(), entries: Seq::empty() },
            module.imports@,
            module.imports@.len() as int,
            Seq::empty(),
            Seq::empty(),
            ScopesV {
                types: ScopedMapV { global: DictV::empty(), local: None },
                names: no_names(),
            },
            ScopesV {
                types: ScopedMapV { global: DictV::empty(), local: None },
                names: no_names(),
            },
        );
    }
    lemma_gathered_alike(a, one, two);
    lemma_gathered_in_any_order(a, b, two);
}

/// What the first `n` declarations of a module make known of overriding.
spec fn entries_bases(
    repo: RepoV,
    path: Seq<Seq<char>>,
    entries: Seq<SourceEntry>,
    n: int,
    types: TypeScopeV,
    at: BasesV,
) -> BasesV
    decreases n,
{
    if n <= 0 {
        at
    } else {
        entry_bases(
            repo,
            path,
            entries[n - 1],
            types,
            entries_bases(repo, path, entries, n - 1, types, at),
        )
    }
}

proof fn lemma_entries_bases(
    c: CompilerV,
    path: Seq<Seq<char>>,
    entries: Seq<SourceEntry>,
    n: int,
    types: TypeScopeV,
    names: NameScopeV,
    repo: RepoV,
    at: BasesV,
)
    requires
        c.repo.types.wf(),
        repo.types.wf(),
        0 <= n <= entries.len(),
        forall|i: int| 0 <= i < entries.len() ==> stands_alone(#[trigger] entries[i]),
    ensures
        ({
            let items = compile_entries(c, path, entries, n, types, names).items;
            &&& items_bases(repo, items, items.len() as int, at) == entries_bases(
                repo,
                path,
                entries,
                n,
                types,
                at,
            )
            &&& forall|e: int|
                0 <= e < n ==> (entry_item(repo, path, #[trigger] entries[e], types) matches Some(
                    item,
                ) ==> items.contains(item))
        }),
    decreases n,
{
    if n > 0 {
        lemma_entries_bases(c, path, entries, n - 1, types, names, repo, at);
        lemma_entries_keep(c, path, entries, n - 1, types, names);
        let so_far = compile_entries(c, path, entries, n - 1, types, names);
        assert(stands_alone(entries[n - 1]));
        lemma_entry_bases(so_far, path, entries[n - 1], types, types, repo, at);
        let items = compile_entries(c, path, entries, n, types, names).items;
        assert forall|e: int| 0 <= e < n implies (entry_item(
            repo,
            path,
            #[trigger] entries[e],
            types,
        ) matches Some(item) ==> items.contains(item)) by {
            if let Some(item) = entry_item(repo, path, entries[e], types) {
                if e < n - 1 {
                    assert(so_far.items.contains(item));
                    let j = choose|j: int| 0 <= j < so_far.items.len() && so_far.items[j] == item;
                    assert(items[j] == item);
                } else {
                    assert(items[so_far.items.len() as int] == item);
                }
            }
        }
    }
}

/// What the first `n` modules of a run make known of overriding.
spec fn modules_bases(
    c: CompilerV,
    modules: Seq<SourceModule>,
    walks: Seq<Seq<Seq<ImportItemV>>>,
    repo: RepoV,
    n: int,
    at: BasesV,
) -> BasesV
    decreases n,
{
    if n <= 0 {
        at
    } else {
        entries_bases(
            repo,
            views(modules[n - 1].path@),
            modules[n - 1].entries@,
            modules[n - 1].entries@.len() as int,
            turn_start(c, modules, walks, n - 1).1.types,
            modules_bases(c, modules, walks, repo, n - 1, at),
        )
    }
}

proof fn lemma_queue_push(repo: RepoV, queue: Seq<ModuleV>, module: ModuleV, n: int, at: BasesV)
    requires
        0 <= n <= queue.len(),
    ensures
        queue_bases(repo, queue.push(module), n, at) == queue_bases(repo, queue, n, at),
    decreases n,
{
    if n > 0 {
        lemma_queue_push(repo, queue, module, n - 1, at);
    }
}

/// Whether the class that a declaration queues is in a queue.
spec fn is_queued(
    c: CompilerV,
    modules: Seq<SourceModule>,
    walks: Seq<Seq<Seq<ImportItemV>>>,
    repo: RepoV,
    k: int,
    e: int,
    queue: Seq<ModuleV>,
) -> bool {
    entry_item(
        repo,
        views(modules[k].path@),
        modules[k].entries@[e],
        turn_start(c, modules, walks, k).1.types,
    ) matches Some(item) ==> c.queue.len() + k < queue.len() && queue[c.queue.len()
        + k].items.contains(item)
}

proof fn lemma_modules_bases(
    c: CompilerV,
    modules: Seq<SourceModule>,
    walks: Seq<Seq<Seq<ImportItemV>>>,
    repo: RepoV,
    n: int,
    at: BasesV,
)
    requires
        c.repo.types.wf(),
        repo.types.wf(),
        all_alone(modules),
        0 <= n <= modules.len(),
    ensures
        ({
            let queue = compile_modules(
                populated(c, modules),
                start_names(c),
                modules,
                n,
                walks,
            ).compiler.queue;
            &&& queue.len() == c.queue.len() + n
            &&& forall|i: int| 0 <= i < c.queue.len() ==> #[trigger] queue[i] == c.queue[i]
            &&& forall|k: int, e: int|
                0 <= k < n && 0 <= e < modules[k].entries@.len() ==> #[trigger] is_queued(
                    c,
                    modules,
                    walks,
                    repo,
                    k,
                    e,
                    queue,
                )
            &&& queue_bases(repo, queue, queue.len() as int, at) == modules_bases(
                c,
                modules,
                walks,
                repo,
                n,
                queue_bases(repo, c.queue, c.queue.len() as int, at),
            )
        }),
    decreases n,
{
    let known = populated(c, modules);
    let names = start_names(c);
    lemma_populated_only_names(c, modules, modules.len() as int, known_types(c.repo));
    if n > 0 {
        lemma_modules_bases(c, modules, walks, repo, n - 1, at);
        let m = n - 1;
        let so_far = compile_modules(known, names, modules, m, walks);
        let done = compile_modules(known, names, modules, n, walks);
        let queue = done.compiler.queue;
        let (start, scopes) = turn_start(c, modules, walks, m);
        let path = views(modules[m].path@);
        let entries = modules[m].entries@;
        let count = entries.len() as int;
        let before = so_far.compiler.queue;
        lemma_modules_keep(known, names, modules, m, walks);
        lemma_entries_defined(start, path, entries, count, scopes.types, scopes.names, repo);
        lemma_alone_in(modules, m);
        let under = queue_bases(repo, before, before.len() as int, at);
        lemma_entries_bases(
            start,
            path,
            entries,
            count,
            scopes.types,
            scopes.names,
            repo,
            under,
        );
        assert(queue == before.push(queue.last()));
        lemma_queue_push(repo, before, queue.last(), before.len() as int, at);
        assert forall|k: int, e: int|
            0 <= k < n && 0 <= e < modules[k].entries@.len() implies #[trigger] is_queued(
            c,
            modules,
            walks,
            repo,
            k,
            e,
            queue,
        ) by {
            if k < m {
                assert(is_queued(c, modules, walks, repo, k, e, before));
            } else {
                assert(entry_item(repo, path, entries[e], scopes.types) matches Some(item)
                    ==> queue.last().items.contains(item));
            }
        }
    }
}

/// What a method of a class overrides is known from the declaration of the class alone.
proof fn lemma_entries_dict(
    repo: RepoV,
    module: SourceModule,
    n: int,
    types: TypeScopeV,
    e: int,
    id: MemberIdV,
    at: BasesV,
    start: BasesV,
)
    requires
        repo.types.wf(),
        0 <= n <= module.entries@.len(),
        only_in(module, e, id.owner),
        at.bases.wf(),
        start.bases.wf(),
        0 <= e < module.entries@.len() ==> at.bases.get(id) == start.bases.get(id) && (entry_item(
            repo,
            views(module.path@),
            module.entries@[e],
            types,
        ) matches Some(item) ==> item_ok(repo, item)),
    ensures
        ({
            let path = views(module.path@);
            let done = entries_bases(repo, path, module.entries@, n, types, at).bases;
            &&& done.wf()
            &&& done.get(id) == if 0 <= e < n {
                entry_bases(repo, path, module.entries@[e], types, start).bases.get(id)
            } else {
                at.bases.get(id)
            }
        }),
    decreases n,
{
    if n > 0 {
        let path = views(module.path@);
        lemma_entries_dict(repo, module, n - 1, types, e, id, at, start);
        let before = entries_bases(repo, path, module.entries@, n - 1, types, at);
        let entry = module.entries@[n - 1];
        lemma_item_same(repo, repo, path, entry, types, types);
        if let Some(item) = entry_item(repo, path, entry, types) {
            if e == n - 1 {
                assert(same_classes(repo, repo));
                lemma_item_bases_alike(repo, repo, item, before, start, id);
            } else {
                assert(declared_id(path, module.entries@[n - 1]) != Some(id.owner));
                lemma_item_bases_keep(repo, item, before, id);
            }
        }
    }
}

proof fn lemma_modules_dict(
    c: CompilerV,
    modules: Seq<SourceModule>,
    walks: Seq<Seq<Seq<ImportItemV>>>,
    repo: RepoV,
    n: int,
    k: int,
    e: int,
    id: MemberIdV,
    start: BasesV,
)
    requires
        repo.types.wf(),
        0 <= n <= modules.len(),
        is_place(modules, k, e, id.owner),
        start.bases.wf(),
        0 <= k < modules.len() ==> (entry_item(
            repo,
            views(modules[k].path@),
            modules[k].entries@[e],
            turn_start(c, modules, walks, k).1.types,
        ) matches Some(item) ==> item_ok(repo, item)),
    ensures
        ({
            let done = modules_bases(c, modules, walks, repo, n, start).bases;
            &&& done.wf()
            &&& done.get(id) == if 0 <= k < n {
                entry_bases(
                    repo,
                    views(modules[k].path@),
                    modules[k].entries@[e],
                    turn_start(c, modules, walks, k).1.types,
                    start,
                ).bases.get(id)
            } else {
                start.bases.get(id)
            }
        }),
    decreases n,
{
    if n > 0 {
        lemma_modules_dict(c, modules, walks, repo, n - 1, k, e, id, start);
        let m = n - 1;
        let own = if m == k {
            e
        } else {
            -1
        };
        assert(only_in(modules[m], own, id.owner));
        lemma_entries_dict(
            repo,
            modules[m],
            modules[m].entries@.len() as int,
            turn_start(c, modules, walks, m).1.types,
            own,
            id,
            modules_bases(c, modules, walks, repo, m, start),
            start,
        );
    }
}

/// What a declaration queues can be looked at.
proof fn lemma_queued_ok(
    c: CompilerV,
    modules: Seq<SourceModule>,
    walks: Seq<Seq<Seq<ImportItemV>>>,
    k: int,
    e: int,
)
    requires
        c.repo.types.wf(),
        all_alone(modules),
        collected(c, modules, walks).compiler.repo.types.wf(),
        queue_ok(
            collected(c, modules, walks).compiler.repo,
            collected(c, modules, walks).compiler.queue,
        ),
        0 <= k < modules.len(),
        0 <= e < modules[k].entries@.len(),
    ensures
        entry_item(
            collected(c, modules, walks).compiler.repo,
            views(modules[k].path@),
            modules[k].entries@[e],
            turn_start(c, modules, walks, k).1.types,
        ) matches Some(item) ==> item_ok(collected(c, modules, walks).compiler.repo, item),
{
    let done = collected(c, modules, walks).compiler;
    let repo = done.repo;
    let none = BasesV { errors: Seq::empty(), bases: DictV::empty() };
    lemma_modules_bases(c, modules, walks, repo, modules.len() as int, none);
    assert(is_queued(c, modules, walks, repo, k, e, done.queue));
    if let Some(item) = entry_item(
        repo,
        views(modules[k].path@),
        modules[k].entries@[e],
        turn_start(c, modules, walks, k).1.types,
    ) {
        let i = c.queue.len() + k;
        let items = done.queue[i].items;
        let j = choose|j: int| 0 <= j < items.len() && items[j] == item;
        assert(item_ok(repo, done.queue[i].items[j]));
    }
}

/// What is known of overriding where a run starts.
spec fn old_bases(c: CompilerV, done: CompilerV) -> BasesV {
    queue_bases(
        done.repo,
        c.queue,
        c.queue.len() as int,
        BasesV { errors: done.errors, bases: DictV::empty() },
    )
}

/// Methods override the same methods in two runs over the same files.
proof fn lemma_bases_same(
    c: CompilerV,
    a: Seq<SourceModule>,
    b: Seq<SourceModule>,
    wa: Seq<Seq<Seq<ImportItemV>>>,
    wb: Seq<Seq<Seq<ImportItemV>>>,
)
    requires
        walked_twice(c, a, b, wa, wb),
        all_alone(a),
        all_alone(b),
        each_once(a),
        each_once(b),
        queue_ok(collected(c, a, wa).compiler.repo, collected(c, a, wa).compiler.queue),
        queue_ok(collected(c, b, wb).compiler.repo, collected(c, b, wb).compiler.queue),
    ensures
        same_entries(
            bases_of(collected(c, a, wa).compiler).bases,
            bases_of(collected(c, b, wb).compiler).bases,
        ),
{
    let x = collected(c, a, wa).compiler;
    let y = collected(c, b, wb).compiler;
    lemma_classes_same(c, a, b, wa, wb);
    let s = BasesV { errors: x.errors, bases: DictV::empty() };
    let t = BasesV { errors: y.errors, bases: DictV::empty() };
    lemma_modules_bases(c, a, wa, x.repo, a.len() as int, s);
    lemma_modules_bases(c, b, wb, y.repo, b.len() as int, t);
    assert(queue_ok(x.repo, c.queue)) by {
        assert forall|i: int, j: int|
            #![trigger c.queue[i].items[j]]
            0 <= i < c.queue.len() && 0 <= j < c.queue[i].items.len() implies item_ok(
            x.repo,
            c.queue[i].items[j],
        ) by {
            assert(x.queue[i] == c.queue[i]);
            assert(item_ok(x.repo, x.queue[i].items[j]));
        }
    }
    let one = old_bases(c, x);
    let two = old_bases(c, y);
    assert forall|id: MemberIdV| #[trigger]
        bases_of(x).bases.get(id) == bases_of(y).bases.get(id) by {
        let (k, e) = lemma_place(a, id.owner);
        let (l, f) = lemma_place(b, id.owner);
        lemma_place_moves(a, b, k, e, l, f, id.owner);
        lemma_queue_bases_alike(x.repo, y.repo, c.queue, c.queue.len() as int, s, t, id);
        if 0 <= k < a.len() {
            lemma_queued_ok(c, a, wa, k, e);
            lemma_queued_ok(c, b, wb, l, f);
        }
        lemma_modules_dict(c, a, wa, x.repo, a.len() as int, k, e, id, one);
        lemma_modules_dict(c, b, wb, y.repo, b.len() as int, l, f, id, two);
        if 0 <= k < a.len() {
            lemma_reordered(a, b);
            assert(imports_clear(a, a[k]));
            law_names_in_any_order(c, a, b, wa, wb, k, l);
            let path = views(a[k].path@);
            let entry = a[k].entries@[e];
            let types = turn_start(c, a, wa, k).1.types;
            lemma_item_same(
                x.repo,
                y.repo,
                path,
                entry,
                types,
                turn_start(c, b, wb, l).1.types,
            );
            if let Some(item) = entry_item(x.repo, path, entry, types) {
                lemma_item_bases_alike(x.repo, y.repo, item, one, two, id);
            }
        }
    }
}

proof fn lemma_entries_base_errors(
    x: RepoV,
    y: RepoV,
    path: Seq<Seq<char>>,
    entries: Seq<SourceEntry>,
    n: int,
    a: TypeScopeV,
    b: TypeScopeV,
    s: BasesV,
    t: BasesV,
    more: Seq<CompileErrorV>,
)
    requires
        same_classes(x, y),
        same_types(a, b),
        x.types.wf(),
        y.types.wf(),
        s.errors == more + t.errors,
    ensures
        entries_bases(x, path, entries, n, a, s).errors == more + entries_bases(
            y,
            path,
            entries,
            n,
            b,
            t,
        ).errors,
    decreases n,
{
    if n > 0 {
        lemma_entries_base_errors(x, y, path, entries, n - 1, a, b, s, t, more);
        lemma_item_same(x, y, path, entries[n - 1], a, b);
        if let Some(item) = entry_item(x, path, entries[n - 1], a) {
            lemma_item_errors_alike(
                x,
                y,
                item,
                entries_bases(x, path, entries, n - 1, a, s),
                entries_bases(y, path, entries, n - 1, b, t),
                more,
            );
        }
    }
}

/// The errors of what the classes of a module extend.
spec fn base_errors(
    c: CompilerV,
    modules: Seq<SourceModule>,
    walks: Seq<Seq<Seq<ImportItemV>>>,
    repo: RepoV,
) -> spec_fn(SourceModule) -> Multiset<CompileErrorV> {
    |module: SourceModule|
        entries_bases(
            repo,
            views(module.path@),
            module.entries@,
            module.entries@.len() as int,
            first_types(populated(c, modules), start_names(c), modules, walks, module),
            BasesV { errors: Seq::empty(), bases: DictV::empty() },
        ).errors.to_multiset()
}

proof fn lemma_modules_base_errors(
    c: CompilerV,
    modules: Seq<SourceModule>,
    walks: Seq<Seq<Seq<ImportItemV>>>,
    repo: RepoV,
    n: int,
    start: BasesV,
)
    requires
        c.repo.types.wf(),
        types_at_paths(c.modules),
        only_reordered(modules, modules),
        walks.len() == modules.len(),
        all_walks_ok(populated(c, modules).compiler.modules, modules, walks),
        repo.types.wf(),
        0 <= n <= modules.len(),
    ensures
        modules_bases(c, modules, walks, repo, n, start).errors.to_multiset()
            == start.errors.to_multiset().add(
            gathered(modules.take(n), base_errors(c, modules, walks, repo)),
        ),
    decreases n,
{
    let each = base_errors(c, modules, walks, repo);
    let done = modules_bases(c, modules, walks, repo, n, start).errors;
    if n == 0 {
        assert(modules.take(0) =~= Seq::empty());
        assert(done.to_multiset() =~= start.errors.to_multiset().add(
            gathered(modules.take(n), each),
        ));
    } else {
        lemma_modules_base_errors(c, modules, walks, repo, n - 1, start);
        lemma_gathered_step(modules, each, n);
        let k = n - 1;
        let module = modules[k];
        let path = views(module.path@);
        let count = module.entries@.len() as int;
        lemma_turns_same(c, modules, modules, walks, walks, k);
        let none = BasesV { errors: Seq::empty(), bases: DictV::empty() };
        let before = modules_bases(c, modules, walks, repo, k, start);
        let types = first_types(populated(c, modules), start_names(c), modules, walks, module);
        assert(same_classes(repo, repo));
        assert(before.errors =~= before.errors + none.errors);
        lemma_entries_base_errors(
            repo,
            repo,
            path,
            module.entries@,
            count,
            turn_start(c, modules, walks, k).1.types,
            types,
            before,
            none,
            before.errors,
        );
        let own = entries_bases(repo, path, module.entries@, count, types, none).errors;
        vstd::seq_lib::lemma_multiset_commutative(before.errors, own);
        assert(done.to_multiset() =~= start.errors.to_multiset().add(
            gathered(modules.take(n), each),
        ));
    }
}

/// Two runs over the same files report the same errors of what classes extend.
proof fn lemma_base_errors_same(
    c: CompilerV,
    a: Seq<SourceModule>,
    b: Seq<SourceModule>,
    wa: Seq<Seq<Seq<ImportItemV>>>,
    wb: Seq<Seq<Seq<ImportItemV>>>,
)
    requires
        walked_twice(c, a, b, wa, wb),
        all_alone(a),
        all_alone(b),
        each_once(a),
        each_once(b),
        collected(c, a, wa).compiler.errors.to_multiset() == collected(
            c,
            b,
            wb,
        ).compiler.errors.to_multiset(),
    ensures
        bases_of(collected(c, a, wa).compiler).errors.to_multiset() == bases_of(
            collected(c, b, wb).compiler,
        ).errors.to_multiset(),
{
    let x = collected(c, a, wa).compiler;
    let y = collected(c, b, wb).compiler;
    lemma_reordered_back(a, b);
    lemma_classes_same(c, a, b, wa, wb);
    let none = BasesV { errors: Seq::empty(), bases: DictV::empty() };
    let s = BasesV { errors: x.errors, bases: DictV::empty() };
    let t = BasesV { errors: y.errors, bases: DictV::empty() };
    let n = c.queue.len() as int;
    lemma_modules_bases(c, a, wa, x.repo, a.len() as int, s);
    lemma_modules_bases(c, b, wb, y.repo, b.len() as int, t);
    lemma_modules_base_errors(c, a, wa, x.repo, a.len() as int, old_bases(c, x));
    lemma_modules_base_errors(c, b, wb, y.repo, b.len() as int, old_bases(c, y));
    assert(a.take(a.len() as int) =~= a);
    assert(b.take(b.len() as int) =~= b);
    // what was queued before adds the same errors
    let old = queue_bases(y.repo, c.queue, n, none).errors;
    assert(x.errors =~= x.errors + none.errors);
    assert(y.errors =~= y.errors + none.errors);
    assert(same_classes(y.repo, y.repo));
    lemma_queue_errors_alike(x.repo, y.repo, c.queue, n, s, none, x.errors);
    lemma_queue_errors_alike(y.repo, y.repo, c.queue, n, t, none, y.errors);
    vstd::seq_lib::lemma_multiset_commutative(x.errors, old);
    vstd::seq_lib::lemma_multiset_commutative(y.errors, old);
    let one = base_errors(c, a, wa, x.repo);
    let two = base_errors(c, b, wb, y.repo);
    assert forall|k: int| 0 <= k < a.len() implies one(#[trigger] a[k]) == two(a[k]) by {
        let module = a[k];
        lemma_turns_same(c, a, b, wa, wb, a.index_of(module));
        let types = first_types(populated(c, b), start_names(c), b, wb, module);
        let path = views(module.path@);
        let count = module.entries@.len() as int;
        assert(none.errors =~= none.errors + none.errors);
        lemma_entries_base_errors(
            x.repo,
            y.repo,
            path,
            module.entries@,
            count,
            first_types(populated(c, a), start_names(c), a, wa, module),
            types,
            none,
            none,
            none.errors,
        );
        let own = entries_bases(y.repo, path, module.entries@, count, types, none).errors;
        assert(none.errors + own =~= own);
    }
    lemma_gathered_alike(a, one, two);
    lemma_gathered_in_any_order(a, b, two);
}

/// What is asked of files in one order holds of them in another.
proof fn lemma_files_back(a: Seq<SourceModule>, b: Seq<SourceModule>)
    requires
        a.to_multiset() == b.to_multiset(),
        all_alone(a),
        each_once(a),
    ensures
        all_alone(b),
        each_once(b),
{
    assert forall|l: int, f: int|
        0 <= l < b.len() && 0 <= f < b[l].entries@.len() implies stands_alone(
        #[trigger] b[l].entries@[f],
    ) by {
        let k = lemma_moved(a, b, l);
        assert(stands_alone(a[k].entries@[f]));
    }
    assert forall|l: int, f: int, m: int, g: int, id: Seq<char>|
        #[trigger] declares_at(b, l, f, id) && #[trigger] declares_at(b, m, g, id) implies l == m
        && f == g by {
        let k = lemma_moved(a, b, l);
        assert(declares_at(a, k, f, id));
        if l == m {
            assert(declares_at(a, k, g, id));
        } else {
            let i = lemma_moved_apart(a, b, l, m, k);
            assert(declares_at(a, i, g, id));
        }
    }
}

proof fn lemma_fields_back(repo: RepoV, a: Seq<SourceModule>, b: Seq<SourceModule>)
    requires
        a.to_multiset() == b.to_multiset(),
        fields_clear(repo, a),
    ensures
        fields_clear(repo, b),
{
    assert forall|l: int, f: int, m: int, g: int, id: Seq<char>|
        #[trigger] adds_field_at(b, l, f) && #[trigger] declares_at(b, m, g, id) implies !repo.has(
        id,
    ) by {
        let k = lemma_moved(a, b, l);
        let i = lemma_moved(a, b, m);
        assert(adds_field_at(a, k, f));
        assert(declares_at(a, i, g, id));
    }
}

proof fn lemma_moved(a: Seq<SourceModule>, b: Seq<SourceModule>, l: int) -> (k: int)
    requires
        a.to_multiset() == b.to_multiset(),
        0 <= l < b.len(),
    ensures
        0 <= k < a.len(),
        a[k] == b[l],
{
    assert(b.contains(b[l]));
    lemma_same_items(a, b, b[l]);
    choose|k: int| 0 <= k < a.len() && a[k] == b[l]
}

/// Files at two places come from two places.
proof fn lemma_moved_apart(
    a: Seq<SourceModule>,
    b: Seq<SourceModule>,
    l: int,
    m: int,
    k: int,
) -> (i: int)
    requires
        a.to_multiset() == b.to_multiset(),
        0 <= l < b.len(),
        0 <= m < b.len(),
        l != m,
        0 <= k < a.len(),
        a[k] == b[l],
    ensures
        0 <= i < a.len(),
        i != k,
        a[i] == b[m],
{
    let x = a.remove(k);
    let y = b.remove(l);
    assert(x.to_multiset() =~= y.to_multiset()) by {
        broadcast use vstd::seq_lib::group_to_multiset_ensures;

    }
    let at = if m < l {
        m
    } else {
        m - 1
    };
    assert(y[at] == b[m]);
    let j = lemma_moved(x, y, at);
    if j < k {
        j
    } else {
        j + 1
    }
}

/// The same errors are reported in whatever order the files come, where each type is declared once
/// and no function has an annotation: neither of two runs over the same files reports an error that
/// the other does not, and where one reports nothing the other does neither. This holds of imports
/// that lead nowhere, of types that cannot be resolved, of what is not supported, of classes that
/// extend a final one, and of methods that are left without a body.
pub proof fn law_errors_in_any_order(
    c: CompilerV,
    a: Seq<SourceModule>,
    b: Seq<SourceModule>,
    one: OutputsV,
    two: OutputsV,
)
    requires
        c.repo.types.wf(),
        types_at_paths(c.modules),
        only_reordered(a, b),
        each_once(a),
        all_alone(a),
        fields_clear(c.repo, a),
        run_ok(c, a),
        run_ok(c, b),
        is_run(c, a, one),
        is_run(c, b, two),
    ensures
        one.errors.to_multiset() == two.errors.to_multiset(),
        one.errors.len() == two.errors.len(),
{
    let (wa, va) = lemma_ran(c, a, one);
    let (wb, vb) = lemma_ran(c, b, two);
    lemma_files_back(a, b);
    lemma_fields_back(c.repo, a, b);
    let x = collected(c, a, wa).compiler;
    let y = collected(c, b, wb).compiler;
    assert(is_collected(populated(c, a), start_names(c), a, collected(c, a, wa)));
    assert(is_collected(populated(c, b), start_names(c), b, collected(c, b, wb)));
    assert(inherit_ok(x) && inherit_ok(y));
    lemma_classes_same(c, a, b, wa, wb);
    lemma_collected_listed(c, a, b, wa, wb);
    lemma_collected_errors(c, a, b, wa, wb);
    lemma_bases_same(c, a, b, wa, wb);
    lemma_base_errors_same(c, a, b, wa, wb);
    let n = x.defined.len() as int;
    let m = y.defined.len() as int;
    let ta = sort_by_depth(x.repo, x.defined, n);
    let tb = sort_by_depth(y.repo, y.defined, m);
    law_sort_by_depth(x.repo, x.defined, n);
    law_sort_by_depth(y.repo, y.defined, m);
    assert(x.defined.take(n) =~= x.defined);
    assert(y.defined.take(m) =~= y.defined);
    lemma_sort_len(x.repo, x.defined, n);
    lemma_sort_len(y.repo, y.defined, m);
    assert forall|i: int| 0 <= i < ta.len() implies has_depth(x.repo, #[trigger] ta[i]) by {
        assert(ta.contains(ta[i]));
        lemma_same_items(ta, x.defined, ta[i]);
        let j = choose|j: int| 0 <= j < x.defined.len() && x.defined[j] == ta[i];
        assert(has_depth(x.repo, x.defined[j]));
    }
    lemma_errors_in_any_order(
        x.repo,
        y.repo,
        bases_of(x).bases,
        bases_of(y).bases,
        ta,
        tb,
        va,
        vb,
    );
    vstd::seq_lib::lemma_multiset_commutative(
        bases_of(x).errors,
        all_errors(x.repo, ta, ta.len() as int, va),
    );
    vstd::seq_lib::lemma_multiset_commutative(
        bases_of(y).errors,
        all_errors(y.repo, tb, tb.len() as int, vb),
    );
    vstd::seq_lib::to_multiset_len(one.errors);
    vstd::seq_lib::to_multiset_len(two.errors);
}

/// The same classes are made in whatever order the files come, where each type is declared once and
/// no function has an annotation: each has the same type variables, base, flags and functions, in
/// the same order, and each of its methods overrides the same one. Fields that are added to a class
/// come in the order of the files.
pub proof fn law_classes_in_any_order(
    c: CompilerV,
    a: Seq<SourceModule>,
    b: Seq<SourceModule>,
    one: OutputsV,
    two: OutputsV,
)
    requires
        c.repo.types.wf(),
        types_at_paths(c.modules),
        only_reordered(a, b),
        each_once(a),
        all_alone(a),
        run_ok(c, a),
        run_ok(c, b),
        is_run(c, a, one),
        is_run(c, b, two),
    ensures
        same_classes(one.repo, two.repo),
{
    let (wa, va) = lemma_ran(c, a, one);
    let (wb, vb) = lemma_ran(c, b, two);
    lemma_files_back(a, b);
    let x = collected(c, a, wa).compiler;
    let y = collected(c, b, wb).compiler;
    assert(is_collected(populated(c, a), start_names(c), a, collected(c, a, wa)));
    assert(is_collected(populated(c, b), start_names(c), b, collected(c, b, wb)));
    assert(inherit_ok(x) && inherit_ok(y));
    lemma_classes_same(c, a, b, wa, wb);
    lemma_bases_same(c, a, b, wa, wb);
    lemma_bases_of(x);
    lemma_bases_of(y);
    lemma_promoted_alike(x.repo, y.repo, bases_of(x).bases, bases_of(y).bases);
}

} // verus!
