//! Whether a compilation can be written to the constant pool.
use vstd::prelude::*;

use crate::assemble::{
    adds, define_items, find_member, has_member, is_added, item_defines, items_define,
    lemma_added_step, member_defines, DefineV,
};
use crate::commit::{
    build, class_types_ok, entry_builds, erased, fun_ok, func_types_ok, lemma_note_members, linked,
    method_known, method_named, params_named, types_build, types_built, types_reserved, BuildV,
};
use crate::db::{CompilationDb, DbV};
use crate::dict::{ints, views};
use crate::funcs::{FuncEntry, FuncType};
use crate::outputs::{
    after_items, assembly_ok, before_items, callback_ok, commit_ok, committed, defined_by,
    item_fits, item_known, wrappable, CommittedV, Plan,
};
use crate::pool::{AnyDefinition, ConstantPool, Instr, InstrV, PoolIndex};
use crate::queue::{CodeGenItem, CodeGenItemV, CompilationOutputs, OutputsV};
use crate::repo::{ref_id, ClassType, DataType, RepoV, TypeRepo};
use crate::tables::{MemberId, MemberIdV};
use crate::text::is;
use crate::type_cache::{type_ok, TypeCache};
use crate::types::{lemma_data_view, Type, TypeId};

verus! {

/// Whether the pool can describe a type.
pub fn is_type_ok(typ: &Type, repo: &TypeRepo) -> (res: bool)
    ensures
        res == type_ok(typ@, repo@),
    decreases typ,
{
    broadcast use lemma_data_view;

    match typ {
        Type::Data(data) => {
            let is_ref = is(&data.id, "ref") || is(&data.id, "wref");
            let is_builtin = match repo.get_type(&data.id) {
                Some(DataType::Builtin(_)) => true,
                Some(_) => false,
                None => {
                    return false;
                },
            };
            let count: usize = data.args.len();
            if is_ref && count == 0 {
                return false;
            }
            if is_builtin && count == 1 && !(is_ref || is(&data.id, "array") || is(
                &data.id,
                "script_ref",
            )) {
                return false;
            }
            if (is_ref || is_builtin) && count > 0 {
                assert(data@.args[0] == data.args@[0]@);
                is_type_ok(&data.args[0], repo)
            } else {
                true
            }
        },
        _ => true,
    }
}

/// Whether the types of a function can be described.
fn is_func_type_ok(typ: &FuncType, repo: &TypeRepo) -> (res: bool)
    ensures
        res == func_types_ok(repo@, typ@),
{
    if !typ.is_ret_poly && !is_type_ok(&typ.ret, repo) {
        return false;
    }
    let ghost params = typ@.params;
    let mut i: usize = 0;
    while i < typ.params.len()
        invariant
            i <= typ.params.len(),
            params == typ@.params,
            forall|k: int|
                #![trigger params[k]]
                0 <= k < i ==> type_ok(erased(params[k].typ, params[k].is_poly), repo@),
        decreases typ.params.len() - i,
    {
        let param = &typ.params[i];
        assert(params[i as int] == param@);
        if !param.is_poly && !is_type_ok(&param.typ, repo) {
            assert(!type_ok(
                erased(typ@.params[i as int].typ, typ@.params[i as int].is_poly),
                repo@,
            ));
            return false;
        }
        i += 1;
    }
    true
}

/// Whether the types of all members of a class can be described.
fn is_class_type_ok(class: &ClassType, repo: &TypeRepo) -> (res: bool)
    ensures
        res == class_types_ok(repo@, class@),
{
    let ghost def = class@;
    let fields: usize = class.fields.len();
    let mut i: usize = 0;
    while i < fields
        invariant
            i <= fields,
            def == class@,
            fields == def.fields.keys.len(),
            forall|k: int|
                #![trigger def.fields.vals[k]]
                0 <= k < i ==> type_ok(def.fields.vals[k].typ, repo@),
        decreases fields - i,
    {
        if !is_type_ok(&class.fields.val_at(i).typ, repo) {
            assert(!type_ok(class@.fields.vals[i as int].typ, repo@));
            return false;
        }
        i += 1;
    }
    let statics: usize = class.statics.len();
    let mut i: usize = 0;
    while i < statics
        invariant
            i <= statics,
            def == class@,
            statics == def.statics.entries.len(),
            forall|k: int|
                #![trigger def.statics.entries[k]]
                0 <= k < i ==> func_types_ok(repo@, def.statics.entries[k].typ),
        decreases statics - i,
    {
        if !is_func_type_ok(&class.statics.entry(i).typ, repo) {
            assert(!func_types_ok(repo@, class@.statics.entries[i as int].typ));
            return false;
        }
        i += 1;
    }
    let methods: usize = class.methods.len();
    let mut i: usize = 0;
    while i < methods
        invariant
            i <= methods,
            def == class@,
            methods == def.methods.entries.len(),
            forall|k: int|
                #![trigger def.methods.entries[k]]
                0 <= k < i ==> func_types_ok(repo@, def.methods.entries[k].typ),
        decreases methods - i,
    {
        if !is_func_type_ok(&class.methods.entry(i).typ, repo) {
            assert(!func_types_ok(repo@, class@.methods.entries[i as int].typ));
            return false;
        }
        i += 1;
    }
    true
}

/// Whether a type is one of the first `n` in a list.
fn is_among(types: &Vec<TypeId>, n: usize, id: &TypeId) -> (res: bool)
    requires
        n <= types@.len(),
    ensures
        res == views(types@).take(n as int).contains(id@),
{
    let ghost first = views(types@).take(n as int);
    let mut i: usize = 0;
    while i < n
        invariant
            i <= n <= types@.len(),
            first == views(types@).take(n as int),
            forall|k: int| 0 <= k < i ==> #[trigger] first[k] != id@,
        decreases n - i,
    {
        assert(first[i as int] == types@[i as int]@);
        if types[i] == *id {
            return true;
        }
        i += 1;
    }
    false
}

/// Whether there is such a method, or static function.
fn is_member(repo: &TypeRepo, id: &MemberId, is_static: bool) -> (res: bool)
    ensures
        res == has_member(repo@, id@, is_static),
{
    match repo.get_class(&id.owner) {
        Some(class) => if is_static {
            id.slot < class.statics.len()
        } else {
            id.slot < class.methods.len()
        },
        None => false,
    }
}

/// Whether it will be known where a method is defined once the first `n` types are.
fn is_method_known(
    repo: &TypeRepo,
    types: &Vec<TypeId>,
    n: usize,
    db: &CompilationDb,
    id: &MemberId,
) -> (res: bool)
    requires
        n <= types@.len(),
    ensures
        res == method_known(repo@, views(types@), n as int, db@, id@),
{
    db.method_index(id).is_some() || (is_member(repo, id, false) && is_among(types, n, &id.owner))
}

/// Whether a list holds an index.
fn holds(list: &Vec<PoolIndex>, idx: PoolIndex) -> (res: bool)
    ensures
        res == ints(list@).contains(idx as int),
{
    let mut i: usize = 0;
    while i < list.len()
        invariant
            i <= list.len(),
            forall|k: int| 0 <= k < i ==> #[trigger] ints(list@)[k] != idx,
        decreases list.len() - i,
    {
        assert(ints(list@)[i as int] == list@[i as int]);
        if list[i] == idx {
            return true;
        }
        i += 1;
    }
    false
}

/// Whether the pool has a function at an index, with parameters that have names.
fn has_named_params(pool: &ConstantPool, idx: PoolIndex) -> (res: bool)
    ensures
        res == params_named(pool@, idx as int),
{
    if !pool.is_function(idx) {
        return false;
    }
    let fun = pool.function(idx);
    let ghost def = fun@;
    let mut i: usize = 0;
    while i < fun.parameters.len()
        invariant
            i <= fun.parameters.len(),
            def == fun@,
            def == pool@.value(idx as int)->Function_0,
            forall|k: int|
                #![trigger def.parameters[k]]
                0 <= k < i ==> pool@.is_named(def.parameters[k]) && pool@.value(
                    def.parameters[k],
                ) is Parameter,
        decreases fun.parameters.len() - i,
    {
        assert(def.parameters[i as int] == fun.parameters@[i as int]);
        let param = fun.parameters[i];
        let is_there = pool.is_named(param) && match &pool.definition(param).value {
            AnyDefinition::Parameter(_) => true,
            _ => false,
        };
        if !is_there {
            return false;
        }
        i += 1;
    }
    true
}

/// Whether the pool has a function at an index, with a name, parameters that have names, and locals
/// that its code stays within.
fn is_whole(pool: &ConstantPool, idx: PoolIndex) -> (res: bool)
    ensures
        res == fun_ok(pool@, idx as int),
{
    if !pool.is_named(idx) || !has_named_params(pool, idx) {
        return false;
    }
    let fun = pool.function(idx);
    let ghost def = fun@;
    let mut i: usize = 0;
    while i < fun.locals.len()
        invariant
            i <= fun.locals.len(),
            def == fun@,
            def == pool@.value(idx as int)->Function_0,
            forall|k: int|
                #![trigger def.locals[k]]
                0 <= k < i ==> pool@.is_named(def.locals[k]) && pool@.value(
                    def.locals[k],
                ) is Local,
        decreases fun.locals.len() - i,
    {
        assert(def.locals[i as int] == fun.locals@[i as int]);
        let local = fun.locals[i];
        let is_there = pool.is_named(local) && match &pool.definition(local).value {
            AnyDefinition::Local(_) => true,
            _ => false,
        };
        if !is_there {
            return false;
        }
        i += 1;
    }
    let mut i: usize = 0;
    while i < fun.code.len()
        invariant
            i <= fun.code.len(),
            def == fun@,
            def == pool@.value(idx as int)->Function_0,
            forall|k: int|
                #![trigger def.code[k]]
                0 <= k < i ==> (def.code[k] matches InstrV::Local(local) ==> def.locals.contains(
                    local,
                )),
        decreases fun.code.len() - i,
    {
        assert(def.code[i as int] == fun.code@[i as int]@);
        if let Instr::Local(local) = fun.code[i] {
            if !holds(&fun.locals, local) {
                return false;
            }
        }
        i += 1;
    }
    true
}

/// Whether the parameters of a method will have names once the first `n` types are defined.
fn is_method_named(
    repo: &TypeRepo,
    types: &Vec<TypeId>,
    n: usize,
    db: &CompilationDb,
    pool: &ConstantPool,
    id: &MemberId,
    Ghost(s): Ghost<BuildV>,
) -> (res: bool)
    requires
        n <= types@.len(),
        s.db == db@,
        s.image.pool == pool@,
    ensures
        res == method_named(repo@, views(types@), n as int, s, id@),
{
    if is_member(repo, id, false) && is_among(types, n, &id.owner) {
        return true;
    }
    match db.method_index(id) {
        Some(idx) => has_named_params(pool, idx),
        None => false,
    }
}

/// Whether what each method of a class overrides will be there once the first `n` types are
/// defined, and will have names that a callback can take over.
fn do_entries_build(
    repo: &TypeRepo,
    types: &Vec<TypeId>,
    n: usize,
    db: &CompilationDb,
    pool: &ConstantPool,
    class: &ClassType,
    Ghost(s): Ghost<BuildV>,
) -> (res: bool)
    requires
        n <= types@.len(),
        s.db == db@,
        s.image.pool == pool@,
    ensures
        res <==> forall|slot: int|
            #![trigger class@.methods.entries[slot]]
            0 <= slot < class@.methods.entries.len() ==> entry_builds(
                repo@,
                views(types@),
                n as int,
                s,
                class@.methods.entries[slot],
            ),
{
    let ghost def = class@;
    let count: usize = class.methods.len();
    let mut i: usize = 0;
    while i < count
        invariant
            i <= count,
            n <= types@.len(),
            s.db == db@,
            s.image.pool == pool@,
            def == class@,
            count == def.methods.entries.len(),
            forall|slot: int|
                #![trigger def.methods.entries[slot]]
                0 <= slot < i ==> entry_builds(
                    repo@,
                    views(types@),
                    n as int,
                    s,
                    def.methods.entries[slot],
                ),
        decreases count - i,
    {
        let entry = class.methods.entry(i);
        assert(def.methods.entries[i as int] == entry@);
        if let Some(base) = &entry.base {
            assert(entry@.base == Some(base@));
            let builds = is_method_known(repo, types, n, db, base) && (!entry.flags.is_callback
                || is_method_named(repo, types, n, db, pool, base, Ghost(s)));
            if !builds {
                assert(!entry_builds(
                    repo@,
                    views(types@),
                    n as int,
                    s,
                    class@.methods.entries[i as int],
                ));
                return false;
            }
        }
        i += 1;
    }
    true
}

/// Whether types can be defined one after the other.
fn do_types_build(
    types: &Vec<TypeId>,
    repo: &TypeRepo,
    db: &CompilationDb,
    pool: &ConstantPool,
    Ghost(s): Ghost<BuildV>,
) -> (res: bool)
    requires
        s.db == db@,
        s.image.pool == pool@,
    ensures
        res == types_build(repo@, views(types@), s),
{
    let ghost all = views(types@);
    let mut i: usize = 0;
    while i < types.len()
        invariant
            i <= types.len(),
            all == views(types@),
            s.db == db@,
            s.image.pool == pool@,
            forall|k: int| 0 <= k < i ==> repo@.has(#[trigger] all[k]),
            forall|k: int|
                0 <= k < i && repo@.is_class(#[trigger] all[k]) ==> class_types_ok(
                    repo@,
                    repo@.class(all[k]),
                ),
            forall|k: int, slot: int|
                #![trigger repo@.class(all[k]).methods.entries[slot]]
                0 <= k < i && repo@.is_class(all[k]) && 0 <= slot < repo@.class(
                    all[k],
                ).methods.entries.len() ==> entry_builds(
                    repo@,
                    all,
                    k,
                    s,
                    repo@.class(all[k]).methods.entries[slot],
                ),
        decreases types.len() - i,
    {
        assert(all[i as int] == types@[i as int]@);
        match repo.get_type(&types[i]) {
            Some(DataType::Class(class)) => {
                assert(repo@.is_class(all[i as int]) && class@ == repo@.class(all[i as int]));
                if !is_class_type_ok(class, repo) {
                    return false;
                }
                if !do_entries_build(repo, types, i, db, pool, class, Ghost(s)) {
                    assert(!types_build(repo@, all, s)) by {
                        let slot = choose|slot: int|
                            #![trigger class@.methods.entries[slot]]
                            0 <= slot < class@.methods.entries.len() && !entry_builds(
                                repo@,
                                all,
                                i as int,
                                s,
                                class@.methods.entries[slot],
                            );
                        let entry = repo@.class(all[i as int]).methods.entries[slot];
                    }
                    return false;
                }
                assert forall|slot: int| 0 <= slot < repo@.class(
                    all[i as int],
                ).methods.entries.len() implies entry_builds(
                    repo@,
                    all,
                    i as int,
                    s,
                    #[trigger] repo@.class(all[i as int]).methods.entries[slot],
                ) by {
                    let entry = class@.methods.entries[slot];
                }
            },
            Some(_) => {},
            None => {
                return false;
            },
        }
        i += 1;
    }
    true
}

/// The classes that places are reserved for are known, and so are those that were.
proof fn lemma_reserved_classes(
    repo: RepoV,
    types: Seq<Seq<char>>,
    n: int,
    s: BuildV,
    id: Seq<char>,
)
    requires
        0 <= n <= types.len(),
        forall|i: int| 0 <= i < types.len() ==> repo.has(#[trigger] types[i]),
    ensures
        ({
            let done = types_reserved(repo, types, n, s);
            &&& done.db.classes.dom().contains(id) <==> s.db.classes.dom().contains(id) || (
            repo.is_class(id) && types.take(n).contains(id))
            &&& done.db.methods == s.db.methods
            &&& done.db.statics == s.db.statics
        }),
    decreases n,
{
    let first = types.take(n);
    if n > 0 {
        lemma_reserved_classes(repo, types, n - 1, s, id);
        let before = types.take(n - 1);
        assert(first =~= before.push(types[n - 1]));
        assert(repo.has(types[n - 1]));
        assert(first.contains(id) <==> before.contains(id) || id == types[n - 1]) by {
            if before.contains(id) {
                let i = choose|i: int| 0 <= i < before.len() && before[i] == id;
                assert(first[i] == id);
            }
            if id == types[n - 1] {
                assert(first[n - 1] == id);
            }
        }
    }
}

/// The functions of the types that are defined are known, and so are those that were.
proof fn lemma_built_members(
    repo: RepoV,
    types: Seq<Seq<char>>,
    n: int,
    s: BuildV,
    id: MemberIdV,
)
    requires
        0 <= n <= types.len(),
        forall|i: int| 0 <= i < types.len() ==> repo.has(#[trigger] types[i]),
    ensures
        ({
            let done = types_built(repo, types, n, s);
            let is_in = types.take(n).contains(id.owner);
            &&& done.db.methods.dom().contains(id) <==> s.db.methods.dom().contains(id) || (
            repo.has_method(id) && is_in)
            &&& done.db.statics.dom().contains(id) <==> s.db.statics.dom().contains(id) || (
            repo.has_static(id) && is_in)
            &&& done.db.classes == s.db.classes
        }),
    decreases n,
{
    let first = types.take(n);
    if n > 0 {
        lemma_built_members(repo, types, n - 1, s, id);
        let before = types.take(n - 1);
        let owner = types[n - 1];
        assert(first =~= before.push(owner));
        assert(repo.has(owner));
        assert(first.contains(id.owner) <==> before.contains(id.owner) || id.owner == owner) by {
            if before.contains(id.owner) {
                let i = choose|i: int| 0 <= i < before.len() && before[i] == id.owner;
                assert(first[i] == id.owner);
            }
            if id.owner == owner {
                assert(first[n - 1] == id.owner);
            }
        }
        let at = types_built(repo, types, n - 1, s);
        let done = types_built(repo, types, n, s);
        if repo.is_class(owner) {
            let class = repo.class(owner);
            let def = done.image.pool.value(at.db.classes[owner])->Class_0;
            let statics = class.statics.entries.len() as int;
            let methods = class.methods.entries.len() as int;
            lemma_note_members(at.db.methods, owner, def.methods, statics, methods, id);
            lemma_note_members(at.db.statics, owner, def.methods, 0, statics, id);
        }
    }
}

/// The methods that are added are known, and so are those that were.
proof fn lemma_added_methods(
    repo: RepoV,
    items: Seq<CodeGenItemV>,
    n: int,
    s: DefineV,
    id: MemberIdV,
)
    requires
        0 <= n <= items.len(),
    ensures
        ({
            let done = define_items(repo, items, n, s).build.db;
            &&& done.methods.dom().contains(id) <==> s.build.db.methods.dom().contains(id)
                || is_added(items, n, id)
            &&& done.statics == s.build.db.statics
            &&& done.classes == s.build.db.classes
        }),
    decreases n,
{
    if n > 0 {
        lemma_added_methods(repo, items, n - 1, s, id);
        lemma_added_step(items, n, id);
    }
}

/// Whether it is known where a method is once all types and the first `n` functions in the queue
/// have their places.
spec fn known_by(out: OutputsV, n: int, db: DbV, id: MemberIdV) -> bool {
    method_known(out.repo, out.defined, out.defined.len() as int, db, id) || is_added(
        out.items,
        n,
        id,
    )
}

/// Whether it is known where a static function is once all types have their places.
spec fn static_known(out: OutputsV, db: DbV, id: MemberIdV) -> bool {
    db.statics.dom().contains(id) || (out.repo.has_static(id) && out.defined.contains(id.owner))
}

/// Whether it is known where a class is once all types have their places.
spec fn class_known(out: OutputsV, db: DbV, id: Seq<char>) -> bool {
    db.classes.dom().contains(id) || (out.repo.is_class(id) && out.defined.contains(id))
}

proof fn lemma_known(out: OutputsV, s: BuildV, n: int, id: MemberIdV)
    requires
        0 <= n <= out.items.len(),
        forall|i: int| 0 <= i < out.defined.len() ==> out.repo.has(#[trigger] out.defined[i]),
    ensures
        ({
            let done = define_items(out.repo, out.items, n, before_items(out, s)).build.db;
            &&& done.methods.dom().contains(id) <==> known_by(out, n, s.db, id)
            &&& done.statics.dom().contains(id) <==> static_known(out, s.db, id)
            &&& done.classes.dom().contains(id.owner) <==> class_known(out, s.db, id.owner)
        }),
{
    let types = out.defined.len() as int;
    let start = types_reserved(out.repo, out.defined, types, s);
    assert(out.defined.take(types) =~= out.defined);
    lemma_reserved_classes(out.repo, out.defined, types, s, id.owner);
    lemma_built_members(out.repo, out.defined, types, start, id);
    lemma_added_methods(out.repo, out.items, n, before_items(out, s), id);
}

/// Whether what the function at a place in the queue needs can be defined when its turn comes.
#[verifier::opaque]
spec fn defines_at(out: OutputsV, s: BuildV, i: int) -> bool {
    item_defines(
        out.repo,
        out.items[i],
        define_items(out.repo, out.items, i, before_items(out, s)).build.db,
    )
}

/// Whether it is known in the end where the function at a place in the queue is.
#[verifier::opaque]
spec fn known_at(out: OutputsV, s: BuildV, i: int) -> bool {
    item_known(out.items[i], after_items(out, s).build.db)
}

/// Whether the function at a place in the queue can have its place.
spec fn ready_at(out: OutputsV, s: BuildV, i: int) -> bool {
    defines_at(out, s, i) && known_at(out, s, i) && item_fits(out, i, s)
}

proof fn lemma_commit_ok(out: OutputsV, s: BuildV)
    requires
        out.repo.is_builtin(ref_id()),
        linked(s.db, s.image.pool),
        types_build(out.repo, out.defined, s),
    ensures
        commit_ok(out, s) <==> forall|i: int|
            0 <= i < out.items.len() ==> #[trigger] ready_at(out, s, i),
{
    reveal(items_define);
    reveal(defines_at);
    reveal(known_at);
    if commit_ok(out, s) {
        assert forall|i: int| 0 <= i < out.items.len() implies #[trigger] ready_at(out, s, i) by {
            assert(item_known(out.items[i], after_items(out, s).build.db));
            assert(item_fits(out, i, s));
        }
    }
    if forall|i: int| 0 <= i < out.items.len() ==> #[trigger] ready_at(out, s, i) {
        assert forall|i: int| 0 <= i < out.items.len() implies item_defines(
            out.repo,
            #[trigger] out.items[i],
            define_items(out.repo, out.items, i, before_items(out, s)).build.db,
        ) && item_known(out.items[i], after_items(out, s).build.db) by {
            assert(ready_at(out, s, i));
        }
        assert forall|i: int| 0 <= i < out.items.len() implies #[trigger] item_fits(out, i, s) by {
            assert(ready_at(out, s, i));
        }
    }
}

impl CompilationOutputs {
    /// Whether one of the first `n` functions in the queue is added to a class as this method.
    fn has_added(&self, n: usize, id: &MemberId) -> (res: bool)
        requires
            n <= self@.items.len(),
        ensures
            res == is_added(self@.items, n as int, id@),
    {
        let items = &self.codegen_queue;
        let ghost all = self@.items;
        let mut i: usize = 0;
        while i < n
            invariant
                i <= n <= items@.len(),
                all == views(items@),
                all == self@.items,
                forall|k: int| 0 <= k < i ==> !#[trigger] adds(all[k], id@),
            decreases n - i,
        {
            assert(all[i as int] == items@[i as int]@);
            if let CodeGenItem::AddMethod(other, _, _) = &items[i] {
                if other.slot == id.slot && other.owner == id.owner {
                    assert(adds(all[i as int], id@));
                    return true;
                }
            }
            i += 1;
        }
        false
    }

    /// Whether it is known where a method is once all types and the first `n` functions in the
    /// queue have their places.
    fn knows_method(&self, n: usize, db: &CompilationDb, id: &MemberId) -> (res: bool)
        requires
            n <= self@.items.len(),
        ensures
            res == known_by(self@, n as int, db@, id@),
    {
        is_method_known(&self.repo, &self.defined_types, self.defined_types.len(), db, id)
            || self.has_added(n, id)
    }

    /// Whether it is known where a static function is once all types have their places.
    fn knows_static(&self, db: &CompilationDb, id: &MemberId) -> (res: bool)
        ensures
            res == static_known(self@, db@, id@),
    {
        let n: usize = self.defined_types.len();
        assert(self@.defined.take(n as int) =~= self@.defined);
        db.static_index(id).is_some() || (is_member(&self.repo, id, true) && is_among(
            &self.defined_types,
            n,
            &id.owner,
        ))
    }

    /// Whether it is known where a class is once all types have their places.
    fn knows_class(&self, db: &CompilationDb, id: &TypeId) -> (res: bool)
        ensures
            res == class_known(self@, db@, id@),
    {
        let n: usize = self.defined_types.len();
        assert(self@.defined.take(n as int) =~= self@.defined);
        db.class_index(id).is_some() || (self.repo.get_class(id).is_some() && is_among(
            &self.defined_types,
            n,
            id,
        ))
    }

    /// Whether a method, or static function, of a class can be defined when the turn of the
    /// function at a place in the queue comes.
    fn does_member_define(
        &self,
        i: usize,
        db: &CompilationDb,
        id: &MemberId,
        is_static: bool,
        Ghost(s): Ghost<BuildV>,
    ) -> (res: bool)
        requires
            i <= self@.items.len(),
            s.db == db@,
            forall|k: int|
                0 <= k < self@.defined.len() ==> self@.repo.has(#[trigger] self@.defined[k]),
        ensures
            res == member_defines(
                self@.repo,
                id@,
                is_static,
                define_items(
                    self@.repo,
                    self@.items,
                    i as int,
                    before_items(self@, s),
                ).build.db,
            ),
    {
        if !is_member(&self.repo, id, is_static) {
            return false;
        }
        proof {
            lemma_known(self@, s, i as int, id@);
        }
        let class = self.repo.get_class(&id.owner).unwrap();
        let entry = if is_static {
            class.statics.entry(id.slot)
        } else {
            class.methods.entry(id.slot)
        };
        if !is_func_type_ok(&entry.typ, &self.repo) || !self.knows_class(db, &id.owner) {
            return false;
        }
        match &entry.base {
            Some(base) => {
                proof {
                    lemma_known(self@, s, i as int, base@);
                }
                self.knows_method(i, db, base)
            },
            None => true,
        }
    }

    /// Whether what the function at a place in the queue needs can be defined when its turn comes.
    fn does_item_define(&self, i: usize, db: &CompilationDb, Ghost(s): Ghost<BuildV>) -> (res: bool)
        requires
            i < self@.items.len(),
            s.db == db@,
            forall|k: int|
                0 <= k < self@.defined.len() ==> self@.repo.has(#[trigger] self@.defined[k]),
        ensures
            res == defines_at(self@, s, i as int),
    {
        reveal(defines_at);
        assert(self@.items[i as int] == self.codegen_queue@[i as int]@);
        match &self.codegen_queue[i] {
            CodeGenItem::AssembleGlobal(slot, _) => *slot < self.repo.globals.len()
                && is_func_type_ok(&self.repo.globals.entry(*slot).typ, &self.repo),
            CodeGenItem::AddMethod(id, _, is_static) => {
                self.does_member_define(i, db, id, *is_static, Ghost(s))
            },
            CodeGenItem::WrapMethod(id, _, is_static) => {
                self.does_member_define(i, db, id, *is_static, Ghost(s))
            },
            CodeGenItem::AssembleMethod(_, _, _) => true,
        }
    }

    /// Whether it is known in the end where the function at a place in the queue is.
    fn knows_item(&self, i: usize, db: &CompilationDb, Ghost(s): Ghost<BuildV>) -> (res: bool)
        requires
            i < self@.items.len(),
            s.db == db@,
            forall|k: int|
                0 <= k < self@.defined.len() ==> self@.repo.has(#[trigger] self@.defined[k]),
        ensures
            res == known_at(self@, s, i as int),
    {
        reveal(known_at);
        let n: usize = self.codegen_queue.len();
        assert(self@.items[i as int] == self.codegen_queue@[i as int]@);
        match &self.codegen_queue[i] {
            CodeGenItem::AssembleMethod(id, _, is_static) => {
                proof {
                    lemma_known(self@, s, n as int, id@);
                }
                if *is_static {
                    self.knows_static(db, id)
                } else {
                    self.knows_method(n, db, id)
                }
            },
            CodeGenItem::AddMethod(id, _, is_static) => {
                proof {
                    lemma_known(self@, s, n as int, id@);
                }
                !*is_static || self.knows_static(db, id)
            },
            CodeGenItem::WrapMethod(id, _, _) => {
                proof {
                    lemma_known(self@, s, n as int, id@);
                }
                self.knows_method(n, db, id)
            },
            CodeGenItem::AssembleGlobal(_, _) => true,
        }
    }

    /// Whether a method is defined with the types, or with the first `n` functions in the queue.
    fn defines_method(&self, n: usize, id: &MemberId) -> (res: bool)
        requires
            n <= self@.items.len(),
        ensures
            res == defined_by(self@, n as int, id@),
    {
        (is_member(&self.repo, id, false) && is_among(
            &self.defined_types,
            self.defined_types.len(),
            &id.owner,
        )) || self.has_added(n, id)
    }

    /// Whether what a callback overrides has names that it can take over when its turn comes.
    fn is_callback_ok(
        &self,
        n: usize,
        db: &CompilationDb,
        pool: &ConstantPool,
        entry: &FuncEntry,
        Ghost(s): Ghost<BuildV>,
    ) -> (res: bool)
        requires
            n <= self@.items.len(),
            s.db == db@,
            s.image.pool == pool@,
        ensures
            res == callback_ok(self@, n as int, s, entry@),
    {
        if !entry.flags.is_callback {
            return true;
        }
        match &entry.base {
            Some(base) => self.defines_method(n, base) || match db.method_index(base) {
                Some(idx) => has_named_params(pool, idx),
                None => false,
            },
            None => true,
        }
    }

    /// Whether a method that is wrapped has a name, named parameters, and code that stays within
    /// its locals.
    fn is_wrappable(
        &self,
        db: &CompilationDb,
        pool: &ConstantPool,
        id: &MemberId,
        Ghost(s): Ghost<BuildV>,
    ) -> (res: bool)
        requires
            s.db == db@,
            s.image.pool == pool@,
        ensures
            res == wrappable(self@, s, id@),
    {
        self.defines_method(self.codegen_queue.len(), id) || match db.method_index(id) {
            Some(idx) => is_whole(pool, idx),
            None => false,
        }
    }

    /// Whether the function at a place in the queue finds what it takes over names from, and the
    /// method that it wraps can change places with it.
    fn does_item_fit(
        &self,
        i: usize,
        db: &CompilationDb,
        pool: &ConstantPool,
        Ghost(s): Ghost<BuildV>,
    ) -> (res: bool)
        requires
            i < self@.items.len(),
            s.db == db@,
            s.image.pool == pool@,
            match self@.items[i as int] {
                CodeGenItemV::AddMethod(id, _, is_static)
                | CodeGenItemV::WrapMethod(id, _, is_static) => has_member(
                    self@.repo,
                    id,
                    is_static,
                ),
                _ => true,
            },
        ensures
            res == item_fits(self@, i as int, s),
    {
        assert(self@.items[i as int] == self.codegen_queue@[i as int]@);
        match &self.codegen_queue[i] {
            CodeGenItem::AddMethod(id, _, is_static) => {
                let entry = find_member(&self.repo, id, *is_static);
                self.is_callback_ok(i, db, pool, entry, Ghost(s))
            },
            CodeGenItem::WrapMethod(id, _, is_static) => {
                let entry = find_member(&self.repo, id, *is_static);
                self.is_callback_ok(i, db, pool, entry, Ghost(s)) && self.is_wrappable(
                    db,
                    pool,
                    id,
                    Ghost(s),
                )
            },
            _ => true,
        }
    }

    /// Whether a compilation can be written to the pool.
    pub fn can_commit(&self, db: &CompilationDb, cache: &TypeCache, pool: &ConstantPool) -> (res:
        bool)
        requires
            linked(db@, pool@),
        ensures
            res == commit_ok(self@, build(*pool, *cache, *db)),
    {
        let ghost s = build(*pool, *cache, *db);
        let is_ref = match self.repo.get_type(&"ref".to_owned()) {
            Some(DataType::Builtin(_)) => true,
            _ => false,
        };
        if !is_ref || !do_types_build(&self.defined_types, &self.repo, db, pool, Ghost(s)) {
            return false;
        }
        proof {
            lemma_commit_ok(self@, s);
        }
        let mut i: usize = 0;
        while i < self.codegen_queue.len()
            invariant
                i <= self@.items.len(),
                self@.items.len() == self.codegen_queue@.len(),
                s == build(*pool, *cache, *db),
                types_build(self@.repo, self@.defined, s),
                forall|k: int| 0 <= k < i ==> #[trigger] ready_at(self@, s, k),
                commit_ok(self@, s) <==> forall|k: int|
                    0 <= k < self@.items.len() ==> #[trigger] ready_at(self@, s, k),
            decreases self.codegen_queue.len() - i,
        {
            if !self.does_item_define(i, db, Ghost(s)) || !self.knows_item(i, db, Ghost(s)) {
                assert(!ready_at(self@, s, i as int));
                return false;
            }
            proof {
                reveal(defines_at);
            }
            if !self.does_item_fit(i, db, pool, Ghost(s)) {
                assert(!ready_at(self@, s, i as int));
                return false;
            }
            assert(ready_at(self@, s, i as int));
            i += 1;
        }
        true
    }

    /// Writes a compilation to the pool, and tells which functions are left to be given a body.
    /// Where that is not possible nothing changes.
    pub fn try_commit(
        self,
        db: &mut CompilationDb,
        cache: &mut TypeCache,
        pool: &mut ConstantPool,
    ) -> (res: Option<Plan>)
        requires
            linked(old(db)@, old(pool)@),
        ensures
            ({
                let before = build(*old(pool), *old(cache), *old(db));
                let after = build(*final(pool), *final(cache), *final(db));
                match res {
                    Some(plan) => {
                        &&& commit_ok(self@, before)
                        &&& (CommittedV { build: after, assemblies: views(plan.assemblies@) })
                            == committed(self@, before)
                        &&& plan.repo@ == self@.repo
                        &&& forall|i: int|
                            0 <= i < plan.assemblies@.len() ==> assembly_ok(
                                (#[trigger] plan.assemblies@[i])@,
                                final(pool)@,
                            )
                    },
                    None => !commit_ok(self@, before) && after == before,
                }
            }),
            linked(final(db)@, final(pool)@),
    {
        if self.can_commit(db, cache, pool) {
            Some(self.commit(db, cache, pool))
        } else {
            None
        }
    }
}

} // verus!
