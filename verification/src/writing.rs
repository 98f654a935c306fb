//! What stands in the pool once a compilation is written to it.
use vstd::prelude::*;

use crate::assemble::{
    define_item, define_items, global_builder, is_added, item_defines, items_define,
    lemma_define_items, member_entry, wrapper_builder, DefineV,
};
use crate::builders::{
    commit_fields, commit_locals, commit_members, commit_methods, commit_params,
    law_function_commit_extends, law_param_names, lemma_fields_extend, lemma_locals_extend,
    lemma_members_extend, lemma_methods_extend, lemma_params_extend, EnumMemberV, FieldBuilderV,
    FunctionBuilderV, LocalBuilderV, ParamBuilderV,
};
use crate::commit::{
    class_builder, class_built, class_slot, entry_builder, enum_builder, enum_built, enum_slot,
    fun_ok, fun_there, func_types_ok, function_builder, index_ok, lemma_note_members,
    lemma_types_reserved, linked, method_defined, note_members, types_build, types_reserved, BuildV,
};
use crate::db::{
    described_function, described_param, described_type, describes_function, describes_param,
    describes_type, lemma_described_type, load_class, type_within, DbV,
};
use crate::flags::{FunctionFlags, Visibility};
use crate::frame::{kept, lemma_item_keeps, lemma_item_leaves, lemma_rotate_only};
use crate::funcs::{FuncEntryV, FuncMapV, FuncTypeV};
use crate::outputs::{
    after_items, after_types, before_items, commit_ok, committed, item_fits, item_known,
    law_wrapper_chain, lemma_places, lemma_rank, lemma_types_step, wrap_rank, wraps,
};
use crate::pool::{reserved, AnyDefinitionV, PoolTypeV, PoolV, SourceReference, UNDEFINED};
use crate::queue::{CodeGenItemV, OutputsV};
use crate::recovery::{
    class_funs, classes_named, law_classes_reload, lemma_all_recovered, types_plain,
};
use crate::reload::is_loaded;
use crate::repo::{ref_id, ClassTypeV, RepoV};
use crate::roundtrip::{
    cache_sound, describes_as, function_plain, is_written, law_function_roundtrip,
    law_type_roundtrip, lemma_describes_extends, lemma_sound_grows, loaded_function, loaded_param,
    loaded_type, named_type, plain,
};
use crate::tables::MemberIdV;
use crate::text::{before, decimal};
use crate::type_cache::{
    allocated, grows, law_allocation_extends, lemma_grows_trans, type_ok, ImageV,
};
use crate::types::{ParameterizedV, Prim, TypeV};
use crate::wrap::{fun_at, lemma_rotate_all, reworks};
use crate::wrapping::{is_alone, law_wrapped_method, lemma_commit_state, unnoted};

verus! {

/// Whether a function type is what is loaded again of another one: the same parameters in the same
/// order, each of its type and an out parameter where it was one, and the same result. What is
/// marked as polymorphic can be anything, and a function that returns the unit returns nothing.
pub open spec fn comes_as(typ: FuncTypeV, again: FuncTypeV, repo: RepoV) -> bool {
    &&& again.type_vars.len() == 0
    &&& again.params.len() == typ.params.len()
    &&& forall|i: int|
        #![trigger again.params[i]]
        #![trigger typ.params[i]]
        0 <= i < typ.params.len() ==> {
            &&& again.params[i].is_out == typ.params[i].is_out
            &&& !again.params[i].is_poly
            &&& typ.params[i].is_poly ==> again.params[i].typ == loaded_type(TypeV::Top, repo)
            &&& !typ.params[i].is_poly ==> again.params[i].typ == loaded_type(
                typ.params[i].typ,
                repo,
            )
        }
    &&& !again.is_ret_poly
    &&& typ.is_ret_poly ==> again.ret == loaded_type(TypeV::Top, repo)
    &&& !typ.is_ret_poly && typ.ret == TypeV::Prim(Prim::Unit) ==> again.ret == TypeV::Prim(
        Prim::Void,
    )
    &&& !typ.is_ret_poly && typ.ret != TypeV::Prim(Prim::Unit) ==> again.ret == loaded_type(
        typ.ret,
        repo,
    )
}

/// Whether the names in the types of a function cannot be mistaken.
pub open spec fn type_plain(typ: FuncTypeV, repo: RepoV) -> bool {
    &&& !typ.is_ret_poly ==> plain(typ.ret, repo)
    &&& forall|i: int|
        0 <= i < typ.params.len() && !(#[trigger] typ.params[i]).is_poly ==> plain(
            typ.params[i].typ,
            repo,
        )
}

/// The type of the function at a place in the queue, as it was declared.
pub open spec fn item_type(repo: RepoV, item: CodeGenItemV) -> FuncTypeV {
    match item {
        CodeGenItemV::AssembleGlobal(slot, _) => repo.globals.entries[slot].typ,
        CodeGenItemV::AddMethod(id, _, is_static)
        | CodeGenItemV::WrapMethod(id, _, is_static)
        | CodeGenItemV::AssembleMethod(id, _, is_static) => if is_static {
            repo.class(id.owner).statics.entries[id.slot].typ
        } else {
            repo.class(id.owner).methods.entries[id.slot].typ
        },
    }
}

/// Whether the names in the types of all functions in the queue that are defined cannot be
/// mistaken.
pub open spec fn items_plain(out: OutputsV) -> bool {
    forall|i: int|
        0 <= i < out.items.len() && !(#[trigger] out.items[i] is AssembleMethod) ==> type_plain(
            item_type(out.repo, out.items[i]),
            out.repo,
        )
}

/// Whether all names, types and parameters of a pool are where they were.
spec fn holds_types(from: PoolV, to: PoolV) -> bool {
    &&& from.names.len() <= to.names.len()
    &&& from.defs.len() <= to.defs.len()
    &&& forall|i: int| 0 <= i < from.names.len() ==> #[trigger] to.names[i] == from.names[i]
    &&& forall|i: int|
        0 <= i < from.defs.len() ==> {
            &&& from.value(i) is Type ==> #[trigger] to.defs[i] == from.defs[i]
            &&& from.value(i) is Parameter ==> to.value(i) == from.value(i)
        }
}

proof fn lemma_within_held(from: PoolV, to: PoolV, idx: int, n: nat)
    requires
        holds_types(from, to),
        type_within(from, idx, n) is Some,
    ensures
        type_within(to, idx, n) == type_within(from, idx, n),
    decreases n,
{
    assert(from.value(idx) is Type);
    assert(to.defs[idx] == from.defs[idx]);
    match from.value(idx) {
        AnyDefinitionV::Type(typ) => match typ {
            PoolTypeV::Ref(inner)
            | PoolTypeV::WeakRef(inner)
            | PoolTypeV::ScriptRef(inner)
            | PoolTypeV::Array(inner)
            | PoolTypeV::StaticArray(inner, _) => {
                lemma_within_held(from, to, inner, (n - 1) as nat);
            },
            _ => {
                assert(to.names[from.defs[idx].name] == from.names[from.defs[idx].name]);
            },
        },
        _ => {},
    }
}

proof fn lemma_type_held(from: PoolV, to: PoolV, idx: int)
    requires
        holds_types(from, to),
        describes_type(from, idx),
    ensures
        describes_as(to, idx, described_type(from, idx)),
{
    let n = choose|n: nat| type_within(from, idx, n) is Some;
    lemma_within_held(from, to, idx, n);
    lemma_described_type(to, idx, n);
    lemma_described_type(from, idx, n);
}

/// A function with the parameters and the result of another one has its type, wherever it is.
proof fn lemma_function_held(from: PoolV, idx: int, to: PoolV, at: int)
    requires
        holds_types(from, to),
        describes_function(from, idx),
        to.is_named(at),
        to.value(at) is Function,
        fun_at(to, at).parameters == fun_at(from, idx).parameters,
        fun_at(to, at).return_type == fun_at(from, idx).return_type,
    ensures
        describes_function(to, at),
        described_function(to, at) == described_function(from, idx),
{
    let fun = fun_at(from, idx);
    if let Some(ret) = fun.return_type {
        lemma_type_held(from, to, ret);
    }
    assert forall|i: int|
        #![trigger fun.parameters[i]]
        0 <= i < fun.parameters.len() implies describes_param(to, fun.parameters[i])
        && described_param(to, fun.parameters[i]) == described_param(from, fun.parameters[i]) by {
        let param = fun.parameters[i];
        assert(describes_param(from, param));
        assert(to.value(param) == from.value(param)) by {
            assert(to.defs[param] == to.defs[param]);
        }
        lemma_type_held(from, to, from.value(param)->Parameter_0.type_);
    }
    assert(described_function(to, at).params =~= described_function(from, idx).params);
}

proof fn lemma_sound_held(from: ImageV, to: ImageV, repo: RepoV)
    requires
        holds_types(from.pool, to.pool),
        to.cache == from.cache,
        cache_sound(from, repo),
    ensures
        cache_sound(to, repo),
{
    assert forall|name: Seq<char>| #[trigger]
        to.cache.dom().contains(name) && is_written(name, repo) implies describes_as(
        to.pool,
        to.cache[name],
        named_type(name),
    ) by {
        lemma_type_held(from.pool, to.pool, from.cache[name]);
    }
}

/// What is loaded again of the definition of a function is what is to come back of its type.
proof fn lemma_comes_as(fun: FunctionBuilderV, typ: FuncTypeV, repo: RepoV)
    requires
        fun.params.len() == typ.params.len(),
        forall|i: int|
            0 <= i < typ.params.len() ==> {
                &&& (#[trigger] fun.params[i]).flags.is_out == typ.params[i].is_out
                &&& fun.params[i].typ == if typ.params[i].is_poly {
                    TypeV::Top
                } else {
                    typ.params[i].typ
                }
            },
        fun.return_type == if typ.is_ret_poly {
            TypeV::Top
        } else {
            typ.ret
        },
    ensures
        comes_as(typ, loaded_function(fun, repo), repo),
        type_plain(typ, repo) && fun.locals.len() == 0 ==> function_plain(fun, repo),
        func_types_ok(repo, typ) && fun.locals.len() == 0 ==> fun.types_ok(repo),
{
    let again = loaded_function(fun, repo);
    assert forall|i: int|
        #![trigger again.params[i]]
        #![trigger typ.params[i]]
        0 <= i < typ.params.len() implies again.params[i] == loaded_param(fun.params[i], repo) by {
        assert(fun.params[i].flags.is_out == typ.params[i].is_out);
    }
    if type_plain(typ, repo) && fun.locals.len() == 0 {
        assert forall|i: int| 0 <= i < fun.params.len() implies plain(
            (#[trigger] fun.params[i]).typ,
            repo,
        ) by {
            assert(typ.params[i] == typ.params[i]);
        }
    }
    if func_types_ok(repo, typ) && fun.locals.len() == 0 {
        assert forall|i: int| 0 <= i < fun.params.len() implies type_ok(
            (#[trigger] fun.params[i]).typ,
            repo,
        ) by {
            assert(typ.params[i] == typ.params[i]);
        }
    }
}

/// Whether the function at a place in the queue has been defined at an index with its type.
pub open spec fn stands(pool: PoolV, idx: int, typ: FuncTypeV, repo: RepoV) -> bool {
    &&& describes_function(pool, idx)
    &&& comes_as(typ, described_function(pool, idx), repo)
}

/// The index at which the function at a place in the queue is defined.
pub open spec fn place(out: OutputsV, s: BuildV, i: int) -> int {
    define_items(out.repo, out.items, i, before_items(out, s)).build.image.pool.defs.len() as int
}

/// Whether a function of the queue stands at an index: with its type, its name and flags, and
/// listed as a function of its class. A global function is static, final and of no class. A wrapper
/// is no callback, and its name tells its place in the queue and the signature of the method.
pub open spec fn item_stands(
    repo: RepoV,
    i: int,
    item: CodeGenItemV,
    db: DbV,
    pool: PoolV,
    idx: int,
) -> bool {
    let fun = pool.value(idx)->Function_0;
    &&& stands(pool, idx, item_type(repo, item), repo)
    &&& match item {
        CodeGenItemV::AssembleGlobal(slot, _) => {
            let entry = repo.globals.entries[slot];
            &&& pool.name_of(idx) == entry.signature
            &&& fun.flags == (FunctionFlags { is_static: true, is_final: true, ..entry.flags })
            &&& fun.base_method is None
            &&& pool.defs[idx].parent == UNDEFINED
        },
        CodeGenItemV::AddMethod(id, _, is_static) => {
            let entry = if is_static {
                repo.class(id.owner).statics.entries[id.slot]
            } else {
                repo.class(id.owner).methods.entries[id.slot]
            };
            &&& pool.name_of(idx) == entry.signature
            &&& fun.flags == entry.flags
            &&& entry.base is None ==> fun.base_method is None
            &&& entry.base matches Some(base) ==> fun.base_method == Some(db.methods[base])
            &&& pool.defs[idx].parent == db.classes[id.owner]
        },
        CodeGenItemV::WrapMethod(id, _, is_static) => {
            let entry = if is_static {
                repo.class(id.owner).statics.entries[id.slot]
            } else {
                repo.class(id.owner).methods.entries[id.slot]
            };
            &&& pool.name_of(idx) == "wrapper$"@ + decimal(i) + "$"@ + entry.signature
            &&& fun.flags == (FunctionFlags { is_callback: false, ..entry.flags })
            &&& entry.base is None ==> fun.base_method is None
            &&& entry.base matches Some(base) ==> fun.base_method == Some(db.methods[base])
            &&& pool.defs[idx].parent == db.classes[id.owner]
        },
        CodeGenItemV::AssembleMethod(_, _, _) => true,
    }
    &&& fun.visibility == Visibility::Public
    &&& fun.locals.len() == 0
    &&& fun.code.len() == 0
}

/// The class of the function of the queue, if it has one.
pub open spec fn item_owner(item: CodeGenItemV) -> Option<Seq<char>> {
    match item {
        CodeGenItemV::AddMethod(id, _, _) | CodeGenItemV::WrapMethod(id, _, _) => Some(id.owner),
        _ => None,
    }
}

/// A function is written with what its definition says of it, and it has no operator and no cast.
/// It has as many parameters and locals as it is given.
pub proof fn law_function_parts(fun: FunctionBuilderV, parent: int, repo: RepoV, start: ImageV)
    ensures
        ({
            let end = fun.commit(parent, repo, start).pool;
            let def = end.value(start.pool.defs.len() as int)->Function_0;
            &&& end.defs[start.pool.defs.len() as int].parent == parent
            &&& def.visibility == fun.visibility
            &&& def.base_method == fun.base
            &&& def.code == fun.body
            &&& def.parameters.len() == fun.params.len()
            &&& def.locals.len() == fun.locals.len()
            &&& def.return_type is None <==> fun.return_type == TypeV::Prim(Prim::Unit)
            &&& def.source == Some(SourceReference { file: 1, line: 0 })
            &&& def.operator is None
            &&& def.cast == 0
        }),
{
    let id = start.pool.defs.len() as int;
    let named = start.with_def(reserved()).with_name(fun.name);
    law_allocation_extends(fun.return_type, repo, named);
    let typed = fun.commit_ret(repo, start).0;
    let params = fun.named_params(start.pool);
    lemma_params_extend(params, params.len() as int, id, repo, typed);
    lemma_params_count(params, params.len() as int, id, repo, typed);
    let with_params = commit_params(params, params.len() as int, id, repo, typed).0;
    lemma_locals_extend(fun.locals, fun.locals.len() as int, repo, with_params);
    lemma_locals_count(fun.locals, fun.locals.len() as int, repo, with_params);
    let full = commit_locals(fun.locals, fun.locals.len() as int, repo, with_params);
    let end = fun.commit(parent, repo, start).pool;
    assert(full.0.pool.has(id));
    assert(end.value(id)->Function_0.locals == full.1);
}

proof fn lemma_params_count(
    params: Seq<ParamBuilderV>,
    n: int,
    parent: int,
    repo: RepoV,
    start: ImageV,
)
    requires
        n >= 0,
    ensures
        commit_params(params, n, parent, repo, start).1.len() == n,
    decreases n,
{
    if n > 0 {
        lemma_params_count(params, n - 1, parent, repo, start);
    }
}

proof fn lemma_locals_count(locals: Seq<LocalBuilderV>, n: int, repo: RepoV, start: ImageV)
    requires
        n >= 0,
    ensures
        commit_locals(locals, n, repo, start).1.len() == n,
    decreases n,
{
    if n > 0 {
        lemma_locals_count(locals, n - 1, repo, start);
    }
}

/// A function of the queue is defined behind all that was there before, and its class has it as
/// its last function.
pub proof fn law_item_is_written(repo: RepoV, i: int, item: CodeGenItemV, s: DefineV)
    requires
        repo.is_builtin(ref_id()),
        linked(s.build.db, s.build.image.pool),
        item_defines(repo, item, s.build.db),
        type_plain(item_type(repo, item), repo),
        cache_sound(s.build.image, repo),
        !(item is AssembleMethod),
    ensures
        ({
            let done = define_item(repo, i, item, s).build.image;
            let was = s.build.image.pool;
            let idx = was.defs.len() as int;
            &&& item_stands(repo, i, item, s.build.db, done.pool, idx)
            &&& cache_sound(done, repo)
            &&& item_owner(item) matches Some(owner) ==> {
                let class = s.build.db.classes[owner];
                done.pool.value(class)->Class_0.methods
                    == was.value(class)->Class_0.methods.push(idx)
            }
        }),
{
    let at = s.build.image;
    let db = s.build.db;
    let typ = item_type(repo, item);
    let (fun, parent) = match item {
        CodeGenItemV::AssembleGlobal(slot, _) => (
            global_builder(repo.globals.entries[slot]),
            UNDEFINED as int,
        ),
        CodeGenItemV::AddMethod(id, _, is_static) => (
            entry_builder(member_entry(repo, id, is_static), db),
            db.classes[id.owner],
        ),
        CodeGenItemV::WrapMethod(id, _, is_static) => (
            wrapper_builder(i, member_entry(repo, id, is_static), db),
            db.classes[id.owner],
        ),
        CodeGenItemV::AssembleMethod(id, _, is_static) => (
            entry_builder(member_entry(repo, id, is_static), db),
            0,
        ),
    };
    lemma_comes_as(fun, typ, repo);
    law_function_roundtrip(fun, parent, repo, at);
    law_function_commit_extends(fun, parent, repo, at);
    let mid = fun.commit(parent, repo, at);
    let idx = at.pool.defs.len() as int;
    let done = define_item(repo, i, item, s).build.image;
    if !(item is AssembleGlobal) {
        assert(class_slot(at.pool, parent));
        assert(at.pool.value(parent) is Class);
        assert(mid.pool.defs[parent] == at.pool.defs[parent]);
        assert(holds_types(mid.pool, done.pool));
        lemma_function_held(mid.pool, idx, done.pool, idx);
        lemma_sound_held(mid, done, repo);
        assert(done.pool.defs[idx] == mid.pool.defs[idx]);
    } else {
        assert(done == mid);
    }
    law_function_parts(fun, parent, repo, at);
    assert(item is AddMethod ==> fun_at(done.pool, idx).flags == fun.flags);
}

/// What stands at an index stays when a further function of the queue is defined.
proof fn lemma_item_stays(
    repo: RepoV,
    n: int,
    item: CodeGenItemV,
    s: DefineV,
    i: int,
    other: CodeGenItemV,
    db: DbV,
    idx: int,
)
    requires
        linked(s.build.db, s.build.image.pool),
        item_defines(repo, item, s.build.db),
        item_stands(repo, i, other, db, s.build.image.pool, idx),
    ensures
        item_stands(repo, i, other, db, define_item(repo, n, item, s).build.image.pool, idx),
{
    let from = s.build.image.pool;
    let to = define_item(repo, n, item, s).build.image.pool;
    lemma_item_keeps(repo, n, item, s);
    lemma_item_leaves(repo, n, item, s, idx);
    assert(holds_types(from, to)) by {
        assert forall|k: int| 0 <= k < from.defs.len() implies {
            &&& from.value(k) is Type ==> #[trigger] to.defs[k] == from.defs[k]
            &&& from.value(k) is Parameter ==> to.value(k) == from.value(k)
        } by {
            assert(kept(from.defs[k], to.defs[k]));
        }
    }
    assert(to.names[from.defs[idx].name] == from.names[from.defs[idx].name]);
    lemma_function_held(from, idx, to, idx);
}

/// Whether each of the first `n` functions of the queue that is defined stands in a pool at the
/// index that it was given.
pub open spec fn items_stand(out: OutputsV, s: BuildV, n: int, pool: PoolV) -> bool {
    forall|i: int|
        0 <= i < n && !(#[trigger] out.items[i] is AssembleMethod) ==> item_stands(
            out.repo,
            i,
            out.items[i],
            define_items(out.repo, out.items, i, before_items(out, s)).build.db,
            pool,
            place(out, s, i),
        )
}

/// Whether what a compilation writes can be read without mistake: no name can be mistaken for
/// another one, and the types that are in the pool to begin with are what their names stand for.
pub open spec fn is_readable(out: OutputsV, s: BuildV) -> bool {
    &&& types_plain(out.repo, out.defined)
    &&& items_plain(out)
    &&& cache_sound(s.image, out.repo)
    &&& s.image.pool.defs.len() > 0
}

proof fn lemma_items_stand(out: OutputsV, s: BuildV, n: int)
    requires
        commit_ok(out, s),
        is_readable(out, s),
        0 <= n <= out.items.len(),
    ensures
        ({
            let done = define_items(out.repo, out.items, n, before_items(out, s)).build.image;
            &&& items_stand(out, s, n, done.pool)
            &&& cache_sound(done, out.repo)
        }),
    decreases n,
{
    let start = before_items(out, s);
    lemma_types_step(out.repo, out.defined, out.defined.len() as int, s);
    if n > 0 {
        let last = n - 1;
        lemma_items_stand(out, s, last);
        lemma_define_items(out.repo, out.items, last, start);
        let at = define_items(out.repo, out.items, last, start);
        let item = out.items[last];
        let done = define_items(out.repo, out.items, n, start);
        assert(done == define_item(out.repo, last, item, at));
        if item is AssembleMethod {
            assert(done == at);
        } else {
            law_item_is_written(out.repo, last, item, at);
        }
        assert forall|i: int|
            0 <= i < n && !(#[trigger] out.items[i] is AssembleMethod) implies item_stands(
            out.repo,
            i,
            out.items[i],
            define_items(out.repo, out.items, i, start).build.db,
            done.build.image.pool,
            place(out, s, i),
        ) by {
            if i < last {
                lemma_item_stays(
                    out.repo,
                    last,
                    item,
                    at,
                    i,
                    out.items[i],
                    define_items(out.repo, out.items, i, start).build.db,
                    place(out, s, i),
                );
            }
        }
    } else {
        lemma_all_recovered(out.repo, out.defined, out.defined.len() as int, s);
    }
}

/// The wrappers of a method are where the functions of the queue that wrap it are defined, in the
/// order of the queue.
proof fn lemma_wrapper_places(out: OutputsV, s: BuildV, n: int, id: MemberIdV, i: int)
    requires
        0 <= i < n <= out.items.len(),
        wraps(out.items, i, id),
    ensures
        ({
            let at = define_items(out.repo, out.items, n, before_items(out, s));
            &&& at.wrappers.has(id)
            &&& 0 <= wrap_rank(out.items, i, id) < at.wrappers.at(id).len()
            &&& at.wrappers.at(id)[wrap_rank(out.items, i, id)] == place(out, s, i)
        }),
    decreases n,
{
    let start = before_items(out, s);
    let at = define_items(out.repo, out.items, n - 1, start);
    let done = define_items(out.repo, out.items, n, start);
    lemma_places(out.repo, out.items, n - 1, start);
    lemma_rank(out.items, i, id);
    if i < n - 1 {
        lemma_wrapper_places(out, s, n - 1, id, i);
    }
    if let CodeGenItemV::WrapMethod(other, _, is_static) = out.items[n - 1] {
        let idx = at.build.image.pool.defs.len() as int;
        let chain = match at.wrappers.get(other) {
            Some(chain) => chain.push(idx),
            None => seq![idx],
        };
        assert(done.wrappers == at.wrappers.put(other, chain));
        at.wrappers.lemma_put(other, chain);
        assert(done.wrappers.get(other) == Some(chain));
        if other != id {
            assert(done.wrappers.get(id) == at.wrappers.get(id));
        } else if i == n - 1 {
            assert(at.wrappers.has(id) <==> wrap_rank(out.items, n - 1, id) > 0);
            lemma_rank(out.items, n - 1, id);
        }
    } else {
        assert(done.wrappers == at.wrappers);
    }
}

/// Every wrapper of a method has the type of the method once the compilation is written: what is
/// loaded from the place where its body goes has the result, the parameters and the out flags of
/// the entry of the method in the repository. The last wrapper is in the place of the method, so
/// whoever calls the method finds a function of its type there.
pub proof fn law_wrapper_has_type_of_method(out: OutputsV, s: BuildV, id: MemberIdV, i: int)
    requires
        commit_ok(out, s),
        is_readable(out, s),
        wraps(out.items, i, id),
        is_alone(after_items(out, s), id),
    ensures
        ({
            let done = committed(out, s);
            let pool = done.build.image.pool;
            let class = out.repo.class(id.owner);
            let entries = if out.items[i]->WrapMethod_2 {
                class.statics.entries
            } else {
                class.methods.entries
            };
            &&& stands(pool, done.assemblies[i].function, entries[id.slot].typ, out.repo)
            &&& (forall|j: int| i < j ==> !wraps(out.items, j, id)) ==> stands(
                pool,
                done.build.db.methods[id],
                entries[id.slot].typ,
                out.repo,
            )
        }),
{
    let n = out.items.len() as int;
    let at = after_items(out, s);
    let db = at.build.db;
    let before = at.build.image.pool;
    let pool = committed(out, s).build.image.pool;
    let k = wrap_rank(out.items, i, id);
    lemma_items_stand(out, s, n);
    lemma_wrapper_places(out, s, n, id, i);
    law_wrapper_chain(out, s, id, i);
    law_wrapped_method(out, s, id);
    lemma_commit_state(out, s);
    lemma_rotate_all(db, at.wrappers, at.wrappers.keys.len() as int, before);
    assert(reworks(before, pool));
    let ws = at.wrappers.at(id);
    let idx = place(out, s, i);
    let typ = item_type(out.repo, out.items[i]);
    assert(stands(before, idx, typ, out.repo));
    assert(holds_types(before, pool));
    let to = committed(out, s).assemblies[i].function;
    if k < ws.len() - 1 {
        assert(ws[k] == idx);
        assert(pool.defs[ws[k]] == before.defs[ws[k]]);
        lemma_function_held(before, idx, pool, idx);
    } else {
        assert(ws.last() == idx);
        lemma_function_held(before, idx, pool, db.methods[id]);
    }
    if forall|j: int| i < j ==> !wraps(out.items, j, id) {
        lemma_last_rank(out.items, i, n, id);
        assert(to == db.methods[id]);
    }
}

/// No function behind the last wrapper of a method adds to the number of its wrappers.
proof fn lemma_last_rank(items: Seq<CodeGenItemV>, i: int, n: int, id: MemberIdV)
    requires
        0 <= i < n <= items.len(),
        wraps(items, i, id),
        forall|j: int| i < j ==> !wraps(items, j, id),
    ensures
        wrap_rank(items, n, id) == wrap_rank(items, i, id) + 1,
    decreases n,
{
    if n > i + 1 {
        lemma_last_rank(items, i, n - 1, id);
        assert(!wraps(items, n - 1, id));
    }
}

/// A function of the queue that is defined takes at least one more place in the pool.
proof fn lemma_item_grows(repo: RepoV, i: int, item: CodeGenItemV, s: DefineV)
    requires
        linked(s.build.db, s.build.image.pool),
        item_defines(repo, item, s.build.db),
    ensures
        s.build.image.pool.defs.len() <= define_item(
            repo,
            i,
            item,
            s,
        ).build.image.pool.defs.len(),
        !(item is AssembleMethod) ==> s.build.image.pool.defs.len() < define_item(
            repo,
            i,
            item,
            s,
        ).build.image.pool.defs.len(),
{
    let image = s.build.image;
    let db = s.build.db;
    match item {
        CodeGenItemV::AssembleGlobal(slot, _) => {
            let fun = global_builder(repo.globals.entries[slot]);
            law_function_commit_extends(fun, UNDEFINED as int, repo, image);
        },
        CodeGenItemV::AddMethod(id, _, is_static) => {
            let fun = entry_builder(member_entry(repo, id, is_static), db);
            assert(class_slot(image.pool, db.classes[id.owner]));
            law_function_commit_extends(fun, db.classes[id.owner], repo, image);
        },
        CodeGenItemV::WrapMethod(id, _, is_static) => {
            let fun = wrapper_builder(i, member_entry(repo, id, is_static), db);
            assert(class_slot(image.pool, db.classes[id.owner]));
            law_function_commit_extends(fun, db.classes[id.owner], repo, image);
        },
        CodeGenItemV::AssembleMethod(_, _, _) => {},
    }
}

/// Functions of the queue that are defined have places one behind the other.
#[verifier::rlimit(40)]
proof fn lemma_places_rise(out: OutputsV, s: BuildV, i: int, n: int)
    requires
        commit_ok(out, s),
        0 <= i < n <= out.items.len(),
    ensures
        place(out, s, i) <= place(out, s, n),
        !(out.items[i] is AssembleMethod) ==> place(out, s, i) < place(out, s, n),
    decreases n,
{
    let last = n - 1;
    lemma_types_step(out.repo, out.defined, out.defined.len() as int, s);
    lemma_define_items(out.repo, out.items, last, before_items(out, s));
    let at = define_items(out.repo, out.items, last, before_items(out, s));
    lemma_item_grows(out.repo, last, out.items[last], at);
    if i < last {
        lemma_places_rise(out, s, i, last);
    }
}

/// A method is where it was before the queue, or where a function of the queue was added as it.
proof fn lemma_method_place(out: OutputsV, s: BuildV, n: int, id: MemberIdV)
    requires
        commit_ok(out, s),
        0 <= n <= out.items.len(),
        define_items(out.repo, out.items, n, before_items(out, s)).build.db.methods.dom().contains(
            id,
        ),
    ensures
        ({
            let idx = define_items(
                out.repo,
                out.items,
                n,
                before_items(out, s),
            ).build.db.methods[id];
            ||| idx < place(out, s, 0)
            ||| exists|j: int|
                0 <= j < n && (#[trigger] out.items[j] matches CodeGenItemV::AddMethod(
                    other,
                    _,
                    _,
                ) && other == id) && idx == place(out, s, j)
        }),
    decreases n,
{
    let start = before_items(out, s);
    lemma_types_step(out.repo, out.defined, out.defined.len() as int, s);
    if n > 0 {
        let at = define_items(out.repo, out.items, n - 1, start);
        let done = define_items(out.repo, out.items, n, start);
        let item = out.items[n - 1];
        assert(done == define_item(out.repo, n - 1, item, at));
        if item is AddMethod && item->AddMethod_0 == id {
            assert(done.build.db.methods[id] == place(out, s, n - 1));
        } else {
            lemma_method_place(out, s, n - 1, id);
        }
    } else {
        assert(fun_there(start.build.image.pool, start.build.db.methods[id]));
    }
}

/// Whether two functions of the queue are defined as the same global function or the same method.
pub open spec fn same_function(a: CodeGenItemV, b: CodeGenItemV) -> bool {
    match (a, b) {
        (CodeGenItemV::AssembleGlobal(slot, _), CodeGenItemV::AssembleGlobal(other, _)) => slot
            == other,
        (CodeGenItemV::AddMethod(id, _, _), CodeGenItemV::AddMethod(other, _, _)) => id == other,
        _ => false,
    }
}

proof fn lemma_noted(out: OutputsV, s: BuildV, i: int, n: int)
    requires
        0 <= i < n <= out.items.len(),
        forall|j: int| i < j < n ==> !same_function(out.items[i], #[trigger] out.items[j]),
    ensures
        ({
            let db = define_items(out.repo, out.items, n, before_items(out, s)).build.db;
            match out.items[i] {
                CodeGenItemV::AssembleGlobal(slot, _) => db.globals.dom().contains(slot)
                    && db.globals[slot] == place(out, s, i),
                CodeGenItemV::AddMethod(id, _, _) => db.methods.dom().contains(id)
                    && db.methods[id] == place(out, s, i),
                _ => true,
            }
        }),
    decreases n,
{
    let at = define_items(out.repo, out.items, n - 1, before_items(out, s));
    let done = define_items(out.repo, out.items, n, before_items(out, s));
    assert(done == define_item(out.repo, n - 1, out.items[n - 1], at));
    if i < n - 1 {
        lemma_noted(out, s, i, n - 1);
        assert(!same_function(out.items[i], out.items[n - 1]));
    }
}

/// A global function, and a method that is added to a class and not wrapped, stands in the pool as
/// it was declared once the compilation is written, and that is where its body goes.
pub proof fn law_defined_function(out: OutputsV, s: BuildV, i: int)
    requires
        commit_ok(out, s),
        is_readable(out, s),
        0 <= i < out.items.len(),
        match out.items[i] {
            CodeGenItemV::AssembleGlobal(_, _) => true,
            CodeGenItemV::AddMethod(id, _, is_static) => !is_static && !after_items(
                out,
                s,
            ).wrappers.has(id),
            _ => false,
        },
        forall|j: int|
            i < j < out.items.len() ==> !same_function(out.items[i], #[trigger] out.items[j]),
    ensures
        ({
            let done = committed(out, s);
            let pool = done.build.image.pool;
            let idx = done.assemblies[i].function;
            &&& item_stands(
                out.repo,
                i,
                out.items[i],
                define_items(out.repo, out.items, i, before_items(out, s)).build.db,
                pool,
                idx,
            )
            &&& out.items[i] matches CodeGenItemV::AssembleGlobal(slot, _)
                ==> done.build.db.globals[slot] == idx
            &&& out.items[i] matches CodeGenItemV::AddMethod(id, _, _)
                ==> done.build.db.methods[id] == idx
        }),
{
    let n = out.items.len() as int;
    let at = after_items(out, s);
    let db = at.build.db;
    let before = at.build.image.pool;
    let pool = committed(out, s).build.image.pool;
    let idx = place(out, s, i);
    lemma_items_stand(out, s, n);
    lemma_noted(out, s, i, n);
    lemma_commit_state(out, s);
    lemma_places_rise(out, s, i, n);
    if i > 0 {
        lemma_places_rise(out, s, 0, i);
    }
    assert forall|k: int| 0 <= k < at.wrappers.keys.len() implies db.methods[
    #[trigger] at.wrappers.keys[k]] != idx by {
        let other = at.wrappers.keys[k];
        assert(at.wrappers.has(other));
        assert(db.methods.dom().contains(other));
        lemma_method_place(out, s, n, other);
        if db.methods[other] == idx {
            let j = choose|j: int|
                0 <= j < n && (#[trigger] out.items[j] matches CodeGenItemV::AddMethod(
                    it,
                    _,
                    _,
                ) && it == other) && idx == place(out, s, j);
            if j < i {
                lemma_places_rise(out, s, j, i);
            } else if i < j {
                lemma_places_rise(out, s, i, j);
            }
            assert(j == i);
        }
    }
    assert forall|k: int| 0 <= k < at.wrappers.vals.len() implies (
    #[trigger] at.wrappers.vals[k]).last() != idx by {
        let chain = at.wrappers.vals[k];
        assert(unnoted(db, at.wrappers.vals[k][chain.len() - 1]));
    }
    lemma_rotate_only(db, at.wrappers, at.wrappers.keys.len() as int, before, idx);
    lemma_rotate_all(db, at.wrappers, at.wrappers.keys.len() as int, before);
    assert(holds_types(before, pool));
    lemma_function_held(before, idx, pool, idx);
    assert(committed(out, s).assemblies[i].function == idx);
}

/// Every function of the queue is left to be given the body of its own task, with the parameters
/// that its place in the pool lists. Only a wrapper has something that it wraps. A method or static
/// function that is only given a body is where it is noted to be.
pub proof fn law_bodies_to_assemble(out: OutputsV, s: BuildV, i: int)
    requires
        commit_ok(out, s),
        0 <= i < out.items.len(),
    ensures
        ({
            let done = committed(out, s);
            let body = done.assemblies[i];
            &&& done.assemblies.len() == out.items.len()
            &&& body.parameters == fun_at(done.build.image.pool, body.function).parameters
            &&& body.wrapped is Some <==> out.items[i] is WrapMethod
            &&& match out.items[i] {
                CodeGenItemV::AssembleMethod(id, task, is_static) => {
                    &&& body.task == task
                    &&& is_static ==> body.function == done.build.db.statics[id]
                    &&& !is_static ==> body.function == done.build.db.methods[id]
                },
                CodeGenItemV::AddMethod(id, task, is_static) => {
                    &&& body.task == task
                    &&& is_static ==> body.function == done.build.db.statics[id]
                    &&& !is_static ==> body.function == done.build.db.methods[id]
                },
                CodeGenItemV::AssembleGlobal(slot, task) => body.task == task && body.function
                    == done.build.db.globals[slot],
                CodeGenItemV::WrapMethod(_, task, _) => body.task == task,
            }
        }),
{
}

/// Whether a class is what is loaded again of a declared one: its flags, its fields in order, each
/// of its type and with its flags, and its static and other functions in order, each with its
/// signature, its flags and its type.
pub open spec fn class_comes_as(class: ClassTypeV, again: ClassTypeV, repo: RepoV) -> bool {
    &&& again.flags == class.flags
    &&& again.fields.keys == class.fields.keys
    &&& again.fields.vals.len() == class.fields.keys.len()
    &&& forall|i: int|
        #![trigger again.fields.vals[i]]
        0 <= i < class.fields.keys.len() ==> {
            &&& again.fields.vals[i].typ == loaded_type(class.fields.vals[i].typ, repo)
            &&& again.fields.vals[i].flags == class.fields.vals[i].flags
        }
    &&& again.statics.entries.len() == class.statics.entries.len()
    &&& forall|i: int|
        #![trigger again.statics.entries[i]]
        0 <= i < class.statics.entries.len() ==> entry_comes_as(
            class.statics.entries[i],
            again.statics,
            i,
            repo,
        )
    &&& again.methods.entries.len() == class.methods.entries.len()
    &&& forall|i: int|
        #![trigger again.methods.entries[i]]
        0 <= i < class.methods.entries.len() ==> entry_comes_as(
            class.methods.entries[i],
            again.methods,
            i,
            repo,
        )
}

/// Whether the function at a place of a map is what is loaded again of a declared one: the same
/// signature and flags, and its type. Its name is what stands before the parameters in the
/// signature.
pub open spec fn entry_comes_as(
    entry: FuncEntryV,
    map: FuncMapV,
    slot: int,
    repo: RepoV,
) -> bool {
    let again = map.entries[slot];
    &&& again.signature == entry.signature
    &&& again.flags == entry.flags
    &&& comes_as(entry.typ, again.typ, repo)
    &&& again.base is None
    &&& map.names[again.func].name == before(entry.signature, ';')
    &&& map.names[again.func].path.len() == 0
}

/// Every class of a compilation that is written to the pool is loaded again as it was declared.
/// It extends the class that it was declared to extend, where it is known where that one is.
pub proof fn law_class_comes_back(repo: RepoV, types: Seq<Seq<char>>, s: BuildV, i: int)
    requires
        repo.is_builtin(ref_id()),
        linked(s.db, s.image.pool),
        types_build(repo, types, s),
        types_plain(repo, types),
        classes_named(s.db, s.image.pool),
        cache_sound(s.image, repo),
        s.image.pool.defs.len() > 0,
        0 <= i < types.len(),
        repo.is_class(types[i]),
    ensures
        ({
            let done = after_types(repo, types, s);
            let idx = done.db.classes[types[i]];
            let class = repo.class(types[i]);
            let again = load_class(done.image.pool, types[i], idx, DbV::empty()).0;
            &&& done.image.pool.name_of(idx) == types[i]
            &&& class_comes_as(class, again, repo)
            &&& class.extends is None ==> again.extends is None
            &&& class.extends matches Some(base) ==> done.db.classes.dom().contains(base.id)
                ==> again.extends == Some(ParameterizedV { id: base.id, args: Seq::empty() })
        }),
{
    law_classes_reload(repo, types, s, i);
    let done = after_types(repo, types, s);
    let idx = done.db.classes[types[i]];
    let class = repo.class(types[i]);
    let again = load_class(done.image.pool, types[i], idx, DbV::empty()).0;
    let funs = class_funs(class);
    let statics = class.statics.entries.len() as int;
    assert forall|k: int|
        #![trigger again.statics.entries[k]]
        0 <= k < statics implies entry_comes_as(
        class.statics.entries[k],
        again.statics,
        k,
        repo,
    ) by {
        assert(is_loaded(again.statics, k, funs[k], repo));
        lemma_comes_as(funs[k], class.statics.entries[k].typ, repo);
    }
    assert forall|k: int|
        #![trigger again.methods.entries[k]]
        0 <= k < class.methods.entries.len() implies entry_comes_as(
        class.methods.entries[k],
        again.methods,
        k,
        repo,
    ) by {
        assert(is_loaded(again.methods, k, funs[statics + k], repo));
        lemma_comes_as(funs[statics + k], class.methods.entries[k].typ, repo);
    }
}

/// Functions of a class are written one after the other, each with what its definition says of it.
proof fn lemma_methods_parts(
    methods: Seq<FunctionBuilderV>,
    n: int,
    parent: int,
    repo: RepoV,
    start: ImageV,
)
    requires
        0 <= n <= methods.len(),
    ensures
        ({
            let (end, done) = commit_methods(methods, n, parent, repo, start);
            &&& done.len() == n
            &&& forall|i: int|
                #![trigger done[i]]
                0 <= i < n ==> {
                    let def = end.pool.value(done[i])->Function_0;
                    &&& start.pool.defs.len() <= done[i] < end.pool.defs.len()
                    &&& end.pool.value(done[i]) is Function
                    &&& end.pool.defs[done[i]].parent == parent
                    &&& def.visibility == methods[i].visibility
                    &&& def.base_method == methods[i].base
                    &&& def.code == methods[i].body
                    &&& def.locals.len() == methods[i].locals.len()
                }
        }),
    decreases n,
{
    if n > 0 {
        lemma_methods_parts(methods, n - 1, parent, repo, start);
        lemma_methods_extend(methods, n - 1, parent, repo, start);
        let (mid, was) = commit_methods(methods, n - 1, parent, repo, start);
        let (end, done) = commit_methods(methods, n, parent, repo, start);
        law_function_parts(methods[n - 1], parent, repo, mid);
        law_function_commit_extends(methods[n - 1], parent, repo, mid);
        assert forall|i: int|
            #![trigger done[i]]
            0 <= i < n implies {
            let def = end.pool.value(done[i])->Function_0;
            &&& start.pool.defs.len() <= done[i] < end.pool.defs.len()
            &&& end.pool.value(done[i]) is Function
            &&& end.pool.defs[done[i]].parent == parent
            &&& def.visibility == methods[i].visibility
            &&& def.base_method == methods[i].base
            &&& def.code == methods[i].body
            &&& def.locals.len() == methods[i].locals.len()
        } by {
            if i < n - 1 {
                assert(done[i] == was[i]);
                assert(end.pool.defs[done[i]] == mid.pool.defs[done[i]]);
            }
        }
    }
}

proof fn lemma_fields_parts(
    fields: Seq<FieldBuilderV>,
    n: int,
    parent: int,
    repo: RepoV,
    start: ImageV,
)
    requires
        0 <= n <= fields.len(),
    ensures
        ({
            let (end, done) = commit_fields(fields, n, parent, repo, start);
            &&& done.len() == n
            &&& forall|i: int|
                #![trigger done[i]]
                0 <= i < n ==> {
                    let def = end.pool.value(done[i])->Field_0;
                    &&& start.pool.defs.len() <= done[i] < end.pool.defs.len()
                    &&& end.pool.value(done[i]) is Field
                    &&& end.pool.defs[done[i]].parent == parent
                    &&& def.visibility == fields[i].visibility
                    &&& def.flags == fields[i].flags
                    &&& def.hint is None
                    &&& def.attributes.len() == 0
                    &&& def.defaults.len() == 0
                }
        }),
    decreases n,
{
    if n > 0 {
        lemma_fields_parts(fields, n - 1, parent, repo, start);
        lemma_fields_extend(fields, n - 1, parent, repo, start);
        let (mid, was) = commit_fields(fields, n - 1, parent, repo, start);
        let (end, done) = commit_fields(fields, n, parent, repo, start);
        law_allocation_extends(fields[n - 1].typ, repo, mid.with_name(fields[n - 1].name));
        assert forall|i: int|
            #![trigger done[i]]
            0 <= i < n implies {
            let def = end.pool.value(done[i])->Field_0;
            &&& start.pool.defs.len() <= done[i] < end.pool.defs.len()
            &&& end.pool.value(done[i]) is Field
            &&& end.pool.defs[done[i]].parent == parent
            &&& def.visibility == fields[i].visibility
            &&& def.flags == fields[i].flags
            &&& def.hint is None
            &&& def.attributes.len() == 0
            &&& def.defaults.len() == 0
        } by {
            if i < n - 1 {
                assert(done[i] == was[i]);
                assert(end.pool.defs[done[i]] == mid.pool.defs[done[i]]);
            }
        }
    }
}

/// The first `n` members of a type are noted where the list says, and all others where they were.
proof fn lemma_noted_members(
    map: Map<MemberIdV, int>,
    id: Seq<char>,
    defs: Seq<int>,
    from: int,
    n: int,
)
    requires
        n >= 0,
    ensures
        ({
            let done = note_members(map, id, defs, from, n);
            forall|key: MemberIdV|
                #![trigger done.dom().contains(key)]
                #![trigger done[key]]
                if key.owner == id && 0 <= key.slot < n {
                    done.dom().contains(key) && done[key] == defs[from + key.slot]
                } else {
                    (done.dom().contains(key) <==> map.dom().contains(key)) && done[key] == map[key]
                }
        }),
{
    let done = note_members(map, id, defs, from, n);
    assert forall|key: MemberIdV|
        #![trigger done.dom().contains(key)]
        #![trigger done[key]]
        if key.owner == id && 0 <= key.slot < n {
            done.dom().contains(key) && done[key] == defs[from + key.slot]
        } else {
            (done.dom().contains(key) <==> map.dom().contains(key)) && done[key] == map[key]
        } by {
        lemma_note_members(map, id, defs, from, n, key);
    }
}

/// A class is defined where its place was reserved. It is private and of no other definition. Each
/// static function, each method and each field is found where it is noted to be: there it belongs
/// to the class, functions are public and without a body, fields are private, and a method tells
/// where the method that it overrides is. Members of other types stay where they were.
pub proof fn law_class_members(repo: RepoV, id: Seq<char>, s: BuildV, slot: int)
    requires
        repo.is_class(id),
        index_ok(s.db, s.image.pool),
        s.db.classes.dom().contains(id),
    ensures
        ({
            let class = repo.class(id);
            let done = class_built(repo, id, s);
            let pool = done.image.pool;
            let idx = s.db.classes[id];
            let def = pool.value(idx)->Class_0;
            let key = MemberIdV { owner: id, slot };
            &&& pool.value(idx) is Class
            &&& pool.defs[idx].parent == UNDEFINED
            &&& def.visibility == Visibility::Private
            &&& def.overrides.len() == 0
            &&& def.methods.len() == class.statics.entries.len() + class.methods.entries.len()
            &&& def.fields.len() == class.fields.keys.len()
            &&& 0 <= slot < class.statics.entries.len() ==> {
                let at = done.db.statics[key];
                let fun = fun_at(pool, at);
                &&& at == def.methods[slot]
                &&& pool.value(at) is Function
                &&& pool.defs[at].parent == idx
                &&& fun.visibility == Visibility::Public
                &&& fun.base_method is None
                &&& fun.code.len() == 0 && fun.locals.len() == 0
            }
            &&& 0 <= slot < class.methods.entries.len() ==> {
                let at = done.db.methods[key];
                let fun = fun_at(pool, at);
                let entry = class.methods.entries[slot];
                &&& at == def.methods[class.statics.entries.len() + slot]
                &&& pool.value(at) is Function
                &&& pool.defs[at].parent == idx
                &&& fun.visibility == Visibility::Public
                &&& entry.base is None ==> fun.base_method is None
                &&& entry.base matches Some(base) ==> fun.base_method == Some(s.db.methods[base])
                &&& fun.code.len() == 0 && fun.locals.len() == 0
            }
            &&& 0 <= slot < class.fields.keys.len() ==> {
                let at = done.db.fields[key];
                let field = pool.value(at)->Field_0;
                &&& at == def.fields[slot]
                &&& pool.value(at) is Field
                &&& pool.defs[at].parent == idx
                &&& field.visibility == Visibility::Private
                &&& field.flags == class.fields.vals[slot].flags
                &&& field.hint is None && field.attributes.len() == 0 && field.defaults.len() == 0
            }
            &&& forall|other: MemberIdV|
                other.owner != id ==> (#[trigger] done.db.methods.dom().contains(other)
                    <==> s.db.methods.dom().contains(other)) && done.db.methods[other]
                    == s.db.methods[other]
            &&& forall|other: MemberIdV|
                other.owner != id ==> (#[trigger] done.db.statics.dom().contains(other)
                    <==> s.db.statics.dom().contains(other)) && done.db.statics[other]
                    == s.db.statics[other]
            &&& forall|other: MemberIdV|
                other.owner != id ==> (#[trigger] done.db.fields.dom().contains(other)
                    <==> s.db.fields.dom().contains(other)) && done.db.fields[other]
                    == s.db.fields[other]
        }),
{
    let class = repo.class(id);
    let b = class_builder(id, class, s.db);
    let statics = class.statics.entries.len() as int;
    let done = class_built(repo, id, s);
    let idx = s.db.classes[id];
    let n = b.methods.len() as int;
    let m = b.fields.len() as int;
    let start = s.image.with_name(id);
    assert(class_slot(s.image.pool, idx));
    assert(grows(s.image, start));
    lemma_methods_parts(b.methods, n, idx, repo, start);
    lemma_methods_extend(b.methods, n, idx, repo, start);
    let (mid, methods) = commit_methods(b.methods, n, idx, repo, start);
    lemma_fields_parts(b.fields, m, idx, repo, mid);
    lemma_fields_extend(b.fields, m, idx, repo, mid);
    let (full, fields) = commit_fields(b.fields, m, idx, repo, mid);
    lemma_grows_trans(start, mid, full);
    let to = done.image.pool;
    let def = to.value(idx)->Class_0;
    assert(full.pool.has(idx));
    assert(def.methods == methods);
    assert(def.fields == fields);
    lemma_noted_members(s.db.fields, id, fields, 0, class.fields.keys.len() as int);
    lemma_noted_members(s.db.statics, id, methods, 0, statics);
    lemma_noted_members(s.db.methods, id, methods, statics, class.methods.entries.len() as int);
    let key = MemberIdV { owner: id, slot };
    assert forall|i: int| #![trigger methods[i]] 0 <= i < n implies to.defs[methods[i]]
        == mid.pool.defs[methods[i]] by {
        assert(full.pool.defs[methods[i]] == mid.pool.defs[methods[i]]);
    }
    assert forall|i: int| #![trigger fields[i]] 0 <= i < m implies to.defs[fields[i]]
        == full.pool.defs[fields[i]] by {
    }
    if 0 <= slot < statics {
        assert(done.db.statics[key] == methods[slot]);
    }
    if 0 <= slot < class.methods.entries.len() {
        assert(done.db.methods[key] == methods[statics + slot]);
    }
    if 0 <= slot < m {
        assert(done.db.fields[key] == fields[slot]);
    }
}

/// A parameter is written behind all that was there before, under its name, with its flags and its
/// type, and belongs to its function.
pub proof fn law_param_is_written(param: ParamBuilderV, parent: int, repo: RepoV, start: ImageV)
    requires
        repo.is_builtin(ref_id()),
        type_ok(param.typ, repo),
        plain(param.typ, repo),
        cache_sound(start, repo),
    ensures
        ({
            let (end, idx) = param.commit(parent, repo, start);
            let def = end.pool.value(idx)->Parameter_0;
            &&& idx == end.pool.defs.len() - 1
            &&& idx >= start.pool.defs.len()
            &&& end.pool.is_named(idx)
            &&& end.pool.name_of(idx) == param.name
            &&& end.pool.defs[idx].parent == parent
            &&& end.pool.value(idx) is Parameter
            &&& def.flags == param.flags
            &&& describes_as(end.pool, def.type_, loaded_type(param.typ, repo))
            &&& cache_sound(end, repo)
        }),
{
    let named = start.with_name(param.name);
    lemma_named_type(param.name, param.typ, repo, start);
    let (typed, at) = allocated(param.typ, repo, named);
    let (end, idx) = param.commit(parent, repo, start);
    assert(grows(typed, end));
    lemma_sound_grows(typed, end, repo);
    lemma_describes_extends(typed.pool, end.pool, at);
}

/// A local variable is written behind all that was there before, under its name, with its flags and
/// its type, and belongs to nothing.
pub proof fn law_local_is_written(local: LocalBuilderV, repo: RepoV, start: ImageV)
    requires
        repo.is_builtin(ref_id()),
        type_ok(local.typ, repo),
        plain(local.typ, repo),
        cache_sound(start, repo),
    ensures
        ({
            let (end, idx) = local.commit(repo, start);
            let def = end.pool.value(idx)->Local_0;
            &&& idx == end.pool.defs.len() - 1
            &&& idx >= start.pool.defs.len()
            &&& end.pool.is_named(idx)
            &&& end.pool.name_of(idx) == local.name
            &&& end.pool.defs[idx].parent == UNDEFINED
            &&& end.pool.value(idx) is Local
            &&& def.flags == local.flags
            &&& describes_as(end.pool, def.type_, loaded_type(local.typ, repo))
            &&& cache_sound(end, repo)
        }),
{
    let named = start.with_name(local.name);
    lemma_named_type(local.name, local.typ, repo, start);
    let (typed, at) = allocated(local.typ, repo, named);
    let (end, idx) = local.commit(repo, start);
    assert(grows(typed, end));
    lemma_sound_grows(typed, end, repo);
    lemma_describes_extends(typed.pool, end.pool, at);
}

/// A field is written behind all that was there before, under its name, with its visibility, its
/// flags and its type, and belongs to its class.
pub proof fn law_field_is_written(field: FieldBuilderV, parent: int, repo: RepoV, start: ImageV)
    requires
        repo.is_builtin(ref_id()),
        type_ok(field.typ, repo),
        plain(field.typ, repo),
        cache_sound(start, repo),
    ensures
        ({
            let (end, idx) = field.commit(parent, repo, start);
            let def = end.pool.value(idx)->Field_0;
            &&& idx == end.pool.defs.len() - 1
            &&& idx >= start.pool.defs.len()
            &&& end.pool.is_named(idx)
            &&& end.pool.name_of(idx) == field.name
            &&& end.pool.defs[idx].parent == parent
            &&& end.pool.value(idx) is Field
            &&& def.visibility == field.visibility
            &&& def.flags == field.flags
            &&& describes_as(end.pool, def.type_, loaded_type(field.typ, repo))
            &&& cache_sound(end, repo)
        }),
{
    let named = start.with_name(field.name);
    lemma_named_type(field.name, field.typ, repo, start);
    let (typed, at) = allocated(field.typ, repo, named);
    let (end, idx) = field.commit(parent, repo, start);
    assert(grows(typed, end));
    lemma_sound_grows(typed, end, repo);
    lemma_describes_extends(typed.pool, end.pool, at);
}

/// A name and then a type are written.
proof fn lemma_named_type(name: Seq<char>, typ: TypeV, repo: RepoV, start: ImageV)
    requires
        repo.is_builtin(ref_id()),
        type_ok(typ, repo),
        plain(typ, repo),
        cache_sound(start, repo),
    ensures
        ({
            let (typed, at) = allocated(typ, repo, start.with_name(name));
            let slot = start.pool.name_slot(name);
            &&& start.pool.defs.len() <= typed.pool.defs.len()
            &&& 0 <= slot < typed.pool.names.len()
            &&& typed.pool.names[slot] == name
            &&& describes_as(typed.pool, at, loaded_type(typ, repo))
            &&& cache_sound(typed, repo)
        }),
{
    let named = start.with_name(name);
    assert(grows(start, named));
    lemma_sound_grows(start, named, repo);
    law_type_roundtrip(typ, repo, named);
    law_allocation_extends(typ, repo, named);
    let slot = start.pool.name_slot(name);
    assert(named.pool.names[slot] == name);
    assert(allocated(typ, repo, named).0.pool.names[slot] == named.pool.names[slot]);
}

/// The parameters of a function belong to it and have the flags that they were given, and its
/// locals have the flags and names that they were given.
pub proof fn law_function_variables(fun: FunctionBuilderV, parent: int, repo: RepoV, start: ImageV)
    ensures
        ({
            let end = fun.commit(parent, repo, start).pool;
            let idx = start.pool.defs.len() as int;
            let def = end.value(idx)->Function_0;
            &&& forall|i: int|
                #![trigger def.parameters[i]]
                0 <= i < fun.params.len() ==> {
                    let at = def.parameters[i];
                    &&& end.has(at)
                    &&& end.value(at) is Parameter
                    &&& end.value(at)->Parameter_0.flags == fun.params[i].flags
                    &&& end.defs[at].parent == idx
                }
            &&& forall|i: int|
                #![trigger def.locals[i]]
                0 <= i < fun.locals.len() ==> {
                    let at = def.locals[i];
                    &&& end.has(at)
                    &&& end.value(at) is Local
                    &&& end.value(at)->Local_0.flags == fun.locals[i].flags
                    &&& end.name_of(at) == fun.locals[i].name
                }
        }),
{
    let id = start.pool.defs.len() as int;
    let named = start.with_def(reserved()).with_name(fun.name);
    law_allocation_extends(fun.return_type, repo, named);
    let typed = fun.commit_ret(repo, start).0;
    let params = fun.named_params(start.pool);
    let n = params.len() as int;
    let m = fun.locals.len() as int;
    lemma_params_extend(params, n, id, repo, typed);
    lemma_params_parts(params, n, id, repo, typed);
    let (with_params, parameters) = commit_params(params, n, id, repo, typed);
    lemma_locals_extend(fun.locals, m, repo, with_params);
    lemma_locals_parts(fun.locals, m, repo, with_params);
    let (full, locals) = commit_locals(fun.locals, m, repo, with_params);
    let end = fun.commit(parent, repo, start).pool;
    let def = end.value(id)->Function_0;
    assert(def.parameters == parameters);
    assert(def.locals == locals);
    assert forall|i: int|
        #![trigger def.parameters[i]]
        0 <= i < fun.params.len() implies {
        let at = def.parameters[i];
        &&& end.has(at)
        &&& end.value(at) is Parameter
        &&& end.value(at)->Parameter_0.flags == fun.params[i].flags
        &&& end.defs[at].parent == id
    } by {
        let at = parameters[i];
        assert(params[i].flags == fun.params[i].flags);
        assert(full.pool.defs[at] == with_params.pool.defs[at]);
        assert(end.defs[at] == full.pool.defs[at]);
    }
    assert forall|i: int|
        #![trigger def.locals[i]]
        0 <= i < fun.locals.len() implies {
        let at = def.locals[i];
        &&& end.has(at)
        &&& end.value(at) is Local
        &&& end.value(at)->Local_0.flags == fun.locals[i].flags
        &&& end.name_of(at) == fun.locals[i].name
    } by {
        let at = locals[i];
        assert(end.defs[at] == full.pool.defs[at]);
    }
}

proof fn lemma_params_parts(
    params: Seq<ParamBuilderV>,
    n: int,
    parent: int,
    repo: RepoV,
    start: ImageV,
)
    requires
        0 <= n <= params.len(),
    ensures
        ({
            let (end, done) = commit_params(params, n, parent, repo, start);
            &&& done.len() == n
            &&& forall|i: int|
                #![trigger done[i]]
                0 <= i < n ==> {
                    &&& start.pool.defs.len() <= done[i] < end.pool.defs.len()
                    &&& end.pool.value(done[i]) is Parameter
                    &&& end.pool.value(done[i])->Parameter_0.flags == params[i].flags
                    &&& end.pool.defs[done[i]].parent == parent
                }
        }),
    decreases n,
{
    if n > 0 {
        lemma_params_parts(params, n - 1, parent, repo, start);
        lemma_params_extend(params, n - 1, parent, repo, start);
        let (mid, was) = commit_params(params, n - 1, parent, repo, start);
        let (end, done) = commit_params(params, n, parent, repo, start);
        law_allocation_extends(params[n - 1].typ, repo, mid.with_name(params[n - 1].name));
        assert forall|i: int|
            #![trigger done[i]]
            0 <= i < n implies {
            &&& start.pool.defs.len() <= done[i] < end.pool.defs.len()
            &&& end.pool.value(done[i]) is Parameter
            &&& end.pool.value(done[i])->Parameter_0.flags == params[i].flags
            &&& end.pool.defs[done[i]].parent == parent
        } by {
            if i < n - 1 {
                assert(done[i] == was[i]);
                assert(end.pool.defs[done[i]] == mid.pool.defs[done[i]]);
            }
        }
    }
}

proof fn lemma_locals_parts(locals: Seq<LocalBuilderV>, n: int, repo: RepoV, start: ImageV)
    requires
        0 <= n <= locals.len(),
    ensures
        ({
            let (end, done) = commit_locals(locals, n, repo, start);
            &&& done.len() == n
            &&& forall|i: int|
                #![trigger done[i]]
                0 <= i < n ==> {
                    &&& start.pool.defs.len() <= done[i] < end.pool.defs.len()
                    &&& end.pool.value(done[i]) is Local
                    &&& end.pool.value(done[i])->Local_0.flags == locals[i].flags
                    &&& end.pool.is_named(done[i])
                    &&& end.pool.name_of(done[i]) == locals[i].name
                }
        }),
    decreases n,
{
    if n > 0 {
        let local = locals[n - 1];
        lemma_locals_parts(locals, n - 1, repo, start);
        lemma_locals_extend(locals, n - 1, repo, start);
        let (mid, was) = commit_locals(locals, n - 1, repo, start);
        let (end, done) = commit_locals(locals, n, repo, start);
        let named = mid.with_name(local.name);
        law_allocation_extends(local.typ, repo, named);
        let slot = mid.pool.name_slot(local.name);
        assert(named.pool.names[slot] == local.name);
        assert(end.pool.names[slot] == named.pool.names[slot]);
        assert forall|i: int|
            #![trigger done[i]]
            0 <= i < n implies {
            &&& start.pool.defs.len() <= done[i] < end.pool.defs.len()
            &&& end.pool.value(done[i]) is Local
            &&& end.pool.value(done[i])->Local_0.flags == locals[i].flags
            &&& end.pool.is_named(done[i])
            &&& end.pool.name_of(done[i]) == locals[i].name
        } by {
            if i < n - 1 {
                assert(done[i] == was[i]);
                assert(end.pool.defs[done[i]] == mid.pool.defs[done[i]]);
                let name = mid.pool.defs[done[i]].name;
                assert(end.pool.names[name] == mid.pool.names[name]);
            }
        }
    }
}

/// The parameters of a function that overrides nothing are named after their places.
pub proof fn law_numbered_params(
    signature: Seq<char>,
    typ: FuncTypeV,
    flags: FunctionFlags,
    parent: int,
    repo: RepoV,
    start: ImageV,
)
    ensures
        ({
            let fun = function_builder(signature, typ, flags, None);
            let end = fun.commit(parent, repo, start).pool;
            let params = fun_at(end, start.pool.defs.len() as int).parameters;
            &&& params.len() == typ.params.len()
            &&& forall|i: int|
                #![trigger params[i]]
                0 <= i < params.len() ==> end.name_of(params[i]) == "p"@ + decimal(i)
        }),
{
    let fun = function_builder(signature, typ, flags, None);
    law_param_names(fun, parent, repo, start);
}

/// An enum is defined where its place was reserved, as one of no other definition without flags.
/// Its size is the number of its members, as far as it fits into a byte. Each member is noted where it
/// is: there it belongs to the enum and has its name and its value. Members of other types stay
/// where they were.
pub proof fn law_enum_members_written(repo: RepoV, id: Seq<char>, s: BuildV, slot: int)
    requires
        repo.is_enum(id),
        index_ok(s.db, s.image.pool),
        s.db.enums.dom().contains(id),
    ensures
        ({
            let typ = repo.types.at(id)->Enum_0;
            let done = enum_built(repo, id, s);
            let pool = done.image.pool;
            let idx = s.db.enums[id];
            let def = pool.value(idx)->Enum_0;
            let key = MemberIdV { owner: id, slot };
            &&& pool.value(idx) is Enum
            &&& pool.name_of(idx) == id
            &&& pool.defs[idx].parent == UNDEFINED
            &&& def.flags == 0
            &&& typ.keys.len() < 256 ==> def.size == typ.keys.len()
            &&& def.members.len() == typ.keys.len()
            &&& 0 <= slot < typ.keys.len() ==> {
                let at = done.db.enum_members[key];
                &&& at == def.members[slot]
                &&& pool.is_named(at)
                &&& pool.name_of(at) == typ.keys[slot]
                &&& pool.value(at) == AnyDefinitionV::EnumValue(typ.vals[slot])
                &&& pool.defs[at].parent == idx
            }
            &&& forall|other: MemberIdV|
                other.owner != id ==> (#[trigger] done.db.enum_members.dom().contains(other)
                    <==> s.db.enum_members.dom().contains(other)) && done.db.enum_members[other]
                    == s.db.enum_members[other]
        }),
{
    let typ = repo.types.at(id)->Enum_0;
    let b = enum_builder(id, typ);
    let done = enum_built(repo, id, s);
    let idx = s.db.enums[id];
    let start = s.image.pool;
    let named = start.with_name(id);
    let n = b.members.len() as int;
    lemma_members_extend(b.members, n, idx, named);
    lemma_enum_parts(b.members, n, idx, named);
    let full = commit_members(b.members, n, idx, named);
    let pool = done.image.pool;
    assert(enum_slot(start, idx));
    assert(full.has(idx));
    let members = pool.value(idx)->Enum_0.members;
    lemma_noted_members(s.db.enum_members, id, members, 0, n);
    let name = start.name_slot(id);
    assert(named.names[name] == id);
    assert(full.names[name] == named.names[name]);
    if 0 <= slot < n {
        let key = MemberIdV { owner: id, slot };
        assert(done.db.enum_members[key] == members[slot]);
        let at = start.defs.len() + slot;
        assert(members[slot] == at);
        assert(pool.defs[at] == full.defs[at]);
    }
}

proof fn lemma_enum_parts(members: Seq<EnumMemberV>, n: int, parent: int, start: PoolV)
    requires
        0 <= n <= members.len(),
    ensures
        ({
            let end = commit_members(members, n, parent, start);
            forall|i: int|
                #![trigger end.defs[start.defs.len() + i]]
                0 <= i < n ==> {
                    let at = start.defs.len() + i;
                    &&& end.is_named(at)
                    &&& end.name_of(at) == members[i].name
                    &&& end.value(at) == AnyDefinitionV::EnumValue(members[i].value)
                    &&& end.defs[at].parent == parent
                }
        }),
    decreases n,
{
    if n > 0 {
        lemma_enum_parts(members, n - 1, parent, start);
        lemma_members_extend(members, n - 1, parent, start);
        let mid = commit_members(members, n - 1, parent, start);
        let end = commit_members(members, n, parent, start);
        let named = mid.with_name(members[n - 1].name);
        assert(named.names[mid.name_slot(members[n - 1].name)] == members[n - 1].name);
        assert forall|i: int|
            #![trigger end.defs[start.defs.len() + i]]
            0 <= i < n implies {
            let at = start.defs.len() + i;
            &&& end.is_named(at)
            &&& end.name_of(at) == members[i].name
            &&& end.value(at) == AnyDefinitionV::EnumValue(members[i].value)
            &&& end.defs[at].parent == parent
        } by {
            let at = start.defs.len() + i;
            if i < n - 1 {
                assert(end.defs[at] == mid.defs[at]);
                assert(mid.is_named(at));
                assert(end.names[mid.defs[at].name] == mid.names[mid.defs[at].name]);
            }
        }
    }
}

/// Whether a function overrides nothing and has types that can be described.
pub open spec fn is_simple(entry: FuncEntryV, repo: RepoV) -> bool {
    entry.base is None && func_types_ok(repo, entry.typ)
}

/// Whether it will be known where a class is once a compilation is written.
pub open spec fn class_known(out: OutputsV, s: BuildV, id: Seq<char>) -> bool {
    (out.defined.contains(id) && out.repo.is_class(id)) || s.db.classes.dom().contains(id)
}

/// A compilation in which nothing overrides anything can be written to the pool: one whose types
/// are in the repository and have members of types that can be described, and whose functions are
/// global ones, methods of these types, methods that are added to classes that are known, and
/// wrappers of methods that are known.
pub proof fn law_simple_compilation(out: OutputsV, s: BuildV)
    requires
        out.repo.is_builtin("ref"@),
        linked(s.db, s.image.pool),
        forall|i: int| 0 <= i < out.defined.len() ==> out.repo.has(#[trigger] out.defined[i]),
        forall|i: int, k: int|
            #![trigger out.repo.class(out.defined[i]).fields.vals[k]]
            0 <= i < out.defined.len() && out.repo.is_class(out.defined[i]) && 0 <= k
                < out.repo.class(out.defined[i]).fields.keys.len() ==> type_ok(
                out.repo.class(out.defined[i]).fields.vals[k].typ,
                out.repo,
            ),
        forall|i: int, k: int|
            #![trigger out.repo.class(out.defined[i]).statics.entries[k]]
            0 <= i < out.defined.len() && out.repo.is_class(out.defined[i]) && 0 <= k
                < out.repo.class(out.defined[i]).statics.entries.len() ==> is_simple(
                out.repo.class(out.defined[i]).statics.entries[k],
                out.repo,
            ),
        forall|i: int, k: int|
            #![trigger out.repo.class(out.defined[i]).methods.entries[k]]
            0 <= i < out.defined.len() && out.repo.is_class(out.defined[i]) && 0 <= k
                < out.repo.class(out.defined[i]).methods.entries.len() ==> is_simple(
                out.repo.class(out.defined[i]).methods.entries[k],
                out.repo,
            ),
        forall|i: int|
            0 <= i < out.items.len() ==> match #[trigger] out.items[i] {
                CodeGenItemV::AssembleGlobal(slot, _) => out.repo.globals.has(slot)
                    && func_types_ok(out.repo, out.repo.globals.entries[slot].typ),
                CodeGenItemV::AssembleMethod(id, _, is_static) => {
                    &&& !is_static
                    &&& out.defined.contains(id.owner)
                    &&& out.repo.is_class(id.owner)
                    &&& out.repo.class(id.owner).methods.has(id.slot)
                },
                CodeGenItemV::AddMethod(id, _, is_static) => {
                    &&& !is_static
                    &&& out.repo.has_method(id)
                    &&& is_simple(out.repo.class(id.owner).methods.entries[id.slot], out.repo)
                    &&& class_known(out, s, id.owner)
                },
                CodeGenItemV::WrapMethod(id, _, is_static) => {
                    &&& !is_static
                    &&& out.repo.has_method(id)
                    &&& is_simple(out.repo.class(id.owner).methods.entries[id.slot], out.repo)
                    &&& class_known(out, s, id.owner)
                    &&& out.defined.contains(id.owner) || (s.db.methods.dom().contains(id)
                        && fun_ok(s.image.pool, s.db.methods[id]))
                },
            },
    ensures
        commit_ok(out, s),
{
    let repo = out.repo;
    let types = out.defined;
    let start = before_items(out, s);
    let n = out.items.len() as int;
    assert(types_build(repo, types, s));
    lemma_types_step(repo, types, types.len() as int, s);
    assert(items_define(repo, out.items, start)) by {
        reveal(items_define);
        assert forall|i: int| 0 <= i < n implies item_defines(
            repo,
            #[trigger] out.items[i],
            define_items(repo, out.items, i, start).build.db,
        ) by {
            lemma_classes_known(out, s, i);
        }
    }
    lemma_define_items(repo, out.items, n, start);
    assert(types.take(types.len() as int) =~= types);
    assert forall|i: int| 0 <= i < n implies item_known(
        #[trigger] out.items[i],
        after_items(out, s).build.db,
    ) by {
        let id = match out.items[i] {
            CodeGenItemV::AssembleMethod(id, _, _) | CodeGenItemV::WrapMethod(id, _, _) => Some(id),
            _ => None,
        };
        if let Some(id) = id {
            if types.contains(id.owner) {
                assert(method_defined(repo, types, types.len() as int, id));
            }
            assert(start.build.db.methods.dom().contains(id));
            assert(after_items(out, s).build.db.methods.dom().contains(id)) by {
                if is_added(out.items, n, id) {
                }
            }
        }
    }
    assert forall|i: int| 0 <= i < n implies #[trigger] item_fits(out, i, s) by {
        assert(out.items[i] == out.items[i]);
        if let CodeGenItemV::WrapMethod(id, _, _) = out.items[i] {
            if types.contains(id.owner) {
                assert(method_defined(repo, types, types.len() as int, id));
            }
        }
    }
}

/// It is known where a class is when the functions of the queue are defined.
proof fn lemma_classes_known(out: OutputsV, s: BuildV, n: int)
    requires
        linked(s.db, s.image.pool),
        types_build(out.repo, out.defined, s),
    ensures
        forall|id: Seq<char>|
            class_known(out, s, id) ==> #[trigger] define_items(
                out.repo,
                out.items,
                n,
                before_items(out, s),
            ).build.db.classes.dom().contains(id),
    decreases n,
{
    if n > 0 {
        lemma_classes_known(out, s, n - 1);
        let at = define_items(out.repo, out.items, n - 1, before_items(out, s));
        let done = define_items(out.repo, out.items, n, before_items(out, s));
        assert(done.build.db.classes == at.build.db.classes);
    } else {
        let total = out.defined.len() as int;
        lemma_types_step(out.repo, out.defined, total, s);
        lemma_types_reserved(out.repo, out.defined, total, s);
        let start = types_reserved(out.repo, out.defined, total, s);
        assert forall|id: Seq<char>| class_known(
            out,
            s,
            id,
        ) implies #[trigger] start.db.classes.dom().contains(id) by {
            if out.defined.contains(id) && out.repo.is_class(id) {
                let i = choose|i: int| 0 <= i < out.defined.len() && out.defined[i] == id;
                assert(start.db.classes.dom().contains(out.defined[i]));
            }
        }
        assert(before_items(out, s).build.db.classes == start.db.classes);
    }
}

} // verus!
