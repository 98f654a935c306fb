//! What a compilation leaves as it was in the constant pool.
use vstd::prelude::*;

use crate::assemble::{
    define_item, define_items, global_builder, item_defines, items_define, lemma_define_items,
    member_entry, wrapper_builder, wrappers_ok, DefineV,
};
use crate::builders::{law_class_commit, law_function_commit_extends};
use crate::commit::{
    base_class_index, class_builder, class_slot, entry_builder, fun_ok, lemma_build_class,
    lemma_build_enum, lemma_types_reserved, linked, types_build, types_built, types_reserved,
    BuildV,
};
use crate::db::DbV;
use crate::dict::DictV;
use crate::outputs::{
    after_items, before_items, commit_ok, committed, lemma_types_step, lemma_wrapped_ok,
};
use crate::pool::{AnyDefinitionV, DefinitionV, PoolClassV, PoolV, UNDEFINED};
use crate::queue::{CodeGenItemV, OutputsV};
use crate::repo::RepoV;
use crate::tables::MemberIdV;
use crate::type_cache::{grows, ImageV};
use crate::wrap::{
    align_names, copy_locals, fun_at, lemma_rotate_all, move_callback, rotate_all, rotated, shorter,
    wrapped_ok,
};

verus! {

/// Whether a definition is left as it was. A class may have further functions behind those that it
/// had, a function may change, and a parameter may have another name.
pub open spec fn kept(before: DefinitionV, after: DefinitionV) -> bool {
    match before.value {
        AnyDefinitionV::Class(class) => {
            &&& after.name == before.name
            &&& after.parent == before.parent
            &&& after.value matches AnyDefinitionV::Class(done)
            &&& done == (PoolClassV { methods: done.methods, ..class })
            &&& class.methods.is_prefix_of(done.methods)
        },
        AnyDefinitionV::Function(_) => after.value is Function,
        AnyDefinitionV::Parameter(_) => {
            after.value == before.value && after.parent == before.parent
        },
        _ => after == before,
    }
}

/// Whether all names and definitions of a pool are left as they were.
pub open spec fn keeps(before: PoolV, after: PoolV) -> bool {
    &&& before.names.len() <= after.names.len()
    &&& before.defs.len() <= after.defs.len()
    &&& forall|i: int|
        0 <= i < before.names.len() ==> #[trigger] after.names[i] == before.names[i]
    &&& forall|i: int|
        0 <= i < before.defs.len() ==> kept(before.defs[i], #[trigger] after.defs[i])
}

/// Whether the types that were described are still found where they were.
pub open spec fn cached(before: ImageV, after: ImageV) -> bool {
    forall|name: Seq<char>| #[trigger]
        before.cache.dom().contains(name) ==> after.cache.dom().contains(name)
            && after.cache[name] == before.cache[name]
}

proof fn lemma_kept_trans(a: DefinitionV, b: DefinitionV, c: DefinitionV)
    requires
        kept(a, b),
        kept(b, c),
    ensures
        kept(a, c),
{
    if let AnyDefinitionV::Class(class) = a.value {
        let mid = b.value->Class_0.methods;
        let done = c.value->Class_0.methods;
        assert forall|i: int| 0 <= i < class.methods.len() implies class.methods[i] == done[i] by {
            assert(class.methods[i] == mid[i]);
            assert(mid[i] == done[i]);
        }
        assert(class.methods =~= done.subrange(0, class.methods.len() as int));
    }
}

/// What is kept stays kept when nothing that was there at the start changes.
proof fn lemma_keeps_step(start: PoolV, at: PoolV, done: PoolV)
    requires
        keeps(start, at),
        at.names.len() <= done.names.len(),
        at.defs.len() <= done.defs.len(),
        forall|i: int| 0 <= i < at.names.len() ==> #[trigger] done.names[i] == at.names[i],
        forall|i: int| 0 <= i < start.defs.len() ==> kept(at.defs[i], #[trigger] done.defs[i]),
    ensures
        keeps(start, done),
{
    assert forall|i: int| 0 <= i < start.names.len() implies #[trigger] done.names[i]
        == start.names[i] by {
        assert(at.names[i] == start.names[i]);
    }
    assert forall|i: int| 0 <= i < start.defs.len() implies kept(
        start.defs[i],
        #[trigger] done.defs[i],
    ) by {
        assert(kept(start.defs[i], at.defs[i]));
        lemma_kept_trans(start.defs[i], at.defs[i], done.defs[i]);
    }
}

proof fn lemma_kept_same(def: DefinitionV)
    ensures
        kept(def, def),
{
    if let AnyDefinitionV::Class(class) = def.value {
        assert(class.methods =~= class.methods.subrange(0, class.methods.len() as int));
    }
}

/// The places that are reserved for types are new.
pub proof fn lemma_reserved_new(repo: RepoV, types: Seq<Seq<char>>, n: int, s: BuildV)
    requires
        0 <= n <= types.len(),
    ensures
        ({
            let done = types_reserved(repo, types, n, s);
            &&& keeps(s.image.pool, done.image.pool)
            &&& done.image.cache == s.image.cache
            &&& forall|i: int|
                #![trigger types[i]]
                0 <= i < n ==> {
                    &&& repo.is_class(types[i]) ==> s.image.pool.defs.len()
                        <= done.db.classes[types[i]]
                    &&& repo.is_enum(types[i]) ==> s.image.pool.defs.len()
                        <= done.db.enums[types[i]]
                }
        }),
    decreases n,
{
    assert forall|i: int| 0 <= i < s.image.pool.defs.len() implies kept(
        s.image.pool.defs[i],
        s.image.pool.defs[i],
    ) by {
        lemma_kept_same(s.image.pool.defs[i]);
    }
    if n > 0 {
        lemma_reserved_new(repo, types, n - 1, s);
        let at = types_reserved(repo, types, n - 1, s);
        let done = types_reserved(repo, types, n, s);
        assert forall|i: int| 0 <= i < s.image.pool.defs.len() implies kept(
            at.image.pool.defs[i],
            #[trigger] done.image.pool.defs[i],
        ) by {
            lemma_kept_same(at.image.pool.defs[i]);
        }
        lemma_keeps_step(s.image.pool, at.image.pool, done.image.pool);
    }
}

pub proof fn lemma_types_keep(repo: RepoV, types: Seq<Seq<char>>, n: int, s: BuildV)
    requires
        linked(s.db, s.image.pool),
        types_build(repo, types, s),
        0 <= n <= types.len(),
    ensures
        ({
            let start = types_reserved(repo, types, types.len() as int, s);
            let done = types_built(repo, types, n, start);
            &&& keeps(s.image.pool, done.image.pool)
            &&& cached(s.image, done.image)
        }),
    decreases n,
{
    let start = types_reserved(repo, types, types.len() as int, s);
    lemma_reserved_new(repo, types, types.len() as int, s);
    if n > 0 {
        lemma_types_keep(repo, types, n - 1, s);
        lemma_types_step(repo, types, n - 1, s);
        let at = types_built(repo, types, n - 1, start);
        let done = types_built(repo, types, n, start);
        let id = types[n - 1];
        assert(repo.has(id));
        if repo.is_class(id) {
            let b = class_builder(id, repo.class(id), at.db);
            let idx = at.db.classes[id];
            lemma_build_class(repo, id, at);
            assert(class_slot(at.image.pool, idx));
            law_class_commit(
                b,
                idx,
                base_class_index(at.db, repo.class(id).extends),
                repo,
                at.image,
            );
            let filled = ImageV {
                pool: at.image.pool.put(idx, done.image.pool.defs[idx]),
                ..at.image
            };
            assert(grows(filled, done.image));
            assert forall|name: Seq<char>| #[trigger]
                at.image.cache.dom().contains(name) implies done.image.cache.dom().contains(name)
                && done.image.cache[name] == at.image.cache[name] by {
                assert(filled.cache.dom().contains(name));
            }
        } else if repo.is_enum(id) {
            lemma_build_enum(repo, id, at);
        }
        assert forall|i: int| 0 <= i < s.image.pool.defs.len() implies kept(
            at.image.pool.defs[i],
            #[trigger] done.image.pool.defs[i],
        ) by {
            lemma_kept_same(at.image.pool.defs[i]);
        }
        lemma_keeps_step(s.image.pool, at.image.pool, done.image.pool);
    }
}

/// A function that is defined, and one more function of a class, leave everything as it was.
pub proof fn lemma_item_keeps(repo: RepoV, i: int, item: CodeGenItemV, s: DefineV)
    requires
        linked(s.build.db, s.build.image.pool),
        item_defines(repo, item, s.build.db),
    ensures
        ({
            let done = define_item(repo, i, item, s);
            let at = s.build.image;
            let end = done.build.image;
            &&& at.pool.names.len() <= end.pool.names.len()
            &&& at.pool.defs.len() <= end.pool.defs.len()
            &&& forall|k: int|
                0 <= k < at.pool.names.len() ==> #[trigger] end.pool.names[k] == at.pool.names[k]
            &&& forall|k: int|
                0 <= k < at.pool.defs.len() ==> kept(at.pool.defs[k], #[trigger] end.pool.defs[k])
            &&& cached(at, end)
        }),
{
    let at = s.build.image;
    let db = s.build.db;
    let end = define_item(repo, i, item, s).build.image;
    let (fun, parent) = match item {
        CodeGenItemV::AssembleGlobal(slot, _) => (
            Some(global_builder(repo.globals.entries[slot])),
            UNDEFINED as int,
        ),
        CodeGenItemV::AddMethod(id, _, is_static) => (
            Some(
                entry_builder(
                    member_entry(repo, id, is_static),
                    db,
                ),
            ),
            db.classes[id.owner],
        ),
        CodeGenItemV::WrapMethod(id, _, is_static) => (
            Some(
                wrapper_builder(
                    i,
                    member_entry(repo, id, is_static),
                    db,
                ),
            ),
            db.classes[id.owner],
        ),
        CodeGenItemV::AssembleMethod(_, _, _) => (None, 0),
    };
    if let Some(fun) = fun {
        law_function_commit_extends(fun, parent, repo, at);
        let mid = fun.commit(parent, repo, at);
        assert forall|k: int| 0 <= k < at.pool.defs.len() implies kept(
            at.pool.defs[k],
            #[trigger] end.pool.defs[k],
        ) by {
            lemma_kept_same(at.pool.defs[k]);
            assert(mid.pool.defs[k] == at.pool.defs[k]);
            if !(item is AssembleGlobal) && k == parent {
                assert(class_slot(at.pool, parent));
                let was = at.pool.value(k)->Class_0.methods;
                let now = end.pool.value(k)->Class_0.methods;
                assert(was =~= now.subrange(0, was.len() as int));
            }
        }
    } else {
        assert forall|k: int| 0 <= k < at.pool.defs.len() implies kept(
            at.pool.defs[k],
            #[trigger] end.pool.defs[k],
        ) by {
            lemma_kept_same(at.pool.defs[k]);
        }
    }
}

pub proof fn lemma_item_leaves(repo: RepoV, i: int, item: CodeGenItemV, s: DefineV, k: int)
    requires
        linked(s.build.db, s.build.image.pool),
        item_defines(repo, item, s.build.db),
        s.build.image.pool.has(k),
        !(s.build.image.pool.value(k) is Class),
    ensures
        define_item(repo, i, item, s).build.image.pool.defs[k] == s.build.image.pool.defs[k],
{
    let image = s.build.image;
    let db = s.build.db;
    match item {
        CodeGenItemV::AssembleGlobal(slot, _) => {
            law_function_commit_extends(
                global_builder(repo.globals.entries[slot]),
                UNDEFINED as int,
                repo,
                image,
            );
        },
        CodeGenItemV::AddMethod(id, _, is_static) => {
            let class = db.classes[id.owner];
            assert(class_slot(image.pool, class));
            let fun = entry_builder(member_entry(repo, id, is_static), db);
            law_function_commit_extends(fun, class, repo, image);
            assert(fun.commit(class, repo, image).pool.defs[k] == image.pool.defs[k]);
        },
        CodeGenItemV::WrapMethod(id, _, is_static) => {
            let class = db.classes[id.owner];
            assert(class_slot(image.pool, class));
            let fun = wrapper_builder(i, member_entry(repo, id, is_static), db);
            law_function_commit_extends(fun, class, repo, image);
            assert(fun.commit(class, repo, image).pool.defs[k] == image.pool.defs[k]);
        },
        CodeGenItemV::AssembleMethod(_, _, _) => {},
    }
}

pub proof fn lemma_types_leave(repo: RepoV, types: Seq<Seq<char>>, n: int, s: BuildV, k: int)
    requires
        linked(s.db, s.image.pool),
        types_build(repo, types, s),
        0 <= n <= types.len(),
        s.image.pool.has(k),
    ensures
        types_built(
            repo,
            types,
            n,
            types_reserved(repo, types, types.len() as int, s),
        ).image.pool.defs[k] == s.image.pool.defs[k],
    decreases n,
{
    let start = types_reserved(repo, types, types.len() as int, s);
    lemma_reserved_new(repo, types, types.len() as int, s);
    if n > 0 {
        lemma_types_leave(repo, types, n - 1, s, k);
        lemma_types_keep(repo, types, n - 1, s);
        lemma_types_step(repo, types, n - 1, s);
        let at = types_built(repo, types, n - 1, start);
        let id = types[n - 1];
        assert(repo.has(id));
        assert(at.image.pool.defs[k] == s.image.pool.defs[k]);
        if repo.is_class(id) {
            lemma_build_class(repo, id, at);
        } else if repo.is_enum(id) {
            lemma_build_enum(repo, id, at);
        }
    } else {
        lemma_types_reserved(repo, types, types.len() as int, s);
    }
}

proof fn lemma_items_keep(out: OutputsV, s: BuildV, n: int)
    requires
        commit_ok(out, s),
        0 <= n <= out.items.len(),
    ensures
        ({
            let done = define_items(out.repo, out.items, n, before_items(out, s)).build.image;
            &&& keeps(s.image.pool, done.pool)
            &&& cached(s.image, done)
        }),
    decreases n,
{
    let start = before_items(out, s);
    let types = out.defined.len() as int;
    lemma_types_step(out.repo, out.defined, types, s);
    if n > 0 {
        lemma_items_keep(out, s, n - 1);
        lemma_define_items(out.repo, out.items, n - 1, start);
        let at = define_items(out.repo, out.items, n - 1, start);
        lemma_item_keeps(out.repo, n - 1, out.items[n - 1], at);
        lemma_keeps_step(
            s.image.pool,
            at.build.image.pool,
            define_items(out.repo, out.items, n, start).build.image.pool,
        );
    } else {
        lemma_types_keep(out.repo, out.defined, types, s);
    }
}

/// Defining types and functions leaves every function as it was.
pub proof fn lemma_functions_stay(out: OutputsV, s: BuildV, n: int, i: int)
    requires
        commit_ok(out, s),
        0 <= n <= out.items.len(),
        s.image.pool.has(i),
        s.image.pool.value(i) is Function,
    ensures
        define_items(out.repo, out.items, n, before_items(out, s)).build.image.pool.defs[i]
            == s.image.pool.defs[i],
    decreases n,
{
    let start = before_items(out, s);
    let types = out.defined.len() as int;
    if n > 0 {
        lemma_functions_stay(out, s, n - 1, i);
        lemma_types_step(out.repo, out.defined, types, s);
        lemma_define_items(out.repo, out.items, n - 1, start);
        lemma_items_keep(out, s, n - 1);
        let at = define_items(out.repo, out.items, n - 1, start);
        lemma_item_leaves(out.repo, n - 1, out.items[n - 1], at, i);
    } else {
        lemma_types_leave(out.repo, out.defined, types, s, i);
    }
}

/// A compilation leaves the names and definitions that were there before as they were, but for
/// three things: classes get further functions behind those that they had, functions may change,
/// and parameters may take other names. Types that were described are found where they were.
pub proof fn law_commit_keeps(out: OutputsV, s: BuildV)
    requires
        commit_ok(out, s),
    ensures
        keeps(s.image.pool, committed(out, s).build.image.pool),
        cached(s.image, committed(out, s).build.image),
{
    let n = out.items.len() as int;
    let start = before_items(out, s);
    lemma_types_step(out.repo, out.defined, out.defined.len() as int, s);
    lemma_define_items(out.repo, out.items, n, start);
    lemma_items_keep(out, s, n);
    lemma_wrapped_ok(out, s);
    let at = after_items(out, s);
    let pool = at.build.image.pool;
    lemma_rotate_all(at.build.db, at.wrappers, at.wrappers.keys.len() as int, pool);
    let done = committed(out, s).build.image.pool;
    assert forall|i: int| 0 <= i < s.image.pool.defs.len() implies kept(
        pool.defs[i],
        #[trigger] done.defs[i],
    ) by {
        lemma_kept_same(pool.defs[i]);
        assert(done.defs[i] == done.defs[i]);
    }
    lemma_keeps_step(s.image.pool, pool, done);
}

/// When the last wrapper takes the place of a method, nothing changes but the two and the names of
/// the parameters of the wrapper.
pub proof fn lemma_rotated_only(pool: PoolV, wrapped: int, last: int, i: int)
    requires
        fun_ok(pool, wrapped),
        fun_ok(pool, last),
        pool.has(i),
        i != wrapped,
        i != last,
        !fun_at(pool, last).parameters.contains(i),
    ensures
        rotated(pool, wrapped, last).defs[i] == pool.defs[i],
{
    let moved = move_callback(pool, wrapped, last);
    let from = fun_at(moved, wrapped).parameters;
    let to = fun_at(moved, last).parameters;
    let n = shorter(from, to);
    let aligned = align_names(moved, from, to, n);
    assert(to == fun_at(pool, last).parameters);
    assert(from == fun_at(pool, wrapped).parameters);
    assert forall|k: int| 0 <= k < to.len() implies moved.has(#[trigger] to[k]) && to[k] != i by {
        assert(pool.value(to[k]) is Parameter);
        assert(to.contains(to[k]));
    }
    lemma_aligned_only(moved, from, to, n, i);
    let fun = fun_at(aligned, wrapped);
    lemma_copied_only(aligned, fun.locals, fun.locals.len() as int, last, i);
}

proof fn lemma_aligned_only(pool: PoolV, from: Seq<int>, to: Seq<int>, n: int, i: int)
    requires
        pool.has(i),
        0 <= n <= to.len(),
        forall|k: int| 0 <= k < to.len() ==> pool.has(#[trigger] to[k]) && to[k] != i,
    ensures
        align_names(pool, from, to, n).defs.len() == pool.defs.len(),
        align_names(pool, from, to, n).defs[i] == pool.defs[i],
    decreases n,
{
    if n > 0 {
        lemma_aligned_only(pool, from, to, n - 1, i);
        assert(to[n - 1] != i);
    }
}

proof fn lemma_copied_only(pool: PoolV, locals: Seq<int>, n: int, parent: int, i: int)
    requires
        pool.has(i),
    ensures
        copy_locals(pool, locals, n, parent).defs.len() >= pool.defs.len(),
        copy_locals(pool, locals, n, parent).defs[i] == pool.defs[i],
    decreases n,
{
    if n > 0 {
        lemma_copied_only(pool, locals, n - 1, parent, i);
    }
}

/// Wrappers are new functions.
proof fn lemma_wrappers_new(repo: RepoV, items: Seq<CodeGenItemV>, n: int, s: DefineV, bound: int)
    requires
        linked(s.build.db, s.build.image.pool),
        wrappers_ok(s.wrappers, s.build.image.pool),
        items_define(repo, items, s),
        0 <= n <= items.len(),
        bound <= s.build.image.pool.defs.len(),
        forall|i: int, k: int|
            #![trigger s.wrappers.vals[i][k]]
            0 <= i < s.wrappers.vals.len() && 0 <= k < s.wrappers.vals[i].len() ==> bound
                <= s.wrappers.vals[i][k],
    ensures
        ({
            let done = define_items(repo, items, n, s);
            &&& bound <= done.build.image.pool.defs.len()
            &&& forall|i: int, k: int|
                #![trigger done.wrappers.vals[i][k]]
                0 <= i < done.wrappers.vals.len() && 0 <= k < done.wrappers.vals[i].len() ==> bound
                    <= done.wrappers.vals[i][k]
        }),
    decreases n,
{
    if n > 0 {
        lemma_wrappers_new(repo, items, n - 1, s, bound);
        lemma_define_items(repo, items, n - 1, s);
        let at = define_items(repo, items, n - 1, s);
        let done = define_items(repo, items, n, s);
        let image = at.build.image;
        let db = at.build.db;
        match items[n - 1] {
            CodeGenItemV::AssembleGlobal(slot, _) => {
                law_function_commit_extends(
                    global_builder(repo.globals.entries[slot]),
                    UNDEFINED as int,
                    repo,
                    image,
                );
            },
            CodeGenItemV::AddMethod(id, _, is_static) => {
                assert(class_slot(image.pool, db.classes[id.owner]));
                law_function_commit_extends(
                    entry_builder(member_entry(repo, id, is_static), db),
                    db.classes[id.owner],
                    repo,
                    image,
                );
            },
            CodeGenItemV::WrapMethod(id, _, is_static) => {
                assert(class_slot(image.pool, db.classes[id.owner]));
                let fun = wrapper_builder(n - 1, member_entry(repo, id, is_static), db);
                law_function_commit_extends(fun, db.classes[id.owner], repo, image);
                let idx = fun.index(image);
                let chain = match at.wrappers.get(id) {
                    Some(chain) => chain.push(idx),
                    None => seq![idx],
                };
                at.wrappers.lemma_put(id, chain);
                assert forall|i: int, k: int|
                    #![trigger done.wrappers.vals[i][k]]
                    0 <= i < done.wrappers.vals.len() && 0 <= k
                        < done.wrappers.vals[i].len() implies bound <= done.wrappers.vals[i][k] by {
                    if i != at.wrappers.slot(id) {
                        assert(done.wrappers.vals[i][k] == at.wrappers.vals[i][k]);
                    } else if k < chain.len() - 1 {
                        assert(done.wrappers.vals[i][k] == at.wrappers.vals[i][k]);
                    }
                }
            },
            CodeGenItemV::AssembleMethod(_, _, _) => {},
        }
    }
}

pub proof fn lemma_rotate_only(
    db: DbV,
    wrappers: DictV<MemberIdV, Seq<int>>,
    n: int,
    pool: PoolV,
    i: int,
)
    requires
        linked(db, pool),
        wrappers_ok(wrappers, pool),
        wrapped_ok(db, wrappers, pool),
        0 <= n <= wrappers.keys.len(),
        pool.has(i),
        pool.value(i) is Function,
        forall|k: int| 0 <= k < wrappers.keys.len() ==> db.methods[#[trigger] wrappers.keys[k]] != i,
        forall|k: int|
            0 <= k < wrappers.vals.len() ==> (#[trigger] wrappers.vals[k]).last() != i,
    ensures
        rotate_all(db, wrappers, n, pool).defs[i] == pool.defs[i],
    decreases n,
{
    if n > 0 {
        lemma_rotate_only(db, wrappers, n - 1, pool, i);
        lemma_rotate_all(db, wrappers, n - 1, pool);
        let at = rotate_all(db, wrappers, n - 1, pool);
        let key = wrappers.keys[n - 1];
        let chain = wrappers.vals[n - 1];
        assert(db.methods.dom().contains(key));
        assert(fun_ok(at, wrappers.vals[n - 1][chain.len() - 1]));
        assert(!fun_at(at, chain.last()).parameters.contains(i)) by {
            let params = fun_at(at, chain.last()).parameters;
            if params.contains(i) {
                let k = choose|k: int| 0 <= k < params.len() && params[k] == i;
                assert(at.value(params[k]) is Parameter);
            }
        }
        lemma_rotated_only(at, db.methods[key], chain.last(), i);
    }
}

/// A compilation leaves every function that it does not wrap as it was: its name, its flags, its
/// parameters, its locals and its code.
pub proof fn law_other_functions_stay(out: OutputsV, s: BuildV, i: int)
    requires
        commit_ok(out, s),
        s.image.pool.has(i),
        s.image.pool.value(i) is Function,
        forall|id: MemberIdV| #[trigger]
            after_items(out, s).wrappers.has(id) ==> after_items(out, s).build.db.methods[id] != i,
    ensures
        committed(out, s).build.image.pool.defs[i] == s.image.pool.defs[i],
{
    let n = out.items.len() as int;
    let start = before_items(out, s);
    let types = out.defined.len() as int;
    lemma_types_step(out.repo, out.defined, types, s);
    lemma_define_items(out.repo, out.items, n, start);
    lemma_wrapped_ok(out, s);
    lemma_types_keep(out.repo, out.defined, types, s);
    lemma_wrappers_new(out.repo, out.items, n, start, s.image.pool.defs.len() as int);
    let at = after_items(out, s);
    let pool = at.build.image.pool;
    lemma_functions_stay(out, s, n, i);
    assert forall|k: int| 0 <= k < at.wrappers.keys.len() implies at.build.db.methods[
    #[trigger] at.wrappers.keys[k]] != i by {
        assert(at.wrappers.has(at.wrappers.keys[k]));
    }
    assert forall|k: int| 0 <= k < at.wrappers.vals.len() implies (
    #[trigger] at.wrappers.vals[k]).last() != i by {
        let chain = at.wrappers.vals[k];
        assert(at.wrappers.vals[k][chain.len() - 1] >= s.image.pool.defs.len());
    }
    lemma_rotate_only(at.build.db, at.wrappers, at.wrappers.keys.len() as int, pool, i);
}

} // verus!
