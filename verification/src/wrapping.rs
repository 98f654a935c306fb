//! What a whole compilation makes of a method that it wraps.
use vstd::prelude::*;

use crate::assemble::{
    add_wrapper, adds, define_item, define_items, global_builder, is_added, item_defines,
    items_define, lemma_added_step, lemma_define_items, member_entry, wrapper_builder, wrappers_ok,
    DefineV,
};
use crate::builders::{
    commit_locals, commit_params, law_function_commit_extends, lemma_params_extend,
    FunctionBuilderV, ParamBuilderV,
};
use crate::commit::{
    class_slot, entry_builder, fun_ok, fun_there, lemma_function_there, linked, method_defined,
    BuildV,
};
use crate::db::DbV;
use crate::dict::DictV;
use crate::flags::FunctionFlags;
use crate::frame::{lemma_functions_stay, lemma_item_leaves, lemma_rotated_only};
use crate::outputs::{
    after_items, before_items, commit_ok, committed, defined_by, item_fits, item_known,
    law_wrapper_chain, lemma_methods_stay, lemma_places, lemma_rank_grows, lemma_some_wrapper,
    lemma_types_step, lemma_wrapped_ok, wrap_rank, wrappable, wraps,
};
use crate::pool::{reserved, DefinitionV, PoolFunctionV, PoolV, UNDEFINED};
use crate::queue::{CodeGenItemV, OutputsV};
use crate::repo::RepoV;
use crate::tables::MemberIdV;
use crate::type_cache::{law_allocation_extends, ImageV};
use crate::wrap::{
    apart, copies, fun_at, law_rotation, lemma_rotate_all, lemma_rotated, moved, rotate_all,
    rotated, shorter, wrapped_ok,
};

verus! {

/// Whether the pool has a function at an index as it is before it is given a body: no callback,
/// without locals and code, and with parameters of its own behind it.
pub open spec fn is_blank(pool: PoolV, idx: int) -> bool {
    let fun = fun_at(pool, idx);
    &&& fun_there(pool, idx)
    &&& !fun.flags.is_callback
    &&& fun.locals.len() == 0
    &&& fun.code.len() == 0
    &&& fun.parameters.no_duplicates()
    &&& forall|i: int|
        #![trigger fun.parameters[i]]
        0 <= i < fun.parameters.len() ==> idx < fun.parameters[i] < pool.defs.len() && !(
        pool.value(fun.parameters[i]) is Class)
}

/// Whether nothing is noted to be defined at an index.
pub open spec fn unnoted(db: DbV, idx: int) -> bool {
    &&& forall|id: MemberIdV| #[trigger] db.methods.dom().contains(id) ==> db.methods[id] != idx
    &&& forall|id: MemberIdV| #[trigger] db.statics.dom().contains(id) ==> db.statics[id] != idx
    &&& forall|slot: int| #[trigger] db.globals.dom().contains(slot) ==> db.globals[slot] != idx
}

/// Whether two functions are different and have different parameters.
pub open spec fn differ(pool: PoolV, a: int, b: int) -> bool {
    a != b && apart(fun_at(pool, a).parameters, fun_at(pool, b).parameters)
}

/// Whether each wrapper has a place of its own.
pub open spec fn own_places(s: DefineV) -> bool {
    let ws = s.wrappers.vals;
    let pool = s.build.image.pool;
    &&& s.wrappers.wf()
    &&& forall|i: int, k: int|
        #![trigger ws[i][k]]
        0 <= i < ws.len() && 0 <= k < ws[i].len() ==> is_blank(pool, ws[i][k]) && unnoted(
            s.build.db,
            ws[i][k],
        )
    &&& forall|i: int, k: int, j: int, l: int|
        #![trigger ws[i][k], ws[j][l]]
        0 <= i < ws.len() && 0 <= k < ws[i].len() && 0 <= j < ws.len() && 0 <= l < ws[j].len() && (i
            != j || k != l) ==> differ(pool, ws[i][k], ws[j][l])
}

/// Parameters are defined one behind the other.
proof fn lemma_params_rise(
    params: Seq<ParamBuilderV>,
    n: int,
    parent: int,
    repo: RepoV,
    start: ImageV,
)
    requires
        0 <= n,
    ensures
        ({
            let (end, done) = commit_params(params, n, parent, repo, start);
            &&& done.len() == n
            &&& forall|i: int|
                #![trigger done[i]]
                0 <= i < n ==> start.pool.defs.len() <= done[i] < end.pool.defs.len()
            &&& forall|i: int, j: int| 0 <= i < j < n ==> #[trigger] done[i] < #[trigger] done[j]
        }),
    decreases n,
{
    if n > 0 {
        lemma_params_rise(params, n - 1, parent, repo, start);
        lemma_params_extend(params, n - 1, parent, repo, start);
        let (mid, before) = commit_params(params, n - 1, parent, repo, start);
        let (end, done) = commit_params(params, n, parent, repo, start);
        let named = mid.with_name(params[n - 1].name);
        law_allocation_extends(params[n - 1].typ, repo, named);
        assert forall|i: int|
            #![trigger done[i]]
            0 <= i < n implies start.pool.defs.len() <= done[i] < end.pool.defs.len() by {
            if i < n - 1 {
                assert(done[i] == before[i]);
            }
        }
        assert forall|i: int, j: int| 0 <= i < j < n implies #[trigger] done[i]
            < #[trigger] done[j] by {
            assert(done[i] == before[i]);
            if j < n - 1 {
                assert(done[j] == before[j]);
            }
        }
    }
}

/// A function that has just been defined has parameters of its own behind it.
proof fn lemma_new_params(fun: FunctionBuilderV, parent: int, repo: RepoV, start: ImageV)
    requires
        fun.locals.len() == 0,
        fun.body.len() == 0,
    ensures
        ({
            let done = fun.commit(parent, repo, start).pool;
            let idx = fun.index(start);
            let made = fun_at(done, idx);
            &&& fun_ok(done, idx)
            &&& made.flags.is_callback == (fun.flags.is_callback && !fun.is_wrapper)
            &&& made.locals.len() == 0
            &&& made.code.len() == 0
            &&& made.parameters.no_duplicates()
            &&& forall|i: int|
                #![trigger made.parameters[i]]
                0 <= i < made.parameters.len() ==> idx < made.parameters[i] < done.defs.len()
        }),
{
    let id = fun.index(start);
    let named = start.with_def(reserved()).with_name(fun.name);
    law_allocation_extends(fun.return_type, repo, named);
    let typed = fun.commit_ret(repo, start).0;
    let params = fun.named_params(start.pool);
    lemma_params_rise(params, params.len() as int, id, repo, typed);
    lemma_params_extend(params, params.len() as int, id, repo, typed);
    lemma_function_there(fun, parent, repo, start);
    let (with_params, done) = commit_params(params, params.len() as int, id, repo, typed);
    assert(commit_locals(fun.locals, 0, repo, with_params).0 == with_params);
    assert(fun_at(fun.commit(parent, repo, start).pool, id).parameters == done);
}

/// A blank function stays as it is when nothing but classes changes.
proof fn lemma_blank_stays(from: PoolV, to: PoolV, idx: int)
    requires
        is_blank(from, idx),
        from.defs.len() <= to.defs.len(),
        forall|i: int|
            from.has(i) && !(from.value(i) is Class) ==> #[trigger] to.defs[i] == from.defs[i],
    ensures
        is_blank(to, idx),
        fun_at(to, idx) == fun_at(from, idx),
{
    let fun = fun_at(from, idx);
    assert(to.defs[idx] == from.defs[idx]);
    assert forall|i: int|
        #![trigger fun.parameters[i]]
        0 <= i < fun.parameters.len() implies idx < fun.parameters[i] < to.defs.len() && !(to.value(
        fun.parameters[i],
    ) is Class) by {
        assert(to.defs[fun.parameters[i]] == from.defs[fun.parameters[i]]);
    }
}

/// A wrapper is added behind the others of its method.
proof fn lemma_added_wrapper(
    wrappers: DictV<MemberIdV, Seq<int>>,
    id: MemberIdV,
    idx: int,
    i: int,
    k: int,
)
    requires
        wrappers.wf(),
        0 <= i < add_wrapper(wrappers, id, idx).vals.len(),
        0 <= k < add_wrapper(wrappers, id, idx).vals[i].len(),
    ensures
        ({
            let done = add_wrapper(wrappers, id, idx);
            let at = wrappers.slot(id);
            let last = done.vals[at].len() - 1;
            if i == at && k == last {
                done.vals[i][k] == idx
            } else {
                i < wrappers.vals.len() && k < wrappers.vals[i].len() && done.vals[i][k]
                    == wrappers.vals[i][k]
            }
        }),
{
}

/// Every wrapper gets a place of its own when a function in the queue is defined.
proof fn lemma_own_step(repo: RepoV, n: int, item: CodeGenItemV, s: DefineV)
    requires
        linked(s.build.db, s.build.image.pool),
        item_defines(repo, item, s.build.db),
        own_places(s),
    ensures
        own_places(define_item(repo, n, item, s)),
        s.build.image.pool.defs.len() <= define_item(repo, n, item, s).build.image.pool.defs.len(),
{
    let done = define_item(repo, n, item, s);
    let image = s.build.image;
    let db = s.build.db;
    let from = image.pool;
    let to = done.build.image.pool;
    let old_ws = s.wrappers.vals;
    let ws = done.wrappers.vals;
    let fresh = from.defs.len() as int;
    match item {
        CodeGenItemV::AssembleGlobal(slot, _) => {
            let fun = global_builder(repo.globals.entries[slot]);
            law_function_commit_extends(fun, UNDEFINED as int, repo, image);
        },
        CodeGenItemV::AddMethod(id, _, is_static) => {
            assert(class_slot(from, db.classes[id.owner]));
            let fun = entry_builder(member_entry(repo, id, is_static), db);
            law_function_commit_extends(fun, db.classes[id.owner], repo, image);
        },
        CodeGenItemV::WrapMethod(id, _, is_static) => {
            let class = db.classes[id.owner];
            assert(class_slot(from, class));
            let fun = wrapper_builder(n, member_entry(repo, id, is_static), db);
            law_function_commit_extends(fun, class, repo, image);
            lemma_new_params(fun, class, repo, image);
            let mid = fun.commit(class, repo, image).pool;
            assert(mid.defs[class] == from.defs[class]);
            let made = fun_at(mid, fresh);
            assert(is_blank(to, fresh)) by {
                assert forall|i: int|
                    #![trigger made.parameters[i]]
                    0 <= i < made.parameters.len() implies fresh < made.parameters[i]
                    < to.defs.len() && !(to.value(made.parameters[i]) is Class) by {
                    assert(mid.value(made.parameters[i]) is Parameter);
                    assert(to.defs[made.parameters[i]] == mid.defs[made.parameters[i]]);
                }
            }
            s.wrappers.lemma_put(
                id,
                match s.wrappers.get(id) {
                    Some(chain) => chain.push(fresh),
                    None => seq![fresh],
                },
            );
        },
        CodeGenItemV::AssembleMethod(_, _, _) => {},
    }
    assert forall|i: int| from.has(i) && !(from.value(i) is Class) implies #[trigger] to.defs[i]
        == from.defs[i] by {
        lemma_item_leaves(repo, n, item, s, i);
    }
    assert forall|i: int, k: int|
        #![trigger old_ws[i][k]]
        0 <= i < old_ws.len() && 0 <= k < old_ws[i].len() implies is_blank(to, old_ws[i][k])
        && unnoted(done.build.db, old_ws[i][k]) && fun_at(to, old_ws[i][k]) == fun_at(
        from,
        old_ws[i][k],
    ) && old_ws[i][k] < fresh by {
        lemma_blank_stays(from, to, old_ws[i][k]);
    }
    if let CodeGenItemV::WrapMethod(id, _, _) = item {
        let at = s.wrappers.slot(id);
        assert(ws == add_wrapper(s.wrappers, id, fresh).vals);
        assert(unnoted(done.build.db, fresh)) by {
            assert forall|other: MemberIdV| #[trigger]
                db.methods.dom().contains(other) implies db.methods[other] != fresh by {
                assert(fun_there(from, db.methods[other]));
            }
            assert forall|other: MemberIdV| #[trigger]
                db.statics.dom().contains(other) implies db.statics[other] != fresh by {
                assert(fun_there(from, db.statics[other]));
            }
            assert forall|slot: int| #[trigger]
                db.globals.dom().contains(slot) implies db.globals[slot] != fresh by {
                assert(fun_there(from, db.globals[slot]));
            }
        }
        assert forall|i: int, k: int|
            #![trigger ws[i][k]]
            0 <= i < ws.len() && 0 <= k < ws[i].len() implies is_blank(to, ws[i][k]) && unnoted(
            done.build.db,
            ws[i][k],
        ) by {
            lemma_added_wrapper(s.wrappers, id, fresh, i, k);
            if !(i == at && k == ws[at].len() - 1) {
                assert(ws[i][k] == old_ws[i][k]);
            }
        }
        assert forall|i: int, k: int, j: int, l: int|
            #![trigger ws[i][k], ws[j][l]]
            0 <= i < ws.len() && 0 <= k < ws[i].len() && 0 <= j < ws.len() && 0 <= l < ws[j].len()
                && (i != j || k != l) implies differ(to, ws[i][k], ws[j][l]) by {
            lemma_added_wrapper(s.wrappers, id, fresh, i, k);
            lemma_added_wrapper(s.wrappers, id, fresh, j, l);
            let last = ws[at].len() - 1;
            if i == at && k == last {
                assert(ws[j][l] == old_ws[j][l]);
                lemma_new_differs(from, to, old_ws[j][l], fresh);
            } else if j == at && l == last {
                assert(ws[i][k] == old_ws[i][k]);
                lemma_new_differs(from, to, old_ws[i][k], fresh);
            } else {
                assert(ws[i][k] == old_ws[i][k] && ws[j][l] == old_ws[j][l]);
                assert(differ(from, old_ws[i][k], old_ws[j][l]));
            }
        }
    } else {
        assert(done.wrappers == s.wrappers);
        assert forall|i: int, k: int, j: int, l: int|
            #![trigger ws[i][k], ws[j][l]]
            0 <= i < ws.len() && 0 <= k < ws[i].len() && 0 <= j < ws.len() && 0 <= l < ws[j].len()
                && (i != j || k != l) implies differ(to, ws[i][k], ws[j][l]) by {
            assert(ws[i][k] == old_ws[i][k] && ws[j][l] == old_ws[j][l]);
            assert(differ(from, old_ws[i][k], old_ws[j][l]));
        }
    }
}

/// A new function differs from one that was there with parameters that were there.
proof fn lemma_new_differs(from: PoolV, to: PoolV, was: int, fresh: int)
    requires
        fresh == from.defs.len(),
        is_blank(from, was),
        is_blank(to, was),
        fun_at(to, was) == fun_at(from, was),
        is_blank(to, fresh),
    ensures
        differ(to, was, fresh),
        differ(to, fresh, was),
{
    let a = fun_at(from, was).parameters;
    let b = fun_at(to, fresh).parameters;
    assert forall|i: int, j: int| 0 <= i < a.len() && 0 <= j < b.len() implies #[trigger] a[i]
        != #[trigger] b[j] by {}
}

proof fn lemma_own_places(repo: RepoV, items: Seq<CodeGenItemV>, n: int, s: DefineV)
    requires
        linked(s.build.db, s.build.image.pool),
        items_define(repo, items, s),
        s.wrappers == DictV::<MemberIdV, Seq<int>>::empty(),
        0 <= n <= items.len(),
    ensures
        own_places(define_items(repo, items, n, s)),
        s.build.image.pool.defs.len() <= define_items(
            repo,
            items,
            n,
            s,
        ).build.image.pool.defs.len(),
    decreases n,
{
    if n > 0 {
        lemma_own_places(repo, items, n - 1, s);
        lemma_define_items(repo, items, n - 1, s);
        lemma_own_step(repo, n - 1, items[n - 1], define_items(repo, items, n - 1, s));
    }
}

/// Whether the parameters of a method are different from those of all wrappers.
spec fn method_apart(s: DefineV, id: MemberIdV) -> bool {
    let ws = s.wrappers.vals;
    let pool = s.build.image.pool;
    &&& s.build.db.methods.dom().contains(id)
    &&& fun_ok(pool, s.build.db.methods[id])
    &&& forall|i: int, k: int|
        #![trigger ws[i][k]]
        0 <= i < ws.len() && 0 <= k < ws[i].len() ==> apart(
            fun_at(pool, s.build.db.methods[id]).parameters,
            fun_at(pool, ws[i][k]).parameters,
        )
}

proof fn lemma_method_apart(
    repo: RepoV,
    items: Seq<CodeGenItemV>,
    n: int,
    s: DefineV,
    id: MemberIdV,
)
    requires
        linked(s.build.db, s.build.image.pool),
        items_define(repo, items, s),
        s.wrappers == DictV::<MemberIdV, Seq<int>>::empty(),
        0 <= n <= items.len(),
        is_added(items, n, id) || (s.build.db.methods.dom().contains(id) && fun_ok(
            s.build.image.pool,
            s.build.db.methods[id],
        )),
    ensures
        method_apart(define_items(repo, items, n, s), id),
    decreases n,
{
    if n > 0 {
        lemma_define_items(repo, items, n - 1, s);
        lemma_define_items(repo, items, n, s);
        lemma_own_places(repo, items, n - 1, s);
        lemma_own_places(repo, items, n, s);
        lemma_added_step(items, n, id);
        let at = define_items(repo, items, n - 1, s);
        let done = define_items(repo, items, n, s);
        let item = items[n - 1];
        lemma_own_step(repo, n - 1, item, at);
        let from = at.build.image.pool;
        let to = done.build.image.pool;
        let old_ws = at.wrappers.vals;
        let ws = done.wrappers.vals;
        let fresh = from.defs.len() as int;
        assert forall|i: int| from.has(i) && !(from.value(i) is Class) implies #[trigger] to.defs[i]
            == from.defs[i] by {
            lemma_item_leaves(repo, n - 1, item, at, i);
        }
        if adds(item, id) {
            let is_static = item->AddMethod_2;
            let class = at.build.db.classes[id.owner];
            assert(class_slot(from, class));
            let fun = entry_builder(member_entry(repo, id, is_static), at.build.db);
            law_function_commit_extends(fun, class, repo, at.build.image);
            lemma_new_params(fun, class, repo, at.build.image);
            let mid = fun.commit(class, repo, at.build.image).pool;
            assert(mid.defs[class] == from.defs[class]);
            assert(to.defs[fresh] == mid.defs[fresh]);
            assert(done.wrappers == at.wrappers);
            assert(fun_ok(to, fresh));
            let a = fun_at(to, fresh).parameters;
            assert forall|i: int, k: int|
                #![trigger ws[i][k]]
                0 <= i < ws.len() && 0 <= k < ws[i].len() implies apart(
                a,
                fun_at(to, ws[i][k]).parameters,
            ) by {
                lemma_blank_stays(from, to, old_ws[i][k]);
                let b = fun_at(from, old_ws[i][k]).parameters;
                assert forall|x: int, y: int| 0 <= x < a.len() && 0 <= y < b.len() implies
                    #[trigger] a[x] != #[trigger] b[y] by {}
            }
        } else {
            lemma_method_apart(repo, items, n - 1, s, id);
            let m = at.build.db.methods[id];
            assert(done.build.db.methods.dom().contains(id) && done.build.db.methods[id] == m);
            assert(to.defs[m] == from.defs[m]);
            let a = fun_at(from, m).parameters;
            assert forall|i: int, k: int|
                #![trigger ws[i][k]]
                0 <= i < ws.len() && 0 <= k < ws[i].len() implies apart(
                a,
                fun_at(to, ws[i][k]).parameters,
            ) by {
                assert(is_blank(to, ws[i][k]));
                if let CodeGenItemV::WrapMethod(other, _, _) = item {
                    lemma_added_wrapper(at.wrappers, other, fresh, i, k);
                }
                if i < old_ws.len() && k < old_ws[i].len() && ws[i][k] == old_ws[i][k] {
                    lemma_blank_stays(from, to, old_ws[i][k]);
                } else {
                    let b = fun_at(to, fresh).parameters;
                    assert forall|x: int, y: int| 0 <= x < a.len() && 0 <= y < b.len() implies
                        #[trigger] a[x] != #[trigger] b[y] by {
                        assert(from.is_named(a[x]));
                    }
                }
            }
        }
    }
}

/// Whether the turn of a wrapped method leaves what is at an index alone.
#[verifier::opaque]
spec fn spares(
    db: DbV,
    wrappers: DictV<MemberIdV, Seq<int>>,
    k: int,
    pool: PoolV,
    i: int,
) -> bool {
    let last = wrappers.vals[k].last();
    &&& db.methods[wrappers.keys[k]] != i
    &&& last != i
    &&& !fun_at(rotate_all(db, wrappers, k, pool), last).parameters.contains(i)
}

proof fn lemma_turn_leaves(
    db: DbV,
    wrappers: DictV<MemberIdV, Seq<int>>,
    k: int,
    pool: PoolV,
    i: int,
)
    requires
        linked(db, pool),
        wrappers_ok(wrappers, pool),
        wrapped_ok(db, wrappers, pool),
        0 <= k < wrappers.keys.len(),
        rotate_all(db, wrappers, k, pool).has(i),
        spares(db, wrappers, k, pool, i),
    ensures
        rotate_all(db, wrappers, k + 1, pool).has(i),
        rotate_all(db, wrappers, k + 1, pool).defs[i] == rotate_all(db, wrappers, k, pool).defs[i],
{
    reveal(spares);
    lemma_rotate_all(db, wrappers, k, pool);
    let at = rotate_all(db, wrappers, k, pool);
    let wrapped = db.methods[wrappers.keys[k]];
    let last = wrappers.vals[k].last();
    assert(fun_ok(at, last)) by {
        assert(fun_ok(at, wrappers.vals[k][wrappers.vals[k].len() - 1]));
    }
    assert(fun_ok(at, wrapped)) by {
        assert(fun_ok(pool, db.methods[wrappers.keys[k]]));
    }
    lemma_rotated(at, wrapped, last);
    lemma_rotated_only(at, wrapped, last, i);
    assert(rotate_all(db, wrappers, k + 1, pool) == rotated(at, wrapped, last));
}

/// When the last wrappers of some methods have taken their places, nothing else has changed but the
/// names of the parameters of those wrappers.
proof fn lemma_rotations_leave(
    db: DbV,
    wrappers: DictV<MemberIdV, Seq<int>>,
    m: int,
    n: int,
    pool: PoolV,
    i: int,
)
    requires
        linked(db, pool),
        wrappers_ok(wrappers, pool),
        wrapped_ok(db, wrappers, pool),
        0 <= m <= n <= wrappers.keys.len(),
        rotate_all(db, wrappers, m, pool).has(i),
        forall|k: int| m <= k < n ==> #[trigger] spares(db, wrappers, k, pool, i),
    ensures
        rotate_all(db, wrappers, n, pool).has(i),
        rotate_all(db, wrappers, n, pool).defs[i] == rotate_all(db, wrappers, m, pool).defs[i],
    decreases n - m,
{
    if n > m {
        lemma_rotations_leave(db, wrappers, m, n - 1, pool, i);
        assert(spares(db, wrappers, n - 1, pool, i));
        lemma_turn_leaves(db, wrappers, n - 1, pool, i);
    }
}

/// The last wrapper of a method that has not had its turn is as it was.
proof fn lemma_last_kept(s: DefineV, k: int, j: int)
    requires
        linked(s.build.db, s.build.image.pool),
        wrappers_ok(s.wrappers, s.build.image.pool),
        wrapped_ok(s.build.db, s.wrappers, s.build.image.pool),
        own_places(s),
        0 <= k <= j < s.wrappers.keys.len(),
    ensures
        rotate_all(s.build.db, s.wrappers, k, s.build.image.pool).has(s.wrappers.vals[j].last()),
        rotate_all(
            s.build.db,
            s.wrappers,
            k,
            s.build.image.pool,
        ).defs[s.wrappers.vals[j].last()] == s.build.image.pool.defs[s.wrappers.vals[j].last()],
    decreases k,
{
    let ws = s.wrappers.vals;
    let pool = s.build.image.pool;
    let last = ws[j][ws[j].len() - 1];
    assert(is_blank(pool, last));
    if k > 0 {
        lemma_last_kept(s, k - 1, j);
        lemma_last_kept(s, k - 1, k - 1);
        lemma_calm_wrapper(s, k - 1, j, ws[j].len() - 1);
        lemma_calm_turn(s, k - 1, last);
        lemma_turn_leaves(s.build.db, s.wrappers, k - 1, pool, last);
    }
}

/// A function is not a parameter of another one.
proof fn lemma_no_param(pool: PoolV, fun: int, idx: int)
    requires
        fun_ok(pool, fun),
        fun_there(pool, idx),
    ensures
        !fun_at(pool, fun).parameters.contains(idx),
{
    let params = fun_at(pool, fun).parameters;
    if params.contains(idx) {
        let k = choose|k: int| 0 <= k < params.len() && params[k] == idx;
        assert(pool.value(params[k]) is Parameter);
    }
}

/// Whether an index is neither that of a wrapped method nor that of its last wrapper, nor that of a
/// parameter of the latter.
spec fn calm(s: DefineV, k: int, i: int) -> bool {
    let last = s.wrappers.vals[k].last();
    &&& s.build.db.methods[s.wrappers.keys[k]] != i
    &&& last != i
    &&& !fun_at(s.build.image.pool, last).parameters.contains(i)
}

proof fn lemma_calm_turn(s: DefineV, k: int, i: int)
    requires
        0 <= k < s.wrappers.keys.len(),
        calm(s, k, i),
        rotate_all(s.build.db, s.wrappers, k, s.build.image.pool).defs[s.wrappers.vals[k].last()]
            == s.build.image.pool.defs[s.wrappers.vals[k].last()],
    ensures
        spares(s.build.db, s.wrappers, k, s.build.image.pool, i),
{
    reveal(spares);
}

/// What no turn from one on touches stays as it is.
proof fn lemma_calm(s: DefineV, m: int, n: int, i: int)
    requires
        linked(s.build.db, s.build.image.pool),
        wrappers_ok(s.wrappers, s.build.image.pool),
        wrapped_ok(s.build.db, s.wrappers, s.build.image.pool),
        own_places(s),
        0 <= m <= n <= s.wrappers.keys.len(),
        rotate_all(s.build.db, s.wrappers, m, s.build.image.pool).has(i),
        forall|k: int| m <= k < n ==> #[trigger] calm(s, k, i),
    ensures
        rotate_all(s.build.db, s.wrappers, n, s.build.image.pool).has(i),
        rotate_all(s.build.db, s.wrappers, n, s.build.image.pool).defs[i] == rotate_all(
            s.build.db,
            s.wrappers,
            m,
            s.build.image.pool,
        ).defs[i],
{
    let db = s.build.db;
    let pool = s.build.image.pool;
    assert forall|k: int| m <= k < n implies #[trigger] spares(db, s.wrappers, k, pool, i) by {
        assert(calm(s, k, i));
        lemma_last_kept(s, k, k);
        lemma_calm_turn(s, k, i);
    }
    lemma_rotations_leave(db, s.wrappers, m, n, pool, i);
}

/// What a compilation has made of a method and its wrappers. Before it, the method is at the index
/// `method`, and the wrappers are where `ws` says.
///
/// The index of the method keeps its name. It has the parameters of the last wrapper and is left to
/// be given its body, and it is a callback where the method was one: it then has all flags of the
/// method, and else those of the last wrapper. It returns what the last wrapper does. The method
/// itself is at the index of the last wrapper: its code is the same but for its locals, which have
/// been copied to `first`, and it returns what it did. No wrapper index holds a callback, and the
/// other wrappers are as they were. The parameters of the last wrapper are named like those of the
/// method.
pub open spec fn is_wrapped(
    before: PoolV,
    after: PoolV,
    method: int,
    ws: Seq<int>,
    first: int,
) -> bool {
    let was = fun_at(before, method);
    let wrapper = fun_at(before, ws.last());
    let top = fun_at(after, method);
    let inner = fun_at(after, ws.last());
    let map = copies(was.locals, was.locals.len() as int, first);
    &&& fun_there(after, method)
    &&& fun_there(after, ws.last())
    &&& after.name_of(method) == before.name_of(method)
    &&& after.name_of(ws.last()) == before.name_of(ws.last())
    &&& top.parameters == wrapper.parameters
    &&& top.locals.len() == 0
    &&& top.code.len() == 0
    &&& inner.parameters == was.parameters
    &&& inner.locals == map.vals
    &&& inner.code == Seq::new(was.code.len(), |i: int| moved(was.code[i], map))
    &&& forall|i: int|
        #![trigger after.defs[first + i]]
        0 <= i < was.locals.len() ==> after.defs[first + i] == (DefinitionV {
            parent: ws.last(),
            ..before.defs[was.locals[i]]
        })
    &&& top.flags.is_callback == was.flags.is_callback
    &&& top == (PoolFunctionV {
        flags: if was.flags.is_callback {
            was.flags
        } else {
            wrapper.flags
        },
        ..wrapper
    })
    &&& inner == (PoolFunctionV {
        flags: FunctionFlags { is_callback: false, ..was.flags },
        locals: inner.locals,
        code: inner.code,
        ..was
    })
    &&& forall|j: int| 0 <= j < ws.len() ==> !fun_at(after, #[trigger] ws[j]).flags.is_callback
    &&& forall|j: int|
        0 <= j < ws.len() - 1 ==> after.has(#[trigger] ws[j]) && after.defs[ws[j]]
            == before.defs[ws[j]]
    &&& forall|i: int|
        #![trigger wrapper.parameters[i]]
        0 <= i < shorter(was.parameters, wrapper.parameters) ==> {
            &&& after.name_of(wrapper.parameters[i]) == before.name_of(was.parameters[i])
            &&& after.name_of(was.parameters[i]) == before.name_of(was.parameters[i])
        }
}

/// Whether no other method that is wrapped is defined at the index of a method.
pub open spec fn is_alone(at: DefineV, id: MemberIdV) -> bool {
    forall|other: MemberIdV| #[trigger]
        at.wrappers.has(other) && other != id ==> at.build.db.methods[other]
            != at.build.db.methods[id]
}

pub proof fn lemma_commit_state(out: OutputsV, s: BuildV)
    requires
        commit_ok(out, s),
    ensures
        ({
            let at = after_items(out, s);
            &&& linked(at.build.db, at.build.image.pool)
            &&& wrappers_ok(at.wrappers, at.build.image.pool)
            &&& wrapped_ok(at.build.db, at.wrappers, at.build.image.pool)
            &&& own_places(at)
        }),
{
    let n = out.items.len() as int;
    let start = before_items(out, s);
    lemma_types_step(out.repo, out.defined, out.defined.len() as int, s);
    lemma_define_items(out.repo, out.items, n, start);
    lemma_wrapped_ok(out, s);
    lemma_own_places(out.repo, out.items, n, start);
}

proof fn lemma_wrapped_apart(out: OutputsV, s: BuildV, id: MemberIdV)
    requires
        commit_ok(out, s),
        after_items(out, s).wrappers.has(id),
    ensures
        method_apart(after_items(out, s), id),
{
    let n = out.items.len() as int;
    let start = before_items(out, s);
    lemma_types_step(out.repo, out.defined, out.defined.len() as int, s);
    lemma_places(out.repo, out.items, n, start);
    let k = lemma_some_wrapper(out.items, n, id);
    assert(item_fits(out, k, s));
    assert(wrappable(out, s, id));
    if !is_added(out.items, n, id) {
        let total = out.defined.len() as int;
        if method_defined(out.repo, out.defined, total, id) {
            assert(fun_ok(start.build.image.pool, start.build.db.methods[id]));
        } else {
            assert(fun_ok(s.image.pool, s.db.methods[id]));
            assert(start.build.db.methods.dom().contains(id));
        }
    }
    lemma_method_apart(out.repo, out.items, n, start, id);
}

/// A method that a compilation wraps is not lost, and its last wrapper is found in its place. This
/// holds of the whole compilation, whatever other methods it wraps. A method that was in the pool
/// before is where it was then, as it was then.
pub proof fn law_wrapped_method(out: OutputsV, s: BuildV, id: MemberIdV) -> (first: int)
    requires
        commit_ok(out, s),
        after_items(out, s).wrappers.has(id),
        is_alone(after_items(out, s), id),
    ensures
        ({
            let at = after_items(out, s);
            let method = at.build.db.methods[id];
            let pool = at.build.image.pool;
            &&& first >= pool.defs.len()
            &&& is_wrapped(
                pool,
                committed(out, s).build.image.pool,
                method,
                at.wrappers.at(id),
                first,
            )
            &&& !defined_by(out, out.items.len() as int, id) ==> {
                &&& method == s.db.methods[id]
                &&& pool.defs[method] == s.image.pool.defs[method]
            }
        }),
{
    let at = after_items(out, s);
    lemma_commit_state(out, s);
    lemma_wrapped_apart(out, s, id);
    let count = out.items.len() as int;
    lemma_methods_stay(out, s, count);
    if !defined_by(out, count, id) {
        let method = s.db.methods[id];
        assert(at.build.db.methods.dom().contains(id));
        assert(s.db.methods.dom().contains(id));
        assert(fun_there(s.image.pool, method));
        lemma_functions_stay(out, s, count, method);
    }
    lemma_is_wrapped(at, id)
}

/// The parameters of the last wrapper of a method are there.
proof fn lemma_last_ok(s: DefineV, k: int)
    requires
        wrappers_ok(s.wrappers, s.build.image.pool),
        own_places(s),
        0 <= k < s.wrappers.keys.len(),
    ensures
        fun_ok(s.build.image.pool, s.wrappers.vals[k].last()),
        is_blank(s.build.image.pool, s.wrappers.vals[k].last()),
        unnoted(s.build.db, s.wrappers.vals[k].last()),
{
    let ws = s.wrappers.vals;
    assert(ws[k].len() > 0);
    assert(fun_ok(s.build.image.pool, ws[k][ws[k].len() - 1]));
    assert(is_blank(s.build.image.pool, ws[k][ws[k].len() - 1]));
}

proof fn lemma_calm_method(s: DefineV, k: int, id: MemberIdV)
    requires
        wrappers_ok(s.wrappers, s.build.image.pool),
        own_places(s),
        0 <= k < s.wrappers.keys.len(),
        s.build.db.methods.dom().contains(id),
        fun_there(s.build.image.pool, s.build.db.methods[id]),
        s.build.db.methods[s.wrappers.keys[k]] != s.build.db.methods[id],
    ensures
        calm(s, k, s.build.db.methods[id]),
{
    lemma_last_ok(s, k);
    lemma_no_param(
        s.build.image.pool,
        s.wrappers.vals[k].last(),
        s.build.db.methods[id],
    );
}

proof fn lemma_calm_wrapper(s: DefineV, k: int, slot: int, j: int)
    requires
        wrappers_ok(s.wrappers, s.build.image.pool),
        wrapped_ok(s.build.db, s.wrappers, s.build.image.pool),
        own_places(s),
        0 <= k < s.wrappers.keys.len(),
        0 <= slot < s.wrappers.keys.len(),
        0 <= j < s.wrappers.vals[slot].len(),
        k != slot || j < s.wrappers.vals[slot].len() - 1,
    ensures
        calm(s, k, s.wrappers.vals[slot][j]),
{
    let ws = s.wrappers.vals;
    lemma_last_ok(s, k);
    assert(is_blank(s.build.image.pool, ws[slot][j]));
    assert(unnoted(s.build.db, ws[slot][j]));
    assert(differ(s.build.image.pool, ws[slot][j], ws[k][ws[k].len() - 1]));
    assert(s.build.db.methods.dom().contains(s.wrappers.keys[k]));
    lemma_no_param(s.build.image.pool, ws[k].last(), ws[slot][j]);
}

proof fn lemma_calm_param(s: DefineV, k: int, fun: int, x: int)
    requires
        wrappers_ok(s.wrappers, s.build.image.pool),
        wrapped_ok(s.build.db, s.wrappers, s.build.image.pool),
        own_places(s),
        0 <= k < s.wrappers.keys.len(),
        fun_ok(s.build.image.pool, fun),
        0 <= x < fun_at(s.build.image.pool, fun).parameters.len(),
        apart(
            fun_at(s.build.image.pool, fun).parameters,
            fun_at(s.build.image.pool, s.wrappers.vals[k].last()).parameters,
        ),
    ensures
        calm(s, k, fun_at(s.build.image.pool, fun).parameters[x]),
{
    let pool = s.build.image.pool;
    lemma_last_ok(s, k);
    assert(fun_ok(pool, s.build.db.methods[s.wrappers.keys[k]]));
    let from = fun_at(pool, fun).parameters;
    let to = fun_at(pool, s.wrappers.vals[k].last()).parameters;
    assert(pool.value(from[x]) is Parameter);
    if to.contains(from[x]) {
        let y = choose|y: int| 0 <= y < to.len() && to[y] == from[x];
        assert(from[x] != to[y]);
    }
}

/// What is new is touched by no turn.
proof fn lemma_calm_new(s: DefineV, k: int, i: int)
    requires
        wrappers_ok(s.wrappers, s.build.image.pool),
        wrapped_ok(s.build.db, s.wrappers, s.build.image.pool),
        own_places(s),
        0 <= k < s.wrappers.keys.len(),
        i >= s.build.image.pool.defs.len(),
    ensures
        calm(s, k, i),
{
    let pool = s.build.image.pool;
    lemma_last_ok(s, k);
    assert(fun_ok(pool, s.build.db.methods[s.wrappers.keys[k]]));
    let to = fun_at(pool, s.wrappers.vals[k].last()).parameters;
    if to.contains(i) {
        let y = choose|y: int| 0 <= y < to.len() && to[y] == i;
        assert(to[y] < pool.defs.len());
    }
}

/// Whether no turn but one touches what is at an index.
spec fn calm_but(s: DefineV, slot: int, i: int) -> bool {
    forall|k: int| 0 <= k < s.wrappers.keys.len() && k != slot ==> #[trigger] calm(s, k, i)
}

/// What one turn alone touches is as it was before that turn, and stays as that turn leaves it.
proof fn lemma_calm_but(s: DefineV, slot: int, i: int)
    requires
        linked(s.build.db, s.build.image.pool),
        wrappers_ok(s.wrappers, s.build.image.pool),
        wrapped_ok(s.build.db, s.wrappers, s.build.image.pool),
        own_places(s),
        0 <= slot < s.wrappers.keys.len(),
        s.build.image.pool.has(i),
        calm_but(s, slot, i),
    ensures
        ({
            let n = s.wrappers.keys.len() as int;
            let before = s.build.image.pool;
            let a = rotate_all(s.build.db, s.wrappers, slot, before);
            let b = rotate_all(s.build.db, s.wrappers, slot + 1, before);
            let after = rotate_all(s.build.db, s.wrappers, n, before);
            &&& a.has(i)
            &&& b.has(i)
            &&& after.has(i)
            &&& a.defs[i] == before.defs[i]
            &&& after.defs[i] == b.defs[i]
        }),
{
    let n = s.wrappers.keys.len() as int;
    let before = s.build.image.pool;
    assert(rotate_all(s.build.db, s.wrappers, 0, before) == before);
    assert forall|k: int| 0 <= k < slot implies #[trigger] calm(s, k, i) by {}
    lemma_calm(s, 0, slot, i);
    lemma_rotate_all(s.build.db, s.wrappers, slot + 1, before);
    assert forall|k: int| slot + 1 <= k < n implies #[trigger] calm(s, k, i) by {}
    lemma_calm(s, slot + 1, n, i);
}

#[verifier::spinoff_prover]
#[verifier::rlimit(50)]
proof fn lemma_is_wrapped(s: DefineV, id: MemberIdV) -> (first: int)
    requires
        linked(s.build.db, s.build.image.pool),
        wrappers_ok(s.wrappers, s.build.image.pool),
        wrapped_ok(s.build.db, s.wrappers, s.build.image.pool),
        own_places(s),
        s.wrappers.has(id),
        is_alone(s, id),
        method_apart(s, id),
    ensures
        first >= s.build.image.pool.defs.len(),
        is_wrapped(
            s.build.image.pool,
            rotate_all(
                s.build.db,
                s.wrappers,
                s.wrappers.keys.len() as int,
                s.build.image.pool,
            ),
            s.build.db.methods[id],
            s.wrappers.at(id),
            first,
        ),
{
    let db = s.build.db;
    let before = s.build.image.pool;
    let wrappers = s.wrappers;
    let n = wrappers.keys.len() as int;
    let slot = wrappers.keys.index_of(id);
    let ws = wrappers.vals[slot];
    let method = db.methods[id];
    let last = ws.last();
    let was = fun_at(before, method);
    let wrapper = fun_at(before, last);
    let a = rotate_all(db, wrappers, slot, before);
    let b = rotate_all(db, wrappers, slot + 1, before);
    let after = rotate_all(db, wrappers, n, before);
    lemma_rotate_all(db, wrappers, slot, before);
    lemma_rotate_all(db, wrappers, slot + 1, before);
    lemma_rotate_all(db, wrappers, n, before);
    assert(last == wrappers.vals[slot][ws.len() - 1]);
    assert(fun_ok(before, method)) by {
        assert(fun_ok(before, db.methods[wrappers.keys[slot]]));
    }
    assert(is_blank(before, last) && fun_ok(before, last));
    assert(rotate_all(db, wrappers, 0, before) == before);

    assert forall|k: int| 0 <= k < n && k != slot implies #[trigger] calm(s, k, method) by {
        assert(wrappers.has(wrappers.keys[k]));
        assert(wrappers.keys[k] != id);
        lemma_calm_method(s, k, id);
    }
    assert forall|k: int, j: int|
        0 <= k < n && k != slot && 0 <= j < ws.len() implies #[trigger] calm(s, k, ws[j]) by {
        lemma_calm_wrapper(s, k, slot, j);
    }
    assert forall|k: int, x: int|
        0 <= k < n && k != slot && 0 <= x < was.parameters.len() implies #[trigger] calm(
        s,
        k,
        was.parameters[x],
    ) by {
        lemma_calm_param(s, k, method, x);
    }
    assert forall|k: int, x: int|
        0 <= k < n && k != slot && 0 <= x < wrapper.parameters.len() implies #[trigger] calm(
        s,
        k,
        wrapper.parameters[x],
    ) by {
        let other = wrappers.vals[k][wrappers.vals[k].len() - 1];
        assert(differ(before, wrappers.vals[slot][ws.len() - 1], other));
        lemma_calm_param(s, k, last, x);
    }
    assert(calm_but(s, slot, method));
    assert(calm_but(s, slot, last)) by {
        assert forall|k: int| 0 <= k < n && k != slot implies #[trigger] calm(s, k, last) by {
            assert(calm(s, k, ws[ws.len() - 1]));
        }
    }
    lemma_calm_but(s, slot, method);
    lemma_calm_but(s, slot, last);
    assert(method != last);
    law_rotation(a, method, last);
    assert(b == rotated(a, method, last));
    let first = a.defs.len() as int;
    assert forall|i: int|
        #![trigger after.defs[first + i]]
        0 <= i < was.locals.len() implies after.defs[first + i] == (DefinitionV {
        parent: last,
        ..before.defs[was.locals[i]]
    }) by {
        assert(b.defs[a.defs.len() + i] == (DefinitionV {
            parent: last,
            ..a.defs[was.locals[i]]
        }));
        assert(before.is_named(was.locals[i]) && before.value(was.locals[i]) is Local);
        assert(a.defs[was.locals[i]] == before.defs[was.locals[i]]);
        assert forall|k: int| slot + 1 <= k < n implies #[trigger] calm(s, k, first + i) by {
            lemma_calm_new(s, k, first + i);
        }
        lemma_calm(s, slot + 1, n, first + i);
    }
    assert forall|j: int| 0 <= j < ws.len() implies !fun_at(
        after,
        #[trigger] ws[j],
    ).flags.is_callback && (j < ws.len() - 1 ==> after.has(ws[j]) && after.defs[ws[j]]
        == before.defs[ws[j]]) by {
        if j < ws.len() - 1 {
            assert(is_blank(before, wrappers.vals[slot][j]));
            assert(differ(before, wrappers.vals[slot][j], wrappers.vals[slot][ws.len() - 1]));
            lemma_calm_wrapper(s, slot, slot, j);
            assert forall|k: int| 0 <= k < n implies #[trigger] calm(s, k, ws[j]) by {}
            lemma_calm(s, 0, n, ws[j]);
        }
    }
    assert forall|i: int|
        #![trigger wrapper.parameters[i]]
        0 <= i < shorter(was.parameters, wrapper.parameters) implies {
        &&& after.name_of(wrapper.parameters[i]) == before.name_of(was.parameters[i])
        &&& after.name_of(was.parameters[i]) == before.name_of(was.parameters[i])
    } by {
        let to = wrapper.parameters[i];
        let from = was.parameters[i];
        assert(calm_but(s, slot, to));
        assert(calm_but(s, slot, from));
        lemma_calm_but(s, slot, to);
        lemma_calm_but(s, slot, from);
        assert(b.name_of(to) == b.name_of(from));
        lemma_rotated_only(a, method, last, from);
    }
    first
}

/// Every wrapper of a method is given its body at a place of its own, and none of the functions in
/// the queue is given its body where the method has moved to.
pub proof fn law_bodies_have_own_places(out: OutputsV, s: BuildV, id: MemberIdV, i: int, j: int)
    requires
        commit_ok(out, s),
        wraps(out.items, i, id),
        0 <= j < out.items.len(),
    ensures
        ({
            let done = committed(out, s).assemblies;
            &&& done[j].function != after_items(out, s).wrappers.at(id).last()
            &&& i != j && wraps(out.items, j, id) ==> done[i].function != done[j].function
        }),
{
    let at = after_items(out, s);
    let n = out.items.len() as int;
    let db = at.build.db;
    let pool = at.build.image.pool;
    lemma_commit_state(out, s);
    lemma_places(out.repo, out.items, n, before_items(out, s));
    law_wrapper_chain(out, s, id, i);
    let slot = at.wrappers.keys.index_of(id);
    let ws = at.wrappers.vals[slot];
    lemma_last_ok(at, slot);
    assert(item_known(out.items[j], db));
    if let CodeGenItemV::WrapMethod(other, _, _) = out.items[j] {
        law_wrapper_chain(out, s, other, j);
        let at_other = at.wrappers.keys.index_of(other);
        let rank = wrap_rank(out.items, j, other);
        assert(item_known(out.items[i], db));
        if rank < at.wrappers.vals[at_other].len() - 1 {
            assert(differ(pool, at.wrappers.vals[at_other][rank], at.wrappers.vals[slot][ws.len()
                - 1]));
        }
        if other == id && i != j {
            let mine = wrap_rank(out.items, i, id);
            lemma_ranks_differ(out.items, i, j, id);
            if mine < ws.len() - 1 {
                assert(unnoted(db, at.wrappers.vals[slot][mine]));
            }
            if rank < ws.len() - 1 {
                assert(unnoted(db, at.wrappers.vals[slot][rank]));
            }
            if mine < ws.len() - 1 && rank < ws.len() - 1 {
                assert(differ(pool, at.wrappers.vals[slot][mine], at.wrappers.vals[slot][rank]));
            }
        }
    }
}

/// Two wrappers of a method have different ranks.
proof fn lemma_ranks_differ(items: Seq<CodeGenItemV>, i: int, j: int, id: MemberIdV)
    requires
        wraps(items, i, id),
        wraps(items, j, id),
        i != j,
    ensures
        wrap_rank(items, i, id) != wrap_rank(items, j, id),
{
    if i < j {
        lemma_rank_grows(items, i + 1, j, id);
    } else {
        lemma_rank_grows(items, j + 1, i, id);
    }
}

} // verus!
