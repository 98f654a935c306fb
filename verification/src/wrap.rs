//! How the last wrapper of a method takes the place of the method.
use vstd::prelude::*;

use crate::assemble::{wrappers_ok, Chain};
use crate::commit::{class_slot, enum_slot, fun_ok, fun_there, linked};
use crate::db::{CompilationDb, DbV};
use crate::dict::{ints, views, DictV, MemberDict, SlotDict};
use crate::flags::FunctionFlags;
use crate::pool::{
    AnyDefinition, AnyDefinitionV, ConstantPool, Definition, DefinitionV, Instr, InstrV,
    PoolFunctionV, PoolIndex, PoolV,
};
use crate::queue::CompilationOutputs;
use crate::tables::{MemberIdV, Slot};

verus! {

/// The function at an index.
pub open spec fn fun_at(pool: PoolV, idx: int) -> PoolFunctionV {
    pool.value(idx)->Function_0
}

pub open spec fn with_fun(pool: PoolV, idx: int, fun: PoolFunctionV) -> PoolV {
    pool.put_value(idx, AnyDefinitionV::Function(fun))
}

/// Where a method is a callback, its last wrapper becomes the callback in its place and takes over
/// its other flags.
pub open spec fn move_callback(pool: PoolV, wrapped: int, last: int) -> PoolV {
    let fun = fun_at(pool, wrapped);
    if fun.flags.is_callback {
        let plain = with_fun(
            pool,
            wrapped,
            PoolFunctionV {
                flags: FunctionFlags { is_callback: false, ..fun.flags },
                ..fun
            },
        );
        with_fun(plain, last, PoolFunctionV { flags: fun.flags, ..fun_at(plain, last) })
    } else {
        pool
    }
}

/// The first `n` parameters of one function take over the names of those of another.
pub open spec fn align_names(pool: PoolV, from: Seq<int>, to: Seq<int>, n: int) -> PoolV
    decreases n,
{
    if n <= 0 {
        pool
    } else {
        let at = align_names(pool, from, to, n - 1);
        at.rename(to[n - 1], at.defs[from[n - 1]].name)
    }
}

/// The smaller of two lengths.
pub open spec fn shorter(a: Seq<int>, b: Seq<int>) -> int {
    if a.len() <= b.len() {
        a.len() as int
    } else {
        b.len() as int
    }
}

/// The pool with copies of the first `n` locals at its end, which belong to another function.
pub open spec fn copy_locals(pool: PoolV, locals: Seq<int>, n: int, parent: int) -> PoolV
    decreases n,
{
    if n <= 0 {
        pool
    } else {
        copy_locals(pool, locals, n - 1, parent).with_def(
            DefinitionV { parent, ..pool.defs[locals[n - 1]] },
        )
    }
}

/// Where the copies of the first `n` locals are.
pub open spec fn copies(locals: Seq<int>, n: int, first: int) -> DictV<int, int>
    decreases n,
{
    if n <= 0 {
        DictV::empty()
    } else {
        copies(locals, n - 1, first).put(locals[n - 1], first + n - 1)
    }
}

/// An instruction that uses the copy of a local in place of the local.
pub open spec fn moved(instr: InstrV, copies: DictV<int, int>) -> InstrV {
    match instr {
        InstrV::Local(local) => InstrV::Local(copies.at(local)),
        InstrV::Other(code) => InstrV::Other(code),
    }
}

/// A function works on copies of its locals at the end of the pool, which belong to `proxy`.
pub open spec fn locals_remapped(pool: PoolV, proxy: int, target: int) -> PoolV {
    let fun = fun_at(pool, target);
    let n = fun.locals.len() as int;
    let map = copies(fun.locals, n, pool.defs.len() as int);
    with_fun(
        copy_locals(pool, fun.locals, n, proxy),
        target,
        PoolFunctionV {
            locals: map.vals,
            code: Seq::new(fun.code.len(), |i: int| moved(fun.code[i], map)),
            ..fun
        },
    )
}

/// The last wrapper of a method takes the place of the method: it becomes the callback where the
/// method was one, takes over the names of its parameters, and changes name and index with it.
pub open spec fn rotated(pool: PoolV, wrapped: int, last: int) -> PoolV {
    let moved = move_callback(pool, wrapped, last);
    let from = fun_at(moved, wrapped).parameters;
    let to = fun_at(moved, last).parameters;
    let aligned = align_names(moved, from, to, shorter(from, to));
    locals_remapped(aligned, last, wrapped).rename(last, pool.defs[wrapped].name).rename(
        wrapped,
        pool.defs[last].name,
    ).swap(wrapped, last)
}

/// The functions of a chain in the order in which they call each other, from the method itself
/// on. The method has moved to the index of the last wrapper, and the last wrapper to the index
/// of the method.
pub open spec fn chained(wrappers: Seq<int>, wrapped: int) -> Seq<int> {
    seq![wrappers.last()] + wrappers.drop_last() + seq![wrapped]
}

/// Whether a pool still has all definitions of another one, where functions may have changed and
/// parameters may have other names.
pub open spec fn reworks(from: PoolV, to: PoolV) -> bool {
    &&& to.names == from.names
    &&& from.defs.len() <= to.defs.len()
    &&& forall|i: int|
        0 <= i < from.defs.len() ==> {
            &&& !(from.value(i) is Function || from.value(i) is Parameter)
                ==> #[trigger] to.defs[i] == from.defs[i]
            &&& from.value(i) is Function ==> to.value(i) is Function
            &&& from.value(i) is Parameter ==> {
                &&& to.value(i) == from.value(i)
                &&& to.defs[i].parent == from.defs[i].parent
                &&& from.is_named(i) ==> to.is_named(i)
            }
        }
    &&& forall|i: int| #[trigger] fun_ok(from, i) ==> fun_ok(to, i)
}

pub proof fn lemma_reworks_trans(a: PoolV, b: PoolV, c: PoolV)
    requires
        reworks(a, b),
        reworks(b, c),
    ensures
        reworks(a, c),
{
    assert forall|i: int| 0 <= i < a.defs.len() implies {
        &&& !(a.value(i) is Function || a.value(i) is Parameter) ==> #[trigger] c.defs[i]
            == a.defs[i]
        &&& a.value(i) is Function ==> c.value(i) is Function
        &&& a.value(i) is Parameter ==> {
            &&& c.value(i) == a.value(i)
            &&& c.defs[i].parent == a.defs[i].parent
            &&& a.is_named(i) ==> c.is_named(i)
        }
    } by {
        assert(b.defs[i] == b.defs[i]);
    }
}

/// What is noted to be defined somewhere stays there.
proof fn lemma_reworks_linked(
    db: DbV,
    wrappers: DictV<MemberIdV, Seq<int>>,
    from: PoolV,
    to: PoolV,
)
    requires
        linked(db, from),
        wrappers_ok(wrappers, from),
        reworks(from, to),
    ensures
        linked(db, to),
        wrappers_ok(wrappers, to),
{
    assert forall|id: Seq<char>| #[trigger] db.classes.dom().contains(id) implies class_slot(
        to,
        db.classes[id],
    ) && to.value(db.classes[id]) is Class by {
        assert(class_slot(from, db.classes[id]));
        assert(to.defs[db.classes[id]] == from.defs[db.classes[id]]);
    }
    assert forall|id: Seq<char>| #[trigger] db.enums.dom().contains(id) implies enum_slot(
        to,
        db.enums[id],
    ) by {
        assert(enum_slot(from, db.enums[id]));
        assert(to.defs[db.enums[id]] == from.defs[db.enums[id]]);
    }
    assert forall|id: MemberIdV| #[trigger] db.methods.dom().contains(id) implies fun_there(
        to,
        db.methods[id],
    ) by {
        assert(fun_there(from, db.methods[id]));
        assert(to.defs[db.methods[id]] == to.defs[db.methods[id]]);
    }
    assert forall|id: MemberIdV| #[trigger] db.statics.dom().contains(id) implies fun_there(
        to,
        db.statics[id],
    ) by {
        assert(fun_there(from, db.statics[id]));
        assert(to.defs[db.statics[id]] == to.defs[db.statics[id]]);
    }
    assert forall|at: int| #[trigger] db.globals.dom().contains(at) implies fun_there(
        to,
        db.globals[at],
    ) by {
        assert(fun_there(from, db.globals[at]));
        assert(to.defs[db.globals[at]] == to.defs[db.globals[at]]);
    }
    assert forall|i: int, k: int|
        #![trigger wrappers.vals[i][k]]
        0 <= i < wrappers.vals.len() && 0 <= k < wrappers.vals[i].len() implies fun_ok(
        to,
        wrappers.vals[i][k],
    ) by {
        assert(fun_ok(from, wrappers.vals[i][k]));
    }
}

/// A function may change in what does not refer to other definitions.
proof fn lemma_put_fun(pool: PoolV, idx: int, fun: PoolFunctionV)
    requires
        fun_ok(pool, idx),
        fun.parameters == fun_at(pool, idx).parameters,
        fun.locals == fun_at(pool, idx).locals,
        fun.code == fun_at(pool, idx).code,
    ensures
        reworks(pool, with_fun(pool, idx, fun)),
{
    let to = with_fun(pool, idx, fun);
    assert forall|i: int| #[trigger] fun_ok(pool, i) implies fun_ok(to, i) by {
        lemma_fun_still(pool, to, i);
    }
}

/// A function is still there in a pool that has the same parameters and locals and a function like
/// it.
proof fn lemma_fun_still(from: PoolV, to: PoolV, idx: int)
    requires
        fun_ok(from, idx),
        from.names.len() <= to.names.len(),
        to.has(idx),
        to.value(idx) is Function,
        0 <= to.defs[idx].name < to.names.len(),
        fun_at(to, idx).parameters == fun_at(from, idx).parameters,
        fun_at(to, idx).locals == fun_at(from, idx).locals,
        fun_at(to, idx).code == fun_at(from, idx).code,
        forall|i: int|
            from.is_named(i) && from.value(i) is Parameter ==> to.is_named(i) && (
            #[trigger] to.value(i)) is Parameter,
        forall|i: int|
            from.is_named(i) && from.value(i) is Local ==> to.is_named(i) && (#[trigger] to.value(
                i,
            )) is Local,
    ensures
        fun_ok(to, idx),
{
    let fun = fun_at(from, idx);
    assert forall|i: int|
        #![trigger fun.parameters[i]]
        0 <= i < fun.parameters.len() implies to.is_named(fun.parameters[i]) && to.value(
        fun.parameters[i],
    ) is Parameter by {
        assert(from.is_named(fun.parameters[i]));
        assert(to.value(fun.parameters[i]) == to.value(fun.parameters[i]));
    }
    assert forall|i: int|
        #![trigger fun.locals[i]]
        0 <= i < fun.locals.len() implies to.is_named(fun.locals[i]) && to.value(
        fun.locals[i],
    ) is Local by {
        assert(from.is_named(fun.locals[i]));
        assert(to.value(fun.locals[i]) == to.value(fun.locals[i]));
    }
}

/// A function or a parameter may take another name.
proof fn lemma_rename(pool: PoolV, idx: int, name: int)
    requires
        pool.has(idx),
        pool.value(idx) is Function || pool.value(idx) is Parameter,
        0 <= name < pool.names.len(),
    ensures
        reworks(pool, pool.rename(idx, name)),
{
    let to = pool.rename(idx, name);
    assert forall|i: int| #[trigger] fun_ok(pool, i) implies fun_ok(to, i) by {
        lemma_fun_still(pool, to, i);
    }
}

/// Two functions may change places.
proof fn lemma_swap(pool: PoolV, a: int, b: int)
    requires
        fun_ok(pool, a),
        fun_ok(pool, b),
    ensures
        reworks(pool, pool.swap(a, b)),
{
    let to = pool.swap(a, b);
    assert forall|i: int| #[trigger] fun_ok(pool, i) implies fun_ok(to, i) by {
        let from = if i == a {
            b
        } else if i == b {
            a
        } else {
            i
        };
        let fun = fun_at(pool, from);
        assert(to.defs[i] == pool.defs[from]);
        assert forall|k: int|
            #![trigger fun.parameters[k]]
            0 <= k < fun.parameters.len() implies to.is_named(fun.parameters[k]) && to.value(
            fun.parameters[k],
        ) is Parameter by {
            assert(pool.is_named(fun.parameters[k]));
        }
        assert forall|k: int|
            #![trigger fun.locals[k]]
            0 <= k < fun.locals.len() implies to.is_named(fun.locals[k]) && to.value(
            fun.locals[k],
        ) is Local by {
            assert(pool.is_named(fun.locals[k]));
        }
    }
}

proof fn lemma_align_names(pool: PoolV, from: Seq<int>, to: Seq<int>, n: int)
    requires
        0 <= n <= from.len(),
        n <= to.len(),
        forall|i: int|
            0 <= i < from.len() ==> pool.is_named(#[trigger] from[i]) && pool.value(
                from[i],
            ) is Parameter,
        forall|i: int|
            0 <= i < to.len() ==> pool.is_named(#[trigger] to[i]) && pool.value(
                to[i],
            ) is Parameter,
    ensures
        reworks(pool, align_names(pool, from, to, n)),
        align_names(pool, from, to, n).defs.len() == pool.defs.len(),
        forall|i: int|
            pool.has(i) ==> (#[trigger] align_names(pool, from, to, n).value(i)) == pool.value(i),
    decreases n,
{
    if n > 0 {
        lemma_align_names(pool, from, to, n - 1);
        let at = align_names(pool, from, to, n - 1);
        assert(pool.is_named(from[n - 1]) && pool.is_named(to[n - 1]));
        assert(at.value(to[n - 1]) == pool.value(to[n - 1]));
        assert(at.value(from[n - 1]) == pool.value(from[n - 1]));
        assert(at.defs[from[n - 1]] == at.defs[from[n - 1]]);
        lemma_rename(at, to[n - 1], at.defs[from[n - 1]].name);
        lemma_reworks_trans(pool, at, align_names(pool, from, to, n));
        let done = align_names(pool, from, to, n);
        assert forall|i: int| pool.has(i) implies (#[trigger] done.value(i)) == pool.value(i) by {
            assert(at.value(i) == pool.value(i));
        }
    }
}

proof fn lemma_copy_locals(pool: PoolV, locals: Seq<int>, n: int, parent: int)
    requires
        0 <= n,
    ensures
        ({
            let done = copy_locals(pool, locals, n, parent);
            &&& done.names == pool.names
            &&& done.defs.len() == pool.defs.len() + n
            &&& forall|i: int| 0 <= i < pool.defs.len() ==> #[trigger] done.defs[i] == pool.defs[i]
            &&& forall|i: int|
                #![trigger done.defs[pool.defs.len() + i]]
                0 <= i < n ==> done.defs[pool.defs.len() + i] == (DefinitionV {
                    parent,
                    ..pool.defs[locals[i]]
                })
        }),
    decreases n,
{
    if n > 0 {
        lemma_copy_locals(pool, locals, n - 1, parent);
        let at = copy_locals(pool, locals, n - 1, parent);
        let done = copy_locals(pool, locals, n, parent);
        assert forall|i: int|
            #![trigger done.defs[pool.defs.len() + i]]
            0 <= i < n implies done.defs[pool.defs.len() + i] == (DefinitionV {
            parent,
            ..pool.defs[locals[i]]
        }) by {
            if i < n - 1 {
                assert(done.defs[pool.defs.len() + i] == at.defs[pool.defs.len() + i]);
            }
        }
    }
}

/// Every local has a copy, and every copy is one of the local that it is noted for.
proof fn lemma_copies(locals: Seq<int>, n: int, first: int)
    requires
        0 <= n <= locals.len(),
    ensures
        ({
            let map = copies(locals, n, first);
            &&& map.wf()
            &&& forall|k: int|
                #![trigger map.vals[k]]
                0 <= k < map.keys.len() ==> first <= map.vals[k] < first + n && locals[map.vals[k]
                    - first] == map.keys[k]
            &&& forall|i: int| 0 <= i < n ==> map.has(#[trigger] locals[i])
        }),
    decreases n,
{
    if n > 0 {
        lemma_copies(locals, n - 1, first);
        let at = copies(locals, n - 1, first);
        let map = copies(locals, n, first);
        let local = locals[n - 1];
        at.lemma_put(local, first + n - 1);
        assert forall|k: int|
            #![trigger map.vals[k]]
            0 <= k < map.keys.len() implies first <= map.vals[k] < first + n && locals[map.vals[k]
            - first] == map.keys[k] by {
            if k < at.keys.len() && map.vals[k] == at.vals[k] {
                assert(first <= at.vals[k]);
            }
        }
        assert forall|i: int| 0 <= i < n implies map.has(#[trigger] locals[i]) by {
            if locals[i] != local {
                assert(at.has(locals[i]));
            } else {
                assert(map.get(local) is Some);
            }
        }
    }
}

/// Where no local is listed twice, the copies of the locals stand one after the other.
pub proof fn law_copies_adjacent(locals: Seq<int>, n: int, first: int)
    requires
        0 <= n <= locals.len(),
        locals.no_duplicates(),
    ensures
        copies(locals, n, first).keys == locals.take(n),
        copies(locals, n, first).vals == Seq::new(n as nat, |i: int| first + i),
    decreases n,
{
    if n > 0 {
        law_copies_adjacent(locals, n - 1, first);
        let at = copies(locals, n - 1, first);
        let local = locals[n - 1];
        assert(!at.has(local)) by {
            if at.has(local) {
                let i = at.keys.index_of(local);
                assert(locals.take(n - 1)[i] == locals[i]);
            }
        }
        assert(copies(locals, n, first).keys =~= locals.take(n));
        assert(copies(locals, n, first).vals =~= Seq::new(n as nat, |i: int| first + i));
    } else {
        assert(copies(locals, n, first).keys =~= locals.take(n));
        assert(copies(locals, n, first).vals =~= Seq::new(n as nat, |i: int| first + i));
    }
}

proof fn lemma_locals_remapped(pool: PoolV, proxy: int, target: int)
    requires
        fun_ok(pool, target),
    ensures
        reworks(pool, locals_remapped(pool, proxy, target)),
        forall|i: int|
            0 <= i < fun_at(pool, target).code.len() ==> ((#[trigger] fun_at(
                pool,
                target,
            ).code[i]) matches InstrV::Local(local) ==> copies(
                fun_at(pool, target).locals,
                fun_at(pool, target).locals.len() as int,
                pool.defs.len() as int,
            ).has(local)),
        forall|i: int|
            0 <= i < pool.defs.len() && i != target ==> #[trigger] locals_remapped(
                pool,
                proxy,
                target,
            ).defs[i] == pool.defs[i],
{
    let fun = fun_at(pool, target);
    let n = fun.locals.len() as int;
    let first = pool.defs.len() as int;
    let map = copies(fun.locals, n, first);
    let mid = copy_locals(pool, fun.locals, n, proxy);
    let to = locals_remapped(pool, proxy, target);
    lemma_copy_locals(pool, fun.locals, n, proxy);
    lemma_copies(fun.locals, n, first);
    assert forall|i: int| 0 <= i < fun.code.len() implies ((#[trigger] fun.code[i]) matches InstrV::Local(
        local,
    ) ==> map.has(local)) by {
        if let InstrV::Local(local) = fun.code[i] {
            assert(fun.locals.contains(local));
            let k = choose|k: int| 0 <= k < fun.locals.len() && fun.locals[k] == local;
            assert(map.has(fun.locals[k]));
        }
    }
    assert forall|i: int| #[trigger] fun_ok(pool, i) implies fun_ok(to, i) by {
        if i == target {
            let done = fun_at(to, target);
            assert forall|k: int|
                #![trigger done.parameters[k]]
                0 <= k < done.parameters.len() implies to.is_named(done.parameters[k])
                && to.value(done.parameters[k]) is Parameter by {
                assert(pool.is_named(fun.parameters[k]));
                assert(mid.defs[fun.parameters[k]] == pool.defs[fun.parameters[k]]);
            }
            assert forall|k: int|
                #![trigger done.locals[k]]
                0 <= k < done.locals.len() implies to.is_named(done.locals[k]) && to.value(
                done.locals[k],
            ) is Local by {
                let j = map.vals[k] - first;
                assert(mid.defs[first + j] == (DefinitionV {
                    parent: proxy,
                    ..pool.defs[fun.locals[j]]
                }));
                assert(pool.is_named(fun.locals[j]));
            }
            assert forall|k: int|
                #![trigger done.code[k]]
                0 <= k < done.code.len() implies (done.code[k] matches InstrV::Local(local)
                ==> done.locals.contains(local)) by {
                if let InstrV::Local(local) = fun.code[k] {
                    assert(map.has(local));
                    let at = map.keys.index_of(local);
                    assert(map.vals[at] == map.at(local));
                }
            }
        } else {
            assert(mid.defs[i] == pool.defs[i]);
            assert forall|k: int|
                pool.is_named(k) && pool.value(k) is Parameter implies to.is_named(k) && (
            #[trigger] to.value(k)) is Parameter by {
                assert(mid.defs[k] == pool.defs[k]);
            }
            assert forall|k: int| pool.is_named(k) && pool.value(k) is Local implies to.is_named(k)
                && (#[trigger] to.value(k)) is Local by {
                assert(mid.defs[k] == pool.defs[k]);
            }
            lemma_fun_still(pool, to, i);
        }
    }
    assert forall|i: int| 0 <= i < pool.defs.len() && i != target implies #[trigger] to.defs[i]
        == pool.defs[i] by {
        assert(mid.defs[i] == pool.defs[i]);
    }
}

proof fn lemma_move_callback(pool: PoolV, wrapped: int, last: int)
    requires
        fun_ok(pool, wrapped),
        fun_ok(pool, last),
    ensures
        reworks(pool, move_callback(pool, wrapped, last)),
{
    let fun = fun_at(pool, wrapped);
    if fun.flags.is_callback {
        let off = PoolFunctionV {
            flags: FunctionFlags { is_callback: false, ..fun.flags },
            ..fun
        };
        let plain = with_fun(pool, wrapped, off);
        lemma_put_fun(pool, wrapped, off);
        let on = PoolFunctionV { flags: fun.flags, ..fun_at(plain, last) };
        lemma_put_fun(plain, last, on);
        lemma_reworks_trans(pool, plain, with_fun(plain, last, on));
    } else {
        assert forall|i: int| #[trigger] fun_ok(pool, i) implies fun_ok(pool, i) by {}
    }
}

/// The pool at the steps of a rotation.
spec fn aligned(pool: PoolV, wrapped: int, last: int) -> PoolV {
    let moved = move_callback(pool, wrapped, last);
    let from = fun_at(moved, wrapped).parameters;
    let to = fun_at(moved, last).parameters;
    align_names(moved, from, to, shorter(from, to))
}

proof fn lemma_aligned(pool: PoolV, wrapped: int, last: int)
    requires
        fun_ok(pool, wrapped),
        fun_ok(pool, last),
    ensures
        reworks(pool, aligned(pool, wrapped, last)),
        fun_ok(aligned(pool, wrapped, last), wrapped),
        fun_ok(aligned(pool, wrapped, last), last),
{
    let moved = move_callback(pool, wrapped, last);
    lemma_move_callback(pool, wrapped, last);
    let from = fun_at(moved, wrapped).parameters;
    let to = fun_at(moved, last).parameters;
    assert(fun_ok(moved, wrapped) && fun_ok(moved, last));
    lemma_align_names(moved, from, to, shorter(from, to));
    lemma_reworks_trans(pool, moved, aligned(pool, wrapped, last));
}

/// When the last wrapper takes the place of a method, everything stays there.
pub proof fn lemma_rotated(pool: PoolV, wrapped: int, last: int)
    requires
        fun_ok(pool, wrapped),
        fun_ok(pool, last),
    ensures
        reworks(pool, rotated(pool, wrapped, last)),
{
    lemma_aligned(pool, wrapped, last);
    let a = aligned(pool, wrapped, last);
    let b = locals_remapped(a, last, wrapped);
    lemma_locals_remapped(a, last, wrapped);
    let c = b.rename(last, pool.defs[wrapped].name);
    let d = c.rename(wrapped, pool.defs[last].name);
    assert(fun_ok(b, wrapped) && fun_ok(b, last));
    lemma_rename(b, last, pool.defs[wrapped].name);
    assert(fun_ok(c, wrapped) && fun_ok(c, last));
    lemma_rename(c, wrapped, pool.defs[last].name);
    assert(fun_ok(d, wrapped) && fun_ok(d, last));
    lemma_swap(d, wrapped, last);
    lemma_reworks_trans(pool, a, b);
    lemma_reworks_trans(pool, b, c);
    lemma_reworks_trans(pool, c, d);
    lemma_reworks_trans(pool, d, rotated(pool, wrapped, last));
}

impl CompilationOutputs {
    /// Lets a function work on copies of its locals at the end of the pool, which belong to `proxy`.
    /// The game expects the locals of a function to stand next to it.
    pub fn remap_locals(proxy: PoolIndex, target: PoolIndex, pool: &mut ConstantPool)
        requires
            fun_ok(old(pool)@, target as int),
        ensures
            final(pool)@ == locals_remapped(old(pool)@, proxy as int, target as int),
    {
        broadcast use crate::dict::group_views;

        let ghost start = pool@;
        let ghost fun = fun_at(start, target as int);
        proof {
            lemma_locals_remapped(start, proxy as int, target as int);
        }
        let mut mapped: SlotDict<Slot> = SlotDict::new();
        let count: usize = pool.function(target).locals.len();
        let mut i: usize = 0;
        while i < count
            invariant
                i <= count,
                fun_ok(start, target as int),
                fun == fun_at(start, target as int),
                count == fun.locals.len(),
                pool@ == copy_locals(start, fun.locals, i as int, proxy as int),
                mapped@ == copies(fun.locals, i as int, start.defs.len() as int),
            decreases count - i,
        {
            proof {
                lemma_copy_locals(start, fun.locals, i as int, proxy as int);
                assert(pool@.defs[target as int] == start.defs[target as int]);
            }
            let local = pool.function(target).locals[i];
            assert(fun.locals[i as int] == local);
            assert(start.is_named(fun.locals[i as int]));
            assert(pool@.defs[local as int] == start.defs[local as int]);
            let def = pool.definition(local);
            let name = def.name;
            let value = match &def.value {
                AnyDefinition::Local(local) => AnyDefinition::Local(*local),
                _ => AnyDefinition::Reserved,
            };
            let copy = pool.add_definition(Definition { name, parent: proxy, value });
            let _ = mapped.insert(Slot { at: local }, Slot { at: copy });
            i += 1;
        }
        let ghost mid = pool@;
        proof {
            lemma_copy_locals(start, fun.locals, count as int, proxy as int);
            lemma_copies(fun.locals, count as int, start.defs.len() as int);
            assert(mid.defs[target as int] == start.defs[target as int]);
        }
        let mut locals: Vec<PoolIndex> = Vec::new();
        let kept: usize = mapped.len();
        let mut i: usize = 0;
        while i < kept
            invariant
                i <= kept,
                kept == mapped@.keys.len(),
                mapped@.wf(),
                locals@.len() == i,
                forall|j: int| 0 <= j < i ==> #[trigger] locals@[j] == mapped@.vals[j],
            decreases kept - i,
        {
            locals.push(mapped.val_at(i).at);
            i += 1;
        }
        assert(ints(locals@) =~= mapped@.vals);
        let ghost due = Seq::new(fun.code.len(), |k: int| moved(fun.code[k], mapped@));
        let mut code: Vec<Instr> = Vec::new();
        let len: usize = pool.function(target).code.len();
        let mut i: usize = 0;
        while i < len
            invariant
                i <= len,
                len == fun.code.len(),
                pool@ == mid,
                mid.has(target as int),
                mid.value(target as int) == AnyDefinitionV::Function(fun),
                forall|k: int|
                    0 <= k < fun.code.len() ==> ((#[trigger] fun.code[k]) matches InstrV::Local(local)
                        ==> mapped@.has(local)),
                due.len() == fun.code.len(),
                forall|k: int|
                    0 <= k < due.len() ==> #[trigger] due[k] == moved(fun.code[k], mapped@),
                code@.len() == i,
                forall|k: int| 0 <= k < i ==> (#[trigger] code@[k])@ == due[k],
            decreases len - i,
        {
            let instr = pool.function(target).code[i];
            assert(fun.code[i as int] == instr@);
            let next = match instr {
                Instr::Local(local) => {
                    let copy = mapped.get(&Slot { at: local }).unwrap();
                    Instr::Local(copy.at)
                },
                Instr::Other(other) => Instr::Other(other),
            };
            assert(next@ == due[i as int]);
            code.push(next);
            i += 1;
        }
        assert(views(code@) =~= due);
        pool.complete_function(target, locals, code);
    }
}

/// Lets the last wrapper of a method take the place of the method.
pub fn rotate(wrapped: PoolIndex, last: PoolIndex, pool: &mut ConstantPool)
    requires
        fun_ok(old(pool)@, wrapped as int),
        fun_ok(old(pool)@, last as int),
    ensures
        final(pool)@ == rotated(old(pool)@, wrapped as int, last as int),
        reworks(old(pool)@, final(pool)@),
{
    let ghost start = pool@;
    proof {
        lemma_rotated(start, wrapped as int, last as int);
        lemma_move_callback(start, wrapped as int, last as int);
    }
    let wrapped_name = pool.def_name_idx(wrapped);
    let wrapper_name = pool.def_name_idx(last);

    // make sure only one remains a callback
    let flags = pool.function(wrapped).flags;
    if flags.is_callback {
        pool.set_function_flags(wrapped, FunctionFlags { is_callback: false, ..flags });
        pool.set_function_flags(last, flags);
    }
    let ghost moved = pool@;
    assert(moved == move_callback(start, wrapped as int, last as int));
    assert(fun_ok(moved, wrapped as int) && fun_ok(moved, last as int));

    // the game crashes when parameter names are not aligned sometimes
    let ghost from = fun_at(moved, wrapped as int).parameters;
    let ghost to = fun_at(moved, last as int).parameters;
    let from_len: usize = pool.function(wrapped).parameters.len();
    let to_len: usize = pool.function(last).parameters.len();
    let mut i: usize = 0;
    while i < from_len && i < to_len
        invariant
            i <= from_len,
            i <= to_len,
            from_len == from.len(),
            to_len == to.len(),
            fun_ok(moved, wrapped as int),
            fun_ok(moved, last as int),
            from == fun_at(moved, wrapped as int).parameters,
            to == fun_at(moved, last as int).parameters,
            pool@ == align_names(moved, from, to, i as int),
        decreases from_len - i,
    {
        proof {
            lemma_align_names(moved, from, to, i as int);
            assert(pool@.value(wrapped as int) == moved.value(wrapped as int));
            assert(pool@.value(last as int) == moved.value(last as int));
        }
        let source = pool.function(wrapped).parameters[i];
        let param = pool.function(last).parameters[i];
        assert(from[i as int] == source && to[i as int] == param);
        assert(moved.is_named(from[i as int]) && moved.is_named(to[i as int]));
        let name = pool.def_name_idx(source);
        pool.rename(param, name);
        i += 1;
    }
    assert(i == shorter(from, to));
    proof {
        lemma_aligned(start, wrapped as int, last as int);
        lemma_locals_remapped(pool@, last as int, wrapped as int);
    }
    CompilationOutputs::remap_locals(last, wrapped, pool);
    pool.rename(last, wrapped_name);
    pool.rename(wrapped, wrapper_name);
    pool.swap_definition(wrapped, last);
}

/// The pool once the last wrappers of the first `n` methods have taken their places.
pub open spec fn rotate_all(
    db: DbV,
    wrappers: DictV<MemberIdV, Seq<int>>,
    n: int,
    pool: PoolV,
) -> PoolV
    decreases n,
{
    if n <= 0 {
        pool
    } else {
        rotated(
            rotate_all(db, wrappers, n - 1, pool),
            db.methods[wrappers.keys[n - 1]],
            wrappers.vals[n - 1].last(),
        )
    }
}

/// The chains of all methods that are wrapped.
pub open spec fn chains(db: DbV, wrappers: DictV<MemberIdV, Seq<int>>) -> DictV<
    MemberIdV,
    Seq<int>,
> {
    DictV {
        keys: wrappers.keys,
        vals: Seq::new(
            wrappers.vals.len(),
            |i: int| chained(wrappers.vals[i], db.methods[wrappers.keys[i]]),
        ),
    }
}

/// Whether each method that is wrapped is there, with named parameters and code that stays within
/// its locals.
pub open spec fn wrapped_ok(db: DbV, wrappers: DictV<MemberIdV, Seq<int>>, pool: PoolV) -> bool {
    forall|i: int|
        0 <= i < wrappers.keys.len() ==> db.methods.dom().contains(#[trigger] wrappers.keys[i])
            && fun_ok(pool, db.methods[wrappers.keys[i]])
}

pub proof fn lemma_rotate_all(
    db: DbV,
    wrappers: DictV<MemberIdV, Seq<int>>,
    n: int,
    pool: PoolV,
)
    requires
        linked(db, pool),
        wrappers_ok(wrappers, pool),
        wrapped_ok(db, wrappers, pool),
        0 <= n <= wrappers.keys.len(),
    ensures
        linked(db, rotate_all(db, wrappers, n, pool)),
        wrappers_ok(wrappers, rotate_all(db, wrappers, n, pool)),
        reworks(pool, rotate_all(db, wrappers, n, pool)),
    decreases n,
{
    if n > 0 {
        lemma_rotate_all(db, wrappers, n - 1, pool);
        let at = rotate_all(db, wrappers, n - 1, pool);
        let chain = wrappers.vals[n - 1];
        assert(db.methods.dom().contains(wrappers.keys[n - 1]));
        assert(fun_ok(at, wrappers.vals[n - 1][chain.len() - 1]));
        lemma_rotated(at, db.methods[wrappers.keys[n - 1]], chain.last());
        lemma_reworks_linked(db, wrappers, at, rotate_all(db, wrappers, n, pool));
        lemma_reworks_trans(pool, at, rotate_all(db, wrappers, n, pool));
    }
}

/// Lets the last wrapper of each method take the place of the method, and chains the functions.
pub fn rotate_wrappers(
    wrappers: &mut MemberDict<Chain>,
    db: &CompilationDb,
    pool: &mut ConstantPool,
)
    requires
        linked(db@, old(pool)@),
        wrappers_ok(old(wrappers)@, old(pool)@),
        wrapped_ok(db@, old(wrappers)@, old(pool)@),
    ensures
        final(pool)@ == rotate_all(
            db@,
            old(wrappers)@,
            old(wrappers)@.keys.len() as int,
            old(pool)@,
        ),
        final(wrappers)@ == chains(db@, old(wrappers)@),
        linked(db@, final(pool)@),
        wrappers_ok(old(wrappers)@, final(pool)@),
{
    broadcast use crate::dict::group_views;

    let ghost before = wrappers@;
    let ghost start = pool@;
    let ghost due = chains(db@, before);
    let n: usize = wrappers.len();
    let mut i: usize = 0;
    while i < n
        invariant
            i <= n,
            n == before.keys.len(),
            linked(db@, start),
            wrappers_ok(before, start),
            wrapped_ok(db@, before, start),
            due == chains(db@, before),
            pool@ == rotate_all(db@, before, i as int, start),
            wrappers@.keys == before.keys,
            wrappers@.vals.len() == before.vals.len(),
            forall|k: int| 0 <= k < i ==> #[trigger] wrappers@.vals[k] == due.vals[k],
            forall|k: int| i <= k < n ==> #[trigger] wrappers@.vals[k] == before.vals[k],
        decreases n - i,
    {
        proof {
            lemma_rotate_all(db@, before, i as int, start);
            assert(db@.methods.dom().contains(before.keys[i as int]));
        }
        let wrapped = db.method_index(wrappers.key_at(i)).unwrap();
        let mut chain = wrappers.replace(i, Chain { items: Vec::new() });
        let ghost old_items = chain.items@;
        assert(ints(old_items) == before.vals[i as int]);
        assert(before.vals[i as int].len() > 0);
        let last = chain.items.pop().unwrap();
        assert(last == before.vals[i as int].last());
        assert(fun_ok(pool@, before.vals[i as int][before.vals[i as int].len() - 1]));
        rotate(wrapped, last, pool);
        chain.items.insert(0, last);
        chain.items.push(wrapped);
        assert(ints(chain.items@) =~= chained(before.vals[i as int], wrapped as int));
        let _ = wrappers.replace(i, chain);
        i += 1;
    }
    proof {
        lemma_rotate_all(db@, before, n as int, start);
        assert(wrappers@.vals =~= due.vals);
        assert(wrappers@ =~= due);
    }
}

/// The parameters of two functions are all different from each other.
pub open spec fn apart(from: Seq<int>, to: Seq<int>) -> bool {
    &&& to.no_duplicates()
    &&& forall|i: int, j: int|
        0 <= i < from.len() && 0 <= j < to.len() ==> #[trigger] from[i] != #[trigger] to[j]
}

proof fn lemma_aligned_names(pool: PoolV, from: Seq<int>, to: Seq<int>, n: int)
    requires
        0 <= n <= from.len(),
        n <= to.len(),
        apart(from, to),
        forall|i: int| 0 <= i < from.len() ==> pool.has(#[trigger] from[i]),
        forall|i: int| 0 <= i < to.len() ==> pool.has(#[trigger] to[i]),
    ensures
        ({
            let done = align_names(pool, from, to, n);
            &&& done.defs.len() == pool.defs.len()
            &&& done.names == pool.names
            &&& forall|i: int|
                0 <= i < from.len() ==> #[trigger] done.defs[from[i]] == pool.defs[from[i]]
            &&& forall|i: int|
                0 <= i < n ==> #[trigger] done.defs[to[i]].name == pool.defs[from[i]].name
            &&& forall|i: int| pool.has(i) && !to.contains(i) ==> #[trigger] done.defs[i]
                == pool.defs[i]
        }),
    decreases n,
{
    if n > 0 {
        lemma_aligned_names(pool, from, to, n - 1);
        let at = align_names(pool, from, to, n - 1);
        let done = align_names(pool, from, to, n);
        assert forall|i: int| 0 <= i < n implies #[trigger] done.defs[to[i]].name
            == pool.defs[from[i]].name by {
            if i < n - 1 {
                assert(at.defs[to[i]].name == pool.defs[from[i]].name);
                assert(to[i] != to[n - 1]);
            } else {
                assert(at.defs[from[i]] == pool.defs[from[i]]);
            }
        }
        assert forall|i: int| 0 <= i < from.len() implies #[trigger] done.defs[from[i]]
            == pool.defs[from[i]] by {
            assert(at.defs[from[i]] == pool.defs[from[i]]);
            assert(from[i] != to[n - 1]);
        }
        assert forall|i: int| pool.has(i) && !to.contains(i) implies #[trigger] done.defs[i]
            == pool.defs[i] by {
            assert(at.defs[i] == pool.defs[i]);
            assert(to.contains(to[n - 1]));
        }
    }
}

/// When the last wrapper takes the place of a method, the index of the method keeps its name and
/// holds the code of the wrapper, and the index of the wrapper keeps its name and holds the method,
/// with its locals copied to the end of the pool. Of the two only the one at the index of the
/// method can be a callback, and it is one where the method was, given that wrappers are not: it
/// then has all flags of the method. The parameters of the wrapper are named like those of the
/// method. Nothing else of the two functions changes.
pub proof fn law_rotation(pool: PoolV, wrapped: int, last: int)
    requires
        fun_ok(pool, wrapped),
        fun_ok(pool, last),
        wrapped != last,
        !fun_at(pool, last).flags.is_callback,
        apart(fun_at(pool, wrapped).parameters, fun_at(pool, last).parameters),
    ensures
        ({
            let done = rotated(pool, wrapped, last);
            let method = fun_at(pool, wrapped);
            let wrapper = fun_at(pool, last);
            let n = method.locals.len() as int;
            let map = copies(method.locals, n, pool.defs.len() as int);
            &&& done.defs.len() == pool.defs.len() + n
            &&& done.name_of(wrapped) == pool.name_of(wrapped)
            &&& done.name_of(last) == pool.name_of(last)
            &&& fun_at(done, wrapped).code == wrapper.code
            &&& fun_at(done, wrapped).locals == wrapper.locals
            &&& fun_at(done, wrapped).parameters == wrapper.parameters
            &&& fun_at(done, last).parameters == method.parameters
            &&& fun_at(done, last).locals == map.vals
            &&& fun_at(done, last).code == Seq::new(
                method.code.len(),
                |i: int| moved(method.code[i], map),
            )
            &&& forall|i: int|
                #![trigger done.defs[pool.defs.len() + i]]
                0 <= i < n ==> done.defs[pool.defs.len() + i] == (DefinitionV {
                    parent: last,
                    ..pool.defs[method.locals[i]]
                })
            &&& fun_at(done, wrapped).flags.is_callback == method.flags.is_callback
            &&& !fun_at(done, last).flags.is_callback
            &&& fun_at(done, wrapped) == (PoolFunctionV {
                flags: if method.flags.is_callback {
                    method.flags
                } else {
                    wrapper.flags
                },
                ..wrapper
            })
            &&& fun_at(done, last) == (PoolFunctionV {
                flags: FunctionFlags { is_callback: false, ..method.flags },
                locals: fun_at(done, last).locals,
                code: fun_at(done, last).code,
                ..method
            })
            &&& forall|i: int|
                0 <= i < shorter(method.parameters, wrapper.parameters) ==> done.name_of(
                    #[trigger] wrapper.parameters[i],
                ) == done.name_of(method.parameters[i])
        }),
{
    let moved = move_callback(pool, wrapped, last);
    let method = fun_at(pool, wrapped);
    let wrapper = fun_at(pool, last);
    let from = method.parameters;
    let to = wrapper.parameters;
    lemma_move_callback(pool, wrapped, last);
    assert(fun_ok(moved, wrapped) && fun_ok(moved, last));
    assert(fun_at(moved, wrapped).parameters == from && fun_at(moved, last).parameters == to);
    let n = shorter(from, to);
    lemma_aligned_names(moved, from, to, n);
    lemma_align_names(moved, from, to, n);
    let a = align_names(moved, from, to, n);
    assert(!to.contains(wrapped) && !to.contains(last));
    assert(a.defs[wrapped] == moved.defs[wrapped]);
    assert(a.defs[last] == moved.defs[last]);
    lemma_aligned(pool, wrapped, last);
    lemma_locals_remapped(a, last, wrapped);
    let b = locals_remapped(a, last, wrapped);
    let count = method.locals.len() as int;
    lemma_copy_locals(a, method.locals, count, last);
    let done = rotated(pool, wrapped, last);
    assert forall|i: int|
        #![trigger done.defs[pool.defs.len() + i]]
        0 <= i < count implies done.defs[pool.defs.len() + i] == (DefinitionV {
        parent: last,
        ..pool.defs[method.locals[i]]
    }) by {
        let local = method.locals[i];
        assert(pool.is_named(local) && pool.value(local) is Local);
        assert(moved.defs[local] == pool.defs[local]);
        assert(!to.contains(local)) by {
            if to.contains(local) {
                let k = choose|k: int| 0 <= k < to.len() && to[k] == local;
                assert(pool.value(to[k]) is Parameter);
            }
        }
        assert(a.defs[local] == moved.defs[local]);
        assert(copy_locals(a, method.locals, count, last).defs[a.defs.len() + i] == (DefinitionV {
            parent: last,
            ..a.defs[local]
        }));
    }
    assert forall|i: int| 0 <= i < n implies done.name_of(#[trigger] to[i]) == done.name_of(
        from[i],
    ) by {
        assert(pool.value(to[i]) is Parameter && pool.value(from[i]) is Parameter);
        assert(a.defs[to[i]].name == moved.defs[from[i]].name);
        assert(a.defs[from[i]] == moved.defs[from[i]]);
        assert(b.defs[to[i]] == a.defs[to[i]]);
        assert(b.defs[from[i]] == a.defs[from[i]]);
    }
}

} // verus!
