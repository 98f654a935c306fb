//! What a compilation writes to the constant pool, and which functions are left to be given a body.
use vstd::prelude::*;

use crate::assemble::{
    define_all, define_items, is_added, item_named, items_define, items_named, lemma_define_items,
    member_entry, wrapper_builder, wrappers_ok, Chain, DefineV,
};
use crate::commit::{
    build, entry_builds, fun_ok, fun_there, index_ok, keeps_funs, lemma_grows_fills,
    lemma_keeps_fills, lemma_types_built, lemma_types_reserved, linked, method_defined,
    method_known, nowhere, params_named, reserve_types, type_builds, types_build, types_built,
    types_reserved, BuildV,
};
use crate::compiler::CompilerV;
use crate::db::{CompilationDb, DbV};
use crate::dict::{ints, views, DictV, MemberDict};
use crate::error::{CompileError, ErrorReporter};
use crate::funcs::FuncEntryV;
use crate::inheritance::{
    bases_of, inherit, inherit_ok, law_less_deep_comes_first, law_promotion, lemma_bases_of,
    lemma_sort_len, method_at, promoted_method,
};
use crate::pool::{ConstantPool, PoolIndex, PoolV};
use crate::queue::{
    CodeGenItem, CodeGenItemV, CompilationOutputs, FunctionTask, FunctionTaskV, OutputsV,
};
use crate::repo::{ref_id, RepoV, TypeRepo};
use crate::tables::{opt_int, MemberIdV, Slot};
use crate::type_cache::{image, ImageV, TypeCache};
use crate::wrap::{chained, chains, lemma_rotate_all, rotate_all, rotate_wrappers, wrapped_ok};

verus! {

/// The number of wrappers of a method among the first `n` functions in the queue.
pub open spec fn wrap_rank(items: Seq<CodeGenItemV>, n: int, id: MemberIdV) -> int
    decreases n,
{
    if n <= 0 {
        0
    } else {
        wrap_rank(items, n - 1, id) + if items[n - 1] matches CodeGenItemV::WrapMethod(other, _, _)
            && other == id {
            1int
        } else {
            0
        }
    }
}

/// A function that is left to be given a body: where it is and where its parameters are, the
/// function that `wrappedMethod` calls, and what its body is checked with.
pub struct Assembly {
    pub function: PoolIndex,
    pub parameters: Vec<PoolIndex>,
    pub wrapped: Option<PoolIndex>,
    pub task: FunctionTask,
}

pub struct AssemblyV {
    pub function: int,
    pub parameters: Seq<int>,
    pub wrapped: Option<int>,
    pub task: FunctionTaskV,
}

impl View for Assembly {
    type V = AssemblyV;

    open spec fn view(&self) -> AssemblyV {
        AssemblyV {
            function: self.function as int,
            parameters: ints(self.parameters@),
            wrapped: opt_int(self.wrapped),
            task: self.task@,
        }
    }
}

/// A function in the pool that is to be given the body of a task.
pub open spec fn assembly(
    function: int,
    wrapped: Option<int>,
    task: FunctionTaskV,
    pool: PoolV,
) -> AssemblyV {
    AssemblyV {
        function,
        parameters: pool.value(function)->Function_0.parameters,
        wrapped,
        task,
    }
}

/// What the function at a place in the queue is left to be: the `k`-th wrapper of a method calls
/// the `k`-th function of the chain and is the one behind it.
pub open spec fn assemble(
    items: Seq<CodeGenItemV>,
    i: int,
    db: DbV,
    chains: DictV<MemberIdV, Seq<int>>,
    pool: PoolV,
) -> AssemblyV {
    match items[i] {
        CodeGenItemV::AssembleMethod(id, task, is_static) => assembly(
            if is_static {
                db.statics[id]
            } else {
                db.methods[id]
            },
            None,
            task,
            pool,
        ),
        CodeGenItemV::AddMethod(id, task, is_static) => assembly(
            if is_static {
                db.statics[id]
            } else {
                db.methods[id]
            },
            None,
            task,
            pool,
        ),
        CodeGenItemV::AssembleGlobal(slot, task) => assembly(db.globals[slot], None, task, pool),
        CodeGenItemV::WrapMethod(id, task, _) => {
            let k = wrap_rank(items, i, id);
            assembly(chains.at(id)[k + 1], Some(chains.at(id)[k]), task, pool)
        },
    }
}

/// What a compilation writes to the pool, and what is left to be given a body.
pub struct CommittedV {
    pub build: BuildV,
    pub assemblies: Seq<AssemblyV>,
}

/// The build once all types are defined.
pub open spec fn after_types(repo: RepoV, types: Seq<Seq<char>>, s: BuildV) -> BuildV {
    let n = types.len() as int;
    types_built(repo, types, n, types_reserved(repo, types, n, s))
}

/// The build once all types are defined, when no method has a wrapper yet.
pub open spec fn before_items(out: OutputsV, s: BuildV) -> DefineV {
    DefineV { build: after_types(out.repo, out.defined, s), wrappers: DictV::empty() }
}

/// The build once all functions in the queue have their places, and the wrappers of each method.
pub open spec fn after_items(out: OutputsV, s: BuildV) -> DefineV {
    define_items(out.repo, out.items, out.items.len() as int, before_items(out, s))
}

/// Types are defined, functions get their places, the last wrapper of each method takes the place
/// of the method, and then every function in the queue is left to be given its body.
pub open spec fn committed(out: OutputsV, s: BuildV) -> CommittedV {
    let at = after_items(out, s);
    let db = at.build.db;
    let pool = rotate_all(
        db,
        at.wrappers,
        at.wrappers.keys.len() as int,
        at.build.image.pool,
    );
    CommittedV {
        build: BuildV { image: ImageV { pool, ..at.build.image }, db },
        assemblies: Seq::new(
            out.items.len(),
            |i: int| assemble(out.items, i, db, chains(db, at.wrappers), pool),
        ),
    }
}

/// Whether it is known where the function that is to be given a body, or to be wrapped, is.
pub open spec fn item_known(item: CodeGenItemV, db: DbV) -> bool {
    match item {
        CodeGenItemV::AssembleMethod(id, _, is_static) => if is_static {
            db.statics.dom().contains(id)
        } else {
            db.methods.dom().contains(id)
        },
        CodeGenItemV::AddMethod(id, _, is_static) => is_static ==> db.statics.dom().contains(id),
        CodeGenItemV::WrapMethod(id, _, _) => db.methods.dom().contains(id),
        CodeGenItemV::AssembleGlobal(_, _) => true,
    }
}

/// Whether a method is defined with the types, or with the first `n` functions in the queue.
pub open spec fn defined_by(out: OutputsV, n: int, id: MemberIdV) -> bool {
    method_defined(out.repo, out.defined, out.defined.len() as int, id) || is_added(
        out.items,
        n,
        id,
    )
}

/// Whether the parameters of a method have names once all types and the first `n` functions in the
/// queue are defined.
pub open spec fn named_by(out: OutputsV, n: int, s: BuildV, id: MemberIdV) -> bool {
    defined_by(out, n, id) || (s.db.methods.dom().contains(id) && params_named(
        s.image.pool,
        s.db.methods[id],
    ))
}

/// Whether a method that is wrapped has a name, named parameters, and code that stays within its
/// locals.
pub open spec fn wrappable(out: OutputsV, s: BuildV, id: MemberIdV) -> bool {
    defined_by(out, out.items.len() as int, id) || (s.db.methods.dom().contains(id) && fun_ok(
        s.image.pool,
        s.db.methods[id],
    ))
}

/// Whether what a callback overrides has names that it can take over when its turn comes.
pub open spec fn callback_ok(out: OutputsV, n: int, s: BuildV, entry: FuncEntryV) -> bool {
    entry.flags.is_callback ==> (entry.base matches Some(base) ==> named_by(out, n, s, base))
}

/// Whether the function at a place in the queue finds what it takes over names from, and the method
/// that it wraps can change places with it.
pub open spec fn item_fits(out: OutputsV, i: int, s: BuildV) -> bool {
    match out.items[i] {
        CodeGenItemV::AddMethod(id, _, is_static) => callback_ok(
            out,
            i,
            s,
            member_entry(out.repo, id, is_static),
        ),
        CodeGenItemV::WrapMethod(id, _, is_static) => {
            &&& callback_ok(out, i, s, member_entry(out.repo, id, is_static))
            &&& wrappable(out, s, id)
        },
        _ => true,
    }
}

/// Whether a compilation can be written to the pool.
pub open spec fn commit_ok(out: OutputsV, s: BuildV) -> bool {
    &&& out.repo.is_builtin(ref_id())
    &&& linked(s.db, s.image.pool)
    &&& types_build(out.repo, out.defined, s)
    &&& items_define(out.repo, out.items, before_items(out, s))
    &&& forall|i: int|
        0 <= i < out.items.len() ==> item_known(
            #[trigger] out.items[i],
            after_items(out, s).build.db,
        )
    &&& forall|i: int| 0 <= i < out.items.len() ==> #[trigger] item_fits(out, i, s)
}

/// Each method has as many wrappers as there are functions in the queue that wrap it, and each
/// global function and added method in the queue has its place.
pub proof fn lemma_places(repo: RepoV, items: Seq<CodeGenItemV>, n: int, s: DefineV)
    requires
        0 <= n <= items.len(),
        s.wrappers == DictV::<MemberIdV, Seq<int>>::empty(),
    ensures
        ({
            let done = define_items(repo, items, n, s);
            &&& done.wrappers.wf()
            &&& forall|id: MemberIdV| #[trigger]
                done.wrappers.has(id) <==> wrap_rank(items, n, id) > 0
            &&& forall|id: MemberIdV|
                done.wrappers.has(id) ==> (#[trigger] done.wrappers.at(id)).len() == wrap_rank(
                    items,
                    n,
                    id,
                )
            &&& forall|i: int|
                0 <= i < n ==> match #[trigger] items[i] {
                    CodeGenItemV::AssembleGlobal(slot, _) => done.build.db.globals.dom().contains(
                        slot,
                    ),
                    CodeGenItemV::AddMethod(id, _, _) => done.build.db.methods.dom().contains(id),
                    _ => true,
                }
        }),
    decreases n,
{
    if n > 0 {
        lemma_places(repo, items, n - 1, s);
        let at = define_items(repo, items, n - 1, s);
        let done = define_items(repo, items, n, s);
        let item = items[n - 1];
        if let CodeGenItemV::WrapMethod(id, _, is_static) = item {
            let fun = wrapper_builder(
                n - 1,
                member_entry(repo, id, is_static),
                at.build.db,
            );
            let idx = fun.index(at.build.image);
            let chain = match at.wrappers.get(id) {
                Some(chain) => chain.push(idx),
                None => seq![idx],
            };
            assert(done.wrappers == at.wrappers.put(id, chain));
            at.wrappers.lemma_put(id, chain);
            assert forall|other: MemberIdV| #[trigger] done.wrappers.has(other) implies wrap_rank(
                items,
                n,
                other,
            ) > 0 && done.wrappers.at(other).len() == wrap_rank(items, n, other) by {
                lemma_rank(items, n - 1, other);
                if other == id {
                    assert(done.wrappers.get(id) == Some(chain));
                } else {
                    assert(done.wrappers.get(other) == at.wrappers.get(other));
                    assert(at.wrappers.has(other));
                }
            }
            assert forall|other: MemberIdV| wrap_rank(items, n, other) > 0 implies #[trigger] done.wrappers.has(
            other) by {
                if other == id {
                    assert(done.wrappers.get(id) == Some(chain));
                } else {
                    assert(at.wrappers.has(other));
                    assert(done.wrappers.has(other) <==> at.wrappers.has(other));
                }
            }
        } else {
            assert(done.wrappers == at.wrappers);
            assert forall|other: MemberIdV| #[trigger] done.wrappers.has(other) <==> wrap_rank(
                items,
                n,
                other,
            ) > 0 by {
                assert(at.wrappers.has(other) <==> wrap_rank(items, n - 1, other) > 0);
            }
        }
    } else {
        assert forall|id: MemberIdV| !#[trigger] s.wrappers.has(id) by {}
    }
}

pub proof fn lemma_rank(items: Seq<CodeGenItemV>, n: int, id: MemberIdV)
    ensures
        wrap_rank(items, n, id) >= 0,
    decreases n,
{
    if n > 0 {
        lemma_rank(items, n - 1, id);
    }
}

/// Later functions in the queue have no lower rank.
pub proof fn lemma_rank_grows(items: Seq<CodeGenItemV>, i: int, n: int, id: MemberIdV)
    requires
        0 <= i <= n,
    ensures
        wrap_rank(items, i, id) <= wrap_rank(items, n, id),
    decreases n,
{
    if i < n {
        lemma_rank_grows(items, i, n - 1, id);
    }
}

/// Whether the function at a place in the queue can be told where it is.
spec fn assembles(
    items: Seq<CodeGenItemV>,
    i: int,
    db: DbV,
    chains: DictV<MemberIdV, Seq<int>>,
    pool: PoolV,
) -> bool {
    match items[i] {
        CodeGenItemV::AssembleMethod(id, _, is_static) => if is_static {
            db.statics.dom().contains(id)
        } else {
            db.methods.dom().contains(id)
        },
        CodeGenItemV::AddMethod(id, _, is_static) => if is_static {
            db.statics.dom().contains(id)
        } else {
            db.methods.dom().contains(id)
        },
        CodeGenItemV::AssembleGlobal(slot, _) => db.globals.dom().contains(slot),
        CodeGenItemV::WrapMethod(id, _, _) => {
            let k = wrap_rank(items, i, id);
            &&& chains.has(id)
            &&& 0 <= k
            &&& k + 1 < chains.at(id).len()
            &&& fun_there(pool, chains.at(id)[k + 1])
        },
    }
}

/// The count that is noted for a method.
spec fn noted(seen: DictV<MemberIdV, int>, id: MemberIdV) -> int {
    match seen.get(id) {
        Some(n) => n,
        None => 0,
    }
}

/// A second copy of a list of indices.
fn dup_indices(list: &Vec<PoolIndex>) -> (res: Vec<PoolIndex>)
    ensures
        res@ == list@,
{
    let mut res: Vec<PoolIndex> = Vec::new();
    let mut i: usize = 0;
    while i < list.len()
        invariant
            i <= list.len(),
            res@ == list@.take(i as int),
        decreases list.len() - i,
    {
        res.push(list[i]);
        assert(list@.take(i + 1) =~= list@.take(i as int).push(list@[i as int]));
        i += 1;
    }
    assert(list@.take(i as int) =~= list@);
    res
}

/// The function at an index, which is to be given the body of a task.
fn make_assembly(
    function: PoolIndex,
    wrapped: Option<PoolIndex>,
    task: FunctionTask,
    pool: &ConstantPool,
) -> (res: Assembly)
    requires
        fun_there(pool@, function as int),
    ensures
        res@ == assembly(function as int, opt_int(wrapped), task@, pool@),
{
    let parameters = dup_indices(&pool.function(function).parameters);
    Assembly { function, parameters, wrapped, task }
}

/// Tells where each function in the queue is.
fn assemble_all(
    items: Vec<CodeGenItem>,
    db: &CompilationDb,
    chains: &MemberDict<Chain>,
    pool: &ConstantPool,
) -> (res: Vec<Assembly>)
    requires
        linked(db@, pool@),
        forall|i: int|
            0 <= i < items@.len() ==> #[trigger] assembles(
                views(items@),
                i,
                db@,
                chains@,
                pool@,
            ),
    ensures
        views(res@) == Seq::new(
            items@.len(),
            |i: int| assemble(views(items@), i, db@, chains@, pool@),
        ),
{
    broadcast use crate::dict::group_views;

    let ghost all = views(items@);
    let ghost source = items@;
    let ghost due = Seq::new(
        all.len(),
        |i: int| assemble(all, i, db@, chains@, pool@),
    );
    let mut seen: MemberDict<Slot> = MemberDict::new();
    let mut res: Vec<Assembly> = Vec::new();
    assert forall|id: MemberIdV| #[trigger] noted(seen@, id) == 0 by {}
    for item in iter: items
        invariant
            iter.seq() == source,
            all == views(source),
            linked(db@, pool@),
            forall|i: int|
                0 <= i < all.len() ==> #[trigger] assembles(all, i, db@, chains@, pool@),
            due.len() == all.len(),
            forall|i: int|
                0 <= i < all.len() ==> #[trigger] due[i] == assemble(
                    all,
                    i,
                    db@,
                    chains@,
                    pool@,
                ),
            seen@.wf(),
            forall|id: MemberIdV| #[trigger]
                noted(seen@, id) == wrap_rank(all, iter.index() as int, id),
            res@.len() == iter.index(),
            forall|i: int| 0 <= i < res@.len() ==> (#[trigger] res@[i])@ == due[i],
    {
        let ghost i = iter.index() as int;
        assert(item == source[i]);
        assert(all[i] == item@);
        assert(assembles(all, i, db@, chains@, pool@));
        let ghost was = seen@;
        let next = match item {
            CodeGenItem::AssembleMethod(id, task, is_static) => {
                let function = if is_static {
                    db.static_index(&id).unwrap()
                } else {
                    db.method_index(&id).unwrap()
                };
                make_assembly(function, None, task, pool)
            },
            CodeGenItem::AddMethod(id, task, is_static) => {
                let function = if is_static {
                    db.static_index(&id).unwrap()
                } else {
                    db.method_index(&id).unwrap()
                };
                make_assembly(function, None, task, pool)
            },
            CodeGenItem::AssembleGlobal(slot, task) => {
                let function = db.global_index(slot).unwrap();
                make_assembly(function, None, task, pool)
            },
            CodeGenItem::WrapMethod(id, task, _) => {
                let k: usize = match seen.get(&id) {
                    Some(k) => k.at,
                    None => 0,
                };
                assert(k == noted(was, id@));
                let chain = chains.get(&id).unwrap();
                assert(chain@.len() == chain.items@.len());
                assert(k + 1 < chain.items.len());
                assert(chain@[k as int] == chain.items@[k as int]);
                assert(chain@[k + 1] == chain.items@[k + 1]);
                let wrapped = chain.items[k];
                let function = chain.items[k + 1];
                proof {
                    was.lemma_put(id@, k + 1);
                    assert forall|other: MemberIdV| other != id@ implies #[trigger] noted(
                        was.put(id@, k + 1),
                        other,
                    ) == noted(was, other) by {
                        assert(was.put(id@, k + 1).get(other) == was.get(other));
                    }
                }
                let _ = seen.insert(id, Slot { at: k + 1 });
                make_assembly(function, Some(wrapped), task, pool)
            },
        };
        assert(next@ == due[i]);
        res.push(next);
        assert forall|id: MemberIdV| #[trigger] noted(seen@, id) == wrap_rank(all, i + 1, id) by {
            assert(noted(was, id) == wrap_rank(all, i, id));
        }
    }
    assert(views(res@) =~= due);
    res
}

/// All types and functions, and the functions that are left to be given a body.
pub struct Plan {
    pub repo: TypeRepo,
    pub assemblies: Vec<Assembly>,
}

pub proof fn lemma_types_step(repo: RepoV, types: Seq<Seq<char>>, n: int, s: BuildV)
    requires
        linked(s.db, s.image.pool),
        types_build(repo, types, s),
        0 <= n <= types.len(),
    ensures
        ({
            let start = types_reserved(repo, types, types.len() as int, s);
            let done = types_built(repo, types, n, start);
            &&& index_ok(done.db, done.image.pool)
            &&& done.db.classes == start.db.classes
            &&& done.db.enums == start.db.enums
            &&& keeps_funs(s.image.pool, done.image.pool)
            &&& forall|id: MemberIdV| #[trigger]
                method_defined(repo, types, n, id) ==> done.db.methods.dom().contains(id)
                    && fun_ok(done.image.pool, done.db.methods[id])
            &&& forall|id: MemberIdV|
                !method_defined(repo, types, n, id) ==> (
                #[trigger] done.db.methods.dom().contains(id) <==> s.db.methods.dom().contains(id))
                    && done.db.methods[id] == s.db.methods[id]
            &&& n < types.len() ==> type_builds(repo, types[n], done)
            &&& n == types.len() ==> linked(done.db, done.image.pool)
        }),
{
    let start = types_reserved(repo, types, types.len() as int, s);
    lemma_types_reserved(repo, types, types.len() as int, s);
    lemma_grows_fills(s.image, start.image);
    lemma_keeps_fills(s.image.pool, start.image.pool, nowhere());
    assert(types_build(repo, types, start)) by {
        assert forall|i: int, slot: int|
            #![trigger repo.class(types[i]).methods.entries[slot]]
            0 <= i < types.len() && repo.is_class(types[i]) && 0 <= slot < repo.class(
                types[i],
            ).methods.entries.len() implies entry_builds(
            repo,
            types,
            i,
            start,
            repo.class(types[i]).methods.entries[slot],
        ) by {
            let entry = repo.class(types[i]).methods.entries[slot];
            assert(entry_builds(repo, types, i, s, entry));
            if entry.base is Some && !method_defined(repo, types, i, entry.base->0)
                && entry.flags.is_callback {
                assert(params_named(s.image.pool, s.db.methods[entry.base->0]));
            }
        }
    }
    lemma_types_built(repo, types, n, start);
    if n == types.len() {
        let done = types_built(repo, types, n, start);
        assert forall|id: Seq<char>| #[trigger]
            done.db.classes.dom().contains(id) implies done.image.pool.value(
            done.db.classes[id],
        ) is Class by {
            assert(types.skip(n) =~= Seq::empty());
        }
    }
}

/// Everything that is left to be given a body has its place.
proof fn lemma_assembles(out: OutputsV, s: BuildV, i: int)
    requires
        commit_ok(out, s),
        0 <= i < out.items.len(),
    ensures
        ({
            let at = after_items(out, s);
            let pool = committed(out, s).build.image.pool;
            &&& linked(at.build.db, at.build.image.pool)
            &&& wrappers_ok(at.wrappers, at.build.image.pool)
            &&& wrapped_ok(at.build.db, at.wrappers, at.build.image.pool)
            &&& assembles(out.items, i, at.build.db, chains(at.build.db, at.wrappers), pool)
        }),
{
    let n = out.items.len() as int;
    let start = before_items(out, s);
    lemma_types_step(out.repo, out.defined, out.defined.len() as int, s);
    lemma_define_items(out.repo, out.items, n, start);
    lemma_places(out.repo, out.items, n, start);
    let at = after_items(out, s);
    let db = at.build.db;
    lemma_wrapped_ok(out, s);
    let all = chains(db, at.wrappers);
    let pool = committed(out, s).build.image.pool;
    lemma_rotate_all(db, at.wrappers, at.wrappers.keys.len() as int, at.build.image.pool);
    assert(item_known(out.items[i], db));
    if let CodeGenItemV::WrapMethod(id, _, _) = out.items[i] {
        let k = wrap_rank(out.items, i, id);
        lemma_rank(out.items, i, id);
        lemma_rank_grows(out.items, i + 1, n, id);
        assert(wrap_rank(out.items, i + 1, id) == k + 1);
        assert(at.wrappers.has(id));
        let slot = at.wrappers.keys.index_of(id);
        let ws = at.wrappers.vals[slot];
        assert(ws == at.wrappers.at(id));
        let chain = chained(ws, db.methods[id]);
        assert(all.at(id) == chain);
        if k + 1 < ws.len() {
            assert(chain[k + 1] == ws[k]);
            assert(fun_ok(pool, at.wrappers.vals[slot][k]));
        } else {
            assert(chain[k + 1] == db.methods[id]);
        }
    }
}

/// Methods that are defined are whole, and all others are what and where they were.
pub proof fn lemma_methods_stay(out: OutputsV, s: BuildV, n: int)
    requires
        linked(s.db, s.image.pool),
        types_build(out.repo, out.defined, s),
        items_define(out.repo, out.items, before_items(out, s)),
        0 <= n <= out.items.len(),
    ensures
        ({
            let at = define_items(out.repo, out.items, n, before_items(out, s)).build;
            &&& keeps_funs(s.image.pool, at.image.pool)
            &&& forall|id: MemberIdV| #[trigger]
                defined_by(out, n, id) ==> at.db.methods.dom().contains(id) && fun_ok(
                    at.image.pool,
                    at.db.methods[id],
                )
            &&& forall|id: MemberIdV|
                !defined_by(out, n, id) ==> (#[trigger] at.db.methods.dom().contains(id)
                    <==> s.db.methods.dom().contains(id)) && at.db.methods[id] == s.db.methods[id]
        }),
{
    let total = out.defined.len() as int;
    let start = before_items(out, s);
    lemma_types_step(out.repo, out.defined, total, s);
    lemma_define_items(out.repo, out.items, n, start);
    let at = define_items(out.repo, out.items, n, start).build;
    assert forall|id: MemberIdV| #[trigger] defined_by(
        out,
        n,
        id,
    ) implies at.db.methods.dom().contains(id) && fun_ok(at.image.pool, at.db.methods[id]) by {
        if !is_added(out.items, n, id) {
            assert(method_defined(out.repo, out.defined, total, id));
            assert(fun_ok(start.build.image.pool, start.build.db.methods[id]));
            assert(at.db.methods.dom().contains(id) <==> start.build.db.methods.dom().contains(id));
        }
    }
    assert forall|id: MemberIdV| !defined_by(out, n, id) implies (
    #[trigger] at.db.methods.dom().contains(id) <==> s.db.methods.dom().contains(id))
        && at.db.methods[id] == s.db.methods[id] by {
        assert(!method_defined(out.repo, out.defined, total, id));
        assert(start.build.db.methods.dom().contains(id) <==> s.db.methods.dom().contains(id));
    }
}

/// What each callback in the queue overrides has named parameters when its turn comes.
proof fn lemma_items_named(out: OutputsV, s: BuildV)
    requires
        commit_ok(out, s),
    ensures
        items_named(out.repo, out.items, before_items(out, s)),
{
    reveal(items_named);
    reveal(items_define);
    assert forall|i: int| 0 <= i < out.items.len() implies item_named(
        out.repo,
        #[trigger] out.items[i],
        define_items(out.repo, out.items, i, before_items(out, s)).build,
    ) by {
        let at = define_items(out.repo, out.items, i, before_items(out, s)).build;
        lemma_methods_stay(out, s, i);
        assert(item_fits(out, i, s));
        match out.items[i] {
            CodeGenItemV::AddMethod(id, _, is_static)
            | CodeGenItemV::WrapMethod(id, _, is_static) => {
                let entry = member_entry(out.repo, id, is_static);
                if entry.flags.is_callback && entry.base is Some {
                    let base = entry.base->0;
                    assert(named_by(out, i, s, base));
                    if defined_by(out, i, base) {
                        assert(fun_ok(at.image.pool, at.db.methods[base]));
                    } else {
                        assert(params_named(s.image.pool, s.db.methods[base]));
                        assert(at.db.methods.dom().contains(base));
                    }
                }
            },
            _ => {},
        }
    }
}

/// Every method that is wrapped is there.
pub proof fn lemma_wrapped_ok(out: OutputsV, s: BuildV)
    requires
        commit_ok(out, s),
    ensures
        wrapped_ok(
            after_items(out, s).build.db,
            after_items(out, s).wrappers,
            after_items(out, s).build.image.pool,
        ),
{
    let n = out.items.len() as int;
    let start = before_items(out, s);
    lemma_methods_stay(out, s, n);
    lemma_places(out.repo, out.items, n, start);
    let at = after_items(out, s);
    assert forall|i: int| 0 <= i < at.wrappers.keys.len() implies at.build.db.methods.dom().contains(
        #[trigger] at.wrappers.keys[i],
    ) && fun_ok(at.build.image.pool, at.build.db.methods[at.wrappers.keys[i]]) by {
        let id = at.wrappers.keys[i];
        assert(at.wrappers.has(id));
        let k = lemma_some_wrapper(out.items, n, id);
        assert(item_known(out.items[k], at.build.db));
        assert(item_fits(out, k, s));
        assert(wrappable(out, s, id));
        if defined_by(out, n, id) {
            assert(fun_ok(at.build.image.pool, at.build.db.methods[id]));
        } else {
            assert(fun_ok(s.image.pool, s.db.methods[id]));
            assert(at.build.db.methods.dom().contains(id));
        }
    }
}

/// A method with a rank is wrapped by some function.
pub proof fn lemma_some_wrapper(items: Seq<CodeGenItemV>, n: int, id: MemberIdV) -> (k: int)
    requires
        0 <= n <= items.len(),
        wrap_rank(items, n, id) > 0,
    ensures
        0 <= k < n,
        items[k] matches CodeGenItemV::WrapMethod(other, _, _) && other == id,
    decreases n,
{
    if items[n - 1] matches CodeGenItemV::WrapMethod(other, _, _) && other == id {
        n - 1
    } else {
        lemma_some_wrapper(items, n - 1, id)
    }
}

/// Whether a function that is left to be given a body is there, and the function that it wraps.
pub open spec fn assembly_ok(done: AssemblyV, pool: PoolV) -> bool {
    &&& fun_there(pool, done.function)
    &&& done.wrapped matches Some(wrapped) ==> fun_there(pool, wrapped)
}

/// Every function that is left to be given a body is there, and so is the function that it wraps.
pub proof fn law_assemblies_are_there(out: OutputsV, s: BuildV, i: int)
    requires
        commit_ok(out, s),
        0 <= i < out.items.len(),
    ensures
        assembly_ok(committed(out, s).assemblies[i], committed(out, s).build.image.pool),
{
    lemma_assembles(out, s, i);
    let at = after_items(out, s);
    let db = at.build.db;
    let pool = committed(out, s).build.image.pool;
    lemma_rotate_all(db, at.wrappers, at.wrappers.keys.len() as int, at.build.image.pool);
    if let CodeGenItemV::WrapMethod(id, _, _) = out.items[i] {
        let k = wrap_rank(out.items, i, id);
        let slot = at.wrappers.keys.index_of(id);
        let ws = at.wrappers.vals[slot];
        let chain = chained(ws, db.methods[id]);
        assert(chains(db, at.wrappers).at(id) == chain);
        if k == 0 {
            assert(chain[k] == ws[ws.len() - 1]);
            assert(fun_ok(pool, at.wrappers.vals[slot][ws.len() - 1]));
        } else {
            assert(chain[k] == ws[k - 1]);
            assert(fun_ok(pool, at.wrappers.vals[slot][k - 1]));
        }
    }
}

impl CompilationOutputs {
    /// Writes a compilation to the pool. Tells which functions are left to be given a body.
    pub fn commit(
        self,
        db: &mut CompilationDb,
        cache: &mut TypeCache,
        pool: &mut ConstantPool,
    ) -> (res: Plan)
        requires
            commit_ok(self@, build(*old(pool), *old(cache), *old(db))),
        ensures
            (CommittedV {
                build: build(*final(pool), *final(cache), *final(db)),
                assemblies: views(res.assemblies@),
            }) == committed(self@, build(*old(pool), *old(cache), *old(db))),
            res.repo@ == self@.repo,
            linked(final(db)@, final(pool)@),
            forall|i: int|
                0 <= i < res.assemblies@.len() ==> assembly_ok(
                    (#[trigger] res.assemblies@[i])@,
                    final(pool)@,
                ),
    {
        let ghost out = self@;
        let ghost start = build(*pool, *cache, *db);
        let repo = self.repo;
        let types = self.defined_types;
        let items = self.codegen_queue;
        let ghost n = out.defined.len() as int;
        proof {
            lemma_types_step(out.repo, out.defined, 0, start);
            assert forall|i: int| 0 <= i < types@.len() implies repo@.has((#[trigger] types@[i])@) by {
                assert(out.defined[i] == types@[i]@);
            }
        }
        reserve_types(&types, &repo, db, cache, pool);
        let ghost reserved = build(*pool, *cache, *db);
        let mut i: usize = 0;
        while i < types.len()
            invariant
                i <= types.len(),
                out.repo == repo@,
                out.defined == views(types@),
                n == types@.len(),
                out.repo.is_builtin(ref_id()),
                linked(start.db, start.image.pool),
                types_build(out.repo, out.defined, start),
                reserved == types_reserved(out.repo, out.defined, n, start),
                build(*pool, *cache, *db) == types_built(
                    out.repo,
                    out.defined,
                    i as int,
                    reserved,
                ),
            decreases types.len() - i,
        {
            proof {
                lemma_types_step(out.repo, out.defined, i as int, start);
                assert(out.defined[i as int] == types@[i as int]@);
            }
            CompilationOutputs::build_type(&types[i], &repo, db, cache, pool);
            i += 1;
        }
        proof {
            lemma_types_step(out.repo, out.defined, n, start);
            lemma_items_named(out, start);
        }
        let mut wrappers = define_all(&items, &repo, db, cache, pool);
        proof {
            lemma_wrapped_ok(out, start);
        }
        rotate_wrappers(&mut wrappers, db, pool);
        proof {
            assert forall|k: int| 0 <= k < items@.len() implies #[trigger] assembles(
                views(items@),
                k,
                db@,
                wrappers@,
                pool@,
            ) by {
                lemma_assembles(out, start, k);
            }
        }
        let assemblies = assemble_all(items, db, &wrappers, pool);
        proof {
            assert forall|k: int| 0 <= k < assemblies@.len() implies assembly_ok(
                (#[trigger] assemblies@[k])@,
                pool@,
            ) by {
                assert(views(assemblies@)[k] == assemblies@[k]@);
                assert(views(assemblies@).len() == out.items.len());
                law_assemblies_are_there(out, start, k);
            }
        }
        Plan { repo, assemblies }
    }

    /// The errors so far.
    pub fn reporter(&self) -> (res: &ErrorReporter)
        ensures
            res@ == self@.errors,
    {
        &self.reporter
    }

    /// Reports an error that checking a function body has found.
    pub fn report(&mut self, err: CompileError)
        ensures
            final(self)@ == (OutputsV { errors: old(self)@.errors.push(err@), ..old(self)@ }),
    {
        self.reporter.report(err);
    }

    /// All errors, oldest first.
    pub fn into_errors(self) -> (res: Vec<CompileError>)
        ensures
            views(res@) == self@.errors,
    {
        self.reporter.into_errors()
    }
}

/// Whether the function at a place in the queue wraps a method.
pub open spec fn wraps(items: Seq<CodeGenItemV>, i: int, id: MemberIdV) -> bool {
    0 <= i < items.len() && (items[i] matches CodeGenItemV::WrapMethod(other, _, _) && other == id)
}

/// The wrappers of a method call each other in the reverse order of the queue: the first one calls
/// the method, which has moved to the index of the last wrapper, each further one calls the one
/// before it, and the last one is at the index that the method had, where its callers find it.
pub proof fn law_wrapper_chain(out: OutputsV, s: BuildV, id: MemberIdV, i: int)
    requires
        commit_ok(out, s),
        wraps(out.items, i, id),
    ensures
        ({
            let at = after_items(out, s);
            let db = at.build.db;
            let ws = at.wrappers.at(id);
            let done = committed(out, s).assemblies;
            let k = wrap_rank(out.items, i, id);
            &&& at.wrappers.has(id)
            &&& ws.len() == wrap_rank(out.items, out.items.len() as int, id)
            &&& 0 <= k < ws.len()
            &&& k == 0 ==> done[i].wrapped == Some(ws.last())
            &&& k == ws.len() - 1 ==> done[i].function == db.methods[id]
            &&& k < ws.len() - 1 ==> done[i].function == ws[k]
            &&& forall|j: int|
                #![trigger done[j]]
                wraps(out.items, j, id) && wrap_rank(out.items, j, id) == k + 1
                    ==> done[j].wrapped == Some(done[i].function)
        }),
{
    let n = out.items.len() as int;
    let start = before_items(out, s);
    lemma_places(out.repo, out.items, n, start);
    let at = after_items(out, s);
    let db = at.build.db;
    let k = wrap_rank(out.items, i, id);
    lemma_rank(out.items, i, id);
    lemma_rank_grows(out.items, i + 1, n, id);
    assert(wrap_rank(out.items, i + 1, id) == k + 1);
    assert(at.wrappers.has(id));
    let ws = at.wrappers.at(id);
    let all = chains(db, at.wrappers);
    let slot = at.wrappers.keys.index_of(id);
    assert(at.wrappers.vals[slot] == ws);
    assert(all.at(id) == chained(ws, db.methods[id]));
    let chain = chained(ws, db.methods[id]);
    if k < ws.len() - 1 {
        assert(chain[k + 1] == ws[k]);
    } else {
        assert(chain[k + 1] == db.methods[id]);
    }
    assert(chain[0] == ws.last());
}

/// The only wrapper of a method changes places with it.
pub proof fn law_single_wrapper(out: OutputsV, s: BuildV, id: MemberIdV, i: int)
    requires
        commit_ok(out, s),
        wraps(out.items, i, id),
        wrap_rank(out.items, out.items.len() as int, id) == 1,
    ensures
        ({
            let at = after_items(out, s);
            let done = committed(out, s).assemblies[i];
            &&& done.function == at.build.db.methods[id]
            &&& done.wrapped == Some(at.wrappers.at(id)[0])
        }),
{
    law_wrapper_chain(out, s, id, i);
}

/// The order that types are sorted in lets every overridden method be defined before the methods
/// that override it: where all methods of other classes are known, and no method says what it
/// overrides beforehand, what a method of a sorted type overrides is known when its turn comes.
pub proof fn law_overridden_is_defined_first(
    c: CompilerV,
    walks: Seq<Seq<MemberIdV>>,
    db: DbV,
    i: int,
    slot: int,
)
    requires
        c.repo.types.wf(),
        inherit_ok(c),
        forall|id: MemberIdV| #[trigger]
            c.repo.has_method(id) ==> db.methods.dom().contains(id) || c.defined.contains(id.owner),
        0 <= i < c.defined.len(),
        c.repo.has_method(MemberIdV { owner: inherit(c, walks).defined[i], slot }),
        method_at(c.repo, MemberIdV { owner: inherit(c, walks).defined[i], slot }).base is None,
    ensures
        ({
            let after = inherit(c, walks);
            let id = MemberIdV { owner: after.defined[i], slot };
            method_at(after.repo, id).base matches Some(base) ==> method_known(
                after.repo,
                after.defined,
                i,
                db,
                base,
            )
        }),
{
    let bases = bases_of(c).bases;
    let after = inherit(c, walks);
    let id = MemberIdV { owner: after.defined[i], slot };
    lemma_bases_of(c);
    law_promotion(c.repo, bases);
    assert(method_at(after.repo, id) == promoted_method(c.repo, bases, id));
    if bases.has(id) {
        let base = bases.at(id);
        assert(c.repo.has_method(base));
        assert(after.repo.has_method(base));
        if !db.methods.dom().contains(base) {
            lemma_sort_len(c.repo, c.defined, c.defined.len() as int);
            law_less_deep_comes_first(c.repo, c.defined, base.owner, i);
        }
    }
}

/// A compilation without types and functions leaves everything as it is.
pub proof fn law_empty_commit(out: OutputsV, s: BuildV)
    requires
        out.defined.len() == 0,
        out.items.len() == 0,
    ensures
        committed(out, s).build == s,
        committed(out, s).assemblies.len() == 0,
{
}

} // verus!
