//! How functions get their places in the constant pool, and how wrappers of methods are chained.
use vstd::prelude::*;

use crate::builders::{law_function_commit_extends, FunctionBuilder, FunctionBuilderV};
use crate::commit::{
    base_index, base_known, base_named, build, class_slot, entry_builder, enum_slot, fills, fun_ok,
    func_types_ok, function_builder, keeps_funs, lemma_fun_ok_fills, lemma_function_there,
    lemma_grows_fills, lemma_index_fills, lemma_keeps_fills, linked, nowhere, BuildV,
};
use crate::db::{CompilationDb, DbV};
use crate::dict::{ints, views, DictV, MemberDict};
use crate::flags::FunctionFlags;
use crate::funcs::{FuncEntry, FuncEntryV, FuncTypeV};
use crate::pool::{AnyDefinitionV, ConstantPool, PoolClassV, PoolIndex, PoolV, UNDEFINED};
use crate::queue::{CodeGenItem, CodeGenItemV, CompilationOutputs};
use crate::repo::{ref_id, RepoV, TypeRepo};
use crate::tables::{opt_int, MemberId, MemberIdV};
use crate::text::{self, decimal};
use crate::type_cache::{image, type_ok, ImageV, TypeCache};

verus! {

/// The name of a wrapper: the place of the wrapping function in the queue keeps it apart from the
/// other wrappers of the same method.
pub open spec fn wrapper_text(i: int, signature: Seq<char>) -> Seq<char> {
    "wrapper$"@ + decimal(i) + "$"@ + signature
}

/// The functions that wrap one method, oldest first.
pub struct Chain {
    pub items: Vec<PoolIndex>,
}

impl View for Chain {
    type V = Seq<int>;

    open spec fn view(&self) -> Seq<int> {
        ints(self.items@)
    }
}

/// A build, and the wrappers of each method.
pub struct DefineV {
    pub build: BuildV,
    pub wrappers: DictV<MemberIdV, Seq<int>>,
}

/// The method, or static function, of a class.
pub open spec fn member_entry(repo: RepoV, id: MemberIdV, is_static: bool) -> FuncEntryV {
    if is_static {
        repo.class(id.owner).statics.entries[id.slot]
    } else {
        repo.class(id.owner).methods.entries[id.slot]
    }
}

/// The pool with one more method in a class.
pub open spec fn with_class_method(pool: PoolV, class: int, method: int) -> PoolV {
    let def = pool.value(class)->Class_0;
    pool.put_value(
        class,
        AnyDefinitionV::Class(PoolClassV { methods: def.methods.push(method), ..def }),
    )
}

/// The image with a function of a class defined and listed in the class.
pub open spec fn define_method(
    fun: FunctionBuilderV,
    class: int,
    repo: RepoV,
    start: ImageV,
) -> ImageV {
    let done = fun.commit(class, repo, start);
    ImageV { pool: with_class_method(done.pool, class, fun.index(start)), ..done }
}

/// The definition of a wrapper of a method.
pub open spec fn wrapper_builder(i: int, entry: FuncEntryV, db: DbV) -> FunctionBuilderV {
    FunctionBuilderV {
        is_wrapper: true,
        ..function_builder(
            wrapper_text(i, entry.signature),
            entry.typ,
            entry.flags,
            base_index(db, entry.base),
        )
    }
}

/// The definition of a global function, which is static and final.
pub open spec fn global_builder(entry: FuncEntryV) -> FunctionBuilderV {
    function_builder(
        entry.signature,
        entry.typ,
        FunctionFlags { is_static: true, is_final: true, ..entry.flags },
        None,
    )
}

/// The wrappers with one more for a method.
pub open spec fn add_wrapper(
    wrappers: DictV<MemberIdV, Seq<int>>,
    id: MemberIdV,
    idx: int,
) -> DictV<MemberIdV, Seq<int>> {
    wrappers.put(
        id,
        match wrappers.get(id) {
            Some(chain) => chain.push(idx),
            None => seq![idx],
        },
    )
}

/// What is defined for the function at a place in the queue: a global function, a method that is
/// added to a class, or a wrapper of a method. A function that is only given a body is there.
pub open spec fn define_item(repo: RepoV, i: int, item: CodeGenItemV, s: DefineV) -> DefineV {
    let image = s.build.image;
    let db = s.build.db;
    match item {
        CodeGenItemV::AssembleGlobal(slot, _) => {
            let fun = global_builder(repo.globals.entries[slot]);
            DefineV {
                build: BuildV {
                    image: fun.commit(UNDEFINED as int, repo, image),
                    db: DbV { globals: db.globals.insert(slot, fun.index(image)), ..db },
                },
                ..s
            }
        },
        CodeGenItemV::AddMethod(id, _, is_static) => {
            let fun = entry_builder(member_entry(repo, id, is_static), db);
            DefineV {
                build: BuildV {
                    image: define_method(fun, db.classes[id.owner], repo, image),
                    db: DbV { methods: db.methods.insert(id, fun.index(image)), ..db },
                },
                ..s
            }
        },
        CodeGenItemV::WrapMethod(id, _, is_static) => {
            let fun = wrapper_builder(i, member_entry(repo, id, is_static), db);
            DefineV {
                build: BuildV {
                    image: define_method(fun, db.classes[id.owner], repo, image),
                    db,
                },
                wrappers: add_wrapper(s.wrappers, id, fun.index(image)),
            }
        },
        CodeGenItemV::AssembleMethod(_, _, _) => s,
    }
}

/// What is defined for the first `n` functions in the queue.
pub open spec fn define_items(repo: RepoV, items: Seq<CodeGenItemV>, n: int, s: DefineV) -> DefineV
    decreases n,
{
    if n <= 0 {
        s
    } else {
        define_item(repo, n - 1, items[n - 1], define_items(repo, items, n - 1, s))
    }
}

/// Whether the method, or static function, of a class is there.
pub open spec fn has_member(repo: RepoV, id: MemberIdV, is_static: bool) -> bool {
    if is_static {
        repo.has_static(id)
    } else {
        repo.has_method(id)
    }
}

/// Whether a method can be defined for a class.
pub open spec fn member_defines(repo: RepoV, id: MemberIdV, is_static: bool, db: DbV) -> bool {
    let entry = member_entry(repo, id, is_static);
    &&& has_member(repo, id, is_static)
    &&& func_types_ok(repo, entry.typ)
    &&& base_known(db, entry.base)
    &&& db.classes.dom().contains(id.owner)
}

/// Whether what a function in the queue needs can be defined.
pub open spec fn item_defines(repo: RepoV, item: CodeGenItemV, db: DbV) -> bool {
    match item {
        CodeGenItemV::AssembleGlobal(slot, _) => repo.globals.has(slot) && func_types_ok(
            repo,
            repo.globals.entries[slot].typ,
        ),
        CodeGenItemV::AddMethod(id, _, is_static) => member_defines(repo, id, is_static, db),
        CodeGenItemV::WrapMethod(id, _, is_static) => member_defines(repo, id, is_static, db),
        CodeGenItemV::AssembleMethod(_, _, _) => true,
    }
}

/// Whether the parameters of what a callback in the queue overrides have names.
pub open spec fn item_named(repo: RepoV, item: CodeGenItemV, s: BuildV) -> bool {
    match item {
        CodeGenItemV::AddMethod(id, _, is_static) | CodeGenItemV::WrapMethod(id, _, is_static) => {
            let entry = member_entry(repo, id, is_static);
            entry.flags.is_callback ==> base_named(s, entry.base)
        },
        _ => true,
    }
}

/// Whether one of the first `n` functions in the queue is added to a class as this method.
pub open spec fn is_added(items: Seq<CodeGenItemV>, n: int, id: MemberIdV) -> bool {
    exists|i: int| 0 <= i < n && #[trigger] adds(items[i], id)
}

/// Whether a function in the queue is added to a class as this method.
pub open spec fn adds(item: CodeGenItemV, id: MemberIdV) -> bool {
    item matches CodeGenItemV::AddMethod(other, _, _) && other == id
}

/// Whether all wrappers are there.
pub open spec fn wrappers_ok(wrappers: DictV<MemberIdV, Seq<int>>, pool: PoolV) -> bool {
    &&& wrappers.wf()
    &&& forall|i: int, k: int|
        #![trigger wrappers.vals[i][k]]
        0 <= i < wrappers.vals.len() && 0 <= k < wrappers.vals[i].len() ==> fun_ok(
            pool,
            wrappers.vals[i][k],
        )
    &&& forall|i: int| 0 <= i < wrappers.vals.len() ==> (#[trigger] wrappers.vals[i]).len() > 0
}

proof fn lemma_builder_ok(
    signature: Seq<char>,
    typ: FuncTypeV,
    flags: FunctionFlags,
    base: Option<MemberIdV>,
    repo: RepoV,
    s: BuildV,
)
    requires
        func_types_ok(repo, typ),
        base_known(s.db, base),
        flags.is_callback ==> base_named(s, base),
    ensures
        ({
            let fun = function_builder(signature, typ, flags, base_index(s.db, base));
            &&& fun.types_ok(repo)
            &&& fun.base_ok(s.image.pool)
            &&& fun.locals.len() == 0
            &&& fun.body.len() == 0
        }),
{
    let fun = function_builder(signature, typ, flags, base_index(s.db, base));
    assert forall|j: int| 0 <= j < fun.params.len() implies type_ok(
        (#[trigger] fun.params[j]).typ,
        repo,
    ) by {
        let param = typ.params[j];
    }
}

/// What is there stays there when a function is defined.
proof fn lemma_commit_keeps(
    fun: FunctionBuilderV,
    parent: int,
    repo: RepoV,
    s: BuildV,
    wrappers: DictV<MemberIdV, Seq<int>>,
)
    requires
        fun.locals.len() == 0,
        fun.body.len() == 0,
        linked(s.db, s.image.pool),
        wrappers_ok(wrappers, s.image.pool),
    ensures
        ({
            let done = fun.commit(parent, repo, s.image);
            &&& linked(s.db, done.pool)
            &&& wrappers_ok(wrappers, done.pool)
            &&& fun_ok(done.pool, fun.index(s.image))
            &&& keeps_funs(s.image.pool, done.pool)
        }),
{
    let done = fun.commit(parent, repo, s.image);
    law_function_commit_extends(fun, parent, repo, s.image);
    lemma_function_there(fun, parent, repo, s.image);
    lemma_grows_fills(s.image, done);
    lemma_kept(s.db, wrappers, s.image.pool, done.pool, nowhere());
    lemma_keeps_fills(s.image.pool, done.pool, nowhere());
}

/// What is there stays there when a class is put in its place.
proof fn lemma_kept(
    db: DbV,
    wrappers: DictV<MemberIdV, Seq<int>>,
    from: PoolV,
    to: PoolV,
    slot: int,
)
    requires
        linked(db, from),
        wrappers_ok(wrappers, from),
        fills(from, to, slot),
        from.has(slot) ==> from.value(slot) is Class && to.value(slot) is Class,
    ensures
        linked(db, to),
        wrappers_ok(wrappers, to),
{
    assert forall|id: Seq<char>| #[trigger] db.enums.dom().contains(id) && from.has(
        slot,
    ) implies db.enums[id] != slot by {
        assert(enum_slot(from, db.enums[id]));
    }
    lemma_index_fills(db, from, to, slot);
    assert forall|id: Seq<char>| #[trigger] db.classes.dom().contains(id) implies to.value(
        db.classes[id],
    ) is Class by {
        assert(class_slot(from, db.classes[id]));
        if db.classes[id] != slot {
            assert(to.defs[db.classes[id]] == from.defs[db.classes[id]]);
        }
    }
    assert forall|i: int, k: int|
        #![trigger wrappers.vals[i][k]]
        0 <= i < wrappers.vals.len() && 0 <= k < wrappers.vals[i].len() implies fun_ok(
        to,
        wrappers.vals[i][k],
    ) by {
        lemma_fun_ok_fills(from, to, slot, wrappers.vals[i][k]);
    }
}

proof fn lemma_define_method(
    fun: FunctionBuilderV,
    class: int,
    repo: RepoV,
    s: BuildV,
    wrappers: DictV<MemberIdV, Seq<int>>,
)
    requires
        fun.locals.len() == 0,
        fun.body.len() == 0,
        linked(s.db, s.image.pool),
        wrappers_ok(wrappers, s.image.pool),
        s.image.pool.has(class),
        s.image.pool.value(class) is Class,
    ensures
        ({
            let done = define_method(fun, class, repo, s.image);
            let mid = fun.commit(class, repo, s.image);
            &&& mid.pool.has(class)
            &&& mid.pool.value(class) is Class
            &&& linked(s.db, done.pool)
            &&& wrappers_ok(wrappers, done.pool)
            &&& fun_ok(done.pool, fun.index(s.image))
            &&& keeps_funs(s.image.pool, done.pool)
        }),
{
    let mid = fun.commit(class, repo, s.image);
    let done = define_method(fun, class, repo, s.image);
    lemma_commit_keeps(fun, class, repo, s, wrappers);
    law_function_commit_extends(fun, class, repo, s.image);
    assert(mid.pool.defs[class] == s.image.pool.defs[class]);
    assert(fills(mid.pool, done.pool, class));
    lemma_kept(s.db, wrappers, mid.pool, done.pool, class);
    lemma_keeps_fills(mid.pool, done.pool, class);
    lemma_fun_ok_fills(mid.pool, done.pool, class, fun.index(s.image));
}

/// Adding a wrapper to those of a method keeps all of them there.
proof fn lemma_add_wrapper(
    wrappers: DictV<MemberIdV, Seq<int>>,
    id: MemberIdV,
    idx: int,
    pool: PoolV,
)
    requires
        wrappers_ok(wrappers, pool),
        fun_ok(pool, idx),
    ensures
        wrappers_ok(add_wrapper(wrappers, id, idx), pool),
{
    let done = add_wrapper(wrappers, id, idx);
    wrappers.lemma_put(
        id,
        match wrappers.get(id) {
            Some(chain) => chain.push(idx),
            None => seq![idx],
        },
    );
    let at = wrappers.slot(id);
    assert forall|i: int, k: int|
        #![trigger done.vals[i][k]]
        0 <= i < done.vals.len() && 0 <= k < done.vals[i].len() implies fun_ok(
        pool,
        done.vals[i][k],
    ) by {
        if i != at {
            assert(done.vals[i] == wrappers.vals[i]);
            assert(fun_ok(pool, wrappers.vals[i][k]));
        } else if wrappers.has(id) && k < wrappers.vals[i].len() {
            assert(fun_ok(pool, wrappers.vals[i][k]));
        }
    }
    assert forall|i: int| 0 <= i < done.vals.len() implies (#[trigger] done.vals[i]).len() > 0 by {
        if i != at {
            assert(done.vals[i] == wrappers.vals[i]);
        }
    }
}

/// Defining what a function in the queue needs keeps everything there.
proof fn lemma_define_item(repo: RepoV, i: int, item: CodeGenItemV, s: DefineV)
    requires
        linked(s.build.db, s.build.image.pool),
        wrappers_ok(s.wrappers, s.build.image.pool),
        item_defines(repo, item, s.build.db),
    ensures
        ({
            let done = define_item(repo, i, item, s);
            &&& linked(done.build.db, done.build.image.pool)
            &&& wrappers_ok(done.wrappers, done.build.image.pool)
            &&& done.build.db.classes == s.build.db.classes
            &&& done.build.db.statics == s.build.db.statics
            &&& keeps_funs(s.build.image.pool, done.build.image.pool)
            &&& forall|id: MemberIdV| #[trigger]
                adds(item, id) ==> done.build.db.methods.dom().contains(id) && fun_ok(
                    done.build.image.pool,
                    done.build.db.methods[id],
                )
            &&& forall|id: MemberIdV|
                !adds(item, id) ==> (#[trigger] done.build.db.methods.dom().contains(id)
                    <==> s.build.db.methods.dom().contains(id)) && done.build.db.methods[id]
                    == s.build.db.methods[id]
        }),
{
    let db = s.build.db;
    let start = s.build.image;
    let done = define_item(repo, i, item, s);
    match item {
        CodeGenItemV::AssembleGlobal(slot, _) => {
            let entry = repo.globals.entries[slot];
            let fun = global_builder(entry);
            lemma_commit_keeps(fun, UNDEFINED as int, repo, s.build, s.wrappers);
        },
        CodeGenItemV::AddMethod(id, _, is_static) => {
            let entry = member_entry(repo, id, is_static);
            let fun = entry_builder(entry, db);
            assert(class_slot(start.pool, db.classes[id.owner]));
            lemma_define_method(fun, db.classes[id.owner], repo, s.build, s.wrappers);
        },
        CodeGenItemV::WrapMethod(id, _, is_static) => {
            let entry = member_entry(repo, id, is_static);
            let fun = wrapper_builder(i, entry, db);
            assert(class_slot(start.pool, db.classes[id.owner]));
            lemma_define_method(fun, db.classes[id.owner], repo, s.build, s.wrappers);
            lemma_add_wrapper(s.wrappers, id, fun.index(start), done.build.image.pool);
        },
        CodeGenItemV::AssembleMethod(_, _, _) => {},
    }
}

/// The name of a wrapper.
fn wrapper_name(i: usize, signature: &String) -> (res: String)
    ensures
        res@ == wrapper_text(i as int, signature@),
{
    let number = text::number(i);
    let mut res = text::concat("wrapper$", number.as_str());
    res.append("$");
    res.append(signature.as_str());
    res
}

/// The method, or static function, of a class.
pub(crate) fn find_member<'a>(repo: &'a TypeRepo, id: &MemberId, is_static: bool) -> (res: &'a FuncEntry)
    requires
        has_member(repo@, id@, is_static),
    ensures
        res@ == member_entry(repo@, id@, is_static),
{
    let class = repo.get_class(&id.owner).unwrap();
    if is_static {
        class.statics.entry(id.slot)
    } else {
        class.methods.entry(id.slot)
    }
}

/// Where the method that a method overrides is defined.
fn find_base(db: &CompilationDb, entry: &FuncEntry) -> (res: Option<PoolIndex>)
    requires
        base_known(db@, entry@.base),
    ensures
        opt_int(res) == base_index(db@, entry@.base),
{
    match &entry.base {
        Some(id) => db.method_index(id),
        None => None,
    }
}

/// Defines a function of a class and lists it in the class.
fn define_in_class(
    fun: FunctionBuilder,
    class: PoolIndex,
    repo: &TypeRepo,
    db: &CompilationDb,
    cache: &mut TypeCache,
    pool: &mut ConstantPool,
    wrappers: &MemberDict<Chain>,
) -> (idx: PoolIndex)
    requires
        repo@.is_builtin(ref_id()),
        fun@.locals.len() == 0,
        fun@.body.len() == 0,
        fun@.types_ok(repo@),
        fun@.base_ok(old(pool)@),
        linked(db@, old(pool)@),
        wrappers_ok(wrappers@, old(pool)@),
        old(pool)@.has(class as int),
        old(pool)@.value(class as int) is Class,
    ensures
        idx == fun@.index(image(*old(pool), *old(cache))),
        image(*final(pool), *final(cache)) == define_method(
            fun@,
            class as int,
            repo@,
            image(*old(pool), *old(cache)),
        ),
{
    proof {
        lemma_define_method(fun@, class as int, repo@, build(*pool, *cache, *db), wrappers@);
    }
    let idx = fun.commit(class, repo, pool, cache);
    pool.push_method(class, idx);
    idx
}

/// Adds a wrapper to those of a method.
fn push_wrapper(wrappers: &mut MemberDict<Chain>, id: &MemberId, idx: PoolIndex)
    ensures
        final(wrappers)@ == add_wrapper(old(wrappers)@, id@, idx as int),
{
    broadcast use crate::dict::group_views;

    let ghost was = wrappers@;
    match wrappers.find(id) {
        Some(i) => {
            let mut chain = wrappers.replace(i, Chain { items: Vec::new() });
            chain.items.push(idx);
            let _ = wrappers.replace(i, chain);
            assert(wrappers@ =~= add_wrapper(was, id@, idx as int));
        },
        None => {
            let mut items: Vec<PoolIndex> = Vec::new();
            items.push(idx);
            assert(ints(items@) =~= seq![idx as int]);
            let _ = wrappers.insert(id.dup(), Chain { items });
        },
    }
}

/// Defines what the function at a place in the queue needs.
fn define(
    i: usize,
    item: &CodeGenItem,
    repo: &TypeRepo,
    db: &mut CompilationDb,
    cache: &mut TypeCache,
    pool: &mut ConstantPool,
    wrappers: &mut MemberDict<Chain>,
)
    requires
        repo@.is_builtin(ref_id()),
        linked(old(db)@, old(pool)@),
        wrappers_ok(old(wrappers)@, old(pool)@),
        item_defines(repo@, item@, old(db)@),
        item_named(repo@, item@, build(*old(pool), *old(cache), *old(db))),
    ensures
        (DefineV {
            build: build(*final(pool), *final(cache), *final(db)),
            wrappers: final(wrappers)@,
        }) == define_item(
            repo@,
            i as int,
            item@,
            (DefineV {
                build: build(*old(pool), *old(cache), *old(db)),
                wrappers: old(wrappers)@,
            }),
        ),
{
    let ghost start = build(*pool, *cache, *db);
    match item {
        CodeGenItem::AssembleGlobal(slot, _) => {
            let entry = repo.globals.entry(*slot);
            let flags = FunctionFlags { is_static: true, is_final: true, ..entry.flags };
            proof {
                lemma_builder_ok(entry@.signature, entry@.typ, flags, None, repo@, start);
            }
            let fun = CompilationOutputs::build_function(&entry.signature, &entry.typ, flags, None);
            let idx = fun.commit_global(repo, pool, cache);
            db.set_global(*slot, idx);
        },
        CodeGenItem::AddMethod(id, _, is_static) => {
            let entry = find_member(repo, id, *is_static);
            proof {
                lemma_builder_ok(
                    entry@.signature,
                    entry@.typ,
                    entry@.flags,
                    entry@.base,
                    repo@,
                    start,
                );
            }
            let class = db.class_index(&id.owner).unwrap();
            assert(class_slot(pool@, class as int));
            let base = find_base(db, entry);
            let fun = CompilationOutputs::build_function(&entry.signature, &entry.typ, entry.flags, base);
            let idx = define_in_class(fun, class, repo, db, cache, pool, wrappers);
            db.set_method(id, idx);
        },
        CodeGenItem::WrapMethod(id, _, is_static) => {
            let entry = find_member(repo, id, *is_static);
            proof {
                lemma_builder_ok(
                    wrapper_text(i as int, entry@.signature),
                    entry@.typ,
                    entry@.flags,
                    entry@.base,
                    repo@,
                    start,
                );
            }
            let class = db.class_index(&id.owner).unwrap();
            assert(class_slot(pool@, class as int));
            let base = find_base(db, entry);
            let name = wrapper_name(i, &entry.signature);
            let fun = CompilationOutputs::build_function(&name, &entry.typ, entry.flags, base).with_wrapper_flag();
            let idx = define_in_class(fun, class, repo, db, cache, pool, wrappers);
            push_wrapper(wrappers, id, idx);
        },
        CodeGenItem::AssembleMethod(_, _, _) => {},
    }
}

/// Whether what each function in the queue needs can be defined when its turn comes.
#[verifier::opaque]
pub open spec fn items_define(repo: RepoV, items: Seq<CodeGenItemV>, s: DefineV) -> bool {
    forall|i: int|
        0 <= i < items.len() ==> item_defines(
            repo,
            #[trigger] items[i],
            define_items(repo, items, i, s).build.db,
        )
}

/// Whether what each callback in the queue overrides has named parameters when its turn comes.
#[verifier::opaque]
pub open spec fn items_named(repo: RepoV, items: Seq<CodeGenItemV>, s: DefineV) -> bool {
    forall|i: int|
        0 <= i < items.len() ==> item_named(
            repo,
            #[trigger] items[i],
            define_items(repo, items, i, s).build,
        )
}

pub proof fn lemma_added_step(items: Seq<CodeGenItemV>, n: int, id: MemberIdV)
    requires
        0 < n,
    ensures
        is_added(items, n, id) <==> is_added(items, n - 1, id) || adds(items[n - 1], id),
{
    if is_added(items, n, id) {
        let i = choose|i: int| 0 <= i < n && #[trigger] adds(items[i], id);
        if i < n - 1 {
            assert(adds(items[i], id));
        }
    }
    if is_added(items, n - 1, id) {
        let i = choose|i: int| 0 <= i < n - 1 && #[trigger] adds(items[i], id);
        assert(adds(items[i], id));
    }
}

pub proof fn lemma_define_items(repo: RepoV, items: Seq<CodeGenItemV>, n: int, s: DefineV)
    requires
        linked(s.build.db, s.build.image.pool),
        wrappers_ok(s.wrappers, s.build.image.pool),
        items_define(repo, items, s),
        0 <= n <= items.len(),
    ensures
        ({
            let done = define_items(repo, items, n, s);
            &&& linked(done.build.db, done.build.image.pool)
            &&& wrappers_ok(done.wrappers, done.build.image.pool)
            &&& done.build.db.classes == s.build.db.classes
            &&& done.build.db.statics == s.build.db.statics
            &&& keeps_funs(s.build.image.pool, done.build.image.pool)
            &&& forall|id: MemberIdV| #[trigger]
                is_added(items, n, id) ==> done.build.db.methods.dom().contains(id) && fun_ok(
                    done.build.image.pool,
                    done.build.db.methods[id],
                )
            &&& forall|id: MemberIdV|
                !is_added(items, n, id) ==> (#[trigger] done.build.db.methods.dom().contains(id)
                    <==> s.build.db.methods.dom().contains(id)) && done.build.db.methods[id]
                    == s.build.db.methods[id]
            &&& n < items.len() ==> item_defines(repo, items[n], done.build.db)
        }),
    decreases n,
{
    reveal(items_define);
    if n > 0 {
        lemma_define_items(repo, items, n - 1, s);
        let at = define_items(repo, items, n - 1, s);
        let done = define_items(repo, items, n, s);
        lemma_define_item(repo, n - 1, items[n - 1], at);
        assert forall|id: MemberIdV| #[trigger] is_added(
            items,
            n,
            id,
        ) implies done.build.db.methods.dom().contains(id) && fun_ok(
            done.build.image.pool,
            done.build.db.methods[id],
        ) by {
            lemma_added_step(items, n, id);
            if !adds(items[n - 1], id) {
                assert(is_added(items, n - 1, id));
                assert(at.build.db.methods.dom().contains(id));
                assert(fun_ok(at.build.image.pool, at.build.db.methods[id]));
                assert(done.build.db.methods.dom().contains(id) && done.build.db.methods[id]
                    == at.build.db.methods[id]);
            }
        }
        assert forall|id: MemberIdV| !is_added(items, n, id) implies (
        #[trigger] done.build.db.methods.dom().contains(id) <==> s.build.db.methods.dom().contains(
            id,
        )) && done.build.db.methods[id] == s.build.db.methods[id] by {
            lemma_added_step(items, n, id);
            assert(at.build.db.methods.dom().contains(id) <==> s.build.db.methods.dom().contains(id));
        }
    }
}

/// Defines what all functions in the queue need.
pub fn define_all(
    items: &Vec<CodeGenItem>,
    repo: &TypeRepo,
    db: &mut CompilationDb,
    cache: &mut TypeCache,
    pool: &mut ConstantPool,
) -> (wrappers: MemberDict<Chain>)
    requires
        repo@.is_builtin(ref_id()),
        linked(old(db)@, old(pool)@),
        items_define(
            repo@,
            views(items@),
            (DefineV {
                build: build(*old(pool), *old(cache), *old(db)),
                wrappers: DictV::empty(),
            }),
        ),
        items_named(
            repo@,
            views(items@),
            (DefineV {
                build: build(*old(pool), *old(cache), *old(db)),
                wrappers: DictV::empty(),
            }),
        ),
    ensures
        (DefineV {
            build: build(*final(pool), *final(cache), *final(db)),
            wrappers: wrappers@,
        }) == define_items(
            repo@,
            views(items@),
            items@.len() as int,
            (DefineV {
                build: build(*old(pool), *old(cache), *old(db)),
                wrappers: DictV::empty(),
            }),
        ),
        linked(final(db)@, final(pool)@),
        wrappers_ok(wrappers@, final(pool)@),
{
    let mut wrappers: MemberDict<Chain> = MemberDict::new();
    let ghost start = DefineV {
        build: build(*pool, *cache, *db),
        wrappers: DictV::empty(),
    };
    let ghost all = views(items@);
    let mut i: usize = 0;
    while i < items.len()
        invariant
            i <= items.len(),
            all == views(items@),
            repo@.is_builtin(ref_id()),
            linked(start.build.db, start.build.image.pool),
            wrappers_ok(start.wrappers, start.build.image.pool),
            items_define(repo@, all, start),
            items_named(repo@, all, start),
            (DefineV { build: build(*pool, *cache, *db), wrappers: wrappers@ }) == define_items(
                repo@,
                all,
                i as int,
                start,
            ),
        decreases items.len() - i,
    {
        proof {
            reveal(items_named);
            lemma_define_items(repo@, all, i as int, start);
            assert(all[i as int] == items@[i as int]@);
        }
        define(i, &items[i], repo, db, cache, pool, &mut wrappers);
        i += 1;
    }
    proof {
        lemma_define_items(repo@, all, all.len() as int, start);
    }
    wrappers
}

} // verus!
