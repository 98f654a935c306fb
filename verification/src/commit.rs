//! How the types and functions of a compilation are written to the constant pool.
use vstd::prelude::*;

use crate::builders::{
    commit_fields, commit_members, commit_methods, commit_params, law_class_commit,
    law_function_commit_extends, lemma_fields_extend, lemma_members_extend, lemma_methods_extend,
    lemma_params_extend, ClassBuilder, ClassBuilderV, EnumBuilder, EnumBuilderV, EnumMember,
    EnumMemberV, FieldBuilder, FieldBuilderV, FunctionBuilder, FunctionBuilderV, ParamBuilder,
    ParamBuilderV,
};
use crate::db::{member, CompilationDb, DbV};
use crate::dict::{ints, views, DictV};
use crate::flags::{FunctionFlags, ParameterFlags, Visibility};
use crate::funcs::{FuncEntryV, FuncParamV, FuncType, FuncTypeV};
use crate::pool::{reserved, ConstantPool, InstrV, PoolIndex, PoolV, UNDEFINED};
use crate::queue::CompilationOutputs;
use crate::repo::{ref_id, ClassType, ClassTypeV, DataType, DataTypeV, FieldV, RepoV, TypeRepo};
use crate::tables::{opt_int, MemberId, MemberIdV};
use crate::text::{self, decimal};
use crate::type_cache::{
    allocated, extends, grows, image, law_allocation_extends, lemma_grows_trans, type_ok, ImageV,
    TypeCache,
};
use crate::types::{ParameterizedV, Type, TypeId, TypeV};

verus! {

/// The pool, the types that it is known to describe, and where types and members are defined.
pub struct BuildV {
    pub image: ImageV,
    pub db: DbV,
}

/// The name of the parameter at a place.
pub open spec fn param_text(i: int) -> Seq<char> {
    "p"@ + decimal(i)
}

/// The type that a parameter or a result is described with. A polymorphic one can be anything.
pub open spec fn erased(typ: TypeV, is_poly: bool) -> TypeV {
    if is_poly {
        TypeV::Top
    } else {
        typ
    }
}

pub open spec fn param_builder(param: FuncParamV, i: int) -> ParamBuilderV {
    ParamBuilderV {
        flags: ParameterFlags { is_out: param.is_out, other: 0 },
        name: param_text(i),
        typ: erased(param.typ, param.is_poly),
    }
}

/// The definition of a function without its body. All functions are public.
pub open spec fn function_builder(
    signature: Seq<char>,
    typ: FuncTypeV,
    flags: FunctionFlags,
    base: Option<int>,
) -> FunctionBuilderV {
    FunctionBuilderV {
        flags,
        visibility: Visibility::Public,
        name: signature,
        return_type: erased(typ.ret, typ.is_ret_poly),
        params: Seq::new(typ.params.len(), |i: int| param_builder(typ.params[i], i)),
        locals: Seq::empty(),
        body: Seq::empty(),
        base,
        is_wrapper: false,
    }
}

/// Where the method that a method overrides is defined.
pub open spec fn base_index(db: DbV, base: Option<MemberIdV>) -> Option<int> {
    match base {
        Some(id) => Some(db.methods[id]),
        None => None,
    }
}

/// Whether it is known where the method that a method overrides is defined.
pub open spec fn base_known(db: DbV, base: Option<MemberIdV>) -> bool {
    match base {
        Some(id) => db.methods.dom().contains(id),
        None => true,
    }
}

/// The definition of the function that a map holds.
pub open spec fn entry_builder(entry: FuncEntryV, db: DbV) -> FunctionBuilderV {
    function_builder(entry.signature, entry.typ, entry.flags, base_index(db, entry.base))
}

/// The definition of a static function, which overrides nothing.
pub open spec fn static_builder(entry: FuncEntryV) -> FunctionBuilderV {
    function_builder(entry.signature, entry.typ, entry.flags, None)
}

pub open spec fn field_builder(name: Seq<char>, field: FieldV) -> FieldBuilderV {
    FieldBuilderV { flags: field.flags, visibility: Visibility::Private, name, typ: field.typ }
}

/// The definition of a class: static functions first, then methods.
pub open spec fn class_builder(id: Seq<char>, class: ClassTypeV, db: DbV) -> ClassBuilderV {
    let statics = class.statics.entries;
    let methods = class.methods.entries;
    ClassBuilderV {
        flags: class.flags,
        visibility: Visibility::Private,
        name: id,
        methods: Seq::new(
            statics.len() + methods.len(),
            |i: int|
                if i < statics.len() {
                    static_builder(statics[i])
                } else {
                    entry_builder(methods[i - statics.len()], db)
                },
        ),
        fields: Seq::new(
            class.fields.keys.len(),
            |i: int| field_builder(class.fields.keys[i], class.fields.vals[i]),
        ),
    }
}

/// Where the class that a class extends is defined. What is not known is left undefined.
pub open spec fn base_class_index(db: DbV, base: Option<ParameterizedV>) -> int {
    match base {
        Some(base) => if db.classes.dom().contains(base.id) {
            db.classes[base.id]
        } else {
            UNDEFINED as int
        },
        None => UNDEFINED as int,
    }
}

/// An index of members with the first `n` members of a type, defined one after the other from a
/// place on in a list.
pub open spec fn note_members(
    map: Map<MemberIdV, int>,
    id: Seq<char>,
    defs: Seq<int>,
    from: int,
    n: int,
) -> Map<MemberIdV, int>
    decreases n,
{
    if n <= 0 {
        map
    } else {
        note_members(map, id, defs, from, n - 1).insert(member(id, n - 1), defs[from + n - 1])
    }
}

/// The class is defined where its place is reserved, and it is noted where its members are.
pub open spec fn class_built(repo: RepoV, id: Seq<char>, s: BuildV) -> BuildV {
    let class = repo.class(id);
    let idx = s.db.classes[id];
    let image = class_builder(id, class, s.db).commit_as(
        idx,
        base_class_index(s.db, class.extends),
        repo,
        s.image,
    );
    let def = image.pool.value(idx)->Class_0;
    let statics = class.statics.entries.len() as int;
    BuildV {
        image,
        db: DbV {
            fields: note_members(
                s.db.fields,
                id,
                def.fields,
                0,
                class.fields.keys.len() as int,
            ),
            statics: note_members(s.db.statics, id, def.methods, 0, statics),
            methods: note_members(
                s.db.methods,
                id,
                def.methods,
                statics,
                class.methods.entries.len() as int,
            ),
            ..s.db
        },
    }
}

pub open spec fn enum_builder(id: Seq<char>, typ: DictV<Seq<char>, i64>) -> EnumBuilderV {
    EnumBuilderV {
        name: id,
        members: Seq::new(
            typ.keys.len(),
            |i: int| EnumMemberV { name: typ.keys[i], value: typ.vals[i] },
        ),
    }
}

/// The enum is defined where its place is reserved, and it is noted where its members are.
pub open spec fn enum_built(repo: RepoV, id: Seq<char>, s: BuildV) -> BuildV {
    let typ = repo.types.at(id)->Enum_0;
    let idx = s.db.enums[id];
    let pool = enum_builder(id, typ).commit_as(idx, s.image.pool);
    BuildV {
        image: ImageV { pool, ..s.image },
        db: DbV {
            enum_members: note_members(
                s.db.enum_members,
                id,
                pool.value(idx)->Enum_0.members,
                0,
                typ.keys.len() as int,
            ),
            ..s.db
        },
    }
}

pub open spec fn type_built(repo: RepoV, id: Seq<char>, s: BuildV) -> BuildV {
    match repo.types.at(id) {
        DataTypeV::Class(_) => class_built(repo, id, s),
        DataTypeV::Enum(_) => enum_built(repo, id, s),
        DataTypeV::Builtin(_) => s,
    }
}

/// A place is reserved for a class or an enum.
pub open spec fn type_reserved(repo: RepoV, id: Seq<char>, s: BuildV) -> BuildV {
    let at = s.image.pool.defs.len() as int;
    match repo.types.at(id) {
        DataTypeV::Class(_) => BuildV {
            image: s.image.with_def(reserved()),
            db: DbV { classes: s.db.classes.insert(id, at), ..s.db },
        },
        DataTypeV::Enum(_) => BuildV {
            image: s.image.with_def(reserved()),
            db: DbV { enums: s.db.enums.insert(id, at), ..s.db },
        },
        DataTypeV::Builtin(_) => s,
    }
}

/// Places are reserved for the first `n` types.
pub open spec fn types_reserved(repo: RepoV, types: Seq<Seq<char>>, n: int, s: BuildV) -> BuildV
    decreases n,
{
    if n <= 0 {
        s
    } else {
        type_reserved(repo, types[n - 1], types_reserved(repo, types, n - 1, s))
    }
}

/// The first `n` types are defined.
pub open spec fn types_built(repo: RepoV, types: Seq<Seq<char>>, n: int, s: BuildV) -> BuildV
    decreases n,
{
    if n <= 0 {
        s
    } else {
        type_built(repo, types[n - 1], types_built(repo, types, n - 1, s))
    }
}

/// Whether the pool has a function at an index, with a name, parameters that have names, and locals
/// that its code stays within.
pub open spec fn fun_ok(pool: PoolV, idx: int) -> bool {
    let fun = pool.value(idx)->Function_0;
    &&& pool.is_named(idx)
    &&& pool.value(idx) is Function
    &&& forall|i: int|
        #![trigger fun.parameters[i]]
        0 <= i < fun.parameters.len() ==> pool.is_named(fun.parameters[i]) && pool.value(
            fun.parameters[i],
        ) is Parameter
    &&& forall|i: int|
        #![trigger fun.locals[i]]
        0 <= i < fun.locals.len() ==> pool.is_named(fun.locals[i]) && pool.value(
            fun.locals[i],
        ) is Local
    &&& forall|i: int|
        #![trigger fun.code[i]]
        0 <= i < fun.code.len() ==> (fun.code[i] matches InstrV::Local(local)
            ==> fun.locals.contains(local))
}

/// Whether the pool has a function at an index.
pub open spec fn fun_there(pool: PoolV, idx: int) -> bool {
    pool.has(idx) && pool.value(idx) is Function
}

/// Whether the pool has a function at an index, with parameters that have names.
pub open spec fn params_named(pool: PoolV, idx: int) -> bool {
    let fun = pool.value(idx)->Function_0;
    &&& fun_there(pool, idx)
    &&& forall|i: int|
        #![trigger fun.parameters[i]]
        0 <= i < fun.parameters.len() ==> pool.is_named(fun.parameters[i]) && pool.value(
            fun.parameters[i],
        ) is Parameter
}

/// Whether functions of one pool are as good in another one.
pub open spec fn keeps_funs(from: PoolV, to: PoolV) -> bool {
    &&& forall|i: int| #[trigger] fun_ok(from, i) ==> fun_ok(to, i)
    &&& forall|i: int| #[trigger] params_named(from, i) ==> params_named(to, i)
}

/// Whether the pool has a class at an index, or a place for one.
pub open spec fn class_slot(pool: PoolV, idx: int) -> bool {
    pool.has(idx) && (pool.value(idx) is Class || pool.value(idx) is Reserved)
}

/// Whether the pool has an enum at an index, or a place for one.
pub open spec fn enum_slot(pool: PoolV, idx: int) -> bool {
    pool.has(idx) && (pool.value(idx) is Enum || pool.value(idx) is Reserved)
}

/// Whether all that is noted to be defined somewhere is there.
pub open spec fn index_ok(db: DbV, pool: PoolV) -> bool {
    &&& forall|id: Seq<char>| #[trigger]
        db.classes.dom().contains(id) ==> class_slot(pool, db.classes[id])
    &&& forall|id: Seq<char>| #[trigger]
        db.enums.dom().contains(id) ==> enum_slot(pool, db.enums[id])
    &&& forall|id: Seq<char>, other: Seq<char>|
        #[trigger] db.classes.dom().contains(id) && #[trigger] db.enums.dom().contains(other)
            ==> db.classes[id] != db.enums[other]
    &&& forall|id: MemberIdV| #[trigger]
        db.methods.dom().contains(id) ==> fun_there(pool, db.methods[id])
    &&& forall|id: MemberIdV| #[trigger]
        db.statics.dom().contains(id) ==> fun_there(pool, db.statics[id])
    &&& forall|slot: int| #[trigger]
        db.globals.dom().contains(slot) ==> fun_there(pool, db.globals[slot])
}

/// Whether the types of a function can be described.
pub open spec fn func_types_ok(repo: RepoV, typ: FuncTypeV) -> bool {
    &&& type_ok(erased(typ.ret, typ.is_ret_poly), repo)
    &&& forall|i: int|
        #![trigger typ.params[i]]
        0 <= i < typ.params.len() ==> type_ok(
            erased(typ.params[i].typ, typ.params[i].is_poly),
            repo,
        )
}

/// Whether the types of all members of a class can be described.
pub open spec fn class_types_ok(repo: RepoV, class: ClassTypeV) -> bool {
    &&& forall|i: int|
        #![trigger class.fields.vals[i]]
        0 <= i < class.fields.keys.len() ==> type_ok(class.fields.vals[i].typ, repo)
    &&& forall|i: int|
        #![trigger class.statics.entries[i]]
        0 <= i < class.statics.entries.len() ==> func_types_ok(
            repo,
            class.statics.entries[i].typ,
        )
    &&& forall|i: int|
        #![trigger class.methods.entries[i]]
        0 <= i < class.methods.entries.len() ==> func_types_ok(
            repo,
            class.methods.entries[i].typ,
        )
}

/// Whether it is known where each method that a class overrides is defined.
pub open spec fn class_bases_known(db: DbV, class: ClassTypeV) -> bool {
    forall|i: int|
        #![trigger class.methods.entries[i]]
        0 <= i < class.methods.entries.len() ==> base_known(db, class.methods.entries[i].base)
}

/// Whether the parameters of each method that a callback of a class overrides have names.
pub open spec fn class_bases_named(s: BuildV, class: ClassTypeV) -> bool {
    forall|i: int|
        #![trigger class.methods.entries[i]]
        0 <= i < class.methods.entries.len() && class.methods.entries[i].flags.is_callback
            ==> base_named(s, class.methods.entries[i].base)
}

/// Whether the parameters of a method that is overridden have names.
pub open spec fn base_named(s: BuildV, base: Option<MemberIdV>) -> bool {
    base matches Some(id) ==> params_named(s.image.pool, s.db.methods[id])
}

/// Whether a type can be defined.
pub open spec fn type_builds(repo: RepoV, id: Seq<char>, s: BuildV) -> bool {
    &&& repo.has(id)
    &&& repo.is_class(id) ==> {
        &&& s.db.classes.dom().contains(id)
        &&& class_types_ok(repo, repo.class(id))
        &&& class_bases_known(s.db, repo.class(id))
        &&& class_bases_named(s, repo.class(id))
    }
    &&& repo.is_enum(id) ==> s.db.enums.dom().contains(id)
}

/// Whether a pool has all that another one had, but for what is at one place. That place held no
/// function, parameter or local.
pub open spec fn fills(from: PoolV, to: PoolV, slot: int) -> bool {
    &&& from.names.len() <= to.names.len()
    &&& from.defs.len() <= to.defs.len()
    &&& forall|i: int| 0 <= i < from.names.len() ==> #[trigger] to.names[i] == from.names[i]
    &&& forall|i: int|
        0 <= i < from.defs.len() && i != slot ==> #[trigger] to.defs[i] == from.defs[i]
    &&& from.has(slot) ==> from.value(slot) is Class || from.value(slot) is Enum || from.value(
        slot,
    ) is Reserved
}

/// No place at all.
pub open spec fn nowhere() -> int {
    -1
}

pub proof fn lemma_grows_fills(from: ImageV, to: ImageV)
    requires
        grows(from, to),
    ensures
        fills(from.pool, to.pool, nowhere()),
{
}

pub proof fn lemma_fun_ok_fills(from: PoolV, to: PoolV, slot: int, idx: int)
    requires
        fun_ok(from, idx),
        fills(from, to, slot),
    ensures
        fun_ok(to, idx),
        to.defs[idx] == from.defs[idx],
{
    let fun = from.value(idx)->Function_0;
    assert(to.defs[idx] == from.defs[idx]);
    assert forall|i: int|
        #![trigger fun.parameters[i]]
        0 <= i < fun.parameters.len() implies to.is_named(fun.parameters[i]) && to.value(
        fun.parameters[i],
    ) is Parameter by {
        assert(to.defs[fun.parameters[i]] == from.defs[fun.parameters[i]]);
    }
    assert forall|i: int|
        #![trigger fun.locals[i]]
        0 <= i < fun.locals.len() implies to.is_named(fun.locals[i]) && to.value(
        fun.locals[i],
    ) is Local by {
        assert(to.defs[fun.locals[i]] == from.defs[fun.locals[i]]);
    }
}

pub proof fn lemma_keeps_fills(from: PoolV, to: PoolV, slot: int)
    requires
        fills(from, to, slot),
    ensures
        keeps_funs(from, to),
{
    assert forall|i: int| #[trigger] fun_ok(from, i) implies fun_ok(to, i) by {
        lemma_fun_ok_fills(from, to, slot, i);
    }
    assert forall|i: int| #[trigger] params_named(from, i) implies params_named(to, i) by {
        let fun = from.value(i)->Function_0;
        assert(to.defs[i] == from.defs[i]);
        assert forall|k: int|
            #![trigger fun.parameters[k]]
            0 <= k < fun.parameters.len() implies to.is_named(fun.parameters[k]) && to.value(
            fun.parameters[k],
        ) is Parameter by {
            assert(to.defs[fun.parameters[k]] == from.defs[fun.parameters[k]]);
        }
    }
}

/// What is noted stays there when a class or an enum is put in its place, or when nothing that was
/// there changes.
pub proof fn lemma_index_fills(db: DbV, from: PoolV, to: PoolV, slot: int)
    requires
        index_ok(db, from),
        fills(from, to, slot),
        from.has(slot) ==> {
            ||| to.value(slot) is Class && forall|id: Seq<char>| #[trigger]
                db.enums.dom().contains(id) ==> db.enums[id] != slot
            ||| to.value(slot) is Enum && forall|id: Seq<char>| #[trigger]
                db.classes.dom().contains(id) ==> db.classes[id] != slot
        },
    ensures
        index_ok(db, to),
{
    assert forall|id: MemberIdV| #[trigger] db.methods.dom().contains(id) implies fun_there(
        to,
        db.methods[id],
    ) by {
        assert(fun_there(from, db.methods[id]));
        assert(to.defs[db.methods[id]] == from.defs[db.methods[id]]);
    }
    assert forall|id: MemberIdV| #[trigger] db.statics.dom().contains(id) implies fun_there(
        to,
        db.statics[id],
    ) by {
        assert(fun_there(from, db.statics[id]));
        assert(to.defs[db.statics[id]] == from.defs[db.statics[id]]);
    }
    assert forall|at: int| #[trigger] db.globals.dom().contains(at) implies fun_there(
        to,
        db.globals[at],
    ) by {
        assert(fun_there(from, db.globals[at]));
        assert(to.defs[db.globals[at]] == from.defs[db.globals[at]]);
    }
    assert forall|id: Seq<char>| #[trigger] db.classes.dom().contains(id) implies class_slot(
        to,
        db.classes[id],
    ) by {
        assert(class_slot(from, db.classes[id]));
        if db.classes[id] != slot {
            assert(to.defs[db.classes[id]] == from.defs[db.classes[id]]);
        }
    }
    assert forall|id: Seq<char>| #[trigger] db.enums.dom().contains(id) implies enum_slot(
        to,
        db.enums[id],
    ) by {
        assert(enum_slot(from, db.enums[id]));
        if db.enums[id] != slot {
            assert(to.defs[db.enums[id]] == from.defs[db.enums[id]]);
        }
    }
}

/// Parameters that have been defined are there and have names.
proof fn lemma_params_there(
    params: Seq<ParamBuilderV>,
    n: int,
    parent: int,
    repo: RepoV,
    start: ImageV,
)
    requires
        0 <= n,
    ensures
        ({
            let (end, done) = commit_params(params, n, parent, repo, start);
            &&& done.len() == n
            &&& forall|i: int|
                #![trigger done[i]]
                0 <= i < done.len() ==> {
                    &&& start.pool.defs.len() <= done[i]
                    &&& end.pool.is_named(done[i])
                    &&& end.pool.value(done[i]) is Parameter
                }
        }),
    decreases n,
{
    if n > 0 {
        lemma_params_there(params, n - 1, parent, repo, start);
        lemma_params_extend(params, n - 1, parent, repo, start);
        let (mid, before) = commit_params(params, n - 1, parent, repo, start);
        let named = mid.with_name(params[n - 1].name);
        law_allocation_extends(params[n - 1].typ, repo, named);
        let typed = allocated(params[n - 1].typ, repo, named).0;
        assert(grows(mid, named));
        lemma_grows_trans(mid, named, typed);
        let (end, done) = commit_params(params, n, parent, repo, start);
        assert forall|i: int|
            #![trigger done[i]]
            0 <= i < done.len() implies {
            &&& start.pool.defs.len() <= done[i]
            &&& end.pool.is_named(done[i])
            &&& end.pool.value(done[i]) is Parameter
        } by {
            if i < n - 1 {
                assert(done[i] == before[i]);
                assert(typed.pool.defs[done[i]] == mid.pool.defs[done[i]]);
            }
        }
    }
}

/// A function that has been defined without locals and code is there.
pub proof fn lemma_function_there(fun: FunctionBuilderV, parent: int, repo: RepoV, start: ImageV)
    requires
        fun.locals.len() == 0,
        fun.body.len() == 0,
    ensures
        fun_ok(fun.commit(parent, repo, start).pool, fun.index(start)),
{
    let id = fun.index(start);
    let end = fun.commit(parent, repo, start);
    let named = start.with_def(reserved()).with_name(fun.name);
    law_allocation_extends(fun.return_type, repo, named);
    let typed = fun.commit_ret(repo, start).0;
    assert(grows(named, typed));
    let params = fun.named_params(start.pool);
    lemma_params_there(params, params.len() as int, id, repo, typed);
    lemma_params_extend(params, params.len() as int, id, repo, typed);
    let (with_params, parameters) = commit_params(params, params.len() as int, id, repo, typed);
    lemma_grows_trans(named, typed, with_params);
    assert(start.pool.name_slot(fun.name) < named.pool.names.len());
    let def = end.pool.value(id)->Function_0;
    assert(def.parameters == parameters);
    assert forall|i: int|
        #![trigger def.parameters[i]]
        0 <= i < def.parameters.len() implies end.pool.is_named(def.parameters[i])
        && end.pool.value(def.parameters[i]) is Parameter by {
        assert(parameters[i] > id);
    }
}

/// Functions of a class that have been defined without locals and code are there.
proof fn lemma_methods_there(
    methods: Seq<FunctionBuilderV>,
    n: int,
    parent: int,
    repo: RepoV,
    start: ImageV,
)
    requires
        0 <= n <= methods.len(),
        forall|i: int|
            0 <= i < methods.len() ==> (#[trigger] methods[i]).locals.len() == 0
                && methods[i].body.len() == 0,
    ensures
        ({
            let (end, done) = commit_methods(methods, n, parent, repo, start);
            &&& done.len() == n
            &&& forall|i: int|
                0 <= i < done.len() ==> start.pool.defs.len() <= #[trigger] done[i] && fun_ok(
                    end.pool,
                    done[i],
                )
        }),
    decreases n,
{
    if n > 0 {
        lemma_methods_there(methods, n - 1, parent, repo, start);
        lemma_methods_extend(methods, n - 1, parent, repo, start);
        let (mid, before) = commit_methods(methods, n - 1, parent, repo, start);
        law_function_commit_extends(methods[n - 1], parent, repo, mid);
        lemma_function_there(methods[n - 1], parent, repo, mid);
        let (end, done) = commit_methods(methods, n, parent, repo, start);
        assert forall|i: int| 0 <= i < done.len() implies start.pool.defs.len() <= #[trigger] done[i]
            && fun_ok(end.pool, done[i]) by {
            if i < n - 1 {
                assert(done[i] == before[i]);
                lemma_grows_fills(mid, end);
                lemma_fun_ok_fills(mid.pool, end.pool, nowhere(), done[i]);
            }
        }
    }
}

/// The members that are noted are where they are said to be, and all others stay where they were.
pub proof fn lemma_note_members(
    map: Map<MemberIdV, int>,
    id: Seq<char>,
    defs: Seq<int>,
    from: int,
    n: int,
    at: MemberIdV,
)
    ensures
        ({
            let after = note_members(map, id, defs, from, n);
            if at.owner == id && 0 <= at.slot < n {
                after.dom().contains(at) && after[at] == defs[from + at.slot]
            } else {
                after.dom().contains(at) == map.dom().contains(at) && after[at] == map[at]
            }
        }),
    decreases n,
{
    if n > 0 {
        lemma_note_members(map, id, defs, from, n - 1, at);
        if at.owner == id && at.slot == n - 1 {
            assert(at == member(id, n - 1));
        }
    }
}

impl CompilationOutputs {
    /// Builds the definition of a function without its body.
    pub fn build_function(
        signature: &String,
        typ: &FuncType,
        flags: FunctionFlags,
        base: Option<PoolIndex>,
    ) -> (res: FunctionBuilder)
        ensures
            res@ == function_builder(signature@, typ@, flags, opt_int(base)),
    {
        let mut params: Vec<ParamBuilder> = Vec::new();
        let mut i: usize = 0;
        while i < typ.params.len()
            invariant
                i <= typ.params.len(),
                params@.len() == i,
                forall|j: int|
                    0 <= j < i ==> (#[trigger] params@[j])@ == param_builder(typ@.params[j], j),
            decreases typ.params.len() - i,
        {
            let param = &typ.params[i];
            assert(typ@.params[i as int] == param@);
            let number = text::number(i);
            params.push(
                ParamBuilder {
                    flags: ParameterFlags { is_out: param.is_out, other: 0 },
                    name: text::concat("p", number.as_str()),
                    typ: if param.is_poly {
                        Type::Top
                    } else {
                        param.typ.dup()
                    },
                },
            );
            i += 1;
        }
        assert(views(params@) =~= function_builder(signature@, typ@, flags, opt_int(base)).params);
        let mut res = FunctionBuilder::new(signature.clone());
        res.flags = flags;
        res.visibility = Visibility::Public;
        res.return_type = if typ.is_ret_poly {
            Type::Top
        } else {
            typ.ret.dup()
        };
        res.params = params;
        res.base = base;
        res
    }
}

/// A class that is defined has all its functions, and everything else stays where it is noted to
/// be.
pub proof fn lemma_build_class(repo: RepoV, id: Seq<char>, s: BuildV)
    requires
        index_ok(s.db, s.image.pool),
        repo.is_class(id),
        type_builds(repo, id, s),
    ensures
        ({
            let done = class_built(repo, id, s);
            let idx = s.db.classes[id];
            let class = repo.class(id);
            &&& index_ok(done.db, done.image.pool)
            &&& fills(s.image.pool, done.image.pool, idx)
            &&& done.image.pool.value(idx) is Class
            &&& done.image.pool.value(idx)->Class_0.methods.len() == class.statics.entries.len()
                + class.methods.entries.len()
            &&& done.image.pool.value(idx)->Class_0.fields.len() == class.fields.keys.len()
            &&& done.db.classes == s.db.classes
            &&& done.db.enums == s.db.enums
            &&& forall|at: MemberIdV|
                at.owner == id && repo.has_method(at) ==> #[trigger] done.db.methods.dom().contains(
                    at,
                ) && fun_ok(done.image.pool, done.db.methods[at])
            &&& forall|at: MemberIdV|
                !(at.owner == id && repo.has_method(at)) ==> (
                #[trigger] done.db.methods.dom().contains(at) <==> s.db.methods.dom().contains(at))
                    && done.db.methods[at] == s.db.methods[at]
        }),
{
    let class = repo.class(id);
    let idx = s.db.classes[id];
    let base = base_class_index(s.db, class.extends);
    let b = class_builder(id, class, s.db);
    let start = s.image;
    let done = class_built(repo, id, s);
    let end = done.image;
    assert(class_slot(start.pool, idx));
    law_class_commit(b, idx, base, repo, start);
    assert(fills(start.pool, end.pool, idx)) by {
        let filled = start.pool.put(idx, end.pool.defs[idx]);
        assert forall|i: int| 0 <= i < start.pool.defs.len() && i != idx implies #[trigger] end.pool.defs[i]
            == start.pool.defs[i] by {
            assert(end.pool.defs[i] == filled.defs[i]);
        }
    }
    assert(forall|other: Seq<char>| #[trigger]
        s.db.enums.dom().contains(other) ==> s.db.enums[other] != idx);
    lemma_index_fills(s.db, start.pool, end.pool, idx);

    let n = b.methods.len() as int;
    let named = start.with_name(b.name);
    lemma_methods_there(b.methods, n, idx, repo, named);
    lemma_methods_extend(b.methods, n, idx, repo, named);
    let (with_methods, funcs) = b.commit_funcs(idx, n, repo, start);
    lemma_fields_extend(b.fields, b.fields.len() as int, idx, repo, with_methods);
    let with_fields = commit_fields(b.fields, b.fields.len() as int, idx, repo, with_methods).0;
    assert(grows(start, named));
    lemma_grows_trans(start, named, with_methods);
    assert(fills(with_methods.pool, end.pool, idx)) by {
        assert(with_methods.pool.defs[idx] == start.pool.defs[idx]);
        assert forall|i: int|
            0 <= i < with_methods.pool.defs.len() && i
                != idx implies #[trigger] end.pool.defs[i] == with_methods.pool.defs[i] by {
            assert(with_fields.pool.defs[i] == with_methods.pool.defs[i]);
        }
    }
    let def = end.pool.value(idx)->Class_0;
    assert(def.methods == funcs);
    assert forall|i: int| 0 <= i < funcs.len() implies fun_ok(end.pool, #[trigger] funcs[i]) by {
        lemma_fun_ok_fills(with_methods.pool, end.pool, idx, funcs[i]);
    }
    let statics = class.statics.entries.len() as int;
    let methods = class.methods.entries.len() as int;
    assert forall|at: MemberIdV| at.owner == id && repo.has_method(
        at,
    ) implies #[trigger] done.db.methods.dom().contains(at) && fun_ok(
        end.pool,
        done.db.methods[at],
    ) by {
        lemma_note_members(s.db.methods, id, def.methods, statics, methods, at);
        assert(fun_ok(end.pool, funcs[statics + at.slot]));
    }
    assert forall|at: MemberIdV| !(at.owner == id && repo.has_method(at)) implies (
    #[trigger] done.db.methods.dom().contains(at) <==> s.db.methods.dom().contains(at))
        && done.db.methods[at] == s.db.methods[at] by {
        lemma_note_members(s.db.methods, id, def.methods, statics, methods, at);
    }
    assert forall|at: MemberIdV| #[trigger] done.db.methods.dom().contains(at) implies fun_there(
        end.pool,
        done.db.methods[at],
    ) by {
        if !(at.owner == id && repo.has_method(at)) {
            assert(s.db.methods.dom().contains(at));
        }
    }
    assert forall|at: MemberIdV| #[trigger] done.db.statics.dom().contains(at) implies fun_there(
        end.pool,
        done.db.statics[at],
    ) by {
        lemma_note_members(s.db.statics, id, def.methods, 0, statics, at);
        if at.owner == id && 0 <= at.slot < statics {
            assert(fun_ok(end.pool, funcs[at.slot]));
        } else {
            assert(s.db.statics.dom().contains(at));
        }
    }
}

/// An enum that is defined has all its members, and everything else stays where it is noted to be.
pub proof fn lemma_build_enum(repo: RepoV, id: Seq<char>, s: BuildV)
    requires
        index_ok(s.db, s.image.pool),
        repo.is_enum(id),
        type_builds(repo, id, s),
    ensures
        ({
            let done = enum_built(repo, id, s);
            let idx = s.db.enums[id];
            &&& index_ok(done.db, done.image.pool)
            &&& fills(s.image.pool, done.image.pool, idx)
            &&& done.image.pool.value(idx) is Enum
            &&& done.image.pool.value(idx)->Enum_0.members.len() == repo.types.at(
                id,
            )->Enum_0.keys.len()
            &&& done.db.classes == s.db.classes
            &&& done.db.enums == s.db.enums
        }),
{
    let idx = s.db.enums[id];
    let b = enum_builder(id, repo.types.at(id)->Enum_0);
    let start = s.image.pool;
    let named = start.with_name(b.name);
    let n = b.members.len() as int;
    assert(enum_slot(start, idx));
    lemma_members_extend(b.members, n, idx, named);
    let done = enum_built(repo, id, s);
    let end = done.image.pool;
    assert(fills(start, end, idx)) by {
        let full = commit_members(b.members, n, idx, named);
        assert forall|i: int| 0 <= i < start.defs.len() && i != idx implies #[trigger] end.defs[i]
            == start.defs[i] by {
            assert(full.defs[i] == named.defs[i]);
        }
        assert forall|i: int| 0 <= i < start.names.len() implies #[trigger] end.names[i]
            == start.names[i] by {
            assert(full.names[i] == named.names[i]);
        }
    }
    assert(forall|other: Seq<char>| #[trigger]
        s.db.classes.dom().contains(other) ==> s.db.classes[other] != idx);
    lemma_index_fills(s.db, start, end, idx);
}

/// Notes where the members of a type are.
fn note_methods(
    db: &mut CompilationDb,
    id: &TypeId,
    defs: &Vec<PoolIndex>,
    from: usize,
    n: usize,
)
    requires
        from + n <= defs@.len(),
    ensures
        final(db)@ == (DbV {
            methods: note_members(
                old(db)@.methods,
                id@,
                ints(defs@),
                from as int,
                n as int,
            ),
            ..old(db)@
        }),
{
    let ghost start = db@;
    let mut i: usize = 0;
    assert(db@ =~= DbV {
        methods: note_members(start.methods, id@, ints(defs@), from as int, 0),
        ..start
    });
    while i < n
        invariant
            i <= n,
            from + n <= defs@.len(),
            db@ == (DbV {
                methods: note_members(
                    start.methods,
                    id@,
                    ints(defs@),
                    from as int,
                    i as int,
                ),
                ..start
            }),
        decreases n - i,
    {
        assert(from + i < defs.len());
        assert(ints(defs@)[from + i] == defs@[from + i]);
        db.set_method(&MemberId::new(id, i), defs[from + i]);
        i += 1;
    }
}

fn note_statics(db: &mut CompilationDb, id: &TypeId, defs: &Vec<PoolIndex>, n: usize)
    requires
        n <= defs@.len(),
    ensures
        final(db)@ == (DbV {
            statics: note_members(old(db)@.statics, id@, ints(defs@), 0, n as int),
            ..old(db)@
        }),
{
    let ghost start = db@;
    let mut i: usize = 0;
    assert(db@ =~= DbV {
        statics: note_members(start.statics, id@, ints(defs@), 0, 0),
        ..start
    });
    while i < n
        invariant
            i <= n,
            n <= defs@.len(),
            db@ == (DbV {
                statics: note_members(start.statics, id@, ints(defs@), 0, i as int),
                ..start
            }),
        decreases n - i,
    {
        assert(ints(defs@)[i as int] == defs@[i as int]);
        db.set_static(&MemberId::new(id, i), defs[i]);
        i += 1;
    }
}

fn note_fields(db: &mut CompilationDb, id: &TypeId, defs: &Vec<PoolIndex>, n: usize)
    requires
        n <= defs@.len(),
    ensures
        final(db)@ == (DbV {
            fields: note_members(old(db)@.fields, id@, ints(defs@), 0, n as int),
            ..old(db)@
        }),
{
    let ghost start = db@;
    let mut i: usize = 0;
    assert(db@ =~= DbV {
        fields: note_members(start.fields, id@, ints(defs@), 0, 0),
        ..start
    });
    while i < n
        invariant
            i <= n,
            n <= defs@.len(),
            db@ == (DbV {
                fields: note_members(start.fields, id@, ints(defs@), 0, i as int),
                ..start
            }),
        decreases n - i,
    {
        assert(ints(defs@)[i as int] == defs@[i as int]);
        db.set_field(&MemberId::new(id, i), defs[i]);
        i += 1;
    }
}

fn note_enum_members(db: &mut CompilationDb, id: &TypeId, defs: &Vec<PoolIndex>, n: usize)
    requires
        n <= defs@.len(),
    ensures
        final(db)@ == (DbV {
            enum_members: note_members(old(db)@.enum_members, id@, ints(defs@), 0, n as int),
            ..old(db)@
        }),
{
    let ghost start = db@;
    let mut i: usize = 0;
    assert(db@ =~= DbV {
        enum_members: note_members(start.enum_members, id@, ints(defs@), 0, 0),
        ..start
    });
    while i < n
        invariant
            i <= n,
            n <= defs@.len(),
            db@ == (DbV {
                enum_members: note_members(start.enum_members, id@, ints(defs@), 0, i as int),
                ..start
            }),
        decreases n - i,
    {
        assert(ints(defs@)[i as int] == defs@[i as int]);
        db.set_enum_member(&MemberId::new(id, i), defs[i]);
        i += 1;
    }
}

/// The state that a pool, a cache and an index make up.
pub open spec fn build(pool: ConstantPool, cache: TypeCache, db: CompilationDb) -> BuildV {
    BuildV { image: image(pool, cache), db: db@ }
}

/// Builds the definition of a class.
fn build_class_builder(id: &TypeId, class: &ClassType, db: &CompilationDb) -> (res: ClassBuilder)
    requires
        class_bases_known(db@, class@),
    ensures
        res@ == class_builder(id@, class@, db@),
{
    let ghost due = class_builder(id@, class@, db@);
    let mut fields: Vec<FieldBuilder> = Vec::new();
    let count: usize = class.fields.len();
    let mut i: usize = 0;
    while i < count
        invariant
            i <= count,
            count == class@.fields.keys.len(),
            due == class_builder(id@, class@, db@),
            fields@.len() == i,
            forall|j: int| 0 <= j < i ==> (#[trigger] fields@[j])@ == due.fields[j],
        decreases count - i,
    {
        let field = class.fields.val_at(i);
        let mut builder = FieldBuilder::new(class.fields.key_at(i).clone(), field.typ.dup());
        builder.flags = field.flags;
        fields.push(builder);
        i += 1;
    }
    let mut methods: Vec<FunctionBuilder> = Vec::new();
    let statics: usize = class.statics.len();
    let mut i: usize = 0;
    while i < statics
        invariant
            i <= statics,
            statics == class@.statics.entries.len(),
            due == class_builder(id@, class@, db@),
            methods@.len() == i,
            forall|j: int| 0 <= j < i ==> (#[trigger] methods@[j])@ == due.methods[j],
        decreases statics - i,
    {
        let entry = class.statics.entry(i);
        methods.push(CompilationOutputs::build_function(&entry.signature, &entry.typ, entry.flags, None));
        i += 1;
    }
    let own: usize = class.methods.len();
    let mut i: usize = 0;
    while i < own
        invariant
            i <= own,
            own == class@.methods.entries.len(),
            statics == class@.statics.entries.len(),
            class_bases_known(db@, class@),
            due == class_builder(id@, class@, db@),
            methods@.len() == statics + i,
            forall|j: int| 0 <= j < statics + i ==> (#[trigger] methods@[j])@ == due.methods[j],
        decreases own - i,
    {
        let entry = class.methods.entry(i);
        assert(base_known(db@, class@.methods.entries[i as int].base));
        let base: Option<PoolIndex> = match &entry.base {
            Some(id) => db.method_index(id),
            None => None,
        };
        methods.push(CompilationOutputs::build_function(&entry.signature, &entry.typ, entry.flags, base));
        i += 1;
    }
    let mut res = ClassBuilder::new(id.clone());
    res.flags = class.flags;
    res.methods = methods;
    res.fields = fields;
    assert(views(res.methods@) =~= due.methods);
    assert(views(res.fields@) =~= due.fields);
    res
}

proof fn lemma_class_builder_ok(repo: RepoV, id: Seq<char>, s: BuildV)
    requires
        index_ok(s.db, s.image.pool),
        repo.is_class(id),
        type_builds(repo, id, s),
    ensures
        ({
            let b = class_builder(id, repo.class(id), s.db);
            &&& b.types_ok(repo)
            &&& b.bases_ok(s.db.classes[id], repo, s.image)
        }),
{
    let class = repo.class(id);
    let b = class_builder(id, class, s.db);
    let idx = s.db.classes[id];
    let statics = class.statics.entries;
    let methods = class.methods.entries;
    assert forall|i: int| 0 <= i < b.methods.len() implies (#[trigger] b.methods[i]).types_ok(
        repo,
    ) by {
        let entry = if i < statics.len() {
            statics[i]
        } else {
            methods[i - statics.len()]
        };
        assert(func_types_ok(repo, entry.typ));
        assert forall|j: int| 0 <= j < b.methods[i].params.len() implies type_ok(
            (#[trigger] b.methods[i].params[j]).typ,
            repo,
        ) by {
            let param = entry.typ.params[j];
        }
    }
    assert forall|i: int| 0 <= i < b.fields.len() implies type_ok(
        (#[trigger] b.fields[i]).typ,
        repo,
    ) by {
        let field = class.fields.vals[i];
    }
    assert forall|i: int|
        #![trigger b.methods[i]]
        0 <= i < b.methods.len() implies b.methods[i].base_ok(
        b.commit_funcs(idx, i, repo, s.image).0.pool,
    ) by {
        if i >= statics.len() {
            let entry = methods[i - statics.len()];
            if entry.flags.is_callback && entry.base is Some {
                let at = s.db.methods[entry.base->0];
                let named = s.image.with_name(b.name);
                let so_far = b.commit_funcs(idx, i, repo, s.image).0;
                assert(base_known(s.db, entry.base));
                assert(base_named(s, entry.base));
                lemma_methods_extend(b.methods, i, idx, repo, named);
                assert(grows(s.image, named));
                lemma_grows_trans(s.image, named, so_far);
                lemma_grows_fills(s.image, so_far);
                lemma_keeps_fills(s.image.pool, so_far.pool, nowhere());
                assert(params_named(so_far.pool, at));
            }
        }
    }
}

/// Defines a class where its place is reserved.
fn build_class(
    id: &TypeId,
    class: &ClassType,
    repo: &TypeRepo,
    db: &mut CompilationDb,
    cache: &mut TypeCache,
    pool: &mut ConstantPool,
)
    requires
        repo@.is_builtin(ref_id()),
        repo@.is_class(id@),
        class@ == repo@.class(id@),
        index_ok(old(db)@, old(pool)@),
        type_builds(repo@, id@, build(*old(pool), *old(cache), *old(db))),
    ensures
        build(*final(pool), *final(cache), *final(db)) == class_built(
            repo@,
            id@,
            build(*old(pool), *old(cache), *old(db)),
        ),
{
    let ghost start = build(*pool, *cache, *db);
    proof {
        lemma_class_builder_ok(repo@, id@, start);
        lemma_build_class(repo@, id@, start);
    }
    let idx = db.class_index(id).unwrap();
    assert(class_slot(pool@, idx as int));
    let base = match &class.extends {
        Some(base) => match db.class_index(&base.id) {
            Some(base) => base,
            None => UNDEFINED,
        },
        None => UNDEFINED,
    };
    let builder = build_class_builder(id, class, db);
    let idx = builder.commit_as(idx, base, repo, pool, cache);
    let def = pool.class(idx);
    let statics: usize = class.statics.len();
    let methods: usize = class.methods.len();
    let fields: usize = class.fields.len();
    note_fields(db, id, &def.fields, fields);
    note_statics(db, id, &def.methods, statics);
    note_methods(db, id, &def.methods, statics, methods);
    assert(build(*pool, *cache, *db).db =~= class_built(repo@, id@, start).db);
}

/// Defines an enum where its place is reserved.
fn build_enum(
    id: &TypeId,
    repo: &TypeRepo,
    db: &mut CompilationDb,
    cache: &TypeCache,
    pool: &mut ConstantPool,
)
    requires
        repo@.is_enum(id@),
        index_ok(old(db)@, old(pool)@),
        old(db)@.enums.dom().contains(id@),
    ensures
        build(*final(pool), *cache, *final(db)) == enum_built(
            repo@,
            id@,
            build(*old(pool), *cache, *old(db)),
        ),
{
    let ghost start = build(*pool, *cache, *db);
    proof {
        lemma_build_enum(repo@, id@, start);
    }
    if let Some(DataType::Enum(typ)) = repo.get_type(id) {
        let idx = db.enum_index(id).unwrap();
        assert(enum_slot(pool@, idx as int));
        let ghost due = enum_builder(id@, typ@);
        let count: usize = typ.members.len();
        let mut members: Vec<EnumMember> = Vec::new();
        let mut i: usize = 0;
        while i < count
            invariant
                i <= count,
                count == typ@.keys.len(),
                typ@.wf(),
                due == enum_builder(id@, typ@),
                members@.len() == i,
                forall|j: int| 0 <= j < i ==> (#[trigger] members@[j])@ == due.members[j],
            decreases count - i,
        {
            members.push(
                EnumMember {
                    name: typ.members.key_at(i).clone(),
                    value: *typ.members.val_at(i),
                },
            );
            i += 1;
        }
        let builder = EnumBuilder { name: id.clone(), members };
        assert(builder@ =~= due);
        let idx = builder.commit_as(pool, idx);
        let def = pool.enum_(idx);
        assert(def@.members.len() == due.members.len());
        note_enum_members(db, id, &def.members, count);
        assert(build(*pool, *cache, *db).db =~= enum_built(repo@, id@, start).db);
    }
}

impl CompilationOutputs {
    /// Defines a type where its place is reserved.
    pub fn build_type(
        id: &TypeId,
        repo: &TypeRepo,
        db: &mut CompilationDb,
        cache: &mut TypeCache,
        pool: &mut ConstantPool,
    )
        requires
            repo@.is_builtin(ref_id()),
            index_ok(old(db)@, old(pool)@),
            type_builds(repo@, id@, build(*old(pool), *old(cache), *old(db))),
        ensures
            build(*final(pool), *final(cache), *final(db)) == type_built(
                repo@,
                id@,
                build(*old(pool), *old(cache), *old(db)),
            ),
            index_ok(final(db)@, final(pool)@),
    {
        let ghost start = build(*pool, *cache, *db);
        match repo.get_type(id).unwrap() {
            DataType::Class(class) => {
                proof {
                    lemma_build_class(repo@, id@, start);
                }
                build_class(id, class, repo, db, cache, pool);
            },
            DataType::Enum(_) => {
                proof {
                    lemma_build_enum(repo@, id@, start);
                }
                build_enum(id, repo, db, cache, pool);
            },
            DataType::Builtin(_) => {},
        }
    }
}

/// Reserves a place for each type.
pub fn reserve_types(
    types: &Vec<TypeId>,
    repo: &TypeRepo,
    db: &mut CompilationDb,
    cache: &TypeCache,
    pool: &mut ConstantPool,
)
    requires
        index_ok(old(db)@, old(pool)@),
        forall|i: int| 0 <= i < types@.len() ==> repo@.has((#[trigger] types@[i])@),
    ensures
        build(*final(pool), *cache, *final(db)) == types_reserved(
            repo@,
            views(types@),
            types@.len() as int,
            build(*old(pool), *cache, *old(db)),
        ),
        index_ok(final(db)@, final(pool)@),
{
    let ghost start = build(*pool, *cache, *db);
    let mut i: usize = 0;
    while i < types.len()
        invariant
            i <= types.len(),
            forall|i: int| 0 <= i < types@.len() ==> repo@.has((#[trigger] types@[i])@),
            index_ok(db@, pool@),
            build(*pool, *cache, *db) == types_reserved(repo@, views(types@), i as int, start),
        decreases types.len() - i,
    {
        let id = &types[i];
        assert(views(types@)[i as int] == id@);
        let ghost before = build(*pool, *cache, *db);
        match repo.get_type(id).unwrap() {
            DataType::Class(_) => {
                let at = pool.reserve();
                db.set_class(id, at);
            },
            DataType::Enum(_) => {
                let at = pool.reserve();
                db.set_enum(id, at);
            },
            DataType::Builtin(_) => {},
        }
        proof {
            lemma_reserved(repo@, id@, before);
        }
        i += 1;
    }
}

proof fn lemma_reserved(repo: RepoV, id: Seq<char>, s: BuildV)
    requires
        index_ok(s.db, s.image.pool),
    ensures
        index_ok(type_reserved(repo, id, s).db, type_reserved(repo, id, s).image.pool),
{
    let done = type_reserved(repo, id, s);
    let from = s.image.pool;
    let to = done.image.pool;
    lemma_index_fills(s.db, from, to, nowhere());
    assert forall|other: Seq<char>| #[trigger] done.db.classes.dom().contains(other) implies class_slot(
        to,
        done.db.classes[other],
    ) by {
        if s.db.classes.dom().contains(other) {
            assert(class_slot(to, s.db.classes[other]));
        }
    }
    assert forall|other: Seq<char>| #[trigger] done.db.enums.dom().contains(other) implies enum_slot(
        to,
        done.db.enums[other],
    ) by {
        if s.db.enums.dom().contains(other) {
            assert(enum_slot(to, s.db.enums[other]));
        }
    }
    assert forall|a: Seq<char>, b: Seq<char>|
        #[trigger] done.db.classes.dom().contains(a) && #[trigger] done.db.enums.dom().contains(
            b,
        ) implies done.db.classes[a] != done.db.enums[b] by {
        if s.db.classes.dom().contains(a) {
            assert(class_slot(from, s.db.classes[a]));
        }
        if s.db.enums.dom().contains(b) {
            assert(enum_slot(from, s.db.enums[b]));
        }
    }
}

/// Whether all that is noted to be defined somewhere is there, and no class is still missing.
pub open spec fn linked(db: DbV, pool: PoolV) -> bool {
    &&& index_ok(db, pool)
    &&& forall|id: Seq<char>| #[trigger]
        db.classes.dom().contains(id) ==> pool.value(db.classes[id]) is Class
}

/// Whether it will be known where a method is defined once the first `n` types are: it is now, or
/// its class is one of them.
pub open spec fn method_known(
    repo: RepoV,
    types: Seq<Seq<char>>,
    n: int,
    db: DbV,
    id: MemberIdV,
) -> bool {
    db.methods.dom().contains(id) || method_defined(repo, types, n, id)
}

/// Whether a method belongs to one of the first `n` types.
pub open spec fn method_defined(
    repo: RepoV,
    types: Seq<Seq<char>>,
    n: int,
    id: MemberIdV,
) -> bool {
    repo.has_method(id) && types.take(n).contains(id.owner)
}

/// Whether the parameters of a method will have names once the first `n` types are defined: they
/// do now, or its class is one of them.
pub open spec fn method_named(
    repo: RepoV,
    types: Seq<Seq<char>>,
    n: int,
    s: BuildV,
    id: MemberIdV,
) -> bool {
    method_defined(repo, types, n, id) || (s.db.methods.dom().contains(id) && params_named(
        s.image.pool,
        s.db.methods[id],
    ))
}

/// Whether what a method overrides will be there once the first `n` types are defined, and will
/// have names that a callback can take over.
pub open spec fn entry_builds(
    repo: RepoV,
    types: Seq<Seq<char>>,
    n: int,
    s: BuildV,
    entry: FuncEntryV,
) -> bool {
    match entry.base {
        Some(base) => {
            &&& method_known(repo, types, n, s.db, base)
            &&& entry.flags.is_callback ==> method_named(repo, types, n, s, base)
        },
        None => true,
    }
}

/// Whether types can be defined one after the other: each is there, its members have types that can
/// be described, and what its methods override is defined before it.
pub open spec fn types_build(repo: RepoV, types: Seq<Seq<char>>, s: BuildV) -> bool {
    &&& forall|i: int| 0 <= i < types.len() ==> repo.has(#[trigger] types[i])
    &&& forall|i: int|
        0 <= i < types.len() && repo.is_class(#[trigger] types[i]) ==> class_types_ok(
            repo,
            repo.class(types[i]),
        )
    &&& forall|i: int, slot: int|
        #![trigger repo.class(types[i]).methods.entries[slot]]
        0 <= i < types.len() && repo.is_class(types[i]) && 0 <= slot < repo.class(
            types[i],
        ).methods.entries.len() ==> entry_builds(
            repo,
            types,
            i,
            s,
            repo.class(types[i]).methods.entries[slot],
        )
}

/// Whether each class is there, or is one of the types from a place on.
pub open spec fn filled_until(
    repo: RepoV,
    db: DbV,
    pool: PoolV,
    types: Seq<Seq<char>>,
    n: int,
) -> bool {
    forall|id: Seq<char>| #[trigger]
        db.classes.dom().contains(id) ==> pool.value(db.classes[id]) is Class || (repo.is_class(id)
            && types.skip(n).contains(id))
}

pub proof fn lemma_types_reserved(repo: RepoV, types: Seq<Seq<char>>, n: int, s: BuildV)
    requires
        linked(s.db, s.image.pool),
        0 <= n <= types.len(),
        forall|i: int| 0 <= i < types.len() ==> repo.has(#[trigger] types[i]),
    ensures
        ({
            let done = types_reserved(repo, types, n, s);
            &&& index_ok(done.db, done.image.pool)
            &&& grows(s.image, done.image)
            &&& done.db.methods == s.db.methods
            &&& done.db.statics == s.db.statics
            &&& done.db.globals == s.db.globals
            &&& forall|i: int|
                0 <= i < n && repo.is_class(types[i]) ==> done.db.classes.dom().contains(
                    #[trigger] types[i],
                )
            &&& forall|i: int|
                0 <= i < n && repo.is_enum(types[i]) ==> done.db.enums.dom().contains(
                    #[trigger] types[i],
                )
            &&& forall|id: Seq<char>| #[trigger]
                s.db.classes.dom().contains(id) ==> done.db.classes.dom().contains(id)
            &&& filled_until(repo, done.db, done.image.pool, types, 0)
        }),
    decreases n,
{
    assert(types.skip(0) =~= types);
    if n > 0 {
        lemma_types_reserved(repo, types, n - 1, s);
        let at = types_reserved(repo, types, n - 1, s);
        lemma_reserved(repo, types[n - 1], at);
        let done = types_reserved(repo, types, n, s);
        assert(grows(at.image, done.image));
        lemma_grows_trans(s.image, at.image, done.image);
        assert forall|id: Seq<char>| #[trigger] done.db.classes.dom().contains(id) implies done.image.pool.value(
        done.db.classes[id]) is Class || (repo.is_class(id) && types.skip(0).contains(id)) by {
            if id != types[n - 1] || !(repo.types.at(id) is Class) {
                assert(at.db.classes.dom().contains(id));
                assert(class_slot(at.image.pool, at.db.classes[id]));
                assert(done.image.pool.defs[at.db.classes[id]]
                    == at.image.pool.defs[at.db.classes[id]]);
            } else {
                assert(types[n - 1] == id);
            }
        }
    }
}

pub proof fn lemma_types_built(repo: RepoV, types: Seq<Seq<char>>, n: int, s: BuildV)
    requires
        index_ok(s.db, s.image.pool),
        types_build(repo, types, s),
        0 <= n <= types.len(),
        forall|i: int|
            0 <= i < types.len() && repo.is_class(types[i]) ==> s.db.classes.dom().contains(
                #[trigger] types[i],
            ),
        forall|i: int|
            0 <= i < types.len() && repo.is_enum(types[i]) ==> s.db.enums.dom().contains(
                #[trigger] types[i],
            ),
        filled_until(repo, s.db, s.image.pool, types, 0),
    ensures
        ({
            let done = types_built(repo, types, n, s);
            &&& index_ok(done.db, done.image.pool)
            &&& done.db.classes == s.db.classes
            &&& done.db.enums == s.db.enums
            &&& done.db.globals == s.db.globals
            &&& filled_until(repo, done.db, done.image.pool, types, n)
            &&& forall|id: MemberIdV| #[trigger]
                method_known(repo, types, n, s.db, id) ==> done.db.methods.dom().contains(id)
            &&& forall|id: MemberIdV| #[trigger]
                s.db.statics.dom().contains(id) ==> done.db.statics.dom().contains(id)
            &&& keeps_funs(s.image.pool, done.image.pool)
            &&& forall|id: MemberIdV| #[trigger]
                method_defined(repo, types, n, id) ==> done.db.methods.dom().contains(id)
                    && fun_ok(done.image.pool, done.db.methods[id])
            &&& forall|id: MemberIdV|
                !method_defined(repo, types, n, id) ==> (
                #[trigger] done.db.methods.dom().contains(id) <==> s.db.methods.dom().contains(id))
                    && done.db.methods[id] == s.db.methods[id]
            &&& n < types.len() ==> type_builds(repo, types[n], done)
        }),
    decreases n,
{
    if n > 0 {
        lemma_types_built(repo, types, n - 1, s);
        let at = types_built(repo, types, n - 1, s);
        let id = types[n - 1];
        let done = types_built(repo, types, n, s);
        let class = repo.class(id);
        if repo.is_class(id) {
            lemma_build_class(repo, id, at);
        } else if repo.is_enum(id) {
            lemma_build_enum(repo, id, at);
        }
        assert forall|other: Seq<char>| #[trigger] done.db.classes.dom().contains(other) implies done.image.pool.value(
        done.db.classes[other]) is Class || (repo.is_class(other) && types.skip(n).contains(other)) by {
            assert(at.db.classes.dom().contains(other));
            assert(class_slot(at.image.pool, at.db.classes[other]));
            if types.skip(n - 1).contains(other) && other != id {
                let rest = types.skip(n - 1);
                let j = choose|j: int| 0 <= j < rest.len() && rest[j] == other;
                assert(types.skip(n)[j - 1] == other);
            }
            if repo.is_class(id) && at.db.classes[other] != at.db.classes[id] {
                assert(done.image.pool.defs[at.db.classes[other]]
                    == at.image.pool.defs[at.db.classes[other]]);
            }
            if repo.is_enum(id) {
                assert(at.db.enums.dom().contains(id));
                assert(at.db.classes[other] != at.db.enums[id]);
                assert(done.image.pool.defs[at.db.classes[other]]
                    == at.image.pool.defs[at.db.classes[other]]);
            }
        }
        let statics = class.statics.entries.len() as int;
        let methods = class.methods.entries.len() as int;
        if repo.is_class(id) {
            lemma_keeps_fills(at.image.pool, done.image.pool, at.db.classes[id]);
        } else if repo.is_enum(id) {
            lemma_keeps_fills(at.image.pool, done.image.pool, at.db.enums[id]);
        }
        assert forall|m: MemberIdV| #[trigger] method_defined(repo, types, n, m) <==> (
        method_defined(repo, types, n - 1, m) || (repo.has_method(m) && m.owner == id)) by {
            lemma_defined_step(repo, types, n, m);
        }
        assert forall|m: MemberIdV| #[trigger] method_defined(
            repo,
            types,
            n,
            m,
        ) implies done.db.methods.dom().contains(m) && fun_ok(
            done.image.pool,
            done.db.methods[m],
        ) by {
            if !(repo.has_method(m) && m.owner == id) {
                assert(method_defined(repo, types, n - 1, m));
                assert(at.db.methods.dom().contains(m));
                assert(fun_ok(at.image.pool, at.db.methods[m]));
                assert(repo.has(id));
                if repo.is_class(id) {
                    assert(done == class_built(repo, id, at));
                    assert(done.db.methods.dom().contains(m) <==> at.db.methods.dom().contains(m));
                } else {
                    assert(done.db.methods == at.db.methods);
                }
            }
        }
        assert forall|m: MemberIdV| !method_defined(repo, types, n, m) implies (
        #[trigger] done.db.methods.dom().contains(m) <==> s.db.methods.dom().contains(m))
            && done.db.methods[m] == s.db.methods[m] by {
            lemma_defined_step(repo, types, n, m);
            assert(!method_defined(repo, types, n - 1, m));
            assert(!(repo.has_method(m) && m.owner == id));
            assert(at.db.methods.dom().contains(m) <==> s.db.methods.dom().contains(m));
            assert(at.db.methods[m] == s.db.methods[m]);
            if repo.is_class(id) {
                assert(done == class_built(repo, id, at));
                assert(done.db.methods.dom().contains(m) <==> at.db.methods.dom().contains(m));
            } else {
                assert(done.db.methods == at.db.methods);
            }
        }
        assert forall|m: MemberIdV| #[trigger] method_known(
            repo,
            types,
            n,
            s.db,
            m,
        ) implies done.db.methods.dom().contains(m) by {
            if !method_defined(repo, types, n, m) {
                assert(s.db.methods.dom().contains(m));
            }
        }
        assert forall|m: MemberIdV| #[trigger] s.db.statics.dom().contains(m) implies done.db.statics.dom().contains(
        m) by {
            if repo.is_class(id) {
                let def = done.image.pool.value(at.db.classes[id])->Class_0;
                lemma_note_members(at.db.statics, id, def.methods, 0, statics, m);
            }
        }
    }
    if n < types.len() && repo.is_class(types[n]) {
        let done = types_built(repo, types, n, s);
        let class = repo.class(types[n]);
        assert(class_bases_known(done.db, class) && class_bases_named(done, class)) by {
            assert forall|i: int|
                #![trigger class.methods.entries[i]]
                0 <= i < class.methods.entries.len() implies {
                &&& base_known(done.db, class.methods.entries[i].base)
                &&& class.methods.entries[i].flags.is_callback ==> base_named(
                    done,
                    class.methods.entries[i].base,
                )
            } by {
                let entry = repo.class(types[n]).methods.entries[i];
                assert(entry_builds(repo, types, n, s, entry));
                if entry.base is Some {
                    let base = entry.base->0;
                    assert(method_known(repo, types, n, s.db, base));
                    assert(done.db.methods.dom().contains(base));
                    if method_defined(repo, types, n, base) {
                        assert(fun_ok(done.image.pool, done.db.methods[base]));
                    } else if entry.flags.is_callback {
                        assert(params_named(s.image.pool, s.db.methods[base]));
                    }
                }
            }
        }
    }
}

proof fn lemma_defined_step(repo: RepoV, types: Seq<Seq<char>>, n: int, id: MemberIdV)
    requires
        0 < n <= types.len(),
    ensures
        method_defined(repo, types, n, id) <==> (method_defined(repo, types, n - 1, id) || (
        repo.has_method(id) && id.owner == types[n - 1])),
{
    let first = types.take(n);
    let before = types.take(n - 1);
    if first.contains(id.owner) {
        let j = choose|j: int| 0 <= j < first.len() && first[j] == id.owner;
        if j < n - 1 {
            assert(before[j] == id.owner);
        }
    }
    if before.contains(id.owner) {
        let j = choose|j: int| 0 <= j < before.len() && before[j] == id.owner;
        assert(first[j] == id.owner);
    }
    assert(first[n - 1] == types[n - 1]);
}

} // verus!
