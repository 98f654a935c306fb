//! What is loaded of the definitions in a pool.
use vstd::prelude::*;

use crate::db::{
    described_field, described_function, described_type, describes_field, describes_function,
    describes_type, lemma_described_type, load_class, load_enum, load_fields, load_members,
    load_methods, loaded, loads, type_within, DbV,
};
use crate::dict::DictV;
use crate::funcs::{law_added_function, top_level, FuncMapV};
use crate::intact::intact;
use crate::pool::{AnyDefinitionV, PoolTypeV, PoolV, UNDEFINED};
use crate::repo::{builtin_types, DataTypeV, FieldV};
use crate::roundtrip::is_global;
use crate::tables::MemberIdV;
use crate::text::before;
use crate::types::{prim_named, ParameterizedV, Prim, TypeV};

verus! {

/// What a type in the pool stands for: a primitive type or a class by its name, what a reference
/// refers to, and a weak reference, a script reference or an array of what is inside. Arrays of a
/// fixed size are arrays.
pub proof fn law_described_type(pool: PoolV, idx: int)
    requires
        pool.has(idx),
        pool.value(idx) is Type,
    ensures
        match pool.value(idx)->Type_0 {
            PoolTypeV::Prim => pool.is_named(idx) ==> (describes_type(pool, idx) <==> prim_named(
                pool.name_of(idx),
            ) is Some) && (prim_named(pool.name_of(idx)) matches Some(prim) ==> described_type(
                pool,
                idx,
            ) == TypeV::Prim(prim)),
            PoolTypeV::Class => pool.is_named(idx) ==> describes_type(pool, idx) && described_type(
                pool,
                idx,
            ) == TypeV::Data(ParameterizedV { id: pool.name_of(idx), args: Seq::empty() }),
            PoolTypeV::Ref(inner) => describes_type(pool, inner) ==> describes_type(pool, idx)
                && described_type(pool, idx) == described_type(pool, inner),
            PoolTypeV::WeakRef(inner) => describes_type(pool, inner) ==> is_around(
                pool,
                idx,
                "wref"@,
                inner,
            ),
            PoolTypeV::ScriptRef(inner) => describes_type(pool, inner) ==> is_around(
                pool,
                idx,
                "script_ref"@,
                inner,
            ),
            PoolTypeV::Array(inner) => describes_type(pool, inner) ==> is_around(
                pool,
                idx,
                "array"@,
                inner,
            ),
            PoolTypeV::StaticArray(inner, _) => describes_type(pool, inner) ==> is_around(
                pool,
                idx,
                "array"@,
                inner,
            ),
        },
{
    match pool.value(idx)->Type_0 {
        PoolTypeV::Ref(inner)
        | PoolTypeV::WeakRef(inner)
        | PoolTypeV::ScriptRef(inner)
        | PoolTypeV::Array(inner)
        | PoolTypeV::StaticArray(inner, _) => {
            if describes_type(pool, inner) {
                let n = choose|n: nat| type_within(pool, inner, n) is Some;
                lemma_described_type(pool, inner, n);
                assert(type_within(pool, idx, n + 1) is Some);
                lemma_described_type(pool, idx, n + 1);
            }
        },
        _ => {
            let one = type_within(pool, idx, 1);
            if one is Some {
                lemma_described_type(pool, idx, 1);
            } else if describes_type(pool, idx) {
                let n = choose|n: nat| type_within(pool, idx, n) is Some;
                assert(type_within(pool, idx, n) == one);
            }
        },
    }
}

/// Whether the type at an index is a built-in type around the type at another index.
pub open spec fn is_around(pool: PoolV, idx: int, name: Seq<char>, inner: int) -> bool {
    describes_type(pool, idx) && described_type(pool, idx) == TypeV::Data(
        ParameterizedV { id: name, args: seq![described_type(pool, inner)] },
    )
}

/// The type of a function in the pool has one parameter for each that the function lists, in order:
/// of the type that the parameter has there, and an out parameter where that one is. It returns
/// what the function does there, or nothing where the function says nothing.
pub proof fn law_described_function(pool: PoolV, idx: int)
    ensures
        ({
            let fun = pool.value(idx)->Function_0;
            let typ = described_function(pool, idx);
            &&& typ.type_vars.len() == 0
            &&& typ.params.len() == fun.parameters.len()
            &&& forall|i: int|
                #![trigger typ.params[i]]
                0 <= i < fun.parameters.len() ==> {
                    let param = pool.value(fun.parameters[i])->Parameter_0;
                    &&& typ.params[i].typ == described_type(pool, param.type_)
                    &&& typ.params[i].is_out == param.flags.is_out
                    &&& !typ.params[i].is_poly
                }
            &&& fun.return_type matches Some(ret) ==> typ.ret == described_type(pool, ret)
            &&& fun.return_type is None ==> typ.ret == TypeV::Prim(Prim::Void)
            &&& !typ.is_ret_poly
        }),
{
}

/// Whether a map holds the function at an index of the pool at a place: under the name that stands
/// before its parameters, with its signature, its flags and its type.
pub open spec fn is_read(map: FuncMapV, slot: int, pool: PoolV, idx: int) -> bool {
    &&& map.has(slot)
    &&& map.entries[slot].signature == pool.name_of(idx)
    &&& map.entries[slot].flags == pool.value(idx)->Function_0.flags
    &&& map.entries[slot].typ == described_function(pool, idx)
    &&& map.entries[slot].base is None
    &&& 0 <= map.entries[slot].func < map.names.len()
    &&& map.names[map.entries[slot].func].name == before(pool.name_of(idx), ';')
    &&& map.names[map.entries[slot].func].path.len() == 0
}

/// Whether two functions of a class are loaded as the same one: both are static or neither is, and
/// they have the same signature.
pub open spec fn is_same_member(pool: PoolV, a: int, b: int) -> bool {
    &&& pool.value(a)->Function_0.flags.is_static == pool.value(b)->Function_0.flags.is_static
    &&& pool.name_of(a) == pool.name_of(b)
}

/// Each function of a class is loaded, among the static functions if it is static and else among
/// the methods, and it is noted where it is, given that no other one behind it is loaded as the
/// same function.
pub proof fn law_loaded_method(
    pool: PoolV,
    owner: Seq<char>,
    methods: Seq<int>,
    n: int,
    db: DbV,
    i: int,
) -> (slot: int)
    requires
        0 <= i < n <= methods.len(),
        forall|j: int|
            i < j < n ==> !is_same_member(pool, methods[i], #[trigger] methods[j]),
    ensures
        ({
            let (funcs, done) = load_methods(pool, owner, methods, n, db);
            let key = MemberIdV { owner, slot };
            if pool.value(methods[i])->Function_0.flags.is_static {
                &&& is_read(funcs.statics, slot, pool, methods[i])
                &&& done.statics.dom().contains(key) && done.statics[key] == methods[i]
            } else {
                &&& is_read(funcs.methods, slot, pool, methods[i])
                &&& done.methods.dom().contains(key) && done.methods[key] == methods[i]
            }
        }),
    decreases n,
{
    let (funcs, was) = load_methods(pool, owner, methods, n - 1, db);
    lemma_methods_wf(pool, owner, methods, n - 1, db);
    let idx = methods[n - 1];
    let flags = pool.value(idx)->Function_0.flags;
    let signature = pool.name_of(idx);
    let name = top_level(before(signature, ';'));
    let typ = described_function(pool, idx);
    let map = if flags.is_static {
        funcs.statics
    } else {
        funcs.methods
    };
    if i < n - 1 {
        let slot = law_loaded_method(pool, owner, methods, n - 1, db, i);
        law_added_function(map, name, signature, typ, flags, slot);
        assert(!is_same_member(pool, methods[i], methods[n - 1]));
        slot
    } else {
        let slot = map.slot_for(name, signature);
        law_added_function(map, name, signature, typ, flags, slot);
        slot
    }
}

/// Every function that is loaded of a class is one of those that the class lists.
pub proof fn law_only_methods_are_loaded(
    pool: PoolV,
    owner: Seq<char>,
    methods: Seq<int>,
    n: int,
    db: DbV,
    slot: int,
    is_static: bool,
) -> (i: int)
    requires
        0 <= n <= methods.len(),
        ({
            let funcs = load_methods(pool, owner, methods, n, db).0;
            if is_static {
                funcs.statics.has(slot)
            } else {
                funcs.methods.has(slot)
            }
        }),
    ensures
        ({
            let funcs = load_methods(pool, owner, methods, n, db).0;
            &&& 0 <= i < n
            &&& pool.value(methods[i])->Function_0.flags.is_static == is_static
            &&& is_static ==> is_read(funcs.statics, slot, pool, methods[i])
            &&& !is_static ==> is_read(funcs.methods, slot, pool, methods[i])
        }),
    decreases n,
{
    let (funcs, was) = load_methods(pool, owner, methods, n - 1, db);
    lemma_methods_wf(pool, owner, methods, n - 1, db);
    let idx = methods[n - 1];
    let flags = pool.value(idx)->Function_0.flags;
    let signature = pool.name_of(idx);
    let name = top_level(before(signature, ';'));
    let typ = described_function(pool, idx);
    let map = if flags.is_static {
        funcs.statics
    } else {
        funcs.methods
    };
    law_added_function(map, name, signature, typ, flags, slot);
    if flags.is_static == is_static && slot == map.slot_for(name, signature) {
        n - 1
    } else {
        law_only_methods_are_loaded(pool, owner, methods, n - 1, db, slot, is_static)
    }
}

proof fn lemma_methods_wf(pool: PoolV, owner: Seq<char>, methods: Seq<int>, n: int, db: DbV)
    ensures
        load_methods(pool, owner, methods, n, db).0.methods.wf(),
        load_methods(pool, owner, methods, n, db).0.statics.wf(),
    decreases n,
{
    if n > 0 {
        lemma_methods_wf(pool, owner, methods, n - 1, db);
        let (funcs, was) = load_methods(pool, owner, methods, n - 1, db);
        let idx = methods[n - 1];
        let flags = pool.value(idx)->Function_0.flags;
        let signature = pool.name_of(idx);
        let name = top_level(before(signature, ';'));
        let map = if flags.is_static {
            funcs.statics
        } else {
            funcs.methods
        };
        law_added_function(map, name, signature, described_function(pool, idx), flags, 0);
    }
}

/// Each field of a class is loaded under its name, with its type and its flags, and is noted where
/// it is, given that no other one behind it has its name.
pub proof fn law_loaded_field(
    pool: PoolV,
    owner: Seq<char>,
    fields: Seq<int>,
    n: int,
    db: DbV,
    i: int,
)
    requires
        0 <= i < n <= fields.len(),
        forall|j: int|
            i < j < n ==> pool.name_of(#[trigger] fields[j]) != pool.name_of(fields[i]),
    ensures
        ({
            let (dict, done) = load_fields(pool, owner, fields, n, db);
            let name = pool.name_of(fields[i]);
            let def = pool.value(fields[i])->Field_0;
            let key = MemberIdV { owner, slot: dict.slot(name) };
            &&& dict.wf()
            &&& dict.has(name)
            &&& dict.at(name).typ == described_type(pool, def.type_)
            &&& dict.at(name).flags == def.flags
            &&& done.fields.dom().contains(key) && done.fields[key] == fields[i]
        }),
    decreases n,
{
    let (dict, was) = load_fields(pool, owner, fields, n - 1, db);
    let (now, done) = load_fields(pool, owner, fields, n, db);
    lemma_fields_wf(pool, owner, fields, n - 1, db);
    let name = pool.name_of(fields[i]);
    let last = pool.name_of(fields[n - 1]);
    dict.lemma_put(last, described_field(pool, fields[n - 1]));
    assert(now.get(last) == Some(described_field(pool, fields[n - 1])));
    if i < n - 1 {
        law_loaded_field(pool, owner, fields, n - 1, db, i);
        assert(last != name);
        assert(now.get(name) == dict.get(name));
        assert(now.slot(name) == dict.slot(name));
        lemma_slots_differ(dict, name, last);
    }
}

proof fn lemma_fields_wf(pool: PoolV, owner: Seq<char>, fields: Seq<int>, n: int, db: DbV)
    ensures
        load_fields(pool, owner, fields, n, db).0.wf(),
    decreases n,
{
    if n > 0 {
        lemma_fields_wf(pool, owner, fields, n - 1, db);
        let (dict, was) = load_fields(pool, owner, fields, n - 1, db);
        dict.lemma_put(
            pool.name_of(fields[n - 1]),
            described_field(pool, fields[n - 1]),
        );
    } else {
        assert(DictV::<Seq<char>, FieldV>::empty().wf());
    }
}

proof fn lemma_slots_differ<V>(dict: DictV<Seq<char>, V>, a: Seq<char>, b: Seq<char>)
    requires
        dict.has(a),
        a != b,
    ensures
        dict.slot(a) != dict.slot(b),
{
    assert(dict.keys[dict.keys.index_of(a)] == a);
    if dict.has(b) {
        assert(dict.keys[dict.keys.index_of(b)] == b);
    }
}

/// A class is loaded with its flags and without type variables, and it extends the class that its
/// base is named after, if it has one. It is noted where it is.
pub proof fn law_loaded_class(pool: PoolV, owner: Seq<char>, idx: int, db: DbV)
    ensures
        ({
            let (class, done) = load_class(pool, owner, idx, db);
            let def = pool.value(idx)->Class_0;
            &&& class.flags == def.flags
            &&& class.type_vars.len() == 0
            &&& class.span is None
            &&& class.extends is None <==> def.base == UNDEFINED
            &&& class.extends matches Some(base) ==> base.id == pool.name_of(def.base)
                && base.args.len() == 0
            &&& done.classes.dom().contains(owner) && done.classes[owner] == idx
            &&& done.enums == db.enums
            &&& done.globals == db.globals
        }),
{
    let def = pool.value(idx)->Class_0;
    let start = DbV { classes: db.classes.insert(owner, idx), ..db };
    let n = def.fields.len() as int;
    lemma_fields_note(pool, owner, def.fields, n, start);
    let mid = load_fields(pool, owner, def.fields, n, start).1;
    lemma_methods_note(pool, owner, def.methods, def.methods.len() as int, mid);
}

proof fn lemma_fields_note(pool: PoolV, owner: Seq<char>, fields: Seq<int>, n: int, db: DbV)
    ensures
        ({
            let done = load_fields(pool, owner, fields, n, db).1;
            done == DbV { fields: done.fields, ..db }
        }),
    decreases n,
{
    if n > 0 {
        lemma_fields_note(pool, owner, fields, n - 1, db);
    }
}

proof fn lemma_methods_note(pool: PoolV, owner: Seq<char>, methods: Seq<int>, n: int, db: DbV)
    ensures
        ({
            let done = load_methods(pool, owner, methods, n, db).1;
            done == DbV { methods: done.methods, statics: done.statics, ..db }
        }),
    decreases n,
{
    if n > 0 {
        lemma_methods_note(pool, owner, methods, n - 1, db);
    }
}

/// The functions of a class, its static ones and its fields are those that are loaded of what the
/// class lists.
pub proof fn law_members_of_class(pool: PoolV, owner: Seq<char>, idx: int, db: DbV)
    ensures
        ({
            let (class, done) = load_class(pool, owner, idx, db);
            let def = pool.value(idx)->Class_0;
            let start = DbV { classes: db.classes.insert(owner, idx), ..db };
            let (fields, mid) = load_fields(
                pool,
                owner,
                def.fields,
                def.fields.len() as int,
                start,
            );
            let (funcs, end) = load_methods(
                pool,
                owner,
                def.methods,
                def.methods.len() as int,
                mid,
            );
            &&& class.fields == fields
            &&& class.methods == funcs.methods
            &&& class.statics == funcs.statics
            &&& done == end
        }),
{
}

/// Each member of an enum is loaded under its name with its value and is noted where it is, given
/// that no other one behind it has its name. The enum is noted where it is.
pub proof fn law_loaded_enum(pool: PoolV, owner: Seq<char>, idx: int, db: DbV, i: int)
    requires
        ({
            let members = pool.value(idx)->Enum_0.members;
            &&& 0 <= i < members.len()
            &&& forall|j: int|
                i < j < members.len() ==> pool.name_of(#[trigger] members[j]) != pool.name_of(
                    members[i],
                )
        }),
    ensures
        ({
            let (dict, done) = load_enum(pool, owner, idx, db);
            let at = pool.value(idx)->Enum_0.members[i];
            let name = pool.name_of(at);
            let key = MemberIdV { owner, slot: dict.slot(name) };
            &&& dict.has(name)
            &&& dict.at(name) == pool.value(at)->EnumValue_0
            &&& done.enum_members.dom().contains(key) && done.enum_members[key] == at
            &&& done.enums.dom().contains(owner) && done.enums[owner] == idx
            &&& done.classes == db.classes
        }),
{
    let members = pool.value(idx)->Enum_0.members;
    let start = DbV { enums: db.enums.insert(owner, idx), ..db };
    lemma_loaded_member(pool, owner, members, members.len() as int, start, i);
}

proof fn lemma_loaded_member(
    pool: PoolV,
    owner: Seq<char>,
    members: Seq<int>,
    n: int,
    db: DbV,
    i: int,
)
    requires
        0 <= i < n <= members.len(),
        forall|j: int|
            i < j < n ==> pool.name_of(#[trigger] members[j]) != pool.name_of(members[i]),
    ensures
        ({
            let (dict, done) = load_members(pool, owner, members, n, db);
            let name = pool.name_of(members[i]);
            let key = MemberIdV { owner, slot: dict.slot(name) };
            &&& dict.has(name)
            &&& dict.at(name) == pool.value(members[i])->EnumValue_0
            &&& done.enum_members.dom().contains(key) && done.enum_members[key] == members[i]
            &&& done.enums == db.enums
            &&& done.classes == db.classes
        }),
    decreases n,
{
    let (dict, was) = load_members(pool, owner, members, n - 1, db);
    let (now, done) = load_members(pool, owner, members, n, db);
    lemma_members_note(pool, owner, members, n - 1, db);
    let name = pool.name_of(members[i]);
    let last = pool.name_of(members[n - 1]);
    let value = pool.value(members[n - 1])->EnumValue_0;
    dict.lemma_put(last, value);
    assert(now.get(last) == Some(value));
    if i < n - 1 {
        lemma_loaded_member(pool, owner, members, n - 1, db, i);
        assert(last != name);
        assert(now.get(name) == dict.get(name));
        assert(now.slot(name) == dict.slot(name));
        lemma_slots_differ(dict, name, last);
    }
}

proof fn lemma_members_note(pool: PoolV, owner: Seq<char>, members: Seq<int>, n: int, db: DbV)
    ensures
        ({
            let (dict, done) = load_members(pool, owner, members, n, db);
            &&& dict.wf()
            &&& done == DbV { enum_members: done.enum_members, ..db }
        }),
    decreases n,
{
    if n > 0 {
        lemma_members_note(pool, owner, members, n - 1, db);
        let (dict, was) = load_members(pool, owner, members, n - 1, db);
        dict.lemma_put(pool.name_of(members[n - 1]), pool.value(members[n - 1])->EnumValue_0);
    }
}

/// A compilation starts with the built-in types, each with one type argument, unless the pool has a
/// class or an enum of such a name.
pub proof fn law_builtin_types_are_there(pool: PoolV, n: int, name: Seq<char>)
    requires
        name == "ref"@ || name == "wref"@ || name == "array"@ || name == "script_ref"@,
        forall|idx: int|
            1 <= idx < n && (pool.value(idx) is Class || pool.value(idx) is Enum)
                ==> #[trigger] pool.name_of(idx) != name,
    ensures
        loaded(pool, n).repo.types.wf(),
        loaded(pool, n).repo.types.get(name) matches Some(DataTypeV::Builtin(vars)) && vars.len()
            == 1,
    decreases n,
{
    if n <= 1 {
        let one = DataTypeV::Builtin(seq!["A"@]);
        let none = DictV::<Seq<char>, DataTypeV>::empty();
        reveal_strlit("ref");
        reveal_strlit("wref");
        reveal_strlit("array");
        reveal_strlit("script_ref");
        assert("ref"@.len() == 3 && "wref"@.len() == 4 && "array"@.len() == 5
            && "script_ref"@.len() == 10);
        none.lemma_put("ref"@, one);
        let a = none.put("ref"@, one);
        a.lemma_put("wref"@, one);
        let b = a.put("wref"@, one);
        b.lemma_put("array"@, one);
        let c = b.put("array"@, one);
        c.lemma_put("script_ref"@, one);
        let d = c.put("script_ref"@, one);
        assert(builtin_types() == d);
        assert(a.get(name) == Some(one) || name != "ref"@);
        assert(b.get(name) == Some(one) || (name != "ref"@ && name != "wref"@));
        assert(c.get(name) == Some(one) || name == "script_ref"@);
        assert(d.get(name) == Some(one));
    } else {
        law_builtin_types_are_there(pool, n - 1, name);
        let was = loaded(pool, n - 1);
        let other = pool.name_of(n - 1);
        match pool.value(n - 1) {
            AnyDefinitionV::Class(_) => {
                let class = load_class(pool, other, n - 1, was.db).0;
                was.repo.types.lemma_put(other, DataTypeV::Class(class));
                assert(loaded(pool, n).repo.types.get(name) == was.repo.types.get(name));
            },
            AnyDefinitionV::Enum(_) => {
                let members = load_enum(pool, other, n - 1, was.db).0;
                was.repo.types.lemma_put(other, DataTypeV::Enum(members));
                assert(loaded(pool, n).repo.types.get(name) == was.repo.types.get(name));
            },
            _ => {},
        }
    }
}

/// Each global function is loaded under the name that stands before its parameters, with its
/// signature, its flags and its type, and is noted where it is, given that no other one behind it
/// has its signature.
pub proof fn law_loaded_global(pool: PoolV, n: int, idx: int) -> (slot: int)
    requires
        1 <= idx < n <= pool.defs.len(),
        is_global(pool, idx),
        forall|j: int|
            idx < j < n && is_global(pool, j) ==> #[trigger] pool.name_of(j) != pool.name_of(idx),
    ensures
        ({
            let res = loaded(pool, n);
            &&& is_read(res.repo.globals, slot, pool, idx)
            &&& res.db.globals.dom().contains(slot) && res.db.globals[slot] == idx
        }),
    decreases n,
{
    let last = n - 1;
    let was = loaded(pool, last);
    lemma_globals_wf(pool, last);
    let signature = pool.name_of(last);
    let name = top_level(before(signature, ';'));
    let typ = described_function(pool, last);
    let flags = pool.value(last)->Function_0.flags;
    let map = was.repo.globals;
    lemma_definition_notes(pool, last);
    if idx < last {
        let slot = law_loaded_global(pool, last, idx);
        law_added_function(map, name, signature, typ, flags, slot);
        slot
    } else {
        let slot = map.slot_for(name, signature);
        law_added_function(map, name, signature, typ, flags, slot);
        slot
    }
}

/// A definition that is no global function leaves the global functions as they were.
proof fn lemma_definition_notes(pool: PoolV, idx: int)
    requires
        idx >= 1,
    ensures
        !is_global(pool, idx) ==> loaded(pool, idx + 1).repo.globals == loaded(
            pool,
            idx,
        ).repo.globals && loaded(pool, idx + 1).db.globals == loaded(pool, idx).db.globals,
{
    let was = loaded(pool, idx);
    let name = pool.name_of(idx);
    match pool.value(idx) {
        AnyDefinitionV::Class(_) => {
            law_loaded_class(pool, name, idx, was.db);
        },
        AnyDefinitionV::Enum(def) => {
            lemma_members_note(
                pool,
                name,
                def.members,
                def.members.len() as int,
                DbV { enums: was.db.enums.insert(name, idx), ..was.db },
            );
        },
        _ => {},
    }
}

proof fn lemma_globals_wf(pool: PoolV, n: int)
    ensures
        loaded(pool, n).repo.globals.wf(),
    decreases n,
{
    if n > 1 {
        lemma_globals_wf(pool, n - 1);
        lemma_definition_notes(pool, n - 1);
        let last = n - 1;
        let signature = pool.name_of(last);
        law_added_function(
            loaded(pool, last).repo.globals,
            top_level(before(signature, ';')),
            signature,
            described_function(pool, last),
            pool.value(last)->Function_0.flags,
            0,
        );
    }
}

/// A pool is intact exactly if all that it describes can be loaded: types, classes and enums have
/// names, what a class extends has one, and the members of classes and enums, and global functions,
/// are there with the types that they mention.
pub proof fn law_intact(pool: PoolV)
    ensures
        intact(pool) <==> forall|idx: int|
            1 <= idx < pool.defs.len() ==> match #[trigger] pool.value(idx) {
                AnyDefinitionV::Type(_) => pool.is_named(idx),
                AnyDefinitionV::Class(class) => {
                    &&& pool.is_named(idx)
                    &&& class.base == UNDEFINED || pool.is_named(class.base)
                    &&& forall|i: int|
                        0 <= i < class.fields.len() ==> describes_field(
                            pool,
                            #[trigger] class.fields[i],
                        )
                    &&& forall|i: int|
                        0 <= i < class.methods.len() ==> describes_function(
                            pool,
                            #[trigger] class.methods[i],
                        )
                },
                AnyDefinitionV::Function(_) => pool.defs[idx].parent == UNDEFINED
                    ==> describes_function(pool, idx),
                AnyDefinitionV::Enum(def) => {
                    &&& pool.is_named(idx)
                    &&& forall|i: int|
                        0 <= i < def.members.len() ==> pool.is_named(#[trigger] def.members[i])
                            && pool.value(def.members[i]) is EnumValue
                },
                _ => true,
            },
        pool.defs.len() <= 1 ==> intact(pool),
{
    if intact(pool) {
        assert forall|idx: int| 1 <= idx < pool.defs.len() implies match #[trigger] pool.value(idx) {
            AnyDefinitionV::Type(_) => pool.is_named(idx),
            AnyDefinitionV::Class(class) => {
                &&& pool.is_named(idx)
                &&& class.base == UNDEFINED || pool.is_named(class.base)
                &&& forall|i: int|
                    0 <= i < class.fields.len() ==> describes_field(
                        pool,
                        #[trigger] class.fields[i],
                    )
                &&& forall|i: int|
                    0 <= i < class.methods.len() ==> describes_function(
                        pool,
                        #[trigger] class.methods[i],
                    )
            },
            AnyDefinitionV::Function(_) => pool.defs[idx].parent == UNDEFINED
                ==> describes_function(pool, idx),
            AnyDefinitionV::Enum(def) => {
                &&& pool.is_named(idx)
                &&& forall|i: int|
                    0 <= i < def.members.len() ==> pool.is_named(#[trigger] def.members[i])
                        && pool.value(def.members[i]) is EnumValue
            },
            _ => true,
        } by {
            assert(loads(pool, idx));
        }
    } else {
        let idx = choose|idx: int| 1 <= idx < pool.defs.len() && !#[trigger] loads(pool, idx);
        assert(pool.value(idx) == pool.value(idx));
    }
}

/// A function can be loaded exactly if it has a name and its result and each of its parameters are
/// there with types that can be. A field can be exactly if it has a name and such a type.
pub proof fn law_describes(pool: PoolV, idx: int)
    ensures
        describes_function(pool, idx) <==> {
            let fun = pool.value(idx)->Function_0;
            &&& pool.is_named(idx)
            &&& pool.value(idx) is Function
            &&& fun.return_type is None || describes_type(pool, fun.return_type->0)
            &&& forall|i: int|
                #![trigger fun.parameters[i]]
                0 <= i < fun.parameters.len() ==> {
                    &&& pool.has(fun.parameters[i])
                    &&& pool.value(fun.parameters[i]) is Parameter
                    &&& describes_type(
                        pool,
                        pool.value(fun.parameters[i])->Parameter_0.type_,
                    )
                }
        },
        describes_field(pool, idx) <==> {
            &&& pool.is_named(idx)
            &&& pool.value(idx) is Field
            &&& describes_type(pool, pool.value(idx)->Field_0.type_)
        },
{
}

} // verus!
