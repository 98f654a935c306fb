//! What is loaded again of all classes and enums of a compilation.
use vstd::prelude::*;

use crate::builders::{law_class_commit, FunctionBuilderV};
use crate::commit::{
    base_class_index, class_builder, class_built, class_slot, enum_slot, field_builder, fills,
    index_ok, lemma_build_class, lemma_build_enum, lemma_types_reserved, linked, static_builder,
    types_build, types_built, types_reserved, BuildV,
};
use crate::db::{
    described_field, described_function, described_param, described_type, describes_class,
    describes_enum, describes_field, describes_function, describes_param, describes_type,
    lemma_described_type, load_class, load_enum, load_fields, load_members, load_methods, loaded,
    loads, type_within, DbV,
};
use crate::frame::{lemma_reserved_new, lemma_types_keep, lemma_types_leave};
use crate::outputs::{after_types, lemma_types_step};
use crate::pool::{AnyDefinitionV, PoolTypeV, PoolV, UNDEFINED};
use crate::reload::{
    describes_members, is_loaded, lemma_members_roundtrip, loaded_base, loaded_field,
    members_reload, reloads, told_apart,
};
use crate::repo::{ref_id, ClassTypeV, RepoV};
use crate::roundtrip::{
    cache_sound, describes_as, is_written, law_enum_roundtrip, lemma_load_class_alone,
    lemma_load_members_keeps, lemma_sound_grows, loaded_function, named_type, plain,
};
use crate::type_cache::type_ok;

verus! {

/// A type stays described when a place that held no type is filled.
proof fn lemma_within_fills(from: PoolV, to: PoolV, slot: int, idx: int, n: nat)
    requires
        fills(from, to, slot),
        type_within(from, idx, n) is Some,
    ensures
        type_within(to, idx, n) == type_within(from, idx, n),
    decreases n,
{
    assert(to.defs[idx] == from.defs[idx]);
    match from.value(idx) {
        AnyDefinitionV::Type(typ) => match typ {
            PoolTypeV::Ref(inner)
            | PoolTypeV::WeakRef(inner)
            | PoolTypeV::ScriptRef(inner)
            | PoolTypeV::Array(inner)
            | PoolTypeV::StaticArray(inner, _) => {
                lemma_within_fills(from, to, slot, inner, (n - 1) as nat);
            },
            _ => {
                assert(to.names[from.defs[idx].name] == from.names[from.defs[idx].name]);
            },
        },
        _ => {},
    }
}

proof fn lemma_type_fills(from: PoolV, to: PoolV, slot: int, idx: int)
    requires
        fills(from, to, slot),
        describes_type(from, idx),
    ensures
        describes_as(to, idx, described_type(from, idx)),
{
    let n = choose|n: nat| type_within(from, idx, n) is Some;
    lemma_within_fills(from, to, slot, idx, n);
    lemma_described_type(to, idx, n);
    lemma_described_type(from, idx, n);
}

/// A function stays described when a place that held none of its parts is filled.
proof fn lemma_function_fills(from: PoolV, to: PoolV, slot: int, idx: int)
    requires
        fills(from, to, slot),
        describes_function(from, idx),
    ensures
        describes_function(to, idx),
        described_function(to, idx) == described_function(from, idx),
        to.name_of(idx) == from.name_of(idx),
        to.value(idx) == from.value(idx),
{
    let def = from.value(idx)->Function_0;
    assert(to.defs[idx] == from.defs[idx]);
    assert(to.names[from.defs[idx].name] == from.names[from.defs[idx].name]);
    if def.return_type is Some {
        lemma_type_fills(from, to, slot, def.return_type->0);
    }
    assert forall|i: int|
        #![trigger def.parameters[i]]
        0 <= i < def.parameters.len() implies describes_param(to, def.parameters[i])
        && described_param(to, def.parameters[i]) == described_param(from, def.parameters[i]) by {
        let at = def.parameters[i];
        assert(describes_param(from, at));
        assert(to.defs[at] == from.defs[at]);
        lemma_type_fills(from, to, slot, from.value(at)->Parameter_0.type_);
    }
    assert(described_function(to, idx).params =~= described_function(from, idx).params);
}

proof fn lemma_field_fills(from: PoolV, to: PoolV, slot: int, idx: int)
    requires
        fills(from, to, slot),
        describes_field(from, idx),
    ensures
        describes_field(to, idx),
        described_field(to, idx) == described_field(from, idx),
        to.name_of(idx) == from.name_of(idx),
{
    assert(to.defs[idx] == from.defs[idx]);
    assert(to.names[from.defs[idx].name] == from.names[from.defs[idx].name]);
    lemma_type_fills(from, to, slot, from.value(idx)->Field_0.type_);
}

proof fn lemma_load_fields_fills(
    from: PoolV,
    to: PoolV,
    slot: int,
    owner: Seq<char>,
    fields: Seq<int>,
    n: int,
    db: DbV,
)
    requires
        fills(from, to, slot),
        0 <= n <= fields.len(),
        forall|i: int| 0 <= i < fields.len() ==> describes_field(from, #[trigger] fields[i]),
    ensures
        load_fields(to, owner, fields, n, db) == load_fields(from, owner, fields, n, db),
    decreases n,
{
    if n > 0 {
        lemma_load_fields_fills(from, to, slot, owner, fields, n - 1, db);
        lemma_field_fills(from, to, slot, fields[n - 1]);
    }
}

proof fn lemma_load_methods_fills(
    from: PoolV,
    to: PoolV,
    slot: int,
    owner: Seq<char>,
    methods: Seq<int>,
    n: int,
    db: DbV,
)
    requires
        fills(from, to, slot),
        0 <= n <= methods.len(),
        forall|i: int| 0 <= i < methods.len() ==> describes_function(from, #[trigger] methods[i]),
    ensures
        load_methods(to, owner, methods, n, db) == load_methods(from, owner, methods, n, db),
    decreases n,
{
    if n > 0 {
        lemma_load_methods_fills(from, to, slot, owner, methods, n - 1, db);
        lemma_function_fills(from, to, slot, methods[n - 1]);
    }
}

/// The members of a class stay described when another place is filled.
proof fn lemma_members_fill(from: PoolV, to: PoolV, slot: int, owner: Seq<char>, idx: int, db: DbV)
    requires
        fills(from, to, slot),
        describes_members(from, idx),
        idx != slot,
    ensures
        describes_members(to, idx),
        to.name_of(idx) == from.name_of(idx),
        to.value(idx) == from.value(idx),
        load_class(to, owner, idx, db).0.fields == load_class(from, owner, idx, db).0.fields,
        load_class(to, owner, idx, db).0.statics == load_class(from, owner, idx, db).0.statics,
        load_class(to, owner, idx, db).0.methods == load_class(from, owner, idx, db).0.methods,
{
    let class = from.value(idx)->Class_0;
    assert(to.defs[idx] == from.defs[idx]);
    assert(to.names[from.defs[idx].name] == from.names[from.defs[idx].name]);
    assert forall|i: int|
        #![trigger class.fields[i]]
        0 <= i < class.fields.len() implies describes_field(to, class.fields[i]) by {
        lemma_field_fills(from, to, slot, class.fields[i]);
    }
    assert forall|i: int|
        #![trigger class.methods[i]]
        0 <= i < class.methods.len() implies describes_function(to, class.methods[i]) by {
        lemma_function_fills(from, to, slot, class.methods[i]);
    }
    let start = DbV { classes: db.classes.insert(owner, idx), ..db };
    let n = class.fields.len() as int;
    let m = class.methods.len() as int;
    lemma_load_fields_fills(from, to, slot, owner, class.fields, n, start);
    let mid = load_fields(from, owner, class.fields, n, start).1;
    lemma_load_methods_fills(from, to, slot, owner, class.methods, m, mid);
}

/// All functions of a class, static ones first, without what they override.
pub open spec fn class_funs(class: ClassTypeV) -> Seq<FunctionBuilderV> {
    let statics = class.statics.entries;
    let methods = class.methods.entries;
    Seq::new(
        statics.len() + methods.len(),
        |i: int|
            static_builder(
                if i < statics.len() {
                    statics[i]
                } else {
                    methods[i - statics.len()]
                },
            ),
    )
}

/// Whether a class can be loaded again: the names in its types cannot be mistaken, and its static
/// functions and its other functions can be told apart.
pub open spec fn class_plain(repo: RepoV, class: ClassTypeV) -> bool {
    let funs = class_funs(class);
    &&& class.fields.wf()
    &&& told_apart(funs, class.statics.entries.len() as int)
    &&& forall|i: int| 0 <= i < funs.len() ==> reloads(#[trigger] funs[i], repo)
    &&& forall|i: int|
        0 <= i < class.fields.keys.len() ==> type_ok(
            (#[trigger] class.fields.vals[i]).typ,
            repo,
        ) && plain(class.fields.vals[i].typ, repo)
}

/// Whether the members of a class are loaded from an index as they were declared, together with its
/// name and flags.
pub open spec fn members_recovered(repo: RepoV, id: Seq<char>, pool: PoolV, idx: int) -> bool {
    let class = repo.class(id);
    let funs = class_funs(class);
    let statics = class.statics.entries.len() as int;
    let again = load_class(pool, id, idx, DbV::empty()).0;
    &&& describes_members(pool, idx)
    &&& pool.name_of(idx) == id
    &&& again.flags == class.flags
    &&& again.fields.keys == class.fields.keys
    &&& again.fields.vals.len() == class.fields.keys.len()
    &&& forall|i: int|
        #![trigger again.fields.vals[i]]
        0 <= i < class.fields.keys.len() ==> again.fields.vals[i] == loaded_field(
            field_builder(class.fields.keys[i], class.fields.vals[i]),
            repo,
        )
    &&& again.statics.entries.len() == statics
    &&& again.methods.entries.len() == class.methods.entries.len()
    &&& forall|i: int|
        0 <= i < statics ==> #[trigger] is_loaded(again.statics, i, funs[i], repo)
    &&& forall|i: int|
        0 <= i < class.methods.entries.len() ==> is_loaded(
            again.methods,
            i,
            #[trigger] funs[statics + i],
            repo,
        )
}

/// Whether a class is loaded from an index as it was declared: with its members, its name and its
/// flags, and with what it extends.
pub open spec fn is_recovered(
    repo: RepoV,
    id: Seq<char>,
    db: DbV,
    pool: PoolV,
    idx: int,
) -> bool {
    let again = load_class(pool, id, idx, DbV::empty()).0;
    &&& describes_class(pool, idx)
    &&& members_recovered(repo, id, pool, idx)
    &&& again.extends == loaded_base(repo.class(id), db)
}

/// The members of a class can be loaded again where they can be without what they override.
proof fn lemma_members_reload(repo: RepoV, id: Seq<char>, s: BuildV)
    requires
        class_plain(repo, repo.class(id)),
    ensures
        members_reload(repo, id, s),
{
    let class = repo.class(id);
    let b = class_builder(id, class, s.db);
    let funs = class_funs(class);
    let statics = class.statics.entries.len() as int;
    assert forall|i: int| 0 <= i < b.methods.len() implies reloads(#[trigger] b.methods[i], repo)
        && b.methods[i] == (FunctionBuilderV { base: b.methods[i].base, ..funs[i] }) by {
        assert(reloads(funs[i], repo));
    }
    assert(told_apart(b.methods, statics)) by {
        assert forall|i: int| 0 <= i < b.methods.len() implies (
        #[trigger] b.methods[i]).flags.is_static == (i < statics) by {
            assert(funs[i].flags == b.methods[i].flags);
        }
        assert forall|i: int, j: int|
            #![trigger b.methods[i], b.methods[j]]
            0 <= i < j < b.methods.len() && (j < statics || statics <= i) implies b.methods[i].name
            != b.methods[j].name by {
            assert(funs[i].name != funs[j].name);
        }
    }
    assert forall|i: int| 0 <= i < b.fields.len() implies type_ok(
        (#[trigger] b.fields[i]).typ,
        repo,
    ) && plain(b.fields[i].typ, repo) by {
        let field = class.fields.vals[i];
    }
}

/// The members of a class that has just been written are recovered.
proof fn lemma_members_recovered(repo: RepoV, id: Seq<char>, s: BuildV)
    requires
        repo.is_builtin(ref_id()),
        repo.is_class(id),
        index_ok(s.db, s.image.pool),
        s.db.classes.dom().contains(id),
        class_plain(repo, repo.class(id)),
        cache_sound(s.image, repo),
    ensures
        members_recovered(repo, id, class_built(repo, id, s).image.pool, s.db.classes[id]),
        cache_sound(class_built(repo, id, s).image, repo),
        class_built(repo, id, s).image.pool.value(s.db.classes[id])->Class_0.base
            == base_class_index(s.db, repo.class(id).extends),
{
    lemma_members_reload(repo, id, s);
    lemma_members_roundtrip(repo, id, s);
    let class = repo.class(id);
    let b = class_builder(id, class, s.db);
    let funs = class_funs(class);
    let statics = class.statics.entries.len() as int;
    let pool = class_built(repo, id, s).image.pool;
    let idx = s.db.classes[id];
    lemma_load_class_alone(pool, id, idx, s.db, DbV::empty());
    let again = load_class(pool, id, idx, DbV::empty()).0;
    assert(class_slot(s.image.pool, idx));
    law_class_commit(b, idx, base_class_index(s.db, class.extends), repo, s.image);
    assert forall|i: int| 0 <= i < statics implies #[trigger] is_loaded(
        again.statics,
        i,
        funs[i],
        repo,
    ) by {
        assert(is_loaded(again.statics, i, b.methods[i], repo));
        assert(loaded_function(b.methods[i], repo) == loaded_function(funs[i], repo));
    }
    assert forall|i: int| 0 <= i < class.methods.entries.len() implies is_loaded(
        again.methods,
        i,
        #[trigger] funs[statics + i],
        repo,
    ) by {
        let fun = b.methods[statics + i];
        assert(is_loaded(again.methods, i, fun, repo));
        assert(fun == (FunctionBuilderV { base: fun.base, ..funs[statics + i] }));
        assert(loaded_function(fun, repo) == loaded_function(funs[statics + i], repo));
    }
}

/// The places that are reserved for different types are different, and all of them are new. Classes
/// that are not among the types stay where they are.
proof fn lemma_places(repo: RepoV, types: Seq<Seq<char>>, n: int, s: BuildV)
    requires
        0 <= n <= types.len(),
        types.no_duplicates(),
        forall|i: int| 0 <= i < types.len() ==> repo.has(#[trigger] types[i]),
    ensures
        ({
            let done = types_reserved(repo, types, n, s);
            &&& s.image.pool.defs.len() <= done.image.pool.defs.len()
            &&& forall|i: int|
                0 <= i < n ==> places_ok(repo, #[trigger] types[i], done, s.image.pool)
            &&& forall|i: int, j: int|
                #![trigger types[i], types[j]]
                0 <= i < j < n ==> places_differ(repo, types[i], types[j], done.db)
            &&& forall|id: Seq<char>|
                !(repo.is_class(id) && types.take(n).contains(id)) ==> (
                #[trigger] done.db.classes.dom().contains(id) <==> s.db.classes.dom().contains(id))
                    && done.db.classes[id] == s.db.classes[id]
        }),
    decreases n,
{
    if n > 0 {
        lemma_places(repo, types, n - 1, s);
        let at = types_reserved(repo, types, n - 1, s);
        let done = types_reserved(repo, types, n, s);
        let id = types[n - 1];
        assert(repo.has(id));
        assert forall|i: int| 0 <= i < n implies places_ok(
            repo,
            #[trigger] types[i],
            done,
            s.image.pool,
        ) by {
            if i < n - 1 {
                assert(places_ok(repo, types[i], at, s.image.pool));
                assert(types[i] != id);
            }
        }
        assert forall|i: int, j: int|
            #![trigger types[i], types[j]]
            0 <= i < j < n implies places_differ(repo, types[i], types[j], done.db) by {
            assert(places_ok(repo, types[i], at, s.image.pool));
            assert(types[i] != id);
            if j < n - 1 {
                assert(places_differ(repo, types[i], types[j], at.db));
                assert(types[j] != id);
            }
        }
        assert forall|other: Seq<char>|
            !(repo.is_class(other) && types.take(n).contains(other)) implies (
        #[trigger] done.db.classes.dom().contains(other) <==> s.db.classes.dom().contains(other))
            && done.db.classes[other] == s.db.classes[other] by {
            let first = types.take(n - 1);
            if first.contains(other) {
                let k = choose|k: int| 0 <= k < first.len() && first[k] == other;
                assert(types.take(n)[k] == other);
            }
            assert(at.db.classes.dom().contains(other) <==> s.db.classes.dom().contains(other));
            assert(types.take(n)[n - 1] == id);
        }
    }
}

/// The place of a type is new.
spec fn places_ok(repo: RepoV, id: Seq<char>, s: BuildV, before: PoolV) -> bool {
    &&& repo.is_class(id) ==> s.db.classes.dom().contains(id) && before.defs.len()
        <= s.db.classes[id] < s.image.pool.defs.len()
    &&& repo.is_enum(id) ==> s.db.enums.dom().contains(id) && before.defs.len()
        <= s.db.enums[id] < s.image.pool.defs.len()
}

/// The places of two types are different.
spec fn places_differ(repo: RepoV, a: Seq<char>, b: Seq<char>, db: DbV) -> bool {
    &&& repo.is_class(a) && repo.is_class(b) ==> db.classes[a] != db.classes[b]
    &&& repo.is_class(a) && repo.is_enum(b) ==> db.classes[a] != db.enums[b]
    &&& repo.is_enum(a) && repo.is_class(b) ==> db.enums[a] != db.classes[b]
    &&& repo.is_enum(a) && repo.is_enum(b) ==> db.enums[a] != db.enums[b]
}

/// Whether each class that is noted is where its name is.
pub open spec fn classes_named(db: DbV, pool: PoolV) -> bool {
    forall|id: Seq<char>| #[trigger]
        db.classes.dom().contains(id) ==> {
            &&& db.classes[id] != UNDEFINED
            &&& pool.is_named(db.classes[id])
            &&& pool.name_of(db.classes[id]) == id
        }
}

/// Each class that is loaded from a pool is noted where its name is.
pub proof fn law_loaded_is_named(pool: PoolV, n: int)
    requires
        forall|idx: int| 1 <= idx < pool.defs.len() ==> #[trigger] loads(pool, idx),
        n <= pool.defs.len(),
    ensures
        classes_named(loaded(pool, n).db, pool),
    decreases n,
{
    if n > 1 {
        law_loaded_is_named(pool, n - 1);
        let was = loaded(pool, n - 1);
        let idx = n - 1;
        let name = pool.name_of(idx);
        assert(loads(pool, idx));
        match pool.value(idx) {
            AnyDefinitionV::Class(_) => {
                lemma_load_class_alone(pool, name, idx, was.db, was.db);
            },
            AnyDefinitionV::Enum(def) => {
                lemma_load_members_keeps(
                    pool,
                    name,
                    def.members,
                    def.members.len() as int,
                    DbV { enums: was.db.enums.insert(name, idx), ..was.db },
                );
            },
            _ => {},
        }
    }
}

/// Whether types are all different, and classes among them can be loaded again.
pub open spec fn types_plain(repo: RepoV, types: Seq<Seq<char>>) -> bool {
    &&& types.no_duplicates()
    &&& forall|i: int|
        0 <= i < types.len() && repo.is_class(#[trigger] types[i]) ==> class_plain(
            repo,
            repo.class(types[i]),
        )
}

/// Once types are written, the members of every class among them are recovered, the class says
/// where what it extends is, and every cached type is still what its name stands for.
pub proof fn lemma_all_recovered(repo: RepoV, types: Seq<Seq<char>>, n: int, s: BuildV)
    requires
        repo.is_builtin(ref_id()),
        linked(s.db, s.image.pool),
        types_build(repo, types, s),
        types_plain(repo, types),
        cache_sound(s.image, repo),
        s.image.pool.defs.len() > 0,
        0 <= n <= types.len(),
    ensures
        ({
            let start = types_reserved(repo, types, types.len() as int, s);
            let at = types_built(repo, types, n, start);
            &&& cache_sound(at.image, repo)
            &&& forall|j: int|
                0 <= j < n && repo.is_class(#[trigger] types[j]) ==> members_recovered(
                    repo,
                    types[j],
                    at.image.pool,
                    start.db.classes[types[j]],
                ) && at.image.pool.value(start.db.classes[types[j]])->Class_0.base
                    == base_class_index(start.db, repo.class(types[j]).extends)
        }),
    decreases n,
{
    let total = types.len() as int;
    let start = types_reserved(repo, types, total, s);
    lemma_types_reserved(repo, types, total, s);
    lemma_reserved_new(repo, types, total, s);
    if n > 0 {
        let last = n - 1;
        lemma_all_recovered(repo, types, last, s);
        lemma_types_step(repo, types, last, s);
        lemma_places(repo, types, total, s);
        let at = types_built(repo, types, last, start);
        let done = types_built(repo, types, n, start);
        let id = types[last];
        assert(repo.has(id));
        assert(places_ok(repo, id, start, s.image.pool));
        if repo.is_class(id) {
            assert(class_plain(repo, repo.class(id)));
            lemma_members_recovered(repo, id, at);
            lemma_build_class(repo, id, at);
        } else if repo.is_enum(id) {
            lemma_build_enum(repo, id, at);
            assert forall|name: Seq<char>| #[trigger]
                done.image.cache.dom().contains(name) && is_written(
                name,
                repo,
            ) implies describes_as(
                done.image.pool,
                done.image.cache[name],
                named_type(name),
            ) by {
                lemma_type_fills(
                    at.image.pool,
                    done.image.pool,
                    at.db.enums[id],
                    at.image.cache[name],
                );
            }
        }
        let slot = if repo.is_class(id) {
            at.db.classes[id]
        } else {
            at.db.enums[id]
        };
        assert forall|j: int| 0 <= j < last && repo.is_class(#[trigger] types[j]) implies {
            &&& members_recovered(
                repo,
                types[j],
                done.image.pool,
                start.db.classes[types[j]],
            )
            &&& done.image.pool.value(start.db.classes[types[j]])->Class_0.base
                == base_class_index(start.db, repo.class(types[j]).extends)
        } by {
            if repo.is_class(id) || repo.is_enum(id) {
                let idx = start.db.classes[types[j]];
                assert(places_differ(repo, types[j], id, start.db));
                lemma_members_fill(
                    at.image.pool,
                    done.image.pool,
                    slot,
                    types[j],
                    idx,
                    DbV::empty(),
                );
            }
        }
    } else {
        lemma_sound_grows(s.image, start.image, repo);
    }
}

/// The classes of a compilation that are written to the pool are loaded again as they were declared:
/// each with its name and flags, with the class that it extends where that is known, and with all
/// its fields, static functions and other functions in order. The types in them are those that are
/// to be loaded of what was written.
pub proof fn law_classes_reload(repo: RepoV, types: Seq<Seq<char>>, s: BuildV, i: int)
    requires
        repo.is_builtin(ref_id()),
        linked(s.db, s.image.pool),
        types_build(repo, types, s),
        types_plain(repo, types),
        classes_named(s.db, s.image.pool),
        cache_sound(s.image, repo),
        s.image.pool.defs.len() > 0,
        0 <= i < types.len(),
        repo.is_class(types[i]),
    ensures
        ({
            let done = after_types(repo, types, s);
            is_recovered(repo, types[i], done.db, done.image.pool, done.db.classes[types[i]])
        }),
{
    let total = types.len() as int;
    let start = types_reserved(repo, types, total, s);
    let done = after_types(repo, types, s);
    lemma_all_recovered(repo, types, total, s);
    lemma_types_step(repo, types, total, s);
    lemma_places(repo, types, total, s);
    assert(types.take(total) =~= types);
    if let Some(base) = repo.class(types[i]).extends {
        if start.db.classes.dom().contains(base.id) {
            let at = start.db.classes[base.id];
            if repo.is_class(base.id) && types.contains(base.id) {
                let k = choose|k: int| 0 <= k < types.len() && types[k] == base.id;
                assert(places_ok(repo, types[k], start, s.image.pool));
                assert(members_recovered(repo, types[k], done.image.pool, at));
            } else {
                assert(s.db.classes.dom().contains(base.id));
                assert(class_slot(s.image.pool, at));
                lemma_types_leave(repo, types, total, s, at);
                lemma_types_keep(repo, types, total, s);
                let name = s.image.pool.defs[at].name;
                assert(done.image.pool.names[name] == s.image.pool.names[name]);
            }
        }
    }
}

proof fn lemma_load_members_fills(
    from: PoolV,
    to: PoolV,
    slot: int,
    owner: Seq<char>,
    members: Seq<int>,
    n: int,
    db: DbV,
)
    requires
        fills(from, to, slot),
        0 <= n <= members.len(),
        forall|i: int|
            0 <= i < members.len() ==> from.is_named(#[trigger] members[i]) && from.value(
                members[i],
            ) is EnumValue,
    ensures
        load_members(to, owner, members, n, db) == load_members(from, owner, members, n, db),
    decreases n,
{
    if n > 0 {
        lemma_load_members_fills(from, to, slot, owner, members, n - 1, db);
        let at = members[n - 1];
        assert(to.defs[at] == from.defs[at]);
        assert(to.names[from.defs[at].name] == from.names[from.defs[at].name]);
    }
}

/// Whether an enum is loaded from an index as it was declared.
pub open spec fn enum_recovered(repo: RepoV, id: Seq<char>, pool: PoolV, idx: int) -> bool {
    &&& describes_enum(pool, idx)
    &&& pool.name_of(idx) == id
    &&& load_enum(pool, id, idx, DbV::empty()).0 == repo.types.at(id)->Enum_0
}

/// An enum that is recovered stays so when another place is filled.
proof fn lemma_enum_fills(
    repo: RepoV,
    from: PoolV,
    to: PoolV,
    slot: int,
    id: Seq<char>,
    idx: int,
)
    requires
        fills(from, to, slot),
        enum_recovered(repo, id, from, idx),
        idx != slot,
    ensures
        enum_recovered(repo, id, to, idx),
{
    let members = from.value(idx)->Enum_0.members;
    assert(to.defs[idx] == from.defs[idx]);
    assert(to.names[from.defs[idx].name] == from.names[from.defs[idx].name]);
    assert forall|i: int|
        #![trigger to.value(idx)->Enum_0.members[i]]
        0 <= i < members.len() implies to.is_named(members[i]) && to.value(
        members[i],
    ) is EnumValue by {
        let at = from.value(idx)->Enum_0.members[i];
        assert(to.defs[at] == from.defs[at]);
    }
    assert forall|i: int| 0 <= i < members.len() implies from.is_named(#[trigger] members[i])
        && from.value(members[i]) is EnumValue by {
        let at = from.value(idx)->Enum_0.members[i];
    }
    let noted = DbV { enums: DbV::empty().enums.insert(id, idx), ..DbV::empty() };
    lemma_load_members_fills(from, to, slot, id, members, members.len() as int, noted);
}

proof fn lemma_enums_recovered(repo: RepoV, types: Seq<Seq<char>>, n: int, s: BuildV)
    requires
        linked(s.db, s.image.pool),
        types_build(repo, types, s),
        types.no_duplicates(),
        forall|i: int|
            0 <= i < types.len() && repo.is_enum(#[trigger] types[i]) ==> repo.types.at(
                types[i],
            )->Enum_0.wf(),
        0 <= n <= types.len(),
    ensures
        ({
            let start = types_reserved(repo, types, types.len() as int, s);
            let at = types_built(repo, types, n, start);
            forall|j: int|
                0 <= j < n && repo.is_enum(#[trigger] types[j]) ==> enum_recovered(
                    repo,
                    types[j],
                    at.image.pool,
                    start.db.enums[types[j]],
                )
        }),
    decreases n,
{
    if n > 0 {
        let total = types.len() as int;
        let start = types_reserved(repo, types, total, s);
        let last = n - 1;
        lemma_enums_recovered(repo, types, last, s);
        lemma_types_step(repo, types, last, s);
        lemma_places(repo, types, total, s);
        let at = types_built(repo, types, last, start);
        let done = types_built(repo, types, n, start);
        let id = types[last];
        assert(repo.has(id));
        assert(places_ok(repo, id, start, s.image.pool));
        if repo.is_class(id) {
            lemma_build_class(repo, id, at);
        } else if repo.is_enum(id) {
            let idx = at.db.enums[id];
            assert(enum_slot(at.image.pool, idx));
            law_enum_roundtrip(id, repo.types.at(id)->Enum_0, idx, at.image.pool, DbV::empty());
            lemma_build_enum(repo, id, at);
        }
        let slot = if repo.is_class(id) {
            at.db.classes[id]
        } else {
            at.db.enums[id]
        };
        assert forall|j: int| 0 <= j < last && repo.is_enum(
            #[trigger] types[j],
        ) implies enum_recovered(
            repo,
            types[j],
            done.image.pool,
            start.db.enums[types[j]],
        ) by {
            if repo.is_class(id) || repo.is_enum(id) {
                let idx = start.db.enums[types[j]];
                assert(places_differ(repo, types[j], id, start.db));
                lemma_enum_fills(repo, at.image.pool, done.image.pool, slot, types[j], idx);
            }
        }
    }
}

/// The enums of a compilation that are written to the pool are loaded again as they were declared,
/// each with all its members in order and with their values.
pub proof fn law_enums_reload(repo: RepoV, types: Seq<Seq<char>>, s: BuildV, i: int)
    requires
        linked(s.db, s.image.pool),
        types_build(repo, types, s),
        types.no_duplicates(),
        forall|j: int|
            0 <= j < types.len() && repo.is_enum(#[trigger] types[j]) ==> repo.types.at(
                types[j],
            )->Enum_0.wf(),
        0 <= i < types.len(),
        repo.is_enum(types[i]),
    ensures
        ({
            let done = after_types(repo, types, s);
            enum_recovered(repo, types[i], done.image.pool, done.db.enums[types[i]])
        }),
{
    let total = types.len() as int;
    lemma_enums_recovered(repo, types, total, s);
    lemma_types_step(repo, types, total, s);
}

} // verus!
