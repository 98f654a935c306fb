//! What is loaded again of a class that has been written to the constant pool.
use vstd::prelude::*;

use crate::builders::{
    commit_fields, commit_methods, law_class_commit, law_function_commit_extends,
    lemma_fields_extend, lemma_methods_extend, FieldBuilderV, FunctionBuilderV,
};
use crate::commit::{
    base_class_index, class_builder, class_built, class_slot, index_ok, note_members, BuildV,
};
use crate::db::{
    described_field, described_function, described_param, describes_class, describes_field,
    describes_function, describes_param, load_class, load_fields, load_methods, short_name, DbV,
};
use crate::dict::DictV;
use crate::funcs::{lemma_first_with, top_level, FuncMapV};
use crate::pool::{PoolV, UNDEFINED};
use crate::repo::{ref_id, ClassTypeV, FieldV, RepoV};
use crate::roundtrip::{
    cache_sound, describes_as, function_plain, is_written, law_function_roundtrip,
    law_type_roundtrip, lemma_describes_extends, lemma_describes_put, lemma_sound_grows,
    loaded_function, loaded_type, named_type, plain,
};
use crate::type_cache::{
    allocated, extends, grows, law_allocation_extends, lemma_grows_trans, type_ok, ImageV,
};
use crate::types::ParameterizedV;

verus! {

/// Whether a function is described at an index as it was written.
pub open spec fn written_function(pool: PoolV, idx: int, fun: FunctionBuilderV, repo: RepoV) -> bool {
    &&& describes_function(pool, idx)
    &&& described_function(pool, idx) == loaded_function(fun, repo)
    &&& pool.name_of(idx) == fun.name
    &&& pool.value(idx)->Function_0.flags == fun.flags
}

/// Whether a field is described at an index as it was written.
pub open spec fn written_field(pool: PoolV, idx: int, field: FieldBuilderV, repo: RepoV) -> bool {
    &&& describes_field(pool, idx)
    &&& described_field(pool, idx) == loaded_field(field, repo)
    &&& pool.name_of(idx) == field.name
}

/// What is loaded again of a field.
pub open spec fn loaded_field(field: FieldBuilderV, repo: RepoV) -> FieldV {
    FieldV { typ: loaded_type(field.typ, repo), flags: field.flags }
}

/// A function stays as it was written when the pool grows.
proof fn lemma_function_extends(
    from: PoolV,
    to: PoolV,
    idx: int,
    fun: FunctionBuilderV,
    repo: RepoV,
)
    requires
        extends(from, to),
        written_function(from, idx, fun, repo),
    ensures
        written_function(to, idx, fun, repo),
{
    let def = from.value(idx)->Function_0;
    assert(to.defs[idx] == from.defs[idx]);
    assert(to.names[from.defs[idx].name] == from.names[from.defs[idx].name]);
    if def.return_type is Some {
        lemma_describes_extends(from, to, def.return_type->0);
    }
    assert forall|i: int|
        #![trigger def.parameters[i]]
        0 <= i < def.parameters.len() implies describes_param(to, def.parameters[i])
        && described_param(to, def.parameters[i]) == described_param(from, def.parameters[i]) by {
        let at = def.parameters[i];
        assert(describes_param(from, at));
        assert(to.defs[at] == from.defs[at]);
        lemma_describes_extends(from, to, from.value(at)->Parameter_0.type_);
    }
    assert(described_function(to, idx).params =~= described_function(from, idx).params);
}

/// A field stays as it was written when the pool grows.
proof fn lemma_field_extends(from: PoolV, to: PoolV, idx: int, field: FieldBuilderV, repo: RepoV)
    requires
        extends(from, to),
        written_field(from, idx, field, repo),
    ensures
        written_field(to, idx, field, repo),
{
    assert(to.defs[idx] == from.defs[idx]);
    assert(to.names[from.defs[idx].name] == from.names[from.defs[idx].name]);
    lemma_describes_extends(from, to, from.value(idx)->Field_0.type_);
}

/// Whether nothing but what is at one place differs between two pools, and what was there is
/// neither a type nor part of a function.
spec fn only_at(from: PoolV, to: PoolV, slot: int) -> bool {
    &&& from.names == to.names
    &&& from.defs.len() == to.defs.len()
    &&& forall|i: int|
        0 <= i < from.defs.len() && i != slot ==> #[trigger] to.defs[i] == from.defs[i]
    &&& from.has(slot) ==> from.value(slot) is Class || from.value(slot) is Reserved
}

proof fn lemma_function_put(
    from: PoolV,
    to: PoolV,
    slot: int,
    idx: int,
    fun: FunctionBuilderV,
    repo: RepoV,
)
    requires
        only_at(from, to, slot),
        written_function(from, idx, fun, repo),
    ensures
        written_function(to, idx, fun, repo),
{
    let def = from.value(idx)->Function_0;
    assert(to.defs[idx] == from.defs[idx]);
    if def.return_type is Some {
        lemma_describes_put(from, to, slot, def.return_type->0);
    }
    assert forall|i: int|
        #![trigger def.parameters[i]]
        0 <= i < def.parameters.len() implies describes_param(to, def.parameters[i])
        && described_param(to, def.parameters[i]) == described_param(from, def.parameters[i]) by {
        let at = def.parameters[i];
        assert(describes_param(from, at));
        assert(to.defs[at] == from.defs[at]);
        lemma_describes_put(from, to, slot, from.value(at)->Parameter_0.type_);
    }
    assert(described_function(to, idx).params =~= described_function(from, idx).params);
}

proof fn lemma_field_put(
    from: PoolV,
    to: PoolV,
    slot: int,
    idx: int,
    field: FieldBuilderV,
    repo: RepoV,
)
    requires
        only_at(from, to, slot),
        written_field(from, idx, field, repo),
    ensures
        written_field(to, idx, field, repo),
{
    assert(to.defs[idx] == from.defs[idx]);
    lemma_describes_put(from, to, slot, from.value(idx)->Field_0.type_);
}

/// Whether a function can be written and loaded again as it was.
pub open spec fn reloads(fun: FunctionBuilderV, repo: RepoV) -> bool {
    &&& fun.types_ok(repo)
    &&& function_plain(fun, repo)
    &&& !fun.is_wrapper
}

proof fn lemma_methods_roundtrip(
    methods: Seq<FunctionBuilderV>,
    n: int,
    parent: int,
    repo: RepoV,
    start: ImageV,
)
    requires
        repo.is_builtin(ref_id()),
        0 <= n <= methods.len(),
        forall|i: int| 0 <= i < methods.len() ==> reloads(#[trigger] methods[i], repo),
        cache_sound(start, repo),
    ensures
        ({
            let (end, done) = commit_methods(methods, n, parent, repo, start);
            &&& cache_sound(end, repo)
            &&& done.len() == n
            &&& forall|i: int|
                #![trigger done[i]]
                0 <= i < n ==> written_function(end.pool, done[i], methods[i], repo)
        }),
    decreases n,
{
    if n > 0 {
        lemma_methods_roundtrip(methods, n - 1, parent, repo, start);
        let (mid, before) = commit_methods(methods, n - 1, parent, repo, start);
        let (end, done) = commit_methods(methods, n, parent, repo, start);
        let fun = methods[n - 1];
        law_function_roundtrip(fun, parent, repo, mid);
        law_function_commit_extends(fun, parent, repo, mid);
        assert forall|i: int|
            #![trigger done[i]]
            0 <= i < n implies written_function(end.pool, done[i], methods[i], repo) by {
            if i < n - 1 {
                assert(done[i] == before[i]);
                lemma_function_extends(mid.pool, end.pool, done[i], methods[i], repo);
            }
        }
    }
}

proof fn lemma_fields_roundtrip(
    fields: Seq<FieldBuilderV>,
    n: int,
    parent: int,
    repo: RepoV,
    start: ImageV,
)
    requires
        repo.is_builtin(ref_id()),
        0 <= n <= fields.len(),
        forall|i: int|
            0 <= i < fields.len() ==> type_ok((#[trigger] fields[i]).typ, repo) && plain(
                fields[i].typ,
                repo,
            ),
        cache_sound(start, repo),
    ensures
        ({
            let (end, done) = commit_fields(fields, n, parent, repo, start);
            &&& cache_sound(end, repo)
            &&& done.len() == n
            &&& forall|i: int|
                #![trigger done[i]]
                0 <= i < n ==> written_field(end.pool, done[i], fields[i], repo)
        }),
    decreases n,
{
    if n > 0 {
        lemma_fields_roundtrip(fields, n - 1, parent, repo, start);
        let (mid, before) = commit_fields(fields, n - 1, parent, repo, start);
        let (end, done) = commit_fields(fields, n, parent, repo, start);
        let field = fields[n - 1];
        let named = mid.with_name(field.name);
        assert(grows(mid, named));
        lemma_sound_grows(mid, named, repo);
        law_type_roundtrip(field.typ, repo, named);
        law_allocation_extends(field.typ, repo, named);
        let (typed, at) = allocated(field.typ, repo, named);
        lemma_grows_trans(mid, named, typed);
        assert(grows(typed, end));
        lemma_sound_grows(typed, end, repo);
        lemma_grows_trans(mid, typed, end);
        lemma_describes_extends(typed.pool, end.pool, at);
        assert(end.pool.names[mid.pool.name_slot(field.name)] == field.name) by {
            assert(named.pool.names[mid.pool.name_slot(field.name)] == field.name);
        }
        assert forall|i: int|
            #![trigger done[i]]
            0 <= i < n implies written_field(end.pool, done[i], fields[i], repo) by {
            if i < n - 1 {
                assert(done[i] == before[i]);
                lemma_field_extends(mid.pool, end.pool, done[i], fields[i], repo);
            }
        }
    }
}

/// Whether the function at a place of a map is what is loaded of a function.
pub open spec fn is_loaded(map: FuncMapV, slot: int, fun: FunctionBuilderV, repo: RepoV) -> bool {
    let entry = map.entries[slot];
    &&& map.is_named(slot, top_level(short_name(fun.name)))
    &&& entry.signature == fun.name
    &&& entry.typ == loaded_function(fun, repo)
    &&& entry.flags == fun.flags
    &&& entry.base is None
}

/// A function with a new signature goes to the end of a map, and the others stay where they are.
proof fn lemma_added(map: FuncMapV, fun: FunctionBuilderV, repo: RepoV)
    requires
        map.wf(),
        forall|i: int| 0 <= i < map.entries.len() ==> (#[trigger] map.entries[i]).signature != fun.name,
    ensures
        ({
            let name = top_level(short_name(fun.name));
            let after = map.add_with_signature(
                name,
                fun.name,
                loaded_function(fun, repo),
                fun.flags,
            );
            let last = map.entries.len() as int;
            &&& map.slot_for(name, fun.name) == last
            &&& after.wf()
            &&& after.entries.len() == last + 1
            &&& is_loaded(after, last, fun, repo)
            &&& forall|i: int, other: FunctionBuilderV|
                0 <= i < last && #[trigger] is_loaded(map, i, other, repo) ==> is_loaded(
                    after,
                    i,
                    other,
                    repo,
                )
        }),
{
    let name = top_level(short_name(fun.name));
    let func = map.func_of(name);
    lemma_first_with(map.entries, func, fun.name, map.entries.len() as int);
    let after = map.add_with_signature(name, fun.name, loaded_function(fun, repo), fun.flags);
    assert forall|i: int, other: FunctionBuilderV|
        0 <= i < map.entries.len() && #[trigger] is_loaded(map, i, other, repo) implies is_loaded(
        after,
        i,
        other,
        repo,
    ) by {
        assert(after.entries[i] == map.entries[i]);
    }
}

/// Whether functions of a class can be told apart: static ones come first, and neither two static
/// ones nor two others have the same signature.
pub open spec fn told_apart(funs: Seq<FunctionBuilderV>, statics: int) -> bool {
    &&& 0 <= statics <= funs.len()
    &&& forall|i: int|
        0 <= i < funs.len() ==> (#[trigger] funs[i]).flags.is_static == (i < statics)
    &&& forall|i: int, j: int|
        #![trigger funs[i], funs[j]]
        0 <= i < j < funs.len() && (j < statics || statics <= i) ==> funs[i].name != funs[j].name
}

/// The smaller of two numbers.
pub open spec fn least(a: int, b: int) -> int {
    if a <= b {
        a
    } else {
        b
    }
}

proof fn lemma_load_methods(
    pool: PoolV,
    owner: Seq<char>,
    idxs: Seq<int>,
    n: int,
    db: DbV,
    funs: Seq<FunctionBuilderV>,
    statics: int,
    repo: RepoV,
)
    requires
        told_apart(funs, statics),
        idxs.len() == funs.len(),
        0 <= n <= funs.len(),
        forall|i: int|
            #![trigger idxs[i]]
            0 <= i < funs.len() ==> written_function(pool, idxs[i], funs[i], repo),
    ensures
        ({
            let (funcs, end) = load_methods(pool, owner, idxs, n, db);
            let own = n - least(n, statics);
            &&& funcs.statics.wf()
            &&& funcs.methods.wf()
            &&& funcs.statics.entries.len() == least(n, statics)
            &&& funcs.methods.entries.len() == own
            &&& forall|i: int|
                0 <= i < least(n, statics) ==> #[trigger] is_loaded(
                    funcs.statics,
                    i,
                    funs[i],
                    repo,
                )
            &&& forall|i: int|
                0 <= i < own ==> is_loaded(
                    funcs.methods,
                    i,
                    #[trigger] funs[statics + i],
                    repo,
                )
            &&& end == (DbV {
                statics: note_members(db.statics, owner, idxs, 0, least(n, statics)),
                methods: note_members(db.methods, owner, idxs, statics, own),
                ..db
            })
        }),
    decreases n,
{
    if n > 0 {
        lemma_load_methods(pool, owner, idxs, n - 1, db, funs, statics, repo);
        let (was, mid) = load_methods(pool, owner, idxs, n - 1, db);
        let (funcs, end) = load_methods(pool, owner, idxs, n, db);
        let fun = funs[n - 1];
        assert(written_function(pool, idxs[n - 1], fun, repo));
        if n <= statics {
            assert forall|i: int| 0 <= i < was.statics.entries.len() implies (
            #[trigger] was.statics.entries[i]).signature != fun.name by {
                assert(is_loaded(was.statics, i, funs[i], repo));
            }
            lemma_added(was.statics, fun, repo);
            assert forall|i: int| 0 <= i < least(n, statics) implies #[trigger] is_loaded(
                funcs.statics,
                i,
                funs[i],
                repo,
            ) by {
                if i < n - 1 {
                    assert(is_loaded(was.statics, i, funs[i], repo));
                }
            }
        } else {
            let own = n - 1 - statics;
            assert forall|i: int| 0 <= i < was.methods.entries.len() implies (
            #[trigger] was.methods.entries[i]).signature != fun.name by {
                assert(is_loaded(was.methods, i, funs[statics + i], repo));
            }
            lemma_added(was.methods, fun, repo);
            assert forall|i: int| 0 <= i < own + 1 implies is_loaded(
                funcs.methods,
                i,
                #[trigger] funs[statics + i],
                repo,
            ) by {
                if i < own {
                    assert(is_loaded(was.methods, i, funs[statics + i], repo));
                }
            }
        }
    }
}

proof fn lemma_load_fields(
    pool: PoolV,
    owner: Seq<char>,
    idxs: Seq<int>,
    n: int,
    db: DbV,
    fields: Seq<FieldBuilderV>,
    repo: RepoV,
)
    requires
        idxs.len() == fields.len(),
        0 <= n <= fields.len(),
        forall|i: int|
            #![trigger idxs[i]]
            0 <= i < fields.len() ==> written_field(pool, idxs[i], fields[i], repo),
        forall|i: int, j: int|
            #![trigger fields[i], fields[j]]
            0 <= i < j < fields.len() ==> fields[i].name != fields[j].name,
    ensures
        load_fields(pool, owner, idxs, n, db) == (
            DictV {
                keys: Seq::new(n as nat, |i: int| fields[i].name),
                vals: Seq::new(n as nat, |i: int| loaded_field(fields[i], repo)),
            },
            DbV { fields: note_members(db.fields, owner, idxs, 0, n), ..db },
        ),
    decreases n,
{
    let (dict, end) = load_fields(pool, owner, idxs, n, db);
    let keys = Seq::new(n as nat, |i: int| fields[i].name);
    let vals = Seq::new(n as nat, |i: int| loaded_field(fields[i], repo));
    if n > 0 {
        lemma_load_fields(pool, owner, idxs, n - 1, db, fields, repo);
        let (was, mid) = load_fields(pool, owner, idxs, n - 1, db);
        let name = fields[n - 1].name;
        assert(written_field(pool, idxs[n - 1], fields[n - 1], repo));
        assert(!was.has(name)) by {
            if was.has(name) {
                let i = was.keys.index_of(name);
                assert(was.keys[i] == fields[i].name);
            }
        }
        assert(was.slot(name) == n - 1);
    }
    assert(dict.keys =~= keys);
    assert(dict.vals =~= vals);
}

/// Whether the members of a class can be written and loaded again: the names in its types cannot be
/// mistaken, and its static functions and its other functions can be told apart.
pub open spec fn members_reload(repo: RepoV, id: Seq<char>, s: BuildV) -> bool {
    let class = repo.class(id);
    let b = class_builder(id, class, s.db);
    &&& class.fields.wf()
    &&& told_apart(b.methods, class.statics.entries.len() as int)
    &&& forall|i: int| 0 <= i < b.methods.len() ==> reloads(#[trigger] b.methods[i], repo)
    &&& forall|i: int|
        0 <= i < b.fields.len() ==> type_ok((#[trigger] b.fields[i]).typ, repo) && plain(
            b.fields[i].typ,
            repo,
        )
}

/// Whether a class can be written and loaded again: its members can be, and the class that it
/// extends is where it is noted to be.
pub open spec fn class_reloads(repo: RepoV, id: Seq<char>, s: BuildV) -> bool {
    &&& members_reload(repo, id, s)
    &&& repo.class(id).extends matches Some(base) ==> s.db.classes.dom().contains(base.id) ==> {
        let at = s.db.classes[base.id];
        &&& at != UNDEFINED
        &&& base.id == id || {
            &&& at != s.db.classes[id]
            &&& s.image.pool.is_named(at)
            &&& s.image.pool.name_of(at) == base.id
        }
    }
}

/// Whether the pool describes the members of a class at an index.
pub open spec fn describes_members(pool: PoolV, idx: int) -> bool {
    let class = pool.value(idx)->Class_0;
    &&& pool.is_named(idx)
    &&& pool.value(idx) is Class
    &&& forall|i: int|
        #![trigger class.fields[i]]
        0 <= i < class.fields.len() ==> describes_field(pool, class.fields[i])
    &&& forall|i: int|
        #![trigger class.methods[i]]
        0 <= i < class.methods.len() ==> describes_function(pool, class.methods[i])
}

/// The class that is loaded again in place of the class that a class extends: the same without
/// arguments, and none where it is not known where that class is.
pub open spec fn loaded_base(class: ClassTypeV, db: DbV) -> Option<ParameterizedV> {
    match class.extends {
        Some(base) => if db.classes.dom().contains(base.id) {
            Some(ParameterizedV { id: base.id, args: Seq::empty() })
        } else {
            None
        },
        None => None,
    }
}

/// The members of a class that is written to the pool are loaded again, wherever the class that it
/// extends is.
pub proof fn lemma_members_roundtrip(repo: RepoV, id: Seq<char>, s: BuildV)
    requires
        repo.is_builtin(ref_id()),
        repo.is_class(id),
        index_ok(s.db, s.image.pool),
        s.db.classes.dom().contains(id),
        members_reload(repo, id, s),
        cache_sound(s.image, repo),
    ensures
        ({
            let class = repo.class(id);
            let b = class_builder(id, class, s.db);
            let statics = class.statics.entries.len() as int;
            let done = class_built(repo, id, s);
            let idx = s.db.classes[id];
            let (again, db) = load_class(done.image.pool, id, idx, s.db);
            &&& describes_members(done.image.pool, idx)
            &&& done.image.pool.name_of(idx) == id
            &&& again.flags == class.flags
            &&& again.fields.keys == class.fields.keys
            &&& again.fields.vals == Seq::new(
                class.fields.keys.len(),
                |i: int| loaded_field(b.fields[i], repo),
            )
            &&& again.statics.entries.len() == statics
            &&& again.methods.entries.len() == class.methods.entries.len()
            &&& forall|i: int|
                0 <= i < statics ==> #[trigger] is_loaded(again.statics, i, b.methods[i], repo)
            &&& forall|i: int|
                0 <= i < class.methods.entries.len() ==> is_loaded(
                    again.methods,
                    i,
                    #[trigger] b.methods[statics + i],
                    repo,
                )
            &&& db == done.db
            &&& cache_sound(done.image, repo)
        }),
{
    let class = repo.class(id);
    let b = class_builder(id, class, s.db);
    let statics = class.statics.entries.len() as int;
    let done = class_built(repo, id, s);
    let idx = s.db.classes[id];
    let n = b.methods.len() as int;
    let m = b.fields.len() as int;
    let start = s.image.with_name(id);
    assert(class_slot(s.image.pool, idx));
    assert(grows(s.image, start));
    lemma_sound_grows(s.image, start, repo);
    lemma_methods_roundtrip(b.methods, n, idx, repo, start);
    lemma_methods_extend(b.methods, n, idx, repo, start);
    let (mid, methods) = commit_methods(b.methods, n, idx, repo, start);
    lemma_fields_roundtrip(b.fields, m, idx, repo, mid);
    lemma_fields_extend(b.fields, m, idx, repo, mid);
    let (full, fields) = commit_fields(b.fields, m, idx, repo, mid);
    lemma_grows_trans(s.image, start, mid);
    lemma_grows_trans(s.image, mid, full);
    lemma_grows_trans(start, mid, full);
    let from = full.pool;
    let to = done.image.pool;
    assert(from.defs[idx] == s.image.pool.defs[idx]);
    assert(only_at(from, to, idx));
    assert forall|i: int|
        #![trigger methods[i]]
        0 <= i < n implies written_function(to, methods[i], b.methods[i], repo) by {
        lemma_function_extends(mid.pool, from, methods[i], b.methods[i], repo);
        lemma_function_put(from, to, idx, methods[i], b.methods[i], repo);
    }
    assert forall|i: int|
        #![trigger fields[i]]
        0 <= i < m implies written_field(to, fields[i], b.fields[i], repo) by {
        lemma_field_put(from, to, idx, fields[i], b.fields[i], repo);
    }
    assert(to.names[s.image.pool.name_slot(id)] == id) by {
        assert(start.pool.names[s.image.pool.name_slot(id)] == id);
    }
    assert forall|name: Seq<char>| #[trigger]
        done.image.cache.dom().contains(name) && is_written(name, repo) implies describes_as(
        to,
        done.image.cache[name],
        named_type(name),
    ) by {
        lemma_describes_put(from, to, idx, full.cache[name]);
    }
    let noted = DbV { classes: s.db.classes.insert(id, idx), ..s.db };
    assert(noted.classes =~= s.db.classes);
    assert forall|i: int, j: int|
        #![trigger b.fields[i], b.fields[j]]
        0 <= i < j < b.fields.len() implies b.fields[i].name != b.fields[j].name by {}
    lemma_load_fields(to, id, fields, m, noted, b.fields, repo);
    let (dict, with_fields) = load_fields(to, id, fields, m, noted);
    assert(dict.keys =~= class.fields.keys);
    lemma_load_methods(to, id, methods, n, with_fields, b.methods, statics, repo);
    let (again, db) = load_class(to, id, idx, s.db);
    assert(db =~= done.db);
    assert(again.fields.vals =~= Seq::new(
        class.fields.keys.len(),
        |i: int| loaded_field(b.fields[i], repo),
    ));
}

/// A class that is written to the pool is loaded again with its name and flags, with all its fields
/// in order, and with all its static and other functions in order under the same signatures. The
/// types are those that are to be loaded of what was written. Loading notes for every member the
/// same place as writing did.
pub proof fn law_class_roundtrip(repo: RepoV, id: Seq<char>, s: BuildV)
    requires
        repo.is_builtin(ref_id()),
        repo.is_class(id),
        index_ok(s.db, s.image.pool),
        s.db.classes.dom().contains(id),
        class_reloads(repo, id, s),
        cache_sound(s.image, repo),
    ensures
        ({
            let class = repo.class(id);
            let b = class_builder(id, class, s.db);
            let statics = class.statics.entries.len() as int;
            let done = class_built(repo, id, s);
            let idx = s.db.classes[id];
            let (again, db) = load_class(done.image.pool, id, idx, s.db);
            &&& describes_class(done.image.pool, idx)
            &&& done.image.pool.name_of(idx) == id
            &&& again.flags == class.flags
            &&& again.extends == loaded_base(class, s.db)
            &&& again.fields.keys == class.fields.keys
            &&& again.fields.vals == Seq::new(
                class.fields.keys.len(),
                |i: int| loaded_field(b.fields[i], repo),
            )
            &&& again.statics.entries.len() == statics
            &&& again.methods.entries.len() == class.methods.entries.len()
            &&& forall|i: int|
                0 <= i < statics ==> #[trigger] is_loaded(again.statics, i, b.methods[i], repo)
            &&& forall|i: int|
                0 <= i < class.methods.entries.len() ==> is_loaded(
                    again.methods,
                    i,
                    #[trigger] b.methods[statics + i],
                    repo,
                )
            &&& db == done.db
            &&& cache_sound(done.image, repo)
        }),
{
    lemma_members_roundtrip(repo, id, s);
    let class = repo.class(id);
    let b = class_builder(id, class, s.db);
    let pool = class_built(repo, id, s).image.pool;
    let idx = s.db.classes[id];
    let base = base_class_index(s.db, class.extends);
    assert(class_slot(s.image.pool, idx));
    law_class_commit(b, idx, base, repo, s.image);
    if base != UNDEFINED && base != idx {
        assert(pool.defs[base] == s.image.pool.defs[base]);
        assert(pool.names[s.image.pool.defs[base].name] == s.image.pool.name_of(base));
    }
}

} // verus!
