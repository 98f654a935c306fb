//! What is loaded again of what has been written to the constant pool.
use vstd::prelude::*;

use crate::builders::{
    commit_locals, commit_members, commit_params, lemma_locals_extend, lemma_members_extend,
    lemma_params_extend, EnumMemberV, FunctionBuilderV, LocalBuilderV, ParamBuilderV,
};
use crate::commit::{enum_builder, enum_slot, fun_there, linked};
use crate::db::{
    applied, described_function, described_param, described_type, describes_enum,
    describes_function, describes_param, describes_type, lemma_described_type, load_class,
    load_enum, load_fields, load_members, load_methods, loaded, loads, short_name, type_within, DbV,
    ResourcesV,
};
use crate::dict::DictV;
use crate::flags::FunctionFlags;
use crate::funcs::{first_with, top_level, FuncEntryV, FuncParamV, FuncTypeV};
use crate::pool::{reserved, AnyDefinitionV, PoolTypeV, PoolV, UNDEFINED};
use crate::repo::{array_id, builtin_types, ref_id, script_ref_id, wref_id, DataTypeV, RepoV};
use crate::text::{before, lemma_before_is};
use crate::type_cache::{
    allocated, allocated_unwrapped, cache_agrees, extends, grows, is_boxed, is_odd, is_ref_class,
    law_allocation_extends, law_cached_is_found, lemma_grows_trans, mangled, type_ok, ImageV,
};
use crate::types::{
    law_prim_name_roundtrip, lemma_prim_key, lemma_prim_plain, prim_name, prim_named,
    ParameterizedV, Prim, TypeV,
};

verus! {

/// The type that a name in the pool stands for. References are left out.
pub open spec fn named_type(name: Seq<char>) -> TypeV
    decreases name.len(),
{
    let head = before(name, ':');
    if head.len() < name.len() {
        let rest = name.skip(head.len() as int + 1);
        if head == ref_id() {
            named_type(rest)
        } else if head == wref_id() || head == array_id() || head == script_ref_id() {
            applied(head, named_type(rest))
        } else {
            TypeV::Data(ParameterizedV { id: name, args: Seq::empty() })
        }
    } else {
        match prim_named(name) {
            Some(prim) => TypeV::Prim(prim),
            None => TypeV::Data(ParameterizedV { id: name, args: Seq::empty() }),
        }
    }
}

/// What is loaded again of a type: references and the arguments of classes are left out, and what
/// can be anything is an `IScriptable`.
pub open spec fn loaded_type(typ: TypeV, repo: RepoV) -> TypeV
    decreases typ,
{
    match typ {
        TypeV::Data(data) => if repo.is_builtin(data.id) && data.args.len() == 1 {
            if data.id == ref_id() {
                loaded_type(data.args[0], repo)
            } else {
                applied(data.id, loaded_type(data.args[0], repo))
            }
        } else {
            TypeV::Data(ParameterizedV { id: data.id, args: Seq::empty() })
        },
        TypeV::Prim(prim) => TypeV::Prim(prim),
        _ => TypeV::Data(ParameterizedV { id: "IScriptable"@, args: Seq::empty() }),
    }
}

/// Whether the names in a type cannot be mistaken: none has a colon in it or is that of a primitive
/// type, `ref` and `wref` are the built-in ones, and no built-in type has two arguments.
pub open spec fn plain(typ: TypeV, repo: RepoV) -> bool
    decreases typ,
{
    match typ {
        TypeV::Data(data) => {
            &&& !data.id.contains(':')
            &&& prim_named(data.id) is None
            &&& (data.id == ref_id() || data.id == wref_id()) ==> repo.is_builtin(data.id)
            &&& repo.is_builtin(data.id) ==> data.args.len() <= 1
            &&& repo.is_builtin(data.id) && data.args.len() == 1 ==> plain(data.args[0], repo)
        },
        _ => true,
    }
}

proof fn lemma_head(head: Seq<char>, rest: Seq<char>)
    requires
        !head.contains(':'),
    ensures
        before(head + ":"@ + rest, ':') == head,
        (head + ":"@ + rest).skip(head.len() as int + 1) == rest,
        (head + ":"@ + rest).len() > head.len(),
{
    reveal_strlit(":");
    let all = head + ":"@ + rest;
    assert forall|j: int| 0 <= j < head.len() implies all[j] != ':' by {
        assert(head.contains(head[j]));
        assert(all[j] == head[j]);
    }
    assert(all[head.len() as int] == ':');
    lemma_before_is(all, ':', head.len() as int);
    assert(all.take(head.len() as int) =~= head);
    assert(all.skip(head.len() as int + 1) =~= rest);
}

proof fn lemma_no_colon(id: Seq<char>)
    requires
        !id.contains(':'),
    ensures
        before(id, ':') == id,
{
    assert forall|j: int| 0 <= j < id.len() implies id[j] != ':' by {
        assert(id.contains(id[j]));
    }
    lemma_before_is(id, ':', id.len() as int);
    assert(id.take(id.len() as int) =~= id);
}

proof fn lemma_plain_name(id: Seq<char>)
    requires
        !id.contains(':'),
    ensures
        named_type(id) == match prim_named(id) {
            Some(prim) => TypeV::Prim(prim),
            None => TypeV::Data(ParameterizedV { id, args: Seq::empty() }),
        },
{
    lemma_no_colon(id);
}

proof fn lemma_builtin_names()
    ensures
        !ref_id().contains(':'),
        !wref_id().contains(':'),
        !array_id().contains(':'),
        !script_ref_id().contains(':'),
        !"IScriptable"@.contains(':'),
        "ref:"@ == "ref"@ + ":"@,
        "ref:IScriptable"@ == "ref"@ + ":"@ + "IScriptable"@,
        ref_id() != wref_id(),
        ref_id() != array_id(),
        ref_id() != script_ref_id(),
{
    reveal_strlit("ref");
    reveal_strlit("wref");
    reveal_strlit("array");
    reveal_strlit("script_ref");
    reveal_strlit("IScriptable");
    reveal_strlit("ref:");
    reveal_strlit(":");
    reveal_strlit("ref:IScriptable");
    assert("ref:"@ =~= "ref"@ + ":"@);
    assert("ref:IScriptable"@ =~= "ref"@ + ":"@ + "IScriptable"@);
}

proof fn lemma_iscriptable()
    ensures
        prim_named("IScriptable"@) is None,
{
    reveal_strlit("IScriptable");
    assert forall|prim: Prim| prim_name(prim) != "IScriptable"@ by {
        lemma_prim_key(prim);
    }
}

/// The name of a type stands for what is loaded of the type.
proof fn lemma_mangled(typ: TypeV, repo: RepoV, unwrapped: bool)
    requires
        type_ok(typ, repo),
        plain(typ, repo),
    ensures
        named_type(mangled(typ, repo, unwrapped)) == loaded_type(typ, repo),
    decreases typ,
{
    lemma_builtin_names();
    lemma_iscriptable();
    match typ {
        TypeV::Data(data) => {
            lemma_plain_name(data.id);
            if (data.id == ref_id() || data.id == wref_id()) && data.args.len() > 0 {
                lemma_mangled(data.args[0], repo, true);
                lemma_head(data.id, mangled(data.args[0], repo, true));
            } else if repo.is_builtin(data.id) && data.args.len() > 0 {
                lemma_mangled(data.args[0], repo, false);
                lemma_head(data.id, mangled(data.args[0], repo, false));
            } else if is_ref_class(data.id, repo) && !unwrapped {
                lemma_head(ref_id(), data.id);
            }
        },
        TypeV::Prim(prim) => {
            law_prim_name_roundtrip(prim);
            lemma_prim_plain(prim);
            lemma_plain_name(prim_name(prim));
        },
        _ => {
            lemma_plain_name("IScriptable"@);
            lemma_head(ref_id(), "IScriptable"@);
        },
    }
}

/// Whether the pool describes a type at an index.
pub open spec fn describes_as(pool: PoolV, idx: int, typ: TypeV) -> bool {
    describes_type(pool, idx) && described_type(pool, idx) == typ
}

proof fn lemma_describes(pool: PoolV, idx: int, n: nat)
    requires
        type_within(pool, idx, n) is Some,
    ensures
        describes_as(pool, idx, type_within(pool, idx, n)->0),
{
    lemma_described_type(pool, idx, n);
}

proof fn lemma_within_extends(from: PoolV, to: PoolV, idx: int, n: nat)
    requires
        extends(from, to),
        type_within(from, idx, n) is Some,
    ensures
        type_within(to, idx, n) == type_within(from, idx, n),
    decreases n,
{
    assert(to.defs[idx] == from.defs[idx]);
    match from.value(idx) {
        AnyDefinitionV::Type(typ) => match typ {
            PoolTypeV::Ref(inner)
            | PoolTypeV::WeakRef(inner)
            | PoolTypeV::ScriptRef(inner)
            | PoolTypeV::Array(inner)
            | PoolTypeV::StaticArray(inner, _) => {
                lemma_within_extends(from, to, inner, (n - 1) as nat);
            },
            _ => {
                assert(to.names[from.defs[idx].name] == from.names[from.defs[idx].name]);
            },
        },
        _ => {},
    }
}

/// A type stays described when the pool grows.
pub proof fn lemma_describes_extends(from: PoolV, to: PoolV, idx: int)
    requires
        extends(from, to),
        describes_type(from, idx),
    ensures
        describes_as(to, idx, described_type(from, idx)),
{
    let n = choose|n: nat| type_within(from, idx, n) is Some;
    lemma_within_extends(from, to, idx, n);
    lemma_describes(to, idx, n);
    lemma_describes(from, idx, n);
}

/// Whether a name is one under which a type is written to the pool.
pub open spec fn is_name_of(name: Seq<char>, typ: TypeV, repo: RepoV, unwrapped: bool) -> bool {
    type_ok(typ, repo) && plain(typ, repo) && mangled(typ, repo, unwrapped) == name
}

/// Whether some type is written to the pool under a name. Static arrays are only ever loaded, so
/// that no name is written for one.
pub open spec fn is_written(name: Seq<char>, repo: RepoV) -> bool {
    exists|typ: TypeV, unwrapped: bool| is_name_of(name, typ, repo, unwrapped)
}

/// Whether each cached type whose name is one that types are written under is described as what
/// the name stands for.
pub open spec fn cache_sound(image: ImageV, repo: RepoV) -> bool {
    forall|name: Seq<char>| #[trigger]
        image.cache.dom().contains(name) && is_written(name, repo) ==> describes_as(
            image.pool,
            image.cache[name],
            named_type(name),
        )
}

/// The name under which a type is written begins with a type that there is, a primitive one or
/// `IScriptable`. The cache may hold what it likes under the name of a static array, which begins
/// with none of these.
pub proof fn law_written_names(name: Seq<char>, repo: RepoV)
    requires
        repo.is_builtin(ref_id()),
        is_written(name, repo),
    ensures
        ({
            let head = before(name, ':');
            repo.has(head) || prim_named(head) is Some || head == "IScriptable"@
        }),
{
    let (typ, unwrapped) = choose|typ: TypeV, unwrapped: bool|
        is_name_of(name, typ, repo, unwrapped);
    lemma_builtin_names();
    match typ {
        TypeV::Data(data) => {
            if (data.id == ref_id() || data.id == wref_id()) && data.args.len() > 0 {
                lemma_head(data.id, mangled(data.args[0], repo, true));
            } else if repo.is_builtin(data.id) && data.args.len() > 0 {
                lemma_head(data.id, mangled(data.args[0], repo, false));
            } else if is_ref_class(data.id, repo) && !unwrapped {
                lemma_head(ref_id(), data.id);
            } else {
                lemma_no_colon(data.id);
            }
        },
        TypeV::Prim(prim) => {
            law_prim_name_roundtrip(prim);
            lemma_prim_plain(prim);
            lemma_no_colon(prim_name(prim));
        },
        _ => {
            lemma_no_colon("IScriptable"@);
            lemma_head(ref_id(), "IScriptable"@);
        },
    }
}

/// A type that is described under its name, by a type that is described already, is what its name
/// stands for.
proof fn lemma_define_type(image: ImageV, name: Seq<char>, typ: PoolTypeV, repo: RepoV)
    requires
        cache_sound(image, repo),
        match typ {
            PoolTypeV::Prim => prim_named(name) matches Some(prim) && named_type(name)
                == TypeV::Prim(prim),
            PoolTypeV::Class => named_type(name) == TypeV::Data(
                ParameterizedV { id: name, args: Seq::empty() },
            ),
            PoolTypeV::Ref(inner) => describes_as(image.pool, inner, named_type(name)),
            PoolTypeV::WeakRef(inner) => describes_type(image.pool, inner) && named_type(name)
                == applied(wref_id(), described_type(image.pool, inner)),
            PoolTypeV::Array(inner) => describes_type(image.pool, inner) && named_type(name)
                == applied(array_id(), described_type(image.pool, inner)),
            PoolTypeV::ScriptRef(inner) => describes_type(image.pool, inner) && named_type(name)
                == applied(script_ref_id(), described_type(image.pool, inner)),
            PoolTypeV::StaticArray(_, _) => false,
        },
    ensures
        cache_sound(image.define_type(name, typ).0, repo),
        describes_as(
            image.define_type(name, typ).0.pool,
            image.define_type(name, typ).1,
            named_type(name),
        ),
{
    let (done, idx) = image.define_type(name, typ);
    let from = image.pool;
    let to = done.pool;
    assert(extends(from, to));
    assert(to.name_of(idx) == name);
    match typ {
        PoolTypeV::Prim | PoolTypeV::Class => {
            lemma_describes(to, idx, 1);
        },
        PoolTypeV::Ref(inner)
        | PoolTypeV::WeakRef(inner)
        | PoolTypeV::Array(inner)
        | PoolTypeV::ScriptRef(inner)
        | PoolTypeV::StaticArray(inner, _) => {
            let n = choose|n: nat| type_within(from, inner, n) is Some;
            lemma_within_extends(from, to, inner, n);
            lemma_describes(from, inner, n);
            lemma_describes(to, idx, n + 1);
        },
    }
    assert forall|other: Seq<char>| #[trigger]
        done.cache.dom().contains(other) && is_written(other, repo) implies describes_as(
        to,
        done.cache[other],
        named_type(other),
    ) by {
        if other != name {
            lemma_describes_extends(from, to, image.cache[other]);
        }
    }
}

/// A type that is written to the pool is loaded again as what is to be loaded of it, and so is
/// every type that was written before. Types of the pool that are never written, such as static
/// arrays, may stand in the cache under any other name.
pub proof fn law_type_roundtrip(typ: TypeV, repo: RepoV, image: ImageV)
    requires
        repo.is_builtin(ref_id()),
        type_ok(typ, repo),
        plain(typ, repo),
        cache_sound(image, repo),
    ensures
        ({
            let (done, idx) = allocated(typ, repo, image);
            &&& describes_type(done.pool, idx)
            &&& described_type(done.pool, idx) == loaded_type(typ, repo)
            &&& cache_sound(done, repo)
        }),
    decreases typ, 1nat,
{
    lemma_builtin_names();
    lemma_unwrapped_roundtrip(typ, repo, image);
    if is_boxed(typ, repo) {
        let inner = mangled(typ, repo, true);
        let name = ref_id() + ":"@ + inner;
        assert(is_name_of(name, typ, repo, false));
        lemma_mangled(typ, repo, true);
        lemma_head(ref_id(), inner);
        assert(named_type(name) == loaded_type(typ, repo));
        if !image.cache.dom().contains(name) {
            let (mid, at) = allocated_unwrapped(typ, repo, image);
            lemma_define_type(mid, name, PoolTypeV::Ref(at), repo);
        }
    }
}

/// Whether all of a type is loaded again: it is a primitive type, a type without arguments, or a
/// weak reference to, a script reference to or an array of such a type.
pub open spec fn comes_back(typ: TypeV, repo: RepoV) -> bool
    decreases typ,
{
    match typ {
        TypeV::Data(data) => if repo.is_builtin(data.id) && data.args.len() == 1 {
            data.id != ref_id() && comes_back(data.args[0], repo)
        } else {
            data.args.len() == 0
        },
        TypeV::Prim(_) => true,
        _ => false,
    }
}

proof fn lemma_comes_back(typ: TypeV, repo: RepoV)
    requires
        comes_back(typ, repo),
    ensures
        loaded_type(typ, repo) == typ,
    decreases typ,
{
    if let TypeV::Data(data) = typ {
        if repo.is_builtin(data.id) && data.args.len() == 1 {
            lemma_comes_back(data.args[0], repo);
            assert(seq![data.args[0]] =~= data.args);
        } else {
            assert(data.args =~= Seq::empty());
        }
    }
}

/// A type is loaded again as what it was, where it has no arguments that the pool leaves out: the
/// reference that a class is described with is left out again, and a weak one is kept.
pub proof fn law_type_comes_back(typ: TypeV, repo: RepoV, image: ImageV)
    requires
        repo.is_builtin(ref_id()),
        type_ok(typ, repo),
        plain(typ, repo),
        comes_back(typ, repo),
        cache_sound(image, repo),
    ensures
        ({
            let (done, idx) = allocated(typ, repo, image);
            describes_type(done.pool, idx) && described_type(done.pool, idx) == typ
        }),
{
    law_type_roundtrip(typ, repo, image);
    lemma_comes_back(typ, repo);
}

proof fn lemma_unwrapped_roundtrip(typ: TypeV, repo: RepoV, image: ImageV)
    requires
        repo.is_builtin(ref_id()),
        type_ok(typ, repo),
        plain(typ, repo),
        cache_sound(image, repo),
    ensures
        ({
            let (done, idx) = allocated_unwrapped(typ, repo, image);
            &&& describes_as(done.pool, idx, loaded_type(typ, repo))
            &&& cache_sound(done, repo)
        }),
    decreases typ, 0nat,
{
    lemma_builtin_names();
    lemma_iscriptable();
    lemma_mangled(typ, repo, true);
    let name = mangled(typ, repo, true);
    assert(is_name_of(name, typ, repo, true));
    if !image.cache.dom().contains(name) {
        match typ {
            TypeV::Data(data) => {
                if repo.is_builtin(data.id) && data.args.len() == 1 {
                    let arg = data.args[0];
                    if data.id == ref_id() {
                        lemma_unwrapped_roundtrip(arg, repo, image);
                        let (mid, inner) = allocated_unwrapped(arg, repo, image);
                        lemma_define_type(mid, name, PoolTypeV::Ref(inner), repo);
                    } else if data.id == wref_id() {
                        lemma_unwrapped_roundtrip(arg, repo, image);
                        let (mid, inner) = allocated_unwrapped(arg, repo, image);
                        lemma_define_type(mid, name, PoolTypeV::WeakRef(inner), repo);
                    } else if data.id == array_id() {
                        law_type_roundtrip(arg, repo, image);
                        let (mid, inner) = allocated(arg, repo, image);
                        lemma_define_type(mid, name, PoolTypeV::Array(inner), repo);
                    } else {
                        law_type_roundtrip(arg, repo, image);
                        let (mid, inner) = allocated(arg, repo, image);
                        lemma_define_type(mid, name, PoolTypeV::ScriptRef(inner), repo);
                    }
                } else {
                    assert(name == data.id);
                    lemma_define_type(image, name, PoolTypeV::Class, repo);
                }
            },
            TypeV::Prim(prim) => {
                law_prim_name_roundtrip(prim);
                lemma_define_type(image, name, PoolTypeV::Prim, repo);
            },
            _ => {
                lemma_define_type(image, name, PoolTypeV::Class, repo);
            },
        }
    }
}

/// Naming something and adding a definition keep every cached type described.
pub proof fn lemma_sound_grows(from: ImageV, to: ImageV, repo: RepoV)
    requires
        cache_sound(from, repo),
        grows(from, to),
        to.cache == from.cache,
    ensures
        cache_sound(to, repo),
{
    assert forall|name: Seq<char>| #[trigger]
        to.cache.dom().contains(name) && is_written(name, repo) implies describes_as(
        to.pool,
        to.cache[name],
        named_type(name),
    ) by {
        lemma_describes_extends(from.pool, to.pool, from.cache[name]);
    }
}

/// What is loaded again of a parameter.
pub open spec fn loaded_param(param: ParamBuilderV, repo: RepoV) -> FuncParamV {
    FuncParamV {
        typ: loaded_type(param.typ, repo),
        is_out: param.flags.is_out,
        is_poly: false,
    }
}

proof fn lemma_params_roundtrip(
    params: Seq<ParamBuilderV>,
    n: int,
    parent: int,
    repo: RepoV,
    start: ImageV,
)
    requires
        repo.is_builtin(ref_id()),
        0 <= n <= params.len(),
        forall|i: int|
            0 <= i < params.len() ==> type_ok((#[trigger] params[i]).typ, repo) && plain(
                params[i].typ,
                repo,
            ),
        cache_sound(start, repo),
    ensures
        ({
            let (end, done) = commit_params(params, n, parent, repo, start);
            &&& cache_sound(end, repo)
            &&& done.len() == n
            &&& forall|i: int|
                #![trigger done[i]]
                0 <= i < n ==> {
                    &&& start.pool.defs.len() <= done[i] < end.pool.defs.len()
                    &&& describes_param(end.pool, done[i])
                    &&& described_param(end.pool, done[i]) == loaded_param(params[i], repo)
                }
        }),
    decreases n,
{
    if n > 0 {
        lemma_params_roundtrip(params, n - 1, parent, repo, start);
        lemma_params_extend(params, n - 1, parent, repo, start);
        let (mid, before) = commit_params(params, n - 1, parent, repo, start);
        let (end, done) = commit_params(params, n, parent, repo, start);
        let param = params[n - 1];
        let named = mid.with_name(param.name);
        assert(grows(mid, named));
        lemma_sound_grows(mid, named, repo);
        law_type_roundtrip(param.typ, repo, named);
        law_allocation_extends(param.typ, repo, named);
        let (typed, at) = allocated(param.typ, repo, named);
        lemma_grows_trans(mid, named, typed);
        assert(grows(typed, end));
        lemma_sound_grows(typed, end, repo);
        lemma_grows_trans(mid, typed, end);
        lemma_describes_extends(typed.pool, end.pool, at);
        assert forall|i: int|
            #![trigger done[i]]
            0 <= i < n implies {
            &&& start.pool.defs.len() <= done[i] < end.pool.defs.len()
            &&& describes_param(end.pool, done[i])
            &&& described_param(end.pool, done[i]) == loaded_param(params[i], repo)
        } by {
            if i < n - 1 {
                assert(done[i] == before[i]);
                assert(end.pool.defs[done[i]] == mid.pool.defs[done[i]]);
                lemma_describes_extends(
                    mid.pool,
                    end.pool,
                    mid.pool.value(done[i])->Parameter_0.type_,
                );
            }
        }
    }
}

/// Local variables keep every cached type described.
proof fn lemma_locals_sound(locals: Seq<LocalBuilderV>, n: int, repo: RepoV, start: ImageV)
    requires
        repo.is_builtin(ref_id()),
        0 <= n <= locals.len(),
        forall|i: int|
            0 <= i < locals.len() ==> type_ok((#[trigger] locals[i]).typ, repo) && plain(
                locals[i].typ,
                repo,
            ),
        cache_sound(start, repo),
    ensures
        cache_sound(commit_locals(locals, n, repo, start).0, repo),
    decreases n,
{
    if n > 0 {
        lemma_locals_sound(locals, n - 1, repo, start);
        let mid = commit_locals(locals, n - 1, repo, start).0;
        let end = commit_locals(locals, n, repo, start).0;
        let local = locals[n - 1];
        let named = mid.with_name(local.name);
        assert(grows(mid, named));
        lemma_sound_grows(mid, named, repo);
        law_type_roundtrip(local.typ, repo, named);
        let typed = allocated(local.typ, repo, named).0;
        assert(grows(typed, end));
        lemma_sound_grows(typed, end, repo);
    }
}

/// What is loaded again of a function: the types of its parameters and its result. A function that
/// returns the unit is loaded as one that returns nothing.
pub open spec fn loaded_function(fun: FunctionBuilderV, repo: RepoV) -> FuncTypeV {
    FuncTypeV {
        type_vars: Seq::empty(),
        params: Seq::new(fun.params.len(), |i: int| loaded_param(fun.params[i], repo)),
        ret: if fun.return_type == TypeV::Prim(Prim::Unit) {
            TypeV::Prim(Prim::Void)
        } else {
            loaded_type(fun.return_type, repo)
        },
        is_ret_poly: false,
    }
}

/// Whether the names in the types of a function cannot be mistaken.
pub open spec fn function_plain(fun: FunctionBuilderV, repo: RepoV) -> bool {
    &&& plain(fun.return_type, repo)
    &&& forall|i: int| 0 <= i < fun.params.len() ==> plain((#[trigger] fun.params[i]).typ, repo)
    &&& forall|i: int| 0 <= i < fun.locals.len() ==> plain((#[trigger] fun.locals[i]).typ, repo)
}

/// A function that is written to the pool is loaded again with its name and flags and with the
/// types that are to be loaded of it. A wrapper is not loaded as a callback.
pub proof fn law_function_roundtrip(fun: FunctionBuilderV, parent: int, repo: RepoV, start: ImageV)
    requires
        repo.is_builtin(ref_id()),
        fun.types_ok(repo),
        function_plain(fun, repo),
        cache_sound(start, repo),
    ensures
        ({
            let end = fun.commit(parent, repo, start);
            let idx = fun.index(start);
            &&& describes_function(end.pool, idx)
            &&& described_function(end.pool, idx) == loaded_function(fun, repo)
            &&& end.pool.name_of(idx) == fun.name
            &&& end.pool.value(idx)->Function_0.flags == (FunctionFlags {
                is_callback: fun.flags.is_callback && !fun.is_wrapper,
                ..fun.flags
            })
            &&& cache_sound(end, repo)
        }),
{
    let id = fun.index(start);
    let end = fun.commit(parent, repo, start);
    let named = start.with_def(reserved()).with_name(fun.name);
    assert(grows(start, named));
    lemma_sound_grows(start, named, repo);
    law_type_roundtrip(fun.return_type, repo, named);
    law_allocation_extends(fun.return_type, repo, named);
    let (typed, ret) = fun.commit_ret(repo, start);
    let params = fun.named_params(start.pool);
    assert forall|i: int| 0 <= i < params.len() implies type_ok((#[trigger] params[i]).typ, repo)
        && plain(params[i].typ, repo) && loaded_param(params[i], repo) == loaded_param(
        fun.params[i],
        repo,
    ) by {
        assert(params[i].typ == fun.params[i].typ);
    }
    lemma_params_roundtrip(params, params.len() as int, id, repo, typed);
    lemma_params_extend(params, params.len() as int, id, repo, typed);
    let (with_params, parameters) = commit_params(params, params.len() as int, id, repo, typed);
    let n = fun.locals.len() as int;
    lemma_locals_sound(fun.locals, n, repo, with_params);
    lemma_locals_extend(fun.locals, n, repo, with_params);
    let full = commit_locals(fun.locals, n, repo, with_params).0;
    lemma_grows_trans(typed, with_params, full);
    lemma_grows_trans(named, typed, full);
    assert(full.pool.names[start.pool.name_slot(fun.name)] == fun.name) by {
        assert(named.pool.names[start.pool.name_slot(fun.name)] == fun.name);
    }
    // the definition of the function takes the place of one that described nothing
    assert(full.pool.value(id) is Reserved) by {
        assert(full.pool.defs[id] == named.pool.defs[id]);
    }
    let def = end.pool.value(id)->Function_0;
    assert(def.parameters == parameters);
    assert forall|i: int|
        #![trigger def.parameters[i]]
        0 <= i < def.parameters.len() implies describes_param(end.pool, def.parameters[i])
        && described_param(end.pool, def.parameters[i]) == loaded_param(fun.params[i], repo) by {
        let at = parameters[i];
        let typ = with_params.pool.value(at)->Parameter_0.type_;
        assert(full.pool.defs[at] == with_params.pool.defs[at]);
        assert(end.pool.defs[at] == full.pool.defs[at]);
        lemma_describes_extends(with_params.pool, full.pool, typ);
        lemma_describes_put(full.pool, end.pool, id, typ);
    }
    if ret is Some {
        lemma_describes_extends(typed.pool, full.pool, ret->0);
        lemma_describes_put(full.pool, end.pool, id, ret->0);
    }
    assert forall|name: Seq<char>| #[trigger]
        end.cache.dom().contains(name) && is_written(name, repo) implies describes_as(
        end.pool,
        end.cache[name],
        named_type(name),
    ) by {
        lemma_describes_put(full.pool, end.pool, id, full.cache[name]);
    }
    assert(described_function(end.pool, id).params =~= loaded_function(fun, repo).params);
}

proof fn lemma_within_put(from: PoolV, to: PoolV, slot: int, idx: int, n: nat)
    requires
        from.names == to.names,
        from.defs.len() == to.defs.len(),
        forall|i: int|
            0 <= i < from.defs.len() && i != slot ==> #[trigger] to.defs[i] == from.defs[i],
        from.has(slot) ==> !(from.value(slot) is Type),
        type_within(from, idx, n) is Some,
    ensures
        type_within(to, idx, n) == type_within(from, idx, n),
    decreases n,
{
    assert(idx != slot);
    assert(to.defs[idx] == from.defs[idx]);
    match from.value(idx) {
        AnyDefinitionV::Type(typ) => match typ {
            PoolTypeV::Ref(inner)
            | PoolTypeV::WeakRef(inner)
            | PoolTypeV::ScriptRef(inner)
            | PoolTypeV::Array(inner)
            | PoolTypeV::StaticArray(inner, _) => {
                lemma_within_put(from, to, slot, inner, (n - 1) as nat);
            },
            _ => {},
        },
        _ => {},
    }
}

/// A type stays described when something that is not a type changes.
pub proof fn lemma_describes_put(from: PoolV, to: PoolV, slot: int, idx: int)
    requires
        from.names == to.names,
        from.defs.len() == to.defs.len(),
        forall|i: int|
            0 <= i < from.defs.len() && i != slot ==> #[trigger] to.defs[i] == from.defs[i],
        from.has(slot) ==> !(from.value(slot) is Type),
        describes_type(from, idx),
    ensures
        describes_as(to, idx, described_type(from, idx)),
{
    let n = choose|n: nat| type_within(from, idx, n) is Some;
    lemma_within_put(from, to, slot, idx, n);
    lemma_describes(to, idx, n);
    lemma_describes(from, idx, n);
}

proof fn lemma_members_named(members: Seq<EnumMemberV>, n: int, parent: int, start: PoolV)
    requires
        0 <= n <= members.len(),
    ensures
        ({
            let done = commit_members(members, n, parent, start);
            &&& extends(start, done)
            &&& done.defs.len() == start.defs.len() + n
            &&& forall|i: int|
                #![trigger done.defs[start.defs.len() + i]]
                0 <= i < n ==> {
                    &&& done.is_named(start.defs.len() + i)
                    &&& done.name_of(start.defs.len() + i) == members[i].name
                    &&& done.value(start.defs.len() + i) == AnyDefinitionV::EnumValue(
                        members[i].value,
                    )
                }
        }),
    decreases n,
{
    if n > 0 {
        lemma_members_named(members, n - 1, parent, start);
        lemma_members_extend(members, n, parent, start);
        let at = commit_members(members, n - 1, parent, start);
        let done = commit_members(members, n, parent, start);
        assert forall|i: int|
            #![trigger done.defs[start.defs.len() + i]]
            0 <= i < n implies {
            &&& done.is_named(start.defs.len() + i)
            &&& done.name_of(start.defs.len() + i) == members[i].name
            &&& done.value(start.defs.len() + i) == AnyDefinitionV::EnumValue(members[i].value)
        } by {
            if i < n - 1 {
                assert(at.is_named(start.defs.len() + i));
                assert(done.defs[start.defs.len() + i] == at.defs[start.defs.len() + i]);
            }
        }
    }
}

proof fn lemma_load_members(
    pool: PoolV,
    owner: Seq<char>,
    typ: DictV<Seq<char>, i64>,
    first: int,
    n: int,
    db: DbV,
)
    requires
        typ.wf(),
        0 <= n <= typ.keys.len(),
        forall|i: int|
            #![trigger pool.defs[first + i]]
            0 <= i < typ.keys.len() ==> pool.name_of(first + i) == typ.keys[i] && pool.value(
                first + i,
            ) == AnyDefinitionV::EnumValue(typ.vals[i]),
    ensures
        load_members(
            pool,
            owner,
            Seq::new(typ.keys.len(), |i: int| first + i),
            n,
            db,
        ).0 == (DictV { keys: typ.keys.take(n), vals: typ.vals.take(n) }),
    decreases n,
{
    let members = Seq::new(typ.keys.len(), |i: int| first + i);
    if n > 0 {
        lemma_load_members(pool, owner, typ, first, n - 1, db);
        let at = load_members(pool, owner, members, n - 1, db).0;
        assert(pool.defs[first + (n - 1)] == pool.defs[members[n - 1]]);
        assert(!at.has(typ.keys[n - 1])) by {
            if at.has(typ.keys[n - 1]) {
                let i = at.keys.index_of(typ.keys[n - 1]);
                assert(typ.keys.take(n - 1)[i] == typ.keys[i]);
            }
        }
        assert(load_members(pool, owner, members, n, db).0 =~= (DictV {
            keys: typ.keys.take(n),
            vals: typ.vals.take(n),
        }));
    } else {
        assert(load_members(pool, owner, members, n, db).0 =~= (DictV {
            keys: typ.keys.take(n),
            vals: typ.vals.take(n),
        }));
    }
}

/// An enum that is written to the pool is loaded again with all its members, in order and with
/// their values.
pub proof fn law_enum_roundtrip(
    id: Seq<char>,
    typ: DictV<Seq<char>, i64>,
    idx: int,
    pool: PoolV,
    db: DbV,
)
    requires
        typ.wf(),
        pool.has(idx),
    ensures
        ({
            let done = enum_builder(id, typ).commit_as(idx, pool);
            &&& describes_enum(done, idx)
            &&& done.name_of(idx) == id
            &&& load_enum(done, id, idx, db).0 == typ
            &&& load_enum(done, id, idx, db).1.enums == db.enums.insert(id, idx)
        }),
{
    let b = enum_builder(id, typ);
    let n = b.members.len() as int;
    let named = pool.with_name(b.name);
    let first = pool.defs.len() as int;
    lemma_members_named(b.members, n, idx, named);
    let full = commit_members(b.members, n, idx, named);
    let done = b.commit_as(idx, pool);
    assert forall|i: int|
        #![trigger done.defs[first + i]]
        0 <= i < n implies done.is_named(first + i) && done.name_of(first + i) == typ.keys[i]
        && done.value(first + i) == AnyDefinitionV::EnumValue(typ.vals[i]) by {
        assert(full.is_named(named.defs.len() + i));
        assert(full.defs[named.defs.len() + i] == done.defs[first + i]);
    }
    assert(full.names[pool.name_slot(id)] == named.names[pool.name_slot(id)]);
    let members = done.value(idx)->Enum_0.members;
    assert forall|i: int|
        #![trigger done.value(idx)->Enum_0.members[i]]
        0 <= i < members.len() implies done.is_named(members[i]) && done.value(
        members[i],
    ) is EnumValue by {
        assert(done.defs[first + i] == done.defs[members[i]]);
    }
    lemma_load_members(
        done,
        id,
        typ,
        first,
        n,
        DbV { enums: db.enums.insert(id, idx), ..db },
    );
    lemma_load_members_keeps(
        done,
        id,
        members,
        n,
        DbV { enums: db.enums.insert(id, idx), ..db },
    );
    assert(typ.keys.take(n) =~= typ.keys);
    assert(typ.vals.take(n) =~= typ.vals);
    assert(members =~= Seq::new(typ.keys.len(), |i: int| first + i));
}

pub proof fn lemma_load_members_keeps(
    pool: PoolV,
    owner: Seq<char>,
    members: Seq<int>,
    n: int,
    db: DbV,
)
    ensures
        load_members(pool, owner, members, n, db).1 == (DbV {
            enum_members: load_members(pool, owner, members, n, db).1.enum_members,
            ..db
        }),
    decreases n,
{
    if n > 0 {
        lemma_load_members_keeps(pool, owner, members, n - 1, db);
    }
}

proof fn lemma_load_fields_keeps(pool: PoolV, owner: Seq<char>, fields: Seq<int>, n: int, db: DbV)
    ensures
        load_fields(pool, owner, fields, n, db).1 == (DbV {
            fields: load_fields(pool, owner, fields, n, db).1.fields,
            ..db
        }),
    decreases n,
{
    if n > 0 {
        lemma_load_fields_keeps(pool, owner, fields, n - 1, db);
    }
}

proof fn lemma_load_methods_linked(
    pool: PoolV,
    owner: Seq<char>,
    methods: Seq<int>,
    n: int,
    db: DbV,
)
    requires
        linked(db, pool),
        0 <= n <= methods.len(),
        forall|i: int|
            0 <= i < methods.len() ==> describes_function(pool, #[trigger] methods[i]),
    ensures
        linked(load_methods(pool, owner, methods, n, db).1, pool),
    decreases n,
{
    if n > 0 {
        lemma_load_methods_linked(pool, owner, methods, n - 1, db);
        assert(describes_function(pool, methods[n - 1]));
        assert(fun_there(pool, methods[n - 1]));
    }
}

/// All that is loaded from a pool is there: the index that comes out can be committed to.
pub proof fn law_loaded_is_linked(pool: PoolV, n: int)
    requires
        forall|idx: int| 1 <= idx < pool.defs.len() ==> #[trigger] loads(pool, idx),
        n <= pool.defs.len(),
    ensures
        linked(loaded(pool, n).db, pool),
    decreases n,
{
    if n > 1 {
        law_loaded_is_linked(pool, n - 1);
        let was = loaded(pool, n - 1);
        let idx = n - 1;
        let name = pool.name_of(idx);
        assert(loads(pool, idx));
        match pool.value(idx) {
            AnyDefinitionV::Class(class) => {
                let start = DbV { classes: was.db.classes.insert(name, idx), ..was.db };
                assert(linked(start, pool)) by {
                    assert forall|id: Seq<char>, other: Seq<char>|
                        #[trigger] start.classes.dom().contains(id)
                            && #[trigger] start.enums.dom().contains(
                            other,
                        ) implies start.classes[id] != start.enums[other] by {
                        assert(enum_slot(pool, was.db.enums[other]));
                        if id != name {
                            assert(was.db.classes.dom().contains(id));
                        }
                    }
                }
                lemma_load_fields_keeps(
                    pool,
                    name,
                    class.fields,
                    class.fields.len() as int,
                    start,
                );
                let mid = load_fields(pool, name, class.fields, class.fields.len() as int, start).1;
                assert forall|i: int| 0 <= i < class.methods.len() implies describes_function(
                    pool,
                    #[trigger] class.methods[i],
                ) by {}
                lemma_load_methods_linked(
                    pool,
                    name,
                    class.methods,
                    class.methods.len() as int,
                    mid,
                );
            },
            AnyDefinitionV::Enum(def) => {
                let start = DbV { enums: was.db.enums.insert(name, idx), ..was.db };
                assert(linked(start, pool)) by {
                    assert forall|id: Seq<char>, other: Seq<char>|
                        #[trigger] start.classes.dom().contains(id)
                            && #[trigger] start.enums.dom().contains(
                            other,
                        ) implies start.classes[id] != start.enums[other] by {
                        assert(pool.value(was.db.classes[id]) is Class);
                        if other != name {
                            assert(was.db.enums.dom().contains(other));
                        }
                    }
                }
                lemma_load_members_keeps(
                    pool,
                    name,
                    def.members,
                    def.members.len() as int,
                    start,
                );
            },
            AnyDefinitionV::Function(_) => {
                assert(fun_there(pool, idx));
            },
            _ => {},
        }
    }
}

/// What is loaded of a class does not depend on what has been loaded before.
pub proof fn lemma_load_class_alone(pool: PoolV, owner: Seq<char>, idx: int, db: DbV, other: DbV)
    ensures
        load_class(pool, owner, idx, db).0 == load_class(pool, owner, idx, other).0,
        load_class(pool, owner, idx, db).1.classes == db.classes.insert(owner, idx),
        load_class(pool, owner, idx, db).1.enums == db.enums,
        load_class(pool, owner, idx, db).1.globals == db.globals,
{
    let class = pool.value(idx)->Class_0;
    let n = class.fields.len() as int;
    let m = class.methods.len() as int;
    let a = DbV { classes: db.classes.insert(owner, idx), ..db };
    let b = DbV { classes: other.classes.insert(owner, idx), ..other };
    lemma_load_fields_alone(pool, owner, class.fields, n, a, b);
    lemma_load_fields_keeps(pool, owner, class.fields, n, a);
    lemma_load_methods_alone(
        pool,
        owner,
        class.methods,
        m,
        load_fields(pool, owner, class.fields, n, a).1,
        load_fields(pool, owner, class.fields, n, b).1,
    );
}

proof fn lemma_load_fields_alone(
    pool: PoolV,
    owner: Seq<char>,
    fields: Seq<int>,
    n: int,
    db: DbV,
    other: DbV,
)
    ensures
        load_fields(pool, owner, fields, n, db).0 == load_fields(pool, owner, fields, n, other).0,
    decreases n,
{
    if n > 0 {
        lemma_load_fields_alone(pool, owner, fields, n - 1, db, other);
    }
}

proof fn lemma_load_methods_alone(
    pool: PoolV,
    owner: Seq<char>,
    methods: Seq<int>,
    n: int,
    db: DbV,
    other: DbV,
)
    ensures
        load_methods(pool, owner, methods, n, db).0 == load_methods(
            pool,
            owner,
            methods,
            n,
            other,
        ).0,
        ({
            let done = load_methods(pool, owner, methods, n, db).1;
            done == (DbV { methods: done.methods, statics: done.statics, ..db })
        }),
    decreases n,
{
    if n > 0 {
        lemma_load_methods_alone(pool, owner, methods, n - 1, db, other);
    }
}

proof fn lemma_load_members_alone(
    pool: PoolV,
    owner: Seq<char>,
    members: Seq<int>,
    n: int,
    db: DbV,
    other: DbV,
)
    ensures
        load_members(pool, owner, members, n, db).0 == load_members(
            pool,
            owner,
            members,
            n,
            other,
        ).0,
    decreases n,
{
    if n > 0 {
        lemma_load_members_alone(pool, owner, members, n - 1, db, other);
    }
}

/// Whether the definition at an index is what is loaded under its name: a type, a class or an enum
/// with no other of the same kind and name behind it.
pub open spec fn is_last(pool: PoolV, idx: int) -> bool {
    let name = pool.name_of(idx);
    match pool.value(idx) {
        AnyDefinitionV::Type(_) => forall|j: int|
            idx < j < pool.defs.len() && pool.value(j) is Type ==> #[trigger] pool.name_of(j)
                != name,
        AnyDefinitionV::Class(_) | AnyDefinitionV::Enum(_) => forall|j: int|
            idx < j < pool.defs.len() && (pool.value(j) is Class || pool.value(j) is Enum)
                ==> #[trigger] pool.name_of(j) != name,
        _ => true,
    }
}

/// Whether what has been loaded holds the definition at an index.
pub open spec fn holds(res: ResourcesV, pool: PoolV, idx: int) -> bool {
    let name = pool.name_of(idx);
    match pool.value(idx) {
        AnyDefinitionV::Type(_) => res.cache.dom().contains(name) && res.cache[name] == idx,
        AnyDefinitionV::Class(_) => {
            &&& res.repo.types.get(name) == Some(
                DataTypeV::Class(load_class(pool, name, idx, DbV::empty()).0),
            )
            &&& res.db.classes.dom().contains(name)
            &&& res.db.classes[name] == idx
        },
        AnyDefinitionV::Enum(_) => {
            &&& res.repo.types.get(name) == Some(
                DataTypeV::Enum(load_enum(pool, name, idx, DbV::empty()).0),
            )
            &&& res.db.enums.dom().contains(name)
            &&& res.db.enums[name] == idx
        },
        _ => true,
    }
}

proof fn lemma_builtin_types_wf()
    ensures
        builtin_types().wf(),
{
    let one = DataTypeV::Builtin(seq!["A"@]);
    let none = DictV::<Seq<char>, DataTypeV>::empty();
    none.lemma_put(ref_id(), one);
    let a = none.put(ref_id(), one);
    a.lemma_put(wref_id(), one);
    let b = a.put(wref_id(), one);
    b.lemma_put(array_id(), one);
    b.put(array_id(), one).lemma_put(script_ref_id(), one);
}

/// Every type, class and enum that a pool describes is loaded: it is found under its name and at its
/// index, as the last definition of that kind and name describes it.
pub proof fn law_load_finds_types(pool: PoolV, n: int, idx: int)
    requires
        1 <= idx < n <= pool.defs.len(),
        is_last(pool, idx),
    ensures
        holds(loaded(pool, n), pool, idx),
    decreases n,
{
    let last = n - 1;
    lemma_loaded_wf(pool, last);
    let was = loaded(pool, last);
    if idx < last {
        law_load_finds_types(pool, last, idx);
    }
    let other = pool.name_of(last);
    match pool.value(last) {
        AnyDefinitionV::Class(_) => {
            let class = load_class(pool, other, last, was.db).0;
            lemma_load_class_alone(pool, other, last, was.db, DbV::empty());
            was.repo.types.lemma_put(other, DataTypeV::Class(class));
        },
        AnyDefinitionV::Enum(def) => {
            let count = def.members.len() as int;
            let start = DbV { enums: was.db.enums.insert(other, last), ..was.db };
            lemma_load_members_keeps(pool, other, def.members, count, start);
            lemma_load_members_alone(
                pool,
                other,
                def.members,
                count,
                start,
                DbV { enums: DbV::empty().enums.insert(other, last), ..DbV::empty() },
            );
            let members = load_enum(pool, other, last, was.db).0;
            was.repo.types.lemma_put(other, DataTypeV::Enum(members));
        },
        _ => {},
    }
}

/// Every cached type that is loaded from a pool is a type of the pool, where its name is.
pub proof fn law_loaded_cache_agrees(pool: PoolV, n: int)
    requires
        forall|idx: int| 1 <= idx < pool.defs.len() ==> #[trigger] loads(pool, idx),
        n <= pool.defs.len(),
    ensures
        cache_agrees(ImageV { pool, cache: loaded(pool, n).cache }),
    decreases n,
{
    if n > 1 {
        law_loaded_cache_agrees(pool, n - 1);
        let was = loaded(pool, n - 1).cache;
        let now = loaded(pool, n).cache;
        assert(loads(pool, n - 1));
        assert forall|name: Seq<char>| #[trigger] now.dom().contains(name) implies {
            &&& pool.is_named(now[name])
            &&& pool.name_of(now[name]) == name
            &&& pool.value(now[name]) is Type
        } by {
            if was.dom().contains(name) {
                assert(ImageV { pool, cache: was }.cache.dom().contains(name));
            }
        }
    }
}

/// A type that was loaded from a pool is found again: describing a type of its name gives its index
/// and leaves pool and cache as they are.
pub proof fn law_loaded_type_is_found(pool: PoolV, typ: TypeV, idx: int)
    requires
        1 <= idx < pool.defs.len(),
        pool.value(idx) is Type,
        is_last(pool, idx),
        ({
            let repo = loaded(pool, pool.defs.len() as int).repo;
            &&& !is_odd(typ, repo)
            &&& mangled(typ, repo, false) == pool.name_of(idx)
        }),
    ensures
        ({
            let res = loaded(pool, pool.defs.len() as int);
            let image = ImageV { pool, cache: res.cache };
            allocated(typ, res.repo, image) == (image, idx)
        }),
{
    let n = pool.defs.len() as int;
    let res = loaded(pool, n);
    law_load_finds_types(pool, n, idx);
    law_cached_is_found(typ, res.repo, ImageV { pool, cache: res.cache });
}

/// Whether a global function is found at a place, as the definition at an index describes it.
pub open spec fn holds_global(res: ResourcesV, pool: PoolV, idx: int, slot: int) -> bool {
    let entry = res.repo.globals.entries[slot];
    &&& res.repo.globals.has(slot)
    &&& entry.signature == pool.name_of(idx)
    &&& entry.typ == described_function(pool, idx)
    &&& entry.flags == pool.value(idx)->Function_0.flags
    &&& res.db.globals.dom().contains(slot)
    &&& res.db.globals[slot] == idx
}

/// Whether a global function is defined at an index.
pub open spec fn is_global(pool: PoolV, idx: int) -> bool {
    pool.value(idx) is Function && pool.defs[idx].parent == UNDEFINED
}

/// Every global function that a pool describes is loaded: there is a place where it is found with
/// its signature, type and flags and at its index, given that no other one behind it has the same
/// signature.
pub proof fn law_load_finds_globals(pool: PoolV, n: int, idx: int) -> (slot: int)
    requires
        1 <= idx < n <= pool.defs.len(),
        is_global(pool, idx),
        forall|j: int|
            idx < j < pool.defs.len() && is_global(pool, j) ==> #[trigger] pool.name_of(j)
                != pool.name_of(idx),
    ensures
        holds_global(loaded(pool, n), pool, idx, slot),
    decreases n,
{
    let last = n - 1;
    let was = loaded(pool, last);
    let name = pool.name_of(last);
    let short = top_level(short_name(name));
    let at = was.repo.globals.slot_for(short, name);
    lemma_found(was.repo.globals.entries, was.repo.globals.func_of(short), name);
    match pool.value(last) {
        AnyDefinitionV::Class(_) => {
            lemma_load_class_alone(pool, name, last, was.db, DbV::empty());
        },
        AnyDefinitionV::Enum(def) => {
            lemma_load_members_keeps(
                pool,
                name,
                def.members,
                def.members.len() as int,
                DbV { enums: was.db.enums.insert(name, last), ..was.db },
            );
        },
        _ => {},
    }
    if idx < last {
        let slot = law_load_finds_globals(pool, last, idx);
        assert(is_global(pool, last) ==> at != slot);
        slot
    } else {
        at
    }
}

/// What is found in a list of functions has the signature that was looked for.
proof fn lemma_found(entries: Seq<FuncEntryV>, func: int, signature: Seq<char>)
    ensures
        0 <= first_with(entries, func, signature) <= entries.len(),
        first_with(entries, func, signature) < entries.len() ==> entries[first_with(
            entries,
            func,
            signature,
        )].signature == signature,
    decreases entries.len(),
{
    if entries.len() > 0 && !(entries[0].func == func && entries[0].signature == signature) {
        lemma_found(entries.drop_first(), func, signature);
    }
}

proof fn lemma_loaded_wf(pool: PoolV, n: int)
    ensures
        loaded(pool, n).repo.types.wf(),
    decreases n,
{
    if n <= 1 {
        lemma_builtin_types_wf();
    } else {
        lemma_loaded_wf(pool, n - 1);
        let was = loaded(pool, n - 1);
        let name = pool.name_of(n - 1);
        match pool.value(n - 1) {
            AnyDefinitionV::Class(_) => {
                let class = load_class(pool, name, n - 1, was.db).0;
                was.repo.types.lemma_put(name, DataTypeV::Class(class));
            },
            AnyDefinitionV::Enum(_) => {
                let members = load_enum(pool, name, n - 1, was.db).0;
                was.repo.types.lemma_put(name, DataTypeV::Enum(members));
            },
            _ => {},
        }
    }
}

} // verus!
