//! Under which names types are kept in the pool, and in which form.
use vstd::prelude::*;

use crate::pool::{AnyDefinitionV, PoolTypeV, PoolV, UNDEFINED};
use crate::repo::{ref_id, RepoV};
use crate::type_cache::{allocated, allocated_unwrapped, mangled, type_ok, ImageV};
use crate::types::{prim_name, ParameterizedV, Prim, TypeV};

verus! {

/// A type of this name with these arguments.
pub open spec fn named(id: Seq<char>, args: Seq<TypeV>) -> TypeV {
    TypeV::Data(ParameterizedV { id, args })
}

/// A class that is no struct is kept under the name of a reference to it, and under its own name
/// where a reference is already mentioned. A struct and an enum are kept under their own names
/// everywhere.
pub proof fn law_name_of_class(repo: RepoV, id: Seq<char>, args: Seq<TypeV>)
    requires
        id != "ref"@,
        id != "wref"@,
    ensures
        repo.is_class(id) && !repo.class(id).flags.is_struct ==> {
            &&& mangled(named(id, args), repo, false) == "ref:"@ + id
            &&& mangled(named(id, args), repo, true) == id
        },
        repo.is_class(id) && repo.class(id).flags.is_struct ==> {
            &&& mangled(named(id, args), repo, false) == id
            &&& mangled(named(id, args), repo, true) == id
        },
        repo.is_enum(id) ==> {
            &&& mangled(named(id, args), repo, false) == id
            &&& mangled(named(id, args), repo, true) == id
        },
{
}

/// The name of a reference says to what: to a class by its own name. The name of an array or of
/// another built-in type says of what: of a class by the name of a reference to it.
pub proof fn law_name_around(repo: RepoV, id: Seq<char>, arg: TypeV, unwrapped: bool)
    requires
        repo.is_builtin(id),
    ensures
        id == "ref"@ || id == "wref"@ ==> mangled(named(id, seq![arg]), repo, unwrapped) == id
            + ":"@ + mangled(arg, repo, true),
        id != "ref"@ && id != "wref"@ ==> mangled(named(id, seq![arg]), repo, unwrapped) == id
            + ":"@ + mangled(arg, repo, false),
{
}

/// Primitive types are kept under their names, and what can be anything as an `IScriptable`.
pub proof fn law_other_names(repo: RepoV, prim: Prim, var: Seq<char>, unwrapped: bool)
    ensures
        mangled(TypeV::Prim(prim), repo, unwrapped) == prim_name(prim),
        mangled(TypeV::Top, repo, true) == "IScriptable"@,
        mangled(TypeV::Top, repo, false) == "ref:IScriptable"@,
        mangled(TypeV::Var(var), repo, unwrapped) == mangled(TypeV::Top, repo, unwrapped),
        mangled(TypeV::Bottom, repo, unwrapped) == mangled(TypeV::Top, repo, unwrapped),
{
}

/// Each primitive type is named as it is written.
pub proof fn law_prim_names()
    ensures
        prim_name(Prim::Void) == "Void"@,
        prim_name(Prim::Unit) == "Unit"@,
        prim_name(Prim::Bool) == "Bool"@,
        prim_name(Prim::Int8) == "Int8"@,
        prim_name(Prim::Int16) == "Int16"@,
        prim_name(Prim::Int32) == "Int32"@,
        prim_name(Prim::Int64) == "Int64"@,
        prim_name(Prim::Uint8) == "Uint8"@,
        prim_name(Prim::Uint16) == "Uint16"@,
        prim_name(Prim::Uint32) == "Uint32"@,
        prim_name(Prim::Uint64) == "Uint64"@,
        prim_name(Prim::Float) == "Float"@,
        prim_name(Prim::Double) == "Double"@,
        prim_name(Prim::Text) == "String"@,
        prim_name(Prim::CName) == "CName"@,
        prim_name(Prim::ResRef) == "ResRef"@,
        prim_name(Prim::TweakDbId) == "TweakDBID"@,
        prim_name(Prim::Variant) == "Variant"@,
{
}

/// Whether a type is defined behind all others, as one of no other definition, in a form.
pub open spec fn is_form(pool: PoolV, idx: int, form: PoolTypeV) -> bool {
    &&& idx == pool.defs.len() - 1
    &&& pool.value(idx) == AnyDefinitionV::Type(form)
    &&& pool.defs[idx].parent == UNDEFINED
}

/// A type that is not in the pool yet is written in the form that it has: a primitive type, an enum
/// and a struct by themselves, a class as a reference to it, and a reference, an array or another
/// built-in type around what is written of its argument. The type of the argument of a reference is
/// written by itself, that of an array as it is held.
pub proof fn law_form_of_type(typ: TypeV, repo: RepoV, image: ImageV)
    requires
        !image.cache.dom().contains(mangled(typ, repo, false)),
        !image.cache.dom().contains(mangled(typ, repo, true)),
        repo.is_builtin(ref_id()),
    ensures
        ({
            let (done, idx) = allocated(typ, repo, image);
            match typ {
                TypeV::Prim(_) => is_form(done.pool, idx, PoolTypeV::Prim),
                TypeV::Data(data) => {
                    &&& repo.is_enum(data.id) && data.id != "wref"@ ==> is_form(
                        done.pool,
                        idx,
                        PoolTypeV::Class,
                    )
                    &&& repo.is_class(data.id) && data.id != "wref"@ ==> {
                        if repo.class(data.id).flags.is_struct {
                            is_form(done.pool, idx, PoolTypeV::Class)
                        } else {
                            &&& is_form(done.pool, idx, PoolTypeV::Ref(idx - 1))
                            &&& done.pool.value(idx - 1) == AnyDefinitionV::Type(PoolTypeV::Class)
                            &&& done.pool.defs[idx - 1].parent == UNDEFINED
                        }
                    }
                    &&& repo.is_builtin(data.id) && data.args.len() == 1 ==> {
                        let (bare, inner) = allocated_unwrapped(data.args[0], repo, image);
                        let (held, outer) = allocated(data.args[0], repo, image);
                        &&& data.id == "ref"@ ==> is_form(done.pool, idx, PoolTypeV::Ref(inner))
                        &&& data.id == "wref"@ ==> is_form(
                            done.pool,
                            idx,
                            PoolTypeV::WeakRef(inner),
                        )
                        &&& data.id == "array"@ ==> is_form(
                            done.pool,
                            idx,
                            PoolTypeV::Array(outer),
                        )
                        &&& data.id == "script_ref"@ ==> is_form(
                            done.pool,
                            idx,
                            PoolTypeV::ScriptRef(outer),
                        )
                    }
                },
                _ => {
                    &&& is_form(done.pool, idx, PoolTypeV::Ref(idx - 1))
                    &&& done.pool.value(idx - 1) == AnyDefinitionV::Type(PoolTypeV::Class)
                    &&& done.pool.defs[idx - 1].parent == UNDEFINED
                },
            }
        }),
{
    reveal_strlit("ref");
    reveal_strlit("wref");
    reveal_strlit("array");
    reveal_strlit("script_ref");
    reveal_strlit(":");
    reveal_strlit("ref:");
    reveal_strlit("IScriptable");
    reveal_strlit("ref:IScriptable");
    assert("ref"@.len() == 3 && "wref"@.len() == 4 && "array"@.len() == 5 && "script_ref"@.len()
        == 10);
    assert("ref:"@ =~= "ref"@ + ":"@);
    assert("ref:IScriptable"@ =~= "ref"@ + ":"@ + "IScriptable"@);
}

/// A type can be described exactly if its names are known: a primitive type and what can be
/// anything always, a class, struct or enum where the repository has it, and a built-in type where
/// its argument can be.
pub proof fn law_type_can_be_described(repo: RepoV, id: Seq<char>, arg: TypeV, prim: Prim)
    ensures
        type_ok(TypeV::Prim(prim), repo),
        type_ok(TypeV::Top, repo),
        type_ok(TypeV::Bottom, repo),
        type_ok(TypeV::Var(id), repo),
        id != "ref"@ && id != "wref"@ ==> (type_ok(named(id, Seq::empty()), repo)
            <==> repo.has(id)),
        !type_ok(named("ref"@, Seq::empty()), repo),
        !type_ok(named("wref"@, Seq::empty()), repo),
        repo.is_builtin(id) && (id == "ref"@ || id == "wref"@ || id == "array"@ || id
            == "script_ref"@) ==> (type_ok(named(id, seq![arg]), repo) <==> type_ok(arg, repo)),
{
    let around = ParameterizedV { id, args: seq![arg] };
    assert(around.args[0] == arg);
    assert(type_ok(TypeV::Data(around), repo) ==> repo.has(id));
    assert(repo.is_builtin(id) ==> repo.has(id));
}

} // verus!
