//! What declarations come to: the types of functions, the members of classes and enums, and what
//! annotations change.
use vstd::prelude::*;

use crate::builders::EnumMember;
use crate::compiler::{CompileBodyV, CompilerV, MethodInjection, ModuleItemV};
use crate::dict::DictV;
use crate::error::{CompileErrorV, Span, TypeErrorV, Unsupported};
use crate::flags::{
    field_flags, law_class_qualifiers, law_field_qualifiers, law_function_qualifiers, ClassFlags,
    FieldFlags, FunctionFlags, Qualifier,
};
use crate::funcs::{
    is_overload, law_added_function, signature, top_level, FuncMapV, FuncTypeV, ScopedNameV,
};
use crate::module_map::type_id;
use crate::naming::{law_pushed_global, names_wf, stands_for};
use crate::preprocess::{
    add_field, add_members, class_base, empty_class, entry_ok, enum_members, field_annotation,
    field_errors, function_type, method_errors, method_flags, preprocess_class, preprocess_entry,
    preprocess_enum, preprocess_let, resolve_params, MembersV,
};
use crate::repo::{with_method, ClassTypeV, DataTypeV, FieldV, RepoV};
use crate::scope::{
    instantiate_vars, resolve_param_type, resolve_type, var_scope, GlobalV, NameScopeV, TypeScopeV,
};
use crate::source::{
    Annotation, AnnotationArg, AnnotationKind, ClassSource, EnumSource, FieldSource, FunctionSource,
    MemberSource, ParameterSource, SourceEntry,
};
use crate::types::{ParameterizedV, Prim, TypeV};

verus! {

proof fn lemma_resolved_params(
    params: Seq<ParameterSource>,
    n: int,
    types: TypeScopeV,
    outer: DictV<Seq<char>, TypeV>,
    inner: DictV<Seq<char>, TypeV>,
)
    requires
        0 <= n <= params.len(),
    ensures
        ({
            let res = resolve_params(params, n, types, outer, inner);
            &&& res is Ok <==> forall|i: int|
                0 <= i < n ==> resolve_type((#[trigger] params[i]).type_, types, outer, inner) is Ok
            &&& res matches Ok(done) ==> done.len() == n && forall|i: int|
                0 <= i < n ==> {
                    &&& resolve_type((#[trigger] params[i]).type_, types, outer, inner) == Ok::<
                        TypeV,
                        TypeErrorV,
                    >(done[i].typ)
                    &&& done[i].is_out <==> params[i].qualifiers@.contains(Qualifier::Out)
                    &&& !done[i].is_poly
                }
        }),
    decreases n,
{
    if n > 0 {
        lemma_resolved_params(params, n - 1, types, outer, inner);
        let last = params[n - 1];
    }
}

/// A declared function has one parameter for each written one, in order: of the type that is written
/// and, exactly if it is written so, an `out` parameter. It returns what is written, or nothing
/// where nothing is. Its type variables are those that are written, and its types see them. It has
/// a type exactly if all that is written stands for something. Nothing is polymorphic yet.
pub proof fn law_declared_type(
    func: FunctionSource,
    types: TypeScopeV,
    outer: DictV<Seq<char>, TypeV>,
)
    ensures
        ({
            let vars = instantiate_vars(
                func.tparams@,
                func.tparams@.len() as int,
                types,
                outer,
                DictV::empty(),
            );
            let inner = var_scope(vars->Ok_0, vars->Ok_0.len() as int);
            let res = function_type(func, types, outer);
            &&& res is Ok <==> {
                &&& vars is Ok
                &&& forall|i: int|
                    0 <= i < func.parameters@.len() ==> resolve_type(
                        (#[trigger] func.parameters@[i]).type_,
                        types,
                        outer,
                        inner,
                    ) is Ok
                &&& func.type_ matches Some(tn) ==> resolve_type(tn, types, outer, inner) is Ok
            }
            &&& res matches Ok((env, typ)) ==> {
                &&& env == inner
                &&& typ.type_vars == vars->Ok_0
                &&& !typ.is_ret_poly
                &&& match func.type_ {
                    Some(tn) => resolve_type(tn, types, outer, inner) == Ok::<TypeV, TypeErrorV>(
                        typ.ret,
                    ),
                    None => typ.ret == TypeV::Prim(Prim::Void),
                }
                &&& typ.params.len() == func.parameters@.len()
                &&& forall|i: int|
                    0 <= i < func.parameters@.len() ==> {
                        &&& resolve_type(
                            (#[trigger] func.parameters@[i]).type_,
                            types,
                            outer,
                            inner,
                        ) == Ok::<TypeV, TypeErrorV>(typ.params[i].typ)
                        &&& typ.params[i].is_out <==> func.parameters@[i].qualifiers@.contains(
                            Qualifier::Out,
                        )
                        &&& !typ.params[i].is_poly
                    }
            }
        }),
{
    let vars = instantiate_vars(
        func.tparams@,
        func.tparams@.len() as int,
        types,
        outer,
        DictV::empty(),
    );
    if vars is Ok {
        let inner = var_scope(vars->Ok_0, vars->Ok_0.len() as int);
        lemma_resolved_params(
            func.parameters@,
            func.parameters@.len() as int,
            types,
            outer,
            inner,
        );
    }
}

/// Whether flags are those that are written for a function, which has a body or not.
pub open spec fn flags_written(
    flags: FunctionFlags,
    qualifiers: Seq<Qualifier>,
    has_body: bool,
) -> bool {
    &&& flags.has_body == has_body
    &&& flags.is_static <==> qualifiers.contains(Qualifier::Static)
    &&& flags.is_native <==> qualifiers.contains(Qualifier::Native)
    &&& flags.is_callback <==> qualifiers.contains(Qualifier::Callback)
    &&& flags.is_quest <==> qualifiers.contains(Qualifier::Quest)
    &&& flags.is_final <==> qualifiers.contains(Qualifier::Final) || qualifiers.contains(
        Qualifier::Static,
    )
}

/// Whether a map has a function at a place as it is written.
pub open spec fn holds_function(
    map: FuncMapV,
    slot: int,
    name: ScopedNameV,
    typ: FuncTypeV,
    qualifiers: Seq<Qualifier>,
    has_body: bool,
) -> bool {
    &&& is_overload(map, slot, name, signature(name, typ))
    &&& map.entries[slot].typ == typ
    &&& map.entries[slot].base is None
    &&& flags_written(map.entries[slot].flags, qualifiers, has_body)
}

/// The functions of a class among which a function with these qualifiers is.
pub open spec fn side(class: ClassTypeV, qualifiers: Seq<Qualifier>) -> FuncMapV {
    if qualifiers.contains(Qualifier::Static) {
        class.statics
    } else {
        class.methods
    }
}

/// Whether a body is that of a function as it is written.
pub open spec fn is_body(body: CompileBodyV, func: FunctionSource, env: DictV<Seq<char>, TypeV>) -> bool {
    &&& Some(body.body) == func.body
    &&& body.name == func.decl.name@
    &&& body.parameters == func.parameters@
    &&& body.env == env
}

/// Whether the functions of a class are in order.
pub open spec fn class_wf(class: ClassTypeV) -> bool {
    class.methods.wf() && class.statics.wf() && class.fields.wf()
}

/// Whether a member is a method of this name, on the same side, whose type has the same signature.
pub open spec fn is_same_method(
    member: MemberSource,
    func: FunctionSource,
    typ: FuncTypeV,
    types: TypeScopeV,
    vars: DictV<Seq<char>, TypeV>,
) -> bool {
    member matches MemberSource::Method(other) && {
        &&& other.decl.name@ == func.decl.name@
        &&& other.decl.qualifiers@.contains(Qualifier::Static)
            == func.decl.qualifiers@.contains(Qualifier::Static)
        &&& function_type(other, types, vars) matches Ok((_, with)) && signature(
            top_level(other.decl.name@),
            with,
        ) == signature(top_level(func.decl.name@), typ)
    }
}

proof fn lemma_members_wf(
    members: Seq<MemberSource>,
    n: int,
    types: TypeScopeV,
    vars: DictV<Seq<char>, TypeV>,
    start: MembersV,
)
    requires
        class_wf(start.class),
        0 <= n <= members.len(),
    ensures
        class_wf(add_members(members, n, types, vars, start).class),
        add_members(members, n, types, vars, start).class.type_vars == start.class.type_vars,
        add_members(members, n, types, vars, start).class.extends == start.class.extends,
        add_members(members, n, types, vars, start).class.flags == start.class.flags,
        add_members(members, n, types, vars, start).class.span == start.class.span,
    decreases n,
{
    if n > 0 {
        lemma_members_wf(members, n - 1, types, vars, start);
        let at = add_members(members, n - 1, types, vars, start);
        match members[n - 1] {
            MemberSource::Method(func) => {
                if let Ok((_, typ)) = function_type(func, types, vars) {
                    lemma_method_added(at.class, func, typ, 0);
                }
            },
            MemberSource::Field(field) => {
                if let Ok(typ) = resolve_type(field.type_, types, DictV::empty(), vars) {
                    at.class.fields.lemma_put(
                        field.declaration.name@,
                        FieldV {
                            typ,
                            flags: field_flags(field.declaration.qualifiers@),
                        },
                    );
                }
            },
        }
    }
}

proof fn lemma_method_added(class: ClassTypeV, func: FunctionSource, typ: FuncTypeV, other: int)
    requires
        class_wf(class),
    ensures
        ({
            let flags = method_flags(func);
            let name = top_level(func.decl.name@);
            let qualifiers = func.decl.qualifiers@;
            let done = with_method(class, func.decl.name@, typ, flags);
            let slot = crate::repo::method_slot(class, func.decl.name@, typ, flags);
            &&& class_wf(done)
            &&& holds_function(
                side(done, qualifiers),
                slot,
                name,
                typ,
                qualifiers,
                func.body is Some,
            )
            &&& slot < side(class, qualifiers).entries.len() ==> is_overload(
                side(class, qualifiers),
                slot,
                name,
                signature(name, typ),
            )
            &&& done.fields == class.fields
            &&& qualifiers.contains(Qualifier::Static) ==> done.methods == class.methods
            &&& !qualifiers.contains(Qualifier::Static) ==> done.statics == class.statics
            &&& 0 <= other < side(class, qualifiers).entries.len() ==> {
                let now = side(done, qualifiers);
                let was = side(class, qualifiers);
                &&& other < now.entries.len()
                &&& now.names[now.entries[other].func] == was.names[was.entries[other].func]
                &&& now.entries[other].signature == was.entries[other].signature
                &&& other != slot ==> now.entries[other] == was.entries[other]
            }
        }),
{
    let flags = method_flags(func);
    law_function_qualifiers(func.decl.qualifiers@);
    let name = top_level(func.decl.name@);
    law_added_function(
        side(class, func.decl.qualifiers@),
        name,
        signature(name, typ),
        typ,
        flags,
        other,
    );
}

/// A function that a class declares is one of its functions, a static one exactly if it is written
/// so, with the type and the flags that are written. A later one with the same name and signature
/// takes its place. Its body, where it has one, is left to be compiled for that function.
pub proof fn law_class_functions(
    members: Seq<MemberSource>,
    n: int,
    types: TypeScopeV,
    vars: DictV<Seq<char>, TypeV>,
    start: MembersV,
    i: int,
)
    requires
        class_wf(start.class),
        0 <= i < n <= members.len(),
        members[i] is Method,
        function_type(members[i]->Method_0, types, vars) is Ok,
    ensures
        ({
            let func = members[i]->Method_0;
            let qualifiers = func.decl.qualifiers@;
            let (env, typ) = function_type(func, types, vars)->Ok_0;
            let name = top_level(func.decl.name@);
            let done = add_members(members, n, types, vars, start);
            let map = side(done.class, qualifiers);
            &&& exists|slot: int| #[trigger] is_overload(map, slot, name, signature(name, typ))
            &&& (forall|j: int|
                i < j < n ==> !is_same_method(#[trigger] members[j], func, typ, types, vars))
                ==> exists|slot: int| #[trigger]
                holds_function(map, slot, name, typ, qualifiers, func.body is Some)
            &&& func.body is Some ==> exists|k: int|
                {
                    &&& 0 <= k < done.bodies.len()
                    &&& is_body(#[trigger] done.bodies[k], func, env)
                    &&& done.bodies[k].is_static <==> qualifiers.contains(Qualifier::Static)
                    &&& is_overload(map, done.bodies[k].slot, name, signature(name, typ))
                }
        }),
    decreases n,
{
    let func = members[i]->Method_0;
    let qualifiers = func.decl.qualifiers@;
    let (env, typ) = function_type(func, types, vars)->Ok_0;
    let name = top_level(func.decl.name@);
    let text = signature(name, typ);
    let at = add_members(members, n - 1, types, vars, start);
    let done = add_members(members, n, types, vars, start);
    lemma_members_wf(members, n - 1, types, vars, start);
    let map = side(done.class, qualifiers);
    if i == n - 1 {
        lemma_method_added(at.class, func, typ, 0);
        let slot = crate::repo::method_slot(at.class, func.decl.name@, typ, method_flags(func));
        assert(is_overload(map, slot, name, text));
        assert(holds_function(map, slot, name, typ, qualifiers, func.body is Some));
        if func.body is Some {
            let k = at.bodies.len() as int;
            assert(is_body(done.bodies[k], func, env));
        }
    } else {
        law_class_functions(members, n - 1, types, vars, start, i);
        let was = side(at.class, qualifiers);
        let next = members[n - 1];
        assert forall|slot: int| #[trigger] is_overload(was, slot, name, text) implies is_overload(
            map,
            slot,
            name,
            text,
        ) by {
            if let MemberSource::Method(other) = next {
                if let Ok((_, with)) = function_type(other, types, vars) {
                    lemma_method_added(at.class, other, with, slot);
                }
            }
        }
        let before = choose|slot: int| #[trigger] is_overload(was, slot, name, text);
        assert(is_overload(map, before, name, text));
        if forall|j: int|
            i < j < n ==> !is_same_method(#[trigger] members[j], func, typ, types, vars) {
            assert forall|j: int| i < j < n - 1 implies !is_same_method(
                #[trigger] members[j],
                func,
                typ,
                types,
                vars,
            ) by {}
            let slot = choose|slot: int| #[trigger]
                holds_function(was, slot, name, typ, qualifiers, func.body is Some);
            assert(!is_same_method(members[n - 1], func, typ, types, vars));
            if let MemberSource::Method(other) = next {
                if let Ok((_, with)) = function_type(other, types, vars) {
                    lemma_method_added(at.class, other, with, slot);
                }
            }
            assert(holds_function(map, slot, name, typ, qualifiers, func.body is Some));
        }
        if func.body is Some {
            let k = choose|k: int|
                {
                    &&& 0 <= k < at.bodies.len()
                    &&& is_body(#[trigger] at.bodies[k], func, env)
                    &&& at.bodies[k].is_static <==> qualifiers.contains(Qualifier::Static)
                    &&& is_overload(was, at.bodies[k].slot, name, text)
                };
            assert(done.bodies[k] == at.bodies[k]);
            assert(is_overload(map, done.bodies[k].slot, name, text));
            assert(is_body(done.bodies[k], func, env));
        }
    }
}

/// Whether a member is a field of this name whose type stands for something.
pub open spec fn is_same_field(
    member: MemberSource,
    name: Seq<char>,
    types: TypeScopeV,
    vars: DictV<Seq<char>, TypeV>,
) -> bool {
    member matches MemberSource::Field(field) && field.declaration.name@ == name && resolve_type(
        field.type_,
        types,
        DictV::empty(),
        vars,
    ) is Ok
}

/// A field that a class declares is one of its fields, with the type and the flags that are
/// written. Of several with one name the last one counts.
pub proof fn law_class_fields(
    members: Seq<MemberSource>,
    n: int,
    types: TypeScopeV,
    vars: DictV<Seq<char>, TypeV>,
    start: MembersV,
    i: int,
)
    requires
        class_wf(start.class),
        0 <= i < n <= members.len(),
        members[i] is Field,
        resolve_type(members[i]->Field_0.type_, types, DictV::empty(), vars) is Ok,
        forall|j: int|
            i < j < n ==> !is_same_field(
                #[trigger] members[j],
                members[i]->Field_0.declaration.name@,
                types,
                vars,
            ),
    ensures
        ({
            let field = members[i]->Field_0;
            let done = add_members(members, n, types, vars, start).class;
            let found = done.fields.get(field.declaration.name@);
            &&& found is Some
            &&& resolve_type(field.type_, types, DictV::empty(), vars) == Ok::<TypeV, TypeErrorV>(
                found->0.typ,
            )
            &&& found->0.flags.is_native <==> field.declaration.qualifiers@.contains(
                Qualifier::Native,
            )
            &&& found->0.flags.is_persistent <==> field.declaration.qualifiers@.contains(
                Qualifier::Persistent,
            )
        }),
    decreases n,
{
    let field = members[i]->Field_0;
    let name = field.declaration.name@;
    let at = add_members(members, n - 1, types, vars, start);
    lemma_members_wf(members, n - 1, types, vars, start);
    law_field_qualifiers(field.declaration.qualifiers@);
    if i < n - 1 {
        law_class_fields(members, n - 1, types, vars, start, i);
    }
    match members[n - 1] {
        MemberSource::Method(func) => {
            if let Ok((_, typ)) = function_type(func, types, vars) {
                lemma_method_added(at.class, func, typ, 0);
            }
        },
        MemberSource::Field(other) => {
            if let Ok(typ) = resolve_type(other.type_, types, DictV::empty(), vars) {
                let val = FieldV {
                    typ,
                    flags: field_flags(other.declaration.qualifiers@),
                };
                at.class.fields.lemma_put(other.declaration.name@, val);
                let done = at.class.fields.put(other.declaration.name@, val);
                assert(!is_same_field(members[n - 1], name, types, vars) || i == n - 1);
                if i == n - 1 {
                    assert(done.get(name) == Some(val));
                } else {
                    assert(done.get(name) == at.class.fields.get(name));
                }
            }
        },
    }
}

/// A class has no functions and no fields but those that it declares.
pub proof fn law_class_has_no_others(
    members: Seq<MemberSource>,
    n: int,
    types: TypeScopeV,
    vars: DictV<Seq<char>, TypeV>,
    start: MembersV,
    slot: int,
    name: Seq<char>,
)
    requires
        class_wf(start.class),
        start.class.fields.keys.len() == 0,
        start.class.methods.entries.len() == 0,
        start.class.statics.entries.len() == 0,
        0 <= n <= members.len(),
    ensures
        ({
            let done = add_members(members, n, types, vars, start).class;
            &&& done.fields.has(name) ==> exists|i: int|
                0 <= i < n && is_same_field(#[trigger] members[i], name, types, vars)
            &&& 0 <= slot < done.methods.entries.len() ==> exists|i: int|
                0 <= i < n && declares_function(
                    #[trigger] members[i],
                    done.methods.names[done.methods.entries[slot].func],
                    false,
                )
            &&& 0 <= slot < done.statics.entries.len() ==> exists|i: int|
                0 <= i < n && declares_function(
                    #[trigger] members[i],
                    done.statics.names[done.statics.entries[slot].func],
                    true,
                )
        }),
    decreases n,
{
    if n > 0 {
        law_class_has_no_others(members, n - 1, types, vars, start, slot, name);
        lemma_members_wf(members, n - 1, types, vars, start);
        let at = add_members(members, n - 1, types, vars, start).class;
        let done = add_members(members, n, types, vars, start).class;
        match members[n - 1] {
            MemberSource::Method(func) => {
                if let Ok((_, typ)) = function_type(func, types, vars) {
                    lemma_method_added(at, func, typ, slot);
                    let is_static = func.decl.qualifiers@.contains(Qualifier::Static);
                    law_added_function(
                        side(at, func.decl.qualifiers@),
                        top_level(func.decl.name@),
                        signature(top_level(func.decl.name@), typ),
                        typ,
                        method_flags(func),
                        slot,
                    );
                    law_function_qualifiers(func.decl.qualifiers@);
                    assert(declares_function(
                        members[n - 1],
                        top_level(func.decl.name@),
                        is_static,
                    ));
                }
            },
            MemberSource::Field(field) => {
                if let Ok(typ) = resolve_type(field.type_, types, DictV::empty(), vars) {
                    let val = FieldV {
                        typ,
                        flags: field_flags(field.declaration.qualifiers@),
                    };
                    at.fields.lemma_put(field.declaration.name@, val);
                    if field.declaration.name@ == name {
                        assert(is_same_field(members[n - 1], name, types, vars));
                    } else {
                        assert(at.fields.put(field.declaration.name@, val).has(name)
                            <==> at.fields.has(name));
                    }
                }
            },
        }
        if at.fields.has(name) {
            let i = choose|i: int|
                0 <= i < n - 1 && is_same_field(#[trigger] members[i], name, types, vars);
            assert(is_same_field(members[i], name, types, vars));
        }
    }
}

/// Whether a member declares a function of this name, static or not.
pub open spec fn declares_function(
    member: MemberSource,
    name: ScopedNameV,
    is_static: bool,
) -> bool {
    member matches MemberSource::Method(func) && {
        &&& name.path.len() == 0
        &&& name.name == func.decl.name@
        &&& func.decl.qualifiers@.contains(Qualifier::Static) == is_static
    }
}

/// A class or struct that is declared is there under its full name: with the type variables that
/// are written, extending what is written, or `IScriptable` where nothing is and it is no struct,
/// with the flags that are written and the place of the declaration. It is listed once more, and no
/// other type changes. Its functions are left to be compiled with its own type variables.
pub proof fn law_declared_class(
    c: CompilerV,
    path: Seq<Seq<char>>,
    class: ClassSource,
    is_struct: bool,
    types: TypeScopeV,
    other: Seq<char>,
)
    requires
        c.repo.types.wf(),
        preprocess_class(c, path, class, is_struct, types).1 is Ok,
    ensures
        ({
            let (done, res) = preprocess_class(c, path, class, is_struct, types);
            let id = type_id(class.name@, path);
            let made = done.repo.class(id);
            let n = class.tparams@.len() as int;
            let vars = instantiate_vars(class.tparams@, n, types, DictV::empty(), DictV::empty());
            let scope = var_scope(made.type_vars, made.type_vars.len() as int);
            let start = MembersV {
                errors: c.errors,
                class: ClassTypeV {
                    fields: DictV::empty(),
                    methods: FuncMapV { names: Seq::empty(), entries: Seq::empty() },
                    statics: FuncMapV { names: Seq::empty(), entries: Seq::empty() },
                    ..made
                },
                bodies: Seq::empty(),
            };
            let members = add_members(
                class.members@,
                class.members@.len() as int,
                types,
                scope,
                start,
            );
            &&& done.repo.is_class(id)
            &&& vars == Ok::<Seq<crate::funcs::TypeVarV>, TypeErrorV>(made.type_vars)
            &&& match class.base {
                Some(base) => {
                    &&& made.extends is Some
                    &&& resolve_param_type(base, types, DictV::empty(), scope) == Ok::<
                        ParameterizedV,
                        TypeErrorV,
                    >(made.extends->0)
                },
                None => if is_struct {
                    made.extends is None
                } else {
                    made.extends == Some(
                        ParameterizedV { id: "IScriptable"@, args: Seq::empty() },
                    )
                },
            }
            &&& made.flags.is_struct == is_struct
            &&& made.flags.is_abstract <==> class.qualifiers@.contains(Qualifier::Abstract)
            &&& made.flags.is_final <==> class.qualifiers@.contains(Qualifier::Final)
            &&& made.flags.is_native <==> class.qualifiers@.contains(Qualifier::Native)
                || class.qualifiers@.contains(Qualifier::ImportOnly)
            &&& made.flags.is_import_only <==> class.qualifiers@.contains(Qualifier::ImportOnly)
            &&& made.span == Some(class.span)
            &&& made.methods == members.class.methods
            &&& made.statics == members.class.statics
            &&& made.fields == members.class.fields
            &&& done.errors == members.errors
            &&& done.defined == c.defined.push(id)
            &&& other != id ==> done.repo.types.get(other) == c.repo.types.get(other)
            &&& done.repo.globals == c.repo.globals
            &&& done.queue == c.queue
            &&& done.modules == c.modules
            &&& res->Ok_0 is Some
            &&& res->Ok_0->0 matches ModuleItemV::Class(this, env, bodies) && {
                &&& this.id == id
                &&& this.args.len() == made.type_vars.len()
                &&& forall|i: int|
                    0 <= i < this.args.len() ==> #[trigger] this.args[i] == TypeV::Var(
                        made.type_vars[i].name,
                    )
                &&& env == scope
                &&& bodies == members.bodies
            }
        }),
{
    let id = type_id(class.name@, path);
    let n = class.tparams@.len() as int;
    let vars = instantiate_vars(
        class.tparams@,
        n,
        types,
        DictV::empty(),
        DictV::empty(),
    )->Ok_0;
    let scope = var_scope(vars, vars.len() as int);
    let base = class_base(class, is_struct, types, scope)->Ok_0;
    let start = MembersV {
        errors: c.errors,
        class: empty_class(class, is_struct, vars, base),
        bodies: Seq::empty(),
    };
    let count = class.members@.len() as int;
    law_class_qualifiers(class.qualifiers@);
    lemma_members_wf(class.members@, count, types, scope, start);
    let made = add_members(class.members@, count, types, scope, start).class;
    c.repo.types.lemma_put(id, DataTypeV::Class(made));
    let done = c.repo.types.put(id, DataTypeV::Class(made));
    assert(done.get(id) == Some(DataTypeV::Class(made)));
    assert(start.class =~= ClassTypeV {
        fields: DictV::empty(),
        methods: FuncMapV { names: Seq::empty(), entries: Seq::empty() },
        statics: FuncMapV { names: Seq::empty(), entries: Seq::empty() },
        ..made
    });
}

/// A class is refused exactly if one of its type parameters or its base stands for nothing, and the
/// error is told at the class.
pub proof fn law_refused_class(
    c: CompilerV,
    path: Seq<Seq<char>>,
    class: ClassSource,
    is_struct: bool,
    types: TypeScopeV,
)
    ensures
        ({
            let (done, res) = preprocess_class(c, path, class, is_struct, types);
            let n = class.tparams@.len() as int;
            let vars = instantiate_vars(class.tparams@, n, types, DictV::empty(), DictV::empty());
            let scope = var_scope(vars->Ok_0, vars->Ok_0.len() as int);
            &&& res is Err <==> vars is Err || (class.base matches Some(base)
                && resolve_param_type(base, types, DictV::empty(), scope) is Err)
            &&& res matches Err(err) ==> done == c && (err matches CompileErrorV::TypeError(_, span)
                && span == class.span)
        }),
{
}

/// A method is told to be wrong exactly where it is native in a class that is not, is not static in
/// a struct, is final without an implementation, or is native with a body. Each is told once, at the
/// method.
pub proof fn law_method_errors(
    class: ClassFlags,
    method: FunctionFlags,
    span: Span,
    err: CompileErrorV,
)
    ensures
        method_errors(class, method, span).no_duplicates(),
        method_errors(class, method, span).contains(err) <==> (err matches
            CompileErrorV::Unsupported(what, at) && at == span && match what {
            Unsupported::NativeInNonNative => method.is_native && !class.is_native,
            Unsupported::NonStaticStructMember => class.is_struct && !method.is_static,
            Unsupported::FinalWithoutBody => method.is_final && !method.is_native
                && !method.has_body,
            Unsupported::NativeWithBody => method.is_native && method.has_body,
            _ => false,
        }),
{
    let all = method_errors(class, method, span);
    let a = CompileErrorV::Unsupported(Unsupported::NativeInNonNative, span);
    let b = CompileErrorV::Unsupported(Unsupported::NonStaticStructMember, span);
    let d = CompileErrorV::Unsupported(Unsupported::FinalWithoutBody, span);
    let e = CompileErrorV::Unsupported(Unsupported::NativeWithBody, span);
    let x = if method.is_native && !class.is_native {
        1int
    } else {
        0
    };
    let y = if !method.is_static && class.is_struct {
        1int
    } else {
        0
    };
    let z = if method.is_final && !method.has_body && !method.is_native {
        1int
    } else {
        0
    };
    let w = if method.has_body && method.is_native {
        1int
    } else {
        0
    };
    assert(all.len() == x + y + z + w);
    assert(x == 1 ==> all[0] == a);
    assert(y == 1 ==> all[x] == b);
    assert(z == 1 ==> all[x + y] == d);
    assert(w == 1 ==> all[x + y + z] == e);
    assert forall|i: int|
        #![trigger all[i]]
        0 <= i < all.len() implies {
        ||| x == 1 && i == 0
        ||| y == 1 && i == x
        ||| z == 1 && i == x + y
        ||| w == 1 && i == x + y + z
    } by {}
}

/// A field is told to be wrong exactly where it is native in a class that is not.
pub proof fn law_field_errors(class: ClassFlags, field: FieldFlags, span: Span)
    ensures
        field.is_native && !class.is_native ==> field_errors(class, field, span) == seq![
            CompileErrorV::Unsupported(Unsupported::NativeInNonNative, span),
        ],
        !(field.is_native && !class.is_native) ==> field_errors(class, field, span).len() == 0,
{
}

/// The errors of the members of a class are reported, each at its member: what a method or field may
/// not be in the class, and a type that stands for nothing. Where nothing is wrong, nothing is
/// reported.
pub proof fn law_member_errors(
    members: Seq<MemberSource>,
    n: int,
    types: TypeScopeV,
    vars: DictV<Seq<char>, TypeV>,
    start: MembersV,
    i: int,
)
    requires
        class_wf(start.class),
        0 <= n <= members.len(),
    ensures
        ({
            let done = add_members(members, n, types, vars, start);
            &&& start.errors.is_prefix_of(done.errors)
            &&& 0 <= i < n ==> match members[i] {
                MemberSource::Method(func) => {
                    &&& forall|flags: FunctionFlags, k: int|
                        #![trigger method_errors(start.class.flags, flags, func.decl.span)[k]]
                        flags_written(flags, func.decl.qualifiers@, func.body is Some) && 0 <= k
                            < method_errors(start.class.flags, flags, func.decl.span).len()
                            && flags.other == 0 ==> done.errors.contains(
                            method_errors(start.class.flags, flags, func.decl.span)[k],
                        )
                    &&& function_type(func, types, vars) matches Err(err) ==> done.errors.contains(
                        CompileErrorV::TypeError(err, func.decl.span),
                    )
                },
                MemberSource::Field(field) => {
                    &&& field.declaration.qualifiers@.contains(Qualifier::Native)
                        && !start.class.flags.is_native ==> done.errors.contains(
                        CompileErrorV::Unsupported(
                            Unsupported::NativeInNonNative,
                            field.declaration.span,
                        ),
                    )
                    &&& resolve_type(field.type_, types, DictV::empty(), vars) matches Err(err)
                        ==> done.errors.contains(
                        CompileErrorV::TypeError(err, field.declaration.span),
                    )
                },
            }
            &&& (forall|j: int|
                0 <= j < n ==> is_fine(#[trigger] members[j], types, vars, start.class.flags))
                ==> done.errors == start.errors
        }),
    decreases n,
{
    if n > 0 {
        law_member_errors(members, n - 1, types, vars, start, i);
        lemma_members_wf(members, n - 1, types, vars, start);
        let at = add_members(members, n - 1, types, vars, start);
        let done = add_members(members, n, types, vars, start);
        assert(at.errors.is_prefix_of(done.errors));
        assert forall|err: CompileErrorV| #[trigger] at.errors.contains(err) implies done.errors.contains(
            err,
        ) by {
            let k = choose|k: int| 0 <= k < at.errors.len() && at.errors[k] == err;
            assert(done.errors[k] == err);
        }
        match members[n - 1] {
            MemberSource::Method(func) => {
                law_function_qualifiers(func.decl.qualifiers@);
                let own = method_errors(at.class.flags, method_flags(func), func.decl.span);
                assert forall|k: int| 0 <= k < own.len() implies done.errors.contains(
                    #[trigger] own[k],
                ) by {
                    assert(done.errors[at.errors.len() + k] == own[k]);
                }
                if let Err(err) = function_type(func, types, vars) {
                    let last = done.errors.len() - 1;
                    assert(done.errors[last] == CompileErrorV::TypeError(err, func.decl.span));
                }
                if is_fine(members[n - 1], types, vars, start.class.flags) {
                    lemma_fine_method(func, start.class.flags);
                    assert(done.errors =~= at.errors);
                }
            },
            MemberSource::Field(field) => {
                let flags = field_flags(field.declaration.qualifiers@);
                law_field_qualifiers(field.declaration.qualifiers@);
                law_field_errors(at.class.flags, flags, field.declaration.span);
                let own = field_errors(at.class.flags, flags, field.declaration.span);
                if own.len() > 0 {
                    assert(done.errors[at.errors.len() as int] == own[0]);
                }
                if let Err(err) = resolve_type(field.type_, types, DictV::empty(), vars) {
                    let last = done.errors.len() - 1;
                    assert(done.errors[last] == CompileErrorV::TypeError(
                        err,
                        field.declaration.span,
                    ));
                }
                if is_fine(members[n - 1], types, vars, start.class.flags) {
                    assert(done.errors =~= at.errors);
                }
            },
        }
        if forall|j: int|
            0 <= j < n ==> is_fine(#[trigger] members[j], types, vars, start.class.flags) {
            assert(is_fine(members[n - 1], types, vars, start.class.flags));
        }
    }
}

/// Whether nothing is wrong with a member of a class with these flags.
pub open spec fn is_fine(
    member: MemberSource,
    types: TypeScopeV,
    vars: DictV<Seq<char>, TypeV>,
    class: ClassFlags,
) -> bool {
    match member {
        MemberSource::Method(func) => {
            let qualifiers = func.decl.qualifiers@;
            let is_native = qualifiers.contains(Qualifier::Native);
            let is_static = qualifiers.contains(Qualifier::Static);
            &&& function_type(func, types, vars) is Ok
            &&& is_native ==> class.is_native && func.body is None
            &&& class.is_struct ==> is_static
            &&& is_static || qualifiers.contains(Qualifier::Final) ==> is_native || func.body is Some
        },
        MemberSource::Field(field) => {
            &&& resolve_type(field.type_, types, DictV::empty(), vars) is Ok
            &&& field.declaration.qualifiers@.contains(Qualifier::Native) ==> class.is_native
        },
    }
}

proof fn lemma_fine_method(func: FunctionSource, class: ClassFlags)
    requires
        ({
            let qualifiers = func.decl.qualifiers@;
            let is_native = qualifiers.contains(Qualifier::Native);
            let is_static = qualifiers.contains(Qualifier::Static);
            &&& is_native ==> class.is_native && func.body is None
            &&& class.is_struct ==> is_static
            &&& is_static || qualifiers.contains(Qualifier::Final) ==> is_native || func.body is Some
        }),
    ensures
        method_errors(class, method_flags(func), func.decl.span).len() == 0,
{
    law_function_qualifiers(func.decl.qualifiers@);
    let all = method_errors(class, method_flags(func), func.decl.span);
    if all.len() > 0 {
        assert(all.contains(all[0]));
        law_method_errors(class, method_flags(func), func.decl.span, all[0]);
    }
}

/// An enum has the members that are written, each with its value. Of several with one name the last
/// one counts, and the members stand in the order in which their names are first written.
pub proof fn law_enum_members(members: Seq<EnumMember>, n: int, i: int, name: Seq<char>)
    requires
        0 <= n <= members.len(),
    ensures
        enum_members(members, n).wf(),
        enum_members(members, n).has(name) <==> exists|k: int|
            0 <= k < n && (#[trigger] members[k]).name@ == name,
        0 <= i < n && (forall|k: int| i < k < n ==> (#[trigger] members[k]).name@
            != members[i].name@) ==> enum_members(members, n).get(members[i].name@) == Some(
            members[i].value,
        ),
        (forall|k: int, l: int|
            0 <= k < l < n ==> (#[trigger] members[k]).name@ != (#[trigger] members[l]).name@)
            ==> enum_members(members, n).keys.len() == n && forall|k: int|
            0 <= k < n ==> enum_members(members, n).keys[k] == (#[trigger] members[k]).name@,
    decreases n,
{
    if n > 0 {
        law_enum_members(members, n - 1, i, name);
        law_enum_members(members, n - 1, i, members[n - 1].name@);
        let at = enum_members(members, n - 1);
        let own = members[n - 1].name@;
        at.lemma_put(own, members[n - 1].value);
        let done = at.put(own, members[n - 1].value);
        if own == name {
            assert(done.get(name) == Some(members[n - 1].value));
            assert(members[n - 1].name@ == name);
        } else {
            assert(done.has(name) <==> at.has(name));
            if at.has(name) {
                let k = choose|k: int| 0 <= k < n - 1 && (#[trigger] members[k]).name@ == name;
                assert(members[k].name@ == name);
            }
        }
        if 0 <= i < n - 1 && (forall|k: int|
            i < k < n ==> (#[trigger] members[k]).name@ != members[i].name@) {
            assert(members[n - 1].name@ != members[i].name@);
            assert(done.get(members[i].name@) == at.get(members[i].name@));
        }
        if i == n - 1 {
            assert(done.get(own) == Some(members[n - 1].value));
        }
        if forall|k: int, l: int|
            0 <= k < l < n ==> (#[trigger] members[k]).name@ != (#[trigger] members[l]).name@ {
            if at.has(own) {
                let k = choose|k: int| 0 <= k < n - 1 && (#[trigger] members[k]).name@ == own;
                assert(members[k].name@ != members[n - 1].name@);
            }
            assert forall|k: int| 0 <= k < n implies done.keys[k] == (#[trigger] members[k]).name@ by {
                if k < n - 1 {
                    assert(at.keys[k] == members[k].name@);
                }
            }
        }
    }
}

/// A declared enum is there under its full name and listed once more, and no other type changes.
pub proof fn law_declared_enum(
    c: CompilerV,
    path: Seq<Seq<char>>,
    source: EnumSource,
    other: Seq<char>,
)
    requires
        c.repo.types.wf(),
    ensures
        ({
            let done = preprocess_enum(c, path, source);
            let id = type_id(source.name@, path);
            &&& done.repo.is_enum(id)
            &&& done.repo.types.at(id)->Enum_0 == enum_members(
                source.members@,
                source.members@.len() as int,
            )
            &&& done.defined == c.defined.push(id)
            &&& other != id ==> done.repo.types.get(other) == c.repo.types.get(other)
            &&& done.errors == c.errors
            &&& done.repo.globals == c.repo.globals
        }),
{
    let id = type_id(source.name@, path);
    let typ = DataTypeV::Enum(enum_members(source.members@, source.members@.len() as int));
    c.repo.types.lemma_put(id, typ);
    assert(c.repo.types.put(id, typ).get(id) == Some(typ));
}

/// A function without annotations becomes a global function under its full name, with the type and
/// the flags that are written. Its name stands for it from then on, or for the intrinsic of that
/// name. Its body, where it has one, is left to be compiled for it. Nothing else changes.
pub proof fn law_declared_function(
    c: CompilerV,
    path: Seq<Seq<char>>,
    func: FunctionSource,
    types: TypeScopeV,
    names: NameScopeV,
)
    requires
        c.repo.globals.wf(),
        names_wf(names),
        func.decl.annotations@.len() == 0,
        function_type(func, types, DictV::empty()) is Ok,
    ensures
        ({
            let (env, typ) = function_type(func, types, DictV::empty())->Ok_0;
            let done = preprocess_entry(c, path, SourceEntry::Function(func), types, names);
            let full = ScopedNameV { path, name: func.decl.name@ };
            let globals = done.compiler.repo.globals;
            &&& exists|slot: int| #[trigger]
                holds_function(globals, slot, full, typ, func.decl.qualifiers@, false)
            &&& exists|f: int|
                {
                    &&& 0 <= f < globals.names.len()
                    &&& #[trigger] globals.names[f] == full
                    &&& stands_for(
                        done.names,
                        func.decl.name@,
                        if c.intrinsics.has(func.decl.name@) {
                            GlobalV::Intrinsic(f, c.intrinsics.keys.index_of(func.decl.name@))
                        } else {
                            GlobalV::Func(f)
                        },
                    )
                }
            &&& match func.body {
                Some(_) => done.res matches Ok(Some(ModuleItemV::Global(body))) && {
                    &&& is_body(body, func, env)
                    &&& body.is_static
                    &&& holds_function(
                        globals,
                        body.slot,
                        full,
                        typ,
                        func.decl.qualifiers@,
                        false,
                    )
                },
                None => done.res == Ok::<Option<ModuleItemV>, CompileErrorV>(None),
            }
            &&& done.compiler.repo.types == c.repo.types
            &&& done.compiler.errors == c.errors
            &&& done.compiler.defined == c.defined
        }),
{
    reveal(preprocess_entry);
    let (env, typ) = function_type(func, types, DictV::empty())->Ok_0;
    let full = ScopedNameV { path, name: func.decl.name@ };
    let flags = crate::flags::function_flags(func.decl.qualifiers@);
    law_function_qualifiers(func.decl.qualifiers@);
    law_added_function(c.repo.globals, full, signature(full, typ), typ, flags, 0);
    let done = preprocess_entry(c, path, SourceEntry::Function(func), types, names);
    let slot = c.repo.globals.slot_for(full, signature(full, typ));
    let f = c.repo.globals.func_of(full);
    let globals = done.compiler.repo.globals;
    assert(holds_function(globals, slot, full, typ, func.decl.qualifiers@, false));
    assert(globals.names[f] == full);
    let what = if c.intrinsics.has(func.decl.name@) {
        GlobalV::Intrinsic(f, c.intrinsics.keys.index_of(func.decl.name@))
    } else {
        GlobalV::Func(f)
    };
    law_pushed_global(names, func.decl.name@, what, func.decl.name@, what);
}

/// Whether a map has exactly one function of a name, and it is at this place.
pub open spec fn is_sole(map: FuncMapV, slot: int, name: Seq<char>) -> bool {
    &&& 0 <= slot < map.entries.len()
    &&& map.names[map.entries[slot].func] == top_level(name)
    &&& forall|other: int|
        0 <= other < map.entries.len() && map.names[(#[trigger] map.entries[other]).func]
            == top_level(name) ==> other == slot
}

/// A function that replaces or wraps a method is left to be compiled for the one method of its name
/// in the class that it names, and nothing is changed yet. It is refused where it names no class,
/// where the class does not have exactly one method of that name, or where it has no body.
pub proof fn law_changed_method(
    c: CompilerV,
    path: Seq<Seq<char>>,
    func: FunctionSource,
    types: TypeScopeV,
    names: NameScopeV,
    slot: int,
)
    requires
        func.decl.annotations@.len() > 0,
        func.decl.annotations@[0].kind == AnnotationKind::ReplaceMethod
            || func.decl.annotations@[0].kind == AnnotationKind::WrapMethod,
        func.decl.annotations@[0].args@.len() == 1,
        func.decl.annotations@[0].args@[0] is Ident,
        function_type(func, types, DictV::empty()) is Ok,
    ensures
        ({
            let ann = func.decl.annotations@[0];
            let name = ann.args@[0]->Ident_0@;
            let span = ann.args@[0]->Ident_1;
            let env = function_type(func, types, DictV::empty())->Ok_0.0;
            let done = preprocess_entry(c, path, SourceEntry::Function(func), types, names);
            let is_known = types.lookup(name) is Some && c.repo.is_class(types.lookup(name)->0);
            let id = types.lookup(name)->0;
            let methods = c.repo.class(id).methods;
            &&& done.compiler == c
            &&& done.names == names
            &&& !is_known ==> done.res == Err::<Option<ModuleItemV>, CompileErrorV>(
                CompileErrorV::TypeError(TypeErrorV::UnresolvedType(name), span),
            )
            &&& is_known && !(exists|s: int| is_sole(methods, s, func.decl.name@)) ==> done.res
                == Err::<Option<ModuleItemV>, CompileErrorV>(
                CompileErrorV::UnresolvedFunction(func.decl.name@, span),
            )
            &&& is_known && is_sole(methods, slot, func.decl.name@) && func.body is None
                ==> done.res == Err::<Option<ModuleItemV>, CompileErrorV>(
                CompileErrorV::Unsupported(Unsupported::AnnotatedFuncWithNoBody, span),
            )
            &&& is_known && is_sole(methods, slot, func.decl.name@) && func.body is Some
                ==> (done.res matches Ok(Some(ModuleItemV::AnnotatedMethod(this, body, kind))) && {
                &&& this.id == id
                &&& this.args.len() == 0
                &&& is_body(body, func, env)
                &&& body.slot == slot
                &&& body.is_static <==> func.decl.qualifiers@.contains(Qualifier::Static)
                &&& kind == if ann.kind == AnnotationKind::ReplaceMethod {
                    MethodInjection::Replace
                } else {
                    MethodInjection::Wrap
                }
            })
        }),
{
    reveal(preprocess_entry);
    let ann = func.decl.annotations@[0];
    let id = types.lookup(ann.args@[0]->Ident_0@)->0;
    let methods = c.repo.class(id).methods;
    let name = top_level(func.decl.name@);
    assert forall|s: int| #[trigger] is_sole(methods, s, func.decl.name@) <==> methods.is_only(
        s,
        name,
    ) by {
        if methods.is_only(s, name) {
            assert forall|other: int|
                0 <= other < methods.entries.len()
                    && methods.names[(#[trigger] methods.entries[other]).func] == name implies other
                == s by {
                assert(methods.is_named(other, name));
            }
        }
    }
    if is_sole(methods, slot, func.decl.name@) {
        assert(methods.is_only(slot, name));
        let found = choose|s: int| methods.is_only(s, name);
        assert(methods.is_only(found, name));
        assert(methods.is_named(slot, name));
    }
    if exists|s: int| methods.is_only(s, name) {
        let found = choose|s: int| methods.is_only(s, name);
        assert(is_sole(methods, found, func.decl.name@));
    }
}

/// A function that replaces a global one is left to be compiled for the one top-level function of
/// its name. It is refused where there is not exactly one, or where it has no body.
pub proof fn law_replaced_global(
    c: CompilerV,
    path: Seq<Seq<char>>,
    func: FunctionSource,
    types: TypeScopeV,
    names: NameScopeV,
    slot: int,
)
    requires
        func.decl.annotations@.len() > 0,
        func.decl.annotations@[0].kind == AnnotationKind::ReplaceGlobal,
        func.decl.annotations@[0].args@.len() == 0,
        function_type(func, types, DictV::empty()) is Ok,
    ensures
        ({
            let env = function_type(func, types, DictV::empty())->Ok_0.0;
            let done = preprocess_entry(c, path, SourceEntry::Function(func), types, names);
            let globals = c.repo.globals;
            let name = func.decl.name@;
            &&& done.compiler == c
            &&& done.names == names
            &&& !(exists|s: int| is_sole(globals, s, name)) ==> done.res == Err::<
                Option<ModuleItemV>,
                CompileErrorV,
            >(CompileErrorV::UnresolvedFunction(name, func.decl.span))
            &&& is_sole(globals, slot, name) && func.body is None ==> done.res == Err::<
                Option<ModuleItemV>,
                CompileErrorV,
            >(
                CompileErrorV::Unsupported(
                    Unsupported::AnnotatedFuncWithNoBody,
                    func.decl.span,
                ),
            )
            &&& is_sole(globals, slot, name) && func.body is Some ==> (done.res matches Ok(
                Some(ModuleItemV::Global(body)),
            ) && is_body(body, func, env) && body.slot == slot && body.is_static)
        }),
{
    reveal(preprocess_entry);
    let globals = c.repo.globals;
    let name = top_level(func.decl.name@);
    assert forall|s: int| #[trigger] is_sole(globals, s, func.decl.name@) <==> globals.is_only(
        s,
        name,
    ) by {
        if globals.is_only(s, name) {
            assert forall|other: int|
                0 <= other < globals.entries.len()
                    && globals.names[(#[trigger] globals.entries[other]).func] == name implies other
                == s by {
                assert(globals.is_named(other, name));
            }
        }
    }
    if is_sole(globals, slot, func.decl.name@) {
        assert(globals.is_only(slot, name));
        let found = choose|s: int| globals.is_only(s, name);
        assert(globals.is_only(found, name));
        assert(globals.is_named(slot, name));
    }
    if exists|s: int| globals.is_only(s, name) {
        let found = choose|s: int| globals.is_only(s, name);
        assert(is_sole(globals, found, func.decl.name@));
    }
}

/// A function that is added to a class is one of its functions from then on, with the type and the
/// qualifiers that are written, and its body is left to be compiled for it. No other type changes.
pub proof fn law_added_method(
    c: CompilerV,
    path: Seq<Seq<char>>,
    func: FunctionSource,
    types: TypeScopeV,
    names: NameScopeV,
    other: Seq<char>,
)
    requires
        c.repo.types.wf(),
        func.decl.annotations@.len() > 0,
        func.decl.annotations@[0].kind == AnnotationKind::AddMethod,
        func.decl.annotations@[0].args@.len() == 1,
        func.decl.annotations@[0].args@[0] is Ident,
        function_type(func, types, DictV::empty()) is Ok,
        types.lookup(func.decl.annotations@[0].args@[0]->Ident_0@) is Some,
        c.repo.is_class(types.lookup(func.decl.annotations@[0].args@[0]->Ident_0@)->0),
        class_wf(c.repo.class(types.lookup(func.decl.annotations@[0].args@[0]->Ident_0@)->0)),
    ensures
        ({
            let span = func.decl.annotations@[0].args@[0]->Ident_1;
            let id = types.lookup(func.decl.annotations@[0].args@[0]->Ident_0@)->0;
            let (env, typ) = function_type(func, types, DictV::empty())->Ok_0;
            let done = preprocess_entry(c, path, SourceEntry::Function(func), types, names);
            let qualifiers = func.decl.qualifiers@;
            let made = done.compiler.repo.class(id);
            let name = top_level(func.decl.name@);
            &&& done.compiler.repo.is_class(id)
            &&& exists|slot: int| #[trigger]
                holds_function(side(made, qualifiers), slot, name, typ, qualifiers, false)
            &&& made.fields == c.repo.class(id).fields
            &&& made.extends == c.repo.class(id).extends
            &&& made.flags == c.repo.class(id).flags
            &&& other != id ==> done.compiler.repo.types.get(other) == c.repo.types.get(other)
            &&& done.compiler.errors == c.errors
            &&& done.names == names
            &&& func.body is None ==> done.res == Err::<Option<ModuleItemV>, CompileErrorV>(
                CompileErrorV::Unsupported(Unsupported::AnnotatedFuncWithNoBody, span),
            )
            &&& func.body is Some ==> (done.res matches Ok(
                Some(ModuleItemV::AnnotatedMethod(this, body, kind)),
            ) && {
                &&& this.id == id
                &&& this.args.len() == 0
                &&& kind == MethodInjection::Add
                &&& is_body(body, func, env)
                &&& body.is_static <==> qualifiers.contains(Qualifier::Static)
                &&& holds_function(
                    side(made, qualifiers),
                    body.slot,
                    name,
                    typ,
                    qualifiers,
                    false,
                )
            })
        }),
{
    reveal(preprocess_entry);
    let id = types.lookup(func.decl.annotations@[0].args@[0]->Ident_0@)->0;
    let (env, typ) = function_type(func, types, DictV::empty())->Ok_0;
    let flags = crate::flags::function_flags(func.decl.qualifiers@);
    let qualifiers = func.decl.qualifiers@;
    let class = c.repo.class(id);
    let name = top_level(func.decl.name@);
    law_function_qualifiers(qualifiers);
    law_added_function(side(class, qualifiers), name, signature(name, typ), typ, flags, 0);
    let made = with_method(class, func.decl.name@, typ, flags);
    c.repo.types.lemma_put(id, DataTypeV::Class(made));
    assert(c.repo.types.put(id, DataTypeV::Class(made)).get(id) == Some(DataTypeV::Class(made)));
    let slot = crate::repo::method_slot(class, func.decl.name@, typ, flags);
    assert(holds_function(side(made, qualifiers), slot, name, typ, qualifiers, false));
}

/// A function whose first annotation is none of those that change something, or is not given what
/// it needs, is refused at the annotation. One whose type stands for nothing is refused at itself.
pub proof fn law_refused_function(
    c: CompilerV,
    path: Seq<Seq<char>>,
    func: FunctionSource,
    types: TypeScopeV,
    names: NameScopeV,
)
    ensures
        ({
            let done = preprocess_entry(c, path, SourceEntry::Function(func), types, names);
            let ann = func.decl.annotations@[0];
            let is_named = ann.args@.len() == 1 && ann.args@[0] is Ident;
            let is_valid = match ann.kind {
                AnnotationKind::AddMethod
                | AnnotationKind::ReplaceMethod
                | AnnotationKind::WrapMethod => is_named,
                AnnotationKind::ReplaceGlobal => ann.args@.len() == 0,
                _ => false,
            };
            &&& function_type(func, types, DictV::empty()) matches Err(err) ==> done.res == Err::<
                Option<ModuleItemV>,
                CompileErrorV,
            >(CompileErrorV::TypeError(err, func.decl.span)) && done.compiler == c && done.names
                == names
            &&& function_type(func, types, DictV::empty()) is Ok && func.decl.annotations@.len() > 0
                && !is_valid ==> done.res == Err::<Option<ModuleItemV>, CompileErrorV>(
                CompileErrorV::Unsupported(Unsupported::InvalidAnnotation, ann.span),
            ) && done.compiler == c && done.names == names
        }),
{
    reveal(preprocess_entry);
}

/// The annotation by which a `let` adds a field, if it has one: the first of that kind.
pub proof fn law_field_annotation(annotations: Seq<Annotation>)
    ensures
        match field_annotation(annotations) {
            Some(ann) => exists|i: int|
                {
                    &&& 0 <= i < annotations.len()
                    &&& #[trigger] annotations[i] == ann
                    &&& ann.kind == AnnotationKind::AddField
                    &&& forall|j: int|
                        0 <= j < i ==> (#[trigger] annotations[j]).kind != AnnotationKind::AddField
                },
            None => forall|j: int|
                0 <= j < annotations.len() ==> (#[trigger] annotations[j]).kind
                    != AnnotationKind::AddField,
        },
    decreases annotations.len(),
{
    if annotations.len() > 0 {
        let rest = annotations.drop_first();
        law_field_annotation(rest);
        if annotations[0].kind == AnnotationKind::AddField {
            assert(annotations[0] == field_annotation(annotations)->0);
        } else {
            assert forall|j: int| 0 < j < annotations.len() implies #[trigger] annotations[j]
                == rest[j - 1] by {}
            if let Some(ann) = field_annotation(rest) {
                let i = choose|i: int|
                    {
                        &&& 0 <= i < rest.len()
                        &&& #[trigger] rest[i] == ann
                        &&& ann.kind == AnnotationKind::AddField
                        &&& forall|j: int|
                            0 <= j < i ==> (#[trigger] rest[j]).kind != AnnotationKind::AddField
                    };
                assert(annotations[i + 1] == ann);
                assert forall|j: int| 0 <= j < i + 1 implies (#[trigger] annotations[j]).kind
                    != AnnotationKind::AddField by {
                    if j > 0 {
                        assert(rest[j - 1].kind != AnnotationKind::AddField);
                    }
                }
            }
        }
    }
}

/// A `let` outside of a class adds a field to the class that it names, with the type and the
/// qualifiers that are written, and changes nothing else of it. What is wrong with the field is
/// reported at it. It is refused where it adds no field to a class that is known.
pub proof fn law_added_field(
    c: CompilerV,
    field: FieldSource,
    types: TypeScopeV,
    other: Seq<char>,
    id: Seq<char>,
)
    requires
        c.repo.types.wf(),
        c.repo.is_class(id) ==> class_wf(c.repo.class(id)),
    ensures
        ({
            let (done, res) = preprocess_let(c, field, types);
            let span = field.declaration.span;
            let name = field.declaration.name@;
            let was = c.repo.class(id);
            let now = done.repo.class(id);
            match field_annotation(field.declaration.annotations@) {
                None => done == c && res == Err::<Option<ModuleItemV>, CompileErrorV>(
                    CompileErrorV::Unsupported(Unsupported::GlobalLetBinding, span),
                ),
                Some(ann) => if !(ann.args@.len() == 1 && ann.args@[0] is Ident) {
                    done == c && res == Err::<Option<ModuleItemV>, CompileErrorV>(
                        CompileErrorV::Unsupported(Unsupported::InvalidAnnotation, span),
                    )
                } else {
                    let target = types.lookup(ann.args@[0]->Ident_0@);
                    &&& !(target is Some && c.repo.is_class(target->0)) ==> done == c && res
                        == Err::<Option<ModuleItemV>, CompileErrorV>(
                        CompileErrorV::TypeError(
                            TypeErrorV::UnresolvedType(ann.args@[0]->Ident_0@),
                            ann.args@[0]->Ident_1,
                        ),
                    )
                    &&& target == Some(id) && c.repo.is_class(id) ==> {
                        &&& res == Ok::<Option<ModuleItemV>, CompileErrorV>(None)
                        &&& done.repo.is_class(id)
                        &&& now.methods == was.methods
                        &&& now.statics == was.statics
                        &&& now.extends == was.extends
                        &&& now.flags == was.flags
                        &&& now.span == was.span
                        &&& now.type_vars == was.type_vars
                        &&& match resolve_type(
                            field.type_,
                            types,
                            DictV::empty(),
                            DictV::empty(),
                        ) {
                            Ok(typ) => {
                                &&& now.fields.get(name) is Some
                                &&& now.fields.get(name)->0.typ == typ
                                &&& now.fields.get(name)->0.flags.is_native
                                    <==> field.declaration.qualifiers@.contains(Qualifier::Native)
                                &&& now.fields.get(name)->0.flags.is_persistent
                                    <==> field.declaration.qualifiers@.contains(
                                    Qualifier::Persistent,
                                )
                                &&& other != name ==> now.fields.get(other) == was.fields.get(other)
                            },
                            Err(_) => now.fields == was.fields,
                        }
                        &&& done.errors == c.errors + (if field.declaration.qualifiers@.contains(
                            Qualifier::Native,
                        ) && !was.flags.is_native {
                            seq![CompileErrorV::Unsupported(Unsupported::NativeInNonNative, span)]
                        } else {
                            Seq::empty()
                        }) + (match resolve_type(
                            field.type_,
                            types,
                            DictV::empty(),
                            DictV::empty(),
                        ) {
                            Ok(_) => Seq::empty(),
                            Err(err) => seq![CompileErrorV::TypeError(err, span)],
                        })
                        &&& done.defined == c.defined
                        &&& done.queue == c.queue
                    }
                    &&& target == Some(id) && other != id ==> done.repo.types.get(other)
                        == c.repo.types.get(other)
                },
            }
        }),
{
    if let Some(ann) = field_annotation(field.declaration.annotations@) {
        if ann.args@.len() == 1 && ann.args@[0] is Ident {
            let target = types.lookup(ann.args@[0]->Ident_0@);
            if target == Some(id) && c.repo.is_class(id) {
                let was = c.repo.class(id);
                let made = add_field(
                    field,
                    types,
                    DictV::empty(),
                    MembersV { errors: c.errors, class: was, bodies: Seq::empty() },
                ).class;
                c.repo.types.lemma_put(id, DataTypeV::Class(made));
                let all = c.repo.types.put(id, DataTypeV::Class(made));
                assert(all.get(id) == Some(DataTypeV::Class(made)));
                law_field_qualifiers(field.declaration.qualifiers@);
                if let Ok(typ) = resolve_type(
                    field.type_,
                    types,
                    DictV::empty(),
                    DictV::empty(),
                ) {
                    let val = FieldV {
                        typ,
                        flags: field_flags(field.declaration.qualifiers@),
                    };
                    was.fields.lemma_put(field.declaration.name@, val);
                    let fields = was.fields.put(field.declaration.name@, val);
                    assert(fields.get(field.declaration.name@) == Some(val));
                }
            }
        }
    }
}

/// Whether an annotation that names a class names one that has been declared, or nothing at all.
pub open spec fn is_target_there(repo: RepoV, types: TypeScopeV, args: Seq<AnnotationArg>) -> bool {
    args.len() == 1 ==> (args[0] matches AnnotationArg::Ident(name, _) ==> (types.lookup(
        name@,
    ) matches Some(id) ==> repo.has(id)))
}

/// Declarations can always be looked at, but for three: a function whose first annotation changes a
/// class, and a `let` that adds a field to one, where the class is declared later, and a function
/// under a condition.
pub proof fn law_can_be_looked_at(repo: RepoV, entry: SourceEntry, types: TypeScopeV)
    ensures
        entry is Class || entry is Struct || entry is Enum ==> entry_ok(repo, entry, types),
        entry matches SourceEntry::Function(func) ==> {
            let ann = func.decl.annotations@[0];
            let has_type = function_type(func, types, DictV::empty()) is Ok;
            &&& func.decl.annotations@.len() == 0 || !has_type ==> entry_ok(repo, entry, types)
            &&& func.decl.annotations@.len() > 0 && has_type ==> {
                &&& ann.kind is ReplaceMethod || ann.kind is WrapMethod || ann.kind is AddMethod
                    ==> (entry_ok(repo, entry, types) <==> is_target_there(
                    repo,
                    types,
                    ann.args@,
                ))
                &&& ann.kind is If ==> (entry_ok(repo, entry, types) <==> ann.args@.len() != 1)
                &&& !(ann.kind is ReplaceMethod || ann.kind is WrapMethod || ann.kind is AddMethod
                    || ann.kind is If) ==> entry_ok(repo, entry, types)
            }
        },
        entry matches SourceEntry::GlobalLet(field) ==> {
            let found = field_annotation(field.declaration.annotations@);
            &&& found is None ==> entry_ok(repo, entry, types)
            &&& found matches Some(ann) ==> (entry_ok(repo, entry, types) <==> is_target_there(
                repo,
                types,
                ann.args@,
            ))
        },
{
}

} // verus!
