//! What each declaration of a module adds to the types and functions that are known, and what it
//! leaves to be compiled.
use vstd::prelude::*;

use crate::builders::EnumMember;
use crate::compiler::{
    body_of, CompileBody, CompileBodyV, Compiler, CompilerV, MethodInjection, ModuleItem,
    ModuleItemV,
};
use crate::dict::{views, DictV, NameDict};
use crate::error::{
    unresolved_type, CompileError, CompileErrorV, ErrorReporter, Span, TypeError, TypeErrorV,
    Unsupported,
};
use crate::flags::{
    class_flags, field_flags, function_flags, get_class_flags, get_field_flags, get_function_flags,
    ClassFlags, FieldFlags, FunctionFlags, Qualifier,
};
use crate::funcs::{
    opt_view, signature, top_level, FuncMap, FuncMapV, FuncParam, FuncParamV, FuncType, FuncTypeV,
    OverloadIndex, ScopedName, ScopedNameV, TypeVarV,
};
use crate::module_map::{generate_type_id, type_id};
use crate::repo::{
    iscriptable_id, method_func, method_slot, with_method, ClassType, ClassTypeV, DataType,
    DataTypeV, EnumType, Field, FieldV, RepoV,
};
use crate::scope::{
    add_global, instantiate_vars, resolve_param_type, resolve_type, scope_vars, var_scope, Global,
    GlobalV, NameScope, NameScopeV, TypeEnv, TypeScope, TypeScopeV,
};
use crate::source::{
    Annotation, AnnotationArg, AnnotationKind, ClassSource, EnumSource, FieldSource, FunctionSource,
    MemberSource, ParameterSource, SourceEntry,
};
use crate::types::{Parameterized, ParameterizedV, Prim, Type, TypeId, TypeV};

verus! {

/// The errors of a method with these flags in a class with these flags.
pub open spec fn method_errors(class: ClassFlags, method: FunctionFlags, span: Span) -> Seq<
    CompileErrorV,
> {
    report_if(
        method.is_native && !class.is_native,
        Unsupported::NativeInNonNative,
        span,
    ) + report_if(
        !method.is_static && class.is_struct,
        Unsupported::NonStaticStructMember,
        span,
    ) + report_if(
        method.is_final && !method.has_body && !method.is_native,
        Unsupported::FinalWithoutBody,
        span,
    ) + report_if(method.has_body && method.is_native, Unsupported::NativeWithBody, span)
}

/// The errors of a field with these flags in a class with these flags.
pub open spec fn field_errors(class: ClassFlags, field: FieldFlags, span: Span) -> Seq<
    CompileErrorV,
> {
    report_if(field.is_native && !class.is_native, Unsupported::NativeInNonNative, span)
}

/// One error if a condition holds, else none.
pub open spec fn report_if(cond: bool, what: Unsupported, span: Span) -> Seq<CompileErrorV> {
    if cond {
        seq![CompileErrorV::Unsupported(what, span)]
    } else {
        Seq::empty()
    }
}

/// The types that the first `n` parameters stand for.
pub open spec fn resolve_params(
    params: Seq<ParameterSource>,
    n: int,
    types: TypeScopeV,
    outer: DictV<Seq<char>, TypeV>,
    inner: DictV<Seq<char>, TypeV>,
) -> Result<Seq<FuncParamV>, TypeErrorV>
    decreases n,
{
    if n <= 0 {
        Ok(Seq::empty())
    } else {
        match resolve_params(params, n - 1, types, outer, inner) {
            Ok(done) => match resolve_type(params[n - 1].type_, types, outer, inner) {
                Ok(typ) => Ok(
                    done.push(
                        FuncParamV {
                            typ,
                            is_out: params[n - 1].qualifiers@.contains(Qualifier::Out),
                            is_poly: false,
                        },
                    ),
                ),
                Err(err) => Err(err),
            },
            Err(err) => Err(err),
        }
    }
}

/// The type that a function returns. Without a written one it returns nothing.
pub open spec fn resolve_ret(
    func: FunctionSource,
    types: TypeScopeV,
    outer: DictV<Seq<char>, TypeV>,
    inner: DictV<Seq<char>, TypeV>,
) -> Result<TypeV, TypeErrorV> {
    match func.type_ {
        Some(tn) => resolve_type(tn, types, outer, inner),
        None => Ok(TypeV::Prim(Prim::Void)),
    }
}

/// The type variables and the type of a function. Its own type variables hide those around it.
pub open spec fn function_type(
    func: FunctionSource,
    types: TypeScopeV,
    outer: DictV<Seq<char>, TypeV>,
) -> Result<(DictV<Seq<char>, TypeV>, FuncTypeV), TypeErrorV> {
    match instantiate_vars(
        func.tparams@,
        func.tparams@.len() as int,
        types,
        outer,
        DictV::empty(),
    ) {
        Ok(vars) => {
            let inner = var_scope(vars, vars.len() as int);
            match resolve_params(
                func.parameters@,
                func.parameters@.len() as int,
                types,
                outer,
                inner,
            ) {
                Ok(params) => match resolve_ret(func, types, outer, inner) {
                    Ok(ret) => Ok(
                        (inner, FuncTypeV { type_vars: vars, params, ret, is_ret_poly: false }),
                    ),
                    Err(err) => Err(err),
                },
                Err(err) => Err(err),
            }
        },
        Err(err) => Err(err),
    }
}

/// A class while its members are added: the errors so far, the class, and the bodies to compile.
pub struct MembersV {
    pub errors: Seq<CompileErrorV>,
    pub class: ClassTypeV,
    pub bodies: Seq<CompileBodyV>,
}

/// The flags of a method.
pub open spec fn method_flags(func: FunctionSource) -> FunctionFlags {
    FunctionFlags { has_body: func.body is Some, ..function_flags(func.decl.qualifiers@) }
}

/// A class with a method added. A method whose type cannot be resolved is left out.
pub open spec fn add_method(
    func: FunctionSource,
    types: TypeScopeV,
    vars: DictV<Seq<char>, TypeV>,
    at: MembersV,
) -> MembersV {
    let flags = method_flags(func);
    let errors = at.errors + method_errors(at.class.flags, flags, func.decl.span);
    match function_type(func, types, vars) {
        Ok((env, typ)) => MembersV {
            errors,
            class: with_method(at.class, func.decl.name@, typ, flags),
            bodies: match body_of(
                func,
                method_func(at.class, func.decl.name@, flags),
                method_slot(at.class, func.decl.name@, typ, flags),
                env,
                flags.is_static,
            ) {
                Some(body) => at.bodies.push(body),
                None => at.bodies,
            },
        },
        Err(err) => MembersV {
            errors: errors.push(CompileErrorV::TypeError(err, func.decl.span)),
            ..at
        },
    }
}

/// A class with a field added. A field whose type cannot be resolved is left out.
pub open spec fn add_field(
    field: FieldSource,
    types: TypeScopeV,
    vars: DictV<Seq<char>, TypeV>,
    at: MembersV,
) -> MembersV {
    let flags = field_flags(field.declaration.qualifiers@);
    let errors = at.errors + field_errors(at.class.flags, flags, field.declaration.span);
    match resolve_type(field.type_, types, DictV::empty(), vars) {
        Ok(typ) => MembersV {
            errors,
            class: ClassTypeV {
                fields: at.class.fields.put(field.declaration.name@, FieldV { typ, flags }),
                ..at.class
            },
            ..at
        },
        Err(err) => MembersV {
            errors: errors.push(CompileErrorV::TypeError(err, field.declaration.span)),
            ..at
        },
    }
}

/// A class with the first `n` members added.
pub open spec fn add_members(
    members: Seq<MemberSource>,
    n: int,
    types: TypeScopeV,
    vars: DictV<Seq<char>, TypeV>,
    start: MembersV,
) -> MembersV
    decreases n,
{
    if n <= 0 {
        start
    } else {
        let at = add_members(members, n - 1, types, vars, start);
        match members[n - 1] {
            MemberSource::Method(func) => add_method(func, types, vars, at),
            MemberSource::Field(field) => add_field(field, types, vars, at),
        }
    }
}

/// What a class extends. A class, but not a struct, extends `IScriptable` if nothing else is said.
pub open spec fn class_base(
    class: ClassSource,
    is_struct: bool,
    types: TypeScopeV,
    vars: DictV<Seq<char>, TypeV>,
) -> Result<Option<ParameterizedV>, TypeErrorV> {
    match class.base {
        Some(base) => match resolve_param_type(base, types, DictV::empty(), vars) {
            Ok(typ) => Ok(Some(typ)),
            Err(err) => Err(err),
        },
        None => Ok(
            if is_struct {
                None
            } else {
                Some(ParameterizedV { id: iscriptable_id(), args: Seq::empty() })
            },
        ),
    }
}

/// What preprocessing a declaration comes to: the compiler and the names afterwards, and what is
/// left to compile or the error.
pub struct EntryV {
    pub compiler: CompilerV,
    pub names: NameScopeV,
    pub res: Result<Option<ModuleItemV>, CompileErrorV>,
}

/// The type variables as arguments of their own class.
pub open spec fn var_args(vars: Seq<TypeVarV>) -> Seq<TypeV> {
    Seq::new(vars.len(), |i: int| TypeV::Var(vars[i].name))
}

/// A class or struct before any member is added.
pub open spec fn empty_class(
    class: ClassSource,
    is_struct: bool,
    vars: Seq<TypeVarV>,
    extends: Option<ParameterizedV>,
) -> ClassTypeV {
    ClassTypeV {
        type_vars: vars,
        extends,
        fields: DictV::empty(),
        methods: FuncMapV::empty(),
        statics: FuncMapV::empty(),
        flags: ClassFlags { is_struct, ..class_flags(class.qualifiers@) },
        span: Some(class.span),
    }
}

/// A class or struct is added with its members, unless its type parameters or its base cannot be
/// resolved.
pub open spec fn preprocess_class(
    c: CompilerV,
    path: Seq<Seq<char>>,
    class: ClassSource,
    is_struct: bool,
    types: TypeScopeV,
) -> (CompilerV, Result<Option<ModuleItemV>, CompileErrorV>) {
    let id = type_id(class.name@, path);
    match instantiate_vars(
        class.tparams@,
        class.tparams@.len() as int,
        types,
        DictV::empty(),
        DictV::empty(),
    ) {
        Ok(vars) => {
            let scope = var_scope(vars, vars.len() as int);
            match class_base(class, is_struct, types, scope) {
                Ok(extends) => {
                    let start = MembersV {
                        errors: c.errors,
                        class: empty_class(class, is_struct, vars, extends),
                        bodies: Seq::empty(),
                    };
                    let done = add_members(
                        class.members@,
                        class.members@.len() as int,
                        types,
                        scope,
                        start,
                    );
                    (
                        CompilerV {
                            repo: c.repo.put_class(id, done.class),
                            defined: c.defined.push(id),
                            errors: done.errors,
                            ..c
                        },
                        Ok(
                            Some(
                                ModuleItemV::Class(
                                    ParameterizedV { id, args: var_args(vars) },
                                    scope,
                                    done.bodies,
                                ),
                            ),
                        ),
                    )
                },
                Err(err) => (c, Err(CompileErrorV::TypeError(err, class.span))),
            }
        },
        Err(err) => (c, Err(CompileErrorV::TypeError(err, class.span))),
    }
}

/// The first `n` members of an enum by name.
pub open spec fn enum_members(members: Seq<EnumMember>, n: int) -> DictV<Seq<char>, i64>
    decreases n,
{
    if n <= 0 {
        DictV::empty()
    } else {
        enum_members(members, n - 1).put(members[n - 1].name@, members[n - 1].value)
    }
}

/// An enum is added with its members.
pub open spec fn preprocess_enum(c: CompilerV, path: Seq<Seq<char>>, source: EnumSource) -> CompilerV {
    let id = type_id(source.name@, path);
    CompilerV {
        repo: c.repo.put(
            id,
            DataTypeV::Enum(enum_members(source.members@, source.members@.len() as int)),
        ),
        defined: c.defined.push(id),
        ..c
    }
}

/// The identifier that is the only argument of an annotation, if it has just that.
pub open spec fn only_ident(args: Seq<AnnotationArg>) -> Option<(Seq<char>, Span)> {
    if args.len() == 1 {
        match args[0] {
            AnnotationArg::Ident(name, span) => Some((name@, span)),
            AnnotationArg::Other(_) => None,
        }
    } else {
        None
    }
}

/// The class that an annotation names.
pub open spec fn annotation_target(
    repo: RepoV,
    types: TypeScopeV,
    name: Seq<char>,
    span: Span,
) -> Result<Seq<char>, CompileErrorV> {
    match types.lookup(name) {
        Some(id) => if repo.is_class(id) {
            Ok(id)
        } else {
            Err(unresolved_type(name, span))
        },
        None => Err(unresolved_type(name, span)),
    }
}

/// Whether the type that an annotation names has been declared, where it names one.
pub open spec fn target_declared(repo: RepoV, types: TypeScopeV, name: Seq<char>) -> bool {
    match types.lookup(name) {
        Some(id) => repo.has(id),
        None => true,
    }
}

/// The place of the only function of a name, if there is exactly one.
pub open spec fn the_only(funcs: FuncMapV, name: ScopedNameV) -> Option<int> {
    if exists|slot: int| funcs.is_only(slot, name) {
        Some(choose|slot: int| funcs.is_only(slot, name))
    } else {
        None
    }
}

/// What is left to compile of a function that has to have a body.
pub open spec fn owed_body(body: Option<CompileBodyV>, span: Span) -> Result<
    CompileBodyV,
    CompileErrorV,
> {
    match body {
        Some(body) => Ok(body),
        None => Err(CompileErrorV::Unsupported(Unsupported::AnnotatedFuncWithNoBody, span)),
    }
}

/// A method for a class that is declared elsewhere, without type arguments.
pub open spec fn annotated(
    id: Seq<char>,
    body: Result<CompileBodyV, CompileErrorV>,
    kind: MethodInjection,
) -> Result<Option<ModuleItemV>, CompileErrorV> {
    match body {
        Ok(body) => Ok(
            Some(
                ModuleItemV::AnnotatedMethod(
                    ParameterizedV { id, args: Seq::empty() },
                    body,
                    kind,
                ),
            ),
        ),
        Err(err) => Err(err),
    }
}

/// A function that replaces or wraps the only method of its name in a class.
pub open spec fn change_method(
    c: CompilerV,
    func: FunctionSource,
    env: DictV<Seq<char>, TypeV>,
    types: TypeScopeV,
    name: Seq<char>,
    span: Span,
    kind: MethodInjection,
) -> Result<Option<ModuleItemV>, CompileErrorV> {
    match annotation_target(c.repo, types, name, span) {
        Ok(id) => {
            let methods = c.repo.class(id).methods;
            match the_only(methods, top_level(func.decl.name@)) {
                Some(slot) => annotated(
                    id,
                    owed_body(body_of(func, methods.entries[slot].func, slot, env, false), span),
                    kind,
                ),
                None => Err(CompileErrorV::UnresolvedFunction(func.decl.name@, span)),
            }
        },
        Err(err) => Err(err),
    }
}

/// A function that becomes a method of a class. The class has it even if the body is missing.
pub open spec fn inject_method(
    c: CompilerV,
    func: FunctionSource,
    env: DictV<Seq<char>, TypeV>,
    typ: FuncTypeV,
    types: TypeScopeV,
    name: Seq<char>,
    span: Span,
) -> (CompilerV, Result<Option<ModuleItemV>, CompileErrorV>) {
    match annotation_target(c.repo, types, name, span) {
        Ok(id) => {
            let flags = function_flags(func.decl.qualifiers@);
            let class = c.repo.class(id);
            (
                CompilerV {
                    repo: c.repo.put_class(
                        id,
                        with_method(class, func.decl.name@, typ, flags),
                    ),
                    ..c
                },
                annotated(
                    id,
                    owed_body(
                        body_of(
                            func,
                            method_func(class, func.decl.name@, flags),
                            method_slot(class, func.decl.name@, typ, flags),
                            env,
                            false,
                        ),
                        span,
                    ),
                    MethodInjection::Add,
                ),
            )
        },
        Err(err) => (c, Err(err)),
    }
}

/// A function that replaces the only top-level function of its name.
pub open spec fn replace_global(
    c: CompilerV,
    func: FunctionSource,
    env: DictV<Seq<char>, TypeV>,
) -> Result<Option<ModuleItemV>, CompileErrorV> {
    let globals = c.repo.globals;
    match the_only(globals, top_level(func.decl.name@)) {
        Some(slot) => match owed_body(
            body_of(func, globals.entries[slot].func, slot, env, true),
            func.decl.span,
        ) {
            Ok(body) => Ok(Some(ModuleItemV::Global(body))),
            Err(err) => Err(err),
        },
        None => Err(CompileErrorV::UnresolvedFunction(func.decl.name@, func.decl.span)),
    }
}

/// What a function name stands for: an intrinsic if there is one of that name.
pub open spec fn global_named(c: CompilerV, name: Seq<char>, func: int) -> GlobalV {
    if c.intrinsics.has(name) {
        GlobalV::Intrinsic(func, c.intrinsics.slot(name))
    } else {
        GlobalV::Func(func)
    }
}

/// A function without annotations is added to the global functions, and its name to the names.
pub open spec fn declare_function(
    c: CompilerV,
    path: Seq<Seq<char>>,
    func: FunctionSource,
    env: DictV<Seq<char>, TypeV>,
    typ: FuncTypeV,
    names: NameScopeV,
) -> EntryV {
    let name = ScopedNameV { path, name: func.decl.name@ };
    let flags = function_flags(func.decl.qualifiers@);
    let index = c.repo.globals.func_of(name);
    let slot = c.repo.globals.slot_for(name, signature(name, typ));
    EntryV {
        compiler: CompilerV {
            repo: RepoV { globals: c.repo.globals.add(name, typ, flags), ..c.repo },
            ..c
        },
        names: add_global(names, func.decl.name@, global_named(c, func.decl.name@, index)),
        res: Ok(
            match body_of(func, index, slot, env, true) {
                Some(body) => Some(ModuleItemV::Global(body)),
                None => None,
            },
        ),
    }
}

/// What the first annotation of a function makes of it. No other annotation counts.
pub open spec fn apply_annotation(
    c: CompilerV,
    func: FunctionSource,
    ann: Annotation,
    env: DictV<Seq<char>, TypeV>,
    typ: FuncTypeV,
    types: TypeScopeV,
) -> (CompilerV, Result<Option<ModuleItemV>, CompileErrorV>) {
    let invalid = Err(CompileErrorV::Unsupported(Unsupported::InvalidAnnotation, ann.span));
    match only_ident(ann.args@) {
        Some((name, span)) => match ann.kind {
            AnnotationKind::ReplaceMethod => (
                c,
                change_method(c, func, env, types, name, span, MethodInjection::Replace),
            ),
            AnnotationKind::WrapMethod => (
                c,
                change_method(c, func, env, types, name, span, MethodInjection::Wrap),
            ),
            AnnotationKind::AddMethod => inject_method(c, func, env, typ, types, name, span),
            _ => (c, invalid),
        },
        None => if ann.kind == AnnotationKind::ReplaceGlobal && ann.args@.len() == 0 {
            (c, replace_global(c, func, env))
        } else {
            (c, invalid)
        },
    }
}

/// What a function declaration comes to.
pub open spec fn preprocess_func(
    c: CompilerV,
    path: Seq<Seq<char>>,
    func: FunctionSource,
    types: TypeScopeV,
    names: NameScopeV,
) -> EntryV {
    match function_type(func, types, DictV::empty()) {
        Ok((env, typ)) => if func.decl.annotations@.len() > 0 {
            let (compiler, res) = apply_annotation(
                c,
                func,
                func.decl.annotations@[0],
                env,
                typ,
                types,
            );
            EntryV { compiler, names, res }
        } else {
            declare_function(c, path, func, env, typ, names)
        },
        Err(err) => EntryV {
            compiler: c,
            names,
            res: Err(CompileErrorV::TypeError(err, func.decl.span)),
        },
    }
}

/// The first annotation that adds a field.
pub open spec fn field_annotation(annotations: Seq<Annotation>) -> Option<Annotation>
    decreases annotations.len(),
{
    if annotations.len() == 0 {
        None
    } else if annotations[0].kind == AnnotationKind::AddField {
        Some(annotations[0])
    } else {
        field_annotation(annotations.drop_first())
    }
}

/// A field that becomes a field of a class.
pub open spec fn inject_field(
    c: CompilerV,
    field: FieldSource,
    types: TypeScopeV,
    name: Seq<char>,
    span: Span,
) -> (CompilerV, Result<Option<ModuleItemV>, CompileErrorV>) {
    match annotation_target(c.repo, types, name, span) {
        Ok(id) => {
            let done = add_field(
                field,
                types,
                DictV::empty(),
                MembersV { errors: c.errors, class: c.repo.class(id), bodies: Seq::empty() },
            );
            (
                CompilerV {
                    repo: c.repo.put_class(id, done.class),
                    errors: done.errors,
                    ..c
                },
                Ok(None),
            )
        },
        Err(err) => (c, Err(err)),
    }
}

/// What a `let` outside of a class comes to. It has to add a field to a class.
pub open spec fn preprocess_let(c: CompilerV, field: FieldSource, types: TypeScopeV) -> (
    CompilerV,
    Result<Option<ModuleItemV>, CompileErrorV>,
) {
    let span = field.declaration.span;
    match field_annotation(field.declaration.annotations@) {
        Some(ann) => match only_ident(ann.args@) {
            Some((name, at)) => inject_field(c, field, types, name, at),
            None => (c, Err(CompileErrorV::Unsupported(Unsupported::InvalidAnnotation, span))),
        },
        None => (c, Err(CompileErrorV::Unsupported(Unsupported::GlobalLetBinding, span))),
    }
}

/// What a declaration comes to.
#[verifier::opaque]
pub open spec fn preprocess_entry(
    c: CompilerV,
    path: Seq<Seq<char>>,
    entry: SourceEntry,
    types: TypeScopeV,
    names: NameScopeV,
) -> EntryV {
    match entry {
        SourceEntry::Class(class) => {
            let (compiler, res) = preprocess_class(c, path, class, false, types);
            EntryV { compiler, names, res }
        },
        SourceEntry::Struct(class) => {
            let (compiler, res) = preprocess_class(c, path, class, true, types);
            EntryV { compiler, names, res }
        },
        SourceEntry::Enum(source) => EntryV {
            compiler: preprocess_enum(c, path, source),
            names,
            res: Ok(None),
        },
        SourceEntry::Function(func) => preprocess_func(c, path, func, types, names),
        SourceEntry::GlobalLet(field) => {
            let (compiler, res) = preprocess_let(c, field, types);
            EntryV { compiler, names, res }
        },
    }
}

/// Whether a declaration can be preprocessed: a class that it changes has been declared before it,
/// and it is not compiled under a condition.
pub open spec fn entry_ok(repo: RepoV, entry: SourceEntry, types: TypeScopeV) -> bool {
    match entry {
        SourceEntry::Function(func) => {
            function_type(func, types, DictV::empty()) is Ok && func.decl.annotations@.len() > 0
                ==> {
                let ann = func.decl.annotations@[0];
                match ann.kind {
                    AnnotationKind::ReplaceMethod
                    | AnnotationKind::WrapMethod
                    | AnnotationKind::AddMethod => match only_ident(ann.args@) {
                        Some((name, _)) => target_declared(repo, types, name),
                        None => true,
                    },
                    AnnotationKind::If => ann.args@.len() != 1,
                    _ => true,
                }
            }
        },
        SourceEntry::GlobalLet(field) => match field_annotation(field.declaration.annotations@) {
            Some(ann) => match only_ident(ann.args@) {
                Some((name, _)) => target_declared(repo, types, name),
                None => true,
            },
            None => true,
        },
        _ => true,
    }
}

/// The model of a preprocessed declaration.
pub open spec fn item_view(res: Result<Option<ModuleItem>, CompileError>) -> Result<
    Option<ModuleItemV>,
    CompileErrorV,
> {
    match res {
        Ok(item) => Ok(opt_view(item)),
        Err(err) => Err(err@),
    }
}

proof fn lemma_params_err(
    params: Seq<ParameterSource>,
    n: int,
    m: int,
    types: TypeScopeV,
    outer: DictV<Seq<char>, TypeV>,
    inner: DictV<Seq<char>, TypeV>,
)
    requires
        0 <= n <= m,
        resolve_params(params, n, types, outer, inner) is Err,
    ensures
        resolve_params(params, m, types, outer, inner) == resolve_params(
            params,
            n,
            types,
            outer,
            inner,
        ),
    decreases m,
{
    if n < m {
        lemma_params_err(params, n, m - 1, types, outer, inner);
    }
}

/// The types that parameters stand for.
fn resolve_func_params(params: &Vec<ParameterSource>, env: &TypeEnv) -> (res: Result<
    Vec<FuncParam>,
    TypeError,
>)
    ensures
        match res {
            Ok(done) => resolve_params(
                params@,
                params@.len() as int,
                env.types@,
                env.outer@,
                env.inner@,
            ) == (Ok::<Seq<FuncParamV>, TypeErrorV>(views(done@))),
            Err(err) => resolve_params(
                params@,
                params@.len() as int,
                env.types@,
                env.outer@,
                env.inner@,
            ) == (Err::<Seq<FuncParamV>, TypeErrorV>(err@)),
        },
{
    broadcast use crate::dict::group_views;

    let mut done: Vec<FuncParam> = Vec::new();
    let mut i: usize = 0;
    while i < params.len()
        invariant
            i <= params.len(),
            resolve_params(params@, i as int, env.types@, env.outer@, env.inner@) == (Ok::<
                Seq<FuncParamV>,
                TypeErrorV,
            >(views(done@))),
        decreases params.len() - i,
    {
        match env.resolve_type(&params[i].type_) {
            Ok(typ) => {
                let ghost was = done@;
                let param = FuncParam::custom(typ, params[i].qualifiers.contain(Qualifier::Out));
                done.push(param);
                assert(views(done@) =~= views(was).push(param@));
            },
            Err(err) => {
                proof {
                    lemma_params_err(
                        params@,
                        i + 1,
                        params@.len() as int,
                        env.types@,
                        env.outer@,
                        env.inner@,
                    );
                }
                return Err(err);
            },
        }
        i += 1;
    }
    Ok(done)
}

impl Compiler {
    /// The type variables and the type of a function.
    fn preprocess_function(func: &FunctionSource, types: &TypeScope, vars: &NameDict<Type>) -> (res:
        Result<(NameDict<Type>, FuncType), CompileError>)
        ensures
            match res {
                Ok((env, typ)) => function_type(*func, types@, vars@) == (Ok::<
                    (DictV<Seq<char>, TypeV>, FuncTypeV),
                    TypeErrorV,
                >((env@, typ@))),
                Err(err) => function_type(*func, types@, vars@) matches Err(e) && err@
                    == CompileErrorV::TypeError(e, func.decl.span),
            },
    {
        let span = func.decl.span;
        let none: NameDict<Type> = NameDict::new();
        let env = TypeEnv { types, outer: vars, inner: &none };
        let type_vars = match env.instantiate_vars(&func.tparams) {
            Ok(type_vars) => type_vars,
            Err(err) => {
                return Err(CompileError::TypeError(err, span));
            },
        };
        let local_vars = scope_vars(&type_vars);
        let env = TypeEnv { types, outer: vars, inner: &local_vars };
        let params = match resolve_func_params(&func.parameters, &env) {
            Ok(params) => params,
            Err(err) => {
                return Err(CompileError::TypeError(err, span));
            },
        };
        let ret = match &func.type_ {
            Some(tn) => match env.resolve_type(tn) {
                Ok(ret) => ret,
                Err(err) => {
                    return Err(CompileError::TypeError(err, span));
                },
            },
            None => Type::Prim(Prim::Void),
        };
        Ok((local_vars, FuncType::new(type_vars, params, ret)))
    }
}

impl Compiler {
    fn validate_method(
        reporter: &mut ErrorReporter,
        type_flags: ClassFlags,
        method_flags: FunctionFlags,
        span: Span,
    )
        ensures
            final(reporter)@ == old(reporter)@ + method_errors(type_flags, method_flags, span),
    {
        if method_flags.is_native && !type_flags.is_native {
            reporter.report(CompileError::Unsupported(Unsupported::NativeInNonNative, span));
        }
        if !method_flags.is_static && type_flags.is_struct {
            reporter.report(CompileError::Unsupported(Unsupported::NonStaticStructMember, span));
        }
        if method_flags.is_final && !method_flags.has_body && !method_flags.is_native {
            reporter.report(CompileError::Unsupported(Unsupported::FinalWithoutBody, span));
        }
        if method_flags.has_body && method_flags.is_native {
            reporter.report(CompileError::Unsupported(Unsupported::NativeWithBody, span));
        }
        assert(reporter@ =~= old(reporter)@ + method_errors(type_flags, method_flags, span));
    }
}

impl Compiler {
    fn validate_field(
        reporter: &mut ErrorReporter,
        type_flags: ClassFlags,
        field_flags: FieldFlags,
        span: Span,
    )
        ensures
            final(reporter)@ == old(reporter)@ + field_errors(type_flags, field_flags, span),
    {
        if field_flags.is_native && !type_flags.is_native {
            reporter.report(CompileError::Unsupported(Unsupported::NativeInNonNative, span));
        }
        assert(reporter@ =~= old(reporter)@ + field_errors(type_flags, field_flags, span));
    }
}

/// Adds a method to a class, and its body to the bodies.
fn preprocess_method(
    reporter: &mut ErrorReporter,
    class: &mut ClassType,
    bodies: &mut Vec<CompileBody>,
    method: FunctionSource,
    types: &TypeScope,
    vars: &NameDict<Type>,
)
    ensures
        (MembersV {
            errors: final(reporter)@,
            class: final(class)@,
            bodies: views(final(bodies)@),
        }) == add_method(
            method,
            types@,
            vars@,
            (MembersV {
                errors: old(reporter)@,
                class: old(class)@,
                bodies: views(old(bodies)@),
            }),
        ),
{
    broadcast use crate::dict::group_views;

    let flags = FunctionFlags {
        has_body: method.body.is_some(),
        ..get_function_flags(&method.decl.qualifiers)
    };
    Compiler::validate_method(reporter, class.flags, flags, method.decl.span);
    let res = Compiler::preprocess_function(&method, types, vars);
    match reporter.unwrap_err(res) {
        Some((env, typ)) => {
            let index = class.add_method(&method.decl.name, typ, flags);
            match CompileBody::new(method, index, env, flags.is_static) {
                Some(body) => {
                    bodies.push(body);
                },
                None => {},
            }
        },
        None => {},
    }
}

/// Adds a field to a class.
fn preprocess_field(
    reporter: &mut ErrorReporter,
    class: &mut ClassType,
    field: FieldSource,
    types: &TypeScope,
    vars: &NameDict<Type>,
)
    ensures
        final(reporter)@ == add_field(
            field,
            types@,
            vars@,
            (MembersV {
                errors: old(reporter)@,
                class: old(class)@,
                bodies: Seq::empty(),
            }),
        ).errors,
        final(class)@ == add_field(
            field,
            types@,
            vars@,
            (MembersV {
                errors: old(reporter)@,
                class: old(class)@,
                bodies: Seq::empty(),
            }),
        ).class,
{
    let span = field.declaration.span;
    let flags = get_field_flags(&field.declaration.qualifiers);
    Compiler::validate_field(reporter, class.flags, flags, span);
    let none: NameDict<Type> = NameDict::new();
    let env = TypeEnv { types, outer: &none, inner: vars };
    match env.resolve_type(&field.type_) {
        Ok(typ) => {
            class.fields.insert(field.declaration.name, Field::new(typ, flags));
        },
        Err(err) => {
            reporter.report(CompileError::TypeError(err, span));
        },
    }
}

/// Adds all members of a class.
fn preprocess_members(
    reporter: &mut ErrorReporter,
    class: &mut ClassType,
    members: Vec<MemberSource>,
    types: &TypeScope,
    vars: &NameDict<Type>,
) -> (bodies: Vec<CompileBody>)
    ensures
        (MembersV {
            errors: final(reporter)@,
            class: final(class)@,
            bodies: views(bodies@),
        }) == add_members(
            members@,
            members@.len() as int,
            types@,
            vars@,
            (MembersV {
                errors: old(reporter)@,
                class: old(class)@,
                bodies: Seq::empty(),
            }),
        ),
{
    broadcast use crate::dict::group_views;

    let ghost all = members@;
    let ghost start = MembersV { errors: reporter@, class: class@, bodies: Seq::empty() };
    let mut bodies: Vec<CompileBody> = Vec::new();
    for member in iter: members
        invariant
            iter.seq() == all,
            (MembersV { errors: reporter@, class: class@, bodies: views(bodies@) }) == add_members(
                all,
                iter.index() as int,
                types@,
                vars@,
                start,
            ),
    {
        match member {
            MemberSource::Method(method) => {
                preprocess_method(reporter, class, &mut bodies, method, types, vars);
            },
            MemberSource::Field(field) => {
                preprocess_field(reporter, class, field, types, vars);
            },
        }
    }
    bodies
}

/// The members of an enum by name.
fn collect_members(members: Vec<EnumMember>) -> (res: EnumType)
    ensures
        res@ == enum_members(members@, members@.len() as int),
{
    let ghost all = members@;
    let mut res: NameDict<i64> = NameDict::new();
    for member in iter: members
        invariant
            iter.seq() == all,
            res@ == enum_members(all, iter.index() as int),
    {
        res.insert(member.name, member.value);
    }
    EnumType { members: res }
}

/// The place of the first annotation that adds a field.
fn find_field_annotation(annotations: &Vec<Annotation>) -> (res: Option<usize>)
    ensures
        match res {
            Some(i) => i < annotations@.len() && field_annotation(annotations@) == Some(
                annotations@[i as int],
            ),
            None => field_annotation(annotations@) is None,
        },
{
    let mut i: usize = 0;
    assert(annotations@.skip(0) =~= annotations@);
    while i < annotations.len()
        invariant
            i <= annotations.len(),
            field_annotation(annotations@) == field_annotation(annotations@.skip(i as int)),
        decreases annotations.len() - i,
    {
        assert(annotations@.skip(i as int)[0] == annotations@[i as int]);
        if annotations[i].kind == AnnotationKind::AddField {
            return Some(i);
        }
        assert(annotations@.skip(i as int).drop_first() =~= annotations@.skip(i + 1));
        i += 1;
    }
    None
}

/// The identifier that is the only argument of an annotation, if it has just that.
fn single_ident(ann: &Annotation) -> (res: Option<(String, Span)>)
    ensures
        match res {
            Some((name, span)) => only_ident(ann.args@) == Some((name@, span)),
            None => only_ident(ann.args@) is None,
        },
{
    if ann.args.len() != 1 {
        return None;
    }
    match &ann.args[0] {
        AnnotationArg::Ident(name, span) => Some((name.clone(), *span)),
        AnnotationArg::Other(_) => None,
    }
}

proof fn lemma_the_only(funcs: FuncMapV, name: ScopedNameV, slot: int)
    requires
        funcs.is_only(slot, name),
    ensures
        the_only(funcs, name) == Some(slot),
{
    let other = choose|i: int| funcs.is_only(i, name);
    assert(funcs.is_only(other, name));
    assert(funcs.is_named(other, name));
}

impl Compiler {
    /// The class that an annotation names.
    fn locate_annotation_target(&self, name: &String, types: &TypeScope, span: Span) -> (res: Result<
        TypeId,
        CompileError,
    >)
        requires
            target_declared(self@.repo, types@, name@),
        ensures
            match res {
                Ok(id) => annotation_target(self@.repo, types@, name@, span) == (Ok::<
                    Seq<char>,
                    CompileErrorV,
                >(id@)),
                Err(err) => annotation_target(self@.repo, types@, name@, span) == (Err::<
                    Seq<char>,
                    CompileErrorV,
                >(err@)),
            },
    {
        match types.get(name) {
            Some(id) => match self.repo.get_class(id) {
                Some(_) => {
                    return Ok(id.clone());
                },
                None => {},
            },
            None => {},
        }
        Err(CompileError::TypeError(TypeError::UnresolvedType(name.clone()), span))
    }

    /// The only method of a name in the class that an annotation names.
    fn locate_annotation_method(
        &self,
        target: &String,
        name: &String,
        types: &TypeScope,
        span: Span,
    ) -> (res: Result<(TypeId, OverloadIndex), CompileError>)
        requires
            target_declared(self@.repo, types@, target@),
        ensures
            match annotation_target(self@.repo, types@, target@, span) {
                Ok(id) => {
                    let methods = self@.repo.class(id).methods;
                    match the_only(methods, top_level(name@)) {
                        Some(slot) => res matches Ok((found, index)) && found@ == id && index.slot
                            == slot && index.func == methods.entries[slot].func,
                        None => res matches Err(err) && err@ == CompileErrorV::UnresolvedFunction(
                            name@,
                            span,
                        ),
                    }
                },
                Err(e) => res matches Err(err) && err@ == e,
            },
    {
        let id = match self.locate_annotation_target(target, types, span) {
            Ok(id) => id,
            Err(err) => {
                return Err(err);
            },
        };
        let class = self.repo.get_class(&id).unwrap();
        let found = class.methods.exactly_one(&ScopedName::top_level(name.clone()));
        match found {
            Some(index) => {
                proof {
                    lemma_the_only(class.methods@, top_level(name@), index.slot as int);
                }
                Ok((id, index))
            },
            None => Err(CompileError::UnresolvedFunction(name.clone(), span)),
        }
    }

    /// Adds a class or struct.
    fn preprocess_class(
        &mut self,
        path: &Vec<String>,
        class: ClassSource,
        is_struct: bool,
        types: &TypeScope,
    ) -> (res: Result<Option<ModuleItem>, CompileError>)
        ensures
            (final(self)@, item_view(res)) == preprocess_class(
                old(self)@,
                views(path@),
                class,
                is_struct,
                types@,
            ),
    {
        broadcast use crate::dict::group_views;

        let ClassSource { qualifiers, name, tparams, base, members, span } = class;
        let id = generate_type_id(&name, path);
        let none: NameDict<Type> = NameDict::new();
        let env = TypeEnv { types, outer: &none, inner: &none };
        let class_vars = match env.instantiate_vars(&tparams) {
            Ok(class_vars) => class_vars,
            Err(err) => {
                return Err(CompileError::TypeError(err, span));
            },
        };
        let type_vars = scope_vars(&class_vars);
        let mut this_args: Vec<Type> = Vec::new();
        let mut i: usize = 0;
        while i < class_vars.len()
            invariant
                i <= class_vars.len(),
                this_args.len() == i,
                forall|j: int|
                    0 <= j < i ==> #[trigger] this_args@[j]@ == TypeV::Var(
                        views(class_vars@)[j].name,
                    ),
            decreases class_vars.len() - i,
        {
            this_args.push(Type::Var(class_vars[i].name.clone()));
            i += 1;
        }
        assert(views(this_args@) =~= var_args(views(class_vars@)));
        let extends = match &base {
            Some(base) => {
                let env = TypeEnv { types, outer: &none, inner: &type_vars };
                match env.resolve_param_type(base) {
                    Ok(typ) => Some(typ),
                    Err(err) => {
                        return Err(CompileError::TypeError(err, span));
                    },
                }
            },
            None => if is_struct {
                None
            } else {
                Some(Parameterized::without_args("IScriptable".to_owned()))
            },
        };
        let flags = ClassFlags { is_struct, ..get_class_flags(&qualifiers) };
        let mut data_type = ClassType {
            type_vars: class_vars,
            extends,
            fields: NameDict::new(),
            methods: FuncMap::new(),
            statics: FuncMap::new(),
            flags,
            span: Some(span),
        };
        let bodies = preprocess_members(
            &mut self.reporter,
            &mut data_type,
            members,
            types,
            &type_vars,
        );
        self.repo.add_type(id.clone(), DataType::Class(data_type));
        self.defined_types.push(id.clone());
        Ok(Some(ModuleItem::Class(Parameterized { id, args: this_args }, type_vars, bodies)))
    }

    /// Adds an enum.
    fn preprocess_enum(&mut self, path: &Vec<String>, source: EnumSource)
        ensures
            final(self)@ == preprocess_enum(old(self)@, views(path@), source),
    {
        broadcast use crate::dict::group_views;

        let id = generate_type_id(&source.name, path);
        let typ = collect_members(source.members);
        self.repo.add_type(id.clone(), DataType::Enum(typ));
        self.defined_types.push(id);
    }

    /// Lets a function replace or wrap the only method of its name in a class.
    fn change_method(
        &self,
        func: FunctionSource,
        env: NameDict<Type>,
        types: &TypeScope,
        target: &String,
        span: Span,
        kind: MethodInjection,
    ) -> (res: Result<Option<ModuleItem>, CompileError>)
        requires
            target_declared(self@.repo, types@, target@),
        ensures
            item_view(res) == change_method(self@, func, env@, types@, target@, span, kind),
    {
        match self.locate_annotation_method(target, &func.decl.name, types, span) {
            Ok((id, index)) => match CompileBody::new(func, index, env, false) {
                Some(body) => Ok(
                    Some(ModuleItem::AnnotatedMethod(Parameterized::without_args(id), body, kind)),
                ),
                None => Err(CompileError::Unsupported(Unsupported::AnnotatedFuncWithNoBody, span)),
            },
            Err(err) => Err(err),
        }
    }

    /// Lets a function become a method of a class.
    fn inject_method(
        &mut self,
        func: FunctionSource,
        env: NameDict<Type>,
        typ: FuncType,
        types: &TypeScope,
        target: &String,
        span: Span,
    ) -> (res: Result<Option<ModuleItem>, CompileError>)
        requires
            target_declared(old(self)@.repo, types@, target@),
        ensures
            (final(self)@, item_view(res)) == inject_method(
                old(self)@,
                func,
                env@,
                typ@,
                types@,
                target@,
                span,
            ),
    {
        let id = match self.locate_annotation_target(target, types, span) {
            Ok(id) => id,
            Err(err) => {
                return Err(err);
            },
        };
        let flags = get_function_flags(&func.decl.qualifiers);
        let index = self.repo.add_method(&id, &func.decl.name, typ, flags);
        match CompileBody::new(func, index, env, false) {
            Some(body) => Ok(
                Some(
                    ModuleItem::AnnotatedMethod(
                        Parameterized::without_args(id),
                        body,
                        MethodInjection::Add,
                    ),
                ),
            ),
            None => Err(CompileError::Unsupported(Unsupported::AnnotatedFuncWithNoBody, span)),
        }
    }

    /// Lets a function replace the only top-level function of its name.
    fn replace_global(&self, func: FunctionSource, env: NameDict<Type>) -> (res: Result<
        Option<ModuleItem>,
        CompileError,
    >)
        ensures
            item_view(res) == replace_global(self@, func, env@),
    {
        let span = func.decl.span;
        let name = ScopedName::top_level(func.decl.name.clone());
        match self.repo.globals.exactly_one(&name) {
            Some(index) => {
                proof {
                    lemma_the_only(self@.repo.globals, name@, index.slot as int);
                }
                match CompileBody::new(func, index, env, true) {
                    Some(body) => Ok(Some(ModuleItem::Global(body))),
                    None => Err(
                        CompileError::Unsupported(Unsupported::AnnotatedFuncWithNoBody, span),
                    ),
                }
            },
            None => Err(CompileError::UnresolvedFunction(name.name, span)),
        }
    }

    /// Adds a function without annotations to the global functions.
    fn declare_function(
        &mut self,
        path: &Vec<String>,
        func: FunctionSource,
        env: NameDict<Type>,
        typ: FuncType,
        names: &mut NameScope,
    ) -> (res: Result<Option<ModuleItem>, CompileError>)
        ensures
            (EntryV {
                compiler: final(self)@,
                names: final(names)@,
                res: item_view(res),
            }) == declare_function(old(self)@, views(path@), func, env@, typ@, old(names)@),
    {
        let flags = get_function_flags(&func.decl.qualifiers);
        let name = ScopedName::new(&func.decl.name, path);
        let index = self.repo.globals.add(name, typ, flags);
        let global = match self.intrinsics.find(&func.decl.name) {
            Some(intrinsic) => Global::Intrinsic(index.func, intrinsic),
            None => Global::Func(index.func),
        };
        names.add_global(&func.decl.name, global);
        match CompileBody::new(func, index, env, true) {
            Some(body) => Ok(Some(ModuleItem::Global(body))),
            None => Ok(None),
        }
    }

    /// Does what the first annotation of a function says.
    fn apply_annotation(
        &mut self,
        func: FunctionSource,
        env: NameDict<Type>,
        typ: FuncType,
        types: &TypeScope,
    ) -> (res: Result<Option<ModuleItem>, CompileError>)
        requires
            func.decl.annotations@.len() > 0,
            function_type(func, types@, DictV::empty()) is Ok,
            entry_ok(old(self)@.repo, SourceEntry::Function(func), types@),
        ensures
            (final(self)@, item_view(res)) == apply_annotation(
                old(self)@,
                func,
                func.decl.annotations@[0],
                env@,
                typ@,
                types@,
            ),
    {
        let ann = &func.decl.annotations[0];
        let kind = ann.kind;
        let arity: usize = ann.args.len();
        let ident = single_ident(ann);
        let span = ann.span;
        match ident {
            Some((target, at)) => match kind {
                AnnotationKind::ReplaceMethod => {
                    self.change_method(func, env, types, &target, at, MethodInjection::Replace)
                },
                AnnotationKind::WrapMethod => {
                    self.change_method(func, env, types, &target, at, MethodInjection::Wrap)
                },
                AnnotationKind::AddMethod => {
                    self.inject_method(func, env, typ, types, &target, at)
                },
                _ => Err(CompileError::Unsupported(Unsupported::InvalidAnnotation, span)),
            },
            None => if kind == AnnotationKind::ReplaceGlobal && arity == 0 {
                self.replace_global(func, env)
            } else {
                Err(CompileError::Unsupported(Unsupported::InvalidAnnotation, span))
            },
        }
    }

    /// Lets a field become a field of a class.
    fn preprocess_let(&mut self, field: FieldSource, types: &TypeScope) -> (res: Result<
        Option<ModuleItem>,
        CompileError,
    >)
        requires
            entry_ok(old(self)@.repo, SourceEntry::GlobalLet(field), types@),
        ensures
            (final(self)@, item_view(res)) == preprocess_let(old(self)@, field, types@),
    {
        let span = field.declaration.span;
        let ann = match find_field_annotation(&field.declaration.annotations) {
            Some(i) => &field.declaration.annotations[i],
            None => {
                return Err(CompileError::Unsupported(Unsupported::GlobalLetBinding, span));
            },
        };
        let (target, at) = match single_ident(ann) {
            Some(ident) => ident,
            None => {
                return Err(CompileError::Unsupported(Unsupported::InvalidAnnotation, span));
            },
        };
        let id = match self.locate_annotation_target(&target, types, at) {
            Ok(id) => id,
            Err(err) => {
                return Err(err);
            },
        };
        let ghost before = self@;
        let flags = get_field_flags(&field.declaration.qualifiers);
        let class_flags = self.repo.get_class(&id).unwrap().flags;
        Compiler::validate_field(&mut self.reporter, class_flags, flags, span);
        let none: NameDict<Type> = NameDict::new();
        let env = TypeEnv { types, outer: &none, inner: &none };
        match env.resolve_type(&field.type_) {
            Ok(typ) => {
                self.repo.add_field(&id, field.declaration.name, Field::new(typ, flags));
            },
            Err(err) => {
                self.reporter.report(CompileError::TypeError(err, span));
                proof {
                    let same = before.repo.put_class(id@, before.repo.class(id@));
                    assert(same.types =~= before.repo.types);
                }
            },
        }
        Ok(None)
    }

    /// Whether the type that an annotation names has been declared, where it names one.
    fn is_target_declared(&self, ann: &Annotation, types: &TypeScope) -> (res: bool)
        ensures
            res == match only_ident(ann.args@) {
                Some((name, _)) => target_declared(self@.repo, types@, name),
                None => true,
            },
    {
        match single_ident(ann) {
            Some((name, _)) => match types.get(&name) {
                Some(id) => self.repo.get_type(id).is_some(),
                None => true,
            },
            None => true,
        }
    }

    /// Whether a declaration can be preprocessed.
    pub fn can_preprocess(&self, entry: &SourceEntry, types: &TypeScope) -> (res: bool)
        ensures
            res == entry_ok(self@.repo, *entry, types@),
    {
        match entry {
            SourceEntry::Function(func) => {
                let none: NameDict<Type> = NameDict::new();
                match Compiler::preprocess_function(func, types, &none) {
                    Ok(_) => {},
                    Err(_) => {
                        return true;
                    },
                }
                if func.decl.annotations.len() == 0 {
                    return true;
                }
                let ann = &func.decl.annotations[0];
                match ann.kind {
                    AnnotationKind::ReplaceMethod
                    | AnnotationKind::WrapMethod
                    | AnnotationKind::AddMethod => self.is_target_declared(ann, types),
                    AnnotationKind::If => ann.args.len() != 1,
                    _ => true,
                }
            },
            SourceEntry::GlobalLet(field) => {
                let annotations = &field.declaration.annotations;
                match find_field_annotation(annotations) {
                    Some(i) => self.is_target_declared(&annotations[i], types),
                    None => true,
                }
            },
            _ => true,
        }
    }

    /// Adds a declaration to what is known, and says what of it is left to compile.
    pub fn preprocess_entry(
        &mut self,
        path: &Vec<String>,
        entry: SourceEntry,
        types: &TypeScope,
        names: &mut NameScope,
    ) -> (res: Result<Option<ModuleItem>, CompileError>)
        requires
            entry_ok(old(self)@.repo, entry, types@),
        ensures
            (EntryV {
                compiler: final(self)@,
                names: final(names)@,
                res: item_view(res),
            }) == preprocess_entry(old(self)@, views(path@), entry, types@, old(names)@),
    {
        reveal(preprocess_entry);
        match entry {
            SourceEntry::Class(class) => self.preprocess_class(path, class, false, types),
            SourceEntry::Struct(class) => self.preprocess_class(path, class, true, types),
            SourceEntry::Enum(source) => {
                self.preprocess_enum(path, source);
                Ok(None)
            },
            SourceEntry::Function(func) => {
                let none: NameDict<Type> = NameDict::new();
                match Compiler::preprocess_function(&func, types, &none) {
                    Ok((env, typ)) => if func.decl.annotations.len() > 0 {
                        self.apply_annotation(func, env, typ, types)
                    } else {
                        self.declare_function(path, func, env, typ, names)
                    },
                    Err(err) => Err(err),
                }
            },
            SourceEntry::GlobalLet(field) => self.preprocess_let(field, types),
        }
    }
}

/// Whether a list of errors goes on from another one.
pub open spec fn continues(before: Seq<CompileErrorV>, after: Seq<CompileErrorV>) -> bool {
    before.is_prefix_of(after)
}

proof fn lemma_members_continue(
    members: Seq<MemberSource>,
    n: int,
    types: TypeScopeV,
    vars: DictV<Seq<char>, TypeV>,
    start: MembersV,
)
    ensures
        continues(start.errors, add_members(members, n, types, vars, start).errors),
    decreases n,
{
    if n > 0 {
        lemma_members_continue(members, n - 1, types, vars, start);
    }
}

/// Whether a function is to become a method of a class and has no body.
pub open spec fn is_bodiless_addition(entry: SourceEntry) -> bool {
    match entry {
        SourceEntry::Function(func) => func.body is None && func.decl.annotations@.len() > 0
            && func.decl.annotations@[0].kind == AnnotationKind::AddMethod,
        _ => false,
    }
}

/// A declaration that is refused changes nothing, but for a function without a body that is to
/// become a method of a class: the class has it nevertheless.
pub proof fn law_refused_changes_nothing(
    c: CompilerV,
    path: Seq<Seq<char>>,
    entry: SourceEntry,
    types: TypeScopeV,
    names: NameScopeV,
)
    requires
        preprocess_entry(c, path, entry, types, names).res is Err,
    ensures
        preprocess_entry(c, path, entry, types, names).names == names,
        is_bodiless_addition(entry) || preprocess_entry(c, path, entry, types, names).compiler == c,
{
    reveal(preprocess_entry);
    match entry {
        SourceEntry::Function(func) => {
            match function_type(func, types, DictV::empty()) {
                Ok((env, typ)) => {
                    if func.decl.annotations@.len() > 0 {
                        let ann = func.decl.annotations@[0];
                        let done = apply_annotation(c, func, ann, env, typ, types);
                        if ann.kind == AnnotationKind::AddMethod && func.body is Some {
                            assert(done.0 == c);
                        }
                    }
                },
                Err(_) => {},
            }
        },
        SourceEntry::GlobalLet(field) => {
            let done = preprocess_let(c, field, types);
            assert(done.1 is Err ==> done.0 == c);
        },
        _ => {},
    }
}

/// No error that has been reported is lost, and no type that has been declared.
pub proof fn law_nothing_reported_is_lost(
    c: CompilerV,
    path: Seq<Seq<char>>,
    entry: SourceEntry,
    types: TypeScopeV,
    names: NameScopeV,
)
    ensures
        continues(c.errors, preprocess_entry(c, path, entry, types, names).compiler.errors),
        c.defined.is_prefix_of(preprocess_entry(c, path, entry, types, names).compiler.defined),
{
    reveal(preprocess_entry);
    match entry {
        SourceEntry::Class(class) => {
            lemma_class_continues(c, path, class, false, types);
        },
        SourceEntry::Struct(class) => {
            lemma_class_continues(c, path, class, true, types);
        },
        SourceEntry::Enum(_) => {},
        SourceEntry::Function(func) => {
            match function_type(func, types, DictV::empty()) {
                Ok((env, typ)) => {
                    if func.decl.annotations@.len() > 0 {
                        let ann = func.decl.annotations@[0];
                        let done = apply_annotation(c, func, ann, env, typ, types).0;
                        assert(done.errors == c.errors && done.defined == c.defined);
                    } else {
                        let done = declare_function(c, path, func, env, typ, names).compiler;
                        assert(done.errors == c.errors && done.defined == c.defined);
                    }
                },
                Err(_) => {},
            }
        },
        SourceEntry::GlobalLet(field) => {
            let done = preprocess_let(c, field, types).0;
            assert(continues(c.errors, done.errors) && done.defined == c.defined);
        },
    }
}

proof fn lemma_class_continues(
    c: CompilerV,
    path: Seq<Seq<char>>,
    class: ClassSource,
    is_struct: bool,
    types: TypeScopeV,
)
    ensures
        continues(c.errors, preprocess_class(c, path, class, is_struct, types).0.errors),
        c.defined.is_prefix_of(preprocess_class(c, path, class, is_struct, types).0.defined),
{
    match instantiate_vars(
        class.tparams@,
        class.tparams@.len() as int,
        types,
        DictV::empty(),
        DictV::empty(),
    ) {
        Ok(vars) => {
            let scope = var_scope(vars, vars.len() as int);
            match class_base(class, is_struct, types, scope) {
                Ok(extends) => {
                    lemma_members_continue(
                        class.members@,
                        class.members@.len() as int,
                        types,
                        scope,
                        MembersV {
                            errors: c.errors,
                            class: empty_class(class, is_struct, vars, extends),
                            bodies: Seq::empty(),
                        },
                    );
                },
                Err(_) => {},
            }
        },
        Err(_) => {},
    }
}

} // verus!
