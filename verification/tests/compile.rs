use redscript_compiler::builders::EnumMember;
use redscript_compiler::compiler::{Compiler, MethodInjection, ModuleItem};
use redscript_compiler::dict::NameDict;
use redscript_compiler::error::{CompileError, Span, TypeError, Unsupported};
use redscript_compiler::flags::{get_class_flags, Qualifier, Qualifiers};
use redscript_compiler::funcs::{FuncMap, FuncParam, FuncType, ScopedName};
use redscript_compiler::queue::{CodeGenItem, CompilationOutputs, Local};
use redscript_compiler::repo::{ClassType, DataType, TypeRepo};
use redscript_compiler::scope::{Global, NameScope, ScopedMap, TypeScope};
use redscript_compiler::source::{
    Annotation, AnnotationArg, AnnotationKind, ClassSource, Declaration, EnumSource, FieldSource,
    FunctionSource, GrammarError, Import, MemberSource, ParameterSource, ParsedFile, SourceEntry,
    SourceModule, TypeName, TypeParam,
};
use redscript_compiler::tables::MemberId;
use redscript_compiler::types::{Parameterized, Prim, Type};

fn s(text: &str) -> String {
    text.to_string()
}

fn path(parts: &[&str]) -> Vec<String> {
    parts.iter().map(|part| part.to_string()).collect()
}

fn at(low: usize) -> Span {
    Span { low, high: low + 1 }
}

fn quals(items: Vec<Qualifier>) -> Qualifiers {
    Qualifiers { items }
}

fn tn(name: &str) -> TypeName {
    TypeName { name: s(name), args: vec![] }
}

fn tn1(name: &str, arg: TypeName) -> TypeName {
    TypeName { name: s(name), args: vec![arg] }
}

fn decl(name: &str, items: Vec<Qualifier>, low: usize) -> Declaration {
    Declaration { annotations: vec![], qualifiers: quals(items), name: s(name), span: at(low) }
}

fn param(name: &str, typ: TypeName) -> ParameterSource {
    ParameterSource { qualifiers: quals(vec![]), name: s(name), type_: typ }
}

fn func(name: &str, params: Vec<ParameterSource>, body: Option<usize>, low: usize) -> FunctionSource {
    FunctionSource {
        decl: decl(name, vec![], low),
        tparams: vec![],
        parameters: params,
        type_: None,
        body,
    }
}

fn annotated(mut func: FunctionSource, kind: AnnotationKind, args: Vec<AnnotationArg>) -> FunctionSource {
    func.decl.annotations.push(Annotation { kind, args, span: at(90) });
    func
}

fn ident(name: &str) -> AnnotationArg {
    AnnotationArg::Ident(s(name), at(80))
}

fn class(name: &str, base: Option<TypeName>, members: Vec<MemberSource>, low: usize) -> ClassSource {
    ClassSource {
        qualifiers: quals(vec![]),
        name: s(name),
        tparams: vec![],
        base,
        members,
        span: at(low),
    }
}

fn module(parts: &[&str], imports: Vec<Import>, entries: Vec<SourceEntry>) -> SourceModule {
    SourceModule { path: path(parts), imports, entries }
}

fn file(module: SourceModule) -> ParsedFile {
    ParsedFile { byte_offset: 0, result: Ok(module) }
}

fn base_class() -> ClassType {
    ClassType {
        type_vars: vec![],
        extends: None,
        fields: NameDict::new(),
        methods: FuncMap::new(),
        statics: FuncMap::new(),
        flags: get_class_flags(&quals(vec![])),
        span: None,
    }
}

fn repo() -> TypeRepo {
    let mut repo = TypeRepo::new();
    repo.add_type(s("IScriptable"), DataType::Class(base_class()));
    repo
}

fn compiler() -> Compiler {
    Compiler::new(repo(), NameDict::new())
}

fn run(modules: Vec<SourceModule>) -> CompilationOutputs {
    compiler().run(modules.into_iter().map(file).collect()).ok().unwrap()
}

fn errors(modules: Vec<SourceModule>) -> Vec<CompileError> {
    run(modules).into_errors()
}

fn get_class<'a>(out: &'a CompilationOutputs, id: &str) -> &'a ClassType {
    out.repo.get_class(&s(id)).unwrap()
}

#[test]
fn class_with_members_is_declared() {
    let members = vec![
        MemberSource::Field(FieldSource {
            declaration: decl("count", vec![Qualifier::Persistent], 2),
            type_: tn("Int32"),
        }),
        MemberSource::Method(func("get", vec![param("by", tn("Int32"))], Some(7), 3)),
        MemberSource::Method(FunctionSource {
            decl: decl("make", vec![Qualifier::Static], 4),
            ..func("make", vec![], Some(8), 4)
        }),
    ];
    let out = run(vec![module(&["M"], vec![], vec![SourceEntry::Class(class("C", None, members, 1))])]);
    assert_eq!(out.reporter().len(), 0);
    assert_eq!(out.defined_types, vec![s("M.C")]);
    let found = get_class(&out, "M.C");
    assert_eq!(found.extends.as_ref().unwrap().id, "IScriptable");
    assert_eq!(found.span, Some(at(1)));
    assert!(found.fields.get(&s("count")).unwrap().flags.is_persistent);
    assert_eq!(found.methods.entry(0).signature, "get;Int32;Void");
    assert!(found.methods.entry(0).flags.has_body);
    assert!(found.statics.entry(0).flags.is_final);
    assert_eq!(out.codegen_queue.len(), 2);
    match &out.codegen_queue[0] {
        CodeGenItem::AssembleMethod(id, task, false) => {
            assert_eq!((id.owner.as_str(), id.slot), ("M.C", 0));
            assert_eq!(task.body, 7);
            assert_eq!(task.params.len(), 1);
            assert_eq!(task.locals.get(&s("by")).unwrap().local, Local::Param(0));
            assert_eq!(task.locals.get(&s("this")).unwrap().local, Local::This);
        }
        _ => panic!("a method was expected"),
    }
    match &out.codegen_queue[1] {
        CodeGenItem::AssembleMethod(_, task, true) => {
            assert_eq!(task.body, 8);
            assert!(task.locals.get(&s("this")).is_none());
        }
        _ => panic!("a static function was expected"),
    }
}

#[test]
fn struct_has_no_default_base() {
    let method = FunctionSource {
        decl: decl("f", vec![Qualifier::Static], 2),
        ..func("f", vec![], Some(0), 2)
    };
    let entry = SourceEntry::Struct(class("S", None, vec![MemberSource::Method(method)], 1));
    let out = run(vec![module(&[], vec![], vec![entry])]);
    assert_eq!(out.reporter().len(), 0);
    assert!(get_class(&out, "S").extends.is_none());
    assert!(get_class(&out, "S").flags.is_struct);
}

#[test]
fn method_rules_are_reported() {
    let native = FunctionSource {
        decl: decl("a", vec![Qualifier::Native], 10),
        ..func("a", vec![], Some(0), 10)
    };
    let last = FunctionSource {
        decl: decl("b", vec![Qualifier::Final], 20),
        ..func("b", vec![], None, 20)
    };
    let members = vec![MemberSource::Method(native), MemberSource::Method(last)];
    let found = errors(vec![module(&[], vec![], vec![SourceEntry::Struct(class("S", None, members, 1))])]);
    let kinds: Vec<Unsupported> = found
        .iter()
        .filter_map(|err| match err {
            CompileError::Unsupported(kind, _) => Some(*kind),
            _ => None,
        })
        .collect();
    assert_eq!(
        kinds,
        vec![
            Unsupported::NativeInNonNative,
            Unsupported::NonStaticStructMember,
            Unsupported::NativeWithBody,
            Unsupported::NonStaticStructMember,
            Unsupported::FinalWithoutBody,
        ]
    );
    // the struct is not abstract and the final method has no body
    assert!(matches!(&found[5], CompileError::UnimplementedMethod(name, _) if name == "b"));
    assert_eq!(found.len(), 6);
}

#[test]
fn native_field_needs_native_class() {
    let field = MemberSource::Field(FieldSource {
        declaration: decl("f", vec![Qualifier::Native], 5),
        type_: tn("Bool"),
    });
    let out = run(vec![module(&[], vec![], vec![SourceEntry::Class(class("C", None, vec![field], 1))])]);
    assert!(get_class(&out, "C").fields.get(&s("f")).is_some());
    let found = out.into_errors();
    assert!(matches!(&found[..], [CompileError::Unsupported(Unsupported::NativeInNonNative, span)] if *span == at(5)));
}

#[test]
fn member_with_unknown_type_is_left_out() {
    let members = vec![
        MemberSource::Field(FieldSource { declaration: decl("f", vec![], 5), type_: tn("Nope") }),
        MemberSource::Method(func("m", vec![param("x", tn("Nada"))], Some(0), 6)),
        MemberSource::Method(func("ok", vec![], Some(1), 7)),
    ];
    let out = run(vec![module(&[], vec![], vec![SourceEntry::Class(class("C", None, members, 1))])]);
    assert!(get_class(&out, "C").fields.get(&s("f")).is_none());
    assert_eq!(get_class(&out, "C").methods.len(), 1);
    assert_eq!(out.codegen_queue.len(), 1);
    let found = out.into_errors();
    assert!(matches!(&found[0], CompileError::TypeError(TypeError::UnresolvedType(name), span) if name == "Nope" && *span == at(5)));
    assert!(matches!(&found[1], CompileError::TypeError(TypeError::UnresolvedType(name), span) if name == "Nada" && *span == at(6)));
    assert_eq!(found.len(), 2);
}

#[test]
fn class_with_unknown_base_is_refused() {
    let out = run(vec![module(&[], vec![], vec![SourceEntry::Class(class("C", Some(tn("Nope")), vec![], 3))])]);
    assert!(out.defined_types.is_empty());
    assert!(out.repo.get_class(&s("C")).is_none());
    let found = out.into_errors();
    assert!(matches!(&found[..], [CompileError::TypeError(TypeError::UnresolvedType(name), span)] if name == "Nope" && *span == at(3)));
}

#[test]
fn enum_members_keep_order_and_values() {
    let members = vec![
        EnumMember { name: s("B"), value: 2 },
        EnumMember { name: s("A"), value: -1 },
        EnumMember { name: s("B"), value: 5 },
    ];
    let out = run(vec![module(
        &["M"],
        vec![],
        vec![SourceEntry::Enum(EnumSource { name: s("E"), members, span: at(1) })],
    )]);
    match out.repo.get_type(&s("M.E")) {
        Some(DataType::Enum(found)) => {
            assert_eq!(found.members.len(), 2);
            assert_eq!((found.members.key_at(0).as_str(), *found.members.val_at(0)), ("B", 5));
            assert_eq!((found.members.key_at(1).as_str(), *found.members.val_at(1)), ("A", -1));
        }
        _ => panic!("an enum was expected"),
    }
}

#[test]
fn imports_bring_names_into_a_module() {
    let lib = module(
        &["Lib"],
        vec![],
        vec![
            SourceEntry::Class(class("T", None, vec![], 1)),
            SourceEntry::Function(func("f", vec![], Some(0), 2)),
        ],
    );
    let uses = |import: Import| {
        module(
            &["App"],
            vec![import],
            vec![SourceEntry::Function(func("g", vec![param("x", tn("T"))], Some(1), 3))],
        )
    };
    for import in [
        Import::Exact(path(&["Lib", "T"]), at(9)),
        Import::Selected(path(&["Lib"]), path(&["T", "f"]), at(9)),
        Import::All(path(&["Lib"]), at(9)),
    ] {
        let again = module(
            &["Lib"],
            vec![],
            vec![
                SourceEntry::Class(class("T", None, vec![], 1)),
                SourceEntry::Function(func("f", vec![], Some(0), 2)),
            ],
        );
        let out = run(vec![uses(import), again]);
        assert_eq!(out.reporter().len(), 0);
        assert!(out.scopes[0].types.get(&s("T")).is_some());
        assert!(out.types.get(&s("T")).is_none());
    }
    let out = run(vec![lib]);
    assert!(out.names.get(&s("f")).is_none());
    assert!(out.scopes[0].names.get(&s("f")).is_some());
}

#[test]
fn imported_functions_are_known_by_their_place() {
    let lib = module(&["Lib"], vec![], vec![SourceEntry::Function(func("f", vec![], Some(0), 2))]);
    let app = module(&["App"], vec![Import::All(path(&["Lib"]), at(1))], vec![]);
    let out = run(vec![app, lib]);
    let found = out.scopes[0].names.get(&s("f")).unwrap();
    assert!(matches!(&found.items[..], [Global::Func(0)]));
}

#[test]
fn imports_that_lead_nowhere_are_reported() {
    let lib = module(&["Lib"], vec![], vec![SourceEntry::Class(class("T", None, vec![], 1))]);
    let app = module(
        &["App"],
        vec![
            Import::Exact(path(&["Lib", "X"]), at(1)),
            Import::Selected(path(&["Lib"]), path(&["T", "Y", "Z"]), at(2)),
            Import::All(path(&["Nope"]), at(3)),
        ],
        vec![],
    );
    let out = run(vec![app, lib]);
    assert!(out.scopes[0].types.get(&s("T")).is_some());
    let found = out.into_errors();
    assert_eq!(found.len(), 3);
    assert!(matches!(&found[0], CompileError::UnresolvedImport(at_path, span) if *at_path == path(&["Lib", "X"]) && *span == at(1)));
    assert!(matches!(&found[1], CompileError::UnresolvedImport(at_path, span) if *at_path == path(&["Lib", "Y"]) && *span == at(2)));
    assert!(matches!(&found[2], CompileError::UnresolvedImport(at_path, span) if *at_path == path(&["Nope"]) && *span == at(3)));
}

#[test]
fn files_may_come_in_any_order() {
    let upper = || module(&[], vec![], vec![SourceEntry::Class(class("B", None, vec![], 1))]);
    let lower = || module(&[], vec![], vec![SourceEntry::Class(class("A", Some(tn("B")), vec![], 2))]);
    for modules in [vec![lower(), upper()], vec![upper(), lower()]] {
        let out = run(modules);
        assert_eq!(get_class(&out, "A").extends.as_ref().unwrap().id, "B");
        assert_eq!(get_class(&out, "B").extends.as_ref().unwrap().id, "IScriptable");
        assert_eq!(out.defined_types, vec![s("B"), s("A")]);
        assert!(out.into_errors().is_empty());
    }
    let inner = || module(&["lib"], vec![], vec![SourceEntry::Class(class("C", None, vec![], 3))]);
    let user = || {
        let imports = vec![Import::All(path(&["lib"]), at(4))];
        module(&["app"], imports, vec![SourceEntry::Class(class("D", Some(tn("C")), vec![], 5))])
    };
    for modules in [vec![user(), inner()], vec![inner(), user()]] {
        let out = run(modules);
        assert_eq!(get_class(&out, "app.D").extends.as_ref().unwrap().id, "lib.C");
        assert!(out.into_errors().is_empty());
    }
}

fn tell(err: &CompileError) -> String {
    match err {
        CompileError::UnresolvedImport(at_path, span) => format!("import {} {}", at_path.join("."), span.low),
        CompileError::TypeError(_, span) => format!("type {}", span.low),
        CompileError::Unsupported(what, span) => format!("{:?} {}", what, span.low),
        CompileError::UnimplementedMethod(name, span) => format!("missing {} {}", name, span.low),
        _ => s("other"),
    }
}

#[test]
fn errors_do_not_depend_on_the_order_of_files() {
    let top = || {
        let top = ClassSource {
            qualifiers: quals(vec![Qualifier::Abstract]),
            ..class("Top", None, vec![
                MemberSource::Method(func("a", vec![], None, 2)),
                MemberSource::Method(func("b", vec![param("x", tn("Nope"))], None, 3)),
            ], 1)
        };
        let last = ClassSource { qualifiers: quals(vec![Qualifier::Final]), ..class("Last", None, vec![], 4) };
        module(&[], vec![], vec![SourceEntry::Class(top), SourceEntry::Class(last)])
    };
    let low = || {
        let imports = vec![Import::Exact(path(&["lib", "Gone"]), at(5)), Import::All(path(&["lib"]), at(6))];
        module(&["app"], imports, vec![
            SourceEntry::Class(class("Low", Some(tn("Top")), vec![], 7)),
            SourceEntry::Class(class("More", Some(tn("Last")), vec![], 8)),
            SourceEntry::Class(class("Lost", Some(tn("Nothing")), vec![], 9)),
            SourceEntry::Class(class("Fine", Some(tn("Help")), vec![], 10)),
        ])
    };
    let lib = || {
        let added = Declaration {
            annotations: vec![Annotation {
                kind: AnnotationKind::AddField,
                args: vec![ident("IScriptable")],
                span: at(12),
            }],
            ..decl("added", vec![Qualifier::Native], 13)
        };
        module(&["lib"], vec![], vec![
            SourceEntry::Class(class("Help", None, vec![], 11)),
            SourceEntry::GlobalLet(FieldSource { declaration: added, type_: tn("Int32") }),
            SourceEntry::Function(func("f", vec![param("x", tn("Never"))], Some(0), 14)),
        ])
    };
    let orders = [
        vec![top(), low(), lib()],
        vec![top(), lib(), low()],
        vec![low(), top(), lib()],
        vec![low(), lib(), top()],
        vec![lib(), top(), low()],
        vec![lib(), low(), top()],
    ];
    for modules in orders {
        let out = run(modules);
        let mut listed = out.defined_types.clone();
        listed.sort();
        assert_eq!(listed, vec![s("Last"), s("Top"), s("app.Fine"), s("app.Low"), s("app.More"), s("lib.Help")]);
        let mut told: Vec<String> = out.into_errors().iter().map(tell).collect();
        told.sort();
        assert_eq!(told, vec![
            "ExtendingFinalClass 4",
            "NativeInNonNative 13",
            "import lib.Gone 5",
            "missing a 7",
            "type 14",
            "type 3",
            "type 9",
        ]);
    }
}

#[test]
fn overriding_does_not_depend_on_the_order_of_files() {
    let method = |name: &str, low: usize| MemberSource::Method(func(name, vec![], Some(0), low));
    let upper = || {
        let upper = class("Upper", None, vec![method("a", 2), method("b", 3)], 1);
        module(&[], vec![], vec![SourceEntry::Class(upper)])
    };
    let lower = || {
        let lower = class("Lower", Some(tn("Upper")), vec![method("c", 5), method("b", 6)], 4);
        module(&[], vec![], vec![SourceEntry::Class(lower)])
    };
    for modules in [vec![upper(), lower()], vec![lower(), upper()]] {
        let out = run(modules);
        let methods = &get_class(&out, "Lower").methods;
        assert_eq!(methods.len(), 2);
        assert_eq!((methods.name_of(0).name.as_str(), methods.name_of(1).name.as_str()), ("c", "b"));
        assert!(methods.entry(0).base.is_none());
        let base = methods.entry(1).base.as_ref().unwrap();
        assert_eq!((base.owner.as_str(), base.slot), ("Upper", 1));
    }
}

#[test]
fn first_syntax_error_wins() {
    let bad = |offset: usize, byte_offset: usize| ParsedFile {
        byte_offset,
        result: Err(GrammarError { expected: path(&["identifier"]), offset }),
    };
    let res = compiler().run(vec![file(module(&[], vec![], vec![])), bad(3, 100), bad(1, 200)]);
    let err = res.err().unwrap();
    assert_eq!(err.span, Span { low: 103, high: 103 });
    assert_eq!(err.expected, path(&["identifier"]));
}

#[test]
fn global_functions_are_named_once() {
    let mut intrinsics: NameDict<()> = NameDict::new();
    intrinsics.insert(s("ArraySize"), ());
    intrinsics.insert(s("Equals"), ());
    let entries = vec![
        SourceEntry::Function(func("f", vec![], Some(0), 1)),
        SourceEntry::Function(func("f", vec![param("x", tn("Int32"))], Some(1), 2)),
        SourceEntry::Function(func("Equals", vec![], None, 3)),
    ];
    let out = Compiler::new(repo(), intrinsics)
        .run(vec![file(module(&[], vec![], entries))])
        .ok()
        .unwrap();
    assert_eq!(out.reporter().len(), 0);
    assert!(matches!(&out.names.get(&s("f")).unwrap().items[..], [Global::Func(0)]));
    assert!(matches!(&out.names.get(&s("Equals")).unwrap().items[..], [Global::Intrinsic(1, 1)]));
    assert_eq!(out.codegen_queue.len(), 2);
    assert!(matches!(&out.codegen_queue[1], CodeGenItem::AssembleGlobal(1, task) if task.body == 1));
}

#[test]
fn annotations_change_existing_classes() {
    let target = || SourceEntry::Class(class("C", None, vec![MemberSource::Method(func("m", vec![], Some(0), 2))], 1));
    let entries = vec![
        target(),
        SourceEntry::Function(annotated(func("m", vec![], Some(1), 3), AnnotationKind::WrapMethod, vec![ident("C")])),
        SourceEntry::Function(annotated(func("m", vec![], Some(2), 4), AnnotationKind::ReplaceMethod, vec![ident("C")])),
        SourceEntry::Function(annotated(func("n", vec![], Some(3), 5), AnnotationKind::AddMethod, vec![ident("IScriptable")])),
        SourceEntry::GlobalLet(FieldSource {
            declaration: Declaration {
                annotations: vec![Annotation { kind: AnnotationKind::AddField, args: vec![ident("C")], span: at(6) }],
                ..decl("added", vec![], 6)
            },
            type_: tn1("array", tn("Int32")),
        }),
    ];
    let out = run(vec![module(&[], vec![], entries)]);
    assert_eq!(out.reporter().len(), 0);
    assert_eq!(get_class(&out, "C").methods.len(), 1);
    assert_eq!(get_class(&out, "IScriptable").methods.len(), 1);
    assert!(get_class(&out, "C").fields.get(&s("added")).is_some());
    assert!(matches!(&out.codegen_queue[1], CodeGenItem::WrapMethod(id, task, false)
        if id.slot == 0 && matches!(&task.wrapped, Some(Global::MethodAlias(wrapped)) if wrapped.slot == 0)));
    assert!(matches!(&out.codegen_queue[2], CodeGenItem::AssembleMethod(id, task, false) if id.slot == 0 && task.body == 2 && task.wrapped.is_none()));
    assert!(matches!(&out.codegen_queue[3], CodeGenItem::AddMethod(id, _, false)
        if id.owner == "IScriptable" && id.slot == 0));
}

#[test]
fn method_added_to_a_declared_class_counts_as_missing_its_body() {
    let entries = vec![
        SourceEntry::Class(class("C", None, vec![], 1)),
        SourceEntry::Function(annotated(func("n", vec![], Some(0), 2), AnnotationKind::AddMethod, vec![ident("C")])),
    ];
    let found = errors(vec![module(&[], vec![], entries)]);
    assert!(matches!(&found[..], [CompileError::UnimplementedMethod(name, span)] if name == "n" && *span == at(1)));
}

#[test]
fn replaced_globals_have_to_be_unique() {
    let entries = vec![
        SourceEntry::Function(func("f", vec![], Some(0), 1)),
        SourceEntry::Function(annotated(func("f", vec![], Some(1), 2), AnnotationKind::ReplaceGlobal, vec![])),
        SourceEntry::Function(annotated(func("g", vec![], Some(2), 3), AnnotationKind::ReplaceGlobal, vec![])),
        SourceEntry::Function(annotated(func("f", vec![], None, 4), AnnotationKind::ReplaceGlobal, vec![])),
    ];
    let out = run(vec![module(&[], vec![], entries)]);
    assert_eq!(out.codegen_queue.len(), 2);
    assert!(matches!(&out.codegen_queue[1], CodeGenItem::AssembleGlobal(0, task) if task.body == 1));
    let found = out.into_errors();
    assert!(matches!(&found[0], CompileError::UnresolvedFunction(name, span) if name == "g" && *span == at(3)));
    assert!(matches!(&found[1], CompileError::Unsupported(Unsupported::AnnotatedFuncWithNoBody, span) if *span == at(4)));
    assert_eq!(found.len(), 2);
}

#[test]
fn wrong_annotations_are_refused() {
    let entries = vec![
        SourceEntry::Class(class("C", None, vec![], 1)),
        SourceEntry::Enum(EnumSource { name: s("E"), members: vec![], span: at(2) }),
        SourceEntry::Function(annotated(func("a", vec![], Some(0), 3), AnnotationKind::WrapMethod, vec![])),
        SourceEntry::Function(annotated(func("b", vec![], Some(1), 4), AnnotationKind::WrapMethod, vec![ident("C")])),
        SourceEntry::Function(annotated(func("c", vec![], Some(2), 5), AnnotationKind::ReplaceMethod, vec![ident("Nope")])),
        SourceEntry::Function(annotated(func("d", vec![], Some(3), 6), AnnotationKind::AddMethod, vec![ident("E")])),
        SourceEntry::Function(annotated(func("e", vec![], None, 7), AnnotationKind::AddMethod, vec![ident("C")])),
        SourceEntry::Function(annotated(func("f", vec![], Some(4), 8), AnnotationKind::RuntimeProperty, vec![ident("C")])),
        SourceEntry::GlobalLet(FieldSource { declaration: decl("x", vec![], 9), type_: tn("Int32") }),
        SourceEntry::GlobalLet(FieldSource {
            declaration: Declaration {
                annotations: vec![Annotation {
                    kind: AnnotationKind::AddField,
                    args: vec![AnnotationArg::Other(at(70))],
                    span: at(71),
                }],
                ..decl("y", vec![], 10)
            },
            type_: tn("Int32"),
        }),
    ];
    let out = run(vec![module(&[], vec![], entries)]);
    // the class has the method although its body is missing
    assert_eq!(get_class(&out, "C").methods.len(), 1);
    let found = out.into_errors();
    assert!(matches!(&found[0], CompileError::Unsupported(Unsupported::InvalidAnnotation, span) if *span == at(90)));
    assert!(matches!(&found[1], CompileError::UnresolvedFunction(name, span) if name == "b" && *span == at(80)));
    assert!(matches!(&found[2], CompileError::TypeError(TypeError::UnresolvedType(name), span) if name == "Nope" && *span == at(80)));
    assert!(matches!(&found[3], CompileError::TypeError(TypeError::UnresolvedType(name), _) if name == "E"));
    assert!(matches!(&found[4], CompileError::Unsupported(Unsupported::AnnotatedFuncWithNoBody, span) if *span == at(80)));
    assert!(matches!(&found[5], CompileError::Unsupported(Unsupported::InvalidAnnotation, _)));
    assert!(matches!(&found[6], CompileError::Unsupported(Unsupported::GlobalLetBinding, span) if *span == at(9)));
    assert!(matches!(&found[7], CompileError::Unsupported(Unsupported::InvalidAnnotation, span) if *span == at(10)));
    // the class is left with a method without a body
    assert!(matches!(&found[8], CompileError::UnimplementedMethod(name, span) if name == "e" && *span == at(1)));
    assert_eq!(found.len(), 9);
}

#[test]
fn preprocessing_tells_what_is_left_to_compile() {
    let mut compiler = compiler();
    let mut types: TypeScope = ScopedMap::new();
    types.insert(s("IScriptable"), s("IScriptable"));
    let mut names = NameScope::new();
    let method = annotated(func("m", vec![], Some(4), 1), AnnotationKind::AddMethod, vec![ident("IScriptable")]);
    let res = compiler.preprocess_entry(&path(&[]), SourceEntry::Function(method), &types, &mut names);
    assert!(matches!(res, Ok(Some(ModuleItem::AnnotatedMethod(_, body, MethodInjection::Add))) if body.body == 4 && !body.is_static));
    let plain = func("g", vec![], None, 1);
    let res = compiler.preprocess_entry(&path(&["M"]), SourceEntry::Function(plain), &types, &mut names);
    assert!(matches!(res, Ok(None)));
    assert!(matches!(&names.get(&s("g")).unwrap().items[..], [Global::Func(0)]));
}

#[test]
fn overriding_is_found_through_type_arguments() {
    // class Base<A> { func put(x: A) }   class Mid<B> extends Base<B> {}
    // class Leaf extends Mid<Int32> { func put(x: Int32) }
    let generic = ClassSource {
        tparams: vec![TypeParam { name: s("A"), extends: None }],
        ..class("Base", None, vec![MemberSource::Method(func("put", vec![param("x", tn("A"))], Some(0), 2))], 1)
    };
    let mid = ClassSource {
        tparams: vec![TypeParam { name: s("B"), extends: None }],
        ..class("Mid", Some(tn1("Base", tn("B"))), vec![], 3)
    };
    let leaf = class(
        "Leaf",
        Some(tn1("Mid", tn("Int32"))),
        vec![
            MemberSource::Method(func("put", vec![param("x", tn("Int32"))], Some(1), 5)),
            MemberSource::Method(func("put", vec![param("x", tn("Bool"))], Some(2), 6)),
        ],
        4,
    );
    let out = run(vec![module(
        &[],
        vec![],
        vec![SourceEntry::Class(leaf), SourceEntry::Class(mid), SourceEntry::Class(generic)],
    )]);
    assert_eq!(out.reporter().len(), 0);
    // sorted by the number of classes above
    assert_eq!(out.defined_types, vec![s("Base"), s("Mid"), s("Leaf")]);
    let entry = get_class(&out, "Leaf").methods.entry(0);
    assert!(matches!(&entry.base, Some(base) if base.owner == "Base" && base.slot == 0));
    assert!(entry.typ.params[0].is_poly);
    assert!(!entry.typ.is_ret_poly);
    let other = get_class(&out, "Leaf").methods.entry(1);
    assert!(other.base.is_none() && !other.typ.params[0].is_poly);
    let root = get_class(&out, "Base").methods.entry(0);
    assert!(root.base.is_none() && !root.typ.params[0].is_poly);
    assert!(matches!(&out.codegen_queue[0], CodeGenItem::AssembleMethod(_, task, _) if task.poly == vec![true]));
}

#[test]
fn abstract_methods_have_to_be_implemented() {
    let top = ClassSource {
        qualifiers: quals(vec![Qualifier::Abstract]),
        ..class("Top", None, vec![
            MemberSource::Method(func("a", vec![], None, 2)),
            MemberSource::Method(func("b", vec![], None, 3)),
        ], 1)
    };
    let good = class("Good", Some(tn("Half")), vec![MemberSource::Method(func("b", vec![], Some(0), 5))], 4);
    let half = ClassSource {
        qualifiers: quals(vec![Qualifier::Abstract]),
        ..class("Half", Some(tn("Top")), vec![MemberSource::Method(func("a", vec![], Some(1), 7))], 6)
    };
    let bad = class("Bad", Some(tn("Half")), vec![], 8);
    let worse = class("Worse", Some(tn("Top")), vec![], 9);
    let found = errors(vec![module(&[], vec![], vec![
        SourceEntry::Class(top),
        SourceEntry::Class(good),
        SourceEntry::Class(half),
        SourceEntry::Class(bad),
        SourceEntry::Class(worse),
    ])]);
    let mut missing: Vec<(String, Span)> = found
        .into_iter()
        .filter_map(|err| match err {
            CompileError::UnimplementedMethod(name, span) => Some((name, span)),
            _ => None,
        })
        .collect();
    missing.sort_by_key(|(name, span)| (span.low, name.clone()));
    assert_eq!(missing, vec![(s("b"), at(8)), (s("a"), at(9)), (s("b"), at(9))]);
}

#[test]
fn final_classes_cannot_be_extended() {
    let last = ClassSource { qualifiers: quals(vec![Qualifier::Final]), ..class("Last", None, vec![], 1) };
    let more = class("More", Some(tn("Last")), vec![], 2);
    let found = errors(vec![module(&[], vec![], vec![SourceEntry::Class(last), SourceEntry::Class(more)])]);
    assert!(matches!(&found[..], [CompileError::Unsupported(Unsupported::ExtendingFinalClass, span)] if *span == at(1)));
}

#[test]
fn base_methods_are_looked_up_by_name_and_parameters() {
    let mut repo = repo();
    let void = || Type::Prim(Prim::Void);
    let none = || FuncType::new(vec![], vec![], void());
    let flags = redscript_compiler::flags::get_function_flags(&quals(vec![]));
    let mut up = base_class();
    up.methods.add(ScopedName::top_level(s("f")), none(), flags);
    repo.add_type(s("Up"), DataType::Class(up));
    let mut down = base_class();
    down.extends = Some(Parameterized::without_args(s("Up")));
    repo.add_type(s("Down"), DataType::Class(down));
    let this = Parameterized::without_args(s("Down"));
    let found = Compiler::get_base_method(&s("f"), &this, &none(), &repo).unwrap();
    assert!(found.owner == "Up" && found.slot == 0);
    let one = FuncType::new(vec![], vec![FuncParam::custom(void(), false)], void());
    assert!(Compiler::get_base_method(&s("f"), &this, &one, &repo).is_none());
    assert!(Compiler::get_base_method(&s("g"), &this, &none(), &repo).is_none());
    let _ = MemberId::new(&s("Up"), 0);
}
