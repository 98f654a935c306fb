use redscript_compiler::builders::{ClassBuilder, EnumBuilder, FieldBuilder, FunctionBuilder, LocalBuilder, ParamBuilder};
use redscript_compiler::compiler::Compiler;
use redscript_compiler::db::CompilationResources;
use redscript_compiler::dict::NameDict;
use redscript_compiler::error::{CompileError, Span};
use redscript_compiler::flags::{get_class_flags, Qualifier, Qualifiers};
use redscript_compiler::funcs::FuncMap;
use redscript_compiler::intact::{is_intact, is_type};
use redscript_compiler::outputs::Plan;
use redscript_compiler::pool::{AnyDefinition, ConstantPool, Definition, Instr, PoolType, UNDEFINED};
use redscript_compiler::queue::CompilationOutputs;
use redscript_compiler::ready::is_type_ok;
use redscript_compiler::repo::{ClassType, DataType, TypeRepo};
use redscript_compiler::source::{
    Annotation, AnnotationArg, AnnotationKind, ClassSource, Declaration, FieldSource,
    FunctionSource, GrammarError, MemberSource, ParsedFile, SourceEntry, SourceModule, TypeName,
};
use redscript_compiler::tables::MemberId;
use redscript_compiler::type_cache::TypeCache;
use redscript_compiler::types::{Parameterized, Prim, Type};

fn s(text: &str) -> String {
    text.to_string()
}

fn span() -> Span {
    Span { low: 3, high: 4 }
}

fn quals(items: Vec<Qualifier>) -> Qualifiers {
    Qualifiers { items }
}

fn tn(name: &str) -> TypeName {
    TypeName { name: s(name), args: vec![] }
}

fn data(id: &str, args: Vec<Type>) -> Type {
    Type::Data(Parameterized { id: s(id), args })
}

fn int32() -> Type {
    Type::Prim(Prim::Int32)
}

fn decl(name: &str, items: Vec<Qualifier>) -> Declaration {
    Declaration { annotations: vec![], qualifiers: quals(items), name: s(name), span: span() }
}

fn func(name: &str, items: Vec<Qualifier>, body: usize) -> FunctionSource {
    FunctionSource { decl: decl(name, items), tparams: vec![], parameters: vec![], type_: None, body: Some(body) }
}

fn annotated(mut func: FunctionSource, kind: AnnotationKind, class: &str) -> SourceEntry {
    func.decl.annotations.push(Annotation { kind, args: vec![AnnotationArg::Ident(s(class), span())], span: span() });
    SourceEntry::Function(func)
}

fn class(name: &str, base: Option<&str>, members: Vec<MemberSource>) -> SourceEntry {
    SourceEntry::Class(ClassSource {
        qualifiers: quals(vec![]),
        name: s(name),
        tparams: vec![],
        base: base.map(tn),
        members,
        span: span(),
    })
}

fn try_run(repo: TypeRepo, entries: Vec<SourceEntry>) -> Option<CompilationOutputs> {
    let result = Ok(SourceModule { path: vec![], imports: vec![], entries });
    let file = ParsedFile { byte_offset: 0, result };
    Compiler::new(repo, NameDict::new()).try_run(vec![file]).ok().unwrap()
}

fn empty_class() -> ClassType {
    ClassType {
        type_vars: vec![],
        extends: None,
        fields: NameDict::new(),
        methods: FuncMap::new(),
        statics: FuncMap::new(),
        flags: get_class_flags(&quals(vec![])),
        span: None,
    }
}

/// A pool with `IScriptable` and a class `Base` that has a method `f`.
fn pool() -> ConstantPool {
    let mut pool = ConstantPool::new();
    let mut cache = TypeCache::new();
    let repo = TypeRepo::new();
    let name = pool.add_name(s("src"));
    pool.add_definition(Definition { name, parent: UNDEFINED, value: AnyDefinition::SourceFile(0) });
    let root = ClassBuilder::new(s("IScriptable")).commit(&repo, &mut pool, &mut cache);
    let mut method = FunctionBuilder::new(s("f;;Void"));
    method.flags.has_body = true;
    method.locals = vec![LocalBuilder::new(s("n"), int32())];
    let mut base = ClassBuilder::new(s("Base"));
    base.methods = vec![method];
    let idx = base.commit_with_base(root, &repo, &mut pool, &mut cache);
    let fun = pool.class(idx).methods[0];
    let local = pool.function(fun).locals[0];
    pool.complete_function(fun, vec![local], vec![Instr::Local(local)]);
    pool
}

struct Done {
    pool: ConstantPool,
    resources: CompilationResources,
    plan: Option<Plan>,
}

fn compile(entries: Vec<SourceEntry>) -> Done {
    compile_with(pool(), entries)
}

fn compile_with(mut pool: ConstantPool, entries: Vec<SourceEntry>) -> Done {
    let mut resources = CompilationResources::try_load(&pool).unwrap();
    let mut repo = TypeRepo::new();
    std::mem::swap(&mut repo, &mut resources.type_repo);
    let out = try_run(repo, entries).unwrap();
    let plan = out.try_commit(&mut resources.db, &mut resources.type_cache, &mut pool);
    Done { pool, resources, plan }
}

#[test]
fn conditional_compilation_is_not_supported() {
    let mut entry = func("f", vec![], 0);
    entry.decl.annotations.push(Annotation {
        kind: AnnotationKind::If,
        args: vec![AnnotationArg::Other(span())],
        span: span(),
    });
    assert!(try_run(TypeRepo::new(), vec![SourceEntry::Function(entry)]).is_none());
}

#[test]
fn annotations_need_a_class_that_is_declared_before() {
    let declared = || class("C", Some("IScriptable"), vec![]);
    let change = || annotated(func("f", vec![], 0), AnnotationKind::AddMethod, "C");
    let repo = || {
        let mut repo = TypeRepo::new();
        repo.add_type(s("IScriptable"), DataType::Class(empty_class()));
        repo
    };
    assert!(try_run(repo(), vec![declared(), change()]).is_some());
    assert!(try_run(repo(), vec![change(), declared()]).is_none());
    let field = SourceEntry::GlobalLet(FieldSource {
        declaration: Declaration {
            annotations: vec![Annotation {
                kind: AnnotationKind::AddField,
                args: vec![AnnotationArg::Ident(s("C"), span())],
                span: span(),
            }],
            ..decl("x", vec![])
        },
        type_: tn("Int32"),
    });
    assert!(try_run(repo(), vec![field, declared()]).is_none());
}

#[test]
fn classes_cannot_extend_themselves() {
    assert!(try_run(TypeRepo::new(), vec![class("C", Some("C"), vec![])]).is_none());
    let ring = vec![class("A", Some("B"), vec![]), class("B", Some("A"), vec![])];
    assert!(try_run(TypeRepo::new(), ring).is_none());
}

#[test]
fn methods_cannot_override_two_others() {
    let method = |body: usize| vec![MemberSource::Method(func("f", vec![], body))];
    let mut repo = TypeRepo::new();
    repo.add_type(s("IScriptable"), DataType::Class(empty_class()));
    let chain = vec![
        class("A", None, method(0)),
        class("B", Some("A"), method(1)),
        class("C", Some("B"), method(2)),
    ];
    assert!(try_run(repo, chain).is_none());
}

#[test]
fn positions_of_syntax_errors_are_limited() {
    let err = |offset: usize| ParsedFile {
        byte_offset: 5,
        result: Err(GrammarError { expected: vec![s("x")], offset }),
    };
    let run = |file: ParsedFile| Compiler::new(TypeRepo::new(), NameDict::new()).try_run(vec![file]);
    assert!(matches!(run(err(4)), Err(found) if found.span == Span { low: 9, high: 9 }));
    assert!(matches!(run(err(usize::MAX)), Ok(None)));
}

#[test]
fn types_come_behind_what_they_extend() {
    let done = compile(vec![
        class("Third", Some("Second"), vec![]),
        class("Second", Some("Base"), vec![MemberSource::Method(func("f", vec![], 7))]),
        class("Other", None, vec![]),
    ]);
    let db = &done.resources.db;
    let at = |id: &str| db.class_index(&s(id)).unwrap();
    assert!(at("Other") < at("Second") && at("Second") < at("Third"));
    let own = db.method_index(&MemberId::new(&s("Second"), 0)).unwrap();
    let base = db.method_index(&MemberId::new(&s("Base"), 0)).unwrap();
    assert_eq!(done.pool.function(own).base_method, Some(base));
    assert_eq!(done.plan.unwrap().assemblies[0].function, own);
}

#[test]
fn functions_that_are_not_wrapped_stay() {
    let before = pool();
    let done = compile(vec![
        class("New", Some("Base"), vec![]),
        annotated(func("g", vec![], 1), AnnotationKind::AddMethod, "Base"),
    ]);
    let idx = done.resources.db.class_index(&s("Base")).unwrap();
    let fun = before.class(idx).methods[0];
    assert_eq!(done.pool.class(idx).methods[0], fun);
    assert_eq!(done.pool.class(idx).methods.len(), 2);
    assert_eq!(done.pool.function(fun).locals, before.function(fun).locals);
    assert_eq!(done.pool.def_name(fun), before.def_name(fun));
    for i in 1..before.len() {
        assert_eq!(done.pool.def_name(i), before.def_name(i));
        assert_eq!(done.pool.definition(i).parent, before.definition(i).parent);
    }
}

#[test]
fn classes_are_written_and_loaded() {
    let members = vec![
        MemberSource::Method(func("own", vec![], 0)),
        MemberSource::Method(func("shared", vec![Qualifier::Static], 1)),
        MemberSource::Field(FieldSource { declaration: decl("next", vec![Qualifier::Persistent]), type_: tn("New") }),
        MemberSource::Field(FieldSource { declaration: decl("size", vec![]), type_: tn("Int32") }),
    ];
    let done = compile(vec![class("New", Some("Base"), members)]);
    let again = CompilationResources::try_load(&done.pool).unwrap();
    let class = again.type_repo.get_class(&s("New")).unwrap();
    assert_eq!(class.extends.as_ref().unwrap().id, "Base");
    assert_eq!(class.fields.key_at(0), "next");
    assert!(class.fields.val_at(0).flags.is_persistent);
    assert!(class.fields.val_at(0).typ.same_shape(&data("New", vec![])));
    assert!(class.fields.val_at(1).typ.same_shape(&int32()));
    assert_eq!((class.methods.len(), class.statics.len()), (1, 1));
    assert_eq!(class.methods.name_of(0).name, "own");
    assert_eq!(class.statics.entry(0).signature, "shared;;Void");
    assert!(class.statics.entry(0).flags.is_final);
    let id = MemberId::new(&s("New"), 0);
    assert_eq!(again.db.method_index(&id), done.resources.db.method_index(&id));
    assert_eq!(again.db.static_index(&id), done.resources.db.static_index(&id));
}

#[test]
fn empty_compilations_change_nothing() {
    let before = pool();
    let done = compile(vec![]);
    assert_eq!(done.pool.len(), before.len());
    assert_eq!(done.plan.unwrap().assemblies.len(), 0);
}

#[test]
fn static_functions_cannot_be_added() {
    let before = pool();
    let done = compile(vec![annotated(func("g", vec![Qualifier::Static], 1), AnnotationKind::AddMethod, "Base")]);
    assert!(done.plan.is_none());
    assert_eq!(done.pool.len(), before.len());
}

#[test]
fn overridden_methods_have_to_be_defined() {
    let method = || MemberSource::Method(func("g", vec![], 1));
    let done = compile(vec![
        annotated(func("g", vec![], 0), AnnotationKind::AddMethod, "Base"),
        class("New", Some("Base"), vec![method()]),
    ]);
    assert!(done.plan.is_none());
}

#[test]
fn broken_pools_are_not_loaded() {
    assert!(is_intact(&pool()));
    // a reference to itself
    let mut ring = pool();
    let name = ring.add_name(s("ref:X"));
    let at = ring.len();
    let value = AnyDefinition::Type(PoolType::Ref(at));
    ring.add_definition(Definition { name, parent: UNDEFINED, value });
    assert!(!is_type(&ring, at));
    let mut fun = FunctionBuilder::new(s("g;X"));
    fun.params = vec![ParamBuilder::new(s("x"), data("X", vec![]))];
    let mut cache = TypeCache::new();
    cache.add(s("ref:X"), at);
    let mut repo = TypeRepo::new();
    repo.add_type(s("X"), DataType::Class(empty_class()));
    fun.commit_global(&repo, &mut ring, &mut cache);
    assert!(!is_intact(&ring));
    assert!(CompilationResources::try_load(&ring).is_none());
    // a primitive type that does not exist
    let mut odd = pool();
    let name = odd.add_name(s("Odd"));
    let at = odd.add_definition(Definition { name, parent: UNDEFINED, value: AnyDefinition::Type(PoolType::Prim) });
    assert!(!is_type(&odd, at));
}

#[test]
fn only_wrapped_methods_need_code_that_fits() {
    // a local that the method does not have
    let lost = || {
        let mut pool = pool();
        let fun = (0..pool.len()).find(|&i| pool.is_function(i)).unwrap();
        pool.complete_function(fun, vec![], vec![Instr::Local(1)]);
        pool
    };
    assert!(is_intact(&lost()));
    let method = || MemberSource::Method(func("f", vec![], 1));
    let done = compile_with(lost(), vec![class("New", Some("Base"), vec![method()])]);
    assert!(done.plan.is_some());
    let wrap = || annotated(func("f", vec![], 1), AnnotationKind::WrapMethod, "Base");
    assert!(compile_with(lost(), vec![wrap()]).plan.is_none());
    assert!(compile_with(pool(), vec![wrap()]).plan.is_some());
}

#[test]
fn indices_outside_of_the_pool_are_told_apart() {
    let pool = pool();
    assert!(!is_type(&pool, pool.len()));
    assert!(!pool.is_named(pool.len()));
    assert!(!pool.is_function(pool.len()));
    assert!(!pool.is_function(1));
    assert!(pool.is_named(1));
}

#[test]
fn types_that_can_be_described() {
    let mut repo = TypeRepo::new();
    repo.add_type(s("C"), DataType::Class(empty_class()));
    assert!(is_type_ok(&data("array", vec![data("C", vec![])]), &repo));
    assert!(is_type_ok(&Type::Top, &repo));
    assert!(!is_type_ok(&data("D", vec![]), &repo));
    assert!(!is_type_ok(&data("array", vec![data("D", vec![])]), &repo));
    assert!(!is_type_ok(&data("ref", vec![]), &repo));
}

#[test]
fn errors_of_all_steps_are_kept() {
    let mut repo = TypeRepo::new();
    repo.add_type(s("IScriptable"), DataType::Class(empty_class()));
    let native = func("f", vec![Qualifier::Native], 0);
    let abstract_method = FunctionSource { body: None, ..func("g", vec![], 0) };
    let members = vec![MemberSource::Method(native), MemberSource::Method(abstract_method)];
    let found = try_run(repo, vec![class("C", None, members)]).unwrap().into_errors();
    assert_eq!(found.len(), 3);
    assert!(matches!(&found[2], CompileError::UnimplementedMethod(name, _) if name == "g"));
}

#[test]
fn members_are_defined_in_order() {
    let mut pool = pool();
    let mut class = ClassBuilder::new(s("D"));
    class.fields = vec![FieldBuilder::new(s("a"), int32()), FieldBuilder::new(s("b"), int32())];
    let idx = class.commit(&TypeRepo::new(), &mut pool, &mut TypeCache::new());
    let names: Vec<_> = pool.class(idx).fields.iter().map(|&i| pool.def_name(i).clone()).collect();
    assert_eq!(names, vec!["a", "b"]);
    let at = pool.reserve();
    EnumBuilder { name: s("E"), members: vec![] }.commit_as(&mut pool, at);
    assert!(is_intact(&pool));
}
