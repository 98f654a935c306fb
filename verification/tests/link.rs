use redscript_compiler::builders::{
    ClassBuilder, EnumBuilder, EnumMember, FieldBuilder, FunctionBuilder, LocalBuilder,
    ParamBuilder,
};
use redscript_compiler::compiler::Compiler;
use redscript_compiler::db::{CompilationDb, CompilationResources};
use redscript_compiler::dict::NameDict;
use redscript_compiler::error::{CompileError, Span};
use redscript_compiler::flags::{get_class_flags, Qualifier, Qualifiers, Visibility};
use redscript_compiler::pool::{
    AnyDefinition, ConstantPool, Definition, Instr, PoolIndex, PoolType, DEFAULT_SOURCE, UNDEFINED,
};
use redscript_compiler::queue::{CodeGenItem, CompilationOutputs};
use redscript_compiler::repo::{DataType, TypeRepo};
use redscript_compiler::source::{
    Annotation, AnnotationArg, AnnotationKind, ClassSource, Declaration, EnumSource, FieldSource,
    FunctionSource, MemberSource, ParameterSource, ParsedFile, SourceEntry, SourceModule, TypeName,
};
use redscript_compiler::tables::MemberId;
use redscript_compiler::type_cache::{serialize_type, TypeCache};
use redscript_compiler::types::{Parameterized, Prim, Type};

fn s(text: &str) -> String {
    text.to_string()
}

fn span() -> Span {
    Span { low: 0, high: 1 }
}

fn quals(items: Vec<Qualifier>) -> Qualifiers {
    Qualifiers { items }
}

fn data(id: &str, args: Vec<Type>) -> Type {
    Type::Data(Parameterized { id: s(id), args })
}

fn int32() -> Type {
    Type::Prim(Prim::Int32)
}

fn tn(name: &str) -> TypeName {
    TypeName { name: s(name), args: vec![] }
}

/// A pool with the source file slot, the class `IScriptable`, and a class `Game` that extends it
/// with a callback `OnHit` and a method `Tick`.
struct Game {
    pool: ConstantPool,
    class: PoolIndex,
    on_hit: PoolIndex,
    tick: PoolIndex,
}

fn game() -> Game {
    let mut pool = ConstantPool::new();
    let mut cache = TypeCache::new();
    let mut repo = TypeRepo::new();
    let name = pool.add_name(s("src"));
    pool.add_definition(redscript_compiler::pool::Definition {
        name,
        parent: UNDEFINED,
        value: AnyDefinition::SourceFile(0),
    });
    let root = ClassBuilder::new(s("IScriptable")).commit(&repo, &mut pool, &mut cache);
    repo.add_type(s("IScriptable"), DataType::Class(empty_class()));
    let mut on_hit = FunctionBuilder::new(s("OnHit;Int32;Bool"));
    on_hit.flags.is_callback = true;
    on_hit.flags.has_body = true;
    on_hit.return_type = Type::Prim(Prim::Bool);
    on_hit.params = vec![ParamBuilder::new(s("evt"), int32())];
    on_hit.locals = vec![LocalBuilder::new(s("tmp"), int32())];
    let mut tick = FunctionBuilder::new(s("Tick;"));
    tick.flags.has_body = true;
    let mut class = ClassBuilder::new(s("Game"));
    class.methods = vec![on_hit, tick];
    class.fields = vec![FieldBuilder::new(s("hp"), int32())];
    let class = class.commit_with_base(root, &repo, &mut pool, &mut cache);
    let methods = pool.class(class).methods.clone();
    let local = pool.function(methods[0]).locals[0];
    pool.complete_function(methods[0], vec![local], vec![Instr::Local(local), Instr::Other(5)]);
    Game { pool, class, on_hit: methods[0], tick: methods[1] }
}

fn empty_class() -> redscript_compiler::repo::ClassType {
    redscript_compiler::repo::ClassType {
        type_vars: vec![],
        extends: None,
        fields: NameDict::new(),
        methods: redscript_compiler::funcs::FuncMap::new(),
        statics: redscript_compiler::funcs::FuncMap::new(),
        flags: get_class_flags(&quals(vec![])),
        span: None,
    }
}

fn func(name: &str, params: Vec<(&str, &str)>, ret: Option<&str>, body: usize) -> FunctionSource {
    FunctionSource {
        decl: Declaration {
            annotations: vec![],
            qualifiers: quals(vec![]),
            name: s(name),
            span: span(),
        },
        tparams: vec![],
        parameters: params
            .into_iter()
            .map(|(name, typ)| ParameterSource { qualifiers: quals(vec![]), name: s(name), type_: tn(typ) })
            .collect(),
        type_: ret.map(tn),
        body: Some(body),
    }
}

fn wrap(mut func: FunctionSource, class: &str) -> SourceEntry {
    func.decl.annotations.push(Annotation {
        kind: AnnotationKind::WrapMethod,
        args: vec![AnnotationArg::Ident(s(class), span())],
        span: span(),
    });
    SourceEntry::Function(func)
}

fn compile(repo: TypeRepo, entries: Vec<SourceEntry>) -> CompilationOutputs {
    let file = ParsedFile {
        byte_offset: 0,
        result: Ok(SourceModule { path: vec![], imports: vec![], entries }),
    };
    Compiler::new(repo, NameDict::new()).run(vec![file]).ok().unwrap()
}

fn method(owner: &str, slot: usize) -> MemberId {
    MemberId::new(&s(owner), slot)
}

#[test]
fn types_are_described_once() {
    let mut pool = ConstantPool::new();
    let mut cache = TypeCache::new();
    let mut repo = TypeRepo::new();
    repo.add_type(s("C"), DataType::Class(empty_class()));
    let first = cache.alloc_type(&data("C", vec![]), &repo, &mut pool);
    assert_eq!(pool.def_name(first), "ref:C");
    let inner = match &pool.definition(first).value {
        AnyDefinition::Type(PoolType::Ref(inner)) => *inner,
        _ => panic!("a reference was expected"),
    };
    assert_eq!(pool.def_name(inner), "C");
    let len = pool.len();
    assert_eq!(cache.alloc_type(&data("C", vec![]), &repo, &mut pool), first);
    assert_eq!(cache.alloc_type(&data("ref", vec![data("C", vec![])]), &repo, &mut pool), first);
    assert_eq!(pool.len(), len);
    let weak = cache.alloc_type(&data("wref", vec![data("C", vec![])]), &repo, &mut pool);
    assert!(matches!(&pool.definition(weak).value, AnyDefinition::Type(PoolType::WeakRef(to)) if *to == inner));
    let array = cache.alloc_type(&data("array", vec![data("C", vec![])]), &repo, &mut pool);
    assert_eq!(pool.def_name(array), "array:ref:C");
    assert!(matches!(&pool.definition(array).value, AnyDefinition::Type(PoolType::Array(to)) if *to == first));
    let top = cache.alloc_type(&Type::Top, &repo, &mut pool);
    assert_eq!(pool.def_name(top), "ref:IScriptable");
    assert_eq!(cache.alloc_type(&Type::Var(s("A")), &repo, &mut pool), top);
    let prim = cache.alloc_type(&int32(), &repo, &mut pool);
    assert!(matches!(&pool.definition(prim).value, AnyDefinition::Type(PoolType::Prim)));
    assert_eq!(serialize_type(&data("script_ref", vec![int32()]), &repo, true), "script_ref:Int32");
}

#[test]
fn cached_types_are_taken_over() {
    let mut pool = ConstantPool::new();
    let mut cache = TypeCache::new();
    cache.add(s("Int32"), 42);
    assert_eq!(cache.find(&s("Int32")), Some(42));
    assert_eq!(cache.find(&s("Bool")), None);
    assert_eq!(cache.alloc_type(&int32(), &TypeRepo::new(), &mut pool), 42);
    assert_eq!(pool.len(), 1);
}

#[test]
fn written_types_are_loaded_again() {
    let mut pool = ConstantPool::new();
    let mut cache = TypeCache::new();
    let mut repo = TypeRepo::new();
    repo.add_type(s("C"), DataType::Class(empty_class()));
    let cases = vec![
        (int32(), int32()),
        (data("C", vec![]), data("C", vec![])),
        (data("ref", vec![data("C", vec![])]), data("C", vec![])),
        (data("wref", vec![data("C", vec![])]), data("wref", vec![data("C", vec![])])),
        (
            data("array", vec![data("script_ref", vec![int32()])]),
            data("array", vec![data("script_ref", vec![int32()])]),
        ),
        (Type::Bottom, data("IScriptable", vec![])),
    ];
    for (written, expected) in cases {
        let idx = cache.alloc_type(&written, &repo, &mut pool);
        assert!(CompilationDb::load_type(idx, &pool).same_shape(&expected));
    }
}

#[test]
fn functions_are_defined_with_their_parameters() {
    let mut pool = ConstantPool::new();
    let mut cache = TypeCache::new();
    let repo = TypeRepo::new();
    let mut fun = FunctionBuilder::new(s("f;Int32;Bool"));
    fun.return_type = Type::Prim(Prim::Bool);
    fun.visibility = Visibility::Public;
    let mut param = ParamBuilder::new(s("a"), int32()).renamed(s("b"));
    param.flags.is_out = true;
    fun.params = vec![param];
    fun.locals = vec![LocalBuilder::new(s("l"), int32())];
    let idx = fun.commit_global(&repo, &mut pool, &mut cache);
    assert_eq!(pool.def_name(idx), "f;Int32;Bool");
    assert_eq!(pool.definition(idx).parent, UNDEFINED);
    let def = pool.function(idx);
    assert_eq!(def.source.unwrap().file, DEFAULT_SOURCE);
    assert_eq!(pool.def_name(def.parameters[0]), "b");
    assert_eq!(pool.definition(def.parameters[0]).parent, idx);
    assert_eq!(pool.def_name(def.locals[0]), "l");
    let (name, signature, typ) = CompilationDb::load_function(idx, &pool);
    assert_eq!((name.as_str(), signature.as_str()), ("f", "f;Int32;Bool"));
    assert!(typ.params[0].is_out && typ.params[0].typ.same_shape(&int32()));
    assert!(typ.ret.same_shape(&Type::Prim(Prim::Bool)));

    let unit = FunctionBuilder::new(s("g;")).commit_global(&repo, &mut pool, &mut cache);
    assert!(pool.function(unit).return_type.is_none());
    assert!(CompilationDb::load_function(unit, &pool).2.ret.same_shape(&Type::Prim(Prim::Void)));
}

#[test]
fn callbacks_take_over_parameter_names() {
    let mut game = game();
    let mut cache = TypeCache::new();
    let repo = TypeRepo::new();
    let mut fun = FunctionBuilder::new(s("OnHit;Int32;Bool"));
    fun.flags.is_callback = true;
    fun.base = Some(game.on_hit);
    fun.params = vec![ParamBuilder::new(s("p0"), int32()), ParamBuilder::new(s("p1"), int32())];
    let idx = fun.commit(game.class, &repo, &mut game.pool, &mut cache);
    assert_eq!(param_names(&game.pool, idx), vec!["evt", "evt"]);
    assert!(game.pool.function(idx).flags.is_callback);
    let mut wrapper = FunctionBuilder::new(s("w")).with_wrapper_flag();
    wrapper.flags.is_callback = true;
    let idx = wrapper.commit(game.class, &repo, &mut game.pool, &mut cache);
    assert!(!game.pool.function(idx).flags.is_callback);
}

fn param_names(pool: &ConstantPool, fun: PoolIndex) -> Vec<String> {
    pool.function(fun).parameters.iter().map(|&param| pool.def_name(param).clone()).collect()
}

#[test]
fn callback_names_go_by_position() {
    let mut game = game();
    let mut cache = TypeCache::new();
    let repo = TypeRepo::new();
    let params = |names: &[&str]| names.iter().map(|name| ParamBuilder::new(s(name), int32())).collect();
    let mut base = FunctionBuilder::new(s("OnMove;Int32Int32;Void"));
    base.params = params(&["from", "to"]);
    let above = base.commit(game.class, &repo, &mut game.pool, &mut cache);
    let mut fun = FunctionBuilder::new(s("OnMove;Int32Int32;Void"));
    fun.flags.is_callback = true;
    fun.base = Some(above);
    fun.params = params(&["p0", "p1"]);
    let idx = fun.commit(game.class, &repo, &mut game.pool, &mut cache);
    assert_eq!(param_names(&game.pool, idx), vec!["from", "to"]);
    let mut longer = FunctionBuilder::new(s("OnMove;Int32Int32Int32;Void"));
    longer.flags.is_callback = true;
    longer.base = Some(above);
    longer.params = params(&["p0", "p1", "p2"]);
    let idx = longer.commit(game.class, &repo, &mut game.pool, &mut cache);
    assert_eq!(param_names(&game.pool, idx), vec!["from", "to", "from"]);
    let mut bare = FunctionBuilder::new(s("OnMove;Int32;Void"));
    bare.flags.is_callback = true;
    bare.base = Some(FunctionBuilder::new(s("OnMove;;Void")).commit(game.class, &repo, &mut game.pool, &mut cache));
    bare.params = params(&["p0"]);
    let idx = bare.commit(game.class, &repo, &mut game.pool, &mut cache);
    assert_eq!(param_names(&game.pool, idx), vec!["p0"]);
    let mut plain = FunctionBuilder::new(s("OnMove;Int32Int32;Void"));
    plain.base = Some(above);
    plain.params = params(&["p0", "p1"]);
    let idx = plain.commit(game.class, &repo, &mut game.pool, &mut cache);
    assert_eq!(param_names(&game.pool, idx), vec!["p0", "p1"]);
}

#[test]
fn enums_are_written_and_loaded() {
    let mut pool = ConstantPool::new();
    let idx = pool.reserve();
    let members = vec![
        EnumMember { name: s("A"), value: 3 },
        EnumMember { name: s("B"), value: -4 },
    ];
    assert_eq!(EnumBuilder { name: s("E"), members }.commit_as(&mut pool, idx), idx);
    assert_eq!(pool.enum_(idx).size, 2);
    let res = CompilationResources::load(&pool);
    match res.type_repo.get_type(&s("E")) {
        Some(DataType::Enum(found)) => {
            assert_eq!(found.members.len(), 2);
            assert_eq!((found.members.key_at(1).as_str(), *found.members.val_at(1)), ("B", -4));
        }
        _ => panic!("an enum was expected"),
    }
    assert_eq!(res.db.enum_index(&s("E")), Some(idx));
}

#[test]
fn existing_definitions_are_loaded() {
    let mut game = game();
    let mut cache = TypeCache::new();
    let global = FunctionBuilder::new(s("Log;String"));
    let global = global.commit_global(&TypeRepo::new(), &mut game.pool, &mut cache);
    let res = CompilationResources::load(&game.pool);
    let class = res.type_repo.get_class(&s("Game")).unwrap();
    assert_eq!(class.extends.as_ref().unwrap().id, "IScriptable");
    assert!(class.fields.get(&s("hp")).unwrap().typ.same_shape(&int32()));
    assert_eq!(class.methods.len(), 2);
    assert_eq!(class.methods.name_of(1).name, "Tick");
    assert_eq!(res.db.class_index(&s("Game")), Some(game.class));
    assert_eq!(res.db.method_index(&method("Game", 0)), Some(game.on_hit));
    assert_eq!(res.db.method_index(&method("Game", 1)), Some(game.tick));
    assert_eq!(res.db.method_index(&method("Game", 2)), None);
    assert_eq!(res.db.global_index(0), Some(global));
    assert_eq!(res.type_repo.globals.name_of(0).name, "Log");
    assert!(res.type_cache.find(&s("Int32")).is_some());
}

#[test]
fn types_and_functions_are_committed() {
    let mut game = game();
    let CompilationResources { type_repo, mut type_cache, mut db } = CompilationResources::load(&game.pool);
    let class = ClassSource {
        qualifiers: quals(vec![]),
        name: s("Mod"),
        tparams: vec![],
        base: Some(tn("Game")),
        members: vec![
            MemberSource::Method(func("OnHit", vec![("x", "Int32")], Some("Bool"), 1)),
            MemberSource::Field(FieldSource {
                declaration: Declaration {
                    annotations: vec![],
                    qualifiers: quals(vec![Qualifier::Persistent]),
                    name: s("score"),
                    span: span(),
                },
                type_: TypeName { name: s("array"), args: vec![tn("Mod")] },
            }),
        ],
        span: span(),
    };
    let members = vec![EnumMember { name: s("On"), value: 1 }];
    let out = compile(
        type_repo,
        vec![
            SourceEntry::Class(class),
            SourceEntry::Enum(EnumSource { name: s("State"), members, span: span() }),
            SourceEntry::Function(func("Run", vec![], None, 2)),
        ],
    );
    assert_eq!(out.reporter().len(), 0);
    let plan = out.commit(&mut db, &mut type_cache, &mut game.pool);
    let pool = &mut game.pool;
    let idx = db.class_index(&s("Mod")).unwrap();
    assert_eq!(pool.def_name(idx), "Mod");
    assert_eq!(pool.class(idx).base, game.class);
    let own = db.method_index(&method("Mod", 0)).unwrap();
    assert_eq!(pool.class(idx).methods, vec![own]);
    assert_eq!(pool.def_name(own), "OnHit;Int32;Bool");
    assert_eq!(pool.function(own).base_method, Some(game.on_hit));
    assert_eq!(pool.definition(own).parent, idx);
    let field = pool.class(idx).fields[0];
    assert_eq!(pool.def_name(field), "score");
    match &pool.definition(field).value {
        AnyDefinition::Field(def) => assert_eq!(pool.def_name(def.type_), "array:ref:Mod"),
        _ => panic!("a field was expected"),
    }
    assert!(pool.enum_(db.enum_index(&s("State")).unwrap()).members.len() == 1);
    let run = db.global_index(0).unwrap();
    assert!(pool.function(run).flags.is_static && pool.function(run).flags.is_final);
    assert_eq!(pool.definition(run).parent, UNDEFINED);

    assert_eq!(plan.assemblies.len(), 2);
    assert_eq!((plan.assemblies[0].function, plan.assemblies[0].task.body), (own, 1));
    assert_eq!(plan.assemblies[0].parameters, pool.function(own).parameters);
    assert_eq!(pool.def_name(plan.assemblies[0].parameters[0]), "p0");
    assert_eq!((plan.assemblies[1].function, plan.assemblies[1].wrapped), (run, None));
    pool.complete_function(run, vec![], vec![Instr::Other(1)]);

    let again = CompilationResources::load(pool);
    let class = again.type_repo.get_class(&s("Mod")).unwrap();
    assert!(class.fields.get(&s("score")).unwrap().typ.same_shape(&data("array", vec![data("Mod", vec![])])));
    assert_eq!(class.extends.as_ref().unwrap().id, "Game");
}

#[test]
fn one_wrapper_changes_places_with_the_method() {
    let mut game = game();
    let before = game.pool.function(game.on_hit).locals[0];
    let CompilationResources { type_repo, mut type_cache, mut db } = CompilationResources::load(&game.pool);
    let out = compile(type_repo, vec![wrap(func("OnHit", vec![("e", "Int32")], Some("Bool"), 9), "Game")]);
    let plan = out.commit(&mut db, &mut type_cache, &mut game.pool);
    let pool = &game.pool;
    let done = &plan.assemblies[0];
    // callers find the wrapper where the method was
    assert_eq!(done.function, game.on_hit);
    let moved = done.wrapped.unwrap();
    assert_eq!(pool.def_name(game.on_hit), "OnHit;Int32;Bool");
    assert_eq!(pool.def_name(moved), "wrapper$0$OnHit;Int32;Bool");
    assert!(pool.function(game.on_hit).flags.is_callback);
    assert!(!pool.function(moved).flags.is_callback);
    assert!(pool.function(game.on_hit).code.is_empty());
    let local = pool.function(moved).locals[0];
    assert_ne!(local, before);
    assert_eq!(pool.definition(local).parent, moved);
    assert_eq!(pool.def_name(local), "tmp");
    match &pool.function(moved).code[..] {
        [Instr::Local(used), Instr::Other(5)] => assert_eq!(*used, local),
        _ => panic!("the code of the method was expected"),
    }
    assert_eq!(pool.def_name(pool.function(game.on_hit).parameters[0]), "evt");
    assert_eq!(pool.class(game.class).methods.len(), 3);
}

#[test]
fn wrappers_call_each_other_down_to_the_method() {
    let mut game = game();
    let CompilationResources { type_repo, mut type_cache, mut db } = CompilationResources::load(&game.pool);
    let out = compile(
        type_repo,
        vec![
            wrap(func("Tick", vec![], None, 1), "Game"),
            wrap(func("Tick", vec![], None, 2), "Game"),
            wrap(func("Tick", vec![], None, 3), "Game"),
        ],
    );
    let plan = out.commit(&mut db, &mut type_cache, &mut game.pool);
    let [first, second, third] = &plan.assemblies[..] else {
        panic!("three functions were expected");
    };
    assert_eq!(third.function, game.tick);
    assert_eq!(third.wrapped, Some(second.function));
    assert_eq!(second.wrapped, Some(first.function));
    let moved = first.wrapped.unwrap();
    assert_eq!(game.pool.def_name(moved), "wrapper$2$Tick;");
    assert_eq!(game.pool.def_name(first.function), "wrapper$0$Tick;");
    assert_eq!(game.pool.def_name(second.function), "wrapper$1$Tick;");
    assert_eq!(game.pool.def_name(third.function), "Tick;");
}

#[test]
fn wrapped_methods_are_kept_beside_each_other() {
    let mut game = game();
    let CompilationResources { type_repo, mut type_cache, mut db } = CompilationResources::load(&game.pool);
    let hit = |body| wrap(func("OnHit", vec![("e", "Int32")], Some("Bool"), body), "Game");
    let tick = wrap(func("Tick", vec![], None, 3), "Game");
    let out = compile(type_repo, vec![hit(1), tick, hit(2)]);
    let plan = out.commit(&mut db, &mut type_cache, &mut game.pool);
    let [first, other, last] = &plan.assemblies[..] else {
        panic!("three functions were expected");
    };
    assert_eq!(last.function, game.on_hit);
    assert_eq!(last.wrapped, Some(first.function));
    assert_eq!(other.function, game.tick);
    let moved = first.wrapped.unwrap();
    let local = game.pool.function(moved).locals[0];
    assert!(matches!(&game.pool.function(moved).code[..], [Instr::Local(at), Instr::Other(5)] if *at == local));
    assert_eq!(game.pool.def_name(local), "tmp");
    assert!(game.pool.function(game.on_hit).code.is_empty());
    assert!(game.pool.function(game.on_hit).flags.is_callback);
    assert!(!game.pool.function(moved).flags.is_callback);
    assert!(!game.pool.function(first.function).flags.is_callback);
    assert_eq!(param_names(&game.pool, game.on_hit), vec!["evt"]);
    assert_eq!(param_names(&game.pool, moved), vec!["evt"]);
    let places = [first.function, other.function, last.function];
    assert!(!places.contains(&moved));
}

#[test]
fn loaded_types_are_found_again() {
    let mut game = game();
    let CompilationResources { type_repo, mut type_cache, .. } = CompilationResources::load(&game.pool);
    let len = game.pool.len();
    let known = type_cache.find(&s("Int32")).unwrap();
    assert_eq!(type_cache.alloc_type(&int32(), &type_repo, &mut game.pool), known);
    assert_eq!(game.pool.len(), len);
    assert_eq!(game.pool.def_name(known), "Int32");
    let top = type_cache.alloc_type(&Type::Top, &type_repo, &mut game.pool);
    let len = game.pool.len();
    for same in [Type::Bottom, Type::Var(s("T")), data("IScriptable", vec![])] {
        assert_eq!(type_cache.alloc_type(&same, &type_repo, &mut game.pool), top);
    }
    assert_eq!(game.pool.len(), len);
    assert!(matches!(&game.pool.definition(top).value, AnyDefinition::Type(PoolType::Ref(_))));
}

#[test]
fn types_come_back_beside_a_static_array() {
    let mut game = game();
    let element = CompilationResources::load(&game.pool).type_cache.find(&s("Int32")).unwrap();
    let name = game.pool.add_name(s("[3]Int32"));
    let fixed = game.pool.reserve();
    let value = AnyDefinition::Type(PoolType::StaticArray(element, 3));
    game.pool.put_definition(fixed, Definition { name, parent: UNDEFINED, value });
    let CompilationResources { type_repo, mut type_cache, .. } = CompilationResources::load(&game.pool);
    assert_eq!(type_cache.find(&s("[3]Int32")), Some(fixed));
    assert!(CompilationDb::load_type(fixed, &game.pool).same_shape(&data("array", vec![int32()])));
    let written = data("array", vec![data("Game", vec![])]);
    let idx = type_cache.alloc_type(&written, &type_repo, &mut game.pool);
    assert!(CompilationDb::load_type(idx, &game.pool).same_shape(&written));
    let array = type_cache.alloc_type(&data("array", vec![int32()]), &type_repo, &mut game.pool);
    assert_ne!(array, fixed);
    assert!(CompilationDb::load_type(array, &game.pool).same_shape(&data("array", vec![int32()])));
}

#[test]
fn locals_are_copied_behind_everything_else() {
    let mut game = game();
    let len = game.pool.len();
    CompilationOutputs::remap_locals(game.tick, game.on_hit, &mut game.pool);
    let fun = game.pool.function(game.on_hit);
    assert_eq!(fun.locals, vec![len]);
    assert_eq!(game.pool.definition(len).parent, game.tick);
    assert!(matches!(&fun.code[..], [Instr::Local(at), Instr::Other(5)] if *at == len));
}

#[test]
fn errors_found_later_are_added() {
    let mut out = compile(TypeRepo::new(), vec![]);
    out.report(CompileError::UnresolvedFunction(s("f"), span()));
    assert_eq!(out.reporter().len(), 1);
    assert!(matches!(&out.into_errors()[..], [CompileError::UnresolvedFunction(name, _)] if name == "f"));
}

#[test]
fn added_methods_are_listed_in_their_class() {
    let mut game = game();
    let CompilationResources { type_repo, mut type_cache, mut db } = CompilationResources::load(&game.pool);
    let mut added = func("Jump", vec![("h", "Int32")], None, 4);
    added.decl.annotations.push(Annotation {
        kind: AnnotationKind::AddMethod,
        args: vec![AnnotationArg::Ident(s("Game"), span())],
        span: span(),
    });
    let out = compile(type_repo, vec![SourceEntry::Function(added)]);
    assert!(matches!(&out.codegen_queue[0], CodeGenItem::AddMethod(id, _, false) if id.slot == 2));
    let plan = out.commit(&mut db, &mut type_cache, &mut game.pool);
    let idx = db.method_index(&method("Game", 2)).unwrap();
    assert_eq!(plan.assemblies[0].function, idx);
    assert_eq!(game.pool.class(game.class).methods.last(), Some(&idx));
    assert_eq!(game.pool.def_name(idx), "Jump;Int32;Void");
}
