use redscript_compiler::db::get_type_id;
use redscript_compiler::dict::{MemberDict, NameDict, SlotDict};
use redscript_compiler::error::{CompileError, ErrorReporter, Span, Unsupported};
use redscript_compiler::flags::{
    get_class_flags, get_field_flags, get_function_flags, FunctionFlags, Qualifier, Qualifiers,
};
use redscript_compiler::funcs::{FuncMap, FuncParam, FuncType, ScopedName};
use redscript_compiler::module_map::{generate_type_id, short_type_name, ImportItem, ModuleMap};
use redscript_compiler::scope::{Global, NameScope, ScopedMap, TypeEnv, TypeScope};
use redscript_compiler::source::{TypeName, TypeParam};
use redscript_compiler::tables::{MemberId, Slot};
use redscript_compiler::text::{number, prefix_before, split_at_each};
use redscript_compiler::types::{Parameterized, Prim, Type};

fn s(text: &str) -> String {
    text.to_string()
}

fn path(parts: &[&str]) -> Vec<String> {
    parts.iter().map(|part| part.to_string()).collect()
}

fn no_flags() -> FunctionFlags {
    get_function_flags(&Qualifiers { items: vec![] })
}

fn tn(name: &str, args: Vec<TypeName>) -> TypeName {
    TypeName { name: s(name), args }
}

fn data(id: &str, args: Vec<Type>) -> Type {
    Type::Data(Parameterized { id: s(id), args })
}

#[test]
fn dict_keeps_order_and_replaces() {
    let mut dict: NameDict<Slot> = NameDict::new();
    assert_eq!(dict.insert(s("b"), Slot { at: 1 }), 0);
    assert_eq!(dict.insert(s("a"), Slot { at: 2 }), 1);
    assert_eq!(dict.insert(s("b"), Slot { at: 3 }), 0);
    assert_eq!(dict.len(), 2);
    assert_eq!(dict.key_at(0), "b");
    assert_eq!(dict.key_at(1), "a");
    assert_eq!(dict.get(&s("b")).unwrap().at, 3);
    assert_eq!(dict.find(&s("a")), Some(1));
    assert!(dict.get(&s("c")).is_none());
    assert_eq!(dict.replace(1, Slot { at: 9 }).at, 2);
    assert_eq!(dict.val_at(1).at, 9);
}

#[test]
fn member_and_slot_dicts_tell_keys_apart() {
    let mut members: MemberDict<Slot> = MemberDict::new();
    members.insert(MemberId::new(&s("A"), 0), Slot { at: 10 });
    members.insert(MemberId::new(&s("A"), 1), Slot { at: 11 });
    members.insert(MemberId::new(&s("B"), 0), Slot { at: 12 });
    assert_eq!(members.get(&MemberId::new(&s("A"), 1)).unwrap().at, 11);
    assert_eq!(members.get(&MemberId::new(&s("B"), 0)).unwrap().at, 12);
    assert!(members.get(&MemberId::new(&s("B"), 1)).is_none());

    let mut slots: SlotDict<Slot> = SlotDict::new();
    slots.insert(Slot { at: 7 }, Slot { at: 70 });
    slots.insert(Slot { at: 8 }, Slot { at: 80 });
    assert_eq!(slots.get(&Slot { at: 7 }).unwrap().at, 70);
    assert!(slots.get(&Slot { at: 9 }).is_none());
}

#[test]
fn names_are_split_joined_and_numbered() {
    assert_eq!(split_at_each("A.B.C", '.'), path(&["A", "B", "C"]));
    assert_eq!(split_at_each("A", '.'), path(&["A"]));
    assert_eq!(split_at_each("", '.'), path(&[""]));
    assert_eq!(split_at_each("A.", '.'), path(&["A", ""]));
    assert_eq!(prefix_before("f;Int32;Void", ';'), "f");
    assert_eq!(prefix_before("f", ';'), "f");
    assert_eq!(number(0), "0");
    assert_eq!(number(907), "907");
    assert_eq!(number(usize::MAX), usize::MAX.to_string());
}

#[test]
fn type_ids_carry_the_module_path() {
    assert_eq!(generate_type_id(&s("C"), &path(&["A", "B"])), "A.B.C");
    assert_eq!(generate_type_id(&s("C"), &path(&[])), "C");
    assert_eq!(get_type_id(&s("ref")), "ref");
    assert_eq!(short_type_name(&s("A.B.C")), "C");
    assert_eq!(short_type_name(&s("C")), "C");
}

#[test]
fn flags_follow_from_qualifiers() {
    let quals = Qualifiers { items: vec![Qualifier::Static, Qualifier::Callback] };
    let flags = get_function_flags(&quals);
    assert!(flags.is_static && flags.is_final && flags.is_callback);
    assert!(!flags.is_native && !flags.has_body);
    assert!(quals.contain(Qualifier::Static));
    assert!(!quals.contain(Qualifier::Native));

    let flags = get_class_flags(&Qualifiers { items: vec![Qualifier::ImportOnly] });
    assert!(flags.is_native && flags.is_import_only && !flags.is_abstract && !flags.is_struct);

    let flags = get_field_flags(&Qualifiers {
        items: vec![Qualifier::Native, Qualifier::Persistent],
    });
    assert!(flags.is_native && flags.is_persistent);
}

#[test]
fn primitive_types_have_names() {
    assert_eq!(Prim::from_name(&s("Int32")), Some(Prim::Int32));
    assert_eq!(Prim::from_name(&s("String")), Some(Prim::Text));
    assert_eq!(Prim::from_name(&s("int32")), None);
    assert_eq!(Prim::TweakDbId.name(), "TweakDBID");
}

#[test]
fn variables_are_replaced() {
    let mut vars: NameDict<Type> = NameDict::new();
    vars.insert(s("A"), Type::Prim(Prim::Int32));
    let none: NameDict<Type> = NameDict::new();
    let typ = data("array", vec![Type::Var(s("A"))]);
    let done = typ.subst(&none, &vars);
    assert!(done.same_shape(&data("array", vec![Type::Prim(Prim::Int32)])));
    assert!(!done.same_shape(&typ));
    assert!(typ.subst(&none, &none).same_shape(&typ));
}

#[test]
fn module_map_finds_what_was_added() {
    let mut map = ModuleMap::new();
    map.add_type(&s("A.B.T"));
    map.add_type(&s("A.B.U.V"));
    map.add_function(&ScopedName::new(&s("f"), &path(&["A", "B"])), 5);
    assert!(matches!(map.get(&path(&["A", "B", "T"])), Some(ImportItem::Type(id)) if id == "A.B.T"));
    assert!(matches!(map.get(&path(&["A", "B", "f"])), Some(ImportItem::Func(5))));
    assert!(map.get(&path(&["A", "B"])).is_none());
    assert!(map.get(&path(&["A", "B", "U"])).is_none());

    let found = map.get_direct_descendants(&path(&["A", "B"])).unwrap();
    assert_eq!(found.len(), 2);
    assert!(found.iter().any(|item| matches!(item, ImportItem::Type(id) if id == "A.B.T")));
    assert!(found.iter().any(|item| matches!(item, ImportItem::Func(5))));
    assert!(map.get_direct_descendants(&path(&["A", "C"])).is_none());
    assert_eq!(map.get_direct_descendants(&path(&[])).unwrap().len(), 0);
    assert_eq!(map.get_direct_descendants(&path(&["A", "B", "T"])).unwrap().len(), 0);
}

#[test]
fn adding_to_a_module_keeps_other_items() {
    let mut map = ModuleMap::new();
    map.add_type(&s("A.T"));
    map.add_function(&ScopedName::new(&s("f"), &path(&["A"])), 1);
    map.add_function(&ScopedName::new(&s("f"), &path(&["A"])), 2);
    assert!(matches!(map.get(&path(&["A", "T"])), Some(ImportItem::Type(id)) if id == "A.T"));
    assert!(matches!(map.get(&path(&["A", "f"])), Some(ImportItem::Func(2))));
}

#[test]
fn scopes_hide_and_restore() {
    let mut types: TypeScope = ScopedMap::new();
    types.insert(s("T"), s("T"));
    types.introduce_scope();
    types.insert(s("T"), s("M.T"));
    assert_eq!(types.get(&s("T")).unwrap(), "M.T");
    let local = types.pop_scope();
    assert_eq!(local.len(), 1);
    assert_eq!(types.get(&s("T")).unwrap(), "T");
    types.push_scope(local);
    assert_eq!(types.get(&s("T")).unwrap(), "M.T");
    assert!(types.get(&s("U")).is_none());
}

#[test]
fn function_names_collect_overloads() {
    let mut names: NameScope = NameScope::new();
    names.push_global(&s("f"), Global::Func(0));
    names.push_global(&s("f"), Global::Func(0));
    names.add_global(&s("f"), Global::Func(0));
    names.add_global(&s("f"), Global::Intrinsic(0, 3));
    assert_eq!(names.get(&s("f")).unwrap().items.len(), 3);
}

#[test]
fn type_names_are_resolved() {
    let mut types: TypeScope = ScopedMap::new();
    types.insert(s("Box"), s("M.Box"));
    types.insert(s("Int32"), s("M.Int32"));
    let mut vars: NameDict<Type> = NameDict::new();
    vars.insert(s("A"), Type::Var(s("A")));
    let none: NameDict<Type> = NameDict::new();
    let env = TypeEnv { types: &types, outer: &none, inner: &vars };

    assert!(matches!(env.resolve_type(&tn("A", vec![])), Ok(Type::Var(name)) if name == "A"));
    assert!(matches!(env.resolve_type(&tn("Int32", vec![])), Ok(Type::Prim(Prim::Int32))));
    let typ = env.resolve_type(&tn("Box", vec![tn("Int32", vec![])])).ok().unwrap();
    assert!(typ.same_shape(&data("M.Box", vec![Type::Prim(Prim::Int32)])));
    let typ = env.resolve_type(&tn("Int32", vec![tn("A", vec![])])).ok().unwrap();
    assert!(typ.same_shape(&data("M.Int32", vec![Type::Var(s("A"))])));
    assert!(env.resolve_type(&tn("Box", vec![tn("Missing", vec![])])).is_err());
    assert!(env.resolve_param_type(&tn("A", vec![])).is_err());

    let var = env.instantiate_var(&TypeParam { name: s("B"), extends: None }).ok().unwrap();
    assert!(var.name == "B" && var.upper.same_shape(&Type::Top));
    let var = env
        .instantiate_var(&TypeParam { name: s("B"), extends: Some(tn("Box", vec![])) })
        .ok()
        .unwrap();
    assert!(var.upper.same_shape(&data("M.Box", vec![])));
}

#[test]
fn function_maps_replace_same_signatures() {
    let mut map = FuncMap::new();
    let int = || FuncType::new(vec![], vec![FuncParam::custom(Type::Prim(Prim::Int32), false)], Type::Prim(Prim::Void));
    let a = map.add(ScopedName::top_level(s("f")), int(), no_flags());
    let b = map.add(ScopedName::top_level(s("f")), int(), no_flags());
    assert_eq!(a, b);
    assert_eq!(map.len(), 1);
    assert_eq!(map.entry(0).signature, "f;Int32;Void");
    assert_eq!(map.exactly_one(&ScopedName::top_level(s("f"))), Some(a));
    let none = FuncType::new(vec![], vec![], Type::Prim(Prim::Void));
    let c = map.add(ScopedName::top_level(s("f")), none, no_flags());
    assert_eq!((c.func, c.slot), (0, 1));
    assert_eq!(map.exactly_one(&ScopedName::top_level(s("f"))), None);
    assert_eq!(map.exactly_one(&ScopedName::top_level(s("g"))), None);
}

#[test]
fn reporter_collects_errors_in_order() {
    let span = Span { low: 1, high: 2 };
    let mut reporter = ErrorReporter::new();
    let good: Result<u8, CompileError> = Ok(4);
    assert_eq!(reporter.unwrap_err(good), Some(4));
    let bad: Result<u8, CompileError> = Err(CompileError::UnresolvedFunction(s("f"), span));
    assert_eq!(reporter.unwrap_err(bad), None);
    reporter.report(CompileError::Unsupported(Unsupported::GlobalLetBinding, span));
    assert_eq!(reporter.len(), 2);
    let errors = reporter.into_errors();
    assert!(matches!(&errors[0], CompileError::UnresolvedFunction(name, _) if name == "f"));
    assert!(matches!(&errors[1], CompileError::Unsupported(Unsupported::GlobalLetBinding, _)));
}
