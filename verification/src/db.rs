//! Where the compiled program finds the definitions of the constant pool, and how the types and
//! functions of an existing pool are loaded.
use vstd::prelude::*;

use crate::dict::{views, DictV, NameDict};
use crate::funcs::{
    top_level, FuncMap, FuncMapV, FuncParam, FuncParamV, FuncType, FuncTypeV, ScopedName,
};
use crate::pool::{
    AnyDefinition, AnyDefinitionV, ConstantPool, PoolIndex, PoolType, PoolTypeV, PoolV, UNDEFINED,
};
use crate::repo::{
    array_id, builtin_types, script_ref_id, wref_id, ClassType, ClassTypeV, DataType, DataTypeV,
    EnumType, Field, FieldV, RepoV, TypeRepo,
};
use crate::tables::{KeyTable, MemberId, MemberIdV, MemberTable, NameTable, Slot, SlotTable};
use crate::text::{before, prefix_before};
use crate::type_cache::TypeCache;
use crate::types::{lemma_data_view, prim_named, Parameterized, ParameterizedV, Prim, Type, TypeV};

verus! {

/// A built-in type with one argument.
pub open spec fn applied(id: Seq<char>, arg: TypeV) -> TypeV {
    TypeV::Data(ParameterizedV { id, args: seq![arg] })
}

/// The type that the pool describes at an index, read through at most `n` definitions. There is
/// none where the description does not end, leads out of the pool, or names a primitive type that
/// does not exist.
pub open spec fn type_within(pool: PoolV, idx: int, n: nat) -> Option<TypeV>
    decreases n,
{
    if n == 0 || !pool.has(idx) {
        None
    } else {
        match pool.value(idx) {
            AnyDefinitionV::Type(typ) => match typ {
                PoolTypeV::Prim => if pool.is_named(idx) {
                    match prim_named(pool.name_of(idx)) {
                        Some(prim) => Some(TypeV::Prim(prim)),
                        None => None,
                    }
                } else {
                    None
                },
                PoolTypeV::Class => if pool.is_named(idx) {
                    Some(
                        TypeV::Data(
                            ParameterizedV { id: pool.name_of(idx), args: Seq::empty() },
                        ),
                    )
                } else {
                    None
                },
                PoolTypeV::Ref(inner) => type_within(pool, inner, (n - 1) as nat),
                PoolTypeV::WeakRef(inner) => match type_within(pool, inner, (n - 1) as nat) {
                    Some(arg) => Some(applied(wref_id(), arg)),
                    None => None,
                },
                PoolTypeV::ScriptRef(inner) => match type_within(pool, inner, (n - 1) as nat) {
                    Some(arg) => Some(applied(script_ref_id(), arg)),
                    None => None,
                },
                PoolTypeV::Array(inner) => match type_within(pool, inner, (n - 1) as nat) {
                    Some(arg) => Some(applied(array_id(), arg)),
                    None => None,
                },
                PoolTypeV::StaticArray(inner, _) => match type_within(
                    pool,
                    inner,
                    (n - 1) as nat,
                ) {
                    Some(arg) => Some(applied(array_id(), arg)),
                    None => None,
                },
            },
            _ => None,
        }
    }
}

/// Whether the pool describes a type at an index.
pub open spec fn describes_type(pool: PoolV, idx: int) -> bool {
    exists|n: nat| type_within(pool, idx, n) is Some
}

/// The type that the pool describes at an index. References to classes are left out.
pub open spec fn described_type(pool: PoolV, idx: int) -> TypeV {
    type_within(pool, idx, choose|n: nat| type_within(pool, idx, n) is Some)->0
}

/// How far one reads does not matter once the description ends.
pub proof fn lemma_type_within(pool: PoolV, idx: int, n: nat, m: nat)
    requires
        type_within(pool, idx, n) is Some,
        n <= m,
    ensures
        type_within(pool, idx, m) == type_within(pool, idx, n),
    decreases n,
{
    match pool.value(idx) {
        AnyDefinitionV::Type(typ) => match typ {
            PoolTypeV::Ref(inner)
            | PoolTypeV::WeakRef(inner)
            | PoolTypeV::ScriptRef(inner)
            | PoolTypeV::Array(inner)
            | PoolTypeV::StaticArray(inner, _) => {
                lemma_type_within(pool, inner, (n - 1) as nat, (m - 1) as nat);
            },
            _ => {},
        },
        _ => {},
    }
}

pub proof fn lemma_described_type(pool: PoolV, idx: int, n: nat)
    requires
        type_within(pool, idx, n) is Some,
    ensures
        describes_type(pool, idx),
        described_type(pool, idx) == type_within(pool, idx, n)->0,
{
    let m = choose|m: nat| type_within(pool, idx, m) is Some;
    if n <= m {
        lemma_type_within(pool, idx, n, m);
    } else {
        lemma_type_within(pool, idx, m, n);
    }
}

/// Whether the pool describes a function at an index, with all the types that it mentions.
pub open spec fn describes_function(pool: PoolV, idx: int) -> bool {
    &&& pool.is_named(idx)
    &&& pool.value(idx) is Function
    &&& pool.value(idx)->Function_0.return_type matches Some(ret) ==> describes_type(pool, ret)
    &&& forall|i: int|
        #![trigger pool.value(idx)->Function_0.parameters[i]]
        0 <= i < pool.value(idx)->Function_0.parameters.len() ==> describes_param(
            pool,
            pool.value(idx)->Function_0.parameters[i],
        )
}

/// Whether the pool describes a parameter at an index.
pub open spec fn describes_param(pool: PoolV, idx: int) -> bool {
    &&& pool.has(idx)
    &&& pool.value(idx) is Parameter
    &&& describes_type(pool, pool.value(idx)->Parameter_0.type_)
}

/// The parameter that the pool describes at an index.
pub open spec fn described_param(pool: PoolV, idx: int) -> FuncParamV {
    FuncParamV {
        typ: described_type(pool, pool.value(idx)->Parameter_0.type_),
        is_out: pool.value(idx)->Parameter_0.flags.is_out,
        is_poly: false,
    }
}

/// The type of the function that the pool describes at an index. A function without a result type
/// returns nothing.
pub open spec fn described_function(pool: PoolV, idx: int) -> FuncTypeV {
    let fun = pool.value(idx)->Function_0;
    FuncTypeV {
        type_vars: Seq::empty(),
        params: Seq::new(
            fun.parameters.len(),
            |i: int| described_param(pool, fun.parameters[i]),
        ),
        ret: match fun.return_type {
            Some(ret) => described_type(pool, ret),
            None => TypeV::Prim(Prim::Void),
        },
        is_ret_poly: false,
    }
}

/// The name of a function without its signature.
pub open spec fn short_name(name: Seq<char>) -> Seq<char> {
    before(name, ';')
}

/// Whether the pool describes a field at an index.
pub open spec fn describes_field(pool: PoolV, idx: int) -> bool {
    &&& pool.is_named(idx)
    &&& pool.value(idx) is Field
    &&& describes_type(pool, pool.value(idx)->Field_0.type_)
}

/// The field that the pool describes at an index.
pub open spec fn described_field(pool: PoolV, idx: int) -> FieldV {
    FieldV {
        typ: described_type(pool, pool.value(idx)->Field_0.type_),
        flags: pool.value(idx)->Field_0.flags,
    }
}

/// Whether the pool describes a class at an index, with all that belongs to it.
pub open spec fn describes_class(pool: PoolV, idx: int) -> bool {
    let class = pool.value(idx)->Class_0;
    &&& pool.is_named(idx)
    &&& pool.value(idx) is Class
    &&& class.base != UNDEFINED ==> pool.is_named(class.base)
    &&& forall|i: int|
        #![trigger class.fields[i]]
        0 <= i < class.fields.len() ==> describes_field(pool, class.fields[i])
    &&& forall|i: int|
        #![trigger class.methods[i]]
        0 <= i < class.methods.len() ==> describes_function(pool, class.methods[i])
}

/// Whether the pool describes an enum at an index, with its members.
pub open spec fn describes_enum(pool: PoolV, idx: int) -> bool {
    &&& pool.is_named(idx)
    &&& pool.value(idx) is Enum
    &&& forall|i: int|
        #![trigger pool.value(idx)->Enum_0.members[i]]
        0 <= i < pool.value(idx)->Enum_0.members.len() ==> {
            let member = pool.value(idx)->Enum_0.members[i];
            pool.is_named(member) && pool.value(member) is EnumValue
        }
}

/// The model of the index from types and members to definitions.
#[verifier::ext_equal]
pub struct DbV {
    pub classes: Map<Seq<char>, int>,
    pub fields: Map<MemberIdV, int>,
    pub methods: Map<MemberIdV, int>,
    pub statics: Map<MemberIdV, int>,
    pub globals: Map<int, int>,
    pub enums: Map<Seq<char>, int>,
    pub enum_members: Map<MemberIdV, int>,
}

impl DbV {
    pub open spec fn empty() -> DbV {
        DbV {
            classes: Map::empty(),
            fields: Map::empty(),
            methods: Map::empty(),
            statics: Map::empty(),
            globals: Map::empty(),
            enums: Map::empty(),
            enum_members: Map::empty(),
        }
    }
}

/// The member of a type at a place.
pub open spec fn member(owner: Seq<char>, slot: int) -> MemberIdV {
    MemberIdV { owner, slot }
}

/// The fields of a class after the first `n` of them have been loaded, and the index with them.
pub open spec fn load_fields(pool: PoolV, owner: Seq<char>, fields: Seq<int>, n: int, db: DbV) -> (
    DictV<Seq<char>, FieldV>,
    DbV,
)
    decreases n,
{
    if n <= 0 {
        (DictV::empty(), db)
    } else {
        let (dict, db) = load_fields(pool, owner, fields, n - 1, db);
        let idx = fields[n - 1];
        let name = pool.name_of(idx);
        (
            dict.put(name, described_field(pool, idx)),
            DbV { fields: db.fields.insert(member(owner, dict.slot(name)), idx), ..db },
        )
    }
}

/// The functions of a class, static and not.
pub struct ClassFuncsV {
    pub methods: FuncMapV,
    pub statics: FuncMapV,
}

/// The functions of a class after the first `n` of them have been loaded, and the index with them.
pub open spec fn load_methods(
    pool: PoolV,
    owner: Seq<char>,
    methods: Seq<int>,
    n: int,
    db: DbV,
) -> (ClassFuncsV, DbV)
    decreases n,
{
    if n <= 0 {
        (ClassFuncsV { methods: FuncMapV::empty(), statics: FuncMapV::empty() }, db)
    } else {
        let (funcs, db) = load_methods(pool, owner, methods, n - 1, db);
        let idx = methods[n - 1];
        let signature = pool.name_of(idx);
        let name = top_level(short_name(signature));
        let typ = described_function(pool, idx);
        let flags = pool.value(idx)->Function_0.flags;
        if flags.is_static {
            (
                ClassFuncsV {
                    statics: funcs.statics.add_with_signature(name, signature, typ, flags),
                    ..funcs
                },
                DbV {
                    statics: db.statics.insert(
                        member(owner, funcs.statics.slot_for(name, signature)),
                        idx,
                    ),
                    ..db
                },
            )
        } else {
            (
                ClassFuncsV {
                    methods: funcs.methods.add_with_signature(name, signature, typ, flags),
                    ..funcs
                },
                DbV {
                    methods: db.methods.insert(
                        member(owner, funcs.methods.slot_for(name, signature)),
                        idx,
                    ),
                    ..db
                },
            )
        }
    }
}

/// The class that the pool describes at an index, and the index of definitions with it.
pub open spec fn load_class(pool: PoolV, owner: Seq<char>, idx: int, db: DbV) -> (ClassTypeV, DbV) {
    let class = pool.value(idx)->Class_0;
    let start = DbV { classes: db.classes.insert(owner, idx), ..db };
    let (fields, mid) = load_fields(pool, owner, class.fields, class.fields.len() as int, start);
    let (funcs, end) = load_methods(pool, owner, class.methods, class.methods.len() as int, mid);
    (
        ClassTypeV {
            type_vars: Seq::empty(),
            extends: if class.base == UNDEFINED {
                None
            } else {
                Some(ParameterizedV { id: pool.name_of(class.base), args: Seq::empty() })
            },
            fields,
            methods: funcs.methods,
            statics: funcs.statics,
            flags: class.flags,
            span: None,
        },
        end,
    )
}

/// The first `n` members of the enum that the pool describes, and the index with them.
pub open spec fn load_members(
    pool: PoolV,
    owner: Seq<char>,
    members: Seq<int>,
    n: int,
    db: DbV,
) -> (DictV<Seq<char>, i64>, DbV)
    decreases n,
{
    if n <= 0 {
        (DictV::empty(), db)
    } else {
        let (dict, db) = load_members(pool, owner, members, n - 1, db);
        let idx = members[n - 1];
        let name = pool.name_of(idx);
        (
            dict.put(name, pool.value(idx)->EnumValue_0),
            DbV { enum_members: db.enum_members.insert(member(owner, dict.slot(name)), idx), ..db },
        )
    }
}

/// The enum that the pool describes at an index, and the index of definitions with it.
pub open spec fn load_enum(pool: PoolV, owner: Seq<char>, idx: int, db: DbV) -> (
    DictV<Seq<char>, i64>,
    DbV,
) {
    let members = pool.value(idx)->Enum_0.members;
    load_members(
        pool,
        owner,
        members,
        members.len() as int,
        DbV { enums: db.enums.insert(owner, idx), ..db },
    )
}

/// The index from types and members to the definitions of the pool.
pub struct CompilationDb {
    pub(crate) classes: NameTable,
    pub(crate) fields: MemberTable,
    pub(crate) methods: MemberTable,
    pub(crate) statics: MemberTable,
    pub(crate) globals: SlotTable,
    pub(crate) enums: NameTable,
    pub(crate) enum_members: MemberTable,
}

impl View for CompilationDb {
    type V = DbV;

    closed spec fn view(&self) -> DbV {
        DbV {
            classes: self.classes@,
            fields: self.fields@,
            methods: self.methods@,
            statics: self.statics@,
            globals: self.globals@,
            enums: self.enums@,
            enum_members: self.enum_members@,
        }
    }
}

/// The type of a name that a definition bears. The name is its own identifier.
pub fn get_type_id(name: &String) -> (res: String)
    ensures
        res@ == name@,
{
    name.clone()
}

impl CompilationDb {
    pub fn new() -> (res: CompilationDb)
        ensures
            res@ == DbV::empty(),
    {
        CompilationDb {
            classes: NameTable::empty(),
            fields: MemberTable::empty(),
            methods: MemberTable::empty(),
            statics: MemberTable::empty(),
            globals: SlotTable::empty(),
            enums: NameTable::empty(),
            enum_members: MemberTable::empty(),
        }
    }

    fn load_type_within(idx: PoolIndex, pool: &ConstantPool, Ghost(n): Ghost<nat>) -> (res: Type)
        requires
            type_within(pool@, idx as int, n) is Some,
        ensures
            res@ == type_within(pool@, idx as int, n)->0,
        decreases n,
    {
        match &pool.definition(idx).value {
            AnyDefinition::Type(typ) => match *typ {
                PoolType::Prim => {
                    let name = pool.def_name(idx);
                    Type::Prim(Prim::from_name(name).unwrap())
                },
                PoolType::Class => {
                    let name = pool.def_name(idx);
                    Self::data(get_type_id(name))
                },
                PoolType::Ref(inner) => {
                    Self::load_type_within(inner, pool, Ghost((n - 1) as nat))
                },
                PoolType::WeakRef(inner) => {
                    let arg = Self::load_type_within(inner, pool, Ghost((n - 1) as nat));
                    Self::apply("wref".to_owned(), arg)
                },
                PoolType::ScriptRef(inner) => {
                    let arg = Self::load_type_within(inner, pool, Ghost((n - 1) as nat));
                    Self::apply("script_ref".to_owned(), arg)
                },
                PoolType::Array(inner) => {
                    let arg = Self::load_type_within(inner, pool, Ghost((n - 1) as nat));
                    Self::apply("array".to_owned(), arg)
                },
                PoolType::StaticArray(inner, _) => {
                    let arg = Self::load_type_within(inner, pool, Ghost((n - 1) as nat));
                    Self::apply("array".to_owned(), arg)
                },
            },
            _ => vstd::pervasive::unreached(),
        }
    }

    fn data(id: String) -> (res: Type)
        ensures
            res@ == TypeV::Data(ParameterizedV { id: id@, args: Seq::empty() }),
    {
        broadcast use lemma_data_view;

        Type::Data(Parameterized::without_args(id))
    }

    fn apply(id: String, arg: Type) -> (res: Type)
        ensures
            res@ == applied(id@, arg@),
    {
        broadcast use lemma_data_view;

        let mut args: Vec<Type> = Vec::new();
        args.push(arg);
        assert(views(args@) =~= seq![arg@]);
        Type::Data(Parameterized { id, args })
    }

    /// The type that the pool describes at an index.
    pub fn load_type(idx: PoolIndex, pool: &ConstantPool) -> (res: Type)
        requires
            describes_type(pool@, idx as int),
        ensures
            res@ == described_type(pool@, idx as int),
    {
        let ghost n = choose|n: nat| type_within(pool@, idx as int, n) is Some;
        Self::load_type_within(idx, pool, Ghost(n))
    }

    /// The function that the pool describes at an index: its short name, its signature, its type.
    pub fn load_function(idx: PoolIndex, pool: &ConstantPool) -> (res: (String, String, FuncType))
        requires
            describes_function(pool@, idx as int),
        ensures
            res.0@ == short_name(pool@.name_of(idx as int)),
            res.1@ == pool@.name_of(idx as int),
            res.2@ == described_function(pool@, idx as int),
    {
        broadcast use crate::dict::group_views;

        let name = pool.def_name(idx);
        let fun = pool.function(idx);
        let ret = match fun.return_type {
            Some(ret) => Self::load_type(ret, pool),
            None => Type::Prim(Prim::Void),
        };
        let mut params: Vec<FuncParam> = Vec::new();
        let mut i: usize = 0;
        while i < fun.parameters.len()
            invariant
                i <= fun.parameters.len(),
                params.len() == i,
                describes_function(pool@, idx as int),
                pool@.value(idx as int) == AnyDefinitionV::Function(fun@),
                forall|j: int|
                    0 <= j < i ==> (#[trigger] params@[j])@ == described_param(
                        pool@,
                        fun@.parameters[j],
                    ),
            decreases fun.parameters.len() - i,
        {
            let at = fun.parameters[i];
            assert(fun@.parameters[i as int] == at);
            assert(describes_param(pool@, at as int));
            match &pool.definition(at).value {
                AnyDefinition::Parameter(param) => {
                    let typ = Self::load_type(param.type_, pool);
                    params.push(FuncParam::custom(typ, param.flags.is_out));
                },
                _ => {},
            }
            i += 1;
        }
        let typ = FuncType::new(Vec::new(), params, ret);
        assert(typ@ =~= described_function(pool@, idx as int));
        (prefix_before(name.as_str(), ';'), name.clone(), typ)
    }

    /// The class that the pool describes at an index. Its members are noted in the index.
    pub fn load_class(&mut self, owner: &String, idx: PoolIndex, pool: &ConstantPool) -> (res:
        ClassType)
        requires
            describes_class(pool@, idx as int),
        ensures
            load_class(pool@, owner@, idx as int, old(self)@) == (res@, final(self)@),
    {
        broadcast use crate::dict::group_views;

        let ghost before = self@;
        self.classes.put(owner, idx);
        let ghost start = self@;
        assert(start =~= DbV { classes: before.classes.insert(owner@, idx as int), ..before });
        let class = pool.class(idx);
        let mut fields: NameDict<Field> = NameDict::new();
        let mut i: usize = 0;
        while i < class.fields.len()
            invariant
                i <= class.fields.len(),
                describes_class(pool@, idx as int),
                pool@.value(idx as int) == AnyDefinitionV::Class(class@),
                load_fields(pool@, owner@, class@.fields, i as int, start) == (fields@, self@),
            decreases class.fields.len() - i,
        {
            let at = class.fields[i];
            assert(class@.fields[i as int] == at);
            assert(describes_field(pool@, at as int));
            let name = pool.def_name(at);
            match &pool.definition(at).value {
                AnyDefinition::Field(field) => {
                    let typ = Self::load_type(field.type_, pool);
                    let slot = fields.insert(name.clone(), Field::new(typ, field.flags));
                    let ghost was = self@;
                    self.fields.put(&MemberId::new(owner, slot), at);
                    assert(self@ =~= DbV {
                        fields: was.fields.insert(member(owner@, slot as int), at as int),
                        ..was
                    });
                },
                _ => {},
            }
            i += 1;
        }
        let ghost mid = self@;
        let mut methods = FuncMap::new();
        let mut statics = FuncMap::new();
        let mut i: usize = 0;
        while i < class.methods.len()
            invariant
                i <= class.methods.len(),
                describes_class(pool@, idx as int),
                pool@.value(idx as int) == AnyDefinitionV::Class(class@),
                load_methods(pool@, owner@, class@.methods, i as int, mid) == (
                    ClassFuncsV { methods: methods@, statics: statics@ },
                    self@,
                ),
            decreases class.methods.len() - i,
        {
            let at = class.methods[i];
            assert(class@.methods[i as int] == at);
            assert(describes_function(pool@, at as int));
            let flags = pool.function(at).flags;
            let (name, signature, typ) = Self::load_function(at, pool);
            let ghost was = self@;
            if flags.is_static {
                let index = statics.add_with_signature(
                    ScopedName::top_level(name),
                    signature,
                    typ,
                    flags,
                );
                self.statics.put(&MemberId::new(owner, index.slot), at);
                assert(self@ =~= DbV {
                    statics: was.statics.insert(member(owner@, index.slot as int), at as int),
                    ..was
                });
            } else {
                let index = methods.add_with_signature(
                    ScopedName::top_level(name),
                    signature,
                    typ,
                    flags,
                );
                self.methods.put(&MemberId::new(owner, index.slot), at);
                assert(self@ =~= DbV {
                    methods: was.methods.insert(member(owner@, index.slot as int), at as int),
                    ..was
                });
            }
            i += 1;
        }
        let extends = if class.base == UNDEFINED {
            None
        } else {
            Some(Parameterized::without_args(get_type_id(pool.def_name(class.base))))
        };
        ClassType {
            type_vars: Vec::new(),
            extends,
            fields,
            methods,
            statics,
            flags: class.flags,
            span: None,
        }
    }

    /// The enum that the pool describes at an index. Its members are noted in the index.
    pub fn load_enum(&mut self, owner: &String, idx: PoolIndex, pool: &ConstantPool) -> (res:
        EnumType)
        requires
            describes_enum(pool@, idx as int),
        ensures
            load_enum(pool@, owner@, idx as int, old(self)@) == (res@, final(self)@),
    {
        broadcast use crate::dict::group_views;

        let ghost before = self@;
        self.enums.put(owner, idx);
        let ghost start = self@;
        assert(start =~= DbV { enums: before.enums.insert(owner@, idx as int), ..before });
        let def = pool.enum_(idx);
        let mut members: NameDict<i64> = NameDict::new();
        let mut i: usize = 0;
        while i < def.members.len()
            invariant
                i <= def.members.len(),
                describes_enum(pool@, idx as int),
                pool@.value(idx as int) == AnyDefinitionV::Enum(def@),
                load_members(pool@, owner@, def@.members, i as int, start) == (members@, self@),
            decreases def.members.len() - i,
        {
            let at = def.members[i];
            assert(def@.members[i as int] == at);
            let name = pool.def_name(at);
            match &pool.definition(at).value {
                AnyDefinition::EnumValue(value) => {
                    let slot = members.insert(name.clone(), *value);
                    let ghost was = self@;
                    self.enum_members.put(&MemberId::new(owner, slot), at);
                    assert(self@ =~= DbV {
                        enum_members: was.enum_members.insert(
                            member(owner@, slot as int),
                            at as int,
                        ),
                        ..was
                    });
                },
                _ => {},
            }
            i += 1;
        }
        EnumType { members }
    }
}

/// Where types and members are defined.
impl CompilationDb {
    /// Where a class is defined.
    pub fn class_index(&self, id: &String) -> (res: Option<PoolIndex>)
        ensures
            match res {
                Some(idx) => self@.classes.dom().contains(id@) && self@.classes[id@] == idx,
                None => !self@.classes.dom().contains(id@),
            },
    {
        self.classes.find(id)
    }

    /// Notes where a class is defined.
    pub fn set_class(&mut self, id: &String, idx: PoolIndex)
        ensures
            final(self)@ == (DbV {
                classes: old(self)@.classes.insert(id@, idx as int),
                ..old(self)@
            }),
    {
        self.classes.put(id, idx);
        assert(self@ =~= DbV {
            classes: old(self)@.classes.insert(id@, idx as int),
            ..old(self)@
        });
    }

    /// Where an enum is defined.
    pub fn enum_index(&self, id: &String) -> (res: Option<PoolIndex>)
        ensures
            match res {
                Some(idx) => self@.enums.dom().contains(id@) && self@.enums[id@] == idx,
                None => !self@.enums.dom().contains(id@),
            },
    {
        self.enums.find(id)
    }

    /// Notes where an enum is defined.
    pub fn set_enum(&mut self, id: &String, idx: PoolIndex)
        ensures
            final(self)@ == (DbV {
                enums: old(self)@.enums.insert(id@, idx as int),
                ..old(self)@
            }),
    {
        self.enums.put(id, idx);
        assert(self@ =~= DbV {
            enums: old(self)@.enums.insert(id@, idx as int),
            ..old(self)@
        });
    }

    /// Notes where a field is defined.
    pub fn set_field(&mut self, id: &MemberId, idx: PoolIndex)
        ensures
            final(self)@ == (DbV {
                fields: old(self)@.fields.insert(id@, idx as int),
                ..old(self)@
            }),
    {
        self.fields.put(id, idx);
        assert(self@ =~= DbV {
            fields: old(self)@.fields.insert(id@, idx as int),
            ..old(self)@
        });
    }

    /// Where a method is defined.
    pub fn method_index(&self, id: &MemberId) -> (res: Option<PoolIndex>)
        ensures
            match res {
                Some(idx) => self@.methods.dom().contains(id@) && self@.methods[id@] == idx,
                None => !self@.methods.dom().contains(id@),
            },
    {
        self.methods.find(id)
    }

    /// Notes where a method is defined.
    pub fn set_method(&mut self, id: &MemberId, idx: PoolIndex)
        ensures
            final(self)@ == (DbV {
                methods: old(self)@.methods.insert(id@, idx as int),
                ..old(self)@
            }),
    {
        self.methods.put(id, idx);
        assert(self@ =~= DbV {
            methods: old(self)@.methods.insert(id@, idx as int),
            ..old(self)@
        });
    }

    /// Where a static function is defined.
    pub fn static_index(&self, id: &MemberId) -> (res: Option<PoolIndex>)
        ensures
            match res {
                Some(idx) => self@.statics.dom().contains(id@) && self@.statics[id@] == idx,
                None => !self@.statics.dom().contains(id@),
            },
    {
        self.statics.find(id)
    }

    /// Notes where a static function is defined.
    pub fn set_static(&mut self, id: &MemberId, idx: PoolIndex)
        ensures
            final(self)@ == (DbV {
                statics: old(self)@.statics.insert(id@, idx as int),
                ..old(self)@
            }),
    {
        self.statics.put(id, idx);
        assert(self@ =~= DbV {
            statics: old(self)@.statics.insert(id@, idx as int),
            ..old(self)@
        });
    }

    /// Notes where a member of an enum is defined.
    pub fn set_enum_member(&mut self, id: &MemberId, idx: PoolIndex)
        ensures
            final(self)@ == (DbV {
                enum_members: old(self)@.enum_members.insert(id@, idx as int),
                ..old(self)@
            }),
    {
        self.enum_members.put(id, idx);
        assert(self@ =~= DbV {
            enum_members: old(self)@.enum_members.insert(id@, idx as int),
            ..old(self)@
        });
    }

    /// Where a global function is defined.
    pub fn global_index(&self, slot: usize) -> (res: Option<PoolIndex>)
        ensures
            match res {
                Some(idx) => self@.globals.dom().contains(slot as int) && self@.globals[slot as int]
                    == idx,
                None => !self@.globals.dom().contains(slot as int),
            },
    {
        self.globals.find(&Slot { at: slot })
    }

    /// Notes where a global function is defined.
    pub fn set_global(&mut self, slot: usize, idx: PoolIndex)
        ensures
            final(self)@ == (DbV {
                globals: old(self)@.globals.insert(slot as int, idx as int),
                ..old(self)@
            }),
    {
        self.globals.put(&Slot { at: slot }, idx);
        assert(self@ =~= DbV {
            globals: old(self)@.globals.insert(slot as int, idx as int),
            ..old(self)@
        });
    }
}

/// The model of everything that is loaded from a pool.
pub struct ResourcesV {
    pub repo: RepoV,
    pub cache: Map<Seq<char>, int>,
    pub db: DbV,
}

/// Whether the definition at an index can be loaded.
pub open spec fn loads(pool: PoolV, idx: int) -> bool {
    match pool.value(idx) {
        AnyDefinitionV::Type(_) => pool.is_named(idx),
        AnyDefinitionV::Class(_) => describes_class(pool, idx),
        AnyDefinitionV::Function(_) => pool.defs[idx].parent == UNDEFINED ==> describes_function(
            pool,
            idx,
        ),
        AnyDefinitionV::Enum(_) => describes_enum(pool, idx),
        _ => true,
    }
}

/// What is loaded once the definition at one more index has been looked at. Types are cached,
/// classes and enums become types of the repository, and functions without a parent become global
/// functions.
pub open spec fn load_definition(pool: PoolV, idx: int, was: ResourcesV) -> ResourcesV {
    let name = pool.name_of(idx);
    match pool.value(idx) {
        AnyDefinitionV::Type(_) => ResourcesV { cache: was.cache.insert(name, idx), ..was },
        AnyDefinitionV::Class(_) => {
            let (class, db) = load_class(pool, name, idx, was.db);
            ResourcesV { repo: was.repo.put_class(name, class), db, ..was }
        },
        AnyDefinitionV::Function(fun) => if pool.defs[idx].parent == UNDEFINED {
            let short = top_level(short_name(name));
            ResourcesV {
                repo: RepoV {
                    globals: was.repo.globals.add_with_signature(
                        short,
                        name,
                        described_function(pool, idx),
                        fun.flags,
                    ),
                    ..was.repo
                },
                db: DbV {
                    globals: was.db.globals.insert(was.repo.globals.slot_for(short, name), idx),
                    ..was.db
                },
                ..was
            }
        } else {
            was
        },
        AnyDefinitionV::Enum(_) => {
            let (members, db) = load_enum(pool, name, idx, was.db);
            ResourcesV { repo: was.repo.put(name, DataTypeV::Enum(members)), db, ..was }
        },
        _ => was,
    }
}

/// What is loaded from the definitions below index `n`. The index that stands for no definition
/// is left out.
pub open spec fn loaded(pool: PoolV, n: int) -> ResourcesV
    decreases n,
{
    if n <= 1 {
        ResourcesV {
            repo: RepoV { types: builtin_types(), globals: FuncMapV::empty() },
            cache: Map::empty(),
            db: DbV::empty(),
        }
    } else {
        load_definition(pool, n - 1, loaded(pool, n - 1))
    }
}

/// The types, cached types and definitions that a compilation starts from.
pub struct CompilationResources {
    pub type_repo: TypeRepo,
    pub type_cache: TypeCache,
    pub db: CompilationDb,
}

impl View for CompilationResources {
    type V = ResourcesV;

    open spec fn view(&self) -> ResourcesV {
        ResourcesV { repo: self.type_repo@, cache: self.type_cache@, db: self.db@ }
    }
}

impl CompilationResources {
    /// Loads everything that a pool describes.
    pub fn load(pool: &ConstantPool) -> (res: CompilationResources)
        requires
            forall|idx: int| 1 <= idx < pool@.defs.len() ==> #[trigger] loads(pool@, idx),
        ensures
            res@ == loaded(pool@, pool@.defs.len() as int),
    {
        let mut type_repo = TypeRepo::new();
        let mut type_cache = TypeCache::new();
        let mut db = CompilationDb::new();
        let n: usize = pool.len();
        let mut idx: usize = 1;
        while idx < n
            invariant
                1 <= idx,
                n == pool@.defs.len(),
                forall|idx: int| 1 <= idx < pool@.defs.len() ==> #[trigger] loads(pool@, idx),
                idx <= n || idx == 1,
                loaded(pool@, idx as int) == (ResourcesV {
                    repo: type_repo@,
                    cache: type_cache@,
                    db: db@,
                }),
            decreases n - idx,
        {
            assert(loads(pool@, idx as int));
            let def = pool.definition(idx);
            match &def.value {
                AnyDefinition::Type(_) => {
                    type_cache.add(pool.def_name(idx).clone(), idx);
                },
                AnyDefinition::Class(_) => {
                    let owner = get_type_id(pool.def_name(idx));
                    let class = db.load_class(&owner, idx, pool);
                    type_repo.add_type(owner, DataType::Class(class));
                },
                AnyDefinition::Function(fun) => {
                    if def.parent == UNDEFINED {
                        let (name, signature, typ) = CompilationDb::load_function(idx, pool);
                        let id = type_repo.globals.add_with_signature(
                            ScopedName::top_level(name),
                            signature,
                            typ,
                            fun.flags,
                        );
                        let ghost was = db@;
                        db.globals.put(&Slot { at: id.slot }, idx);
                        assert(db@ =~= DbV {
                            globals: was.globals.insert(id.slot as int, idx as int),
                            ..was
                        });
                    }
                },
                AnyDefinition::Enum(_) => {
                    let owner = get_type_id(pool.def_name(idx));
                    let typ = db.load_enum(&owner, idx, pool);
                    type_repo.add_type(owner, DataType::Enum(typ));
                },
                _ => {},
            }
            idx += 1;
        }
        assert(n <= 1 ==> loaded(pool@, n as int) == loaded(pool@, 1));
        CompilationResources { type_repo, type_cache, db }
    }
}

} // verus!
