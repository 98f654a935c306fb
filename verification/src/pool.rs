//! The constant pool: the names and definitions that a script bundle is made of.
use vstd::prelude::*;

use crate::dict::{ints, views, NameDict};
use crate::flags::{ClassFlags, FieldFlags, FunctionFlags, LocalFlags, ParameterFlags, Visibility};
use crate::tables::opt_int;

verus! {

/// A position in the list of definitions.
pub type PoolIndex = usize;

/// The index that stands for no definition.
pub const UNDEFINED: usize = 0;

/// The index of the source file that generated functions are attributed to.
pub const DEFAULT_SOURCE: usize = 1;

/// A type as the pool describes it. Its name is the name of its definition.
#[derive(Clone, Copy, Debug)]
pub enum PoolType {
    Prim,
    Class,
    Ref(PoolIndex),
    WeakRef(PoolIndex),
    Array(PoolIndex),
    StaticArray(PoolIndex, u32),
    ScriptRef(PoolIndex),
}

pub enum PoolTypeV {
    Prim,
    Class,
    Ref(int),
    WeakRef(int),
    Array(int),
    StaticArray(int, u32),
    ScriptRef(int),
}

impl View for PoolType {
    type V = PoolTypeV;

    open spec fn view(&self) -> PoolTypeV {
        match self {
            PoolType::Prim => PoolTypeV::Prim,
            PoolType::Class => PoolTypeV::Class,
            PoolType::Ref(i) => PoolTypeV::Ref(*i as int),
            PoolType::WeakRef(i) => PoolTypeV::WeakRef(*i as int),
            PoolType::Array(i) => PoolTypeV::Array(*i as int),
            PoolType::StaticArray(i, n) => PoolTypeV::StaticArray(*i as int, *n),
            PoolType::ScriptRef(i) => PoolTypeV::ScriptRef(*i as int),
        }
    }
}

pub struct PoolClass {
    pub visibility: Visibility,
    pub flags: ClassFlags,
    pub base: PoolIndex,
    pub methods: Vec<PoolIndex>,
    pub fields: Vec<PoolIndex>,
    pub overrides: Vec<PoolIndex>,
}

#[verifier::ext_equal]
pub struct PoolClassV {
    pub visibility: Visibility,
    pub flags: ClassFlags,
    pub base: int,
    pub methods: Seq<int>,
    pub fields: Seq<int>,
    pub overrides: Seq<int>,
}

impl View for PoolClass {
    type V = PoolClassV;

    open spec fn view(&self) -> PoolClassV {
        PoolClassV {
            visibility: self.visibility,
            flags: self.flags,
            base: self.base as int,
            methods: ints(self.methods@),
            fields: ints(self.fields@),
            overrides: ints(self.overrides@),
        }
    }
}

pub struct PoolEnum {
    pub flags: u8,
    pub size: u8,
    pub members: Vec<PoolIndex>,
    pub unk1: bool,
}

#[verifier::ext_equal]
pub struct PoolEnumV {
    pub flags: u8,
    pub size: u8,
    pub members: Seq<int>,
    pub unk1: bool,
}

impl View for PoolEnum {
    type V = PoolEnumV;

    open spec fn view(&self) -> PoolEnumV {
        PoolEnumV {
            flags: self.flags,
            size: self.size,
            members: ints(self.members@),
            unk1: self.unk1,
        }
    }
}

/// One instruction. Only references to local variables are told apart, any other instruction is
/// carried along by its encoding.
#[derive(Clone, Copy, Debug)]
pub enum Instr {
    Local(PoolIndex),
    Other(u64),
}

pub enum InstrV {
    Local(int),
    Other(u64),
}

impl View for Instr {
    type V = InstrV;

    open spec fn view(&self) -> InstrV {
        match self {
            Instr::Local(i) => InstrV::Local(*i as int),
            Instr::Other(code) => InstrV::Other(*code),
        }
    }
}

#[derive(Clone, Copy, PartialEq, Eq, Structural, Debug)]
pub struct SourceReference {
    pub file: PoolIndex,
    pub line: u32,
}

pub struct PoolFunction {
    pub visibility: Visibility,
    pub flags: FunctionFlags,
    pub source: Option<SourceReference>,
    pub return_type: Option<PoolIndex>,
    pub unk1: bool,
    pub base_method: Option<PoolIndex>,
    pub parameters: Vec<PoolIndex>,
    pub locals: Vec<PoolIndex>,
    pub operator: Option<u32>,
    pub cast: u8,
    pub code: Vec<Instr>,
    pub unk2: Vec<u8>,
}

#[verifier::ext_equal]
pub struct PoolFunctionV {
    pub visibility: Visibility,
    pub flags: FunctionFlags,
    pub source: Option<SourceReference>,
    pub return_type: Option<int>,
    pub unk1: bool,
    pub base_method: Option<int>,
    pub parameters: Seq<int>,
    pub locals: Seq<int>,
    pub operator: Option<u32>,
    pub cast: u8,
    pub code: Seq<InstrV>,
    pub unk2: Seq<u8>,
}

impl View for PoolFunction {
    type V = PoolFunctionV;

    open spec fn view(&self) -> PoolFunctionV {
        PoolFunctionV {
            visibility: self.visibility,
            flags: self.flags,
            source: self.source,
            return_type: opt_int(self.return_type),
            unk1: self.unk1,
            base_method: opt_int(self.base_method),
            parameters: ints(self.parameters@),
            locals: ints(self.locals@),
            operator: self.operator,
            cast: self.cast,
            code: views(self.code@),
            unk2: self.unk2@,
        }
    }
}

#[derive(Clone, Copy, Debug)]
pub struct PoolParameter {
    pub type_: PoolIndex,
    pub flags: ParameterFlags,
}

pub struct PoolParameterV {
    pub type_: int,
    pub flags: ParameterFlags,
}

impl View for PoolParameter {
    type V = PoolParameterV;

    open spec fn view(&self) -> PoolParameterV {
        PoolParameterV { type_: self.type_ as int, flags: self.flags }
    }
}

#[derive(Clone, Copy, Debug)]
pub struct PoolLocal {
    pub type_: PoolIndex,
    pub flags: LocalFlags,
}

pub struct PoolLocalV {
    pub type_: int,
    pub flags: LocalFlags,
}

impl View for PoolLocal {
    type V = PoolLocalV;

    open spec fn view(&self) -> PoolLocalV {
        PoolLocalV { type_: self.type_ as int, flags: self.flags }
    }
}

/// A property of a field: a name and a value, both by their place among the names.
#[derive(Clone, Copy, PartialEq, Eq, Structural, Debug)]
pub struct Property {
    pub name: usize,
    pub value: usize,
}

pub struct PoolField {
    pub visibility: Visibility,
    pub type_: PoolIndex,
    pub flags: FieldFlags,
    pub hint: Option<usize>,
    pub attributes: Vec<Property>,
    pub defaults: Vec<Property>,
}

#[verifier::ext_equal]
pub struct PoolFieldV {
    pub visibility: Visibility,
    pub type_: int,
    pub flags: FieldFlags,
    pub hint: Option<int>,
    pub attributes: Seq<Property>,
    pub defaults: Seq<Property>,
}

impl View for PoolField {
    type V = PoolFieldV;

    open spec fn view(&self) -> PoolFieldV {
        PoolFieldV {
            visibility: self.visibility,
            type_: self.type_ as int,
            flags: self.flags,
            hint: opt_int(self.hint),
            attributes: self.attributes@,
            defaults: self.defaults@,
        }
    }
}

/// What is defined. A slot that is taken but not filled yet is `Reserved`.
pub enum AnyDefinition {
    Type(PoolType),
    Class(PoolClass),
    EnumValue(i64),
    Enum(PoolEnum),
    Function(PoolFunction),
    Parameter(PoolParameter),
    Local(PoolLocal),
    Field(PoolField),
    SourceFile(u32),
    Reserved,
}

#[verifier::ext_equal]
pub enum AnyDefinitionV {
    Type(PoolTypeV),
    Class(PoolClassV),
    EnumValue(i64),
    Enum(PoolEnumV),
    Function(PoolFunctionV),
    Parameter(PoolParameterV),
    Local(PoolLocalV),
    Field(PoolFieldV),
    SourceFile(u32),
    Reserved,
}

impl View for AnyDefinition {
    type V = AnyDefinitionV;

    open spec fn view(&self) -> AnyDefinitionV {
        match self {
            AnyDefinition::Type(x) => AnyDefinitionV::Type(x@),
            AnyDefinition::Class(x) => AnyDefinitionV::Class(x@),
            AnyDefinition::EnumValue(x) => AnyDefinitionV::EnumValue(*x),
            AnyDefinition::Enum(x) => AnyDefinitionV::Enum(x@),
            AnyDefinition::Function(x) => AnyDefinitionV::Function(x@),
            AnyDefinition::Parameter(x) => AnyDefinitionV::Parameter(x@),
            AnyDefinition::Local(x) => AnyDefinitionV::Local(x@),
            AnyDefinition::Field(x) => AnyDefinitionV::Field(x@),
            AnyDefinition::SourceFile(x) => AnyDefinitionV::SourceFile(*x),
            AnyDefinition::Reserved => AnyDefinitionV::Reserved,
        }
    }
}

/// A definition with its name (by its place among the names) and its parent.
pub struct Definition {
    pub name: usize,
    pub parent: PoolIndex,
    pub value: AnyDefinition,
}

#[verifier::ext_equal]
pub struct DefinitionV {
    pub name: int,
    pub parent: int,
    pub value: AnyDefinitionV,
}

impl View for Definition {
    type V = DefinitionV;

    open spec fn view(&self) -> DefinitionV {
        DefinitionV { name: self.name as int, parent: self.parent as int, value: self.value@ }
    }
}

/// The model of a pool: its distinct names and its definitions.
#[verifier::ext_equal]
pub struct PoolV {
    pub names: Seq<Seq<char>>,
    pub defs: Seq<DefinitionV>,
}

/// The definition that fills a slot until it is put in place.
pub open spec fn reserved() -> DefinitionV {
    DefinitionV { name: 0, parent: 0, value: AnyDefinitionV::Reserved }
}

impl PoolV {
    pub open spec fn has(self, i: int) -> bool {
        0 <= i < self.defs.len()
    }

    pub open spec fn value(self, i: int) -> AnyDefinitionV {
        self.defs[i].value
    }

    /// Whether the definition at `i` is there and its name is known.
    pub open spec fn is_named(self, i: int) -> bool {
        self.has(i) && 0 <= self.defs[i].name < self.names.len()
    }

    /// The name of the definition at `i`.
    pub open spec fn name_of(self, i: int) -> Seq<char> {
        self.names[self.defs[i].name]
    }

    /// The place of a name: where it is, or where it would be added.
    pub open spec fn name_slot(self, name: Seq<char>) -> int {
        if self.names.contains(name) {
            self.names.index_of(name)
        } else {
            self.names.len() as int
        }
    }

    /// The pool that knows `name`.
    pub open spec fn with_name(self, name: Seq<char>) -> PoolV {
        if self.names.contains(name) {
            self
        } else {
            PoolV { names: self.names.push(name), defs: self.defs }
        }
    }

    /// The pool with one more definition. Its index is the number of definitions before.
    pub open spec fn with_def(self, def: DefinitionV) -> PoolV {
        PoolV { names: self.names, defs: self.defs.push(def) }
    }

    /// The pool with the definition at `i` replaced.
    pub open spec fn put(self, i: int, def: DefinitionV) -> PoolV {
        PoolV { names: self.names, defs: self.defs.update(i, def) }
    }

    /// The pool with the value at `i` replaced.
    pub open spec fn put_value(self, i: int, value: AnyDefinitionV) -> PoolV {
        self.put(i, DefinitionV { value, ..self.defs[i] })
    }

    /// The pool with the definition at `i` under another name.
    pub open spec fn rename(self, i: int, name: int) -> PoolV {
        self.put(i, DefinitionV { name, ..self.defs[i] })
    }

    /// The pool with two definitions exchanged.
    pub open spec fn swap(self, i: int, j: int) -> PoolV {
        PoolV {
            names: self.names,
            defs: self.defs.update(i, self.defs[j]).update(j, self.defs[i]),
        }
    }
}

/// The constant pool.
pub struct ConstantPool {
    names: NameDict<()>,
    definitions: Vec<Definition>,
}

impl View for ConstantPool {
    type V = PoolV;

    closed spec fn view(&self) -> PoolV {
        PoolV { names: self.names@.keys, defs: views(self.definitions@) }
    }
}

impl ConstantPool {
    /// A pool with nothing but the slot of the undefined index.
    pub fn new() -> (pool: ConstantPool)
        ensures
            pool@ == (PoolV { names: Seq::empty(), defs: seq![reserved()] }),
    {
        broadcast use crate::dict::group_views;

        let mut definitions = Vec::new();
        definitions.push(Definition { name: 0, parent: 0, value: AnyDefinition::Reserved });
        let pool = ConstantPool { names: NameDict::new(), definitions };
        assert(pool@.defs =~= seq![reserved()]);
        pool
    }

    /// The number of definitions.
    pub fn len(&self) -> (n: usize)
        ensures
            n == self@.defs.len(),
    {
        self.definitions.len()
    }

    /// The place of a name, which is added where it is not known yet.
    pub fn add_name(&mut self, name: String) -> (at: usize)
        ensures
            at == old(self)@.name_slot(name@),
            final(self)@ == old(self)@.with_name(name@),
    {
        let at = self.names.insert(name, ());
        assert(self@ =~= old(self)@.with_name(name@));
        at
    }

    pub fn definition(&self, i: PoolIndex) -> (def: &Definition)
        requires
            self@.has(i as int),
        ensures
            def@ == self@.defs[i as int],
    {
        &self.definitions[i]
    }

    /// Whether a definition is there and its name is known.
    pub fn is_named(&self, i: PoolIndex) -> (res: bool)
        ensures
            res == self@.is_named(i as int),
    {
        i < self.definitions.len() && self.definitions[i].name < self.names.len()
    }

    /// The place among the names of the name of a definition.
    pub fn def_name_idx(&self, i: PoolIndex) -> (at: usize)
        requires
            self@.has(i as int),
        ensures
            at == self@.defs[i as int].name,
    {
        self.definitions[i].name
    }

    /// The name of a definition.
    pub fn def_name(&self, i: PoolIndex) -> (name: &String)
        requires
            self@.is_named(i as int),
        ensures
            name@ == self@.name_of(i as int),
    {
        self.names.key_at(self.definitions[i].name)
    }

    /// Whether an index stands for a function.
    pub fn is_function(&self, i: PoolIndex) -> (res: bool)
        ensures
            res == (self@.has(i as int) && self@.value(i as int) is Function),
    {
        i < self.definitions.len() && match &self.definitions[i].value {
            AnyDefinition::Function(_) => true,
            _ => false,
        }
    }

    /// The function that an index stands for.
    pub fn function(&self, i: PoolIndex) -> (fun: &PoolFunction)
        requires
            self@.has(i as int),
            self@.value(i as int) is Function,
        ensures
            self@.value(i as int) == AnyDefinitionV::Function(fun@),
    {
        match &self.definitions[i].value {
            AnyDefinition::Function(fun) => fun,
            _ => vstd::pervasive::unreached(),
        }
    }

    /// The class that an index stands for.
    pub fn class(&self, i: PoolIndex) -> (class: &PoolClass)
        requires
            self@.has(i as int),
            self@.value(i as int) is Class,
        ensures
            self@.value(i as int) == AnyDefinitionV::Class(class@),
    {
        match &self.definitions[i].value {
            AnyDefinition::Class(class) => class,
            _ => vstd::pervasive::unreached(),
        }
    }

    /// The enum that an index stands for.
    pub fn enum_(&self, i: PoolIndex) -> (res: &PoolEnum)
        requires
            self@.has(i as int),
            self@.value(i as int) is Enum,
        ensures
            self@.value(i as int) == AnyDefinitionV::Enum(res@),
    {
        match &self.definitions[i].value {
            AnyDefinition::Enum(res) => res,
            _ => vstd::pervasive::unreached(),
        }
    }

    /// Takes the next index without saying what it stands for.
    pub fn reserve(&mut self) -> (at: PoolIndex)
        ensures
            at == old(self)@.defs.len(),
            final(self)@ == old(self)@.with_def(reserved()),
    {
        self.add_definition(Definition { name: 0, parent: 0, value: AnyDefinition::Reserved })
    }

    /// Adds a definition under the next index.
    pub fn add_definition(&mut self, def: Definition) -> (at: PoolIndex)
        ensures
            at == old(self)@.defs.len(),
            final(self)@ == old(self)@.with_def(def@),
    {
        broadcast use crate::dict::group_views;

        let at: usize = self.definitions.len();
        self.definitions.push(def);
        at
    }

    /// Puts a definition under an index that is already taken.
    pub fn put_definition(&mut self, i: PoolIndex, def: Definition)
        requires
            old(self)@.has(i as int),
        ensures
            final(self)@ == old(self)@.put(i as int, def@),
    {
        broadcast use crate::dict::group_views;

        self.definitions.set(i, def);
    }

    /// Gives a definition another name.
    pub fn rename(&mut self, i: PoolIndex, name: usize)
        requires
            old(self)@.has(i as int),
        ensures
            final(self)@ == old(self)@.rename(i as int, name as int),
    {
        self.definitions[i].name = name;
        assert(self@.defs =~= old(self)@.rename(i as int, name as int).defs);
    }

    /// Exchanges two definitions.
    pub fn swap_definition(&mut self, i: PoolIndex, j: PoolIndex)
        requires
            old(self)@.has(i as int),
            old(self)@.has(j as int),
        ensures
            final(self)@ == old(self)@.swap(i as int, j as int),
    {
        let mut tmp = Definition { name: 0, parent: 0, value: AnyDefinition::Reserved };
        std::mem::swap(&mut tmp, &mut self.definitions[i]);
        if i != j {
            std::mem::swap(&mut tmp, &mut self.definitions[j]);
        }
        std::mem::swap(&mut tmp, &mut self.definitions[i]);
        assert(self@.defs =~= old(self)@.swap(i as int, j as int).defs);
    }

    /// Adds a method to a class.
    pub fn push_method(&mut self, class: PoolIndex, method: PoolIndex)
        requires
            old(self)@.has(class as int),
            old(self)@.value(class as int) is Class,
        ensures
            final(self)@ == old(self)@.put_value(
                class as int,
                AnyDefinitionV::Class(
                    (PoolClassV {
                        methods: old(self)@.value(class as int)->Class_0.methods.push(
                            method as int,
                        ),
                        ..old(self)@.value(class as int)->Class_0
                    }),
                ),
            ),
    {
        broadcast use crate::dict::group_views;

        match &mut self.definitions[class].value {
            AnyDefinition::Class(def) => {
                def.methods.push(method);
            },
            _ => {},
        }
        assert(self@.defs =~= old(self)@.put_value(
            class as int,
            AnyDefinitionV::Class(
                (PoolClassV {
                    methods: old(self)@.value(class as int)->Class_0.methods.push(method as int),
                    ..old(self)@.value(class as int)->Class_0
                }),
            ),
        ).defs);
    }

    /// Gives a function other flags.
    pub fn set_function_flags(&mut self, fun: PoolIndex, flags: FunctionFlags)
        requires
            old(self)@.has(fun as int),
            old(self)@.value(fun as int) is Function,
        ensures
            final(self)@ == old(self)@.put_value(
                fun as int,
                AnyDefinitionV::Function(
                    (PoolFunctionV { flags, ..old(self)@.value(fun as int)->Function_0 }),
                ),
            ),
    {
        match &mut self.definitions[fun].value {
            AnyDefinition::Function(def) => {
                def.flags = flags;
            },
            _ => {},
        }
        assert(self@.defs =~= old(self)@.put_value(
            fun as int,
            AnyDefinitionV::Function(
                (PoolFunctionV { flags, ..old(self)@.value(fun as int)->Function_0 }),
            ),
        ).defs);
    }

    /// Gives a function its locals and its code.
    pub fn complete_function(&mut self, fun: PoolIndex, locals: Vec<PoolIndex>, code: Vec<Instr>)
        requires
            old(self)@.has(fun as int),
            old(self)@.value(fun as int) is Function,
        ensures
            final(self)@ == old(self)@.put_value(
                fun as int,
                AnyDefinitionV::Function(
                    (PoolFunctionV {
                        locals: ints(locals@),
                        code: views(code@),
                        ..old(self)@.value(fun as int)->Function_0
                    }),
                ),
            ),
    {
        let ghost after = PoolFunctionV {
            locals: ints(locals@),
            code: views(code@),
            ..old(self)@.value(fun as int)->Function_0
        };
        match &mut self.definitions[fun].value {
            AnyDefinition::Function(def) => {
                def.locals = locals;
                def.code = code;
            },
            _ => {},
        }
        assert(self@.defs =~= old(self)@.put_value(
            fun as int,
            AnyDefinitionV::Function(after),
        ).defs);
    }
}

} // verus!
