//! Qualifiers of declarations and the flags they turn into.
use vstd::prelude::*;

verus! {

/// A qualifier as it is written in front of a declaration.
#[derive(Clone, Copy, PartialEq, Eq, Structural, Debug)]
pub enum Qualifier {
    Public,
    Protected,
    Private,
    Abstract,
    Static,
    Final,
    Const,
    Native,
    Exec,
    Callback,
    Out,
    Optional,
    Quest,
    ImportOnly,
    Persistent,
    Inline,
    Edit,
    Rep,
}

/// The qualifiers of one declaration, in the order in which they are written.
pub struct Qualifiers {
    pub items: Vec<Qualifier>,
}

impl View for Qualifiers {
    type V = Seq<Qualifier>;

    open spec fn view(&self) -> Seq<Qualifier> {
        self.items@
    }
}

impl Qualifiers {
    pub fn contain(&self, qualifier: Qualifier) -> (res: bool)
        ensures
            res == self@.contains(qualifier),
    {
        let mut i: usize = 0;
        while i < self.items.len()
            invariant
                i <= self.items.len(),
                forall|j: int| 0 <= j < i ==> self@[j] != qualifier,
            decreases self.items.len() - i,
        {
            if self.items[i] == qualifier {
                assert(self@[i as int] == qualifier);
                return true;
            }
            i += 1;
        }
        false
    }
}

#[derive(Clone, Copy, PartialEq, Eq, Structural, Debug)]
pub enum Visibility {
    Public,
    Protected,
    Private,
}

/// Flags of a class. `other` carries the flags that no rule here looks at.
#[derive(Clone, Copy, PartialEq, Eq, Structural, Debug)]
pub struct ClassFlags {
    pub is_native: bool,
    pub is_import_only: bool,
    pub is_abstract: bool,
    pub is_final: bool,
    pub is_struct: bool,
    pub other: u16,
}

/// Flags of a function. `other` carries the flags that no rule here looks at.
#[derive(Clone, Copy, PartialEq, Eq, Structural, Debug)]
pub struct FunctionFlags {
    pub is_static: bool,
    pub is_native: bool,
    pub is_callback: bool,
    pub is_final: bool,
    pub is_quest: bool,
    pub has_body: bool,
    pub other: u32,
}

/// Flags of a field. `other` carries the flags that no rule here looks at.
#[derive(Clone, Copy, PartialEq, Eq, Structural, Debug)]
pub struct FieldFlags {
    pub is_native: bool,
    pub is_persistent: bool,
    pub other: u16,
}

/// Flags of a parameter. `other` carries the flags that no rule here looks at.
#[derive(Clone, Copy, PartialEq, Eq, Structural, Debug)]
pub struct ParameterFlags {
    pub is_out: bool,
    pub other: u8,
}

/// Flags of a local variable.
#[derive(Clone, Copy, PartialEq, Eq, Structural, Debug)]
pub struct LocalFlags {
    pub is_const: bool,
    pub other: u8,
}

/// The flags of a function with these qualifiers. A static function is final.
pub open spec fn function_flags(qualifiers: Seq<Qualifier>) -> FunctionFlags {
    FunctionFlags {
        is_static: qualifiers.contains(Qualifier::Static),
        is_native: qualifiers.contains(Qualifier::Native),
        is_callback: qualifiers.contains(Qualifier::Callback),
        is_final: qualifiers.contains(Qualifier::Static) || qualifiers.contains(Qualifier::Final),
        is_quest: qualifiers.contains(Qualifier::Quest),
        has_body: false,
        other: 0,
    }
}

/// The flags of a class with these qualifiers. A class that can only be imported is native.
pub open spec fn class_flags(qualifiers: Seq<Qualifier>) -> ClassFlags {
    ClassFlags {
        is_native: qualifiers.contains(Qualifier::ImportOnly) || qualifiers.contains(
            Qualifier::Native,
        ),
        is_import_only: qualifiers.contains(Qualifier::ImportOnly),
        is_abstract: qualifiers.contains(Qualifier::Abstract),
        is_final: qualifiers.contains(Qualifier::Final),
        is_struct: false,
        other: 0,
    }
}

/// The flags of a field with these qualifiers.
pub open spec fn field_flags(qualifiers: Seq<Qualifier>) -> FieldFlags {
    FieldFlags {
        is_native: qualifiers.contains(Qualifier::Native),
        is_persistent: qualifiers.contains(Qualifier::Persistent),
        other: 0,
    }
}

pub fn get_function_flags(qualifiers: &Qualifiers) -> (flags: FunctionFlags)
    ensures
        flags == function_flags(qualifiers@),
{
    let is_static = qualifiers.contain(Qualifier::Static);
    FunctionFlags {
        is_static,
        is_native: qualifiers.contain(Qualifier::Native),
        is_callback: qualifiers.contain(Qualifier::Callback),
        is_final: is_static || qualifiers.contain(Qualifier::Final),
        is_quest: qualifiers.contain(Qualifier::Quest),
        has_body: false,
        other: 0,
    }
}

pub fn get_class_flags(qualifiers: &Qualifiers) -> (flags: ClassFlags)
    ensures
        flags == class_flags(qualifiers@),
{
    let is_import_only = qualifiers.contain(Qualifier::ImportOnly);
    ClassFlags {
        is_native: is_import_only || qualifiers.contain(Qualifier::Native),
        is_import_only,
        is_abstract: qualifiers.contain(Qualifier::Abstract),
        is_final: qualifiers.contain(Qualifier::Final),
        is_struct: false,
        other: 0,
    }
}

pub fn get_field_flags(qualifiers: &Qualifiers) -> (flags: FieldFlags)
    ensures
        flags == field_flags(qualifiers@),
{
    FieldFlags {
        is_native: qualifiers.contain(Qualifier::Native),
        is_persistent: qualifiers.contain(Qualifier::Persistent),
        other: 0,
    }
}

/// Every static function is final, and every class that can only be imported is native.
pub proof fn law_implied_flags(qualifiers: Seq<Qualifier>)
    ensures
        function_flags(qualifiers).is_static ==> function_flags(qualifiers).is_final,
        class_flags(qualifiers).is_import_only ==> class_flags(qualifiers).is_native,
{
}

/// A function has the flags of its qualifiers, and no others. Whether it has a body is not a
/// qualifier.
pub proof fn law_function_qualifiers(qualifiers: Seq<Qualifier>)
    ensures
        ({
            let flags = function_flags(qualifiers);
            &&& flags.is_static <==> qualifiers.contains(Qualifier::Static)
            &&& flags.is_native <==> qualifiers.contains(Qualifier::Native)
            &&& flags.is_callback <==> qualifiers.contains(Qualifier::Callback)
            &&& flags.is_quest <==> qualifiers.contains(Qualifier::Quest)
            &&& flags.is_final <==> qualifiers.contains(Qualifier::Final) || qualifiers.contains(
                Qualifier::Static,
            )
            &&& !flags.has_body
            &&& flags.other == 0
        }),
{
}

/// A class has the flags of its qualifiers, and no others. Whether it is a struct is not a
/// qualifier.
pub proof fn law_class_qualifiers(qualifiers: Seq<Qualifier>)
    ensures
        ({
            let flags = class_flags(qualifiers);
            &&& flags.is_abstract <==> qualifiers.contains(Qualifier::Abstract)
            &&& flags.is_final <==> qualifiers.contains(Qualifier::Final)
            &&& flags.is_import_only <==> qualifiers.contains(Qualifier::ImportOnly)
            &&& flags.is_native <==> qualifiers.contains(Qualifier::Native) || qualifiers.contains(
                Qualifier::ImportOnly,
            )
            &&& !flags.is_struct
            &&& flags.other == 0
        }),
{
}

/// A field has the flags of its qualifiers, and no others.
pub proof fn law_field_qualifiers(qualifiers: Seq<Qualifier>)
    ensures
        ({
            let flags = field_flags(qualifiers);
            &&& flags.is_native <==> qualifiers.contains(Qualifier::Native)
            &&& flags.is_persistent <==> qualifiers.contains(Qualifier::Persistent)
            &&& flags.other == 0
        }),
{
}

} // verus!
