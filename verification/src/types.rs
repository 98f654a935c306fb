//! Types of the language.
use vstd::prelude::*;

use crate::dict::{views, DictV, NameDict};
use crate::text::is;

verus! {

/// The full, dotted name of a type. Two types are the same when their names are.
pub type TypeId = String;

/// A primitive type.
#[derive(Clone, Copy, PartialEq, Eq, Structural, Debug)]
pub enum Prim {
    Void,
    Unit,
    Bool,
    Int8,
    Int16,
    Int32,
    Int64,
    Uint8,
    Uint16,
    Uint32,
    Uint64,
    Float,
    Double,
    Text,
    CName,
    ResRef,
    TweakDbId,
    Variant,
}

/// The name of a primitive type.
pub open spec fn prim_name(prim: Prim) -> Seq<char> {
    match prim {
        Prim::Void => "Void"@,
        Prim::Unit => "Unit"@,
        Prim::Bool => "Bool"@,
        Prim::Int8 => "Int8"@,
        Prim::Int16 => "Int16"@,
        Prim::Int32 => "Int32"@,
        Prim::Int64 => "Int64"@,
        Prim::Uint8 => "Uint8"@,
        Prim::Uint16 => "Uint16"@,
        Prim::Uint32 => "Uint32"@,
        Prim::Uint64 => "Uint64"@,
        Prim::Float => "Float"@,
        Prim::Double => "Double"@,
        Prim::Text => "String"@,
        Prim::CName => "CName"@,
        Prim::ResRef => "ResRef"@,
        Prim::TweakDbId => "TweakDBID"@,
        Prim::Variant => "Variant"@,
    }
}

/// The primitive type of this name, if there is one.
pub open spec fn prim_named(name: Seq<char>) -> Option<Prim> {
    if exists|prim: Prim| prim_name(prim) == name {
        Some(choose|prim: Prim| prim_name(prim) == name)
    } else {
        None
    }
}

/// The length, the first and the last character of the name of a primitive type.
pub open spec fn prim_key(prim: Prim) -> (int, char, char) {
    match prim {
        Prim::Void => (4, 'V', 'd'),
        Prim::Unit => (4, 'U', 't'),
        Prim::Bool => (4, 'B', 'l'),
        Prim::Int8 => (4, 'I', '8'),
        Prim::Int16 => (5, 'I', '6'),
        Prim::Int32 => (5, 'I', '2'),
        Prim::Int64 => (5, 'I', '4'),
        Prim::Uint8 => (5, 'U', '8'),
        Prim::Uint16 => (6, 'U', '6'),
        Prim::Uint32 => (6, 'U', '2'),
        Prim::Uint64 => (6, 'U', '4'),
        Prim::Float => (5, 'F', 't'),
        Prim::Double => (6, 'D', 'e'),
        Prim::Text => (6, 'S', 'g'),
        Prim::CName => (5, 'C', 'e'),
        Prim::ResRef => (6, 'R', 'f'),
        Prim::TweakDbId => (9, 'T', 'D'),
        Prim::Variant => (7, 'V', 't'),
    }
}

pub proof fn lemma_prim_key(prim: Prim)
    ensures
        prim_key(prim) == (prim_name(prim).len() as int, prim_name(prim)[0], prim_name(prim).last()),
{
    match prim {
        Prim::Void => {
            reveal_strlit("Void");
        },
        Prim::Unit => {
            reveal_strlit("Unit");
        },
        Prim::Bool => {
            reveal_strlit("Bool");
        },
        Prim::Int8 => {
            reveal_strlit("Int8");
        },
        Prim::Int16 => {
            reveal_strlit("Int16");
        },
        Prim::Int32 => {
            reveal_strlit("Int32");
        },
        Prim::Int64 => {
            reveal_strlit("Int64");
        },
        Prim::Uint8 => {
            reveal_strlit("Uint8");
        },
        Prim::Uint16 => {
            reveal_strlit("Uint16");
        },
        Prim::Uint32 => {
            reveal_strlit("Uint32");
        },
        Prim::Uint64 => {
            reveal_strlit("Uint64");
        },
        Prim::Float => {
            reveal_strlit("Float");
        },
        Prim::Double => {
            reveal_strlit("Double");
        },
        Prim::Text => {
            reveal_strlit("String");
        },
        Prim::CName => {
            reveal_strlit("CName");
        },
        Prim::ResRef => {
            reveal_strlit("ResRef");
        },
        Prim::TweakDbId => {
            reveal_strlit("TweakDBID");
        },
        Prim::Variant => {
            reveal_strlit("Variant");
        },
    }
}

/// No two primitive types share a name.
pub proof fn law_prim_names_differ(a: Prim, b: Prim)
    requires
        prim_name(a) == prim_name(b),
    ensures
        a == b,
{
    lemma_prim_key(a);
    lemma_prim_key(b);
    assert(prim_key(a) == prim_key(b));
}

/// No name of a primitive type has a colon in it.
pub proof fn lemma_prim_plain(prim: Prim)
    ensures
        !prim_name(prim).contains(':'),
{
    reveal_strlit("Void");
    reveal_strlit("Unit");
    reveal_strlit("Bool");
    reveal_strlit("Int8");
    reveal_strlit("Int16");
    reveal_strlit("Int32");
    reveal_strlit("Int64");
    reveal_strlit("Uint8");
    reveal_strlit("Uint16");
    reveal_strlit("Uint32");
    reveal_strlit("Uint64");
    reveal_strlit("Float");
    reveal_strlit("Double");
    reveal_strlit("String");
    reveal_strlit("CName");
    reveal_strlit("ResRef");
    reveal_strlit("TweakDBID");
    reveal_strlit("Variant");
}

/// A primitive type is found again under its own name.
pub proof fn law_prim_name_roundtrip(prim: Prim)
    ensures
        prim_named(prim_name(prim)) == Some(prim),
{
    let found = choose|p: Prim| prim_name(p) == prim_name(prim);
    assert(prim_name(found) == prim_name(prim));
    law_prim_names_differ(found, prim);
}

impl Prim {
    pub fn name(self) -> (name: &'static str)
        ensures
            name@ == prim_name(self),
    {
        match self {
            Prim::Void => "Void",
            Prim::Unit => "Unit",
            Prim::Bool => "Bool",
            Prim::Int8 => "Int8",
            Prim::Int16 => "Int16",
            Prim::Int32 => "Int32",
            Prim::Int64 => "Int64",
            Prim::Uint8 => "Uint8",
            Prim::Uint16 => "Uint16",
            Prim::Uint32 => "Uint32",
            Prim::Uint64 => "Uint64",
            Prim::Float => "Float",
            Prim::Double => "Double",
            Prim::Text => "String",
            Prim::CName => "CName",
            Prim::ResRef => "ResRef",
            Prim::TweakDbId => "TweakDBID",
            Prim::Variant => "Variant",
        }
    }

    /// The primitive type with this name.
    pub fn from_name(name: &String) -> (res: Option<Prim>)
        ensures
            res == prim_named(name@),
    {
        let res = if is(name, "Void") {
            Some(Prim::Void)
        } else if is(name, "Unit") {
            Some(Prim::Unit)
        } else if is(name, "Bool") {
            Some(Prim::Bool)
        } else if is(name, "Int8") {
            Some(Prim::Int8)
        } else if is(name, "Int16") {
            Some(Prim::Int16)
        } else if is(name, "Int32") {
            Some(Prim::Int32)
        } else if is(name, "Int64") {
            Some(Prim::Int64)
        } else if is(name, "Uint8") {
            Some(Prim::Uint8)
        } else if is(name, "Uint16") {
            Some(Prim::Uint16)
        } else if is(name, "Uint32") {
            Some(Prim::Uint32)
        } else if is(name, "Uint64") {
            Some(Prim::Uint64)
        } else if is(name, "Float") {
            Some(Prim::Float)
        } else if is(name, "Double") {
            Some(Prim::Double)
        } else if is(name, "String") {
            Some(Prim::Text)
        } else if is(name, "CName") {
            Some(Prim::CName)
        } else if is(name, "ResRef") {
            Some(Prim::ResRef)
        } else if is(name, "TweakDBID") {
            Some(Prim::TweakDbId)
        } else if is(name, "Variant") {
            Some(Prim::Variant)
        } else {
            None
        };
        proof {
            match res {
                Some(prim) => law_prim_name_roundtrip(prim),
                None => {
                    assert forall|prim: Prim| prim_name(prim) != name@ by {
                        match prim {
                            Prim::Void => {},
                            Prim::Unit => {},
                            Prim::Bool => {},
                            Prim::Int8 => {},
                            Prim::Int16 => {},
                            Prim::Int32 => {},
                            Prim::Int64 => {},
                            Prim::Uint8 => {},
                            Prim::Uint16 => {},
                            Prim::Uint32 => {},
                            Prim::Uint64 => {},
                            Prim::Float => {},
                            Prim::Double => {},
                            Prim::Text => {},
                            Prim::CName => {},
                            Prim::ResRef => {},
                            Prim::TweakDbId => {},
                            Prim::Variant => {},
                        }
                    }
                },
            }
        }
        res
    }
}

/// A type. A variable stands for a type that is not known where it is used, `Top` for a value of
/// any type and `Bottom` for no value.
pub enum Type {
    Data(Parameterized),
    Prim(Prim),
    Var(String),
    Top,
    Bottom,
}

/// A class, struct, enum or built-in type with its type arguments.
pub struct Parameterized {
    pub id: TypeId,
    pub args: Vec<Type>,
}

pub enum TypeV {
    Data(ParameterizedV),
    Prim(Prim),
    Var(Seq<char>),
    Top,
    Bottom,
}

#[verifier::ext_equal]
pub struct ParameterizedV {
    pub id: Seq<char>,
    pub args: Seq<TypeV>,
}

impl View for Type {
    type V = TypeV;

    open spec fn view(&self) -> TypeV
        decreases self,
    {
        match self {
            Type::Data(data) => TypeV::Data(
                ParameterizedV {
                    id: data.id@,
                    args: Seq::new(
                        data.args@.len(),
                        |i: int|
                            if 0 <= i < data.args@.len() {
                                data.args@[i].view()
                            } else {
                                TypeV::Top
                            },
                    ),
                },
            ),
            Type::Prim(prim) => TypeV::Prim(*prim),
            Type::Var(name) => TypeV::Var(name@),
            Type::Top => TypeV::Top,
            Type::Bottom => TypeV::Bottom,
        }
    }
}

impl View for Parameterized {
    type V = ParameterizedV;

    open spec fn view(&self) -> ParameterizedV {
        ParameterizedV { id: self.id@, args: views(self.args@) }
    }
}

/// The model of a parameterized type inside a type is its own model.
pub broadcast proof fn lemma_data_view(data: Parameterized)
    ensures
        #[trigger] Type::Data(data)@ == TypeV::Data(data@),
{
    let inner = Type::Data(data)@->Data_0;
    assert forall|i: int| 0 <= i < data.args@.len() implies inner.args[i] == views(data.args@)[i] by {
        assert(views(data.args@)[i] == data.args@[i]@);
    }
    assert(inner.args =~= views(data.args@));
}

impl Type {
    /// A second copy of the type.
    pub fn dup(&self) -> (res: Type)
        ensures
            res@ == self@,
        decreases self,
    {
        broadcast use lemma_data_view;

        match self {
            Type::Data(data) => Type::Data(data.dup()),
            Type::Prim(prim) => Type::Prim(*prim),
            Type::Var(name) => Type::Var(name.clone()),
            Type::Top => Type::Top,
            Type::Bottom => Type::Bottom,
        }
    }
}

impl Parameterized {
    pub fn without_args(id: TypeId) -> (res: Parameterized)
        ensures
            res@ == (ParameterizedV { id: id@, args: Seq::empty() }),
    {
        broadcast use crate::dict::group_views;

        Parameterized { id, args: Vec::new() }
    }

    /// A second copy of the type.
    pub fn dup(&self) -> (res: Parameterized)
        ensures
            res@ == self@,
        decreases self,
    {
        let mut args: Vec<Type> = Vec::new();
        let mut i: usize = 0;
        while i < self.args.len()
            invariant
                i <= self.args.len(),
                args.len() == i,
                forall|j: int| 0 <= j < i ==> #[trigger] args@[j]@ == self.args@[j]@,
            decreases self.args.len() - i,
        {
            let arg = self.args[i].dup();
            args.push(arg);
            i += 1;
        }
        assert(views(args@) =~= views(self.args@));
        Parameterized { id: self.id.clone(), args }
    }
}

/// What a variable stands for, where the inner scope hides the outer one.
pub open spec fn var_in(
    outer: DictV<Seq<char>, TypeV>,
    inner: DictV<Seq<char>, TypeV>,
    name: Seq<char>,
) -> Option<TypeV> {
    if inner.has(name) {
        Some(inner.at(name))
    } else {
        outer.get(name)
    }
}

/// The type with its variables replaced by what they stand for. A variable that is not bound
/// stays as it is.
pub open spec fn subst(
    typ: TypeV,
    outer: DictV<Seq<char>, TypeV>,
    inner: DictV<Seq<char>, TypeV>,
) -> TypeV
    decreases typ,
{
    match typ {
        TypeV::Data(data) => TypeV::Data(
            ParameterizedV {
                id: data.id,
                args: Seq::new(
                    data.args.len(),
                    |i: int|
                        if 0 <= i < data.args.len() {
                            subst(data.args[i], outer, inner)
                        } else {
                            TypeV::Top
                        },
                ),
            },
        ),
        TypeV::Var(name) => match var_in(outer, inner, name) {
            Some(to) => to,
            None => typ,
        },
        _ => typ,
    }
}

/// The type written out: its name, followed by its arguments, each behind a colon.
pub open spec fn type_text(typ: TypeV) -> Seq<char>
    decreases typ, 0nat,
{
    match typ {
        TypeV::Data(data) => data.id + args_text(data.args, data.args.len()),
        TypeV::Prim(prim) => prim_name(prim),
        TypeV::Var(name) => name,
        TypeV::Top => "Any"@,
        TypeV::Bottom => "Nothing"@,
    }
}

/// The first `n` arguments written out.
pub open spec fn args_text(args: Seq<TypeV>, n: nat) -> Seq<char>
    decreases args, n,
{
    if n == 0 || n > args.len() {
        Seq::empty()
    } else {
        args_text(args, (n - 1) as nat) + ":"@ + type_text(args[n - 1])
    }
}

impl Type {
    /// Whether two types are built alike from the same names.
    pub fn same_shape(&self, other: &Type) -> (res: bool)
        ensures
            res == (self@ == other@),
        decreases self,
    {
        broadcast use lemma_data_view;

        match (self, other) {
            (Type::Data(a), Type::Data(b)) => {
                if a.id != b.id || a.args.len() != b.args.len() {
                    assert(a@.id != b@.id || a@.args.len() != b@.args.len());
                    return false;
                }
                let mut i: usize = 0;
                while i < a.args.len()
                    invariant
                        i <= a.args.len(),
                        a.args.len() == b.args.len(),
                        *self == Type::Data(*a),
                        *other == Type::Data(*b),
                        self@ == TypeV::Data(a@),
                        other@ == TypeV::Data(b@),
                        forall|j: int| 0 <= j < i ==> #[trigger] a.args@[j]@ == b.args@[j]@,
                    decreases a.args.len() - i,
                {
                    if !a.args[i].same_shape(&b.args[i]) {
                        assert(a@.args[i as int] != b@.args[i as int]);
                        return false;
                    }
                    i += 1;
                }
                assert(a@.args =~= b@.args);
                true
            },
            (Type::Prim(a), Type::Prim(b)) => *a == *b,
            (Type::Var(a), Type::Var(b)) => *a == *b,
            (Type::Top, Type::Top) => true,
            (Type::Bottom, Type::Bottom) => true,
            _ => false,
        }
    }

    /// The type with its variables replaced by what they stand for.
    pub fn subst(&self, outer: &NameDict<Type>, inner: &NameDict<Type>) -> (res: Type)
        ensures
            res@ == subst(self@, outer@, inner@),
        decreases self,
    {
        broadcast use lemma_data_view;

        match self {
            Type::Data(data) => Type::Data(data.subst(outer, inner)),
            Type::Var(name) => {
                match inner.get(name) {
                    Some(to) => to.dup(),
                    None => match outer.get(name) {
                        Some(to) => to.dup(),
                        None => Type::Var(name.clone()),
                    },
                }
            },
            Type::Prim(prim) => Type::Prim(*prim),
            Type::Top => Type::Top,
            Type::Bottom => Type::Bottom,
        }
    }

    /// The type written out.
    pub fn text(&self) -> (res: String)
        ensures
            res@ == type_text(self@),
        decreases self,
    {
        broadcast use lemma_data_view;

        match self {
            Type::Data(data) => {
                let mut res = data.id.clone();
                let mut i: usize = 0;
                while i < data.args.len()
                    invariant
                        i <= data.args.len(),
                        *self == Type::Data(*data),
                        res@ == data.id@ + args_text(data@.args, i as nat),
                    decreases data.args.len() - i,
                {
                    assert(decreases_to!(self => self->Data_0));
                    assert(decreases_to!(data => data.args));
                    let arg = data.args[i].text();
                    res.append(":");
                    res.append(arg.as_str());
                    i += 1;
                    proof {
                        assert(data@.args[i - 1] == data.args@[i - 1]@);
                        assert(data.id@ + args_text(data@.args, (i - 1) as nat) + ":"@ + arg@
                            =~= data.id@ + (args_text(data@.args, (i - 1) as nat) + ":"@ + arg@));
                    }
                }
                res
            },
            Type::Prim(prim) => prim.name().to_owned(),
            Type::Var(name) => name.clone(),
            Type::Top => "Any".to_owned(),
            Type::Bottom => "Nothing".to_owned(),
        }
    }

    pub fn is_var(&self) -> (res: bool)
        ensures
            res == (self@ is Var),
    {
        match self {
            Type::Var(_) => true,
            _ => false,
        }
    }
}

impl Parameterized {
    /// The type with the variables in its arguments replaced by what they stand for.
    pub fn subst(&self, outer: &NameDict<Type>, inner: &NameDict<Type>) -> (res: Parameterized)
        ensures
            TypeV::Data(res@) == subst(TypeV::Data(self@), outer@, inner@),
        decreases self,
    {
        let mut args: Vec<Type> = Vec::new();
        let mut i: usize = 0;
        while i < self.args.len()
            invariant
                i <= self.args.len(),
                args.len() == i,
                forall|j: int|
                    0 <= j < i ==> #[trigger] args@[j]@ == subst(self.args@[j]@, outer@, inner@),
            decreases self.args.len() - i,
        {
            let arg = self.args[i].subst(outer, inner);
            args.push(arg);
            i += 1;
        }
        let res = Parameterized { id: self.id.clone(), args };
        proof {
            let want = subst(TypeV::Data(self@), outer@, inner@)->Data_0;
            assert forall|j: int| 0 <= j < want.args.len() implies res@.args[j] == want.args[j] by {
                assert(self@.args[j] == self.args@[j]@);
                assert(res@.args[j] == args@[j]@);
            }
            assert(res@.args =~= want.args);
        }
        res
    }
}

/// Replacing variables replaces each by what it stands for, where the inner scope hides the outer
/// one, everywhere in a type. Variables that stand for nothing stay, and so does all else.
pub proof fn law_variables_replaced(
    typ: TypeV,
    outer: DictV<Seq<char>, TypeV>,
    inner: DictV<Seq<char>, TypeV>,
    i: int,
)
    ensures
        typ matches TypeV::Var(name) ==> {
            &&& inner.get(name) is Some ==> subst(typ, outer, inner) == inner.get(name)->0
            &&& inner.get(name) is None && outer.get(name) is Some ==> subst(typ, outer, inner)
                == outer.get(name)->0
            &&& inner.get(name) is None && outer.get(name) is None ==> subst(typ, outer, inner)
                == typ
        },
        typ matches TypeV::Data(data) ==> {
            &&& subst(typ, outer, inner) is Data
            &&& subst(typ, outer, inner)->Data_0.id == data.id
            &&& subst(typ, outer, inner)->Data_0.args.len() == data.args.len()
            &&& 0 <= i < data.args.len() ==> subst(typ, outer, inner)->Data_0.args[i] == subst(
                data.args[i],
                outer,
                inner,
            )
        },
        !(typ is Var) && !(typ is Data) ==> subst(typ, outer, inner) == typ,
{
}

/// Whether a type has no variables in it.
pub open spec fn is_closed(typ: TypeV) -> bool
    decreases typ,
{
    match typ {
        TypeV::Data(data) => forall|i: int|
            0 <= i < data.args.len() ==> is_closed(#[trigger] data.args[i]),
        TypeV::Var(_) => false,
        _ => true,
    }
}

/// A type without variables stays as it is.
pub proof fn law_closed_stays(
    typ: TypeV,
    outer: DictV<Seq<char>, TypeV>,
    inner: DictV<Seq<char>, TypeV>,
)
    requires
        is_closed(typ),
    ensures
        subst(typ, outer, inner) == typ,
    decreases typ,
{
    if let TypeV::Data(data) = typ {
        let done = subst(typ, outer, inner)->Data_0;
        assert forall|i: int| 0 <= i < data.args.len() implies #[trigger] done.args[i]
            == data.args[i] by {
            assert(is_closed(data.args[i]));
            law_closed_stays(data.args[i], outer, inner);
        }
        assert(done.args =~= data.args);
    }
}

/// A type is written as its name, and each of its arguments behind a colon.
pub proof fn law_type_text(id: Seq<char>, args: Seq<TypeV>, arg: TypeV, prim: Prim)
    ensures
        type_text(TypeV::Data(ParameterizedV { id, args: Seq::empty() })) == id,
        type_text(TypeV::Data(ParameterizedV { id, args: args.push(arg) })) == type_text(
            TypeV::Data(ParameterizedV { id, args }),
        ) + ":"@ + type_text(arg),
        type_text(TypeV::Var(id)) == id,
        type_text(TypeV::Prim(prim)) == prim_name(prim),
{
    let more = args.push(arg);
    lemma_args_text_front(more, args, args.len());
    assert(args_text(more, more.len()) == args_text(more, args.len()) + ":"@ + type_text(arg));
    assert(type_text(TypeV::Data(ParameterizedV { id, args: more })) =~= id + args_text(
        args,
        args.len(),
    ) + ":"@ + type_text(arg));
    assert(type_text(TypeV::Data(ParameterizedV { id, args: Seq::empty() })) =~= id);
}

proof fn lemma_args_text_front(a: Seq<TypeV>, b: Seq<TypeV>, n: nat)
    requires
        n <= a.len(),
        n <= b.len(),
        forall|i: int| 0 <= i < n ==> #[trigger] a[i] == b[i],
    ensures
        args_text(a, n) == args_text(b, n),
    decreases n,
{
    if n > 0 {
        lemma_args_text_front(a, b, (n - 1) as nat);
        assert(a[n - 1] == b[n - 1]);
    }
}

} // verus!
