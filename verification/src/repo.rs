//! The repository of all types and global functions.
use vstd::prelude::*;

use crate::dict::{views, DictV, NameDict};
use crate::error::Span;
use crate::flags::{ClassFlags, FieldFlags, FunctionFlags};
use crate::funcs::{
    opt_view, promoted, signature, top_level, FuncMap, FuncMapV, FuncType, FuncTypeV, OverloadIndex,
    ScopedName, TypeVar, TypeVarV,
};
use crate::tables::{MemberId, MemberIdV};
use crate::types::{subst, Parameterized, ParameterizedV, Type, TypeId, TypeV};

verus! {

/// The name of the type of references.
pub open spec fn ref_id() -> Seq<char> {
    "ref"@
}

/// The name of the type of weak references.
pub open spec fn wref_id() -> Seq<char> {
    "wref"@
}

/// The name of the type of arrays.
pub open spec fn array_id() -> Seq<char> {
    "array"@
}

/// The name of the type of references to script values.
pub open spec fn script_ref_id() -> Seq<char> {
    "script_ref"@
}

/// The name of the class that every other class extends in the end.
pub open spec fn iscriptable_id() -> Seq<char> {
    "IScriptable"@
}

/// A field of a class.
pub struct Field {
    pub typ: Type,
    pub flags: FieldFlags,
}

pub struct FieldV {
    pub typ: TypeV,
    pub flags: FieldFlags,
}

impl View for Field {
    type V = FieldV;

    open spec fn view(&self) -> FieldV {
        FieldV { typ: self.typ@, flags: self.flags }
    }
}

impl Field {
    pub fn new(typ: Type, flags: FieldFlags) -> (res: Field)
        ensures
            res@ == (FieldV { typ: typ@, flags }),
    {
        Field { typ, flags }
    }
}

/// An enum: its members by name, each with its value.
pub struct EnumType {
    pub members: NameDict<i64>,
}

impl View for EnumType {
    type V = DictV<Seq<char>, i64>;

    open spec fn view(&self) -> DictV<Seq<char>, i64> {
        self.members@
    }
}

/// A class or a struct.
pub struct ClassType {
    pub type_vars: Vec<TypeVar>,
    pub extends: Option<Parameterized>,
    pub fields: NameDict<Field>,
    pub methods: FuncMap,
    pub statics: FuncMap,
    pub flags: ClassFlags,
    pub span: Option<Span>,
}

pub struct ClassTypeV {
    pub type_vars: Seq<TypeVarV>,
    pub extends: Option<ParameterizedV>,
    pub fields: DictV<Seq<char>, FieldV>,
    pub methods: FuncMapV,
    pub statics: FuncMapV,
    pub flags: ClassFlags,
    pub span: Option<Span>,
}

impl View for ClassType {
    type V = ClassTypeV;

    open spec fn view(&self) -> ClassTypeV {
        ClassTypeV {
            type_vars: views(self.type_vars@),
            extends: opt_view(self.extends),
            fields: self.fields@,
            methods: self.methods@,
            statics: self.statics@,
            flags: self.flags,
            span: self.span,
        }
    }
}

impl ClassType {
    /// Adds a method or a static function.
    pub fn add_method(&mut self, name: &String, typ: FuncType, flags: FunctionFlags) -> (at:
        OverloadIndex)
        ensures
            final(self)@ == with_method(old(self)@, name@, typ@, flags),
            at.func == method_func(old(self)@, name@, flags),
            at.slot == method_slot(old(self)@, name@, typ@, flags),
    {
        if flags.is_static {
            self.statics.add(ScopedName::top_level(name.clone()), typ, flags)
        } else {
            self.methods.add(ScopedName::top_level(name.clone()), typ, flags)
        }
    }
}

/// What a type name stands for.
pub enum DataType {
    Builtin(Vec<String>),
    Class(ClassType),
    Enum(EnumType),
}

pub enum DataTypeV {
    Builtin(Seq<Seq<char>>),
    Class(ClassTypeV),
    Enum(DictV<Seq<char>, i64>),
}

impl View for DataType {
    type V = DataTypeV;

    open spec fn view(&self) -> DataTypeV {
        match self {
            DataType::Builtin(vars) => DataTypeV::Builtin(views(vars@)),
            DataType::Class(class) => DataTypeV::Class(class@),
            DataType::Enum(typ) => DataTypeV::Enum(typ@),
        }
    }
}

/// The model of a repository.
pub struct RepoV {
    pub types: DictV<Seq<char>, DataTypeV>,
    pub globals: FuncMapV,
}

impl RepoV {
    pub open spec fn has(self, id: Seq<char>) -> bool {
        self.types.has(id)
    }

    pub open spec fn is_builtin(self, id: Seq<char>) -> bool {
        self.types.has(id) && self.types.at(id) is Builtin
    }

    pub open spec fn is_class(self, id: Seq<char>) -> bool {
        self.types.has(id) && self.types.at(id) is Class
    }

    pub open spec fn is_enum(self, id: Seq<char>) -> bool {
        self.types.has(id) && self.types.at(id) is Enum
    }

    /// The class of this name.
    pub open spec fn class(self, id: Seq<char>) -> ClassTypeV {
        self.types.at(id)->Class_0
    }

    pub open spec fn put(self, id: Seq<char>, typ: DataTypeV) -> RepoV {
        RepoV { types: self.types.put(id, typ), globals: self.globals }
    }

    pub open spec fn put_class(self, id: Seq<char>, class: ClassTypeV) -> RepoV {
        self.put(id, DataTypeV::Class(class))
    }

    /// Whether there is such a method.
    pub open spec fn has_method(self, id: MemberIdV) -> bool {
        self.is_class(id.owner) && self.class(id.owner).methods.has(id.slot)
    }

    /// Whether there is such a static function.
    pub open spec fn has_static(self, id: MemberIdV) -> bool {
        self.is_class(id.owner) && self.class(id.owner).statics.has(id.slot)
    }
}

/// All types, by name, and all global functions.
pub struct TypeRepo {
    pub types: NameDict<DataType>,
    pub globals: FuncMap,
}

impl View for TypeRepo {
    type V = RepoV;

    open spec fn view(&self) -> RepoV {
        RepoV { types: self.types@, globals: self.globals@ }
    }
}

/// The built-in types, each with one type variable.
pub open spec fn builtin_types() -> DictV<Seq<char>, DataTypeV> {
    let one = DataTypeV::Builtin(seq!["A"@]);
    DictV::<Seq<char>, DataTypeV>::empty().put(ref_id(), one).put(wref_id(), one).put(
        array_id(),
        one,
    ).put(script_ref_id(), one)
}

impl TypeRepo {
    /// A repository with the built-in types and nothing else.
    pub fn new() -> (repo: TypeRepo)
        ensures
            repo@ == (RepoV { types: builtin_types(), globals: FuncMapV::empty() }),
    {
        let mut types = NameDict::new();
        types.insert("ref".to_owned(), Self::builtin());
        types.insert("wref".to_owned(), Self::builtin());
        types.insert("array".to_owned(), Self::builtin());
        types.insert("script_ref".to_owned(), Self::builtin());
        TypeRepo { types, globals: FuncMap::new() }
    }

    fn builtin() -> (res: DataType)
        ensures
            res@ == DataTypeV::Builtin(seq!["A"@]),
    {
        let mut vars: Vec<String> = Vec::new();
        vars.push("A".to_owned());
        assert(views(vars@) =~= seq!["A"@]);
        DataType::Builtin(vars)
    }

    pub fn get_type(&self, id: &TypeId) -> (res: Option<&DataType>)
        ensures
            self@.types.wf(),
            res is Some <==> self@.has(id@),
            res matches Some(typ) ==> typ@ == self@.types.at(id@),
    {
        self.types.get(id)
    }

    /// The class of this name, if it is one.
    pub fn get_class(&self, id: &TypeId) -> (res: Option<&ClassType>)
        ensures
            self@.types.wf(),
            res is Some <==> self@.is_class(id@),
            res matches Some(class) ==> class@ == self@.class(id@),
    {
        match self.types.get(id) {
            Some(DataType::Class(class)) => Some(class),
            _ => None,
        }
    }

    pub fn add_type(&mut self, id: TypeId, typ: DataType)
        ensures
            old(self)@.types.wf(),
            final(self)@.types.wf(),
            final(self)@ == old(self)@.put(id@, typ@),
    {
        self.types.insert(id, typ);
    }

    /// Adds a field to a class. One of the same name is replaced.
    pub fn add_field(&mut self, id: &TypeId, name: String, field: Field)
        requires
            old(self)@.is_class(id@),
        ensures
            final(self)@.types.wf(),
            final(self)@ == old(self)@.put_class(
                id@,
                (ClassTypeV {
                    fields: old(self)@.class(id@).fields.put(name@, field@),
                    ..old(self)@.class(id@)
                }),
            ),
    {
        let i = self.types.find(id).unwrap();
        let ghost was = self@;
        let taken = self.types.replace(i, DataType::Builtin(Vec::new()));
        match taken {
            DataType::Class(mut class) => {
                class.fields.insert(name, field);
                let _ = self.types.replace(i, DataType::Class(class));
                proof {
                    let now = ClassTypeV {
                        fields: was.class(id@).fields.put(name@, field@),
                        ..was.class(id@)
                    };
                    assert(self@.types =~= was.put_class(id@, now).types);
                }
            },
            _ => {},
        }
    }

    /// Adds a method or a static function to a class.
    pub fn add_method(
        &mut self,
        id: &TypeId,
        name: &String,
        typ: FuncType,
        flags: FunctionFlags,
    ) -> (at: OverloadIndex)
        requires
            old(self)@.is_class(id@),
        ensures
            final(self)@.types.wf(),
            final(self)@ == old(self)@.put_class(
                id@,
                with_method(old(self)@.class(id@), name@, typ@, flags),
            ),
            at.func == method_func(old(self)@.class(id@), name@, flags),
            at.slot == method_slot(old(self)@.class(id@), name@, typ@, flags),
    {
        let i = self.types.find(id).unwrap();
        let ghost was = self@;
        let taken = self.types.replace(i, DataType::Builtin(Vec::new()));
        match taken {
            DataType::Class(mut class) => {
                let at = class.add_method(name, typ, flags);
                let _ = self.types.replace(i, DataType::Class(class));
                proof {
                    let now = with_method(was.class(id@), name@, typ@, flags);
                    assert(self@.types =~= was.put_class(id@, now).types);
                }
                at
            },
            _ => vstd::pervasive::unreached(),
        }
    }

    /// Marks a method as an override.
    pub fn promote_method(
        &mut self,
        id: &MemberId,
        base: MemberId,
        is_ret_poly: bool,
        poly: &Vec<bool>,
    )
        requires
            old(self)@.has_method(id@),
        ensures
            final(self)@.types.wf(),
            final(self)@ == promote_method(old(self)@, id@, base@, is_ret_poly, poly@),
    {
        let i = self.types.find(&id.owner).unwrap();
        let ghost was = self@;
        let taken = self.types.replace(i, DataType::Builtin(Vec::new()));
        match taken {
            DataType::Class(mut class) => {
                class.methods.promote(id.slot, base, is_ret_poly, poly);
                let _ = self.types.replace(i, DataType::Class(class));
                proof {
                    let now = promote_method(was, id@, base@, is_ret_poly, poly@);
                    assert(self@.types =~= now.types);
                }
            },
            _ => {},
        }
    }
}

/// A class with a method, or a static function, added.
pub open spec fn with_method(
    class: ClassTypeV,
    name: Seq<char>,
    typ: FuncTypeV,
    flags: FunctionFlags,
) -> ClassTypeV {
    if flags.is_static {
        ClassTypeV { statics: class.statics.add(top_level(name), typ, flags), ..class }
    } else {
        ClassTypeV { methods: class.methods.add(top_level(name), typ, flags), ..class }
    }
}

/// The place of the name of a method, or static function, that is added.
pub open spec fn method_func(class: ClassTypeV, name: Seq<char>, flags: FunctionFlags) -> int {
    if flags.is_static {
        class.statics.func_of(top_level(name))
    } else {
        class.methods.func_of(top_level(name))
    }
}

/// The place of a method, or static function, that is added.
pub open spec fn method_slot(
    class: ClassTypeV,
    name: Seq<char>,
    typ: FuncTypeV,
    flags: FunctionFlags,
) -> int {
    if flags.is_static {
        class.statics.slot_for(top_level(name), signature(top_level(name), typ))
    } else {
        class.methods.slot_for(top_level(name), signature(top_level(name), typ))
    }
}

/// The repository with a method marked as an override.
pub open spec fn promote_method(
    repo: RepoV,
    id: MemberIdV,
    base: MemberIdV,
    is_ret_poly: bool,
    poly: Seq<bool>,
) -> RepoV {
    let class = repo.class(id.owner);
    repo.put_class(
        id.owner,
        ClassTypeV {
            methods: FuncMapV {
                names: class.methods.names,
                entries: class.methods.entries.update(
                    id.slot,
                    promoted(class.methods.entries[id.slot], base, is_ret_poly, poly),
                ),
            },
            ..class
        },
    )
}

/// The `k`-th class on the way up from a class, which is itself the first.
pub open spec fn nth_upper(repo: RepoV, id: Seq<char>, k: nat) -> Option<Seq<char>>
    decreases k,
{
    if k == 0 {
        if repo.is_class(id) {
            Some(id)
        } else {
            None
        }
    } else {
        match nth_upper(repo, id, (k - 1) as nat) {
            Some(lower) => match repo.class(lower).extends {
                Some(base) => if repo.is_class(base.id) {
                    Some(base.id)
                } else {
                    None
                },
                None => None,
            },
            None => None,
        }
    }
}

/// Whether the way up from a type has `n` classes.
pub open spec fn is_depth(repo: RepoV, id: Seq<char>, n: nat) -> bool {
    &&& nth_upper(repo, id, n) is None
    &&& forall|k: nat| k < n ==> #[trigger] nth_upper(repo, id, k) is Some
}

/// Whether the way up from a type ends.
pub open spec fn has_depth(repo: RepoV, id: Seq<char>) -> bool {
    exists|n: nat| is_depth(repo, id, n)
}

/// The number of classes on the way up from a type.
pub open spec fn depth(repo: RepoV, id: Seq<char>) -> nat {
    choose|n: nat| is_depth(repo, id, n)
}

/// There is only one depth.
pub proof fn lemma_depth(repo: RepoV, id: Seq<char>, n: nat)
    requires
        is_depth(repo, id, n),
    ensures
        depth(repo, id) == n,
{
    let d = depth(repo, id);
    assert(is_depth(repo, id, d));
    if d < n {
        assert(nth_upper(repo, id, d) is Some);
    }
    if n < d {
        assert(nth_upper(repo, id, n) is Some);
    }
}

pub proof fn lemma_nth_none(repo: RepoV, id: Seq<char>, k: nat, m: nat)
    requires
        nth_upper(repo, id, k) is None,
        k <= m,
    ensures
        nth_upper(repo, id, m) is None,
    decreases m,
{
    if k < m {
        lemma_nth_none(repo, id, k, (m - 1) as nat);
    }
}

/// From equal classes the way goes on alike.
proof fn lemma_nth_shift(repo: RepoV, id: Seq<char>, i: nat, j: nat, d: nat)
    requires
        nth_upper(repo, id, i) == nth_upper(repo, id, j),
    ensures
        nth_upper(repo, id, i + d) == nth_upper(repo, id, j + d),
    decreases d,
{
    if d > 0 {
        lemma_nth_shift(repo, id, i, j, (d - 1) as nat);
    }
}

/// The way up from the `k`-th class on the way is the rest of the way.
pub proof fn lemma_nth_compose(repo: RepoV, id: Seq<char>, k: nat, d: nat)
    requires
        nth_upper(repo, id, k) is Some,
    ensures
        nth_upper(repo, nth_upper(repo, id, k)->0, d) == nth_upper(repo, id, k + d),
    decreases d,
{
    if d == 0 {
        lemma_nth_is_class(repo, id, k);
    } else {
        lemma_nth_compose(repo, id, k, (d - 1) as nat);
    }
}

pub proof fn lemma_nth_is_class(repo: RepoV, id: Seq<char>, k: nat)
    requires
        nth_upper(repo, id, k) is Some,
    ensures
        repo.is_class(nth_upper(repo, id, k)->0),
{
}

/// The classes on the way up are distinct types of the repository, so there are no more of them
/// than types.
proof fn lemma_depth_bound(repo: RepoV, id: Seq<char>, n: nat, m: nat)
    requires
        is_depth(repo, id, n),
        m <= n,
    ensures
        m <= repo.types.keys.len(),
{
    let way = Seq::new(m, |k: int| nth_upper(repo, id, k as nat)->0);
    let keys = repo.types.keys;
    assert forall|i: int, j: int| 0 <= i < j < way.len() implies way[i] != way[j] by {
        assert(nth_upper(repo, id, i as nat) is Some);
        assert(nth_upper(repo, id, j as nat) is Some);
        if way[i] == way[j] {
            lemma_nth_shift(repo, id, i as nat, j as nat, (n - j) as nat);
            assert(nth_upper(repo, id, (i + (n - j)) as nat) is Some);
        }
    }
    assert(way.no_duplicates());
    assert(way.to_set().subset_of(keys.to_set())) by {
        assert forall|x: Seq<char>| way.to_set().contains(x) implies keys.to_set().contains(x) by {
            let i = choose|i: int| 0 <= i < way.len() && way[i] == x;
            assert(nth_upper(repo, id, i as nat) is Some);
            lemma_nth_is_class(repo, id, i as nat);
            assert(keys.contains(x));
        }
    }
    way.unique_seq_to_set();
    vstd::set_lib::lemma_len_subset(way.to_set(), keys.to_set());
    keys.lemma_cardinality_of_set();
}

impl TypeRepo {
    /// Whether the way up from a type ends.
    pub fn way_ends(&self, id: &TypeId) -> (res: bool)
        ensures
            res == has_depth(self@, id@),
    {
        let types: usize = self.types.len();
        let mut n: usize = 0;
        let mut current: Option<&ClassType> = self.get_class(id);
        while current.is_some()
            invariant
                n <= types,
                types == self@.types.keys.len(),
                match current {
                    Some(class) => nth_upper(self@, id@, n as nat) is Some && class@
                        == self@.class(nth_upper(self@, id@, n as nat)->0),
                    None => nth_upper(self@, id@, n as nat) is None,
                },
                forall|k: nat| k < n ==> #[trigger] nth_upper(self@, id@, k) is Some,
            decreases types - n + if current is Some { 1int } else { 0 },
        {
            if n == types {
                proof {
                    if has_depth(self@, id@) {
                        let total = depth(self@, id@);
                        assert(is_depth(self@, id@, total));
                        if total <= n {
                            lemma_nth_none(self@, id@, total, n as nat);
                        }
                        lemma_depth_bound(self@, id@, total, (n + 1) as nat);
                    }
                }
                return false;
            }
            let class = current.unwrap();
            current = match &class.extends {
                Some(base) => self.get_class(&base.id),
                None => None,
            };
            n += 1;
        }
        assert(is_depth(self@, id@, n as nat));
        true
    }

    /// The number of classes on the way up from a type.
    pub fn upper_count(&self, id: &TypeId) -> (n: usize)
        requires
            has_depth(self@, id@),
        ensures
            n == depth(self@, id@),
            is_depth(self@, id@, n as nat),
    {
        let ghost total = depth(self@, id@);
        assert(is_depth(self@, id@, total));
        let mut n: usize = 0;
        let mut current: Option<&ClassType> = self.get_class(id);
        let types: usize = self.types.len();
        while current.is_some()
            invariant
                is_depth(self@, id@, total),
                n <= total,
                types == self@.types.keys.len(),
                match current {
                    Some(class) => nth_upper(self@, id@, n as nat) is Some && class@
                        == self@.class(nth_upper(self@, id@, n as nat)->0),
                    None => nth_upper(self@, id@, n as nat) is None,
                },
                forall|k: nat| k < n ==> #[trigger] nth_upper(self@, id@, k) is Some,
            decreases total - n,
        {
            proof {
                if n >= total {
                    lemma_nth_none(self@, id@, total, n as nat);
                }
                lemma_depth_bound(self@, id@, total, (n + 1) as nat);
            }
            let class = current.unwrap();
            current = match &class.extends {
                Some(base) => self.get_class(&base.id),
                None => None,
            };
            n += 1;
        }
        proof {
            lemma_depth(self@, id@, n as nat);
        }
        n
    }
}

/// The first `n` type variables, each with the argument at the same place.
pub open spec fn zip_vars(vars: Seq<TypeVarV>, args: Seq<TypeV>, n: nat) -> DictV<Seq<char>, TypeV>
    decreases n,
{
    if n == 0 {
        DictV::empty()
    } else {
        zip_vars(vars, args, (n - 1) as nat).put(vars[n - 1].name, args[n - 1])
    }
}

/// What the type variables of a class stand for under these arguments.
pub open spec fn bound_vars(vars: Seq<TypeVarV>, args: Seq<TypeV>) -> DictV<Seq<char>, TypeV> {
    zip_vars(
        vars,
        args,
        if vars.len() <= args.len() {
            vars.len()
        } else {
            args.len()
        },
    )
}

/// Binds the type variables of a class to arguments.
pub fn bind_vars(vars: &Vec<TypeVar>, args: &Vec<Type>) -> (res: NameDict<Type>)
    ensures
        res@ == bound_vars(views(vars@), views(args@)),
{
    let mut res: NameDict<Type> = NameDict::new();
    let mut i: usize = 0;
    while i < vars.len() && i < args.len()
        invariant
            i <= vars.len(),
            i <= args.len(),
            res@ == zip_vars(views(vars@), views(args@), i as nat),
        decreases vars.len() - i,
    {
        res.insert(vars[i].name.clone(), args[i].dup());
        i += 1;
        assert(views(vars@)[i - 1] == vars@[i - 1]@);
        assert(views(args@)[i - 1] == args@[i - 1]@);
    }
    res
}

/// The base of a class, seen from a class with these arguments.
pub open spec fn base_instance(repo: RepoV, this: ParameterizedV) -> ParameterizedV {
    let class = repo.class(this.id);
    subst(
        TypeV::Data(class.extends->0),
        DictV::empty(),
        bound_vars(class.type_vars, this.args),
    )->Data_0
}

/// The `k`-th class on the way up, with the arguments that it has there.
pub open spec fn ancestor(repo: RepoV, this: ParameterizedV, k: nat) -> ParameterizedV
    decreases k,
{
    if k == 0 {
        this
    } else {
        base_instance(repo, ancestor(repo, this, (k - 1) as nat))
    }
}

/// The base of a class, seen from a class with these arguments.
pub fn instantiate_base(class: &ClassType, base: &Parameterized, args: &Vec<Type>) -> (res:
    Parameterized)
    ensures
        TypeV::Data(res@) == subst(
            TypeV::Data(base@),
            DictV::empty(),
            bound_vars(views(class.type_vars@), views(args@)),
        ),
{
    let vars = bind_vars(&class.type_vars, args);
    let none: NameDict<Type> = NameDict::new();
    base.subst(&none, &vars)
}

} // verus!
