//! Scopes of names, and how the type names of a source file are resolved in them.
use vstd::prelude::*;

use crate::dict::{views, DictV, NameDict};
use crate::error::{TypeError, TypeErrorV};
use crate::funcs::{opt_view, FuncIndex, TypeVar, TypeVarV};
use crate::source::{TypeName, TypeParam};
use crate::tables::{MemberId, MemberIdV};
use crate::types::{
    lemma_data_view, prim_named, var_in, Parameterized, ParameterizedV, Prim, Type, TypeId, TypeV,
};

verus! {

/// The model of a scope: what is known everywhere, and what is known in one module.
pub struct ScopedMapV<V> {
    pub global: DictV<Seq<char>, V>,
    pub local: Option<DictV<Seq<char>, V>>,
}

impl<V> ScopedMapV<V> {
    /// What a name stands for. A name of the module hides a global one.
    pub open spec fn lookup(self, name: Seq<char>) -> Option<V> {
        match self.local {
            Some(local) => if local.has(name) {
                Some(local.at(name))
            } else {
                self.global.get(name)
            },
            None => self.global.get(name),
        }
    }

    /// The innermost names.
    pub open spec fn top(self) -> DictV<Seq<char>, V> {
        match self.local {
            Some(local) => local,
            None => self.global,
        }
    }

    pub open spec fn with_top(self, top: DictV<Seq<char>, V>) -> Self {
        match self.local {
            Some(_) => ScopedMapV { global: self.global, local: Some(top) },
            None => ScopedMapV { global: top, local: None },
        }
    }

    /// The scope with a name added to the innermost ones.
    pub open spec fn insert(self, name: Seq<char>, val: V) -> Self {
        self.with_top(self.top().put(name, val))
    }

    /// The scope with the names of a module on top.
    pub open spec fn push_scope(self, local: DictV<Seq<char>, V>) -> Self {
        ScopedMapV { global: self.global, local: Some(local) }
    }

    /// The global names only.
    pub open spec fn outside(self) -> Self {
        ScopedMapV { global: self.global, local: None }
    }
}

/// A scope of names.
pub struct ScopedMap<V: View> {
    pub global: NameDict<V>,
    pub local: Option<NameDict<V>>,
}

impl<V: View> View for ScopedMap<V> {
    type V = ScopedMapV<V::V>;

    open spec fn view(&self) -> ScopedMapV<V::V> {
        ScopedMapV { global: self.global@, local: opt_view(self.local) }
    }
}

impl<V: View> ScopedMap<V> {
    pub fn new() -> (res: Self)
        ensures
            res@ == (ScopedMapV { global: DictV::<Seq<char>, V::V>::empty(), local: None }),
    {
        ScopedMap { global: NameDict::new(), local: None }
    }

    /// What a name stands for.
    pub fn get(&self, name: &String) -> (res: Option<&V>)
        ensures
            match res {
                Some(val) => self@.lookup(name@) == Some(val@),
                None => self@.lookup(name@) is None,
            },
    {
        match &self.local {
            Some(local) => match local.get(name) {
                Some(val) => Some(val),
                None => self.global.get(name),
            },
            None => self.global.get(name),
        }
    }

    /// Adds a name to the innermost ones.
    pub fn insert(&mut self, name: String, val: V)
        ensures
            final(self)@ == old(self)@.insert(name@, val@),
    {
        match &mut self.local {
            Some(local) => {
                local.insert(name, val);
            },
            None => {
                self.global.insert(name, val);
            },
        }
    }

    /// Puts the names of a module on top.
    pub fn push_scope(&mut self, local: NameDict<V>)
        ensures
            final(self)@ == old(self)@.push_scope(local@),
    {
        self.local = Some(local);
    }

    /// Puts a module without names on top.
    pub fn introduce_scope(&mut self)
        ensures
            final(self)@ == old(self)@.push_scope(DictV::empty()),
    {
        self.local = Some(NameDict::new());
    }

    /// Takes the names of the module off.
    pub fn pop_scope(&mut self) -> (res: NameDict<V>)
        ensures
            final(self)@ == old(self)@.outside(),
            res@ == match old(self)@.local {
                Some(local) => local,
                None => DictV::empty(),
            },
    {
        let mut local: Option<NameDict<V>> = None;
        std::mem::swap(&mut local, &mut self.local);
        match local {
            Some(local) => local,
            None => NameDict::new(),
        }
    }
}

/// What a function name stands for: a function by the place of its name, an intrinsic, or the
/// method that a wrapper wraps.
pub enum Global {
    Func(FuncIndex),
    Intrinsic(FuncIndex, usize),
    MethodAlias(MemberId),
    StaticAlias(MemberId),
}

pub enum GlobalV {
    Func(int),
    Intrinsic(int, int),
    MethodAlias(MemberIdV),
    StaticAlias(MemberIdV),
}

impl View for Global {
    type V = GlobalV;

    open spec fn view(&self) -> GlobalV {
        match self {
            Global::Func(func) => GlobalV::Func(*func as int),
            Global::Intrinsic(func, intrinsic) => GlobalV::Intrinsic(
                *func as int,
                *intrinsic as int,
            ),
            Global::MethodAlias(id) => GlobalV::MethodAlias(id@),
            Global::StaticAlias(id) => GlobalV::StaticAlias(id@),
        }
    }
}

impl Global {
    fn same(&self, other: &Global) -> (res: bool)
        ensures
            res == (self@ == other@),
    {
        match (self, other) {
            (Global::Func(a), Global::Func(b)) => *a == *b,
            (Global::Intrinsic(a, i), Global::Intrinsic(b, j)) => *a == *b && *i == *j,
            (Global::MethodAlias(a), Global::MethodAlias(b)) => a.owner == b.owner && a.slot
                == b.slot,
            (Global::StaticAlias(a), Global::StaticAlias(b)) => a.owner == b.owner && a.slot
                == b.slot,
            _ => false,
        }
    }
}

/// All that one function name stands for.
pub struct Overloads {
    pub items: Vec<Global>,
}

impl View for Overloads {
    type V = Seq<GlobalV>;

    open spec fn view(&self) -> Seq<GlobalV> {
        views(self.items@)
    }
}

impl Overloads {
    fn contains(&self, global: &Global) -> (res: bool)
        ensures
            res == self@.contains(global@),
    {
        let mut i: usize = 0;
        while i < self.items.len()
            invariant
                i <= self.items.len(),
                forall|j: int| 0 <= j < i ==> #[trigger] self@[j] != global@,
            decreases self.items.len() - i,
        {
            assert(self@[i as int] == self.items@[i as int]@);
            if self.items[i].same(global) {
                return true;
            }
            i += 1;
        }
        false
    }
}

/// The scope of type names, each with the full name of the type.
pub type TypeScope = ScopedMap<TypeId>;

pub type TypeScopeV = ScopedMapV<Seq<char>>;

/// The scope of function names.
pub type NameScope = ScopedMap<Overloads>;

pub type NameScopeV = ScopedMapV<Seq<GlobalV>>;

/// What an innermost name stands for so far.
pub open spec fn overloads_of(names: NameScopeV, name: Seq<char>) -> Seq<GlobalV> {
    match names.top().get(name) {
        Some(items) => items,
        None => Seq::empty(),
    }
}

/// The scope in which an innermost name stands for one more thing.
pub open spec fn push_global(names: NameScopeV, name: Seq<char>, global: GlobalV) -> NameScopeV {
    names.insert(name, overloads_of(names, name).push(global))
}

/// The scope in which an innermost name stands for a thing, once.
pub open spec fn add_global(names: NameScopeV, name: Seq<char>, global: GlobalV) -> NameScopeV {
    if overloads_of(names, name).contains(global) {
        names
    } else {
        push_global(names, name, global)
    }
}

fn push_to(dict: &mut NameDict<Overloads>, name: &String, global: Global)
    ensures
        final(dict)@ == old(dict)@.put(
            name@,
            match old(dict)@.get(name@) {
                Some(items) => items.push(global@),
                None => Seq::empty().push(global@),
            },
        ),
{
    broadcast use crate::dict::group_views;

    let ghost was = dict@;
    match dict.find(name) {
        Some(i) => {
            let mut found = dict.replace(i, Overloads { items: Vec::new() });
            found.items.push(global);
            let _ = dict.replace(i, found);
            assert(dict@ =~= was.put(name@, was.at(name@).push(global@)));
        },
        None => {
            let mut items: Vec<Global> = Vec::new();
            items.push(global);
            dict.insert(name.clone(), Overloads { items });
        },
    }
}

impl ScopedMap<Overloads> {
    /// Lets an innermost name stand for one more thing.
    pub fn push_global(&mut self, name: &String, global: Global)
        ensures
            final(self)@ == push_global(old(self)@, name@, global@),
    {
        match &mut self.local {
            Some(local) => {
                push_to(local, name, global);
            },
            None => {
                push_to(&mut self.global, name, global);
            },
        }
    }

    /// Lets an innermost name stand for a thing, once.
    pub fn add_global(&mut self, name: &String, global: Global)
        ensures
            final(self)@ == add_global(old(self)@, name@, global@),
    {
        let top = match &self.local {
            Some(local) => local,
            None => &self.global,
        };
        let known = match top.get(name) {
            Some(items) => items.contains(&global),
            None => false,
        };
        if !known {
            self.push_global(name, global);
        }
    }
}

/// The type that a written type name stands for, with type variables from two scopes. A variable
/// hides a type, and a name without arguments may be that of a primitive type.
pub open spec fn resolve_type(
    tn: TypeName,
    types: TypeScopeV,
    outer: DictV<Seq<char>, TypeV>,
    inner: DictV<Seq<char>, TypeV>,
) -> Result<TypeV, TypeErrorV>
    decreases tn, 2nat,
{
    if var_in(outer, inner, tn.name@) is Some {
        Ok(TypeV::Var(tn.name@))
    } else if tn.args@.len() == 0 && prim_named(tn.name@) is Some {
        Ok(TypeV::Prim(prim_named(tn.name@)->0))
    } else {
        match resolve_param_type(tn, types, outer, inner) {
            Ok(data) => Ok(TypeV::Data(data)),
            Err(err) => Err(err),
        }
    }
}

/// The class, struct, enum or built-in type that a written type name stands for.
pub open spec fn resolve_param_type(
    tn: TypeName,
    types: TypeScopeV,
    outer: DictV<Seq<char>, TypeV>,
    inner: DictV<Seq<char>, TypeV>,
) -> Result<ParameterizedV, TypeErrorV>
    decreases tn, 1nat,
{
    match types.lookup(tn.name@) {
        Some(id) => match resolve_args(tn.args@, tn.args@.len(), types, outer, inner) {
            Ok(args) => Ok(ParameterizedV { id, args }),
            Err(err) => Err(err),
        },
        None => Err(TypeErrorV::UnresolvedType(tn.name@)),
    }
}

/// The types that the first `n` arguments stand for. The first one that stands for none decides.
pub open spec fn resolve_args(
    args: Seq<TypeName>,
    n: nat,
    types: TypeScopeV,
    outer: DictV<Seq<char>, TypeV>,
    inner: DictV<Seq<char>, TypeV>,
) -> Result<Seq<TypeV>, TypeErrorV>
    decreases args, n,
{
    if n == 0 || n > args.len() {
        Ok(Seq::empty())
    } else {
        match resolve_args(args, (n - 1) as nat, types, outer, inner) {
            Ok(done) => match resolve_type(args[n - 1], types, outer, inner) {
                Ok(typ) => Ok(done.push(typ)),
                Err(err) => Err(err),
            },
            Err(err) => Err(err),
        }
    }
}

/// Whether a resolved value is the one that is due.
pub open spec fn resolves<T: View>(
    res: Result<T, TypeError>,
    due: Result<T::V, TypeErrorV>,
) -> bool {
    match res {
        Ok(val) => due == Ok::<T::V, TypeErrorV>(val@),
        Err(err) => due == Err::<T::V, TypeErrorV>(err@),
    }
}

/// Resolves types by name.
pub struct TypeEnv<'a> {
    pub types: &'a TypeScope,
    pub outer: &'a NameDict<Type>,
    pub inner: &'a NameDict<Type>,
}

impl<'a> TypeEnv<'a> {
    /// The type that a written type name stands for.
    pub fn resolve_type(&self, tn: &TypeName) -> (res: Result<Type, TypeError>)
        ensures
            resolves(res, resolve_type(*tn, self.types@, self.outer@, self.inner@)),
        decreases tn, 2nat,
    {
        broadcast use lemma_data_view;

        if self.inner.get(&tn.name).is_some() || self.outer.get(&tn.name).is_some() {
            return Ok(Type::Var(tn.name.clone()));
        }
        if tn.args.len() == 0 {
            if let Some(prim) = Prim::from_name(&tn.name) {
                return Ok(Type::Prim(prim));
            }
        }
        match self.resolve_param_type(tn) {
            Ok(data) => Ok(Type::Data(data)),
            Err(err) => Err(err),
        }
    }

    /// The class, struct, enum or built-in type that a written type name stands for.
    pub fn resolve_param_type(&self, tn: &TypeName) -> (res: Result<Parameterized, TypeError>)
        ensures
            resolves(res, resolve_param_type(*tn, self.types@, self.outer@, self.inner@)),
        decreases tn, 1nat,
    {
        broadcast use crate::dict::group_views;

        let id = match self.types.get(&tn.name) {
            Some(id) => id.clone(),
            None => {
                return Err(TypeError::UnresolvedType(tn.name.clone()));
            },
        };
        let mut args: Vec<Type> = Vec::new();
        let mut i: usize = 0;
        while i < tn.args.len()
            invariant
                i <= tn.args.len(),
                self.types@.lookup(tn.name@) == Some(id@),
                resolve_args(tn.args@, i as nat, self.types@, self.outer@, self.inner@) == (Ok::<
                    Seq<TypeV>,
                    TypeErrorV,
                >(views(args@))),
            decreases tn.args.len() - i,
        {
            match self.resolve_type(&tn.args[i]) {
                Ok(typ) => {
                    let ghost done = args@;
                    args.push(typ);
                    assert(views(args@) =~= views(done).push(typ@));
                },
                Err(err) => {
                    proof {
                        lemma_args_err(
                            tn.args@,
                            (i + 1) as nat,
                            tn.args@.len(),
                            self.types@,
                            self.outer@,
                            self.inner@,
                        );
                    }
                    return Err(err);
                },
            }
            i += 1;
        }
        Ok(Parameterized { id, args })
    }

    /// The type variable that a type parameter introduces.
    pub fn instantiate_var(&self, param: &TypeParam) -> (res: Result<TypeVar, TypeError>)
        ensures
            resolves(res, instantiate_var(*param, self.types@, self.outer@, self.inner@)),
    {
        let upper = match &param.extends {
            Some(tn) => match self.resolve_type(tn) {
                Ok(typ) => typ,
                Err(err) => {
                    return Err(err);
                },
            },
            None => Type::Top,
        };
        Ok(TypeVar { name: param.name.clone(), upper })
    }

    /// The type variables that type parameters introduce.
    pub fn instantiate_vars(&self, params: &Vec<TypeParam>) -> (res: Result<
        Vec<TypeVar>,
        TypeError,
    >)
        ensures
            match res {
                Ok(vars) => instantiate_vars(
                    params@,
                    params@.len() as int,
                    self.types@,
                    self.outer@,
                    self.inner@,
                ) == (Ok::<Seq<TypeVarV>, TypeErrorV>(views(vars@))),
                Err(err) => instantiate_vars(
                    params@,
                    params@.len() as int,
                    self.types@,
                    self.outer@,
                    self.inner@,
                ) == (Err::<Seq<TypeVarV>, TypeErrorV>(err@)),
            },
    {
        broadcast use crate::dict::group_views;

        let mut vars: Vec<TypeVar> = Vec::new();
        let mut i: usize = 0;
        while i < params.len()
            invariant
                i <= params.len(),
                instantiate_vars(params@, i as int, self.types@, self.outer@, self.inner@) == (Ok::<
                    Seq<TypeVarV>,
                    TypeErrorV,
                >(views(vars@))),
            decreases params.len() - i,
        {
            match self.instantiate_var(&params[i]) {
                Ok(var) => {
                    let ghost done = vars@;
                    vars.push(var);
                    assert(views(vars@) =~= views(done).push(var@));
                },
                Err(err) => {
                    proof {
                        lemma_vars_err(
                            params@,
                            i + 1,
                            params@.len() as int,
                            self.types@,
                            self.outer@,
                            self.inner@,
                        );
                    }
                    return Err(err);
                },
            }
            i += 1;
        }
        Ok(vars)
    }
}

proof fn lemma_args_err(
    args: Seq<TypeName>,
    n: nat,
    m: nat,
    types: TypeScopeV,
    outer: DictV<Seq<char>, TypeV>,
    inner: DictV<Seq<char>, TypeV>,
)
    requires
        n <= m <= args.len(),
        resolve_args(args, n, types, outer, inner) is Err,
    ensures
        resolve_args(args, m, types, outer, inner) == resolve_args(args, n, types, outer, inner),
    decreases m,
{
    if n < m {
        lemma_args_err(args, n, (m - 1) as nat, types, outer, inner);
    }
}

/// The type variable that a type parameter introduces. Without a bound it is bounded by any type.
pub open spec fn instantiate_var(
    param: TypeParam,
    types: TypeScopeV,
    outer: DictV<Seq<char>, TypeV>,
    inner: DictV<Seq<char>, TypeV>,
) -> Result<TypeVarV, TypeErrorV> {
    match param.extends {
        Some(tn) => match resolve_type(tn, types, outer, inner) {
            Ok(upper) => Ok(TypeVarV { name: param.name@, upper }),
            Err(err) => Err(err),
        },
        None => Ok(TypeVarV { name: param.name@, upper: TypeV::Top }),
    }
}

/// The type variables that the first `n` type parameters introduce.
pub open spec fn instantiate_vars(
    params: Seq<TypeParam>,
    n: int,
    types: TypeScopeV,
    outer: DictV<Seq<char>, TypeV>,
    inner: DictV<Seq<char>, TypeV>,
) -> Result<Seq<TypeVarV>, TypeErrorV>
    decreases n,
{
    if n <= 0 {
        Ok(Seq::empty())
    } else {
        match instantiate_vars(params, n - 1, types, outer, inner) {
            Ok(done) => match instantiate_var(params[n - 1], types, outer, inner) {
                Ok(var) => Ok(done.push(var)),
                Err(err) => Err(err),
            },
            Err(err) => Err(err),
        }
    }
}

proof fn lemma_vars_err(
    params: Seq<TypeParam>,
    n: int,
    m: int,
    types: TypeScopeV,
    outer: DictV<Seq<char>, TypeV>,
    inner: DictV<Seq<char>, TypeV>,
)
    requires
        0 <= n <= m,
        instantiate_vars(params, n, types, outer, inner) is Err,
    ensures
        instantiate_vars(params, m, types, outer, inner) == instantiate_vars(
            params,
            n,
            types,
            outer,
            inner,
        ),
    decreases m,
{
    if n < m {
        lemma_vars_err(params, n, m - 1, types, outer, inner);
    }
}

/// The scope that the first `n` type variables make up. Each stands for itself.
pub open spec fn var_scope(vars: Seq<TypeVarV>, n: int) -> DictV<Seq<char>, TypeV>
    decreases n,
{
    if n <= 0 {
        DictV::empty()
    } else {
        var_scope(vars, n - 1).put(vars[n - 1].name, TypeV::Var(vars[n - 1].name))
    }
}

/// The scope that type variables make up.
pub fn scope_vars(vars: &Vec<TypeVar>) -> (res: NameDict<Type>)
    ensures
        res@ == var_scope(views(vars@), vars@.len() as int),
{
    let mut res: NameDict<Type> = NameDict::new();
    let mut i: usize = 0;
    while i < vars.len()
        invariant
            i <= vars.len(),
            res@ == var_scope(views(vars@), i as int),
        decreases vars.len() - i,
    {
        res.insert(vars[i].name.clone(), Type::Var(vars[i].name.clone()));
        i += 1;
        assert(views(vars@)[i - 1] == vars@[i - 1]@);
    }
    res
}

} // verus!
