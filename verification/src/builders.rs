//! Builders of definitions, and how they are committed to the constant pool.
use vstd::prelude::*;

use crate::dict::{ints, views};
use crate::flags::{ClassFlags, FieldFlags, FunctionFlags, LocalFlags, ParameterFlags, Visibility};
use crate::pool::{
    reserved, AnyDefinition, AnyDefinitionV, ConstantPool, DEFAULT_SOURCE, Definition, DefinitionV,
    Instr, InstrV, PoolClass, PoolClassV, PoolEnum, PoolEnumV, PoolField, PoolFieldV, PoolFunction,
    PoolFunctionV, PoolIndex, PoolLocal, PoolLocalV, PoolParameter, PoolParameterV, PoolV,
    SourceReference, UNDEFINED,
};
use crate::repo::{ref_id, RepoV, TypeRepo};
use crate::tables::opt_int;
use crate::type_cache::{
    allocated, extends, grows, image, law_allocation_extends, lemma_grows_trans, type_ok, ImageV,
    TypeCache,
};
use crate::types::{Prim, Type, TypeV};

verus! {

/// A parameter to be defined.
pub struct ParamBuilder {
    pub flags: ParameterFlags,
    pub name: String,
    pub typ: Type,
}

pub struct ParamBuilderV {
    pub flags: ParameterFlags,
    pub name: Seq<char>,
    pub typ: TypeV,
}

impl View for ParamBuilder {
    type V = ParamBuilderV;

    open spec fn view(&self) -> ParamBuilderV {
        ParamBuilderV { flags: self.flags, name: self.name@, typ: self.typ@ }
    }
}

impl ParamBuilderV {
    /// The image with the parameter of a function defined, and its index.
    pub open spec fn commit(self, parent: int, repo: RepoV, start: ImageV) -> (ImageV, int) {
        let named = start.with_name(self.name);
        let (typed, type_) = allocated(self.typ, repo, named);
        (
            typed.with_def(
                DefinitionV {
                    name: start.pool.name_slot(self.name),
                    parent,
                    value: AnyDefinitionV::Parameter(PoolParameterV { type_, flags: self.flags }),
                },
            ),
            typed.pool.defs.len() as int,
        )
    }

    pub open spec fn renamed(self, name: Seq<char>) -> ParamBuilderV {
        ParamBuilderV { name, ..self }
    }
}

impl ParamBuilder {
    /// A parameter with no flags.
    pub fn new(name: String, typ: Type) -> (res: ParamBuilder)
        ensures
            res@ == (ParamBuilderV {
                flags: (ParameterFlags { is_out: false, other: 0 }),
                name: name@,
                typ: typ@,
            }),
    {
        ParamBuilder { flags: ParameterFlags { is_out: false, other: 0 }, name, typ }
    }

    /// Defines the parameter of a function.
    pub fn commit(
        self,
        parent: PoolIndex,
        repo: &TypeRepo,
        pool: &mut ConstantPool,
        cache: &mut TypeCache,
    ) -> (idx: PoolIndex)
        requires
            repo@.is_builtin(ref_id()),
            type_ok(self@.typ, repo@),
        ensures
            self@.commit(parent as int, repo@, image(*old(pool), *old(cache))) == (
                image(*final(pool), *final(cache)),
                idx as int,
            ),
    {
        let name = pool.add_name(self.name);
        let type_ = cache.alloc_type(&self.typ, repo, pool);
        pool.add_definition(
            Definition {
                name,
                parent,
                value: AnyDefinition::Parameter(PoolParameter { type_, flags: self.flags }),
            },
        )
    }

    /// The same parameter under another name.
    pub fn renamed(self, name: String) -> (res: ParamBuilder)
        ensures
            res@ == self@.renamed(name@),
    {
        ParamBuilder { name, ..self }
    }
}

/// A local variable to be defined.
pub struct LocalBuilder {
    pub flags: LocalFlags,
    pub name: String,
    pub typ: Type,
}

pub struct LocalBuilderV {
    pub flags: LocalFlags,
    pub name: Seq<char>,
    pub typ: TypeV,
}

impl View for LocalBuilder {
    type V = LocalBuilderV;

    open spec fn view(&self) -> LocalBuilderV {
        LocalBuilderV { flags: self.flags, name: self.name@, typ: self.typ@ }
    }
}

impl LocalBuilderV {
    /// The image with the local variable defined, and its index.
    pub open spec fn commit(self, repo: RepoV, start: ImageV) -> (ImageV, int) {
        let named = start.with_name(self.name);
        let (typed, type_) = allocated(self.typ, repo, named);
        (
            typed.with_def(
                DefinitionV {
                    name: start.pool.name_slot(self.name),
                    parent: UNDEFINED as int,
                    value: AnyDefinitionV::Local(PoolLocalV { type_, flags: self.flags }),
                },
            ),
            typed.pool.defs.len() as int,
        )
    }
}

impl LocalBuilder {
    /// A local variable with no flags.
    pub fn new(name: String, typ: Type) -> (res: LocalBuilder)
        ensures
            res@ == (LocalBuilderV {
                flags: (LocalFlags { is_const: false, other: 0 }),
                name: name@,
                typ: typ@,
            }),
    {
        LocalBuilder { flags: LocalFlags { is_const: false, other: 0 }, name, typ }
    }

    /// Defines the local variable.
    pub fn commit(self, repo: &TypeRepo, pool: &mut ConstantPool, cache: &mut TypeCache) -> (idx:
        PoolIndex)
        requires
            repo@.is_builtin(ref_id()),
            type_ok(self@.typ, repo@),
        ensures
            self@.commit(repo@, image(*old(pool), *old(cache))) == (
                image(*final(pool), *final(cache)),
                idx as int,
            ),
    {
        let name = pool.add_name(self.name);
        let type_ = cache.alloc_type(&self.typ, repo, pool);
        pool.add_definition(
            Definition {
                name,
                parent: UNDEFINED,
                value: AnyDefinition::Local(PoolLocal { type_, flags: self.flags }),
            },
        )
    }
}

/// A field to be defined.
pub struct FieldBuilder {
    pub flags: FieldFlags,
    pub visibility: Visibility,
    pub name: String,
    pub typ: Type,
}

pub struct FieldBuilderV {
    pub flags: FieldFlags,
    pub visibility: Visibility,
    pub name: Seq<char>,
    pub typ: TypeV,
}

impl View for FieldBuilder {
    type V = FieldBuilderV;

    open spec fn view(&self) -> FieldBuilderV {
        FieldBuilderV {
            flags: self.flags,
            visibility: self.visibility,
            name: self.name@,
            typ: self.typ@,
        }
    }
}

impl FieldBuilderV {
    /// The image with the field of a class defined, and its index.
    pub open spec fn commit(self, parent: int, repo: RepoV, start: ImageV) -> (ImageV, int) {
        let named = start.with_name(self.name);
        let (typed, type_) = allocated(self.typ, repo, named);
        (
            typed.with_def(
                DefinitionV {
                    name: start.pool.name_slot(self.name),
                    parent,
                    value: AnyDefinitionV::Field(
                        PoolFieldV {
                            visibility: self.visibility,
                            type_,
                            flags: self.flags,
                            hint: None,
                            attributes: Seq::empty(),
                            defaults: Seq::empty(),
                        },
                    ),
                },
            ),
            typed.pool.defs.len() as int,
        )
    }
}

impl FieldBuilder {
    /// A private field with no flags.
    pub fn new(name: String, typ: Type) -> (res: FieldBuilder)
        ensures
            res@ == (FieldBuilderV {
                flags: (FieldFlags { is_native: false, is_persistent: false, other: 0 }),
                visibility: Visibility::Private,
                name: name@,
                typ: typ@,
            }),
    {
        FieldBuilder {
            flags: FieldFlags { is_native: false, is_persistent: false, other: 0 },
            visibility: Visibility::Private,
            name,
            typ,
        }
    }

    /// Defines the field of a class.
    pub fn commit(
        self,
        parent: PoolIndex,
        repo: &TypeRepo,
        pool: &mut ConstantPool,
        cache: &mut TypeCache,
    ) -> (idx: PoolIndex)
        requires
            repo@.is_builtin(ref_id()),
            type_ok(self@.typ, repo@),
        ensures
            self@.commit(parent as int, repo@, image(*old(pool), *old(cache))) == (
                image(*final(pool), *final(cache)),
                idx as int,
            ),
    {
        let name = pool.add_name(self.name);
        let type_ = cache.alloc_type(&self.typ, repo, pool);
        let def = Definition {
            name,
            parent,
            value: AnyDefinition::Field(
                PoolField {
                    visibility: self.visibility,
                    type_,
                    flags: self.flags,
                    hint: None,
                    attributes: Vec::new(),
                    defaults: Vec::new(),
                },
            ),
        };
        pool.add_definition(def)
    }
}

/// A function to be defined.
pub struct FunctionBuilder {
    pub flags: FunctionFlags,
    pub visibility: Visibility,
    pub name: String,
    pub return_type: Type,
    pub params: Vec<ParamBuilder>,
    pub locals: Vec<LocalBuilder>,
    pub body: Vec<Instr>,
    pub base: Option<PoolIndex>,
    pub is_wrapper: bool,
}

#[verifier::ext_equal]
pub struct FunctionBuilderV {
    pub flags: FunctionFlags,
    pub visibility: Visibility,
    pub name: Seq<char>,
    pub return_type: TypeV,
    pub params: Seq<ParamBuilderV>,
    pub locals: Seq<LocalBuilderV>,
    pub body: Seq<InstrV>,
    pub base: Option<int>,
    pub is_wrapper: bool,
}

impl View for FunctionBuilder {
    type V = FunctionBuilderV;

    open spec fn view(&self) -> FunctionBuilderV {
        FunctionBuilderV {
            flags: self.flags,
            visibility: self.visibility,
            name: self.name@,
            return_type: self.return_type@,
            params: views(self.params@),
            locals: views(self.locals@),
            body: views(self.body@),
            base: opt_int(self.base),
            is_wrapper: self.is_wrapper,
        }
    }
}

/// The parameters, each under the name that is given for its position. Those beyond the given names
/// take the first of them, and where none is given all keep their own.
pub open spec fn renamed_each(
    params: Seq<ParamBuilderV>,
    names: Seq<Seq<char>>,
) -> Seq<ParamBuilderV> {
    Seq::new(
        params.len(),
        |i: int|
            if i < names.len() {
                params[i].renamed(names[i])
            } else if names.len() > 0 {
                params[i].renamed(names[0])
            } else {
                params[i]
            },
    )
}

/// The image with the first `n` parameters defined, and their indices.
pub open spec fn commit_params(
    params: Seq<ParamBuilderV>,
    n: int,
    parent: int,
    repo: RepoV,
    start: ImageV,
) -> (ImageV, Seq<int>)
    decreases n,
{
    if n <= 0 {
        (start, Seq::empty())
    } else {
        let (mid, done) = commit_params(params, n - 1, parent, repo, start);
        let (end, idx) = params[n - 1].commit(parent, repo, mid);
        (end, done.push(idx))
    }
}

/// The image with the first `n` local variables defined, and their indices.
pub open spec fn commit_locals(
    locals: Seq<LocalBuilderV>,
    n: int,
    repo: RepoV,
    start: ImageV,
) -> (ImageV, Seq<int>)
    decreases n,
{
    if n <= 0 {
        (start, Seq::empty())
    } else {
        let (mid, done) = commit_locals(locals, n - 1, repo, start);
        let (end, idx) = locals[n - 1].commit(repo, mid);
        (end, done.push(idx))
    }
}

impl FunctionBuilderV {
    /// The types that the function mentions can be described.
    pub open spec fn types_ok(self, repo: RepoV) -> bool {
        &&& type_ok(self.return_type, repo)
        &&& forall|i: int|
            0 <= i < self.params.len() ==> type_ok((#[trigger] self.params[i]).typ, repo)
        &&& forall|i: int|
            0 <= i < self.locals.len() ==> type_ok((#[trigger] self.locals[i]).typ, repo)
    }

    /// Where the function is a callback, the function that it overrides is there and so are the
    /// names of its parameters.
    pub open spec fn base_ok(self, pool: PoolV) -> bool {
        self.base matches Some(base) ==> self.flags.is_callback ==> {
            let params = pool.value(base)->Function_0.parameters;
            &&& pool.has(base)
            &&& pool.value(base) is Function
            &&& forall|i: int| 0 <= i < params.len() ==> pool.is_named(#[trigger] params[i])
        }
    }

    /// The names that the parameters of a callback take over: those of the parameters of the
    /// function that it overrides, in order.
    pub open spec fn base_names(self, pool: PoolV) -> Seq<Seq<char>> {
        match self.base {
            Some(base) => if self.flags.is_callback {
                let params = pool.value(base)->Function_0.parameters;
                Seq::new(params.len(), |i: int| pool.name_of(params[i]))
            } else {
                Seq::empty()
            },
            None => Seq::empty(),
        }
    }

    /// The parameters under the names that they are defined with.
    pub open spec fn named_params(self, pool: PoolV) -> Seq<ParamBuilderV> {
        renamed_each(self.params, self.base_names(pool))
    }

    /// The index that the function takes.
    pub open spec fn index(self, start: ImageV) -> int {
        start.pool.defs.len() as int
    }

    /// The image after the result type has been described, and the index of that type. A function
    /// that returns nothing has none.
    pub open spec fn commit_ret(self, repo: RepoV, start: ImageV) -> (ImageV, Option<int>) {
        let named = start.with_def(reserved()).with_name(self.name);
        if self.return_type == TypeV::Prim(Prim::Unit) {
            (named, None)
        } else {
            let (typed, idx) = allocated(self.return_type, repo, named);
            (typed, Some(idx))
        }
    }

    /// The image with the function defined.
    pub open spec fn commit(self, parent: int, repo: RepoV, start: ImageV) -> ImageV {
        let id = self.index(start);
        let (typed, return_type) = self.commit_ret(repo, start);
        let params = self.named_params(start.pool);
        let (with_params, parameters) = commit_params(
            params,
            params.len() as int,
            id,
            repo,
            typed,
        );
        let (with_locals, locals) = commit_locals(
            self.locals,
            self.locals.len() as int,
            repo,
            with_params,
        );
        with_locals.put(
            id,
            DefinitionV {
                name: start.pool.name_slot(self.name),
                parent,
                value: AnyDefinitionV::Function(
                    PoolFunctionV {
                        visibility: self.visibility,
                        flags: FunctionFlags {
                            is_callback: self.flags.is_callback && !self.is_wrapper,
                            ..self.flags
                        },
                        source: Some(SourceReference { file: DEFAULT_SOURCE, line: 0 }),
                        return_type,
                        unk1: false,
                        base_method: self.base,
                        parameters,
                        locals,
                        operator: None,
                        cast: 0,
                        code: self.body,
                        unk2: Seq::empty(),
                    },
                ),
            },
        )
    }
}

/// Defining parameters leaves every definition as it is.
pub proof fn lemma_params_extend(
    params: Seq<ParamBuilderV>,
    n: int,
    parent: int,
    repo: RepoV,
    start: ImageV,
)
    ensures
        grows(start, commit_params(params, n, parent, repo, start).0),
    decreases n,
{
    if n > 0 {
        lemma_params_extend(params, n - 1, parent, repo, start);
        let mid = commit_params(params, n - 1, parent, repo, start).0;
        law_allocation_extends(params[n - 1].typ, repo, mid.with_name(params[n - 1].name));
    }
}

/// Parameters are defined one after the other under their names.
pub proof fn lemma_params_named(
    params: Seq<ParamBuilderV>,
    n: int,
    parent: int,
    repo: RepoV,
    start: ImageV,
)
    requires
        0 <= n <= params.len(),
    ensures
        ({
            let (end, done) = commit_params(params, n, parent, repo, start);
            &&& done.len() == n
            &&& forall|i: int|
                #![trigger done[i]]
                0 <= i < n ==> {
                    &&& start.pool.defs.len() <= done[i]
                    &&& end.pool.is_named(done[i])
                    &&& end.pool.name_of(done[i]) == params[i].name
                }
        }),
    decreases n,
{
    if n > 0 {
        lemma_params_named(params, n - 1, parent, repo, start);
        lemma_params_extend(params, n - 1, parent, repo, start);
        let (mid, before) = commit_params(params, n - 1, parent, repo, start);
        let (end, done) = commit_params(params, n, parent, repo, start);
        let param = params[n - 1];
        let named = mid.with_name(param.name);
        law_allocation_extends(param.typ, repo, named);
        let typed = allocated(param.typ, repo, named).0;
        let slot = mid.pool.name_slot(param.name);
        assert(named.pool.names[slot] == param.name);
        assert(typed.pool.names[slot] == named.pool.names[slot]);
        assert forall|i: int|
            #![trigger done[i]]
            0 <= i < n implies {
            &&& start.pool.defs.len() <= done[i]
            &&& end.pool.is_named(done[i])
            &&& end.pool.name_of(done[i]) == params[i].name
        } by {
            if i < n - 1 {
                let at = done[i];
                assert(at == before[i]);
                assert(typed.pool.defs[at] == mid.pool.defs[at]) by {
                    assert(named.pool.defs[at] == mid.pool.defs[at]);
                }
                let name = mid.pool.defs[at].name;
                assert(named.pool.names[name] == mid.pool.names[name]);
                assert(typed.pool.names[name] == named.pool.names[name]);
            }
        }
    }
}

/// Defining local variables leaves every definition as it is.
pub proof fn lemma_locals_extend(locals: Seq<LocalBuilderV>, n: int, repo: RepoV, start: ImageV)
    ensures
        grows(start, commit_locals(locals, n, repo, start).0),
    decreases n,
{
    if n > 0 {
        lemma_locals_extend(locals, n - 1, repo, start);
        let mid = commit_locals(locals, n - 1, repo, start).0;
        law_allocation_extends(locals[n - 1].typ, repo, mid.with_name(locals[n - 1].name));
    }
}

/// Defining a function takes a fresh index and leaves every definition as it is.
pub proof fn law_function_commit_extends(
    fun: FunctionBuilderV,
    parent: int,
    repo: RepoV,
    start: ImageV,
)
    ensures
        grows(start, fun.commit(parent, repo, start)),
        fun.commit(parent, repo, start).pool.has(fun.index(start)),
        fun.commit(parent, repo, start).pool.value(fun.index(start)) is Function,
        fun.commit(parent, repo, start).pool.defs[fun.index(start)].parent == parent,
{
    let id = fun.index(start);
    let named = start.with_def(reserved()).with_name(fun.name);
    law_allocation_extends(fun.return_type, repo, named);
    let typed = fun.commit_ret(repo, start).0;
    let params = fun.named_params(start.pool);
    lemma_params_extend(params, params.len() as int, id, repo, typed);
    let with_params = commit_params(params, params.len() as int, id, repo, typed).0;
    lemma_locals_extend(fun.locals, fun.locals.len() as int, repo, with_params);
}

/// A function is defined with its parameters in order, each under its own name. Those of a callback
/// have the names of the parameters of the function that it overrides, position by position. Where
/// that one has fewer parameters, but at least one, the others have the name of its first.
pub proof fn law_param_names(fun: FunctionBuilderV, parent: int, repo: RepoV, start: ImageV)
    requires
        fun.base_ok(start.pool),
    ensures
        ({
            let end = fun.commit(parent, repo, start).pool;
            let params = end.value(fun.index(start))->Function_0.parameters;
            &&& params.len() == fun.params.len()
            &&& forall|i: int|
                #![trigger params[i]]
                0 <= i < params.len() ==> end.is_named(params[i]) && end.name_of(params[i])
                    == match fun.base {
                    Some(base) => {
                        let above = start.pool.value(base)->Function_0.parameters;
                        if fun.flags.is_callback && i < above.len() {
                            start.pool.name_of(above[i])
                        } else if fun.flags.is_callback && above.len() > 0 {
                            start.pool.name_of(above[0])
                        } else {
                            fun.params[i].name
                        }
                    },
                    None => fun.params[i].name,
                }
        }),
{
    let id = fun.index(start);
    let named = start.with_def(reserved()).with_name(fun.name);
    law_allocation_extends(fun.return_type, repo, named);
    let typed = fun.commit_ret(repo, start).0;
    let params = fun.named_params(start.pool);
    let n = params.len() as int;
    lemma_params_named(params, n, id, repo, typed);
    lemma_params_extend(params, n, id, repo, typed);
    let (with_params, done) = commit_params(params, n, id, repo, typed);
    lemma_locals_extend(fun.locals, fun.locals.len() as int, repo, with_params);
    let with_locals = commit_locals(fun.locals, fun.locals.len() as int, repo, with_params).0;
    let end = fun.commit(parent, repo, start).pool;
    assert forall|i: int|
        #![trigger done[i]]
        0 <= i < n implies end.is_named(done[i]) && end.name_of(done[i]) == params[i].name by {
        let at = done[i];
        assert(at != id);
        assert(end.defs[at] == with_locals.pool.defs[at]);
        assert(with_locals.pool.defs[at] == with_params.pool.defs[at]);
        let name = with_params.pool.defs[at].name;
        assert(with_locals.pool.names[name] == with_params.pool.names[name]);
    }
}

impl FunctionBuilder {
    /// A private function without parameters, locals, code or flags that returns nothing.
    pub fn new(name: String) -> (res: FunctionBuilder)
        ensures
            res@ == (FunctionBuilderV {
                flags: (FunctionFlags {
                    is_static: false,
                    is_native: false,
                    is_callback: false,
                    is_final: false,
                    is_quest: false,
                    has_body: false,
                    other: 0,
                }),
                visibility: Visibility::Private,
                name: name@,
                return_type: TypeV::Prim(Prim::Unit),
                params: Seq::empty(),
                locals: Seq::empty(),
                body: Seq::empty(),
                base: None,
                is_wrapper: false,
            }),
    {
        broadcast use crate::dict::group_views;

        FunctionBuilder {
            flags: FunctionFlags {
                is_static: false,
                is_native: false,
                is_callback: false,
                is_final: false,
                is_quest: false,
                has_body: false,
                other: 0,
            },
            visibility: Visibility::Private,
            name,
            return_type: Type::Prim(Prim::Unit),
            params: Vec::new(),
            locals: Vec::new(),
            body: Vec::new(),
            base: None,
            is_wrapper: false,
        }
    }

    /// Defines a function that belongs to no class.
    pub fn commit_global(
        self,
        repo: &TypeRepo,
        pool: &mut ConstantPool,
        cache: &mut TypeCache,
    ) -> (idx: PoolIndex)
        requires
            repo@.is_builtin(ref_id()),
            self@.types_ok(repo@),
            self@.base_ok(old(pool)@),
        ensures
            idx == self@.index(image(*old(pool), *old(cache))),
            image(*final(pool), *final(cache)) == self@.commit(
                UNDEFINED as int,
                repo@,
                image(*old(pool), *old(cache)),
            ),
    {
        self.commit(UNDEFINED, repo, pool, cache)
    }

    /// Defines the function of a class.
    pub fn commit(
        self,
        parent: PoolIndex,
        repo: &TypeRepo,
        pool: &mut ConstantPool,
        cache: &mut TypeCache,
    ) -> (idx: PoolIndex)
        requires
            repo@.is_builtin(ref_id()),
            self@.types_ok(repo@),
            self@.base_ok(old(pool)@),
        ensures
            idx == self@.index(image(*old(pool), *old(cache))),
            image(*final(pool), *final(cache)) == self@.commit(
                parent as int,
                repo@,
                image(*old(pool), *old(cache)),
            ),
    {
        broadcast use crate::dict::group_views;

        let ghost this = self@;
        let ghost start = image(*pool, *cache);
        let FunctionBuilder {
            flags,
            visibility,
            name,
            return_type,
            params,
            locals,
            body,
            base,
            is_wrapper,
        } = self;

        // callback methods must use the same parameter names as the base method they override
        let names: Vec<String> = match base {
            Some(base) => if flags.is_callback {
                Self::param_names(base, pool)
            } else {
                Vec::new()
            },
            None => Vec::new(),
        };
        assert(views(names@) =~= this.base_names(start.pool));

        let id = pool.reserve();
        let name = pool.add_name(name);
        let is_unit = match return_type {
            Type::Prim(Prim::Unit) => true,
            _ => false,
        };
        let return_type: Option<PoolIndex> = if is_unit {
            None
        } else {
            Some(cache.alloc_type(&return_type, repo, pool))
        };
        let ghost typed = image(*pool, *cache);
        assert(this.commit_ret(repo@, start) == (typed, opt_int(return_type)));

        let ghost named = this.named_params(start.pool);
        proof {
            assert forall|i: int| 0 <= i < params.len() implies type_ok(
                (#[trigger] params@[i])@.typ,
                repo@,
            ) by {
                assert(this.params[i] == params@[i]@);
            }
            assert forall|i: int| 0 <= i < locals.len() implies type_ok(
                (#[trigger] locals@[i])@.typ,
                repo@,
            ) by {
                assert(this.locals[i] == locals@[i]@);
            }
        }
        let parameters = Self::commit_params(params, &names, id, repo, pool, cache);
        let ghost with_params = image(*pool, *cache);
        let locals = Self::commit_locals(locals, repo, pool, cache);

        let fun = PoolFunction {
            visibility,
            flags: FunctionFlags { is_callback: flags.is_callback && !is_wrapper, ..flags },
            source: Some(SourceReference { file: DEFAULT_SOURCE, line: 0 }),
            return_type,
            unk1: false,
            base_method: base,
            parameters,
            locals,
            operator: None,
            cast: 0,
            code: body,
            unk2: Vec::new(),
        };
        proof {
            law_allocation_extends(
                this.return_type,
                repo@,
                start.with_def(reserved()).with_name(this.name),
            );
            lemma_params_extend(named, named.len() as int, id as int, repo@, typed);
            lemma_locals_extend(this.locals, this.locals.len() as int, repo@, with_params);
        }
        pool.put_definition(
            id,
            Definition { name, parent, value: AnyDefinition::Function(fun) },
        );
        id
    }

    /// The names of the parameters of a function.
    fn param_names(fun: PoolIndex, pool: &ConstantPool) -> (names: Vec<String>)
        requires
            pool@.has(fun as int),
            pool@.value(fun as int) is Function,
            forall|i: int|
                0 <= i < pool@.value(fun as int)->Function_0.parameters.len() ==> pool@.is_named(
                    #[trigger] pool@.value(fun as int)->Function_0.parameters[i],
                ),
        ensures
            views(names@) == Seq::new(
                pool@.value(fun as int)->Function_0.parameters.len(),
                |i: int| pool@.name_of(pool@.value(fun as int)->Function_0.parameters[i]),
            ),
    {
        broadcast use crate::dict::group_views;

        let params = &pool.function(fun).parameters;
        let ghost due = pool@.value(fun as int)->Function_0.parameters;
        let mut names: Vec<String> = Vec::new();
        let mut i: usize = 0;
        while i < params.len()
            invariant
                i <= params.len(),
                due == ints(params@),
                forall|i: int| 0 <= i < due.len() ==> pool@.is_named(#[trigger] due[i]),
                names.len() == i,
                forall|j: int| 0 <= j < i ==> (#[trigger] names@[j])@ == pool@.name_of(due[j]),
            decreases params.len() - i,
        {
            assert(due[i as int] == params@[i as int]);
            names.push(pool.def_name(params[i]).clone());
            i += 1;
        }
        assert(views(names@) =~= Seq::new(due.len(), |i: int| pool@.name_of(due[i])));
        names
    }

    fn commit_params(
        params: Vec<ParamBuilder>,
        names: &Vec<String>,
        parent: PoolIndex,
        repo: &TypeRepo,
        pool: &mut ConstantPool,
        cache: &mut TypeCache,
    ) -> (res: Vec<PoolIndex>)
        requires
            repo@.is_builtin(ref_id()),
            forall|i: int|
                0 <= i < params.len() ==> type_ok((#[trigger] params@[i])@.typ, repo@),
        ensures
            commit_params(
                renamed_each(views(params@), views(names@)),
                params.len() as int,
                parent as int,
                repo@,
                image(*old(pool), *old(cache)),
            ) == (image(*final(pool), *final(cache)), ints(res@)),
    {
        broadcast use crate::dict::group_views;

        let ghost start = image(*pool, *cache);
        let ghost named = renamed_each(views(params@), views(names@));
        let mut res: Vec<PoolIndex> = Vec::new();
        for param in iter: params
            invariant
                res.len() == iter.index(),
                repo@.is_builtin(ref_id()),
                iter.seq() == params@,
                forall|i: int|
                    0 <= i < params.len() ==> type_ok((#[trigger] params@[i])@.typ, repo@),
                named == renamed_each(views(params@), views(names@)),
                commit_params(named, iter.index() as int, parent as int, repo@, start) == (
                    image(*pool, *cache),
                    ints(res@),
                ),
        {
            proof {
                assert(param == params@[iter.index() as int]);
                assert(views(params@)[iter.index() as int] == param@);
            }
            let i: usize = res.len();
            let param = if i < names.len() {
                param.renamed(names[i].clone())
            } else if names.len() > 0 {
                param.renamed(names[0].clone())
            } else {
                param
            };
            assert(param@ == named[iter.index() as int]);
            res.push(param.commit(parent, repo, pool, cache));
        }
        res
    }

    fn commit_locals(
        locals: Vec<LocalBuilder>,
        repo: &TypeRepo,
        pool: &mut ConstantPool,
        cache: &mut TypeCache,
    ) -> (res: Vec<PoolIndex>)
        requires
            repo@.is_builtin(ref_id()),
            forall|i: int|
                0 <= i < locals.len() ==> type_ok((#[trigger] locals@[i])@.typ, repo@),
        ensures
            commit_locals(
                views(locals@),
                locals.len() as int,
                repo@,
                image(*old(pool), *old(cache)),
            ) == (image(*final(pool), *final(cache)), ints(res@)),
    {
        broadcast use crate::dict::group_views;

        let ghost start = image(*pool, *cache);
        let mut res: Vec<PoolIndex> = Vec::new();
        for local in iter: locals
            invariant
                repo@.is_builtin(ref_id()),
                iter.seq() == locals@,
                forall|i: int|
                    0 <= i < locals.len() ==> type_ok((#[trigger] locals@[i])@.typ, repo@),
                commit_locals(views(locals@), iter.index() as int, repo@, start) == (
                    image(*pool, *cache),
                    ints(res@),
                ),
        {
            proof {
                assert(views(locals@)[iter.index() as int] == local@);
            }
            res.push(local.commit(repo, pool, cache));
        }
        res
    }

    /// The same function, marked as a wrapper of another one.
    pub fn with_wrapper_flag(self) -> (res: FunctionBuilder)
        ensures
            res@ == (FunctionBuilderV { is_wrapper: true, ..self@ }),
    {
        FunctionBuilder { is_wrapper: true, ..self }
    }
}

/// A class to be defined.
pub struct ClassBuilder {
    pub flags: ClassFlags,
    pub visibility: Visibility,
    pub name: String,
    pub methods: Vec<FunctionBuilder>,
    pub fields: Vec<FieldBuilder>,
}

#[verifier::ext_equal]
pub struct ClassBuilderV {
    pub flags: ClassFlags,
    pub visibility: Visibility,
    pub name: Seq<char>,
    pub methods: Seq<FunctionBuilderV>,
    pub fields: Seq<FieldBuilderV>,
}

impl View for ClassBuilder {
    type V = ClassBuilderV;

    open spec fn view(&self) -> ClassBuilderV {
        ClassBuilderV {
            flags: self.flags,
            visibility: self.visibility,
            name: self.name@,
            methods: views(self.methods@),
            fields: views(self.fields@),
        }
    }
}

/// The image with the first `n` functions of a class defined, and their indices.
pub open spec fn commit_methods(
    methods: Seq<FunctionBuilderV>,
    n: int,
    parent: int,
    repo: RepoV,
    start: ImageV,
) -> (ImageV, Seq<int>)
    decreases n,
{
    if n <= 0 {
        (start, Seq::empty())
    } else {
        let (mid, done) = commit_methods(methods, n - 1, parent, repo, start);
        (methods[n - 1].commit(parent, repo, mid), done.push(methods[n - 1].index(mid)))
    }
}

/// The image with the first `n` fields of a class defined, and their indices.
pub open spec fn commit_fields(
    fields: Seq<FieldBuilderV>,
    n: int,
    parent: int,
    repo: RepoV,
    start: ImageV,
) -> (ImageV, Seq<int>)
    decreases n,
{
    if n <= 0 {
        (start, Seq::empty())
    } else {
        let (mid, done) = commit_fields(fields, n - 1, parent, repo, start);
        let (end, idx) = fields[n - 1].commit(parent, repo, mid);
        (end, done.push(idx))
    }
}

impl ClassBuilderV {
    /// The types that the class mentions can be described.
    pub open spec fn types_ok(self, repo: RepoV) -> bool {
        &&& forall|i: int|
            0 <= i < self.methods.len() ==> (#[trigger] self.methods[i]).types_ok(repo)
        &&& forall|i: int|
            0 <= i < self.fields.len() ==> type_ok((#[trigger] self.fields[i]).typ, repo)
    }

    /// The image with the name and the functions of the class, and the indices of the latter.
    pub open spec fn commit_funcs(self, id: int, n: int, repo: RepoV, start: ImageV) -> (
        ImageV,
        Seq<int>,
    ) {
        commit_methods(self.methods, n, id, repo, start.with_name(self.name))
    }

    /// Every callback finds the function that it overrides when its turn comes.
    pub open spec fn bases_ok(self, id: int, repo: RepoV, start: ImageV) -> bool {
        forall|i: int|
            #![trigger self.methods[i]]
            0 <= i < self.methods.len() ==> self.methods[i].base_ok(
                self.commit_funcs(id, i, repo, start).0.pool,
            )
    }

    /// The image with the class defined under an index.
    pub open spec fn commit_as(self, id: int, base: int, repo: RepoV, start: ImageV) -> ImageV {
        let (with_methods, methods) = self.commit_funcs(
            id,
            self.methods.len() as int,
            repo,
            start,
        );
        let (with_fields, fields) = commit_fields(
            self.fields,
            self.fields.len() as int,
            id,
            repo,
            with_methods,
        );
        with_fields.put(
            id,
            DefinitionV {
                name: start.pool.name_slot(self.name),
                parent: UNDEFINED as int,
                value: AnyDefinitionV::Class(
                    PoolClassV {
                        visibility: self.visibility,
                        flags: self.flags,
                        base,
                        methods,
                        fields,
                        overrides: Seq::empty(),
                    },
                ),
            },
        )
    }
}

/// Defining functions leaves every definition as it is.
pub proof fn lemma_methods_extend(
    methods: Seq<FunctionBuilderV>,
    n: int,
    parent: int,
    repo: RepoV,
    start: ImageV,
)
    ensures
        grows(start, commit_methods(methods, n, parent, repo, start).0),
        n >= 0 ==> commit_methods(methods, n, parent, repo, start).1.len() == n,
    decreases n,
{
    if n > 0 {
        lemma_methods_extend(methods, n - 1, parent, repo, start);
        let mid = commit_methods(methods, n - 1, parent, repo, start).0;
        law_function_commit_extends(methods[n - 1], parent, repo, mid);
    }
}

/// Defining fields leaves every definition as it is.
pub proof fn lemma_fields_extend(
    fields: Seq<FieldBuilderV>,
    n: int,
    parent: int,
    repo: RepoV,
    start: ImageV,
)
    ensures
        grows(start, commit_fields(fields, n, parent, repo, start).0),
        n >= 0 ==> commit_fields(fields, n, parent, repo, start).1.len() == n,
    decreases n,
{
    if n > 0 {
        lemma_fields_extend(fields, n - 1, parent, repo, start);
        let mid = commit_fields(fields, n - 1, parent, repo, start).0;
        law_allocation_extends(fields[n - 1].typ, repo, mid.with_name(fields[n - 1].name));
    }
}

/// Defining a class fills the slot that was reserved for it, gives it its base, its flags and as many
/// functions and fields as the builder has, and leaves every other definition as it is.
pub proof fn law_class_commit(class: ClassBuilderV, id: int, base: int, repo: RepoV, start: ImageV)
    requires
        start.pool.has(id),
    ensures
        class.commit_as(id, base, repo, start).pool.value(id) is Class,
        class.commit_as(id, base, repo, start).pool.value(id)->Class_0.base == base,
        class.commit_as(id, base, repo, start).pool.value(id)->Class_0.flags == class.flags,
        class.commit_as(id, base, repo, start).pool.value(id)->Class_0.methods.len()
            == class.methods.len(),
        class.commit_as(id, base, repo, start).pool.value(id)->Class_0.fields.len()
            == class.fields.len(),
        grows(
            ImageV {
                pool: start.pool.put(id, class.commit_as(id, base, repo, start).pool.defs[id]),
                ..start
            },
            class.commit_as(id, base, repo, start),
        ),
{
    let n = class.methods.len() as int;
    lemma_methods_extend(class.methods, n, id, repo, start.with_name(class.name));
    let (with_methods, _) = class.commit_funcs(id, n, repo, start);
    lemma_fields_extend(class.fields, class.fields.len() as int, id, repo, with_methods);
    let with_fields = commit_fields(
        class.fields,
        class.fields.len() as int,
        id,
        repo,
        with_methods,
    ).0;
    let end = class.commit_as(id, base, repo, start);
    let filled = start.pool.put(id, end.pool.defs[id]);
    assert(grows(start, start.with_name(class.name)));
    lemma_grows_trans(start, start.with_name(class.name), with_methods);
    lemma_grows_trans(start, with_methods, with_fields);
    assert forall|i: int| 0 <= i < filled.defs.len() implies #[trigger] end.pool.defs[i]
        == filled.defs[i] by {
        if i != id {
            assert(with_fields.pool.defs[i] == start.pool.defs[i]);
        }
    }
}

impl ClassBuilder {
    /// A private class without members or flags.
    pub fn new(name: String) -> (res: ClassBuilder)
        ensures
            res@ == (ClassBuilderV {
                flags: (ClassFlags {
                    is_native: false,
                    is_import_only: false,
                    is_abstract: false,
                    is_final: false,
                    is_struct: false,
                    other: 0,
                }),
                visibility: Visibility::Private,
                name: name@,
                methods: Seq::empty(),
                fields: Seq::empty(),
            }),
    {
        broadcast use crate::dict::group_views;

        ClassBuilder {
            flags: ClassFlags {
                is_native: false,
                is_import_only: false,
                is_abstract: false,
                is_final: false,
                is_struct: false,
                other: 0,
            },
            visibility: Visibility::Private,
            name,
            methods: Vec::new(),
            fields: Vec::new(),
        }
    }

    /// Defines a class without a base under the next index.
    pub fn commit(self, repo: &TypeRepo, pool: &mut ConstantPool, cache: &mut TypeCache) -> (idx:
        PoolIndex)
        requires
            repo@.is_builtin(ref_id()),
            self@.types_ok(repo@),
            self@.bases_ok(
                old(pool)@.defs.len() as int,
                repo@,
                image(*old(pool), *old(cache)).with_def(reserved()),
            ),
        ensures
            idx == old(pool)@.defs.len(),
            image(*final(pool), *final(cache)) == self@.commit_as(
                idx as int,
                UNDEFINED as int,
                repo@,
                image(*old(pool), *old(cache)).with_def(reserved()),
            ),
    {
        self.commit_with_base(UNDEFINED, repo, pool, cache)
    }

    /// Defines a class under the next index.
    pub fn commit_with_base(
        self,
        base: PoolIndex,
        repo: &TypeRepo,
        pool: &mut ConstantPool,
        cache: &mut TypeCache,
    ) -> (idx: PoolIndex)
        requires
            repo@.is_builtin(ref_id()),
            self@.types_ok(repo@),
            self@.bases_ok(
                old(pool)@.defs.len() as int,
                repo@,
                image(*old(pool), *old(cache)).with_def(reserved()),
            ),
        ensures
            idx == old(pool)@.defs.len(),
            image(*final(pool), *final(cache)) == self@.commit_as(
                idx as int,
                base as int,
                repo@,
                image(*old(pool), *old(cache)).with_def(reserved()),
            ),
    {
        let id = pool.reserve();
        self.commit_as(id, base, repo, pool, cache)
    }

    /// Defines a class under an index that is reserved for it.
    pub fn commit_as(
        self,
        id: PoolIndex,
        base: PoolIndex,
        repo: &TypeRepo,
        pool: &mut ConstantPool,
        cache: &mut TypeCache,
    ) -> (idx: PoolIndex)
        requires
            repo@.is_builtin(ref_id()),
            old(pool)@.has(id as int),
            self@.types_ok(repo@),
            self@.bases_ok(id as int, repo@, image(*old(pool), *old(cache))),
        ensures
            idx == id,
            image(*final(pool), *final(cache)) == self@.commit_as(
                id as int,
                base as int,
                repo@,
                image(*old(pool), *old(cache)),
            ),
    {
        broadcast use crate::dict::group_views;

        let ghost this = self@;
        let ghost start = image(*pool, *cache);
        let ClassBuilder { flags, visibility, name, methods, fields } = self;
        let name = pool.add_name(name);
        let mut method_idxs: Vec<PoolIndex> = Vec::new();
        for method in iter: methods
            invariant
                repo@.is_builtin(ref_id()),
                iter.seq() == methods@,
                this.methods == views(methods@),
                this.types_ok(repo@),
                this.bases_ok(id as int, repo@, start),
                this.commit_funcs(id as int, iter.index() as int, repo@, start) == (
                    image(*pool, *cache),
                    ints(method_idxs@),
                ),
        {
            proof {
                assert(this.methods[iter.index() as int] == method@);
            }
            method_idxs.push(method.commit(id, repo, pool, cache));
        }
        let ghost with_methods = image(*pool, *cache);
        let mut field_idxs: Vec<PoolIndex> = Vec::new();
        for field in iter: fields
            invariant
                repo@.is_builtin(ref_id()),
                iter.seq() == fields@,
                this.fields == views(fields@),
                this.types_ok(repo@),
                commit_fields(
                    this.fields,
                    iter.index() as int,
                    id as int,
                    repo@,
                    with_methods,
                ) == (image(*pool, *cache), ints(field_idxs@)),
        {
            proof {
                assert(this.fields[iter.index() as int] == field@);
            }
            field_idxs.push(field.commit(id, repo, pool, cache));
        }
        let class = PoolClass {
            visibility,
            flags,
            base,
            methods: method_idxs,
            fields: field_idxs,
            overrides: Vec::new(),
        };
        proof {
            let n = this.methods.len() as int;
            lemma_methods_extend(this.methods, n, id as int, repo@, start.with_name(this.name));
            lemma_fields_extend(
                this.fields,
                this.fields.len() as int,
                id as int,
                repo@,
                with_methods,
            );
        }
        pool.put_definition(
            id,
            Definition { name, parent: UNDEFINED, value: AnyDefinition::Class(class) },
        );
        id
    }
}

/// A member of an enum.
pub struct EnumMember {
    pub name: String,
    pub value: i64,
}

pub struct EnumMemberV {
    pub name: Seq<char>,
    pub value: i64,
}

impl View for EnumMember {
    type V = EnumMemberV;

    open spec fn view(&self) -> EnumMemberV {
        EnumMemberV { name: self.name@, value: self.value }
    }
}

/// An enum to be defined.
pub struct EnumBuilder {
    pub name: String,
    pub members: Vec<EnumMember>,
}

#[verifier::ext_equal]
pub struct EnumBuilderV {
    pub name: Seq<char>,
    pub members: Seq<EnumMemberV>,
}

impl View for EnumBuilder {
    type V = EnumBuilderV;

    open spec fn view(&self) -> EnumBuilderV {
        EnumBuilderV { name: self.name@, members: views(self.members@) }
    }
}

/// The pool with the first `n` members of an enum defined, one after the other.
pub open spec fn commit_members(members: Seq<EnumMemberV>, n: int, parent: int, start: PoolV) -> PoolV
    decreases n,
{
    if n <= 0 {
        start
    } else {
        let mid = commit_members(members, n - 1, parent, start);
        mid.with_name(members[n - 1].name).with_def(
            DefinitionV {
                name: mid.name_slot(members[n - 1].name),
                parent,
                value: AnyDefinitionV::EnumValue(members[n - 1].value),
            },
        )
    }
}

impl EnumBuilderV {
    /// The pool with the enum defined under an index. Its members take the next indices in order,
    /// and its size is their number, of which one byte is kept.
    pub open spec fn commit_as(self, id: int, start: PoolV) -> PoolV {
        let named = start.with_name(self.name);
        let n = self.members.len() as int;
        commit_members(self.members, n, id, named).put(
            id,
            DefinitionV {
                name: start.name_slot(self.name),
                parent: UNDEFINED as int,
                value: AnyDefinitionV::Enum(
                    PoolEnumV {
                        flags: 0,
                        size: (n % 256) as u8,
                        members: Seq::new(
                            self.members.len(),
                            |i: int| start.defs.len() + i,
                        ),
                        unk1: false,
                    },
                ),
            },
        )
    }
}

/// Defining the members of an enum adds one definition each and leaves the others as they are.
pub proof fn lemma_members_extend(members: Seq<EnumMemberV>, n: int, parent: int, start: PoolV)
    requires
        0 <= n <= members.len(),
    ensures
        extends(start, commit_members(members, n, parent, start)),
        commit_members(members, n, parent, start).defs.len() == start.defs.len() + n,
    decreases n,
{
    if n > 0 {
        lemma_members_extend(members, n - 1, parent, start);
    }
}

impl EnumBuilder {
    /// Defines an enum under an index that is reserved for it.
    pub fn commit_as(self, pool: &mut ConstantPool, idx: PoolIndex) -> (res: PoolIndex)
        requires
            old(pool)@.has(idx as int),
        ensures
            res == idx,
            final(pool)@ == self@.commit_as(idx as int, old(pool)@),
    {
        broadcast use crate::dict::group_views;

        let ghost this = self@;
        let ghost start = pool@;
        let EnumBuilder { name, members } = self;
        let name = pool.add_name(name);
        let ghost named = pool@;
        let mut member_idxs: Vec<PoolIndex> = Vec::new();
        for member in iter: members
            invariant
                iter.seq() == members@,
                this.members == views(members@),
                named == start.with_name(this.name),
                pool@ == commit_members(this.members, iter.index() as int, idx as int, named),
                member_idxs.len() == iter.index(),
                forall|i: int|
                    0 <= i < member_idxs.len() ==> #[trigger] member_idxs@[i] == start.defs.len()
                        + i,
        {
            proof {
                assert(this.members[iter.index() as int] == member@);
                lemma_members_extend(this.members, iter.index() as int, idx as int, named);
            }
            let member_name = pool.add_name(member.name);
            member_idxs.push(
                pool.add_definition(
                    Definition {
                        name: member_name,
                        parent: idx,
                        value: AnyDefinition::EnumValue(member.value),
                    },
                ),
            );
        }
        let count: usize = member_idxs.len();
        let size = #[verifier::truncate] (count as u8);
        proof {
            assert((count as u8) == (count % 256) as u8) by (bit_vector);
            lemma_members_extend(this.members, this.members.len() as int, idx as int, named);
            assert(ints(member_idxs@) =~= Seq::new(
                this.members.len(),
                |i: int| start.defs.len() + i,
            ));
        }
        let def = PoolEnum { flags: 0, size, members: member_idxs, unk1: false };
        pool.put_definition(
            idx,
            Definition { name, parent: UNDEFINED, value: AnyDefinition::Enum(def) },
        );
        idx
    }
}

} // verus!
