//! What the bodies of functions are checked with, and what is left to generate code for.
use vstd::prelude::*;

use crate::compiler::{
    CompileBody, CompileBodyV, Compiler, CompilerV, MethodInjection, ModuleItem, ModuleItemV,
    ModuleV,
};
use crate::dict::{views, DictV, NameDict};
use crate::error::{CompileErrorV, ErrorReporter};
use crate::funcs::{opt_view, FuncType, FuncTypeV};
use crate::repo::{RepoV, TypeRepo};
use crate::scope::{Global, GlobalV, NameScope, NameScopeV, Overloads, TypeScope, TypeScopeV};
use crate::source::BodyId;
use crate::tables::{MemberId, MemberIdV};
use crate::types::{lemma_data_view, subst, Parameterized, ParameterizedV, Type, TypeId, TypeV};

verus! {

/// A variable that a function body starts with.
#[derive(Clone, Copy, PartialEq, Eq, Structural, Debug)]
pub enum Local {
    This,
    Param(usize),
}

/// A variable with its type.
pub struct LocalInfo {
    pub local: Local,
    pub typ: Type,
}

pub struct LocalInfoV {
    pub local: Local,
    pub typ: TypeV,
}

impl View for LocalInfo {
    type V = LocalInfoV;

    open spec fn view(&self) -> LocalInfoV {
        LocalInfoV { local: self.local, typ: self.typ@ }
    }
}

/// All that a function body is checked with: the module whose names it sees, the type variables
/// around it and its own, the variables it starts with, the types of its parameters in order,
/// whether each of them is polymorphic, the type of its result, and what `wrappedMethod` stands
/// for in it.
pub struct FunctionTask {
    pub module: usize,
    pub body: BodyId,
    pub outer: NameDict<Type>,
    pub inner: NameDict<Type>,
    pub locals: NameDict<LocalInfo>,
    pub params: Vec<Type>,
    pub poly: Vec<bool>,
    pub ret: Type,
    pub poly_ret: bool,
    pub wrapped: Option<Global>,
}

pub struct FunctionTaskV {
    pub module: int,
    pub body: BodyId,
    pub outer: DictV<Seq<char>, TypeV>,
    pub inner: DictV<Seq<char>, TypeV>,
    pub locals: DictV<Seq<char>, LocalInfoV>,
    pub params: Seq<TypeV>,
    pub poly: Seq<bool>,
    pub ret: TypeV,
    pub poly_ret: bool,
    pub wrapped: Option<GlobalV>,
}

impl View for FunctionTask {
    type V = FunctionTaskV;

    open spec fn view(&self) -> FunctionTaskV {
        FunctionTaskV {
            module: self.module as int,
            body: self.body,
            outer: self.outer@,
            inner: self.inner@,
            locals: self.locals@,
            params: views(self.params@),
            poly: self.poly@,
            ret: self.ret@,
            poly_ret: self.poly_ret,
            wrapped: opt_view(self.wrapped),
        }
    }
}

/// A function to generate code for, and whether it is static.
pub enum CodeGenItem {
    AddMethod(MemberId, FunctionTask, bool),
    WrapMethod(MemberId, FunctionTask, bool),
    AssembleMethod(MemberId, FunctionTask, bool),
    AssembleGlobal(usize, FunctionTask),
}

pub enum CodeGenItemV {
    AddMethod(MemberIdV, FunctionTaskV, bool),
    WrapMethod(MemberIdV, FunctionTaskV, bool),
    AssembleMethod(MemberIdV, FunctionTaskV, bool),
    AssembleGlobal(int, FunctionTaskV),
}

impl View for CodeGenItem {
    type V = CodeGenItemV;

    open spec fn view(&self) -> CodeGenItemV {
        match self {
            CodeGenItem::AddMethod(id, task, is_static) => CodeGenItemV::AddMethod(
                id@,
                task@,
                *is_static,
            ),
            CodeGenItem::WrapMethod(id, task, is_static) => CodeGenItemV::WrapMethod(
                id@,
                task@,
                *is_static,
            ),
            CodeGenItem::AssembleMethod(id, task, is_static) => CodeGenItemV::AssembleMethod(
                id@,
                task@,
                *is_static,
            ),
            CodeGenItem::AssembleGlobal(slot, task) => CodeGenItemV::AssembleGlobal(
                *slot as int,
                task@,
            ),
        }
    }
}

/// The number of parameters that have both a name and a type.
pub open spec fn param_count(body: CompileBodyV, typ: FuncTypeV) -> nat {
    if body.parameters.len() <= typ.params.len() {
        body.parameters.len()
    } else {
        typ.params.len()
    }
}

/// The variables that the first `n` parameters make up. A later one of the same name wins.
pub open spec fn param_locals(
    body: CompileBodyV,
    typ: FuncTypeV,
    outer: DictV<Seq<char>, TypeV>,
    n: int,
) -> DictV<Seq<char>, LocalInfoV>
    decreases n,
{
    if n <= 0 {
        DictV::empty()
    } else {
        param_locals(body, typ, outer, n - 1).put(
            body.parameters[n - 1].name@,
            LocalInfoV {
                local: Local::Param((n - 1) as usize),
                typ: subst(typ.params[n - 1].typ, outer, body.env),
            },
        )
    }
}

/// What a function body is checked with.
pub open spec fn function_task(
    module: int,
    body: CompileBodyV,
    typ: FuncTypeV,
    outer: DictV<Seq<char>, TypeV>,
    this: Option<ParameterizedV>,
    wrapped: Option<GlobalV>,
) -> FunctionTaskV {
    let n = param_count(body, typ);
    let params = param_locals(body, typ, outer, n as int);
    FunctionTaskV {
        module,
        body: body.body,
        outer,
        inner: body.env,
        locals: match this {
            Some(this) => params.put(
                "this"@,
                LocalInfoV { local: Local::This, typ: TypeV::Data(this) },
            ),
            None => params,
        },
        params: Seq::new(n, |i: int| typ.params[i].typ),
        poly: Seq::new(n, |i: int| typ.params[i].is_poly),
        ret: subst(typ.ret, outer, body.env),
        poly_ret: typ.is_ret_poly,
        wrapped,
    }
}

/// The type of the method, or static function, that a body belongs to.
pub open spec fn member_type(repo: RepoV, id: MemberIdV, is_static: bool) -> FuncTypeV {
    if is_static {
        repo.class(id.owner).statics.entries[id.slot].typ
    } else {
        repo.class(id.owner).methods.entries[id.slot].typ
    }
}

/// What the body of a method, or static function, is checked with.
pub open spec fn member_task(
    repo: RepoV,
    module: int,
    this: ParameterizedV,
    outer: DictV<Seq<char>, TypeV>,
    body: CompileBodyV,
    wrapped: Option<GlobalV>,
) -> FunctionTaskV {
    function_task(
        module,
        body,
        member_type(repo, member_id(this, body), body.is_static),
        outer,
        if body.is_static {
            None
        } else {
            Some(this)
        },
        wrapped,
    )
}

pub open spec fn member_id(this: ParameterizedV, body: CompileBodyV) -> MemberIdV {
    MemberIdV { owner: this.id, slot: body.slot }
}

/// What `wrappedMethod` stands for in a function that changes a method.
pub open spec fn wrapped_alias(
    id: MemberIdV,
    is_static: bool,
    kind: MethodInjection,
) -> Option<GlobalV> {
    match kind {
        MethodInjection::Wrap => Some(
            if is_static {
                GlobalV::StaticAlias(id)
            } else {
                GlobalV::MethodAlias(id)
            },
        ),
        _ => None,
    }
}

/// What is left to generate code for of an item of a module.
pub open spec fn item_tasks(repo: RepoV, module: int, item: ModuleItemV) -> Seq<CodeGenItemV> {
    match item {
        ModuleItemV::Class(this, env, funcs) => Seq::new(
            funcs.len(),
            |i: int|
                CodeGenItemV::AssembleMethod(
                    member_id(this, funcs[i]),
                    member_task(repo, module, this, env, funcs[i], None),
                    funcs[i].is_static,
                ),
        ),
        ModuleItemV::Global(body) => seq![
            CodeGenItemV::AssembleGlobal(
                body.slot,
                function_task(
                    module,
                    body,
                    repo.globals.entries[body.slot].typ,
                    DictV::empty(),
                    None,
                    None,
                ),
            ),
        ],
        ModuleItemV::AnnotatedMethod(this, body, kind) => {
            let id = member_id(this, body);
            let task = member_task(
                repo,
                module,
                this,
                DictV::empty(),
                body,
                wrapped_alias(id, body.is_static, kind),
            );
            seq![
                match kind {
                    MethodInjection::Add => CodeGenItemV::AddMethod(id, task, body.is_static),
                    MethodInjection::Replace => CodeGenItemV::AssembleMethod(
                        id,
                        task,
                        body.is_static,
                    ),
                    MethodInjection::Wrap => CodeGenItemV::WrapMethod(id, task, body.is_static),
                },
            ]
        },
    }
}

/// What is left to generate code for of the first `n` items of a module.
pub open spec fn module_tasks(
    repo: RepoV,
    module: int,
    items: Seq<ModuleItemV>,
    n: int,
) -> Seq<CodeGenItemV>
    decreases n,
{
    if n <= 0 {
        Seq::empty()
    } else {
        module_tasks(repo, module, items, n - 1) + item_tasks(repo, module, items[n - 1])
    }
}

/// What is left to generate code for of the first `n` modules.
pub open spec fn queue_tasks(repo: RepoV, queue: Seq<ModuleV>, n: int) -> Seq<CodeGenItemV>
    decreases n,
{
    if n <= 0 {
        Seq::empty()
    } else {
        let items = queue[n - 1].items;
        queue_tasks(repo, queue, n - 1) + module_tasks(repo, n - 1, items, items.len() as int)
    }
}

/// Whether the method, or static function, that a body belongs to is there.
pub open spec fn member_there(repo: RepoV, this: ParameterizedV, body: CompileBodyV) -> bool {
    if body.is_static {
        repo.has_static(member_id(this, body))
    } else {
        repo.has_method(member_id(this, body))
    }
}

/// Whether the functions that the bodies of an item belong to are there.
pub open spec fn funcs_there(repo: RepoV, item: ModuleItemV) -> bool {
    match item {
        ModuleItemV::Class(this, _, funcs) => forall|i: int|
            0 <= i < funcs.len() ==> member_there(repo, this, #[trigger] funcs[i]),
        ModuleItemV::Global(body) => repo.globals.has(body.slot),
        ModuleItemV::AnnotatedMethod(this, body, _) => member_there(repo, this, body),
    }
}

pub open spec fn all_there(repo: RepoV, queue: Seq<ModuleV>) -> bool {
    forall|i: int, j: int|
        #![trigger queue[i].items[j]]
        0 <= i < queue.len() && 0 <= j < queue[i].items.len() ==> funcs_there(
            repo,
            queue[i].items[j],
        )
}

/// Whether the method, or static function, that a body belongs to is there.
fn is_member_there(repo: &TypeRepo, this: &Parameterized, body: &CompileBody) -> (res: bool)
    ensures
        res == member_there(repo@, this@, body@),
{
    match repo.get_class(&this.id) {
        Some(class) => if body.is_static {
            body.index.slot < class.statics.len()
        } else {
            body.index.slot < class.methods.len()
        },
        None => false,
    }
}

/// Whether the functions that the bodies of an item belong to are there.
fn are_funcs_there(repo: &TypeRepo, item: &ModuleItem) -> (res: bool)
    ensures
        res == funcs_there(repo@, item@),
{
    match item {
        ModuleItem::Class(this, _, funcs) => {
            let ghost all = views(funcs@);
            assert(item@ matches ModuleItemV::Class(_, _, bodies) && bodies == all);
            let mut i: usize = 0;
            while i < funcs.len()
                invariant
                    i <= funcs.len(),
                    all == views(funcs@),
                    item@ matches ModuleItemV::Class(that, _, bodies) && that == this@ && bodies
                        == all,
                    forall|k: int|
                        0 <= k < i ==> member_there(repo@, this@, #[trigger] all[k]),
                decreases funcs.len() - i,
            {
                assert(all[i as int] == funcs@[i as int]@);
                if !is_member_there(repo, this, &funcs[i]) {
                    return false;
                }
                i += 1;
            }
            true
        },
        ModuleItem::Global(body) => body.index.slot < repo.globals.len(),
        ModuleItem::AnnotatedMethod(this, body, _) => is_member_there(repo, this, body),
    }
}

impl Compiler {
    /// Whether all functions that wait to be compiled are there.
    pub fn is_all_there(&self) -> (res: bool)
        ensures
            res == all_there(self@.repo, self@.queue),
    {
        let queue = &self.compile_queue;
        let ghost all = self@.queue;
        let mut i: usize = 0;
        while i < queue.len()
            invariant
                i <= queue.len(),
                all == views(queue@),
                all == self@.queue,
                forall|k: int, j: int|
                    #![trigger all[k].items[j]]
                    0 <= k < i && 0 <= j < all[k].items.len() ==> funcs_there(
                        self@.repo,
                        all[k].items[j],
                    ),
            decreases queue.len() - i,
        {
            let items = &queue[i].items;
            assert(all[i as int].items == views(items@));
            let mut j: usize = 0;
            while j < items.len()
                invariant
                    i < queue.len(),
                    all == views(queue@),
                    all == self@.queue,
                    j <= items.len(),
                    all[i as int].items == views(items@),
                    forall|k: int|
                        0 <= k < j ==> funcs_there(
                            self@.repo,
                            #[trigger] all[i as int].items[k],
                        ),
                decreases items.len() - j,
            {
                assert(all[i as int].items[j as int] == items@[j as int]@);
                if !are_funcs_there(&self.repo, &items[j]) {
                    return false;
                }
                j += 1;
            }
            i += 1;
        }
        true
    }
}

/// A second copy of a scope of type variables.
fn dup_vars(vars: &NameDict<Type>) -> (res: NameDict<Type>)
    ensures
        res@ == vars@,
{
    let n: usize = vars.len();
    let mut res: NameDict<Type> = NameDict::new();
    let mut i: usize = 0;
    while i < n
        invariant
            i <= n,
            n == vars@.keys.len(),
            vars@.wf(),
            res@.keys =~= vars@.keys.take(i as int),
            res@.vals =~= vars@.vals.take(i as int),
        decreases n - i,
    {
        let name = vars.key_at(i);
        assert(!res@.has(name@));
        res.insert(name.clone(), vars.val_at(i).dup());
        i += 1;
    }
    assert(vars@.keys.take(n as int) =~= vars@.keys);
    assert(vars@.vals.take(n as int) =~= vars@.vals);
    res
}

impl Compiler {
    /// Gathers what a function body is checked with.
    fn compile_function(
        module: usize,
        body: CompileBody,
        typ: &FuncType,
        outer: NameDict<Type>,
        this: Option<Parameterized>,
        wrapped: Option<Global>,
    ) -> (res: FunctionTask)
        ensures
            res@ == function_task(
                module as int,
                body@,
                typ@,
                outer@,
                opt_view(this),
                opt_view(wrapped),
            ),
    {
        broadcast use crate::dict::group_views;
        broadcast use lemma_data_view;

        let ghost source = body@;
        let CompileBody { env, parameters, body, .. } = body;
        let mut locals: NameDict<LocalInfo> = NameDict::new();
        let mut params: Vec<Type> = Vec::new();
        let mut poly: Vec<bool> = Vec::new();
        let mut i: usize = 0;
        while i < parameters.len() && i < typ.params.len()
            invariant
                i <= parameters.len(),
                i <= typ.params.len(),
                source.parameters == parameters@,
                source.env == env@,
                params@.len() == i,
                poly@.len() == i,
                forall|j: int| 0 <= j < i ==> (#[trigger] params@[j])@ == typ@.params[j].typ,
                forall|j: int| 0 <= j < i ==> #[trigger] poly@[j] == typ@.params[j].is_poly,
                locals@ == param_locals(source, typ@, outer@, i as int),
            decreases parameters.len() - i,
        {
            let param = &typ.params[i];
            assert(typ@.params[i as int] == param@);
            let info = LocalInfo { local: Local::Param(i), typ: param.typ.subst(&outer, &env) };
            params.push(param.typ.dup());
            poly.push(param.is_poly);
            locals.insert(parameters[i].name.clone(), info);
            i += 1;
        }
        if let Some(this) = this {
            locals.insert("this".to_owned(), LocalInfo { local: Local::This, typ: Type::Data(this) });
        }
        let ret = typ.ret.subst(&outer, &env);
        assert(views(params@) =~= Seq::new(
            param_count(source, typ@),
            |k: int| typ@.params[k].typ,
        ));
        assert(poly@ =~= Seq::new(param_count(source, typ@), |k: int| typ@.params[k].is_poly));
        FunctionTask {
            module,
            body,
            outer,
            inner: env,
            locals,
            params,
            poly,
            ret,
            poly_ret: typ.is_ret_poly,
            wrapped,
        }
    }
}

/// The names that are known in one module alone.
pub struct ModuleScope {
    pub types: NameDict<TypeId>,
    pub names: NameDict<Overloads>,
}

pub struct ModuleScopeV {
    pub types: DictV<Seq<char>, Seq<char>>,
    pub names: DictV<Seq<char>, Seq<GlobalV>>,
}

impl View for ModuleScope {
    type V = ModuleScopeV;

    open spec fn view(&self) -> ModuleScopeV {
        ModuleScopeV { types: self.types@, names: self.names@ }
    }
}

/// What a compilation leads to: all types and functions, the types from source, the functions to
/// generate code for, the errors, and the names that function bodies see.
pub struct CompilationOutputs {
    pub repo: TypeRepo,
    pub defined_types: Vec<TypeId>,
    pub codegen_queue: Vec<CodeGenItem>,
    pub reporter: ErrorReporter,
    pub types: TypeScope,
    pub names: NameScope,
    pub scopes: Vec<ModuleScope>,
}

pub struct OutputsV {
    pub repo: RepoV,
    pub defined: Seq<Seq<char>>,
    pub items: Seq<CodeGenItemV>,
    pub errors: Seq<CompileErrorV>,
    pub types: TypeScopeV,
    pub names: NameScopeV,
    pub scopes: Seq<ModuleScopeV>,
}

impl View for CompilationOutputs {
    type V = OutputsV;

    open spec fn view(&self) -> OutputsV {
        OutputsV {
            repo: self.repo@,
            defined: views(self.defined_types@),
            items: views(self.codegen_queue@),
            errors: self.reporter@,
            types: self.types@,
            names: self.names@,
            scopes: views(self.scopes@),
        }
    }
}

/// What a compiler leads to once it has looked at all modules.
pub open spec fn outputs_of(c: CompilerV, types: TypeScopeV, names: NameScopeV) -> OutputsV {
    OutputsV {
        repo: c.repo,
        defined: c.defined,
        items: queue_tasks(c.repo, c.queue, c.queue.len() as int),
        errors: c.errors,
        types,
        names,
        scopes: Seq::new(
            c.queue.len(),
            |i: int| ModuleScopeV { types: c.queue[i].types, names: c.queue[i].names },
        ),
    }
}

/// Gathers what the body of a method, or static function, is checked with.
fn compile_member(
    module: usize,
    this: &Parameterized,
    outer: NameDict<Type>,
    body: CompileBody,
    wrapped: Option<Global>,
    repo: &TypeRepo,
) -> (res: FunctionTask)
    requires
        member_there(repo@, this@, body@),
    ensures
        res@ == member_task(repo@, module as int, this@, outer@, body@, opt_view(wrapped)),
{
    let class = repo.get_class(&this.id).unwrap();
    if body.is_static {
        let entry = class.statics.entry(body.index.slot);
        Compiler::compile_function(module, body, &entry.typ, outer, None, wrapped)
    } else {
        let entry = class.methods.entry(body.index.slot);
        Compiler::compile_function(module, body, &entry.typ, outer, Some(this.dup()), wrapped)
    }
}

/// Adds what is left to generate code for of an item of a module.
fn compile_item(
    module: usize,
    item: ModuleItem,
    repo: &TypeRepo,
    items: &mut Vec<CodeGenItem>,
)
    requires
        funcs_there(repo@, item@),
    ensures
        views(final(items)@) == views(old(items)@) + item_tasks(repo@, module as int, item@),
{
    broadcast use crate::dict::group_views;

    let ghost start = views(items@);
    let ghost due = item_tasks(repo@, module as int, item@);
    match item {
        ModuleItem::Class(this, env, funcs) => {
            let ghost all = funcs@;
            assert(start + due.take(0) =~= start);
            for func in iter: funcs
                invariant
                    iter.seq() == all,
                    forall|i: int|
                        0 <= i < all.len() ==> member_there(repo@, this@, #[trigger] views(all)[i]),
                    due.len() == all.len(),
                    forall|i: int|
                        0 <= i < all.len() ==> #[trigger] due[i] == CodeGenItemV::AssembleMethod(
                            member_id(this@, views(all)[i]),
                            member_task(repo@, module as int, this@, env@, views(all)[i], None),
                            views(all)[i].is_static,
                        ),
                    views(items@) == start + due.take(iter.index() as int),
            {
                let ghost i = iter.index() as int;
                let ghost before = items@;
                assert(func == all[i]);
                assert(views(all)[i] == func@);
                let id = MemberId::new(&this.id, func.index.slot);
                let is_static = func.is_static;
                let task = compile_member(module, &this, dup_vars(&env), func, None, repo);
                let next = CodeGenItem::AssembleMethod(id, task, is_static);
                assert(next@ == due[i]);
                items.push(next);
                assert(views(items@) =~= views(before).push(next@));
                assert(due.take(i + 1) =~= due.take(i).push(due[i]));
                assert(views(items@) =~= start + due.take(i + 1));
            }
            assert(due.take(all.len() as int) =~= due);
        },
        ModuleItem::Global(body) => {
            let slot: usize = body.index.slot;
            let entry = repo.globals.entry(slot);
            let task = Compiler::compile_function(module, body, &entry.typ, NameDict::new(), None, None);
            let ghost before = items@;
            let next = CodeGenItem::AssembleGlobal(slot, task);
            items.push(next);
            assert(views(items@) =~= views(before).push(next@));
            assert(views(items@) =~= start + due);
        },
        ModuleItem::AnnotatedMethod(this, body, kind) => {
            let id = MemberId::new(&this.id, body.index.slot);
            let is_static = body.is_static;
            let wrapped = match kind {
                MethodInjection::Wrap => if is_static {
                    Some(Global::StaticAlias(id.dup()))
                } else {
                    Some(Global::MethodAlias(id.dup()))
                },
                _ => None,
            };
            let task = compile_member(module, &this, NameDict::new(), body, wrapped, repo);
            let ghost before = items@;
            let next = match kind {
                MethodInjection::Add => CodeGenItem::AddMethod(id, task, is_static),
                MethodInjection::Replace => CodeGenItem::AssembleMethod(id, task, is_static),
                MethodInjection::Wrap => CodeGenItem::WrapMethod(id, task, is_static),
            };
            items.push(next);
            assert(views(items@) =~= views(before).push(next@));
            assert(views(items@) =~= start + due);
        },
    }
}

impl Compiler {
    /// Gathers what is left to generate code for.
    pub fn process_queue(self, types: TypeScope, names: NameScope) -> (res: CompilationOutputs)
        requires
            all_there(self@.repo, self@.queue),
        ensures
            res@ == outputs_of(self@, types@, names@),
    {
        broadcast use crate::dict::group_views;

        let ghost c = self@;
        let repo = self.repo;
        let ghost all = self.compile_queue@;
        let mut items: Vec<CodeGenItem> = Vec::new();
        let mut scopes: Vec<ModuleScope> = Vec::new();
        let mut module: usize = 0;
        let count: usize = self.compile_queue.len();
        for next in iter: self.compile_queue
            invariant
                iter.seq() == all,
                count == all.len(),
                c.queue == views(all),
                all_there(repo@, views(all)),
                module == iter.index(),
                scopes@.len() == module,
                forall|i: int|
                    0 <= i < module ==> (#[trigger] scopes@[i])@ == (ModuleScopeV {
                        types: views(all)[i].types,
                        names: views(all)[i].names,
                    }),
                views(items@) == queue_tasks(repo@, views(all), module as int),
        {
            assert(next == all[module as int]);
            assert(views(all)[module as int] == next@);
            let ghost start = views(items@);
            let ghost due = next.items@;
            assert(views(all)[module as int].items == views(due));
            assert(start + Seq::<CodeGenItemV>::empty() =~= start);
            for item in inner: next.items
                invariant
                    inner.seq() == due,
                    forall|i: int|
                        0 <= i < due.len() ==> funcs_there(repo@, #[trigger] views(due)[i]),
                    views(items@) == start + module_tasks(
                        repo@,
                        module as int,
                        views(due),
                        inner.index() as int,
                    ),
            {
                let ghost i = inner.index() as int;
                assert(item == due[i]);
                assert(views(due)[i] == item@);
                let ghost so_far = module_tasks(repo@, module as int, views(due), i);
                let ghost more = item_tasks(repo@, module as int, item@);
                compile_item(module, item, &repo, &mut items);
                assert((start + so_far) + more =~= start + (so_far + more));
            }
            scopes.push(ModuleScope { types: next.types, names: next.names });
            module += 1;
        }
        let res = CompilationOutputs {
            repo,
            defined_types: self.defined_types,
            codegen_queue: items,
            reporter: self.reporter,
            types,
            names,
            scopes,
        };
        assert(res@.scopes =~= outputs_of(c, types@, names@).scopes);
        res
    }
}

} // verus!
