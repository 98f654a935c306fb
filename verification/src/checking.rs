//! What the body of each function is checked with.
use vstd::prelude::*;

use crate::compiler::{is_run, CompileBodyV, CompilerV, MethodInjection, ModuleItemV, ModuleV};
use crate::dict::DictV;
use crate::funcs::FuncTypeV;
use crate::inheritance::is_inherited;
use crate::modules::{is_collected, populated, start_names, CollectedV};
use crate::queue::{
    function_task, item_tasks, module_tasks, outputs_of, param_locals, queue_tasks, CodeGenItemV,
    FunctionTaskV, Local, LocalInfoV, OutputsV,
};
use crate::repo::RepoV;
use crate::scope::GlobalV;
use crate::source::SourceModule;
use crate::tables::MemberIdV;
use crate::types::{is_closed, law_closed_stays, subst, ParameterizedV, TypeV};

verus! {

/// Whether a task checks a body against the type of a function: in its module, with the type
/// variables around it and its own, with the types of its parameters in order and which of them are
/// polymorphic, and against its result, in which type variables are replaced by what they stand for.
pub open spec fn checks(
    task: FunctionTaskV,
    module: int,
    body: CompileBodyV,
    typ: FuncTypeV,
    outer: DictV<Seq<char>, TypeV>,
) -> bool {
    &&& task.module == module
    &&& task.body == body.body
    &&& task.outer == outer
    &&& task.inner == body.env
    &&& task.ret == subst(typ.ret, outer, body.env)
    &&& is_closed(typ.ret) ==> task.ret == typ.ret
    &&& task.poly_ret == typ.is_ret_poly
    &&& task.params.len() == task.poly.len()
    &&& task.params.len() <= typ.params.len()
    &&& task.params.len() == typ.params.len() || task.params.len() == body.parameters.len()
    &&& task.params.len() <= body.parameters.len()
    &&& forall|i: int|
        0 <= i < task.params.len() ==> #[trigger] task.params[i] == typ.params[i].typ
            && task.poly[i] == typ.params[i].is_poly
}

/// A body is checked against the type of its function.
pub proof fn law_body_is_checked(
    module: int,
    body: CompileBodyV,
    typ: FuncTypeV,
    outer: DictV<Seq<char>, TypeV>,
    this: Option<ParameterizedV>,
    wrapped: Option<GlobalV>,
)
    ensures
        checks(function_task(module, body, typ, outer, this, wrapped), module, body, typ, outer),
        function_task(module, body, typ, outer, this, wrapped).wrapped == wrapped,
{
    if is_closed(typ.ret) {
        law_closed_stays(typ.ret, outer, body.env);
    }
}

/// A body starts with its parameters as variables, each under its name and with its type, and with
/// `this` where it has one. Of several parameters with one name the last one counts, and `this`
/// hides a parameter. There are no other variables.
pub proof fn law_variables_of_a_body(
    module: int,
    body: CompileBodyV,
    typ: FuncTypeV,
    outer: DictV<Seq<char>, TypeV>,
    this: Option<ParameterizedV>,
    wrapped: Option<GlobalV>,
    i: int,
    name: Seq<char>,
)
    ensures
        ({
            let task = function_task(module, body, typ, outer, this, wrapped);
            let n = task.params.len() as int;
            &&& this matches Some(this) ==> task.locals.get("this"@) == Some(
                LocalInfoV { local: Local::This, typ: TypeV::Data(this) },
            )
            &&& 0 <= i < n && (this is None || body.parameters[i].name@ != "this"@) && (forall|k: int|
                i < k < n ==> (#[trigger] body.parameters[k]).name@ != body.parameters[i].name@)
                ==> task.locals.get(body.parameters[i].name@) == Some(
                LocalInfoV {
                    local: Local::Param(i as usize),
                    typ: subst(typ.params[i].typ, outer, body.env),
                },
            )
            &&& task.locals.has(name) ==> (this is Some && name == "this"@) || exists|k: int|
                0 <= k < n && (#[trigger] body.parameters[k]).name@ == name
        }),
{
    let task = function_task(module, body, typ, outer, this, wrapped);
    let n = task.params.len() as int;
    lemma_param_locals(body, typ, outer, n, i, name);
    let params = param_locals(body, typ, outer, n);
    if let Some(this) = this {
        let info = LocalInfoV { local: Local::This, typ: TypeV::Data(this) };
        params.lemma_put("this"@, info);
        let all = params.put("this"@, info);
        assert(all.get("this"@) == Some(info));
        if name != "this"@ {
            assert(all.has(name) <==> params.has(name));
        }
        if 0 <= i < n && body.parameters[i].name@ != "this"@ {
            assert(all.get(body.parameters[i].name@) == params.get(body.parameters[i].name@));
        }
    }
}

proof fn lemma_param_locals(
    body: CompileBodyV,
    typ: FuncTypeV,
    outer: DictV<Seq<char>, TypeV>,
    n: int,
    i: int,
    name: Seq<char>,
)
    requires
        0 <= n <= body.parameters.len(),
    ensures
        ({
            let done = param_locals(body, typ, outer, n);
            &&& done.wf()
            &&& 0 <= i < n && (forall|k: int|
                i < k < n ==> (#[trigger] body.parameters[k]).name@ != body.parameters[i].name@)
                ==> done.get(body.parameters[i].name@) == Some(
                LocalInfoV {
                    local: Local::Param(i as usize),
                    typ: subst(typ.params[i].typ, outer, body.env),
                },
            )
            &&& done.has(name) ==> exists|k: int|
                0 <= k < n && (#[trigger] body.parameters[k]).name@ == name
        }),
    decreases n,
{
    if n > 0 {
        lemma_param_locals(body, typ, outer, n - 1, i, name);
        let at = param_locals(body, typ, outer, n - 1);
        let own = body.parameters[n - 1].name@;
        let info = LocalInfoV {
            local: Local::Param((n - 1) as usize),
            typ: subst(typ.params[n - 1].typ, outer, body.env),
        };
        at.lemma_put(own, info);
        let done = at.put(own, info);
        assert(done.get(own) == Some(info));
        if 0 <= i < n - 1 && (forall|k: int|
            i < k < n ==> (#[trigger] body.parameters[k]).name@ != body.parameters[i].name@) {
            assert(body.parameters[n - 1].name@ != body.parameters[i].name@);
            assert(done.get(body.parameters[i].name@) == at.get(body.parameters[i].name@));
        }
        if name == own {
            assert(body.parameters[n - 1].name@ == name);
        } else {
            assert(done.has(name) <==> at.has(name));
            if at.has(name) {
                let k = choose|k: int|
                    0 <= k < n - 1 && (#[trigger] body.parameters[k]).name@ == name;
                assert(body.parameters[k].name@ == name);
            }
        }
    }
}

/// The type of a function of a class in the repository.
pub open spec fn type_of_member(repo: RepoV, id: MemberIdV, is_static: bool) -> FuncTypeV {
    if is_static {
        repo.class(id.owner).statics.entries[id.slot].typ
    } else {
        repo.class(id.owner).methods.entries[id.slot].typ
    }
}

/// Whether an item is the body of a function of a class: which function it is, which body it is
/// checked with against what, with `this` as the class exactly if it is not static, and what
/// `wrappedMethod` stands for.
pub open spec fn is_member_task(
    id: MemberIdV,
    task: FunctionTaskV,
    is_static: bool,
    repo: RepoV,
    module: int,
    this: ParameterizedV,
    body: CompileBodyV,
    outer: DictV<Seq<char>, TypeV>,
) -> bool {
    &&& id.owner == this.id
    &&& id.slot == body.slot
    &&& is_static == body.is_static
    &&& checks(task, module, body, type_of_member(repo, id, is_static), outer)
    &&& !is_static ==> task.locals.get("this"@) == Some(
        LocalInfoV { local: Local::This, typ: TypeV::Data(this) },
    )
}

/// Each body of a class is left to be generated for its method. A global function is generated for
/// itself. A function that changes a method is added as it, replaces its body or wraps it, and
/// `wrappedMethod` stands for the method in a wrapper and for nothing elsewhere.
pub proof fn law_tasks_of_an_item(repo: RepoV, module: int, item: ModuleItemV, i: int)
    ensures
        ({
            let done = item_tasks(repo, module, item);
            match item {
                ModuleItemV::Class(this, env, funcs) => {
                    &&& done.len() == funcs.len()
                    &&& 0 <= i < funcs.len() ==> (done[i] matches CodeGenItemV::AssembleMethod(
                        id,
                        task,
                        is_static,
                    ) && is_member_task(id, task, is_static, repo, module, this, funcs[i], env)
                        && task.wrapped is None)
                },
                ModuleItemV::Global(body) => {
                    &&& done.len() == 1
                    &&& done[0] matches CodeGenItemV::AssembleGlobal(slot, task) && slot
                        == body.slot && checks(
                        task,
                        module,
                        body,
                        repo.globals.entries[slot].typ,
                        DictV::empty(),
                    ) && task.wrapped is None
                },
                ModuleItemV::AnnotatedMethod(this, body, kind) => {
                    &&& done.len() == 1
                    &&& match kind {
                        MethodInjection::Add => done[0] matches CodeGenItemV::AddMethod(
                            id,
                            task,
                            is_static,
                        ) && is_member_task(
                            id,
                            task,
                            is_static,
                            repo,
                            module,
                            this,
                            body,
                            DictV::empty(),
                        ) && task.wrapped is None,
                        MethodInjection::Replace => done[0] matches CodeGenItemV::AssembleMethod(
                            id,
                            task,
                            is_static,
                        ) && is_member_task(
                            id,
                            task,
                            is_static,
                            repo,
                            module,
                            this,
                            body,
                            DictV::empty(),
                        ) && task.wrapped is None,
                        MethodInjection::Wrap => done[0] matches CodeGenItemV::WrapMethod(
                            id,
                            task,
                            is_static,
                        ) && is_member_task(
                            id,
                            task,
                            is_static,
                            repo,
                            module,
                            this,
                            body,
                            DictV::empty(),
                        ) && task.wrapped == Some(
                            if is_static {
                                GlobalV::StaticAlias(id)
                            } else {
                                GlobalV::MethodAlias(id)
                            },
                        ),
                    }
                },
            }
        }),
{
    match item {
        ModuleItemV::Class(this, env, funcs) => {
            if 0 <= i < funcs.len() {
                lemma_member_task(repo, module, this, env, funcs[i], None);
            }
        },
        ModuleItemV::Global(body) => {
            law_body_is_checked(
                module,
                body,
                repo.globals.entries[body.slot].typ,
                DictV::empty(),
                None,
                None,
            );
        },
        ModuleItemV::AnnotatedMethod(this, body, kind) => {
            let id = MemberIdV { owner: this.id, slot: body.slot };
            lemma_member_task(
                repo,
                module,
                this,
                DictV::empty(),
                body,
                crate::queue::wrapped_alias(id, body.is_static, kind),
            );
        },
    }
}

proof fn lemma_member_task(
    repo: RepoV,
    module: int,
    this: ParameterizedV,
    outer: DictV<Seq<char>, TypeV>,
    body: CompileBodyV,
    wrapped: Option<GlobalV>,
)
    ensures
        ({
            let id = crate::queue::member_id(this, body);
            let task = crate::queue::member_task(repo, module, this, outer, body, wrapped);
            &&& is_member_task(id, task, body.is_static, repo, module, this, body, outer)
            &&& task.wrapped == wrapped
        }),
{
    let id = crate::queue::member_id(this, body);
    let typ = crate::queue::member_type(repo, id, body.is_static);
    let with = if body.is_static {
        None
    } else {
        Some(this)
    };
    law_body_is_checked(module, body, typ, outer, with, wrapped);
    law_variables_of_a_body(module, body, typ, outer, with, wrapped, 0, Seq::empty());
}

/// Whether an item of a queue is left to be generated as one of its tasks.
pub open spec fn is_task_of(
    repo: RepoV,
    queue: Seq<ModuleV>,
    m: int,
    j: int,
    i: int,
    item: CodeGenItemV,
) -> bool {
    &&& 0 <= m < queue.len()
    &&& 0 <= j < queue[m].items.len()
    &&& 0 <= i < item_tasks(repo, m, queue[m].items[j]).len()
    &&& item_tasks(repo, m, queue[m].items[j])[i] == item
}

proof fn lemma_module_tasks(
    repo: RepoV,
    module: int,
    items: Seq<ModuleItemV>,
    n: int,
    item: CodeGenItemV,
)
    requires
        0 <= n <= items.len(),
    ensures
        module_tasks(repo, module, items, n).contains(item) <==> exists|j: int|
            0 <= j < n && item_tasks(repo, module, #[trigger] items[j]).contains(item),
    decreases n,
{
    if n > 0 {
        lemma_module_tasks(repo, module, items, n - 1, item);
        let at = module_tasks(repo, module, items, n - 1);
        let own = item_tasks(repo, module, items[n - 1]);
        lemma_in_either(at, own, item);
        if at.contains(item) {
            let j = choose|j: int|
                0 <= j < n - 1 && item_tasks(repo, module, #[trigger] items[j]).contains(item);
            assert(item_tasks(repo, module, items[j]).contains(item));
        }
    }
}

proof fn lemma_in_either<A>(a: Seq<A>, b: Seq<A>, x: A)
    ensures
        (a + b).contains(x) <==> a.contains(x) || b.contains(x),
{
    let all = a + b;
    if a.contains(x) {
        let k = choose|k: int| 0 <= k < a.len() && a[k] == x;
        assert(all[k] == x);
    }
    if b.contains(x) {
        let k = choose|k: int| 0 <= k < b.len() && b[k] == x;
        assert(all[a.len() + k] == x);
    }
    if all.contains(x) {
        let k = choose|k: int| 0 <= k < all.len() && all[k] == x;
        if k < a.len() {
            assert(a[k] == x);
        } else {
            assert(b[k - a.len()] == x);
        }
    }
}

/// The tasks of all items of all modules are left to be generated, and nothing else. Each is checked
/// with the names of its own module.
pub proof fn law_every_body_is_queued(
    repo: RepoV,
    queue: Seq<ModuleV>,
    n: int,
    item: CodeGenItemV,
)
    requires
        0 <= n <= queue.len(),
    ensures
        queue_tasks(repo, queue, n).contains(item) <==> exists|m: int, j: int, i: int|
            m < n && #[trigger] is_task_of(repo, queue, m, j, i, item),
    decreases n,
{
    if n > 0 {
        law_every_body_is_queued(repo, queue, n - 1, item);
        let items = queue[n - 1].items;
        let at = queue_tasks(repo, queue, n - 1);
        let own = module_tasks(repo, n - 1, items, items.len() as int);
        lemma_in_either(at, own, item);
        lemma_module_tasks(repo, n - 1, items, items.len() as int, item);
        if at.contains(item) {
            let (m, j, i) = choose|m: int, j: int, i: int|
                m < n - 1 && #[trigger] is_task_of(repo, queue, m, j, i, item);
            assert(is_task_of(repo, queue, m, j, i, item));
        }
        if own.contains(item) {
            let j = choose|j: int|
                0 <= j < items.len() && item_tasks(repo, n - 1, #[trigger] items[j]).contains(
                    item,
                );
            let tasks = item_tasks(repo, n - 1, items[j]);
            let i = choose|i: int| 0 <= i < tasks.len() && tasks[i] == item;
            assert(is_task_of(repo, queue, n - 1, j, i, item));
        }
        if exists|m: int, j: int, i: int|
            m < n && #[trigger] is_task_of(repo, queue, m, j, i, item) {
            let (m, j, i) = choose|m: int, j: int, i: int|
                m < n && #[trigger] is_task_of(repo, queue, m, j, i, item);
            if m == n - 1 {
                assert(item_tasks(repo, n - 1, items[j]).contains(item));
            } else {
                assert(m < n - 1 && is_task_of(repo, queue, m, j, i, item));
            }
        }
    }
}

/// Whether what a body is checked with goes by the type of a function.
pub open spec fn fits_type(task: FunctionTaskV, typ: FuncTypeV) -> bool {
    &&& task.ret == subst(typ.ret, task.outer, task.inner)
    &&& is_closed(typ.ret) ==> task.ret == typ.ret
    &&& task.poly_ret == typ.is_ret_poly
    &&& task.params.len() <= typ.params.len()
    &&& task.poly.len() == task.params.len()
    &&& forall|i: int|
        0 <= i < task.params.len() ==> #[trigger] task.params[i] == typ.params[i].typ
            && task.poly[i] == typ.params[i].is_poly
}

/// In what a run leaves to be generated, each body is checked against the type that its function has
/// in the repository: against its result and with its parameters. `this` is there in a function of a
/// class exactly where it is not static, and `wrappedMethod` stands for the wrapped function in a
/// wrapper, and for nothing elsewhere.
pub proof fn law_bodies_fit_their_functions(
    c: CompilerV,
    modules: Seq<SourceModule>,
    out: OutputsV,
    t: int,
)
    requires
        is_run(c, modules, out),
        0 <= t < out.items.len(),
    ensures
        match out.items[t] {
            CodeGenItemV::AssembleMethod(id, task, is_static) => {
                &&& fits_type(task, type_of_member(out.repo, id, is_static))
                &&& task.wrapped is None
                &&& !is_static ==> task.locals.get("this"@) is Some
            },
            CodeGenItemV::AddMethod(id, task, is_static) => {
                &&& fits_type(task, type_of_member(out.repo, id, is_static))
                &&& task.wrapped is None
                &&& !is_static ==> task.locals.get("this"@) is Some
            },
            CodeGenItemV::WrapMethod(id, task, is_static) => {
                &&& fits_type(task, type_of_member(out.repo, id, is_static))
                &&& task.wrapped == Some(
                    if is_static {
                        GlobalV::StaticAlias(id)
                    } else {
                        GlobalV::MethodAlias(id)
                    },
                )
                &&& !is_static ==> task.locals.get("this"@) is Some
            },
            CodeGenItemV::AssembleGlobal(slot, task) => {
                &&& fits_type(task, out.repo.globals.entries[slot].typ)
                &&& task.wrapped is None
            },
        },
{
    let at = populated(c, modules);
    let (done, after) = choose|done: CollectedV, after: CompilerV|
        {
            &&& #[trigger] is_collected(at, start_names(c), modules, done)
            &&& #[trigger] is_inherited(done.compiler, after)
            &&& out == outputs_of(after, at.types, done.names)
        };
    let n = after.queue.len() as int;
    let item = out.items[t];
    assert(queue_tasks(after.repo, after.queue, n).contains(item));
    law_every_body_is_queued(after.repo, after.queue, n, item);
    let (m, j, i) = choose|m: int, j: int, i: int|
        m < n && #[trigger] is_task_of(after.repo, after.queue, m, j, i, item);
    law_tasks_of_an_item(after.repo, m, after.queue[m].items[j], i);
}

} // verus!
