//! Which methods override which, what overriding makes of them, and what is owed by a class.
use vstd::prelude::*;

use crate::compiler::{CompileBodyV, CompilerV, ModuleItemV, ModuleV};
use crate::dict::DictV;
use crate::error::{CompileErrorV, Span, Unsupported};
use crate::funcs::{law_marked_override, top_level};
use crate::inheritance::{
    all_errors, all_missing, base_class, bases_of, bases_ok, body_base, body_id, class_bases,
    class_missing, inherit, inherit_ok, inherited, insert_by_depth, is_filled_in, is_own_missing,
    item_bases, items_bases, law_missing, law_promotion, law_sort_by_depth, lemma_bases_of,
    method_at, missing_errors, one_base, overrides, owed, promote_all, queue_bases, root,
    sort_by_depth, tells, tells_all, type_told, BasesV,
};
use crate::repo::{
    ancestor, bound_vars, depth, has_depth, is_depth, lemma_depth, nth_upper, zip_vars, RepoV,
};
use crate::tables::MemberIdV;
use crate::types::{is_closed, law_closed_stays, subst, ParameterizedV, TypeV};

verus! {

/// Whether a list of methods leads from one to the method at the top: each overrides the next, and
/// the last overrides none.
pub open spec fn is_chain(bases: DictV<MemberIdV, MemberIdV>, chain: Seq<MemberIdV>) -> bool {
    &&& chain.len() > 0
    &&& forall|i: int|
        0 <= i < chain.len() - 1 ==> bases.get(#[trigger] chain[i]) == Some(chain[i + 1])
    &&& bases.get(chain.last()) is None
}

proof fn lemma_chain_root(
    repo: RepoV,
    bases: DictV<MemberIdV, MemberIdV>,
    chain: Seq<MemberIdV>,
)
    requires
        bases_ok(repo, bases),
        is_chain(bases, chain),
    ensures
        root(repo, bases, chain[0]) == chain.last(),
    decreases chain.len(),
{
    if chain.len() > 1 {
        let rest = chain.drop_first();
        assert(bases.get(chain[0]) == Some(chain[1]));
        assert forall|i: int| 0 <= i < rest.len() - 1 implies bases.get(#[trigger] rest[i]) == Some(
            rest[i + 1],
        ) by {
            assert(bases.get(chain[i + 1]) == Some(chain[i + 1 + 1]));
        }
        lemma_chain_root(repo, bases, rest);
        assert(bases.has(chain[0]));
    }
}

/// Overriding leads somewhere: from every method a chain goes up to one that overrides none.
pub proof fn law_overriding_ends(
    repo: RepoV,
    bases: DictV<MemberIdV, MemberIdV>,
    id: MemberIdV,
) -> (chain: Seq<MemberIdV>)
    requires
        bases_ok(repo, bases),
    ensures
        is_chain(bases, chain),
        chain[0] == id,
    decreases depth(repo, id.owner),
{
    if bases.has(id) {
        let rest = law_overriding_ends(repo, bases, bases.at(id));
        let chain = seq![id] + rest;
        assert forall|i: int| 0 <= i < chain.len() - 1 implies bases.get(#[trigger] chain[i])
            == Some(chain[i + 1]) by {
            if i > 0 {
                assert(bases.get(rest[i - 1]) == Some(rest[i - 1 + 1]));
            }
        }
        assert(chain.last() == rest.last());
        chain
    } else {
        seq![id]
    }
}

/// A method that overrides another one says so afterwards, and which of its types the method at the
/// top of its chain leaves open: its result is polymorphic exactly if that method returns a type
/// variable and it does not itself, and so is a parameter in the place of one that is a type
/// variable there and is none itself. Nothing else of it changes.
pub proof fn law_overriding_is_marked(
    c: CompilerV,
    told: Seq<Seq<MemberIdV>>,
    id: MemberIdV,
    chain: Seq<MemberIdV>,
    i: int,
)
    requires
        c.repo.types.wf(),
        inherit_ok(c),
        is_chain(bases_of(c).bases, chain),
        bases_of(c).bases.get(id) == Some(chain[0]),
    ensures
        ({
            let after = inherit(c, told).repo;
            let own = c.repo.class(id.owner).methods.entries[id.slot];
            let top = c.repo.class(chain.last().owner).methods.entries[chain.last().slot].typ;
            let now = after.class(id.owner).methods.entries[id.slot];
            &&& c.repo.has_method(id)
            &&& after.has_method(id)
            &&& now.base == Some(chain[0])
            &&& now.func == own.func
            &&& now.signature == own.signature
            &&& now.flags == own.flags
            &&& now.typ.ret == own.typ.ret
            &&& now.typ.is_ret_poly <==> top.ret is Var && !(own.typ.ret is Var)
            &&& now.typ.params.len() == own.typ.params.len()
            &&& 0 <= i < own.typ.params.len() ==> {
                &&& now.typ.params[i].typ == own.typ.params[i].typ
                &&& now.typ.params[i].is_out == own.typ.params[i].is_out
                &&& now.typ.params[i].is_poly <==> own.typ.params[i].is_poly || (i
                    < top.params.len() && top.params[i].typ is Var && !(
                own.typ.params[i].typ is Var))
            }
        }),
{
    let bases = bases_of(c).bases;
    lemma_bases_of(c);
    lemma_chain_root(c.repo, bases, chain);
    law_promotion(c.repo, bases);
    assert(bases.has(id));
    assert(c.repo.has_method(id));
    let after = promote_all(c.repo, bases, bases.keys.len() as int);
    assert(method_at(after, id) == crate::inheritance::promoted_method(c.repo, bases, id));
    let own = method_at(c.repo, id);
    let top = method_at(c.repo, chain.last());
    law_marked_override(
        own,
        chain[0],
        crate::inheritance::fills_ret(top.typ, own.typ),
        crate::inheritance::fills_params(top.typ, own.typ),
        i,
    );
}

/// A method that overrides none stays as it is.
pub proof fn law_others_stay_unmarked(c: CompilerV, told: Seq<Seq<MemberIdV>>, id: MemberIdV)
    requires
        c.repo.types.wf(),
        inherit_ok(c),
        bases_of(c).bases.get(id) is None,
        c.repo.has_method(id),
    ensures
        ({
            let after = inherit(c, told).repo;
            &&& after.has_method(id)
            &&& after.class(id.owner).methods.entries[id.slot]
                == c.repo.class(id.owner).methods.entries[id.slot]
        }),
{
    let bases = bases_of(c).bases;
    lemma_bases_of(c);
    law_promotion(c.repo, bases);
    let after = promote_all(c.repo, bases, bases.keys.len() as int);
    assert(method_at(after, id) == crate::inheritance::promoted_method(c.repo, bases, id));
}

/// The type variables of a class stand for the arguments at the same places.
pub proof fn law_bound_variables(
    vars: Seq<crate::funcs::TypeVarV>,
    args: Seq<TypeV>,
    i: int,
    name: Seq<char>,
)
    requires
        forall|j: int, k: int|
            0 <= j < k < vars.len() ==> (#[trigger] vars[j]).name != (#[trigger] vars[k]).name,
    ensures
        0 <= i < vars.len() && i < args.len() ==> bound_vars(vars, args).get(vars[i].name) == Some(
            args[i],
        ),
        bound_vars(vars, args).has(name) ==> exists|j: int|
            0 <= j < vars.len() && j < args.len() && (#[trigger] vars[j]).name == name,
{
    let n = if vars.len() <= args.len() {
        vars.len()
    } else {
        args.len()
    };
    lemma_zip(vars, args, n, i, name);
}

proof fn lemma_zip(
    vars: Seq<crate::funcs::TypeVarV>,
    args: Seq<TypeV>,
    n: nat,
    i: int,
    name: Seq<char>,
)
    requires
        n <= vars.len(),
        n <= args.len(),
        forall|j: int, k: int|
            0 <= j < k < vars.len() ==> (#[trigger] vars[j]).name != (#[trigger] vars[k]).name,
    ensures
        zip_vars(vars, args, n).wf(),
        0 <= i < n ==> zip_vars(vars, args, n).get(vars[i].name) == Some(args[i]),
        zip_vars(vars, args, n).has(name) ==> exists|j: int|
            0 <= j < n && (#[trigger] vars[j]).name == name,
    decreases n,
{
    if n > 0 {
        let m = (n - 1) as nat;
        lemma_zip(vars, args, m, i, name);
        let at = zip_vars(vars, args, m);
        let own = vars[n - 1].name;
        at.lemma_put(own, args[n - 1]);
        let done = at.put(own, args[n - 1]);
        if i == n - 1 {
            assert(done.get(own) == Some(args[n - 1]));
        } else if 0 <= i < n - 1 {
            assert(vars[i].name != vars[n - 1].name);
            assert(done.get(vars[i].name) == at.get(vars[i].name));
        }
        if name != own {
            assert(done.has(name) <==> at.has(name));
            if at.has(name) {
                let j = choose|j: int| 0 <= j < m && (#[trigger] vars[j]).name == name;
                assert(vars[j].name == name);
            }
        } else {
            assert(vars[n - 1].name == name);
        }
    }
}

/// Each class on the way up is what the one below extends, and its arguments are those that are
/// written there, with the type variables of the one below replaced by its own arguments.
pub proof fn law_arguments_on_the_way_up(repo: RepoV, this: ParameterizedV, k: nat, i: int)
    requires
        nth_upper(repo, this.id, (k + 1) as nat) is Some,
    ensures
        ({
            let lower = ancestor(repo, this, k);
            let upper = ancestor(repo, this, (k + 1) as nat);
            let class = repo.class(lower.id);
            &&& nth_upper(repo, this.id, 0) == Some(this.id)
            &&& ancestor(repo, this, 0) == this
            &&& nth_upper(repo, this.id, k) == Some(lower.id)
            &&& nth_upper(repo, this.id, (k + 1) as nat) == Some(upper.id)
            &&& repo.is_class(lower.id)
            &&& repo.is_class(upper.id)
            &&& class.extends is Some
            &&& class.extends->0.id == upper.id
            &&& upper.args.len() == class.extends->0.args.len()
            &&& 0 <= i < upper.args.len() ==> upper.args[i] == subst(
                class.extends->0.args[i],
                DictV::empty(),
                bound_vars(class.type_vars, lower.args),
            )
        }),
    decreases k,
{
    if k > 0 {
        law_arguments_on_the_way_up(repo, this, (k - 1) as nat, 0);
    } else {
        assert(nth_upper(repo, this.id, 0) is Some);
    }
}

/// What the method of a body is found to override is a method of a class further up: of the same
/// name, not final, and with as many parameters, of the types that are left when its type variables
/// are replaced by what they stand for in the class.
pub proof fn law_overridden_matches(
    repo: RepoV,
    this: ParameterizedV,
    body: CompileBodyV,
    i: int,
)
    requires
        body_base(repo, this, body) is Some,
    ensures
        ({
            let base = body_base(repo, this, body)->0;
            let class = repo.class(base.owner);
            let entry = class.methods.entries[base.slot];
            let own = repo.class(this.id).methods.entries[body.slot];
            &&& !body.is_static
            &&& exists|k: nat|
                {
                    &&& k > 0
                    &&& #[trigger] nth_upper(repo, this.id, k) == Some(base.owner)
                    &&& 0 <= i < entry.typ.params.len() ==> own.typ.params[i].typ == subst(
                        entry.typ.params[i].typ,
                        DictV::empty(),
                        bound_vars(class.type_vars, ancestor(repo, this, k).args),
                    )
                }
            &&& 0 <= base.slot < class.methods.entries.len()
            &&& class.methods.names[entry.func] == top_level(body.name)
            &&& !entry.flags.is_final
            &&& entry.typ.params.len() == own.typ.params.len()
            &&& 0 <= i < entry.typ.params.len() && is_closed(entry.typ.params[i].typ)
                ==> own.typ.params[i].typ == entry.typ.params[i].typ
        }),
{
    let typ = repo.class(this.id).methods.entries[body.slot].typ;
    let (k, slot) = choose|k: nat, slot: int| overrides(repo, this, body.name, typ, k, slot);
    assert(overrides(repo, this, body.name, typ, k, slot));
    let class = repo.class(nth_upper(repo, this.id, k)->0);
    let entry = class.methods.entries[slot];
    assert(nth_upper(repo, this.id, k) == Some(body_base(repo, this, body)->0.owner));
    if 0 <= i < entry.typ.params.len() {
        assert(entry.typ.params[i] == entry.typ.params[i]);
        if is_closed(entry.typ.params[i].typ) {
            law_closed_stays(
                entry.typ.params[i].typ,
                DictV::empty(),
                bound_vars(class.type_vars, ancestor(repo, this, k).args),
            );
        }
    }
}

/// A method is found to override the method of a class further up that has its name and its
/// parameter types and is not final. It is told here of types without variables.
pub proof fn law_matching_is_overridden(
    repo: RepoV,
    this: ParameterizedV,
    body: CompileBodyV,
    k: nat,
    slot: int,
)
    requires
        !body.is_static,
        k > 0,
        nth_upper(repo, this.id, k) is Some,
        ({
            let class = repo.class(nth_upper(repo, this.id, k)->0);
            let entry = class.methods.entries[slot];
            let own = repo.class(this.id).methods.entries[body.slot];
            &&& 0 <= slot < class.methods.entries.len()
            &&& class.methods.names[entry.func] == top_level(body.name)
            &&& !entry.flags.is_final
            &&& entry.typ.params.len() == own.typ.params.len()
            &&& forall|i: int|
                0 <= i < entry.typ.params.len() ==> is_closed((#[trigger] entry.typ.params[i]).typ)
                    && entry.typ.params[i].typ == own.typ.params[i].typ
        }),
    ensures
        body_base(repo, this, body) is Some,
        one_base(
            repo,
            this,
            body.name,
            repo.class(this.id).methods.entries[body.slot].typ,
        ) ==> body_base(repo, this, body) == Some(
            MemberIdV { owner: nth_upper(repo, this.id, k)->0, slot },
        ),
{
    let typ = repo.class(this.id).methods.entries[body.slot].typ;
    let class = repo.class(nth_upper(repo, this.id, k)->0);
    let vars = bound_vars(class.type_vars, ancestor(repo, this, k).args);
    let params = class.methods.entries[slot].typ.params;
    assert forall|i: int| 0 <= i < params.len() implies subst(
        (#[trigger] params[i]).typ,
        DictV::empty(),
        vars,
    ) == typ.params[i].typ by {
        law_closed_stays(params[i].typ, DictV::empty(), vars);
    }
    assert(overrides(repo, this, body.name, typ, k, slot));
    let (l, other) = choose|l: nat, other: int|
        overrides(repo, this, body.name, typ, l, other);
    assert(overrides(repo, this, body.name, typ, l, other));
}

/// Whether an item that waits to be compiled has the body of a method, and the class of the method
/// extends a class.
pub open spec fn has_body_of(repo: RepoV, item: ModuleItemV, f: int, id: MemberIdV) -> bool {
    item matches ModuleItemV::Class(this, _, funcs) && {
        &&& this.id == id.owner
        &&& 0 <= f < funcs.len()
        &&& funcs[f].slot == id.slot
        &&& !funcs[f].is_static
        &&& repo.is_class(this.id)
        &&& repo.class(this.id).extends is Some
        &&& repo.is_class(repo.class(this.id).extends->0.id)
    }
}

/// Whether one of the first bodies of a class is found to override a method.
spec fn overrides_in(
    repo: RepoV,
    this: ParameterizedV,
    funcs: Seq<CompileBodyV>,
    n: int,
    id: MemberIdV,
) -> bool {
    exists|f: int|
        {
            &&& 0 <= f < n
            &&& body_id(this, #[trigger] funcs[f]) == id
            &&& body_base(repo, this, funcs[f]) is Some
        }
}

proof fn lemma_class_found(
    repo: RepoV,
    this: ParameterizedV,
    funcs: Seq<CompileBodyV>,
    n: int,
    bases: DictV<MemberIdV, MemberIdV>,
    id: MemberIdV,
)
    requires
        bases.wf(),
        0 <= n <= funcs.len(),
    ensures
        ({
            let done = class_bases(repo, this, funcs, n, bases);
            &&& done.wf()
            &&& done.has(id) <==> bases.has(id) || overrides_in(repo, this, funcs, n, id)
            &&& done.get(id) == bases.get(id) || (exists|f: int|
                {
                    &&& 0 <= f < n
                    &&& body_id(this, #[trigger] funcs[f]) == id
                    &&& body_base(repo, this, funcs[f]) is Some
                    &&& done.get(id) == body_base(repo, this, funcs[f])
                })
        }),
    decreases n,
{
    if n > 0 {
        lemma_class_found(repo, this, funcs, n - 1, bases, id);
        let at = class_bases(repo, this, funcs, n - 1, bases);
        let done = class_bases(repo, this, funcs, n, bases);
        if overrides_in(repo, this, funcs, n - 1, id) {
            let f = choose|f: int|
                {
                    &&& 0 <= f < n - 1
                    &&& body_id(this, #[trigger] funcs[f]) == id
                    &&& body_base(repo, this, funcs[f]) is Some
                };
            assert(body_id(this, funcs[f]) == id);
        }
        if let Some(base) = body_base(repo, this, funcs[n - 1]) {
            let own = body_id(this, funcs[n - 1]);
            at.lemma_put(own, base);
            if own == id {
                assert(at.put(own, base).get(id) == Some(base));
                assert(body_id(this, funcs[n - 1]) == id);
            } else {
                assert(at.put(own, base).get(id) == at.get(id));
                assert(at.put(own, base).has(id) <==> at.has(id));
            }
        }
    }
}

/// Whether an item makes known that a method overrides this one.
pub open spec fn makes_known(
    repo: RepoV,
    item: ModuleItemV,
    f: int,
    id: MemberIdV,
    base: MemberIdV,
) -> bool {
    has_body_of(repo, item, f, id) && body_base(
        repo,
        item->Class_0,
        item->Class_2[f],
    ) == Some(base)
}

proof fn lemma_item_found(repo: RepoV, item: ModuleItemV, at: BasesV, id: MemberIdV)
    requires
        at.bases.wf(),
    ensures
        ({
            let done = item_bases(repo, item, at).bases;
            &&& done.wf()
            &&& at.bases.has(id) ==> done.has(id)
            &&& forall|f: int, base: MemberIdV| #[trigger]
                makes_known(repo, item, f, id, base) ==> done.has(id)
            &&& done.get(id) == at.bases.get(id) || (done.get(id) is Some && exists|f: int|
                #[trigger] makes_known(repo, item, f, id, done.get(id)->0))
        }),
{
    if let ModuleItemV::Class(this, _, funcs) = item {
        if base_class(repo, this.id) is Some {
            lemma_class_found(repo, this, funcs, funcs.len() as int, at.bases, id);
            let done = item_bases(repo, item, at).bases;
            assert forall|f: int, base: MemberIdV| #[trigger]
                makes_known(repo, item, f, id, base) implies done.has(id) by {
                assert(body_id(this, funcs[f]) == id);
                assert(overrides_in(repo, this, funcs, funcs.len() as int, id));
            }
            if done.get(id) != at.bases.get(id) {
                let f = choose|f: int|
                    {
                        &&& 0 <= f < funcs.len()
                        &&& body_id(this, #[trigger] funcs[f]) == id
                        &&& body_base(repo, this, funcs[f]) is Some
                        &&& done.get(id) == body_base(repo, this, funcs[f])
                    };
                assert(makes_known(repo, item, f, id, done.get(id)->0));
            }
        }
    }
}

proof fn lemma_items_found(
    repo: RepoV,
    items: Seq<ModuleItemV>,
    n: int,
    at: BasesV,
    id: MemberIdV,
)
    requires
        at.bases.wf(),
        0 <= n <= items.len(),
    ensures
        ({
            let done = items_bases(repo, items, n, at).bases;
            &&& done.wf()
            &&& at.bases.has(id) ==> done.has(id)
            &&& forall|j: int, f: int, base: MemberIdV|
                0 <= j < n && #[trigger] makes_known(repo, items[j], f, id, base) ==> done.has(id)
            &&& done.get(id) == at.bases.get(id) || (done.get(id) is Some && exists|
                j: int,
                f: int,
            |
                0 <= j < n && #[trigger] makes_known(repo, items[j], f, id, done.get(id)->0))
        }),
    decreases n,
{
    if n > 0 {
        lemma_items_found(repo, items, n - 1, at, id);
        let before = items_bases(repo, items, n - 1, at);
        lemma_item_found(repo, items[n - 1], before, id);
        let done = items_bases(repo, items, n, at).bases;
        if done.get(id) == before.bases.get(id) && done.get(id) != at.bases.get(id) {
            let (j, f) = choose|j: int, f: int|
                0 <= j < n - 1 && #[trigger] makes_known(
                    repo,
                    items[j],
                    f,
                    id,
                    before.bases.get(id)->0,
                );
            assert(makes_known(repo, items[j], f, id, done.get(id)->0));
        }
    }
}

/// Whether an item of a queue makes known that a method overrides this one.
pub open spec fn queue_makes_known(
    repo: RepoV,
    queue: Seq<ModuleV>,
    m: int,
    j: int,
    f: int,
    id: MemberIdV,
    base: MemberIdV,
) -> bool {
    &&& 0 <= m < queue.len()
    &&& 0 <= j < queue[m].items.len()
    &&& makes_known(repo, queue[m].items[j], f, id, base)
}

proof fn lemma_queue_found(repo: RepoV, queue: Seq<ModuleV>, n: int, at: BasesV, id: MemberIdV)
    requires
        at.bases.wf(),
        0 <= n <= queue.len(),
    ensures
        ({
            let done = queue_bases(repo, queue, n, at).bases;
            &&& done.wf()
            &&& at.bases.has(id) ==> done.has(id)
            &&& forall|m: int, j: int, f: int, base: MemberIdV|
                m < n && #[trigger] queue_makes_known(repo, queue, m, j, f, id, base) ==> done.has(
                    id,
                )
            &&& done.get(id) == at.bases.get(id) || (done.get(id) is Some && exists|
                m: int,
                j: int,
                f: int,
            |
                m < n && #[trigger] queue_makes_known(
                    repo,
                    queue,
                    m,
                    j,
                    f,
                    id,
                    done.get(id)->0,
                ))
        }),
    decreases n,
{
    if n > 0 {
        lemma_queue_found(repo, queue, n - 1, at, id);
        let before = queue_bases(repo, queue, n - 1, at);
        let items = queue[n - 1].items;
        lemma_items_found(repo, items, items.len() as int, before, id);
        let done = queue_bases(repo, queue, n, at).bases;
        assert forall|m: int, j: int, f: int, base: MemberIdV|
            m < n && #[trigger] queue_makes_known(repo, queue, m, j, f, id, base) implies done.has(
            id,
        ) by {
            if m == n - 1 {
                assert(makes_known(repo, items[j], f, id, base));
            }
        }
        if done.get(id) != before.bases.get(id) {
            let (j, f) = choose|j: int, f: int|
                0 <= j < items.len() && #[trigger] makes_known(
                    repo,
                    items[j],
                    f,
                    id,
                    done.get(id)->0,
                );
            assert(queue_makes_known(repo, queue, n - 1, j, f, id, done.get(id)->0));
        } else if done.get(id) != at.bases.get(id) {
            let (m, j, f) = choose|m: int, j: int, f: int|
                m < n - 1 && #[trigger] queue_makes_known(
                    repo,
                    queue,
                    m,
                    j,
                    f,
                    id,
                    before.bases.get(id)->0,
                );
            assert(queue_makes_known(repo, queue, m, j, f, id, done.get(id)->0));
        }
    }
}

/// Overriding is found for every method with a body of every class that extends one, and for no
/// other method: what a method overrides is what its body is found to override.
pub proof fn law_overriding_is_found(c: CompilerV, id: MemberIdV)
    ensures
        forall|m: int, j: int, f: int, base: MemberIdV| #[trigger]
            queue_makes_known(c.repo, c.queue, m, j, f, id, base) ==> bases_of(c).bases.has(id),
        bases_of(c).bases.get(id) matches Some(base) ==> exists|m: int, j: int, f: int| #[trigger]
            queue_makes_known(c.repo, c.queue, m, j, f, id, base),
{
    let none = BasesV { errors: c.errors, bases: DictV::empty() };
    lemma_queue_found(c.repo, c.queue, c.queue.len() as int, none, id);
}

/// Whether a class that waits to be compiled extends a final class that is declared at a place.
pub open spec fn extends_final(repo: RepoV, item: ModuleItemV, span: Span) -> bool {
    item matches ModuleItemV::Class(this, _, _) && {
        &&& repo.is_class(this.id)
        &&& repo.class(this.id).extends is Some
        &&& repo.is_class(repo.class(this.id).extends->0.id)
        &&& repo.class(repo.class(this.id).extends->0.id).flags.is_final
        &&& repo.class(repo.class(this.id).extends->0.id).span == Some(span)
    }
}

pub open spec fn final_error(span: Span) -> CompileErrorV {
    CompileErrorV::Unsupported(Unsupported::ExtendingFinalClass, span)
}

proof fn lemma_items_final(
    repo: RepoV,
    items: Seq<ModuleItemV>,
    n: int,
    at: BasesV,
    err: CompileErrorV,
)
    requires
        0 <= n <= items.len(),
    ensures
        items_bases(repo, items, n, at).errors.contains(err) <==> at.errors.contains(err) || exists|
            j: int,
            span: Span,
        |
            0 <= j < n && #[trigger] extends_final(repo, items[j], span) && err == final_error(
                span,
            ),
    decreases n,
{
    if n > 0 {
        lemma_items_final(repo, items, n - 1, at, err);
        let before = items_bases(repo, items, n - 1, at).errors;
        let done = items_bases(repo, items, n, at).errors;
        let more = done.skip(before.len() as int);
        assert(before.is_prefix_of(done));
        assert(done =~= before + more);
        assert(done.contains(err) <==> before.contains(err) || more.contains(err)) by {
            if before.contains(err) {
                let k = choose|k: int| 0 <= k < before.len() && before[k] == err;
                assert(done[k] == err);
            }
            if more.contains(err) {
                let k = choose|k: int| 0 <= k < more.len() && more[k] == err;
                assert(done[before.len() + k] == err);
            }
            if done.contains(err) {
                let k = choose|k: int| 0 <= k < done.len() && done[k] == err;
                if k < before.len() {
                    assert(before[k] == err);
                } else {
                    assert(more[k - before.len()] == err);
                }
            }
        }
        assert(more.contains(err) <==> exists|span: Span| #[trigger]
            extends_final(repo, items[n - 1], span) && err == final_error(span)) by {
            if more.len() > 0 {
                assert(more[0] == done[before.len() as int]);
                let span = more[0]->Unsupported_1;
                assert(extends_final(repo, items[n - 1], span));
                if more.contains(err) {
                    assert(more.len() == 1);
                }
                assert(more.contains(more[0]));
            }
        }
        if before.contains(err) && !at.errors.contains(err) {
            let (j, span) = choose|j: int, span: Span|
                0 <= j < n - 1 && #[trigger] extends_final(repo, items[j], span) && err
                    == final_error(span);
            assert(extends_final(repo, items[j], span));
        }
    }
}

proof fn lemma_queue_final(
    repo: RepoV,
    queue: Seq<ModuleV>,
    n: int,
    at: BasesV,
    err: CompileErrorV,
)
    requires
        0 <= n <= queue.len(),
    ensures
        queue_bases(repo, queue, n, at).errors.contains(err) <==> at.errors.contains(err) || exists|
            m: int,
            j: int,
            span: Span,
        |
            0 <= m < n && 0 <= j < queue[m].items.len() && #[trigger] extends_final(
                repo,
                queue[m].items[j],
                span,
            ) && err == final_error(span),
    decreases n,
{
    if n > 0 {
        lemma_queue_final(repo, queue, n - 1, at, err);
        let before = queue_bases(repo, queue, n - 1, at);
        let items = queue[n - 1].items;
        lemma_items_final(repo, items, items.len() as int, before, err);
        if before.errors.contains(err) && !at.errors.contains(err) {
            let (m, j, span) = choose|m: int, j: int, span: Span|
                0 <= m < n - 1 && 0 <= j < queue[m].items.len() && #[trigger] extends_final(
                    repo,
                    queue[m].items[j],
                    span,
                ) && err == final_error(span);
            assert(extends_final(repo, queue[m].items[j], span));
        }
        if exists|j: int, span: Span|
            0 <= j < items.len() && #[trigger] extends_final(repo, items[j], span) && err
                == final_error(span) {
            let (j, span) = choose|j: int, span: Span|
                0 <= j < items.len() && #[trigger] extends_final(repo, items[j], span) && err
                    == final_error(span);
            assert(extends_final(repo, queue[n - 1].items[j], span));
        }
    }
}

/// Extending a final class is told, at that class, for exactly the classes that do.
pub proof fn law_final_is_not_extended(c: CompilerV, err: CompileErrorV)
    ensures
        bases_of(c).errors.contains(err) <==> c.errors.contains(err) || exists|
            m: int,
            j: int,
            span: Span,
        |
            {
                &&& 0 <= m < c.queue.len()
                &&& 0 <= j < c.queue[m].items.len()
                &&& #[trigger] extends_final(c.repo, c.queue[m].items[j], span)
                &&& err == CompileErrorV::Unsupported(Unsupported::ExtendingFinalClass, span)
            },
{
    let none = BasesV { errors: c.errors, bases: DictV::empty() };
    lemma_queue_final(c.repo, c.queue, c.queue.len() as int, none, err);
}

/// Whether a method is one of a class, with neither a body nor a native implementation.
pub open spec fn is_abstract_in(repo: RepoV, id: Seq<char>, method: MemberIdV) -> bool {
    &&& method.owner == id
    &&& 0 <= method.slot < repo.class(id).methods.entries.len()
    &&& !repo.class(id).methods.entries[method.slot].flags.has_body
    &&& !repo.class(id).methods.entries[method.slot].flags.is_native
}

/// Whether one of the methods of a class has an implementation and overrides a method.
pub open spec fn is_given_in(
    repo: RepoV,
    bases: DictV<MemberIdV, MemberIdV>,
    id: Seq<char>,
    method: MemberIdV,
) -> bool {
    exists|slot: int|
        {
            &&& 0 <= slot < repo.class(id).methods.entries.len()
            &&& (#[trigger] repo.class(id).methods.entries[slot]).flags.has_body
                || repo.class(id).methods.entries[slot].flags.is_native
            &&& bases.get(MemberIdV { owner: id, slot }) == Some(method)
        }
}

/// A class is left without a body for its own methods that have none, and for those that the class
/// it extends is left without and that it does not give one. Only a class of the same list hands
/// any down.
pub proof fn law_left_without_body(
    repo: RepoV,
    bases: DictV<MemberIdV, MemberIdV>,
    types: Seq<Seq<char>>,
    i: int,
    p: int,
    method: MemberIdV,
)
    requires
        bases_ok(repo, bases),
        0 <= i < types.len(),
        repo.is_class(types[i]),
    ensures
        ({
            let id = types[i];
            let left = class_missing(repo, bases, all_missing(repo, bases, types, i), id);
            let base = repo.class(id).extends;
            &&& is_abstract_in(repo, id, method) ==> left.contains(method)
            &&& (base is None || !repo.is_class(base->0.id) || !types.take(i).contains(base->0.id))
                ==> (left.contains(method) <==> is_abstract_in(repo, id, method))
            &&& base is Some && repo.is_class(base->0.id) && 0 <= p < i && types[p] == base->0.id
                && !types.subrange(p + 1, i).contains(base->0.id) ==> (left.contains(method)
                <==> is_abstract_in(repo, id, method) || (class_missing(
                repo,
                bases,
                all_missing(repo, bases, types, p),
                base->0.id,
            ).contains(method) && !is_given_in(repo, bases, id, method)))
        }),
{
    let id = types[i];
    let known = all_missing(repo, bases, types, i);
    let from = inherited(repo, known, id);
    let n = repo.class(id).methods.entries.len() as int;
    law_missing(repo, bases, id, from, n, method);
    let base = repo.class(id).extends;
    assert(is_own_missing(repo, id, method, n) <==> is_abstract_in(
        repo,
        id,
        method,
    ));
    assert(is_filled_in(repo, bases, id, method, n) <==> is_given_in(
        repo,
        bases,
        id,
        method,
    )) by {
        if is_filled_in(repo, bases, id, method, n) {
            let slot = choose|slot: int|
                {
                    &&& 0 <= slot < n
                    &&& (#[trigger] repo.class(id).methods.entries[slot]).is_implemented()
                    &&& bases.has(MemberIdV { owner: id, slot })
                    &&& bases.at(MemberIdV { owner: id, slot }) == method
                };
            assert(repo.class(id).methods.entries[slot].is_implemented());
        }
        if is_given_in(repo, bases, id, method) {
            let slot = choose|slot: int|
                {
                    &&& 0 <= slot < repo.class(id).methods.entries.len()
                    &&& (#[trigger] repo.class(id).methods.entries[slot]).flags.has_body
                        || repo.class(id).methods.entries[slot].flags.is_native
                    &&& bases.get(MemberIdV { owner: id, slot }) == Some(method)
                };
            assert(repo.class(id).methods.entries[slot].is_implemented());
            assert(bases.has(MemberIdV { owner: id, slot }));
        }
    }
    if base is Some {
        lemma_known_of(repo, bases, types, i, base->0.id, p);
    }
}

proof fn lemma_known_of(
    repo: RepoV,
    bases: DictV<MemberIdV, MemberIdV>,
    types: Seq<Seq<char>>,
    n: int,
    id: Seq<char>,
    p: int,
)
    requires
        0 <= n <= types.len(),
    ensures
        ({
            let known = all_missing(repo, bases, types, n);
            &&& known.wf()
            &&& known.has(id) ==> repo.is_class(id) && types.take(n).contains(id)
            &&& repo.is_class(id) && 0 <= p < n && types[p] == id && !types.subrange(
                p + 1,
                n,
            ).contains(id) ==> known.get(id) == Some(
                class_missing(repo, bases, all_missing(repo, bases, types, p), id),
            )
        }),
    decreases n,
{
    if n > 0 {
        lemma_known_of(repo, bases, types, n - 1, id, p);
        let at = all_missing(repo, bases, types, n - 1);
        let last = types[n - 1];
        let set = class_missing(repo, bases, at, last);
        at.lemma_put(last, set);
        if at.has(id) {
            let first = types.take(n - 1);
            let k = choose|k: int| 0 <= k < first.len() && first[k] == id;
            assert(types.take(n)[k] == id);
        }
        assert(types.take(n)[n - 1] == last);
        if last == id {
            assert(at.put(last, set).get(id) == Some(set));
        } else {
            assert(at.put(last, set).get(id) == at.get(id));
            assert(at.put(last, set).has(id) <==> at.has(id));
        }
        if 0 <= p < n - 1 && !types.subrange(p + 1, n).contains(id) {
            let all = types.subrange(p + 1, n);
            assert(all[n - 1 - (p + 1)] == last);
            let some = types.subrange(p + 1, n - 1);
            assert forall|k: int| 0 <= k < some.len() implies some[k] != id by {
                assert(all[k] == some[k]);
            }
        }
    }
}

/// A class that is not abstract and is left without a body for a method is told to be, by the name
/// of the method and at the class. An abstract class is told nothing.
pub proof fn law_missing_methods_are_told(
    repo: RepoV,
    bases: DictV<MemberIdV, MemberIdV>,
    types: Seq<Seq<char>>,
    told: Seq<Seq<MemberIdV>>,
    i: int,
    method: MemberIdV,
)
    requires
        told.len() == types.len(),
        tells_all(repo, bases, types, told),
        0 <= i < types.len(),
        repo.is_class(types[i]),
        repo.class(types[i]).span is Some,
    ensures
        ({
            let class = repo.class(types[i]);
            let owner = repo.class(method.owner).methods;
            let errors = all_errors(repo, types, types.len() as int, told);
            &&& class.flags.is_abstract ==> told[i].len() == 0
            &&& !class.flags.is_abstract && class_missing(
                repo,
                bases,
                all_missing(repo, bases, types, i),
                types[i],
            ).contains(method) ==> errors.contains(
                CompileErrorV::UnimplementedMethod(
                    owner.names[owner.entries[method.slot].func].name,
                    class.span->0,
                ),
            )
        }),
{
    assert(tells(told[i], owed(repo, bases, types, i)));
    let class = repo.class(types[i]);
    if class.flags.is_abstract {
        if told[i].len() > 0 {
            assert(told[i].to_set().contains(told[i][0]));
        }
    } else if owed(repo, bases, types, i).contains(method) {
        assert(told[i].to_set().contains(method));
        let k = choose|k: int| 0 <= k < told[i].len() && told[i][k] == method;
        let own = missing_errors(repo, told[i], class.span);
        lemma_errors_held(repo, types, types.len() as int, told, i, own[k]);
    }
}

proof fn lemma_errors_held(
    repo: RepoV,
    types: Seq<Seq<char>>,
    n: int,
    told: Seq<Seq<MemberIdV>>,
    i: int,
    err: CompileErrorV,
)
    requires
        0 <= i < n <= types.len(),
        missing_errors(repo, told[i], repo.class(types[i]).span).contains(err),
    ensures
        all_errors(repo, types, n, told).contains(err),
    decreases n,
{
    let before = all_errors(repo, types, n - 1, told);
    let own = missing_errors(repo, told[n - 1], repo.class(types[n - 1]).span);
    let all = all_errors(repo, types, n, told);
    if i < n - 1 {
        lemma_errors_held(repo, types, n - 1, told, i, err);
        let k = choose|k: int| 0 <= k < before.len() && before[k] == err;
        assert(all[k] == err);
    } else {
        let k = choose|k: int| 0 <= k < own.len() && own[k] == err;
        assert(all[before.len() + k] == err);
    }
}

/// Nothing is told of a class but the methods that it is left without a body for.
pub proof fn law_nothing_else_is_told(
    repo: RepoV,
    bases: DictV<MemberIdV, MemberIdV>,
    types: Seq<Seq<char>>,
    n: int,
    told: Seq<Seq<MemberIdV>>,
    err: CompileErrorV,
)
    requires
        told.len() == types.len(),
        tells_all(repo, bases, types, told),
        0 <= n <= types.len(),
        all_errors(repo, types, n, told).contains(err),
    ensures
        exists|i: int, method: MemberIdV|
            {
                &&& 0 <= i < n
                &&& repo.is_class(types[i])
                &&& !repo.class(types[i]).flags.is_abstract
                &&& #[trigger] class_missing(
                    repo,
                    bases,
                    all_missing(repo, bases, types, i),
                    types[i],
                ).contains(method)
                &&& err == CompileErrorV::UnimplementedMethod(
                    repo.class(method.owner).methods.names[repo.class(
                        method.owner,
                    ).methods.entries[method.slot].func].name,
                    repo.class(types[i]).span->0,
                )
            },
    decreases n,
{
    if n > 0 {
        let before = all_errors(repo, types, n - 1, told);
        let own = missing_errors(repo, told[n - 1], repo.class(types[n - 1]).span);
        let all = all_errors(repo, types, n, told);
        let k = choose|k: int| 0 <= k < all.len() && all[k] == err;
        if k < before.len() {
            assert(before[k] == err);
            law_nothing_else_is_told(repo, bases, types, n - 1, told, err);
        } else {
            let method = told[n - 1][k - before.len()];
            assert(own[k - before.len()] == err);
            assert(tells(told[n - 1], owed(repo, bases, types, n - 1)));
            assert(told[n - 1].to_set().contains(method));
            assert(class_missing(
                repo,
                bases,
                all_missing(repo, bases, types, n - 1),
                types[n - 1],
            ).contains(method));
        }
    }
}

/// Overriding can always be worked out where no class extends another one: the classes are there,
/// and each has a place where errors can be told.
pub proof fn law_classes_without_bases(c: CompilerV)
    requires
        forall|i: int|
            0 <= i < c.defined.len() ==> {
                &&& c.repo.has(#[trigger] c.defined[i])
                &&& c.repo.is_class(c.defined[i]) ==> c.repo.class(c.defined[i]).extends is None
                    && c.repo.class(c.defined[i]).span is Some
            },
        forall|i: int, j: int|
            #![trigger c.queue[i].items[j]]
            0 <= i < c.queue.len() && 0 <= j < c.queue[i].items.len() ==> (
            c.queue[i].items[j] matches ModuleItemV::Class(this, _, _) ==> c.repo.has(this.id) && (
            c.repo.is_class(this.id) ==> c.repo.class(this.id).extends is None)),
    ensures
        inherit_ok(c),
{
    assert forall|i: int| 0 <= i < c.defined.len() implies has_depth(
        c.repo,
        #[trigger] c.defined[i],
    ) by {
        let id = c.defined[i];
        if c.repo.is_class(id) {
            assert(nth_upper(c.repo, id, 0) is Some);
            assert(nth_upper(c.repo, id, 1) is None);
            assert(is_depth(c.repo, id, 1));
        } else {
            assert(nth_upper(c.repo, id, 0) is None);
            assert(is_depth(c.repo, id, 0));
        }
    }
    let types = sort_by_depth(c.repo, c.defined, c.defined.len() as int);
    let bases = bases_of(c).bases;
    assert forall|i: int| 0 <= i < types.len() implies #[trigger] type_told(
        c.repo,
        bases,
        types,
        i,
    ) by {
        lemma_sorted_from(c.repo, c.defined, c.defined.len() as int, types[i]);
        let k = choose|k: int| 0 <= k < c.defined.len() && c.defined[k] == types[i];
        assert(c.repo.has(c.defined[k]));
    }
}

/// What is in a sorted list was in the list before.
proof fn lemma_sorted_from(repo: RepoV, types: Seq<Seq<char>>, n: int, id: Seq<char>)
    requires
        0 <= n <= types.len(),
        sort_by_depth(repo, types, n).contains(id),
    ensures
        types.contains(id),
    decreases n,
{
    if n > 0 {
        let was = sort_by_depth(repo, types, n - 1);
        lemma_inserted_from(repo, was, types[n - 1], id);
        if was.contains(id) {
            lemma_sorted_from(repo, types, n - 1, id);
        }
    }
}

proof fn lemma_inserted_from(repo: RepoV, types: Seq<Seq<char>>, new: Seq<char>, id: Seq<char>)
    requires
        insert_by_depth(repo, types, new).contains(id),
    ensures
        id == new || types.contains(id),
    decreases types.len(),
{
    let done = insert_by_depth(repo, types, new);
    let i = choose|i: int| 0 <= i < done.len() && done[i] == id;
    if types.len() == 0 || depth(repo, types.last()) <= depth(repo, new) {
        if i < types.len() {
            assert(types[i] == id);
        }
    } else {
        let rest = insert_by_depth(repo, types.drop_last(), new);
        if i < rest.len() {
            assert(rest[i] == id);
            lemma_inserted_from(repo, types.drop_last(), new, id);
            if types.drop_last().contains(id) {
                let k = choose|k: int|
                    0 <= k < types.drop_last().len() && types.drop_last()[k] == id;
                assert(types[k] == id);
            }
        } else {
            assert(types[types.len() - 1] == id);
        }
    }
}

/// Once overriding is worked out, the same types are listed as before, those with fewer classes
/// above them first. Modules that wait to be compiled stay as they were, and errors that were
/// reported come first.
pub proof fn law_types_listed_by_depth(c: CompilerV, told: Seq<Seq<MemberIdV>>)
    ensures
        ({
            let done = inherit(c, told);
            &&& done.defined.to_multiset() == c.defined.to_multiset()
            &&& forall|i: int, j: int|
                0 <= i <= j < done.defined.len() ==> depth(c.repo, #[trigger] done.defined[i])
                    <= depth(c.repo, #[trigger] done.defined[j])
            &&& done.queue == c.queue
            &&& done.modules == c.modules
            &&& done.intrinsics == c.intrinsics
            &&& bases_of(c).errors.is_prefix_of(done.errors)
        }),
{
    let n = c.defined.len() as int;
    law_sort_by_depth(c.repo, c.defined, n);
    assert(c.defined.take(n) =~= c.defined);
    let errors = bases_of(c).errors;
    assert(errors =~= inherit(c, told).errors.subrange(0, errors.len() as int));
}

/// The way up from a class goes through the class that it extends.
proof fn lemma_way_through_base(repo: RepoV, id: Seq<char>, base: Seq<char>, k: nat)
    requires
        nth_upper(repo, id, 1) == Some(base),
        repo.is_class(base),
    ensures
        nth_upper(repo, id, k + 1) == nth_upper(repo, base, k),
    decreases k,
{
    if k > 0 {
        lemma_way_through_base(repo, id, base, (k - 1) as nat);
    }
}

/// A type that is no class has no depth to speak of, a class that extends no other one counts
/// once, and any other class counts once more than the one that it extends.
pub proof fn law_depth_counts_classes(repo: RepoV, id: Seq<char>)
    requires
        has_depth(repo, id),
    ensures
        !repo.is_class(id) ==> depth(repo, id) == 0,
        repo.is_class(id) ==> match repo.class(id).extends {
            Some(base) => if repo.is_class(base.id) {
                has_depth(repo, base.id) && depth(repo, id) == depth(repo, base.id) + 1
            } else {
                depth(repo, id) == 1
            },
            None => depth(repo, id) == 1,
        },
{
    let n = depth(repo, id);
    assert(is_depth(repo, id, n));
    if !repo.is_class(id) {
        assert(nth_upper(repo, id, 0) is None);
        if n > 0 {
            assert(nth_upper(repo, id, 0) is Some);
        }
    } else {
        assert(nth_upper(repo, id, 0) == Some(id));
        assert(n > 0);
        let up = nth_upper(repo, id, 1);
        if up is None {
            if n > 1 {
                assert(nth_upper(repo, id, 1) is Some);
            }
        } else {
            let base = up->0;
            assert(n > 1);
            let m = (n - 1) as nat;
            lemma_way_through_base(repo, id, base, m);
            assert forall|k: nat| k < m implies #[trigger] nth_upper(repo, base, k) is Some by {
                lemma_way_through_base(repo, id, base, k);
                assert(nth_upper(repo, id, k + 1) is Some);
            }
            assert(is_depth(repo, base, m));
            lemma_depth(repo, base, m);
        }
    }
}

} // verus!
