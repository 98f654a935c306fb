//! Which methods override which, which classes leave methods without a body, and what overriding
//! does to the types of methods.
use vstd::prelude::*;

use crate::compiler::{
    CompileBody, CompileBodyV, Compiler, CompilerV, Module, ModuleItem, ModuleItemV, ModuleV,
};
use crate::dict::{views, DictV, MemberDict, NameDict};
use crate::error::{CompileError, CompileErrorV, ErrorReporter, Span, Unsupported};
use crate::funcs::{top_level, FuncEntryV, FuncParam, FuncParamV, FuncType, FuncTypeV, ScopedName};
use crate::preprocess::continues;
use crate::repo::{
    ancestor, bind_vars, bound_vars, depth, has_depth, instantiate_base, is_depth, lemma_depth,
    lemma_nth_compose, lemma_nth_is_class, nth_upper, promote_method, ClassType, ClassTypeV, RepoV,
    TypeRepo,
};
use crate::tables::{
    member_set_clone, member_set_insert, member_set_iter, member_set_new, member_set_remove,
    MemberId, MemberIdV, MemberSet,
};
use crate::types::{subst, Parameterized, ParameterizedV, Type, TypeId, TypeV};

verus! {

/// Whether a method with these parameters is overridden by one with these, once the type variables
/// of its class are replaced by what they stand for.
pub open spec fn params_match(
    base: Seq<FuncParamV>,
    params: Seq<FuncParamV>,
    vars: DictV<Seq<char>, TypeV>,
) -> bool {
    &&& base.len() == params.len()
    &&& forall|i: int|
        0 <= i < base.len() ==> subst((#[trigger] base[i]).typ, DictV::empty(), vars)
            == params[i].typ
}

/// Whether the method at a place of the `k`-th class on the way up from a class is overridden by a
/// method of the class with this name and type.
pub open spec fn overrides(
    repo: RepoV,
    this: ParameterizedV,
    name: Seq<char>,
    typ: FuncTypeV,
    k: nat,
    slot: int,
) -> bool {
    let upper = nth_upper(repo, this.id, k);
    let class = repo.class(upper->0);
    &&& k > 0
    &&& upper is Some
    &&& class.methods.is_named(slot, top_level(name))
    &&& !class.methods.entries[slot].flags.is_final
    &&& params_match(
        class.methods.entries[slot].typ.params,
        typ.params,
        bound_vars(class.type_vars, ancestor(repo, this, k).args),
    )
}

/// Whether a method overrides no more than one other.
pub open spec fn one_base(
    repo: RepoV,
    this: ParameterizedV,
    name: Seq<char>,
    typ: FuncTypeV,
) -> bool {
    forall|k: nat, slot: int, l: nat, other: int|
        #[trigger] overrides(repo, this, name, typ, k, slot) && #[trigger] overrides(
            repo,
            this,
            name,
            typ,
            l,
            other,
        ) ==> k == l && slot == other
}

/// The method that a method of a class overrides.
pub open spec fn base_method(
    repo: RepoV,
    this: ParameterizedV,
    name: Seq<char>,
    typ: FuncTypeV,
) -> Option<MemberIdV> {
    if exists|k: nat, slot: int| overrides(repo, this, name, typ, k, slot) {
        let (k, slot) = choose|k: nat, slot: int| overrides(repo, this, name, typ, k, slot);
        Some(MemberIdV { owner: nth_upper(repo, this.id, k)->0, slot })
    } else {
        None
    }
}

/// A method that is overridden is one of a class further up.
pub proof fn lemma_base_method(
    repo: RepoV,
    this: ParameterizedV,
    name: Seq<char>,
    typ: FuncTypeV,
)
    requires
        has_depth(repo, this.id),
        base_method(repo, this, name, typ) is Some,
    ensures
        ({
            let base = base_method(repo, this, name, typ)->0;
            &&& repo.has_method(base)
            &&& has_depth(repo, base.owner)
            &&& depth(repo, base.owner) < depth(repo, this.id)
        }),
{
    let (k, slot) = choose|k: nat, slot: int| overrides(repo, this, name, typ, k, slot);
    let owner = nth_upper(repo, this.id, k)->0;
    lemma_nth_is_class(repo, this.id, k);
    lemma_upper_depth(repo, this.id, k);
}

/// The way up from the `k`-th class is `k` classes shorter.
pub proof fn lemma_upper_depth(repo: RepoV, id: Seq<char>, k: nat)
    requires
        has_depth(repo, id),
        nth_upper(repo, id, k) is Some,
    ensures
        has_depth(repo, nth_upper(repo, id, k)->0),
        depth(repo, nth_upper(repo, id, k)->0) + k == depth(repo, id),
{
    let n = depth(repo, id);
    assert(is_depth(repo, id, n));
    let upper = nth_upper(repo, id, k)->0;
    if k >= n {
        crate::repo::lemma_nth_none(repo, id, n, k);
    }
    let m = (n - k) as nat;
    assert(is_depth(repo, upper, m)) by {
        lemma_nth_compose(repo, id, k, m);
        assert forall|j: nat| j < m implies #[trigger] nth_upper(repo, upper, j) is Some by {
            lemma_nth_compose(repo, id, k, j);
            assert(nth_upper(repo, id, (k + j) as nat) is Some);
        }
    }
    lemma_depth(repo, upper, m);
}

/// Whether parameters match.
fn same_params(
    base: &Vec<FuncParam>,
    params: &Vec<FuncParam>,
    vars: &NameDict<Type>,
) -> (res: bool)
    ensures
        res == params_match(views(base@), views(params@), vars@),
{
    if base.len() != params.len() {
        return false;
    }
    let none: NameDict<Type> = NameDict::new();
    let mut i: usize = 0;
    while i < base.len()
        invariant
            i <= base.len(),
            base.len() == params.len(),
            none@ == DictV::<Seq<char>, TypeV>::empty(),
            forall|j: int|
                0 <= j < i ==> subst((#[trigger] views(base@)[j]).typ, DictV::empty(), vars@)
                    == views(params@)[j].typ,
        decreases base.len() - i,
    {
        assert(views(base@)[i as int] == base@[i as int]@);
        assert(views(params@)[i as int] == params@[i as int]@);
        if !base[i].typ.subst(&none, vars).same_shape(&params[i].typ) {
            return false;
        }
        i += 1;
    }
    true
}

/// The first method of a class from a place on that has a given name and can be overridden with
/// these parameters.
fn find_overridden(
    class: &ClassType,
    name: &String,
    typ: &FuncType,
    vars: &NameDict<Type>,
    from: usize,
) -> (res: Option<usize>)
    ensures
        match res {
            Some(slot) => {
                &&& from <= slot < usize::MAX
                &&& class@.methods.is_named(slot as int, top_level(name@))
                &&& !class@.methods.entries[slot as int].flags.is_final
                &&& params_match(
                    class@.methods.entries[slot as int].typ.params,
                    typ@.params,
                    vars@,
                )
                &&& forall|j: int|
                    #![trigger class@.methods.entries[j]]
                    from <= j < slot ==> !(class@.methods.is_named(j, top_level(name@))
                        && !class@.methods.entries[j].flags.is_final && params_match(
                        class@.methods.entries[j].typ.params,
                        typ@.params,
                        vars@,
                    ))
            },
            None => forall|slot: int|
                #![trigger class@.methods.entries[slot]]
                from <= slot ==> !(class@.methods.is_named(slot, top_level(name@))
                    && !class@.methods.entries[slot].flags.is_final && params_match(
                    class@.methods.entries[slot].typ.params,
                    typ@.params,
                    vars@,
                )),
        },
{
    let wanted = ScopedName::top_level(name.clone());
    let n: usize = class.methods.len();
    let mut slot: usize = from;
    while slot < n
        invariant
            from <= slot,
            n == class@.methods.entries.len(),
            wanted@ == top_level(name@),
            forall|j: int|
                #![trigger class@.methods.entries[j]]
                from <= j < slot ==> !(class@.methods.is_named(j, top_level(name@))
                    && !class@.methods.entries[j].flags.is_final && params_match(
                    class@.methods.entries[j].typ.params,
                    typ@.params,
                    vars@,
                )),
        decreases n - slot,
    {
        let entry = class.methods.entry(slot);
        if class.methods.name_of(slot).same(&wanted) && !entry.flags.is_final && same_params(
            &entry.typ.params,
            &typ.params,
            vars,
        ) {
            return Some(slot);
        }
        slot += 1;
    }
    None
}

impl Compiler {
    /// The method that a method of a class overrides.
    pub fn get_base_method(
        name: &String,
        this: &Parameterized,
        typ: &FuncType,
        repo: &TypeRepo,
    ) -> (res: Option<MemberId>)
        requires
            has_depth(repo@, this@.id),
            one_base(repo@, this@, name@, typ@),
        ensures
            crate::funcs::opt_view(res) == base_method(repo@, this@, name@, typ@),
    {
        let ghost total = depth(repo@, this@.id);
        assert(is_depth(repo@, this@.id, total));
        let ghost mut k: nat = 0;
        let mut at = this.dup();
        let mut class: Option<&ClassType> = repo.get_class(&at.id);
        while class.is_some()
            invariant
                is_depth(repo@, this@.id, total),
                one_base(repo@, this@, name@, typ@),
                match class {
                    Some(c) => nth_upper(repo@, this@.id, k) == Some(at@.id) && c@ == repo@.class(
                        at@.id,
                    ) && at@ == ancestor(repo@, this@, k),
                    None => nth_upper(repo@, this@.id, k) is None,
                },
                forall|l: nat, slot: int|
                    l <= k ==> !#[trigger] overrides(repo@, this@, name@, typ@, l, slot),
            decreases total - k,
        {
            proof {
                if k >= total {
                    crate::repo::lemma_nth_none(repo@, this@.id, total, k);
                }
            }
            let lower = class.unwrap();
            class = None;
            if let Some(base) = &lower.extends {
                let next = instantiate_base(lower, base, &at.args);
                class = repo.get_class(&next.id);
                at = next;
            }
            if let Some(upper) = class {
                let vars = bind_vars(&upper.type_vars, &at.args);
                if let Some(slot) = find_overridden(upper, name, typ, &vars, 0) {
                    proof {
                        assert(overrides(repo@, this@, name@, typ@, k + 1, slot as int));
                        let (l, other) = choose|l: nat, other: int|
                            overrides(repo@, this@, name@, typ@, l, other);
                        assert(overrides(repo@, this@, name@, typ@, l, other));
                    }
                    return Some(MemberId::new(&at.id, slot));
                }
                proof {
                    assert forall|slot: int| !#[trigger] overrides(
                        repo@,
                        this@,
                        name@,
                        typ@,
                        k + 1,
                        slot,
                    ) by {
                        let entry = upper@.methods.entries[slot];
                    }
                }
            }
            proof {
                k = k + 1;
            }
        }
        proof {
            assert forall|l: nat, slot: int| !#[trigger] overrides(
                repo@,
                this@,
                name@,
                typ@,
                l,
                slot,
            ) by {
                if l > k {
                    crate::repo::lemma_nth_none(repo@, this@.id, k, l);
                }
            }
        }
        None
    }
}

/// Whether a method overrides no more than one other.
fn has_one_base(name: &String, this: &Parameterized, typ: &FuncType, repo: &TypeRepo) -> (res: bool)
    requires
        has_depth(repo@, this@.id),
    ensures
        res == one_base(repo@, this@, name@, typ@),
{
    let ghost total = depth(repo@, this@.id);
    assert(is_depth(repo@, this@.id, total));
    let ghost mut k: nat = 0;
    let ghost mut found: (nat, int) = (0, 0);
    let mut is_found: bool = false;
    let mut at = this.dup();
    let mut class: Option<&ClassType> = repo.get_class(&at.id);
    while class.is_some()
        invariant
            is_depth(repo@, this@.id, total),
            match class {
                Some(c) => nth_upper(repo@, this@.id, k) == Some(at@.id) && c@ == repo@.class(
                    at@.id,
                ) && at@ == ancestor(repo@, this@, k),
                None => nth_upper(repo@, this@.id, k) is None,
            },
            is_found ==> found.0 <= k && overrides(
                repo@,
                this@,
                name@,
                typ@,
                found.0,
                found.1,
            ),
            forall|l: nat, slot: int|
                l <= k && #[trigger] overrides(repo@, this@, name@, typ@, l, slot) ==> is_found
                    && found == (l, slot),
        decreases total - k,
    {
        proof {
            if k >= total {
                crate::repo::lemma_nth_none(repo@, this@.id, total, k);
            }
        }
        let lower = class.unwrap();
        class = None;
        if let Some(base) = &lower.extends {
            let next = instantiate_base(lower, base, &at.args);
            class = repo.get_class(&next.id);
            at = next;
        }
        if let Some(upper) = class {
            let vars = bind_vars(&upper.type_vars, &at.args);
            match find_overridden(upper, name, typ, &vars, 0) {
                Some(slot) => {
                    assert(overrides(repo@, this@, name@, typ@, k + 1, slot as int));
                    if is_found {
                        return false;
                    }
                    if let Some(other) = find_overridden(upper, name, typ, &vars, slot + 1) {
                        assert(overrides(repo@, this@, name@, typ@, k + 1, other as int));
                        return false;
                    }
                    is_found = true;
                    proof {
                        found = (k + 1, slot as int);
                        assert forall|l: nat, other: int|
                            l <= k + 1 && #[trigger] overrides(
                                repo@,
                                this@,
                                name@,
                                typ@,
                                l,
                                other,
                            ) implies found == (l, other) by {
                            let entry = upper@.methods.entries[other];
                        }
                    }
                },
                None => {
                    proof {
                        assert forall|other: int| !#[trigger] overrides(
                            repo@,
                            this@,
                            name@,
                            typ@,
                            k + 1,
                            other,
                        ) by {
                            let entry = upper@.methods.entries[other];
                        }
                    }
                },
            }
        }
        proof {
            k = k + 1;
        }
    }
    proof {
        assert forall|l: nat, slot: int| #[trigger] overrides(
            repo@,
            this@,
            name@,
            typ@,
            l,
            slot,
        ) implies is_found && found == (l, slot) by {
            if l > k {
                crate::repo::lemma_nth_none(repo@, this@.id, k, l);
            }
        }
    }
    true
}

/// The class that a class extends.
pub open spec fn base_class(repo: RepoV, id: Seq<char>) -> Option<ClassTypeV> {
    if repo.is_class(id) {
        match repo.class(id).extends {
            Some(base) => if repo.is_class(base.id) {
                Some(repo.class(base.id))
            } else {
                None
            },
            None => None,
        }
    } else {
        None
    }
}

/// The error of extending a class that is final, told at that class. A class that is not from
/// source has no place to tell it at.
pub open spec fn final_base_errors(base: ClassTypeV) -> Seq<CompileErrorV> {
    match base.span {
        Some(span) => if base.flags.is_final {
            seq![CompileErrorV::Unsupported(Unsupported::ExtendingFinalClass, span)]
        } else {
            Seq::empty()
        },
        None => Seq::empty(),
    }
}

/// The method of a class that a body belongs to.
pub open spec fn body_id(this: ParameterizedV, func: CompileBodyV) -> MemberIdV {
    MemberIdV { owner: this.id, slot: func.slot }
}

/// The method that the method of a body overrides.
pub open spec fn body_base(repo: RepoV, this: ParameterizedV, func: CompileBodyV) -> Option<
    MemberIdV,
> {
    if func.is_static {
        None
    } else {
        base_method(repo, this, func.name, repo.class(this.id).methods.entries[func.slot].typ)
    }
}

/// The methods that the first `n` methods of a class override.
pub open spec fn class_bases(
    repo: RepoV,
    this: ParameterizedV,
    funcs: Seq<CompileBodyV>,
    n: int,
    bases: DictV<MemberIdV, MemberIdV>,
) -> DictV<MemberIdV, MemberIdV>
    decreases n,
{
    if n <= 0 {
        bases
    } else {
        let at = class_bases(repo, this, funcs, n - 1, bases);
        match body_base(repo, this, funcs[n - 1]) {
            Some(base) => at.put(body_id(this, funcs[n - 1]), base),
            None => at,
        }
    }
}

/// What is known of overriding: the errors, and for each method the one that it overrides.
pub struct BasesV {
    pub errors: Seq<CompileErrorV>,
    pub bases: DictV<MemberIdV, MemberIdV>,
}

pub open spec fn item_bases(repo: RepoV, item: ModuleItemV, at: BasesV) -> BasesV {
    match item {
        ModuleItemV::Class(this, _, funcs) => match base_class(repo, this.id) {
            Some(base) => BasesV {
                errors: at.errors + final_base_errors(base),
                bases: class_bases(repo, this, funcs, funcs.len() as int, at.bases),
            },
            None => at,
        },
        _ => at,
    }
}

pub open spec fn items_bases(repo: RepoV, items: Seq<ModuleItemV>, n: int, at: BasesV) -> BasesV
    decreases n,
{
    if n <= 0 {
        at
    } else {
        item_bases(repo, items[n - 1], items_bases(repo, items, n - 1, at))
    }
}

/// What is known of overriding after the first `n` modules.
pub open spec fn queue_bases(repo: RepoV, queue: Seq<ModuleV>, n: int, at: BasesV) -> BasesV
    decreases n,
{
    if n <= 0 {
        at
    } else {
        let items = queue[n - 1].items;
        items_bases(repo, items, items.len() as int, queue_bases(repo, queue, n - 1, at))
    }
}

/// Whether the method of a body is there, and overrides no more than one other.
pub open spec fn body_ok(repo: RepoV, this: ParameterizedV, func: CompileBodyV) -> bool {
    !func.is_static ==> {
        &&& repo.has_method(body_id(this, func))
        &&& one_base(
            repo,
            this,
            func.name,
            repo.class(this.id).methods.entries[func.slot].typ,
        )
    }
}

/// Whether a class and what it extends are there, the way up from it ends, and each of its methods
/// overrides no more than one other.
pub open spec fn item_ok(repo: RepoV, item: ModuleItemV) -> bool {
    match item {
        ModuleItemV::Class(this, _, funcs) => {
            &&& repo.has(this.id)
            &&& repo.is_class(this.id) ==> match repo.class(this.id).extends {
                Some(base) => repo.has(base.id),
                None => true,
            }
            &&& base_class(repo, this.id) is Some ==> {
                &&& has_depth(repo, this.id)
                &&& forall|i: int|
                    0 <= i < funcs.len() ==> body_ok(repo, this, #[trigger] funcs[i])
            }
        },
        _ => true,
    }
}

pub open spec fn queue_ok(repo: RepoV, queue: Seq<ModuleV>) -> bool {
    forall|i: int, j: int|
        #![trigger queue[i].items[j]]
        0 <= i < queue.len() && 0 <= j < queue[i].items.len() ==> item_ok(
            repo,
            queue[i].items[j],
        )
}

/// Whether each method that overrides another is a method of a class further down.
pub open spec fn bases_ok(repo: RepoV, bases: DictV<MemberIdV, MemberIdV>) -> bool {
    &&& bases.wf()
    &&& forall|id: MemberIdV| #[trigger]
        bases.has(id) ==> {
            &&& repo.has_method(id)
            &&& repo.has_method(bases.at(id))
            &&& has_depth(repo, id.owner)
            &&& has_depth(repo, bases.at(id).owner)
            &&& depth(repo, bases.at(id).owner) < depth(repo, id.owner)
        }
}

proof fn lemma_bases_put(
    repo: RepoV,
    bases: DictV<MemberIdV, MemberIdV>,
    this: ParameterizedV,
    func: CompileBodyV,
)
    requires
        bases_ok(repo, bases),
        has_depth(repo, this.id),
        body_ok(repo, this, func),
        body_base(repo, this, func) is Some,
    ensures
        bases_ok(repo, bases.put(body_id(this, func), body_base(repo, this, func)->0)),
{
    let id = body_id(this, func);
    let base = body_base(repo, this, func)->0;
    bases.lemma_put(id, base);
    lemma_base_method(
        repo,
        this,
        func.name,
        repo.class(this.id).methods.entries[func.slot].typ,
    );
    let after = bases.put(id, base);
    assert forall|other: MemberIdV| #[trigger] after.has(other) implies {
        &&& repo.has_method(other)
        &&& repo.has_method(after.at(other))
        &&& has_depth(repo, other.owner)
        &&& has_depth(repo, after.at(other).owner)
        &&& depth(repo, after.at(other).owner) < depth(repo, other.owner)
    } by {
        if other == id {
            assert(after.get(id) == Some(base));
        } else {
            assert(after.get(other) == bases.get(other));
            assert(bases.has(other));
        }
    }
}

/// Whether the methods of bodies are there and override no more than one other each.
fn are_bodies_ok(this: &Parameterized, funcs: &Vec<CompileBody>, repo: &TypeRepo) -> (res: bool)
    requires
        has_depth(repo@, this@.id),
    ensures
        res <==> forall|i: int|
            0 <= i < funcs@.len() ==> body_ok(repo@, this@, #[trigger] views(funcs@)[i]),
{
    let mut i: usize = 0;
    while i < funcs.len()
        invariant
            i <= funcs.len(),
            has_depth(repo@, this@.id),
            forall|k: int| 0 <= k < i ==> body_ok(repo@, this@, #[trigger] views(funcs@)[k]),
        decreases funcs.len() - i,
    {
        let func = &funcs[i];
        assert(views(funcs@)[i as int] == func@);
        if !func.is_static {
            let slot: usize = func.index.slot;
            let is_ok = match repo.get_class(&this.id) {
                Some(class) => slot < class.methods.len() && has_one_base(
                    &func.name,
                    this,
                    &class.methods.entry(slot).typ,
                    repo,
                ),
                None => false,
            };
            if !is_ok {
                assert(!body_ok(repo@, this@, views(funcs@)[i as int]));
                return false;
            }
        }
        i += 1;
    }
    true
}

/// Whether what overriding needs to know of an item is there.
fn is_item_ok(item: &ModuleItem, repo: &TypeRepo) -> (res: bool)
    ensures
        res == item_ok(repo@, item@),
{
    if let ModuleItem::Class(this, _, funcs) = item {
        assert(item@ matches ModuleItemV::Class(_, _, all) && all == views(funcs@));
        if repo.get_type(&this.id).is_none() {
            return false;
        }
        let base = match repo.get_class(&this.id) {
            Some(class) => match &class.extends {
                Some(base) => {
                    if repo.get_type(&base.id).is_none() {
                        return false;
                    }
                    repo.get_class(&base.id)
                },
                None => None,
            },
            None => None,
        };
        if base.is_some() {
            return repo.way_ends(&this.id) && are_bodies_ok(this, funcs, repo);
        }
    }
    true
}

/// Whether what overriding needs to know of all modules is there.
fn is_queue_ok(queue: &Vec<Module>, repo: &TypeRepo) -> (res: bool)
    ensures
        res == queue_ok(repo@, views(queue@)),
{
    let ghost all = views(queue@);
    let mut i: usize = 0;
    while i < queue.len()
        invariant
            i <= queue.len(),
            all == views(queue@),
            forall|k: int, j: int|
                #![trigger all[k].items[j]]
                0 <= k < i && 0 <= j < all[k].items.len() ==> item_ok(repo@, all[k].items[j]),
        decreases queue.len() - i,
    {
        let items = &queue[i].items;
        assert(all[i as int].items == views(items@));
        let mut j: usize = 0;
        while j < items.len()
            invariant
                i < queue.len(),
                all == views(queue@),
                j <= items.len(),
                all[i as int].items == views(items@),
                forall|k: int| 0 <= k < j ==> item_ok(repo@, #[trigger] all[i as int].items[k]),
            decreases items.len() - j,
        {
            assert(all[i as int].items[j as int] == items@[j as int]@);
            if !is_item_ok(&items[j], repo) {
                return false;
            }
            j += 1;
        }
        i += 1;
    }
    true
}

/// Notes for each method of a class which one it overrides.
fn note_class_bases(
    this: &Parameterized,
    funcs: &Vec<CompileBody>,
    repo: &TypeRepo,
    bases: &mut MemberDict<MemberId>,
)
    requires
        has_depth(repo@, this@.id),
        forall|i: int|
            0 <= i < funcs@.len() ==> body_ok(repo@, this@, #[trigger] views(funcs@)[i]),
        bases_ok(repo@, old(bases)@),
    ensures
        final(bases)@ == class_bases(
            repo@,
            this@,
            views(funcs@),
            funcs@.len() as int,
            old(bases)@,
        ),
        bases_ok(repo@, final(bases)@),
{
    let ghost start = bases@;
    let mut i: usize = 0;
    while i < funcs.len()
        invariant
            i <= funcs.len(),
            has_depth(repo@, this@.id),
            forall|k: int|
                0 <= k < funcs@.len() ==> body_ok(repo@, this@, #[trigger] views(funcs@)[k]),
            bases_ok(repo@, bases@),
            bases@ == class_bases(repo@, this@, views(funcs@), i as int, start),
        decreases funcs.len() - i,
    {
        let func = &funcs[i];
        assert(views(funcs@)[i as int] == func@);
        if !func.is_static {
            let class = repo.get_class(&this.id).unwrap();
            let entry = class.methods.entry(func.index.slot);
            let base = Compiler::get_base_method(&func.name, this, &entry.typ, repo);
            if let Some(base) = base {
                proof {
                    lemma_bases_put(repo@, bases@, this@, func@);
                }
                let _ = bases.insert(MemberId::new(&this.id, func.index.slot), base);
            }
        }
        i += 1;
    }
}

/// Notes for each method which one it overrides, and reports classes that extend a final one.
fn note_bases(queue: &Vec<Module>, repo: &TypeRepo, reporter: &mut ErrorReporter) -> (bases:
    MemberDict<MemberId>)
    requires
        queue_ok(repo@, views(queue@)),
    ensures
        (BasesV { errors: final(reporter)@, bases: bases@ }) == queue_bases(
            repo@,
            views(queue@),
            queue@.len() as int,
            (BasesV { errors: old(reporter)@, bases: DictV::empty() }),
        ),
        bases_ok(repo@, bases@),
{
    let mut bases: MemberDict<MemberId> = MemberDict::new();
    let ghost start = BasesV { errors: reporter@, bases: DictV::empty() };
    let mut i: usize = 0;
    while i < queue.len()
        invariant
            i <= queue.len(),
            queue_ok(repo@, views(queue@)),
            bases_ok(repo@, bases@),
            (BasesV { errors: reporter@, bases: bases@ }) == queue_bases(
                repo@,
                views(queue@),
                i as int,
                start,
            ),
        decreases queue.len() - i,
    {
        let items = &queue[i].items;
        assert(views(queue@)[i as int].items == views(items@));
        let ghost at = BasesV { errors: reporter@, bases: bases@ };
        let mut j: usize = 0;
        while j < items.len()
            invariant
                j <= items.len(),
                bases_ok(repo@, bases@),
                forall|k: int|
                    0 <= k < items@.len() ==> item_ok(repo@, #[trigger] views(items@)[k]),
                (BasesV { errors: reporter@, bases: bases@ }) == items_bases(
                    repo@,
                    views(items@),
                    j as int,
                    at,
                ),
            decreases items.len() - j,
        {
            assert(views(items@)[j as int] == items@[j as int]@);
            assert(item_ok(repo@, views(items@)[j as int]));
            note_item_bases(&items[j], repo, reporter, &mut bases);
            j += 1;
        }
        i += 1;
    }
    bases
}

fn note_item_bases(
    item: &ModuleItem,
    repo: &TypeRepo,
    reporter: &mut ErrorReporter,
    bases: &mut MemberDict<MemberId>,
)
    requires
        item_ok(repo@, item@),
        bases_ok(repo@, old(bases)@),
    ensures
        (BasesV { errors: final(reporter)@, bases: final(bases)@ }) == item_bases(
            repo@,
            item@,
            (BasesV { errors: old(reporter)@, bases: old(bases)@ }),
        ),
        bases_ok(repo@, final(bases)@),
{
    if let ModuleItem::Class(this, _, funcs) = item {
        let base = match repo.get_class(&this.id) {
            Some(class) => match &class.extends {
                Some(base) => repo.get_class(&base.id),
                None => None,
            },
            None => None,
        };
        if let Some(base) = base {
            assert(base_class(repo@, this@.id) == Some(base@));
            assert(item@ matches ModuleItemV::Class(_, _, all) && all == views(funcs@));
            let ghost before = reporter@;
            if let Some(span) = base.span {
                if base.flags.is_final {
                    reporter.report(
                        CompileError::Unsupported(Unsupported::ExtendingFinalClass, span),
                    );
                }
            }
            assert(reporter@ =~= before + final_base_errors(base@));
            note_class_bases(this, funcs, repo, bases);
        }
    }
}

/// A list of types with one more, which goes behind all those that are no deeper.
pub open spec fn insert_by_depth(repo: RepoV, types: Seq<Seq<char>>, id: Seq<char>) -> Seq<Seq<char>>
    decreases types.len(),
{
    if types.len() == 0 || depth(repo, types.last()) <= depth(repo, id) {
        types.push(id)
    } else {
        insert_by_depth(repo, types.drop_last(), id).push(types.last())
    }
}

/// The first `n` types, those with fewer classes above them first.
pub open spec fn sort_by_depth(repo: RepoV, types: Seq<Seq<char>>, n: int) -> Seq<Seq<char>>
    decreases n,
{
    if n <= 0 {
        Seq::empty()
    } else {
        insert_by_depth(repo, sort_by_depth(repo, types, n - 1), types[n - 1])
    }
}

/// Whether types are ordered by the number of classes above them.
pub open spec fn is_by_depth(repo: RepoV, types: Seq<Seq<char>>) -> bool {
    forall|i: int, j: int|
        0 <= i <= j < types.len() ==> depth(repo, #[trigger] types[i]) <= depth(
            repo,
            #[trigger] types[j],
        )
}

/// The types with a given number of classes above them.
pub open spec fn at_depth(repo: RepoV, types: Seq<Seq<char>>, d: nat) -> Seq<Seq<char>>
    decreases types.len(),
{
    if types.len() == 0 {
        Seq::empty()
    } else if depth(repo, types.last()) == d {
        at_depth(repo, types.drop_last(), d).push(types.last())
    } else {
        at_depth(repo, types.drop_last(), d)
    }
}

proof fn lemma_insert_is(repo: RepoV, types: Seq<Seq<char>>, id: Seq<char>, p: int)
    requires
        0 <= p <= types.len(),
        forall|i: int| p <= i < types.len() ==> depth(repo, #[trigger] types[i]) > depth(repo, id),
        p > 0 ==> depth(repo, types[p - 1]) <= depth(repo, id),
    ensures
        insert_by_depth(repo, types, id) == types.insert(p, id),
    decreases types.len(),
{
    if p == types.len() {
        assert(types.insert(p, id) =~= types.push(id));
    } else {
        lemma_insert_is(repo, types.drop_last(), id, p);
        assert(types.drop_last().insert(p, id).push(types.last()) =~= types.insert(p, id));
    }
}

proof fn lemma_insert_by_depth(repo: RepoV, types: Seq<Seq<char>>, id: Seq<char>)
    requires
        is_by_depth(repo, types),
    ensures
        ({
            let done = insert_by_depth(repo, types, id);
            &&& is_by_depth(repo, done)
            &&& done.to_multiset() == types.to_multiset().insert(id)
            &&& types.len() > 0 ==> depth(repo, done.last()) >= depth(repo, types.last())
            &&& done.len() == types.len() + 1
            &&& forall|d: nat| #[trigger]
                at_depth(repo, done, d) == at_depth(repo, types.push(id), d)
            &&& forall|i: int|
                0 <= i < done.len() ==> #[trigger] done[i] == id || depth(repo, done[i]) <= depth(
                    repo,
                    types.last(),
                )
        }),
    decreases types.len(),
{
    broadcast use vstd::seq_lib::group_to_multiset_ensures;

    let done = insert_by_depth(repo, types, id);
    if types.len() == 0 || depth(repo, types.last()) <= depth(repo, id) {
        assert forall|i: int, j: int| 0 <= i <= j < done.len() implies depth(
            repo,
            #[trigger] done[i],
        ) <= depth(repo, #[trigger] done[j]) by {
            if j == types.len() && i < types.len() {
                assert(depth(repo, types[i]) <= depth(repo, types[types.len() - 1]));
            }
        }
        assert forall|i: int| 0 <= i < done.len() implies #[trigger] done[i] == id || depth(
            repo,
            done[i],
        ) <= depth(repo, types.last()) by {
            if i < types.len() {
                assert(depth(repo, types[i]) <= depth(repo, types[types.len() - 1]));
            }
        }
    } else {
        let rest = types.drop_last();
        let last = types.last();
        assert(is_by_depth(repo, rest)) by {
            assert forall|i: int, j: int| 0 <= i <= j < rest.len() implies depth(
                repo,
                #[trigger] rest[i],
            ) <= depth(repo, #[trigger] rest[j]) by {
                assert(rest[i] == types[i] && rest[j] == types[j]);
            }
        }
        lemma_insert_by_depth(repo, rest, id);
        let inner = insert_by_depth(repo, rest, id);
        assert forall|i: int| 0 <= i < inner.len() implies depth(repo, #[trigger] inner[i])
            <= depth(repo, last) by {
            if inner[i] != id && rest.len() > 0 {
                assert(depth(repo, types[rest.len() - 1]) <= depth(repo, types[types.len() - 1]));
            } else if inner[i] != id {
                assert(inner =~= seq![id]);
            }
        }
        assert(types =~= rest.push(last));
        assert(done.to_multiset() =~= types.to_multiset().insert(id));
        assert forall|d: nat| #[trigger] at_depth(repo, done, d) == at_depth(
            repo,
            types.push(id),
            d,
        ) by {
            assert(done.drop_last() =~= inner);
            assert(types.push(id).drop_last() =~= types);
            assert(rest.push(id).drop_last() =~= rest);
            assert(at_depth(repo, inner, d) == at_depth(repo, rest.push(id), d));
            let one = at_depth(repo, types, d);
            let two = at_depth(repo, rest, d);
            assert(one == if depth(repo, last) == d {
                two.push(last)
            } else {
                two
            });
            assert(at_depth(repo, inner, d) == if depth(repo, id) == d {
                two.push(id)
            } else {
                two
            });
        }
    }
}

/// Sorting types by depth keeps all of them, puts a class behind the classes above it, and keeps
/// the order of types that are equally deep.
pub proof fn law_sort_by_depth(repo: RepoV, types: Seq<Seq<char>>, n: int)
    requires
        0 <= n <= types.len(),
    ensures
        is_by_depth(repo, sort_by_depth(repo, types, n)),
        sort_by_depth(repo, types, n).to_multiset() == types.take(n).to_multiset(),
        forall|d: nat| #[trigger]
            at_depth(repo, sort_by_depth(repo, types, n), d) == at_depth(repo, types.take(n), d),
    decreases n,
{
    broadcast use vstd::seq_lib::group_to_multiset_ensures;

    if n == 0 {
        assert(types.take(0) =~= Seq::empty());
    } else {
        law_sort_by_depth(repo, types, n - 1);
        let so_far = sort_by_depth(repo, types, n - 1);
        lemma_insert_by_depth(repo, so_far, types[n - 1]);
        assert(types.take(n) =~= types.take(n - 1).push(types[n - 1]));
        assert forall|d: nat| #[trigger] at_depth(
            repo,
            sort_by_depth(repo, types, n),
            d,
        ) == at_depth(repo, types.take(n), d) by {
            assert(so_far.push(types[n - 1]).drop_last() =~= so_far);
            assert(types.take(n).drop_last() =~= types.take(n - 1));
            assert(at_depth(repo, so_far, d) == at_depth(repo, types.take(n - 1), d));
            assert(at_depth(repo, so_far.push(types[n - 1]), d) == at_depth(
                repo,
                types.take(n),
                d,
            ));
        }
    }
}

/// Sorts types by the number of classes above them.
fn sort_types(types: Vec<TypeId>, repo: &TypeRepo) -> (res: Vec<TypeId>)
    requires
        forall|i: int| 0 <= i < types@.len() ==> has_depth(repo@, (#[trigger] types@[i])@),
    ensures
        views(res@) == sort_by_depth(repo@, views(types@), types@.len() as int),
{
    broadcast use crate::dict::group_views;

    let ghost all = types@;
    let mut res: Vec<TypeId> = Vec::new();
    let mut depths: Vec<usize> = Vec::new();
    for id in iter: types
        invariant
            iter.seq() == all,
            forall|i: int| 0 <= i < all.len() ==> has_depth(repo@, (#[trigger] all[i])@),
            depths@.len() == res@.len(),
            forall|i: int|
                0 <= i < res@.len() ==> #[trigger] depths@[i] == depth(repo@, views(res@)[i]),
            views(res@) == sort_by_depth(repo@, views(all), iter.index() as int),
    {
        assert(id == all[iter.index() as int]);
        assert(views(all)[iter.index() as int] == id@);
        let d = repo.upper_count(&id);
        let mut p: usize = res.len();
        while p > 0 && depths[p - 1] > d
            invariant
                p <= res.len(),
                d == depth(repo@, id@),
                depths@.len() == res@.len(),
                forall|i: int|
                    0 <= i < res@.len() ==> #[trigger] depths@[i] == depth(repo@, views(res@)[i]),
                forall|i: int| p <= i < res@.len() ==> depth(repo@, #[trigger] views(res@)[i]) > d,
            decreases p,
        {
            p -= 1;
            assert(depths@[p as int] == depth(repo@, views(res@)[p as int]));
        }
        proof {
            if p > 0 {
                assert(depths@[p - 1] == depth(repo@, views(res@)[p - 1]));
            }
            lemma_insert_is(repo@, views(res@), id@, p as int);
        }
        let ghost was = res@;
        let ghost was_depths = depths@;
        let ghost name = id@;
        res.insert(p, id);
        depths.insert(p, d);
        proof {
            assert(views(res@) =~= views(was).insert(p as int, name));
            assert forall|i: int| 0 <= i < res@.len() implies #[trigger] depths@[i] == depth(
                repo@,
                views(res@)[i],
            ) by {
                if i < p {
                    assert(depths@[i] == was_depths[i]);
                } else if i > p {
                    assert(depths@[i] == was_depths[i - 1]);
                    assert(views(res@)[i] == views(was)[i - 1]);
                }
            }
        }
    }
    res
}

/// The methods without a body that a class has, after its first `n` own methods: a method without
/// a body joins those that the class inherits, a method with one takes the one it overrides away.
pub open spec fn missing(
    repo: RepoV,
    bases: DictV<MemberIdV, MemberIdV>,
    id: Seq<char>,
    inherited: Set<MemberIdV>,
    n: int,
) -> Set<MemberIdV>
    decreases n,
{
    if n <= 0 {
        inherited
    } else {
        let at = missing(repo, bases, id, inherited, n - 1);
        let own = MemberIdV { owner: id, slot: n - 1 };
        if !repo.class(id).methods.entries[n - 1].is_implemented() {
            at.insert(own)
        } else if bases.has(own) {
            at.remove(bases.at(own))
        } else {
            at
        }
    }
}

/// The methods without a body that a class inherits. Only classes from source hand any down.
pub open spec fn inherited(
    repo: RepoV,
    known: DictV<Seq<char>, Set<MemberIdV>>,
    id: Seq<char>,
) -> Set<MemberIdV> {
    match repo.class(id).extends {
        Some(base) => if known.has(base.id) {
            known.at(base.id)
        } else {
            Set::empty()
        },
        None => Set::empty(),
    }
}

/// The methods without a body that a class is left with.
pub open spec fn class_missing(
    repo: RepoV,
    bases: DictV<MemberIdV, MemberIdV>,
    known: DictV<Seq<char>, Set<MemberIdV>>,
    id: Seq<char>,
) -> Set<MemberIdV> {
    missing(
        repo,
        bases,
        id,
        inherited(repo, known, id),
        repo.class(id).methods.entries.len() as int,
    )
}

/// The methods without a body that each of the first `n` types is left with.
pub open spec fn all_missing(
    repo: RepoV,
    bases: DictV<MemberIdV, MemberIdV>,
    types: Seq<Seq<char>>,
    n: int,
) -> DictV<Seq<char>, Set<MemberIdV>>
    decreases n,
{
    if n <= 0 {
        DictV::empty()
    } else {
        let known = all_missing(repo, bases, types, n - 1);
        if repo.is_class(types[n - 1]) {
            known.put(types[n - 1], class_missing(repo, bases, known, types[n - 1]))
        } else {
            known
        }
    }
}

/// The methods that the type at a place has to have a body for and has not.
pub open spec fn owed(
    repo: RepoV,
    bases: DictV<MemberIdV, MemberIdV>,
    types: Seq<Seq<char>>,
    i: int,
) -> Set<MemberIdV> {
    if repo.is_class(types[i]) && !repo.class(types[i]).flags.is_abstract {
        class_missing(repo, bases, all_missing(repo, bases, types, i), types[i])
    } else {
        Set::empty()
    }
}

/// The name of a method.
pub open spec fn method_name(repo: RepoV, id: MemberIdV) -> Seq<char> {
    repo.class(id.owner).methods.name_of(id.slot).name
}

/// The errors of a class that has no body for these methods, in this order.
pub open spec fn missing_errors(repo: RepoV, walk: Seq<MemberIdV>, span: Option<Span>) -> Seq<
    CompileErrorV,
> {
    Seq::new(
        walk.len(),
        |i: int| CompileErrorV::UnimplementedMethod(method_name(repo, walk[i]), span->0),
    )
}

/// The errors of the first `n` types. `walks` are the methods of each, in the order in which they
/// are told.
pub open spec fn all_errors(
    repo: RepoV,
    types: Seq<Seq<char>>,
    n: int,
    walks: Seq<Seq<MemberIdV>>,
) -> Seq<CompileErrorV>
    decreases n,
{
    if n <= 0 {
        Seq::empty()
    } else {
        all_errors(repo, types, n - 1, walks) + missing_errors(
            repo,
            walks[n - 1],
            repo.class(types[n - 1]).span,
        )
    }
}

/// Whether a walk tells each method of a set once.
pub open spec fn tells(walk: Seq<MemberIdV>, set: Set<MemberIdV>) -> bool {
    walk.no_duplicates() && walk.to_set() == set
}

/// Whether each walk tells what the type at the same place has no body for.
pub open spec fn tells_all(
    repo: RepoV,
    bases: DictV<MemberIdV, MemberIdV>,
    types: Seq<Seq<char>>,
    walks: Seq<Seq<MemberIdV>>,
) -> bool {
    &&& walks.len() <= types.len()
    &&& forall|i: int|
        0 <= i < walks.len() ==> tells(#[trigger] walks[i], owed(repo, bases, types, i))
}

/// Whether a type is there, and has a place where it is a class whose errors are to be told.
pub open spec fn type_told(
    repo: RepoV,
    bases: DictV<MemberIdV, MemberIdV>,
    types: Seq<Seq<char>>,
    i: int,
) -> bool {
    &&& repo.has(types[i])
    &&& !(owed(repo, bases, types, i) =~= Set::empty()) ==> repo.class(types[i]).span is Some
}

/// Whether the errors of all types can be told.
pub open spec fn types_ok(
    repo: RepoV,
    bases: DictV<MemberIdV, MemberIdV>,
    types: Seq<Seq<char>>,
) -> bool {
    forall|i: int| 0 <= i < types.len() ==> #[trigger] type_told(repo, bases, types, i)
}

/// Whether only methods that are there are missing a body.
spec fn all_there(repo: RepoV, known: DictV<Seq<char>, Set<MemberIdV>>) -> bool {
    forall|id: Seq<char>, method: MemberIdV|
        known.has(id) && #[trigger] known.at(id).contains(method) ==> repo.has_method(method)
}

/// The methods without a body that a class is left with.
fn find_missing(
    id: &TypeId,
    class: &ClassType,
    inherited: MemberSet,
    bases: &MemberDict<MemberId>,
    Ghost(repo): Ghost<RepoV>,
) -> (res: MemberSet)
    requires
        repo.is_class(id@),
        class@ == repo.class(id@),
        forall|method: MemberIdV| #[trigger]
            inherited@.contains(method) ==> repo.has_method(method),
    ensures
        res@ == missing(
            repo,
            bases@,
            id@,
            inherited@,
            repo.class(id@).methods.entries.len() as int,
        ),
        forall|method: MemberIdV| #[trigger] res@.contains(method) ==> repo.has_method(method),
{
    let ghost start = inherited@;
    let mut res = inherited;
    let n: usize = class.methods.len();
    let mut slot: usize = 0;
    while slot < n
        invariant
            slot <= n,
            repo.is_class(id@),
            class@ == repo.class(id@),
            n == class@.methods.entries.len(),
            res@ == missing(repo, bases@, id@, start, slot as int),
            forall|method: MemberIdV| #[trigger] res@.contains(method) ==> repo.has_method(method),
        decreases n - slot,
    {
        let own = MemberId::new(id, slot);
        if !class.methods.entry(slot).is_implemented() {
            member_set_insert(&mut res, &own);
        } else if let Some(base) = bases.get(&own) {
            member_set_remove(&mut res, base);
        }
        slot += 1;
    }
    res
}

/// Reports that a class has no body for these methods.
pub fn report_missing(
    walk: &Vec<MemberId>,
    span: Option<Span>,
    repo: &TypeRepo,
    reporter: &mut ErrorReporter,
)
    requires
        walk@.len() > 0 ==> span is Some,
        forall|i: int| 0 <= i < walk@.len() ==> repo@.has_method((#[trigger] walk@[i])@),
    ensures
        final(reporter)@ == old(reporter)@ + missing_errors(repo@, views(walk@), span),
{
    let ghost start = reporter@;
    let mut i: usize = 0;
    while i < walk.len()
        invariant
            i <= walk.len(),
            walk@.len() > 0 ==> span is Some,
            forall|k: int| 0 <= k < walk@.len() ==> repo@.has_method((#[trigger] walk@[k])@),
            reporter@ =~= start + missing_errors(repo@, views(walk@), span).take(i as int),
        decreases walk.len() - i,
    {
        let id = &walk[i];
        assert(repo@.has_method(walk@[i as int]@));
        let class = repo.get_class(&id.owner).unwrap();
        let name = class.methods.name_of(id.slot);
        reporter.report(CompileError::UnimplementedMethod(name.name.clone(), span.unwrap()));
        proof {
            let all = missing_errors(repo@, views(walk@), span);
            assert(views(walk@)[i as int] == walk@[i as int]@);
            assert(all.take(i + 1) =~= all.take(i as int).push(all[i as int]));
        }
        i += 1;
    }
    proof {
        let all = missing_errors(repo@, views(walk@), span);
        assert(all.take(walk@.len() as int) =~= all);
    }
}

/// Reports all methods that classes have no body for, and says whether that was possible. Gives
/// the order in which they are told.
fn report_all_missing(
    types: &Vec<TypeId>,
    bases: &MemberDict<MemberId>,
    repo: &TypeRepo,
    reporter: &mut ErrorReporter,
) -> (res: (bool, Ghost<Seq<Seq<MemberIdV>>>))
    ensures
        res.0 == types_ok(repo@, bases@, views(types@)),
        res.0 ==> {
            &&& res.1@.len() == types@.len()
            &&& tells_all(repo@, bases@, views(types@), res.1@)
            &&& final(reporter)@ == old(reporter)@ + all_errors(
                repo@,
                views(types@),
                types@.len() as int,
                res.1@,
            )
        },
{
    let ghost start = reporter@;
    let ghost all = views(types@);
    let ghost mut walks: Seq<Seq<MemberIdV>> = Seq::empty();
    let mut known: NameDict<MemberSet> = NameDict::new();
    let mut i: usize = 0;
    assert(reporter@ =~= start + all_errors(repo@, all, 0, walks));
    while i < types.len()
        invariant
            i <= types.len(),
            all == views(types@),
            forall|k: int| 0 <= k < i ==> type_told(repo@, bases@, all, k),
            known@.wf(),
            known@ == all_missing(repo@, bases@, all, i as int),
            all_there(repo@, known@),
            walks.len() == i,
            tells_all(repo@, bases@, all, walks),
            reporter@ == start + all_errors(repo@, all, i as int, walks),
        decreases types.len() - i,
    {
        let id = &types[i];
        assert(all[i as int] == id@);
        let ghost mut walk: Seq<MemberIdV> = Seq::empty();
        let ghost before = reporter@;
        let ghost was = known@;
        if repo.get_type(id).is_none() {
            assert(!type_told(repo@, bases@, all, i as int));
            return (false, Ghost(walks));
        }
        if let Some(class) = repo.get_class(id) {
            let start_set = match &class.extends {
                Some(base) => match known.get(&base.id) {
                    Some(set) => member_set_clone(set),
                    None => member_set_new(),
                },
                None => member_set_new(),
            };
            assert(start_set@ == inherited(repo@, known@, id@));
            let set = find_missing(id, class, start_set, bases, Ghost(repo@));
            if !class.flags.is_abstract {
                let told = member_set_iter(&set);
                proof {
                    walk = views(told@);
                    assert forall|k: int| 0 <= k < told@.len() implies repo@.has_method(
                        (#[trigger] told@[k])@,
                    ) by {
                        assert(walk[k] == told@[k]@);
                        assert(walk.to_set().contains(walk[k]));
                    }
                    if told@.len() > 0 {
                        assert(walk.to_set().contains(walk[0]));
                        assert(owed(repo@, bases@, all, i as int).contains(walk[0]));
                    }
                }
                if told.len() > 0 && class.span.is_none() {
                    assert(!type_told(repo@, bases@, all, i as int));
                    return (false, Ghost(walks));
                }
                report_missing(&told, class.span, repo, reporter);
            }
            let ghost left = set@;
            known.insert(id.clone(), set);
            proof {
                was.lemma_put(id@, left);
                assert forall|other: Seq<char>, method: MemberIdV|
                    known@.has(other) && #[trigger] known@.at(other).contains(method) implies repo@.has_method(
                method) by {
                    if other == id@ {
                        assert(known@.get(other) == Some(left));
                    } else {
                        assert(known@.get(other) == was.get(other));
                        assert(was.has(other));
                    }
                }
            }
        }
        proof {
            let more = walks.push(walk);
            lemma_errors_agree(repo@, all, i as int, walks, more);
            let one = missing_errors(repo@, walk, repo@.class(all[i as int]).span);
            assert(all_errors(repo@, all, i + 1, more) == all_errors(repo@, all, i as int, walks)
                + one);
            assert(before + one =~= start + all_errors(repo@, all, i + 1, more));
            assert(walk =~= Seq::empty() ==> before + one =~= before);
            assert(walk.to_set() =~= owed(repo@, bases@, all, i as int));
            assert forall|k: int| 0 <= k < more.len() implies tells(
                #[trigger] more[k],
                owed(repo@, bases@, all, k),
            ) by {
                if k < walks.len() {
                    assert(more[k] == walks[k]);
                }
            }
            walks = more;
            assert(type_told(repo@, bases@, all, i as int));
        }
        i += 1;
    }
    (true, Ghost(walks))
}

proof fn lemma_errors_agree(
    repo: RepoV,
    types: Seq<Seq<char>>,
    n: int,
    walks: Seq<Seq<MemberIdV>>,
    others: Seq<Seq<MemberIdV>>,
)
    requires
        forall|i: int| 0 <= i < n ==> walks[i] == others[i],
    ensures
        all_errors(repo, types, n, walks) == all_errors(repo, types, n, others),
    decreases n,
{
    if n > 0 {
        lemma_errors_agree(repo, types, n - 1, walks, others);
        assert(walks[n - 1] == others[n - 1]);
    }
}

/// The method at the top of a chain of overriding methods.
pub open spec fn root(repo: RepoV, bases: DictV<MemberIdV, MemberIdV>, id: MemberIdV) -> MemberIdV
    decreases depth(repo, id.owner),
{
    if bases.has(id) && depth(repo, bases.at(id).owner) < depth(repo, id.owner) {
        root(repo, bases, bases.at(id))
    } else {
        id
    }
}

/// A method of a repository.
pub open spec fn method_at(repo: RepoV, id: MemberIdV) -> FuncEntryV {
    repo.class(id.owner).methods.entries[id.slot]
}

/// Whether a method with this type returns a type variable that the overriding one has filled in.
pub open spec fn fills_ret(top: FuncTypeV, own: FuncTypeV) -> bool {
    top.ret is Var && !(own.ret is Var)
}

/// Which parameters are type variables that the overriding method has filled in.
pub open spec fn fills_params(top: FuncTypeV, own: FuncTypeV) -> Seq<bool> {
    Seq::new(
        if top.params.len() <= own.params.len() {
            top.params.len()
        } else {
            own.params.len()
        },
        |i: int| top.params[i].typ is Var && !(own.params[i].typ is Var),
    )
}

/// The repository with one method marked as overriding `base`, where `top` is at the top of the
/// chain.
pub open spec fn promote_one(at: RepoV, id: MemberIdV, base: MemberIdV, top: MemberIdV) -> RepoV {
    promote_method(
        at,
        id,
        base,
        fills_ret(method_at(at, top).typ, method_at(at, id).typ),
        fills_params(method_at(at, top).typ, method_at(at, id).typ),
    )
}

/// The repository with the first `n` overriding methods marked.
pub open spec fn promote_all(repo: RepoV, bases: DictV<MemberIdV, MemberIdV>, n: int) -> RepoV
    decreases n,
{
    if n <= 0 {
        repo
    } else {
        promote_one(
            promote_all(repo, bases, n - 1),
            bases.keys[n - 1],
            bases.vals[n - 1],
            root(repo, bases, bases.vals[n - 1]),
        )
    }
}

/// Whether two repositories have the same classes with as many methods each.
pub open spec fn same_methods(a: RepoV, b: RepoV) -> bool {
    forall|id: MemberIdV| #[trigger] a.has_method(id) <==> b.has_method(id)
}

proof fn lemma_promote_keeps_methods(
    repo: RepoV,
    id: MemberIdV,
    base: MemberIdV,
    is_ret_poly: bool,
    poly: Seq<bool>,
)
    requires
        repo.types.wf(),
        repo.has_method(id),
    ensures
        same_methods(repo, promote_method(repo, id, base, is_ret_poly, poly)),
        promote_method(repo, id, base, is_ret_poly, poly).types.wf(),
        forall|other: MemberIdV|
            other != id && repo.has_method(other) ==> #[trigger] method_at(
                promote_method(repo, id, base, is_ret_poly, poly),
                other,
            ) == method_at(repo, other),
        method_at(promote_method(repo, id, base, is_ret_poly, poly), id)
            == crate::funcs::promoted(method_at(repo, id), base, is_ret_poly, poly),
{
    let after = promote_method(repo, id, base, is_ret_poly, poly);
    let class = after.types.at(id.owner);
    repo.types.lemma_put(id.owner, class);
    assert(after.types.get(id.owner) == Some(class));
    assert forall|other: MemberIdV| #[trigger]
        repo.has_method(other) <==> after.has_method(other) by {
        if other.owner != id.owner {
            assert(after.types.get(other.owner) == repo.types.get(other.owner));
            assert(after.types.has(other.owner) == repo.types.has(other.owner));
        }
    }
    assert forall|other: MemberIdV| other != id && repo.has_method(other) implies #[trigger] method_at(
        after,
        other,
    ) == method_at(repo, other) by {
        if other.owner != id.owner {
            assert(after.types.get(other.owner) == repo.types.get(other.owner));
            assert(after.types.has(other.owner) == repo.types.has(other.owner));
        }
    }
}

/// The top of a chain of overriding methods.
fn find_root(
    bases: &MemberDict<MemberId>,
    id: &MemberId,
    Ghost(repo): Ghost<RepoV>,
) -> (res: MemberId)
    requires
        bases_ok(repo, bases@),
        repo.has_method(id@),
    ensures
        res@ == root(repo, bases@, id@),
        repo.has_method(res@),
{
    let mut at = id.dup();
    let mut next: Option<MemberId> = match bases.get(&at) {
        Some(base) => Some(base.dup()),
        None => None,
    };
    while next.is_some()
        invariant
            bases_ok(repo, bases@),
            repo.has_method(at@),
            root(repo, bases@, id@) == root(repo, bases@, at@),
            match next {
                Some(base) => bases@.has(at@) && base@ == bases@.at(at@),
                None => !bases@.has(at@),
            },
        decreases
                depth(repo, at@.owner) + if next is Some {
                    1int
                } else {
                    0
                },
    {
        at = next.unwrap();
        next = match bases.get(&at) {
            Some(base) => Some(base.dup()),
            None => None,
        };
    }
    at
}

/// Which parameters are type variables that the overriding method has filled in.
fn find_filled(top: &FuncType, own: &FuncType) -> (res: Vec<bool>)
    ensures
        res@ == fills_params(top@, own@),
{
    let mut res: Vec<bool> = Vec::new();
    let mut i: usize = 0;
    while i < top.params.len() && i < own.params.len()
        invariant
            i <= top.params.len(),
            i <= own.params.len(),
            res@.len() == i,
            forall|j: int| 0 <= j < i ==> #[trigger] res@[j] == fills_params(top@, own@)[j],
        decreases top.params.len() - i,
    {
        assert(top@.params[i as int] == top.params@[i as int]@);
        assert(own@.params[i as int] == own.params@[i as int]@);
        res.push(top.params[i].typ.is_var() && !own.params[i].typ.is_var());
        i += 1;
    }
    assert(res@ =~= fills_params(top@, own@));
    res
}

/// Marks all overriding methods.
fn promote_methods(repo: &mut TypeRepo, bases: &MemberDict<MemberId>)
    requires
        bases_ok(old(repo)@, bases@),
    ensures
        final(repo)@ == promote_all(old(repo)@, bases@, bases@.keys.len() as int),
{
    let ghost before = repo@;
    let n: usize = bases.len();
    let mut i: usize = 0;
    while i < n
        invariant
            i <= n,
            n == bases@.keys.len(),
            bases_ok(before, bases@),
            same_methods(before, repo@),
            repo@ == promote_all(before, bases@, i as int),
        decreases n - i,
    {
        let id = bases.key_at(i);
        let base = bases.val_at(i);
        proof {
            assert(bases@.keys.contains(id@));
            assert(bases@.keys.index_of(id@) == i);
            assert(bases@.has(id@));
            assert(bases@.at(id@) == base@);
        }
        let top = find_root(bases, base, Ghost(before));
        assert(before.has_method(top@) && before.has_method(id@));
        let own_class = repo.get_class(&id.owner).unwrap();
        let top_class = repo.get_class(&top.owner).unwrap();
        let own_entry = own_class.methods.entry(id.slot);
        let top_entry = top_class.methods.entry(top.slot);
        let is_ret_poly = top_entry.typ.ret.is_var() && !own_entry.typ.ret.is_var();
        let poly = find_filled(&top_entry.typ, &own_entry.typ);
        proof {
            lemma_promote_keeps_methods(repo@, id@, base@, is_ret_poly, poly@);
        }
        repo.promote_method(id, base.dup(), is_ret_poly, &poly);
        assert forall|other: MemberIdV| #[trigger]
            before.has_method(other) <==> repo@.has_method(other) by {}
        i += 1;
    }
}

/// What overriding makes of a compiler. `walks` are the methods without a body of each type, in
/// the order in which they are told.
pub open spec fn inherit(c: CompilerV, walks: Seq<Seq<MemberIdV>>) -> CompilerV {
    let known = bases_of(c);
    let types = sort_by_depth(c.repo, c.defined, c.defined.len() as int);
    CompilerV {
        repo: promote_all(c.repo, known.bases, known.bases.keys.len() as int),
        defined: types,
        errors: known.errors + all_errors(c.repo, types, types.len() as int, walks),
        ..c
    }
}

/// What is known of overriding after all modules.
pub open spec fn bases_of(c: CompilerV) -> BasesV {
    queue_bases(
        c.repo,
        c.queue,
        c.queue.len() as int,
        BasesV { errors: c.errors, bases: DictV::empty() },
    )
}

/// Whether overriding can be worked out: classes are there, the ways up from them end, no method
/// overrides two others, and errors have a place.
pub open spec fn inherit_ok(c: CompilerV) -> bool {
    &&& queue_ok(c.repo, c.queue)
    &&& forall|i: int| 0 <= i < c.defined.len() ==> has_depth(c.repo, #[trigger] c.defined[i])
    &&& types_ok(
        c.repo,
        bases_of(c).bases,
        sort_by_depth(c.repo, c.defined, c.defined.len() as int),
    )
}

/// Whether this is what overriding may make of a compiler.
pub open spec fn is_inherited(c: CompilerV, after: CompilerV) -> bool {
    exists|walks: Seq<Seq<MemberIdV>>|
        {
            &&& walks.len() == c.defined.len()
            &&& #[trigger] tells_all(
                c.repo,
                bases_of(c).bases,
                sort_by_depth(c.repo, c.defined, c.defined.len() as int),
                walks,
            )
            &&& after == inherit(c, walks)
        }
}

pub proof fn lemma_sort_len(repo: RepoV, types: Seq<Seq<char>>, n: int)
    requires
        0 <= n <= types.len(),
    ensures
        sort_by_depth(repo, types, n).len() == n,
    decreases n,
{
    if n > 0 {
        lemma_sort_len(repo, types, n - 1);
        lemma_insert_len(repo, sort_by_depth(repo, types, n - 1), types[n - 1]);
    }
}

proof fn lemma_insert_len(repo: RepoV, types: Seq<Seq<char>>, id: Seq<char>)
    ensures
        insert_by_depth(repo, types, id).len() == types.len() + 1,
    decreases types.len(),
{
    if types.len() > 0 {
        lemma_insert_len(repo, types.drop_last(), id);
    }
}

/// Whether the ways up from all types end.
fn do_ways_end(types: &Vec<TypeId>, repo: &TypeRepo) -> (res: bool)
    ensures
        res <==> forall|i: int|
            0 <= i < types@.len() ==> has_depth(repo@, #[trigger] views(types@)[i]),
{
    let mut i: usize = 0;
    while i < types.len()
        invariant
            i <= types.len(),
            forall|k: int| 0 <= k < i ==> has_depth(repo@, #[trigger] views(types@)[k]),
        decreases types.len() - i,
    {
        assert(views(types@)[i as int] == types@[i as int]@);
        if !repo.way_ends(&types[i]) {
            return false;
        }
        i += 1;
    }
    true
}

impl Compiler {
    /// Works out which methods override which, reports classes that extend a final class or have
    /// no body for a method, and marks the methods that override. Says whether that was possible.
    pub fn process_inheritance(&mut self) -> (res: bool)
        ensures
            res == inherit_ok(old(self)@),
            res ==> is_inherited(old(self)@, final(self)@),
    {
        let ghost before = self@;
        if !is_queue_ok(&self.compile_queue, &self.repo) || !do_ways_end(
            &self.defined_types,
            &self.repo,
        ) {
            return false;
        }
        let bases = note_bases(&self.compile_queue, &self.repo, &mut self.reporter);
        let mut types: Vec<TypeId> = Vec::new();
        std::mem::swap(&mut types, &mut self.defined_types);
        proof {
            assert forall|i: int| 0 <= i < types@.len() implies has_depth(
                before.repo,
                (#[trigger] types@[i])@,
            ) by {
                assert(before.defined[i] == types@[i]@);
            }
            lemma_sort_len(before.repo, before.defined, before.defined.len() as int);
        }
        self.defined_types = sort_types(types, &self.repo);
        let (is_told, Ghost(walks)) = report_all_missing(
            &self.defined_types,
            &bases,
            &self.repo,
            &mut self.reporter,
        );
        if !is_told {
            return false;
        }
        promote_methods(&mut self.repo, &bases);
        assert(self@ == inherit(before, walks));
        true
    }
}

/// In the sorted list a class comes behind every class above it.
pub proof fn law_base_comes_first(repo: RepoV, types: Seq<Seq<char>>, i: int, j: int, k: nat)
    requires
        ({
            let sorted = sort_by_depth(repo, types, types.len() as int);
            &&& 0 <= i < sorted.len()
            &&& 0 <= j < sorted.len()
            &&& has_depth(repo, sorted[i])
            &&& k > 0
            &&& nth_upper(repo, sorted[i], k) == Some(sorted[j])
        }),
    ensures
        j < i,
{
    let sorted = sort_by_depth(repo, types, types.len() as int);
    law_sort_by_depth(repo, types, types.len() as int);
    lemma_upper_depth(repo, sorted[i], k);
    if i <= j {
        assert(depth(repo, sorted[i]) <= depth(repo, sorted[j]));
    }
}

/// What promotion makes of a method: one that overrides another says which, and is polymorphic
/// where the method at the top of the chain has a type variable that it has filled in; any other
/// method stays as it is.
pub open spec fn promoted_method(
    repo: RepoV,
    bases: DictV<MemberIdV, MemberIdV>,
    id: MemberIdV,
) -> FuncEntryV {
    let own = method_at(repo, id);
    if bases.has(id) {
        let top = method_at(repo, root(repo, bases, bases.at(id)));
        crate::funcs::promoted(
            own,
            bases.at(id),
            fills_ret(top.typ, own.typ),
            fills_params(top.typ, own.typ),
        )
    } else {
        own
    }
}

/// Whether two methods have the same types for their parameters and their result.
spec fn same_types(a: FuncTypeV, b: FuncTypeV) -> bool {
    &&& a.ret == b.ret
    &&& a.params.len() == b.params.len()
    &&& forall|i: int|
        0 <= i < a.params.len() ==> (#[trigger] a.params[i]).typ == b.params[i].typ
}

proof fn lemma_fills(top: FuncTypeV, own: FuncTypeV, other: FuncTypeV)
    requires
        same_types(top, other),
    ensures
        fills_ret(top, own) == fills_ret(other, own),
        fills_params(top, own) == fills_params(other, own),
{
    assert(fills_params(top, own) =~= fills_params(other, own));
}

proof fn lemma_root_method(repo: RepoV, bases: DictV<MemberIdV, MemberIdV>, id: MemberIdV)
    requires
        bases_ok(repo, bases),
        repo.has_method(id),
    ensures
        repo.has_method(root(repo, bases, id)),
    decreases depth(repo, id.owner),
{
    if bases.has(id) {
        lemma_root_method(repo, bases, bases.at(id));
    }
}

proof fn lemma_promote_all(repo: RepoV, bases: DictV<MemberIdV, MemberIdV>, n: int)
    requires
        repo.types.wf(),
        bases_ok(repo, bases),
        0 <= n <= bases.keys.len(),
    ensures
        ({
            let at = promote_all(repo, bases, n);
            &&& at.types.wf()
            &&& same_methods(repo, at)
            &&& forall|id: MemberIdV| #[trigger]
                repo.has_method(id) ==> method_at(at, id) == if bases.has(id)
                    && bases.keys.index_of(id) < n {
                    promoted_method(repo, bases, id)
                } else {
                    method_at(repo, id)
                }
        }),
    decreases n,
{
    if n > 0 {
        lemma_promote_all(repo, bases, n - 1);
        let at = promote_all(repo, bases, n - 1);
        let id = bases.keys[n - 1];
        let base = bases.vals[n - 1];
        assert(bases.keys.contains(id));
        assert(bases.keys.index_of(id) == n - 1);
        assert(bases.has(id) && bases.at(id) == base);
        let top = root(repo, bases, base);
        lemma_root_method(repo, bases, base);
        assert(repo.has_method(top));
        assert(repo.has_method(id));
        assert(same_types(method_at(at, top).typ, method_at(repo, top).typ));
        lemma_fills(method_at(at, top).typ, method_at(at, id).typ, method_at(repo, top).typ);
        let is_ret_poly = fills_ret(method_at(at, top).typ, method_at(at, id).typ);
        let poly = fills_params(method_at(at, top).typ, method_at(at, id).typ);
        lemma_promote_keeps_methods(at, id, base, is_ret_poly, poly);
        let done = promote_all(repo, bases, n);
        assert(done == promote_method(at, id, base, is_ret_poly, poly));
        assert forall|other: MemberIdV| #[trigger] repo.has_method(other) implies method_at(
            done,
            other,
        ) == if bases.has(other) && bases.keys.index_of(other) < n {
            promoted_method(repo, bases, other)
        } else {
            method_at(repo, other)
        } by {
            if other != id {
                assert(at.has_method(other));
                assert(method_at(done, other) == method_at(at, other));
                if bases.has(other) && bases.keys.index_of(other) == n - 1 {
                    assert(bases.keys[n - 1] == other);
                }
            }
        }
    }
}

/// Marking overriding methods changes each of them once, by what it was and what it overrides, and
/// no other method.
pub proof fn law_promotion(repo: RepoV, bases: DictV<MemberIdV, MemberIdV>)
    requires
        repo.types.wf(),
        bases_ok(repo, bases),
    ensures
        ({
            let after = promote_all(repo, bases, bases.keys.len() as int);
            &&& forall|id: MemberIdV| #[trigger] repo.has_method(id) <==> after.has_method(id)
            &&& forall|id: MemberIdV| #[trigger]
                repo.has_method(id) ==> method_at(after, id) == promoted_method(repo, bases, id)
        }),
{
    lemma_promote_all(repo, bases, bases.keys.len() as int);
    let after = promote_all(repo, bases, bases.keys.len() as int);
    assert forall|id: MemberIdV| #[trigger] repo.has_method(id) implies method_at(after, id)
        == promoted_method(repo, bases, id) by {
        if bases.has(id) {
            assert(bases.keys.index_of(id) < bases.keys.len());
        }
    }
}

/// Whether a method is one of the first `n` of a class and has no body.
pub open spec fn is_own_missing(repo: RepoV, id: Seq<char>, method: MemberIdV, n: int) -> bool {
    &&& method.owner == id
    &&& 0 <= method.slot < n
    &&& !repo.class(id).methods.entries[method.slot].is_implemented()
}

/// Whether one of the first `n` methods of a class has a body and overrides a method.
pub open spec fn is_filled_in(
    repo: RepoV,
    bases: DictV<MemberIdV, MemberIdV>,
    id: Seq<char>,
    method: MemberIdV,
    n: int,
) -> bool {
    exists|slot: int|
        {
            &&& 0 <= slot < n
            &&& (#[trigger] repo.class(id).methods.entries[slot]).is_implemented()
            &&& bases.has(MemberIdV { owner: id, slot })
            &&& bases.at(MemberIdV { owner: id, slot }) == method
        }
}

/// The methods that a class is left without a body for are its own ones without a body, and those
/// it inherits that none of its methods with a body overrides.
pub proof fn law_missing(
    repo: RepoV,
    bases: DictV<MemberIdV, MemberIdV>,
    id: Seq<char>,
    inherited: Set<MemberIdV>,
    n: int,
    method: MemberIdV,
)
    requires
        bases_ok(repo, bases),
        0 <= n <= repo.class(id).methods.entries.len(),
    ensures
        missing(repo, bases, id, inherited, n).contains(method) <==> is_own_missing(
            repo,
            id,
            method,
            n,
        ) || (inherited.contains(method) && !is_filled_in(repo, bases, id, method, n)),
    decreases n,
{
    if n > 0 {
        law_missing(repo, bases, id, inherited, n - 1, method);
        let own = MemberIdV { owner: id, slot: n - 1 };
        let entry = repo.class(id).methods.entries[n - 1];
        if is_filled_in(repo, bases, id, method, n - 1) {
            let slot = choose|slot: int|
                {
                    &&& 0 <= slot < n - 1
                    &&& (#[trigger] repo.class(id).methods.entries[slot]).is_implemented()
                    &&& bases.has(MemberIdV { owner: id, slot })
                    &&& bases.at(MemberIdV { owner: id, slot }) == method
                };
            assert(repo.class(id).methods.entries[slot].is_implemented());
            assert(is_filled_in(repo, bases, id, method, n));
        }
        if entry.is_implemented() && bases.has(own) && bases.at(own) == method {
            assert(is_filled_in(repo, bases, id, method, n));
            assert(method.owner != id);
        }
    }
}

proof fn lemma_class_bases_ok(
    repo: RepoV,
    this: ParameterizedV,
    funcs: Seq<CompileBodyV>,
    n: int,
    bases: DictV<MemberIdV, MemberIdV>,
)
    requires
        0 <= n <= funcs.len(),
        has_depth(repo, this.id),
        forall|i: int| 0 <= i < funcs.len() ==> body_ok(repo, this, #[trigger] funcs[i]),
        bases_ok(repo, bases),
    ensures
        bases_ok(repo, class_bases(repo, this, funcs, n, bases)),
    decreases n,
{
    if n > 0 {
        lemma_class_bases_ok(repo, this, funcs, n - 1, bases);
        assert(body_ok(repo, this, funcs[n - 1]));
        if body_base(repo, this, funcs[n - 1]) is Some {
            lemma_bases_put(
                repo,
                class_bases(repo, this, funcs, n - 1, bases),
                this,
                funcs[n - 1],
            );
        }
    }
}

proof fn lemma_items_bases_ok(repo: RepoV, items: Seq<ModuleItemV>, n: int, at: BasesV)
    requires
        0 <= n <= items.len(),
        forall|i: int| 0 <= i < items.len() ==> item_ok(repo, #[trigger] items[i]),
        bases_ok(repo, at.bases),
    ensures
        bases_ok(repo, items_bases(repo, items, n, at).bases),
    decreases n,
{
    if n > 0 {
        lemma_items_bases_ok(repo, items, n - 1, at);
        assert(item_ok(repo, items[n - 1]));
        if let ModuleItemV::Class(this, _, funcs) = items[n - 1] {
            if base_class(repo, this.id) is Some {
                lemma_class_bases_ok(
                    repo,
                    this,
                    funcs,
                    funcs.len() as int,
                    items_bases(repo, items, n - 1, at).bases,
                );
            }
        }
    }
}

proof fn lemma_queue_bases_ok(repo: RepoV, queue: Seq<ModuleV>, n: int, at: BasesV)
    requires
        0 <= n <= queue.len(),
        queue_ok(repo, queue),
        bases_ok(repo, at.bases),
    ensures
        bases_ok(repo, queue_bases(repo, queue, n, at).bases),
    decreases n,
{
    if n > 0 {
        lemma_queue_bases_ok(repo, queue, n - 1, at);
        let items = queue[n - 1].items;
        assert forall|i: int| 0 <= i < items.len() implies item_ok(repo, #[trigger] items[i]) by {
            assert(queue[n - 1].items[i] == items[i]);
        }
        lemma_items_bases_ok(
            repo,
            items,
            items.len() as int,
            queue_bases(repo, queue, n - 1, at),
        );
    }
}

/// A method only ever overrides a method of a class further up.
pub proof fn law_overrides_upwards(c: CompilerV, id: MemberIdV)
    requires
        inherit_ok(c),
        bases_of(c).bases.has(id),
    ensures
        ({
            let base = bases_of(c).bases.at(id);
            &&& bases_ok(c.repo, bases_of(c).bases)
            &&& c.repo.has_method(id)
            &&& c.repo.has_method(base)
            &&& depth(c.repo, base.owner) < depth(c.repo, id.owner)
        }),
{
    lemma_bases_of(c);
}

pub proof fn lemma_bases_of(c: CompilerV)
    requires
        inherit_ok(c),
    ensures
        bases_ok(c.repo, bases_of(c).bases),
{
    lemma_queue_bases_ok(
        c.repo,
        c.queue,
        c.queue.len() as int,
        BasesV { errors: c.errors, bases: DictV::empty() },
    );
}

/// A type with fewer classes above it comes earlier in the sorted list.
pub proof fn law_less_deep_comes_first(repo: RepoV, types: Seq<Seq<char>>, id: Seq<char>, i: int)
    requires
        types.contains(id),
        0 <= i < sort_by_depth(repo, types, types.len() as int).len(),
        depth(repo, id) < depth(repo, sort_by_depth(repo, types, types.len() as int)[i]),
    ensures
        sort_by_depth(repo, types, types.len() as int).take(i).contains(id),
{
    let n = types.len() as int;
    let sorted = sort_by_depth(repo, types, n);
    law_sort_by_depth(repo, types, n);
    assert(types.take(n) =~= types);
    assert(sorted.contains(id)) by {
        broadcast use vstd::seq_lib::group_to_multiset_ensures;

        assert(types.to_multiset().count(id) > 0);
        assert(sorted.to_multiset().count(id) > 0);
    }
    let j = choose|j: int| 0 <= j < sorted.len() && sorted[j] == id;
    if i <= j {
        assert(depth(repo, sorted[i]) <= depth(repo, sorted[j]));
    }
    assert(sorted.take(i)[j] == id);
}

/// Working out overriding loses no error.
pub proof fn lemma_inheritance_continues(c: CompilerV, after: CompilerV)
    requires
        is_inherited(c, after),
    ensures
        continues(c.errors, after.errors),
{
    let start = BasesV { errors: c.errors, bases: DictV::empty() };
    lemma_queue_continues(c.repo, c.queue, c.queue.len() as int, start);
}

proof fn lemma_queue_continues(repo: RepoV, queue: Seq<ModuleV>, n: int, at: BasesV)
    ensures
        continues(at.errors, queue_bases(repo, queue, n, at).errors),
    decreases n,
{
    if n > 0 {
        lemma_queue_continues(repo, queue, n - 1, at);
        let items = queue[n - 1].items;
        lemma_items_continue(repo, items, items.len() as int, queue_bases(repo, queue, n - 1, at));
    }
}

proof fn lemma_items_continue(repo: RepoV, items: Seq<ModuleItemV>, n: int, at: BasesV)
    ensures
        continues(at.errors, items_bases(repo, items, n, at).errors),
    decreases n,
{
    if n > 0 {
        lemma_items_continue(repo, items, n - 1, at);
    }
}

} // verus!
