//! What overriding comes to in repositories that hold the same classes.
use vstd::multiset::Multiset;
use vstd::prelude::*;

use crate::compiler::{CompileBodyV, ModuleItemV, ModuleV};
use crate::dict::DictV;
use crate::error::{CompileErrorV, Span};
use crate::funcs::{promoted, FuncMapV, FuncTypeV};
use crate::gather::{
    gathered, lemma_gathered_alike, lemma_gathered_in_any_order, lemma_gathered_step,
    lemma_same_items,
};
use crate::inheritance::{
    all_errors, all_missing, base_class, base_method, bases_ok, body_base, body_id, body_ok,
    class_bases, class_missing, fills_params, fills_ret, final_base_errors, inherited, is_by_depth,
    item_bases, item_ok, items_bases, law_promotion, lemma_upper_depth, method_at, method_name,
    missing, missing_errors, one_base, overrides, owed, promote_all, promoted_method, queue_bases,
    queue_ok, root, tells, tells_all, BasesV,
};
use crate::repo::{
    ancestor, depth, has_depth, is_depth, lemma_depth, nth_upper, ClassTypeV, DataTypeV, RepoV,
};
use crate::tables::MemberIdV;
use crate::types::ParameterizedV;

verus! {

/// A class without its fields, if there is such a class.
pub open spec fn bare_class(repo: RepoV, id: Seq<char>) -> Option<ClassTypeV> {
    if repo.is_class(id) {
        Some(ClassTypeV { fields: DictV::empty(), ..repo.class(id) })
    } else {
        None
    }
}

/// Whether a class is the same in two repositories, but for its fields.
pub open spec fn is_like(a: RepoV, b: RepoV, id: Seq<char>) -> bool {
    bare_class(a, id) == bare_class(b, id)
}

/// Whether two repositories hold the same classes, but for their fields.
pub open spec fn same_classes(a: RepoV, b: RepoV) -> bool {
    forall|id: Seq<char>| #[trigger] is_like(a, b, id)
}

/// Whether the same is found under every key.
pub open spec fn same_entries<K, V>(a: DictV<K, V>, b: DictV<K, V>) -> bool {
    forall|k: K| #[trigger] a.get(k) == b.get(k)
}

proof fn lemma_like(a: RepoV, b: RepoV, id: Seq<char>)
    requires
        same_classes(a, b),
    ensures
        a.is_class(id) <==> b.is_class(id),
        a.is_class(id) ==> {
            &&& a.class(id).extends == b.class(id).extends
            &&& a.class(id).type_vars == b.class(id).type_vars
            &&& a.class(id).methods == b.class(id).methods
            &&& a.class(id).flags == b.class(id).flags
            &&& a.class(id).span == b.class(id).span
        },
{
    assert(is_like(a, b, id));
}

proof fn lemma_upper_alike(a: RepoV, b: RepoV, id: Seq<char>, k: nat)
    requires
        same_classes(a, b),
    ensures
        nth_upper(a, id, k) == nth_upper(b, id, k),
    decreases k,
{
    lemma_like(a, b, id);
    if k > 0 {
        lemma_upper_alike(a, b, id, (k - 1) as nat);
        if let Some(lower) = nth_upper(a, id, (k - 1) as nat) {
            lemma_like(a, b, lower);
            if let Some(base) = a.class(lower).extends {
                lemma_like(a, b, base.id);
            }
        }
    }
}

/// The way up from a type is as long.
pub proof fn lemma_depth_alike(a: RepoV, b: RepoV, id: Seq<char>)
    requires
        same_classes(a, b),
        has_depth(a, id),
    ensures
        has_depth(b, id),
        depth(a, id) == depth(b, id),
{
    let n = depth(a, id);
    assert(is_depth(a, id, n));
    lemma_upper_alike(a, b, id, n);
    assert forall|k: nat| k < n implies #[trigger] nth_upper(b, id, k) is Some by {
        lemma_upper_alike(a, b, id, k);
        assert(nth_upper(a, id, k) is Some);
    }
    assert(is_depth(b, id, n));
    lemma_depth(b, id, n);
}

proof fn lemma_ancestor_alike(a: RepoV, b: RepoV, this: ParameterizedV, k: nat)
    requires
        same_classes(a, b),
        nth_upper(a, this.id, k) is Some,
    ensures
        ancestor(a, this, k) == ancestor(b, this, k),
        ancestor(a, this, k).id == nth_upper(a, this.id, k)->0,
    decreases k,
{
    if k > 0 {
        lemma_ancestor_alike(a, b, this, (k - 1) as nat);
        lemma_like(a, b, ancestor(a, this, (k - 1) as nat).id);
    }
}

proof fn lemma_overrides_alike(
    a: RepoV,
    b: RepoV,
    this: ParameterizedV,
    name: Seq<char>,
    typ: FuncTypeV,
    k: nat,
    slot: int,
)
    requires
        same_classes(a, b),
    ensures
        overrides(a, this, name, typ, k, slot) == overrides(b, this, name, typ, k, slot),
{
    lemma_upper_alike(a, b, this.id, k);
    if let Some(upper) = nth_upper(a, this.id, k) {
        lemma_like(a, b, upper);
        lemma_ancestor_alike(a, b, this, k);
    }
}

proof fn lemma_base_method_alike(
    a: RepoV,
    b: RepoV,
    this: ParameterizedV,
    name: Seq<char>,
    typ: FuncTypeV,
)
    requires
        same_classes(a, b),
        one_base(a, this, name, typ),
    ensures
        base_method(a, this, name, typ) == base_method(b, this, name, typ),
{
    if exists|k: nat, slot: int| overrides(a, this, name, typ, k, slot) {
        let (k, slot) = choose|k: nat, slot: int| overrides(a, this, name, typ, k, slot);
        lemma_overrides_alike(a, b, this, name, typ, k, slot);
        let (l, other) = choose|k: nat, slot: int| overrides(b, this, name, typ, k, slot);
        assert(overrides(b, this, name, typ, l, other));
        lemma_overrides_alike(a, b, this, name, typ, l, other);
        lemma_upper_alike(a, b, this.id, k);
    } else if exists|k: nat, slot: int| overrides(b, this, name, typ, k, slot) {
        let (l, other) = choose|k: nat, slot: int| overrides(b, this, name, typ, k, slot);
        lemma_overrides_alike(a, b, this, name, typ, l, other);
        assert(overrides(a, this, name, typ, l, other));
    }
}

/// What a method of a class overrides is the same.
pub proof fn lemma_class_bases_alike(
    a: RepoV,
    b: RepoV,
    this: ParameterizedV,
    funcs: Seq<CompileBodyV>,
    n: int,
    s: DictV<MemberIdV, MemberIdV>,
    t: DictV<MemberIdV, MemberIdV>,
    id: MemberIdV,
)
    requires
        same_classes(a, b),
        a.is_class(this.id),
        0 <= n <= funcs.len(),
        forall|i: int| 0 <= i < funcs.len() ==> body_ok(a, this, #[trigger] funcs[i]),
        s.wf(),
        t.wf(),
        s.get(id) == t.get(id),
    ensures
        class_bases(a, this, funcs, n, s).wf(),
        class_bases(b, this, funcs, n, t).wf(),
        class_bases(a, this, funcs, n, s).get(id) == class_bases(b, this, funcs, n, t).get(id),
    decreases n,
{
    if n > 0 {
        lemma_class_bases_alike(a, b, this, funcs, n - 1, s, t, id);
        let func = funcs[n - 1];
        assert(body_ok(a, this, func));
        lemma_like(a, b, this.id);
        if !func.is_static {
            lemma_base_method_alike(
                a,
                b,
                this,
                func.name,
                a.class(this.id).methods.entries[func.slot].typ,
            );
        }
        let one = class_bases(a, this, funcs, n - 1, s);
        let two = class_bases(b, this, funcs, n - 1, t);
        if let Some(base) = body_base(a, this, func) {
            let own = body_id(this, func);
            one.lemma_put(own, base);
            two.lemma_put(own, base);
            if id != own {
                assert(one.put(own, base).get(id) == one.get(id));
                assert(two.put(own, base).get(id) == two.get(id));
            }
        }
    }
}

/// What is known of the methods of other classes stays.
pub proof fn lemma_class_bases_keep(
    repo: RepoV,
    this: ParameterizedV,
    funcs: Seq<CompileBodyV>,
    n: int,
    bases: DictV<MemberIdV, MemberIdV>,
    id: MemberIdV,
)
    requires
        bases.wf(),
        id.owner != this.id,
    ensures
        class_bases(repo, this, funcs, n, bases).wf(),
        class_bases(repo, this, funcs, n, bases).get(id) == bases.get(id),
    decreases n,
{
    if n > 0 {
        lemma_class_bases_keep(repo, this, funcs, n - 1, bases, id);
        if let Some(base) = body_base(repo, this, funcs[n - 1]) {
            class_bases(repo, this, funcs, n - 1, bases).lemma_put(
                body_id(this, funcs[n - 1]),
                base,
            );
        }
    }
}

/// What a queued item makes known of the methods of other classes stays.
pub proof fn lemma_item_bases_keep(repo: RepoV, item: ModuleItemV, at: BasesV, id: MemberIdV)
    requires
        at.bases.wf(),
        item matches ModuleItemV::Class(this, _, _) ==> id.owner != this.id,
    ensures
        item_bases(repo, item, at).bases.wf(),
        item_bases(repo, item, at).bases.get(id) == at.bases.get(id),
{
    if let ModuleItemV::Class(this, _, funcs) = item {
        lemma_class_bases_keep(repo, this, funcs, funcs.len() as int, at.bases, id);
    }
}

/// A queued item makes the same known of overriding.
pub proof fn lemma_item_bases_alike(
    a: RepoV,
    b: RepoV,
    item: ModuleItemV,
    s: BasesV,
    t: BasesV,
    id: MemberIdV,
)
    requires
        same_classes(a, b),
        item_ok(a, item),
        s.bases.wf(),
        t.bases.wf(),
        s.bases.get(id) == t.bases.get(id),
    ensures
        item_bases(a, item, s).bases.wf(),
        item_bases(b, item, t).bases.wf(),
        item_bases(a, item, s).bases.get(id) == item_bases(b, item, t).bases.get(id),
{
    if let ModuleItemV::Class(this, _, funcs) = item {
        lemma_base_class_alike(a, b, this.id);
        if base_class(a, this.id) is Some {
            lemma_class_bases_alike(a, b, this, funcs, funcs.len() as int, s.bases, t.bases, id);
        }
    }
}

proof fn lemma_base_class_alike(a: RepoV, b: RepoV, id: Seq<char>)
    requires
        same_classes(a, b),
    ensures
        base_class(a, id) is Some <==> base_class(b, id) is Some,
        base_class(a, id) is Some ==> final_base_errors(base_class(a, id)->0)
            == final_base_errors(base_class(b, id)->0),
{
    lemma_like(a, b, id);
    if a.is_class(id) {
        if let Some(base) = a.class(id).extends {
            lemma_like(a, b, base.id);
        }
    }
}

/// A queued item adds the same errors.
pub proof fn lemma_item_errors_alike(
    a: RepoV,
    b: RepoV,
    item: ModuleItemV,
    s: BasesV,
    t: BasesV,
    more: Seq<CompileErrorV>,
)
    requires
        same_classes(a, b),
        s.errors == more + t.errors,
    ensures
        item_bases(a, item, s).errors == more + item_bases(b, item, t).errors,
{
    if let ModuleItemV::Class(this, _, _) = item {
        lemma_base_class_alike(a, b, this.id);
    }
    assert(item_bases(a, item, s).errors =~= more + item_bases(b, item, t).errors);
}

proof fn lemma_items_bases_alike(
    a: RepoV,
    b: RepoV,
    items: Seq<ModuleItemV>,
    n: int,
    s: BasesV,
    t: BasesV,
    id: MemberIdV,
)
    requires
        same_classes(a, b),
        0 <= n <= items.len(),
        forall|i: int| 0 <= i < items.len() ==> item_ok(a, #[trigger] items[i]),
        s.bases.wf(),
        t.bases.wf(),
        s.bases.get(id) == t.bases.get(id),
    ensures
        items_bases(a, items, n, s).bases.wf(),
        items_bases(b, items, n, t).bases.wf(),
        items_bases(a, items, n, s).bases.get(id) == items_bases(b, items, n, t).bases.get(id),
    decreases n,
{
    if n > 0 {
        lemma_items_bases_alike(a, b, items, n - 1, s, t, id);
        assert(item_ok(a, items[n - 1]));
        lemma_item_bases_alike(
            a,
            b,
            items[n - 1],
            items_bases(a, items, n - 1, s),
            items_bases(b, items, n - 1, t),
            id,
        );
    }
}

/// A queue makes the same known of overriding.
pub proof fn lemma_queue_bases_alike(
    a: RepoV,
    b: RepoV,
    queue: Seq<ModuleV>,
    n: int,
    s: BasesV,
    t: BasesV,
    id: MemberIdV,
)
    requires
        same_classes(a, b),
        0 <= n <= queue.len(),
        queue_ok(a, queue),
        s.bases.wf(),
        t.bases.wf(),
        s.bases.get(id) == t.bases.get(id),
    ensures
        queue_bases(a, queue, n, s).bases.wf(),
        queue_bases(b, queue, n, t).bases.wf(),
        queue_bases(a, queue, n, s).bases.get(id) == queue_bases(b, queue, n, t).bases.get(id),
    decreases n,
{
    if n > 0 {
        lemma_queue_bases_alike(a, b, queue, n - 1, s, t, id);
        let items = queue[n - 1].items;
        assert forall|i: int| 0 <= i < items.len() implies item_ok(a, #[trigger] items[i]) by {
            assert(item_ok(a, queue[n - 1].items[i]));
        }
        lemma_items_bases_alike(
            a,
            b,
            items,
            items.len() as int,
            queue_bases(a, queue, n - 1, s),
            queue_bases(b, queue, n - 1, t),
            id,
        );
    }
}

proof fn lemma_items_errors_alike(
    a: RepoV,
    b: RepoV,
    items: Seq<ModuleItemV>,
    n: int,
    s: BasesV,
    t: BasesV,
    more: Seq<CompileErrorV>,
)
    requires
        same_classes(a, b),
        s.errors == more + t.errors,
    ensures
        items_bases(a, items, n, s).errors == more + items_bases(b, items, n, t).errors,
    decreases n,
{
    if n > 0 {
        lemma_items_errors_alike(a, b, items, n - 1, s, t, more);
        lemma_item_errors_alike(
            a,
            b,
            items[n - 1],
            items_bases(a, items, n - 1, s),
            items_bases(b, items, n - 1, t),
            more,
        );
    }
}

/// A queue adds the same errors.
pub proof fn lemma_queue_errors_alike(
    a: RepoV,
    b: RepoV,
    queue: Seq<ModuleV>,
    n: int,
    s: BasesV,
    t: BasesV,
    more: Seq<CompileErrorV>,
)
    requires
        same_classes(a, b),
        s.errors == more + t.errors,
    ensures
        queue_bases(a, queue, n, s).errors == more + queue_bases(b, queue, n, t).errors,
    decreases n,
{
    if n > 0 {
        lemma_queue_errors_alike(a, b, queue, n - 1, s, t, more);
        let items = queue[n - 1].items;
        lemma_items_errors_alike(
            a,
            b,
            items,
            items.len() as int,
            queue_bases(a, queue, n - 1, s),
            queue_bases(b, queue, n - 1, t),
            more,
        );
    }
}

/// Whether methods are all of classes that there are.
pub open spec fn of_classes(repo: RepoV, methods: Set<MemberIdV>) -> bool {
    forall|method: MemberIdV| #[trigger] methods.contains(method) ==> repo.is_class(method.owner)
}

proof fn lemma_missing_alike(
    a: RepoV,
    b: RepoV,
    s: DictV<MemberIdV, MemberIdV>,
    t: DictV<MemberIdV, MemberIdV>,
    id: Seq<char>,
    methods: Set<MemberIdV>,
    n: int,
)
    requires
        same_classes(a, b),
        same_entries(s, t),
        a.is_class(id),
        of_classes(a, methods),
    ensures
        missing(a, s, id, methods, n) == missing(b, t, id, methods, n),
        of_classes(a, missing(a, s, id, methods, n)),
    decreases n,
{
    if n > 0 {
        lemma_missing_alike(a, b, s, t, id, methods, n - 1);
        lemma_like(a, b, id);
        let own = MemberIdV { owner: id, slot: n - 1 };
        assert(s.get(own) == t.get(own));
    }
}

/// Whether what is known of a type comes from one of its places.
spec fn comes_from(
    repo: RepoV,
    bases: DictV<MemberIdV, MemberIdV>,
    types: Seq<Seq<char>>,
    n: int,
    id: Seq<char>,
    p: int,
) -> bool {
    &&& 0 <= p < n
    &&& types[p] == id
    &&& all_missing(repo, bases, types, n).at(id) == class_missing(
        repo,
        bases,
        all_missing(repo, bases, types, p),
        id,
    )
}

proof fn lemma_known(
    repo: RepoV,
    bases: DictV<MemberIdV, MemberIdV>,
    types: Seq<Seq<char>>,
    n: int,
    id: Seq<char>,
)
    requires
        0 <= n <= types.len(),
    ensures
        ({
            let known = all_missing(repo, bases, types, n);
            &&& known.wf()
            &&& known.has(id) <==> repo.is_class(id) && exists|p: int|
                0 <= p < n && #[trigger] types[p] == id
            &&& known.has(id) ==> exists|p: int| comes_from(repo, bases, types, n, id, p)
        }),
    decreases n,
{
    if n > 0 {
        lemma_known(repo, bases, types, n - 1, id);
        let at = all_missing(repo, bases, types, n - 1);
        let known = all_missing(repo, bases, types, n);
        let last = types[n - 1];
        if repo.is_class(last) {
            let set = class_missing(repo, bases, at, last);
            at.lemma_put(last, set);
            if last == id {
                assert(at.put(last, set).get(id) == Some(set));
                assert(comes_from(repo, bases, types, n, id, n - 1));
            } else {
                assert(at.put(last, set).get(id) == at.get(id));
            }
        }
        if known.has(id) && last != id {
            let m = n - 1;
            let p = choose|p: int| comes_from(repo, bases, types, m, id, p);
            assert(comes_from(repo, bases, types, n, id, p));
        }
    }
}

/// A type that is further up is known before.
proof fn lemma_lower_known(
    repo: RepoV,
    bases: DictV<MemberIdV, MemberIdV>,
    types: Seq<Seq<char>>,
    i: int,
    id: Seq<char>,
)
    requires
        is_by_depth(repo, types),
        0 <= i < types.len(),
        depth(repo, id) < depth(repo, types[i]),
    ensures
        all_missing(repo, bases, types, i).has(id) <==> repo.is_class(id) && types.contains(id),
{
    lemma_known(repo, bases, types, i, id);
    if types.contains(id) {
        let p = choose|p: int| 0 <= p < types.len() && types[p] == id;
        if p >= i {
            assert(depth(repo, types[i]) <= depth(repo, types[p]));
        }
        assert(types[p] == id);
    }
}

/// Whether two lists of types, each ordered by depth, hold the same types.
pub open spec fn same_listed(
    a: RepoV,
    b: RepoV,
    ta: Seq<Seq<char>>,
    tb: Seq<Seq<char>>,
) -> bool {
    &&& is_by_depth(a, ta)
    &&& is_by_depth(b, tb)
    &&& ta.to_multiset() == tb.to_multiset()
    &&& forall|i: int| 0 <= i < ta.len() ==> has_depth(a, #[trigger] ta[i])
}

/// A class is left with the same methods without a body, at whatever place it is listed.
proof fn lemma_missing_in_any_order(
    a: RepoV,
    b: RepoV,
    s: DictV<MemberIdV, MemberIdV>,
    t: DictV<MemberIdV, MemberIdV>,
    ta: Seq<Seq<char>>,
    tb: Seq<Seq<char>>,
    i: int,
    j: int,
)
    requires
        same_classes(a, b),
        same_entries(s, t),
        same_listed(a, b, ta, tb),
        0 <= i < ta.len(),
        0 <= j < tb.len(),
        ta[i] == tb[j],
        a.is_class(ta[i]),
    ensures
        class_missing(a, s, all_missing(a, s, ta, i), ta[i]) == class_missing(
            b,
            t,
            all_missing(b, t, tb, j),
            tb[j],
        ),
        of_classes(a, class_missing(a, s, all_missing(a, s, ta, i), ta[i])),
    decreases depth(a, ta[i]),
{
    let id = ta[i];
    let one = all_missing(a, s, ta, i);
    let two = all_missing(b, t, tb, j);
    assert(has_depth(a, ta[i]));
    lemma_like(a, b, id);
    lemma_depth_alike(a, b, id);
    if let Some(base) = a.class(id).extends {
        lemma_like(a, b, base.id);
        if a.is_class(base.id) {
            assert(nth_upper(a, id, 0) == Some(id));
            assert(nth_upper(a, id, 1) == Some(base.id));
            lemma_upper_depth(a, id, 1);
            lemma_depth_alike(a, b, base.id);
            lemma_lower_known(a, s, ta, i, base.id);
            lemma_lower_known(b, t, tb, j, base.id);
            lemma_same_items(ta, tb, base.id);
            if one.has(base.id) {
                lemma_known(a, s, ta, i, base.id);
                lemma_known(b, t, tb, j, base.id);
                let p = choose|p: int| comes_from(a, s, ta, i, base.id, p);
                let q = choose|q: int| comes_from(b, t, tb, j, base.id, q);
                lemma_missing_in_any_order(a, b, s, t, ta, tb, p, q);
            }
        } else {
            lemma_known(a, s, ta, i, base.id);
            lemma_known(b, t, tb, j, base.id);
        }
    }
    assert(inherited(a, one, id) == inherited(b, two, id));
    assert(of_classes(a, inherited(a, one, id)));
    lemma_missing_alike(
        a,
        b,
        s,
        t,
        id,
        inherited(a, one, id),
        a.class(id).methods.entries.len() as int,
    );
}

proof fn lemma_owed_in_any_order(
    a: RepoV,
    b: RepoV,
    s: DictV<MemberIdV, MemberIdV>,
    t: DictV<MemberIdV, MemberIdV>,
    ta: Seq<Seq<char>>,
    tb: Seq<Seq<char>>,
    i: int,
    j: int,
)
    requires
        same_classes(a, b),
        same_entries(s, t),
        same_listed(a, b, ta, tb),
        0 <= i < ta.len(),
        0 <= j < tb.len(),
        ta[i] == tb[j],
    ensures
        owed(a, s, ta, i) == owed(b, t, tb, j),
        of_classes(a, owed(a, s, ta, i)),
{
    lemma_like(a, b, ta[i]);
    if a.is_class(ta[i]) {
        lemma_missing_in_any_order(a, b, s, t, ta, tb, i, j);
    }
}

/// The error of a class that has no body for a method.
spec fn missing_error(repo: RepoV, span: Option<Span>) -> spec_fn(MemberIdV) -> Multiset<
    CompileErrorV,
> {
    |method: MemberIdV|
        Multiset::singleton(
            CompileErrorV::UnimplementedMethod(method_name(repo, method), span->0),
        )
}

proof fn lemma_errors_gathered(repo: RepoV, walk: Seq<MemberIdV>, span: Option<Span>)
    ensures
        missing_errors(repo, walk, span).to_multiset() == gathered(
            walk,
            missing_error(repo, span),
        ),
    decreases walk.len(),
{
    broadcast use vstd::seq_lib::group_to_multiset_ensures;

    let all = missing_errors(repo, walk, span);
    if walk.len() == 0 {
        assert(all =~= Seq::empty());
        assert(all.to_multiset() =~= Multiset::empty());
    } else {
        let rest = missing_errors(repo, walk.drop_last(), span);
        lemma_errors_gathered(repo, walk.drop_last(), span);
        let err = CompileErrorV::UnimplementedMethod(method_name(repo, walk.last()), span->0);
        assert(all =~= rest.push(err));
        assert(all.to_multiset() =~= rest.to_multiset().insert(err));
        assert(all.to_multiset() =~= gathered(walk, missing_error(repo, span)));
    }
}

/// The same methods are told with the same errors, in whatever order.
proof fn lemma_told_alike(
    a: RepoV,
    b: RepoV,
    v: Seq<MemberIdV>,
    w: Seq<MemberIdV>,
    set: Set<MemberIdV>,
    id: Seq<char>,
)
    requires
        same_classes(a, b),
        of_classes(a, set),
        tells(v, set),
        tells(w, set),
        a.is_class(id) || set =~= Set::empty(),
    ensures
        missing_errors(a, v, a.class(id).span).to_multiset() == missing_errors(
            b,
            w,
            b.class(id).span,
        ).to_multiset(),
{
    let x = a.class(id).span;
    let y = b.class(id).span;
    assert(v.to_multiset() =~= w.to_multiset()) by {
        broadcast use vstd::seq_lib::group_to_multiset_ensures;

        v.lemma_multiset_has_no_duplicates();
        w.lemma_multiset_has_no_duplicates();
        assert forall|m: MemberIdV| v.to_multiset().count(m) == w.to_multiset().count(m) by {
            assert(v.to_set().contains(m) <==> w.to_set().contains(m));
        }
    }
    lemma_errors_gathered(a, v, x);
    lemma_errors_gathered(b, w, y);
    assert forall|i: int| 0 <= i < v.len() implies missing_error(a, x)(#[trigger] v[i])
        == missing_error(b, y)(v[i]) by {
        assert(v.to_set().contains(v[i]));
        assert(set.contains(v[i]));
        lemma_like(a, b, v[i].owner);
        lemma_like(a, b, id);
    }
    lemma_gathered_alike(v, missing_error(a, x), missing_error(b, y));
    lemma_gathered_in_any_order(v, w, missing_error(b, y));
}

/// The errors of a type, as they are told at its first place.
spec fn first_told(
    repo: RepoV,
    types: Seq<Seq<char>>,
    walks: Seq<Seq<MemberIdV>>,
) -> spec_fn(Seq<char>) -> Multiset<CompileErrorV> {
    |id: Seq<char>|
        missing_errors(repo, walks[types.index_of(id)], repo.class(id).span).to_multiset()
}

proof fn lemma_all_errors_gathered(
    repo: RepoV,
    bases: DictV<MemberIdV, MemberIdV>,
    types: Seq<Seq<char>>,
    n: int,
    walks: Seq<Seq<MemberIdV>>,
)
    requires
        same_listed(repo, repo, types, types),
        walks.len() == types.len(),
        tells_all(repo, bases, types, walks),
        0 <= n <= types.len(),
    ensures
        all_errors(repo, types, n, walks).to_multiset() == gathered(
            types.take(n),
            first_told(repo, types, walks),
        ),
    decreases n,
{
    broadcast use vstd::seq_lib::group_to_multiset_ensures;

    if n == 0 {
        assert(types.take(0) =~= Seq::empty());
        assert(all_errors(repo, types, 0, walks).to_multiset() =~= Multiset::empty());
    } else {
        lemma_all_errors_gathered(repo, bases, types, n - 1, walks);
        lemma_gathered_step(types, first_told(repo, types, walks), n);
        let id = types[n - 1];
        let p = types.index_of(id);
        lemma_owed_in_any_order(repo, repo, bases, bases, types, types, n - 1, p);
        assert(tells(walks[n - 1], owed(repo, bases, types, n - 1)));
        assert(tells(walks[p], owed(repo, bases, types, p)));
        lemma_told_alike(
            repo,
            repo,
            walks[n - 1],
            walks[p],
            owed(repo, bases, types, p),
            id,
        );
        vstd::seq_lib::lemma_multiset_commutative(
            all_errors(repo, types, n - 1, walks),
            missing_errors(repo, walks[n - 1], repo.class(id).span),
        );
    }
}

/// The same errors are told of the same classes, in whatever order they are listed.
pub proof fn lemma_errors_in_any_order(
    a: RepoV,
    b: RepoV,
    s: DictV<MemberIdV, MemberIdV>,
    t: DictV<MemberIdV, MemberIdV>,
    ta: Seq<Seq<char>>,
    tb: Seq<Seq<char>>,
    va: Seq<Seq<MemberIdV>>,
    vb: Seq<Seq<MemberIdV>>,
)
    requires
        same_classes(a, b),
        same_entries(s, t),
        same_listed(a, b, ta, tb),
        va.len() == ta.len(),
        vb.len() == tb.len(),
        tells_all(a, s, ta, va),
        tells_all(b, t, tb, vb),
    ensures
        all_errors(a, ta, ta.len() as int, va).to_multiset() == all_errors(
            b,
            tb,
            tb.len() as int,
            vb,
        ).to_multiset(),
{
    assert(same_listed(b, b, tb, tb)) by {
        assert forall|j: int| 0 <= j < tb.len() implies has_depth(b, #[trigger] tb[j]) by {
            assert(tb.contains(tb[j]));
            lemma_same_items(ta, tb, tb[j]);
            let i = choose|i: int| 0 <= i < ta.len() && ta[i] == tb[j];
            assert(has_depth(a, ta[i]));
            lemma_depth_alike(a, b, ta[i]);
        }
    }
    lemma_all_errors_gathered(a, s, ta, ta.len() as int, va);
    lemma_all_errors_gathered(b, t, tb, tb.len() as int, vb);
    assert(ta.take(ta.len() as int) =~= ta);
    assert(tb.take(tb.len() as int) =~= tb);
    let one = first_told(a, ta, va);
    let two = first_told(b, tb, vb);
    assert forall|i: int| 0 <= i < ta.len() implies one(#[trigger] ta[i]) == two(ta[i]) by {
        let id = ta[i];
        assert(ta.contains(id));
        lemma_same_items(ta, tb, id);
        let p = ta.index_of(id);
        let q = tb.index_of(id);
        lemma_owed_in_any_order(a, b, s, t, ta, tb, p, q);
        assert(tells(va[p], owed(a, s, ta, p)));
        assert(tells(vb[q], owed(b, t, tb, q)));
        lemma_told_alike(a, b, va[p], vb[q], owed(a, s, ta, p), id);
    }
    lemma_gathered_alike(ta, one, two);
    lemma_gathered_in_any_order(ta, tb, two);
}

proof fn lemma_root_alike(
    a: RepoV,
    b: RepoV,
    s: DictV<MemberIdV, MemberIdV>,
    t: DictV<MemberIdV, MemberIdV>,
    id: MemberIdV,
)
    requires
        same_classes(a, b),
        same_entries(s, t),
        bases_ok(a, s),
    ensures
        root(a, s, id) == root(b, t, id),
        a.has_method(id) ==> a.has_method(root(a, s, id)),
    decreases depth(a, id.owner),
{
    assert(s.get(id) == t.get(id));
    if s.has(id) {
        lemma_depth_alike(a, b, id.owner);
        lemma_depth_alike(a, b, s.at(id).owner);
        lemma_root_alike(a, b, s, t, s.at(id));
    }
}

/// Marking overriding methods changes nothing of a class but its methods.
proof fn lemma_promote_rest(
    repo: RepoV,
    bases: DictV<MemberIdV, MemberIdV>,
    n: int,
    id: Seq<char>,
)
    requires
        repo.types.wf(),
        bases_ok(repo, bases),
        0 <= n <= bases.keys.len(),
    ensures
        ({
            let done = promote_all(repo, bases, n);
            &&& done.types.wf()
            &&& done.is_class(id) <==> repo.is_class(id)
            &&& repo.is_class(id) ==> {
                let methods = done.class(id).methods;
                &&& done.class(id) == (ClassTypeV { methods, ..repo.class(id) })
                &&& methods.names == repo.class(id).methods.names
                &&& methods.entries.len() == repo.class(id).methods.entries.len()
            }
        }),
    decreases n,
{
    if n > 0 {
        let key = bases.keys[n - 1];
        assert(bases.has(key));
        lemma_promote_rest(repo, bases, n - 1, id);
        lemma_promote_rest(repo, bases, n - 1, key.owner);
        let at = promote_all(repo, bases, n - 1);
        let done = promote_all(repo, bases, n);
        assert(at.is_class(key.owner));
        let made = ClassTypeV {
            methods: FuncMapV {
                names: at.class(key.owner).methods.names,
                entries: at.class(key.owner).methods.entries.update(
                    key.slot,
                    promoted(
                        at.class(key.owner).methods.entries[key.slot],
                        bases.vals[n - 1],
                        fills_ret(
                            method_at(at, root(repo, bases, bases.vals[n - 1])).typ,
                            method_at(at, key).typ,
                        ),
                        fills_params(
                            method_at(at, root(repo, bases, bases.vals[n - 1])).typ,
                            method_at(at, key).typ,
                        ),
                    ),
                ),
            },
            ..at.class(key.owner)
        };
        assert(done == at.put(key.owner, DataTypeV::Class(made)));
        at.types.lemma_put(key.owner, DataTypeV::Class(made));
        assert(done.types.get(id) == if id == key.owner {
            Some(DataTypeV::Class(made))
        } else {
            at.types.get(id)
        });
    }
}

/// Marking overriding methods makes the same of the same classes.
pub proof fn lemma_promoted_alike(
    a: RepoV,
    b: RepoV,
    s: DictV<MemberIdV, MemberIdV>,
    t: DictV<MemberIdV, MemberIdV>,
)
    requires
        same_classes(a, b),
        same_entries(s, t),
        a.types.wf(),
        b.types.wf(),
        bases_ok(a, s),
        bases_ok(b, t),
    ensures
        same_classes(
            promote_all(a, s, s.keys.len() as int),
            promote_all(b, t, t.keys.len() as int),
        ),
{
    let x = promote_all(a, s, s.keys.len() as int);
    let y = promote_all(b, t, t.keys.len() as int);
    law_promotion(a, s);
    law_promotion(b, t);
    assert forall|id: Seq<char>| #[trigger] is_like(x, y, id) by {
        lemma_like(a, b, id);
        lemma_promote_rest(a, s, s.keys.len() as int, id);
        lemma_promote_rest(b, t, t.keys.len() as int, id);
        if a.is_class(id) {
            assert(is_like(a, b, id));
            let one = x.class(id).methods;
            let two = y.class(id).methods;
            assert forall|slot: int| 0 <= slot < one.entries.len() implies one.entries[slot]
                == two.entries[slot] by {
                let own = MemberIdV { owner: id, slot };
                assert(a.has_method(own) && b.has_method(own));
                assert(method_at(x, own) == promoted_method(a, s, own));
                assert(method_at(y, own) == promoted_method(b, t, own));
                assert(s.get(own) == t.get(own));
                if s.has(own) {
                    lemma_root_alike(a, b, s, t, s.at(own));
                    lemma_like(a, b, root(a, s, s.at(own)).owner);
                }
            }
            assert(one.entries =~= two.entries);
        }
    }
}

} // verus!
