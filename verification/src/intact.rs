//! Whether a constant pool is intact, so that everything that it describes can be loaded.
use vstd::prelude::*;

use crate::commit::linked;
use crate::db::{
    describes_class, describes_enum, describes_field, describes_function, describes_param,
    describes_type, lemma_type_within, loaded, loads, type_within, CompilationResources,
};
use crate::dict::ints;
use crate::pool::{
    AnyDefinition, AnyDefinitionV, ConstantPool, PoolIndex, PoolType, PoolTypeV, PoolV, UNDEFINED,
};
use crate::roundtrip::law_loaded_is_linked;
use crate::types::Prim;

verus! {

/// Whether a description ends after exactly `n` definitions.
spec fn ends_after(pool: PoolV, idx: int, n: nat) -> bool {
    type_within(pool, idx, n) is Some && n > 0 && type_within(pool, idx, (n - 1) as nat) is None
}

/// A description that ends does so after some number of definitions.
proof fn lemma_ends(pool: PoolV, idx: int, n: nat) -> (m: nat)
    requires
        type_within(pool, idx, n) is Some,
    ensures
        ends_after(pool, idx, m),
    decreases n,
{
    if type_within(pool, idx, (n - 1) as nat) is Some {
        lemma_ends(pool, idx, (n - 1) as nat)
    } else {
        n
    }
}

/// There is only one such number.
proof fn lemma_ends_once(pool: PoolV, idx: int, n: nat, m: nat)
    requires
        ends_after(pool, idx, n),
        ends_after(pool, idx, m),
    ensures
        n == m,
{
    if n < m {
        lemma_type_within(pool, idx, n, (m - 1) as nat);
    }
    if m < n {
        lemma_type_within(pool, idx, m, (n - 1) as nat);
    }
}

/// The definition that the description of a type goes on with.
spec fn next(pool: PoolV, idx: int) -> Option<int> {
    if pool.has(idx) {
        match pool.value(idx) {
            AnyDefinitionV::Type(typ) => match typ {
                PoolTypeV::Ref(inner)
                | PoolTypeV::WeakRef(inner)
                | PoolTypeV::ScriptRef(inner)
                | PoolTypeV::Array(inner)
                | PoolTypeV::StaticArray(inner, _) => Some(inner),
                _ => None,
            },
            _ => None,
        }
    } else {
        None
    }
}

/// A description ends one definition after the one that it goes on with.
proof fn lemma_next(pool: PoolV, idx: int, n: nat)
    requires
        next(pool, idx) is Some,
        n > 0,
    ensures
        type_within(pool, idx, n) is Some <==> type_within(
            pool,
            next(pool, idx)->0,
            (n - 1) as nat,
        ) is Some,
{
}

proof fn lemma_next_describes(pool: PoolV, idx: int)
    requires
        next(pool, idx) is Some,
    ensures
        describes_type(pool, idx) <==> describes_type(pool, next(pool, idx)->0),
        forall|n: nat| #[trigger]
            ends_after(pool, idx, n) ==> n > 0 && ends_after(
                pool,
                next(pool, idx)->0,
                (n - 1) as nat,
            ),
{
    let inner = next(pool, idx)->0;
    if describes_type(pool, idx) {
        let n = choose|n: nat| type_within(pool, idx, n) is Some;
        lemma_next(pool, idx, n);
    }
    if describes_type(pool, inner) {
        let n = choose|n: nat| type_within(pool, inner, n) is Some;
        lemma_next(pool, idx, n + 1);
        assert(type_within(pool, idx, n + 1) is Some);
    }
    assert forall|n: nat| #[trigger] ends_after(pool, idx, n) implies n > 0 && ends_after(
        pool,
        inner,
        (n - 1) as nat,
    ) by {
        lemma_next(pool, idx, n);
        if n > 1 {
            lemma_next(pool, idx, (n - 1) as nat);
        }
    }
}

/// Distinct numbers below a bound are no more than the bound.
proof fn lemma_few(seq: Seq<int>, bound: int)
    requires
        0 <= bound,
        seq.no_duplicates(),
        forall|i: int| 0 <= i < seq.len() ==> 0 <= #[trigger] seq[i] < bound,
    ensures
        seq.len() <= bound,
{
    let range = vstd::set_lib::set_int_range(0, bound);
    vstd::set_lib::lemma_int_range(0, bound);
    assert(seq.to_set().subset_of(range));
    seq.unique_seq_to_set();
    vstd::set_lib::lemma_len_subset(seq.to_set(), range);
}

/// What has been read of a description: each definition goes on with the one behind it.
spec fn is_way(pool: PoolV, way: Seq<int>) -> bool {
    forall|i: int|
        0 <= i < way.len() - 1 ==> #[trigger] next(pool, way[i]) == Some(way[i + 1])
}

/// The definitions that have been read of a description that ends are all different.
proof fn lemma_way(pool: PoolV, way: Seq<int>, n: nat, i: int)
    requires
        is_way(pool, way),
        0 <= i < way.len(),
        ends_after(pool, way[0], n),
    ensures
        i < n,
        ends_after(pool, way[i], (n - i) as nat),
    decreases i,
{
    if i > 0 {
        lemma_way(pool, way, n, i - 1);
        assert(next(pool, way[i - 1]) == Some(way[i - 1 + 1]));
        lemma_next_describes(pool, way[i - 1]);
    }
}

/// A description does not end once as many definitions have been read as there are.
proof fn lemma_endless(pool: PoolV, way: Seq<int>)
    requires
        is_way(pool, way),
        way.len() > pool.defs.len(),
        next(pool, way.last()) is Some,
    ensures
        !describes_type(pool, way[0]),
{
    if describes_type(pool, way[0]) {
        let n = lemma_ends(
            pool,
            way[0],
            choose|n: nat| type_within(pool, way[0], n) is Some,
        );
        assert forall|i: int, j: int| 0 <= i < j < way.len() implies way[i] != way[j] by {
            lemma_way(pool, way, n, i);
            lemma_way(pool, way, n, j);
            if way[i] == way[j] {
                lemma_ends_once(pool, way[i], (n - i) as nat, (n - j) as nat);
            }
        }
        assert forall|i: int| 0 <= i < way.len() implies 0 <= #[trigger] way[i]
            < pool.defs.len() by {
            if i < way.len() - 1 {
                assert(next(pool, way[i]) is Some);
            }
        }
        lemma_few(way, pool.defs.len() as int);
    }
}

/// Whether the pool describes a type at an index.
pub fn is_type(pool: &ConstantPool, idx: PoolIndex) -> (res: bool)
    ensures
        res == describes_type(pool@, idx as int),
{
    let total: usize = pool.len();
    let mut at: PoolIndex = idx;
    let mut n: usize = 0;
    let ghost mut way: Seq<int> = seq![idx as int];
    loop
        invariant
            total == pool@.defs.len(),
            n <= total,
            way.len() == n + 1,
            way[0] == idx,
            way.last() == at,
            is_way(pool@, way),
            describes_type(pool@, idx as int) <==> describes_type(pool@, at as int),
        decreases total - n,
    {
        if at >= total {
            assert(!describes_type(pool@, at as int));
            return false;
        }
        let inner: PoolIndex = match &pool.definition(at).value {
            AnyDefinition::Type(typ) => match typ {
                PoolType::Prim => {
                    let res = pool.is_named(at) && Prim::from_name(pool.def_name(at)).is_some();
                    assert(type_within(pool@, at as int, 1) is Some <==> res);
                    proof {
                        lemma_flat(pool@, at as int);
                    }
                    return res;
                },
                PoolType::Class => {
                    let res = pool.is_named(at);
                    assert(type_within(pool@, at as int, 1) is Some <==> res);
                    proof {
                        lemma_flat(pool@, at as int);
                    }
                    return res;
                },
                PoolType::Ref(inner) => *inner,
                PoolType::WeakRef(inner) => *inner,
                PoolType::ScriptRef(inner) => *inner,
                PoolType::Array(inner) => *inner,
                PoolType::StaticArray(inner, _) => *inner,
            },
            _ => {
                proof {
                    lemma_flat(pool@, at as int);
                }
                return false;
            },
        };
        assert(next(pool@, at as int) == Some(inner as int));
        if n == total {
            proof {
                lemma_endless(pool@, way);
            }
            return false;
        }
        proof {
            lemma_next_describes(pool@, at as int);
            let more = way.push(inner as int);
            assert forall|i: int| 0 <= i < more.len() - 1 implies #[trigger] next(pool@, more[i])
                == Some(more[i + 1]) by {
                if i < way.len() - 1 {
                    assert(next(pool@, way[i]) == Some(way[i + 1]));
                }
            }
            way = more;
        }
        at = inner;
        n += 1;
    }
}

/// A description that does not go on is read at once.
proof fn lemma_flat(pool: PoolV, idx: int)
    requires
        next(pool, idx) is None,
    ensures
        describes_type(pool, idx) <==> type_within(pool, idx, 1) is Some,
{
    if describes_type(pool, idx) {
        let n = choose|n: nat| type_within(pool, idx, n) is Some;
        assert(type_within(pool, idx, 1) is Some);
    }
}

/// Whether the pool describes a parameter at an index.
fn is_param(pool: &ConstantPool, idx: PoolIndex) -> (res: bool)
    ensures
        res == describes_param(pool@, idx as int),
{
    idx < pool.len() && match &pool.definition(idx).value {
        AnyDefinition::Parameter(param) => is_type(pool, param.type_),
        _ => false,
    }
}

/// Whether the pool describes a function at an index, with all the types that it mentions.
fn is_function(pool: &ConstantPool, idx: PoolIndex) -> (res: bool)
    ensures
        res == describes_function(pool@, idx as int),
{
    if !pool.is_named(idx) {
        return false;
    }
    match &pool.definition(idx).value {
        AnyDefinition::Function(fun) => {
            if let Some(ret) = fun.return_type {
                if !is_type(pool, ret) {
                    return false;
                }
            }
            let ghost params = pool@.value(idx as int)->Function_0.parameters;
            let mut i: usize = 0;
            while i < fun.parameters.len()
                invariant
                    i <= fun.parameters.len(),
                    params == ints(fun.parameters@),
                    params == pool@.value(idx as int)->Function_0.parameters,
                    forall|k: int|
                        #![trigger params[k]]
                        0 <= k < i ==> describes_param(pool@, params[k]),
                decreases fun.parameters.len() - i,
            {
                assert(params[i as int] == fun.parameters@[i as int]);
                if !is_param(pool, fun.parameters[i]) {
                    assert(!describes_param(
                        pool@,
                        pool@.value(idx as int)->Function_0.parameters[i as int],
                    ));
                    return false;
                }
                i += 1;
            }
            true
        },
        _ => false,
    }
}

/// Whether the pool describes a field at an index.
fn is_field(pool: &ConstantPool, idx: PoolIndex) -> (res: bool)
    ensures
        res == describes_field(pool@, idx as int),
{
    pool.is_named(idx) && match &pool.definition(idx).value {
        AnyDefinition::Field(field) => is_type(pool, field.type_),
        _ => false,
    }
}

/// Whether the pool describes a class at an index, with all that belongs to it.
fn is_class(pool: &ConstantPool, idx: PoolIndex) -> (res: bool)
    ensures
        res == describes_class(pool@, idx as int),
{
    if !pool.is_named(idx) {
        return false;
    }
    match &pool.definition(idx).value {
        AnyDefinition::Class(class) => {
            if class.base != UNDEFINED && !pool.is_named(class.base) {
                return false;
            }
            let ghost def = pool@.value(idx as int)->Class_0;
            let mut i: usize = 0;
            while i < class.fields.len()
                invariant
                    i <= class.fields.len(),
                    def.fields == ints(class.fields@),
                    def == pool@.value(idx as int)->Class_0,
                    forall|k: int|
                        #![trigger def.fields[k]]
                        0 <= k < i ==> describes_field(pool@, def.fields[k]),
                decreases class.fields.len() - i,
            {
                assert(def.fields[i as int] == class.fields@[i as int]);
                if !is_field(pool, class.fields[i]) {
                    return false;
                }
                i += 1;
            }
            let mut i: usize = 0;
            while i < class.methods.len()
                invariant
                    i <= class.methods.len(),
                    def.methods == ints(class.methods@),
                    def == pool@.value(idx as int)->Class_0,
                    forall|k: int|
                        #![trigger def.methods[k]]
                        0 <= k < i ==> describes_function(pool@, def.methods[k]),
                decreases class.methods.len() - i,
            {
                assert(def.methods[i as int] == class.methods@[i as int]);
                if !is_function(pool, class.methods[i]) {
                    return false;
                }
                i += 1;
            }
            true
        },
        _ => false,
    }
}

/// Whether the pool describes an enum at an index, with its members.
fn is_enum(pool: &ConstantPool, idx: PoolIndex) -> (res: bool)
    ensures
        res == describes_enum(pool@, idx as int),
{
    if !pool.is_named(idx) {
        return false;
    }
    match &pool.definition(idx).value {
        AnyDefinition::Enum(def) => {
            let ghost members = pool@.value(idx as int)->Enum_0.members;
            let mut i: usize = 0;
            while i < def.members.len()
                invariant
                    i <= def.members.len(),
                    members == ints(def.members@),
                    members == pool@.value(idx as int)->Enum_0.members,
                    forall|k: int|
                        #![trigger members[k]]
                        0 <= k < i ==> pool@.is_named(members[k]) && pool@.value(
                            members[k],
                        ) is EnumValue,
                decreases def.members.len() - i,
            {
                assert(members[i as int] == def.members@[i as int]);
                let member = def.members[i];
                let is_member = pool.is_named(member) && match &pool.definition(member).value {
                    AnyDefinition::EnumValue(_) => true,
                    _ => false,
                };
                if !is_member {
                    assert(pool@.value(idx as int)->Enum_0.members[i as int] == member);
                    return false;
                }
                i += 1;
            }
            true
        },
        _ => false,
    }
}

/// Whether the definition at an index can be loaded.
fn is_loadable(pool: &ConstantPool, idx: PoolIndex) -> (res: bool)
    requires
        pool@.has(idx as int),
    ensures
        res == loads(pool@, idx as int),
{
    let def = pool.definition(idx);
    match &def.value {
        AnyDefinition::Type(_) => pool.is_named(idx),
        AnyDefinition::Class(_) => is_class(pool, idx),
        AnyDefinition::Function(_) => def.parent != UNDEFINED || is_function(pool, idx),
        AnyDefinition::Enum(_) => is_enum(pool, idx),
        _ => true,
    }
}

/// Whether all that a pool describes can be loaded.
pub open spec fn intact(pool: PoolV) -> bool {
    forall|idx: int| 1 <= idx < pool.defs.len() ==> #[trigger] loads(pool, idx)
}

/// Whether a pool is intact.
pub fn is_intact(pool: &ConstantPool) -> (res: bool)
    ensures
        res == intact(pool@),
{
    let n: usize = pool.len();
    let mut idx: usize = 1;
    while idx < n
        invariant
            n == pool@.defs.len(),
            1 <= idx,
            forall|k: int| 1 <= k < idx ==> #[trigger] loads(pool@, k),
        decreases n - idx,
    {
        if !is_loadable(pool, idx) {
            return false;
        }
        idx += 1;
    }
    true
}

impl CompilationResources {
    /// Loads everything that a pool describes. There is nothing to load where the pool is not
    /// intact.
    pub fn try_load(pool: &ConstantPool) -> (res: Option<CompilationResources>)
        ensures
            match res {
                Some(res) => {
                    &&& intact(pool@)
                    &&& res@ == loaded(pool@, pool@.defs.len() as int)
                    &&& linked(res.db@, pool@)
                },
                None => !intact(pool@),
            },
    {
        if is_intact(pool) {
            proof {
                law_loaded_is_linked(pool@, pool@.defs.len() as int);
            }
            Some(CompilationResources::load(pool))
        } else {
            None
        }
    }
}

} // verus!
