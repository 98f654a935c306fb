//! The types that the constant pool already describes, and how further ones are added to it.
use vstd::prelude::*;

use crate::pool::{
    AnyDefinition, AnyDefinitionV, ConstantPool, Definition, DefinitionV, PoolIndex, PoolType,
    PoolTypeV, PoolV, UNDEFINED,
};
use crate::repo::{array_id, ref_id, script_ref_id, wref_id, DataType, RepoV, TypeRepo};
use crate::tables::{KeyTable, NameTable};
use crate::text::{concat, is};
use crate::types::{lemma_data_view, lemma_prim_plain, prim_name, Prim, Type, TypeV};

verus! {

/// Whether a type is a class whose values are passed by reference.
pub open spec fn is_ref_class(id: Seq<char>, repo: RepoV) -> bool {
    repo.is_class(id) && !repo.class(id).flags.is_struct
}

/// The name under which the pool keeps a type. A class by itself goes by its own name where it is
/// `unwrapped`, and by that of a reference to it where it is not.
pub open spec fn mangled(typ: TypeV, repo: RepoV, unwrapped: bool) -> Seq<char>
    decreases typ,
{
    match typ {
        TypeV::Data(data) => {
            if (data.id == ref_id() || data.id == wref_id()) && data.args.len() > 0 {
                data.id + ":"@ + mangled(data.args[0], repo, true)
            } else if repo.is_builtin(data.id) && data.args.len() > 0 {
                data.id + ":"@ + mangled(data.args[0], repo, false)
            } else if is_ref_class(data.id, repo) && !unwrapped {
                "ref:"@ + data.id
            } else {
                data.id
            }
        },
        TypeV::Prim(prim) => prim_name(prim),
        _ => if unwrapped {
            "IScriptable"@
        } else {
            "ref:IScriptable"@
        },
    }
}

/// Whether the pool can describe a type: its names are known, a reference says to what, and a
/// built-in type with one argument is one that the pool has a form for.
pub open spec fn type_ok(typ: TypeV, repo: RepoV) -> bool
    decreases typ,
{
    match typ {
        TypeV::Data(data) => {
            &&& repo.has(data.id)
            &&& (data.id == ref_id() || data.id == wref_id()) ==> data.args.len() > 0
            &&& (data.id == ref_id() || data.id == wref_id() || repo.is_builtin(data.id))
                && data.args.len() > 0 ==> type_ok(data.args[0], repo)
            &&& repo.is_builtin(data.id) && data.args.len() == 1 ==> data.id == ref_id() || data.id
                == wref_id() || data.id == array_id() || data.id == script_ref_id()
        },
        _ => true,
    }
}

/// Whether values of a type are held through a reference that the type does not mention.
pub open spec fn is_boxed(typ: TypeV, repo: RepoV) -> bool {
    match typ {
        TypeV::Data(data) => is_ref_class(data.id, repo),
        TypeV::Prim(_) => false,
        _ => true,
    }
}

/// A pool and the cache of the types that it describes.
#[verifier::ext_equal]
pub struct ImageV {
    pub pool: PoolV,
    pub cache: Map<Seq<char>, int>,
}

impl ImageV {
    pub open spec fn with_name(self, name: Seq<char>) -> ImageV {
        ImageV { pool: self.pool.with_name(name), cache: self.cache }
    }

    pub open spec fn with_def(self, def: DefinitionV) -> ImageV {
        ImageV { pool: self.pool.with_def(def), cache: self.cache }
    }

    pub open spec fn put(self, i: int, def: DefinitionV) -> ImageV {
        ImageV { pool: self.pool.put(i, def), cache: self.cache }
    }

    /// The image with a type defined under a name, and the index of the new definition.
    pub open spec fn define_type(self, name: Seq<char>, typ: PoolTypeV) -> (ImageV, int) {
        (
            ImageV {
                pool: self.pool.with_name(name).with_def(
                    DefinitionV {
                        name: self.pool.name_slot(name),
                        parent: UNDEFINED as int,
                        value: AnyDefinitionV::Type(typ),
                    },
                ),
                cache: self.cache.insert(name, self.pool.defs.len() as int),
            },
            self.pool.defs.len() as int,
        )
    }
}

/// The image that describes a type, and the index of that type. Values of a boxed type are
/// described as references.
pub open spec fn allocated(typ: TypeV, repo: RepoV, image: ImageV) -> (ImageV, int)
    decreases typ, 1nat,
{
    if is_boxed(typ, repo) {
        let name = ref_id() + ":"@ + mangled(typ, repo, true);
        if image.cache.dom().contains(name) {
            (image, image.cache[name])
        } else {
            let (image, inner) = allocated_unwrapped(typ, repo, image);
            image.define_type(name, PoolTypeV::Ref(inner))
        }
    } else {
        allocated_unwrapped(typ, repo, image)
    }
}

/// The image that describes a type by its own name, and the index of that type. A type that is
/// already described is left alone.
pub open spec fn allocated_unwrapped(typ: TypeV, repo: RepoV, image: ImageV) -> (ImageV, int)
    decreases typ, 0nat,
{
    let name = mangled(typ, repo, true);
    if image.cache.dom().contains(name) {
        (image, image.cache[name])
    } else {
        match typ {
            TypeV::Data(data) => if repo.is_builtin(data.id) && data.args.len() == 1 {
                if data.id == ref_id() {
                    let (image, inner) = allocated_unwrapped(data.args[0], repo, image);
                    image.define_type(name, PoolTypeV::Ref(inner))
                } else if data.id == wref_id() {
                    let (image, inner) = allocated_unwrapped(data.args[0], repo, image);
                    image.define_type(name, PoolTypeV::WeakRef(inner))
                } else if data.id == array_id() {
                    let (image, inner) = allocated(data.args[0], repo, image);
                    image.define_type(name, PoolTypeV::Array(inner))
                } else {
                    let (image, inner) = allocated(data.args[0], repo, image);
                    image.define_type(name, PoolTypeV::ScriptRef(inner))
                }
            } else {
                image.define_type(name, PoolTypeV::Class)
            },
            TypeV::Prim(_) => image.define_type(name, PoolTypeV::Prim),
            _ => image.define_type(name, PoolTypeV::Class),
        }
    }
}

/// Whether a pool holds all that another one held, at the same places.
pub open spec fn extends(from: PoolV, to: PoolV) -> bool {
    &&& from.names.len() <= to.names.len()
    &&& from.defs.len() <= to.defs.len()
    &&& forall|i: int| 0 <= i < from.names.len() ==> #[trigger] to.names[i] == from.names[i]
    &&& forall|i: int| 0 <= i < from.defs.len() ==> #[trigger] to.defs[i] == from.defs[i]
}

/// Whether an image holds all that another one held.
pub open spec fn grows(from: ImageV, to: ImageV) -> bool {
    &&& extends(from.pool, to.pool)
    &&& forall|name: Seq<char>| #[trigger]
        from.cache.dom().contains(name) ==> to.cache.dom().contains(name) && to.cache[name]
            == from.cache[name]
}

pub proof fn lemma_grows_trans(a: ImageV, b: ImageV, c: ImageV)
    requires
        grows(a, b),
        grows(b, c),
    ensures
        grows(a, c),
{
    assert forall|i: int| 0 <= i < a.pool.names.len() implies #[trigger] c.pool.names[i]
        == a.pool.names[i] by {
        assert(b.pool.names[i] == a.pool.names[i]);
    }
    assert forall|i: int| 0 <= i < a.pool.defs.len() implies #[trigger] c.pool.defs[i]
        == a.pool.defs[i] by {
        assert(b.pool.defs[i] == a.pool.defs[i]);
    }
}

/// Describing a type leaves every definition and every cached type as they are.
pub proof fn law_allocation_extends(typ: TypeV, repo: RepoV, image: ImageV)
    ensures
        grows(image, allocated(typ, repo, image).0),
        grows(image, allocated_unwrapped(typ, repo, image).0),
    decreases typ,
{
    match typ {
        TypeV::Data(data) => {
            if data.args.len() == 1 {
                law_allocation_extends(data.args[0], repo, image);
            }
        },
        _ => {},
    }
    assert(grows(image, allocated_unwrapped(typ, repo, image).0));
}

/// A type that has been described is found again: the second time the same index comes out and
/// nothing changes.
pub proof fn law_allocation_idempotent(typ: TypeV, repo: RepoV, image: ImageV)
    ensures
        allocated(typ, repo, allocated(typ, repo, image).0) == allocated(typ, repo, image),
        allocated_unwrapped(typ, repo, allocated_unwrapped(typ, repo, image).0)
            == allocated_unwrapped(typ, repo, image),
{
}

/// Whether a type is a class that is called like the built-in references. It is described as a
/// reference, but its name does not say so.
pub open spec fn is_odd(typ: TypeV, repo: RepoV) -> bool {
    typ matches TypeV::Data(data) && {
        &&& data.id == ref_id() || data.id == wref_id()
        &&& data.args.len() > 0
        &&& is_ref_class(data.id, repo)
    }
}

/// The name under which a type is looked up in the cache.
spec fn cache_name(typ: TypeV, repo: RepoV) -> Seq<char> {
    if is_boxed(typ, repo) {
        ref_id() + ":"@ + mangled(typ, repo, true)
    } else {
        mangled(typ, repo, true)
    }
}

/// A type is looked up under the name that is written out for it.
proof fn lemma_cache_name(typ: TypeV, repo: RepoV)
    requires
        !is_odd(typ, repo),
    ensures
        cache_name(typ, repo) == mangled(typ, repo, false),
{
    reveal_strlit("ref");
    reveal_strlit(":");
    reveal_strlit("ref:");
    reveal_strlit("IScriptable");
    reveal_strlit("ref:IScriptable");
    assert("ref:"@ =~= "ref"@ + ":"@);
    assert("ref:IScriptable"@ =~= "ref"@ + ":"@ + "IScriptable"@);
}

proof fn lemma_cached(typ: TypeV, repo: RepoV, image: ImageV)
    ensures
        ({
            let (done, idx) = allocated(typ, repo, image);
            let name = cache_name(typ, repo);
            &&& done.cache.dom().contains(name)
            &&& done.cache[name] == idx
            &&& image.cache.dom().contains(name) ==> done == image
        }),
{
}

/// There is one description for each name: once a type has been described, every type of the same
/// name is found at its index, and nothing changes.
pub proof fn law_one_index_for_each_name(
    typ: TypeV,
    other: TypeV,
    repo: RepoV,
    image: ImageV,
    later: ImageV,
)
    requires
        !is_odd(typ, repo),
        !is_odd(other, repo),
        mangled(other, repo, false) == mangled(typ, repo, false),
        grows(allocated(typ, repo, image).0, later),
    ensures
        allocated(other, repo, later) == (later, allocated(typ, repo, image).1),
{
    lemma_cache_name(typ, repo);
    lemma_cache_name(other, repo);
    lemma_cached(typ, repo, image);
    assert(later.cache.dom().contains(cache_name(typ, repo)));
}

/// A type that is cached under its name is found at its index, and nothing changes.
pub proof fn law_cached_is_found(typ: TypeV, repo: RepoV, image: ImageV)
    requires
        !is_odd(typ, repo),
        image.cache.dom().contains(mangled(typ, repo, false)),
    ensures
        allocated(typ, repo, image) == (image, image.cache[mangled(typ, repo, false)]),
{
    lemma_cache_name(typ, repo);
}

/// Whether each cached type is where its name is.
pub open spec fn cache_agrees(image: ImageV) -> bool {
    forall|name: Seq<char>| #[trigger]
        image.cache.dom().contains(name) ==> {
            &&& image.pool.is_named(image.cache[name])
            &&& image.pool.name_of(image.cache[name]) == name
            &&& image.pool.value(image.cache[name]) is Type
        }
}

proof fn lemma_define_agrees(image: ImageV, name: Seq<char>, typ: PoolTypeV)
    requires
        cache_agrees(image),
    ensures
        cache_agrees(image.define_type(name, typ).0),
{
    let done = image.define_type(name, typ).0;
    assert forall|other: Seq<char>| #[trigger] done.cache.dom().contains(other) implies {
        &&& done.pool.is_named(done.cache[other])
        &&& done.pool.name_of(done.cache[other]) == other
        &&& done.pool.value(done.cache[other]) is Type
    } by {
        if other != name {
            assert(image.cache.dom().contains(other));
            assert(done.pool.defs[image.cache[other]] == image.pool.defs[image.cache[other]]);
        }
    }
}

proof fn lemma_agrees(typ: TypeV, repo: RepoV, image: ImageV)
    requires
        cache_agrees(image),
    ensures
        cache_agrees(allocated(typ, repo, image).0),
        cache_agrees(allocated_unwrapped(typ, repo, image).0),
    decreases typ,
{
    let name = mangled(typ, repo, true);
    if !image.cache.dom().contains(name) {
        match typ {
            TypeV::Data(data) => if repo.is_builtin(data.id) && data.args.len() == 1 {
                let arg = data.args[0];
                lemma_agrees(arg, repo, image);
                let (bare, at) = allocated_unwrapped(arg, repo, image);
                let (full, to) = allocated(arg, repo, image);
                lemma_define_agrees(bare, name, PoolTypeV::Ref(at));
                lemma_define_agrees(bare, name, PoolTypeV::WeakRef(at));
                lemma_define_agrees(full, name, PoolTypeV::Array(to));
                lemma_define_agrees(full, name, PoolTypeV::ScriptRef(to));
            } else {
                lemma_define_agrees(image, name, PoolTypeV::Class);
            },
            TypeV::Prim(_) => {
                lemma_define_agrees(image, name, PoolTypeV::Prim);
            },
            _ => {
                lemma_define_agrees(image, name, PoolTypeV::Class);
            },
        }
    }
    let (done, idx) = allocated_unwrapped(typ, repo, image);
    lemma_define_agrees(done, ref_id() + ":"@ + name, PoolTypeV::Ref(idx));
}

/// The definition that a type is given bears the name of the type, and cache and pool agree on all
/// names as they did before.
pub proof fn law_described_under_its_name(typ: TypeV, repo: RepoV, image: ImageV)
    requires
        cache_agrees(image),
        !is_odd(typ, repo),
    ensures
        ({
            let (done, idx) = allocated(typ, repo, image);
            &&& done.pool.is_named(idx)
            &&& done.pool.name_of(idx) == mangled(typ, repo, false)
            &&& done.pool.value(idx) is Type
            &&& cache_agrees(done)
            &&& grows(image, done)
        }),
{
    lemma_agrees(typ, repo, image);
    lemma_cache_name(typ, repo);
    lemma_cached(typ, repo, image);
    law_allocation_extends(typ, repo, image);
}

/// Whether a name says that it is that of a reference.
pub open spec fn says_ref(name: Seq<char>) -> bool {
    "ref:"@.is_prefix_of(name)
}

/// Whether the pool has a reference at an index.
pub open spec fn has_ref(pool: PoolV, idx: int) -> bool {
    pool.value(idx) matches AnyDefinitionV::Type(typ) && typ is Ref
}

/// Whether the cached types that are references are those whose names say so.
pub open spec fn refs_agree(image: ImageV) -> bool {
    forall|name: Seq<char>| #[trigger]
        image.cache.dom().contains(name) ==> image.pool.has(image.cache[name]) && (has_ref(
            image.pool,
            image.cache[name],
        ) <==> says_ref(name))
}

/// Whether no name in a type is mistaken for that of a reference, and no reference has two
/// arguments.
pub open spec fn refs_clear(typ: TypeV, repo: RepoV) -> bool
    decreases typ,
{
    match typ {
        TypeV::Data(data) => {
            &&& !says_ref(data.id)
            &&& data.id == ref_id() ==> data.args.len() <= 1
            &&& repo.is_builtin(data.id) && data.args.len() == 1 ==> refs_clear(data.args[0], repo)
        },
        _ => true,
    }
}

proof fn lemma_says_ref(head: Seq<char>, rest: Seq<char>)
    ensures
        says_ref(head + ":"@ + rest) <==> head == ref_id() || says_ref(head),
{
    reveal_strlit("ref");
    reveal_strlit(":");
    reveal_strlit("ref:");
    let name = head + ":"@ + rest;
    let key = "ref:"@;
    if head == ref_id() {
        assert(key =~= name.subrange(0, key.len() as int));
    } else if says_ref(head) {
        assert(key =~= name.subrange(0, key.len() as int)) by {
            assert(key =~= head.subrange(0, key.len() as int));
            assert forall|i: int| 0 <= i < key.len() implies key[i] == name[i] by {
                assert(head.subrange(0, key.len() as int)[i] == head[i]);
            }
        }
    } else if says_ref(name) {
        assert forall|i: int| 0 <= i < key.len() implies key[i] == #[trigger] name[i] by {
            assert(name.subrange(0, key.len() as int)[i] == name[i]);
        }
        if head.len() >= 4 {
            assert(key =~= head.subrange(0, 4)) by {
                assert forall|i: int| 0 <= i < 4 implies key[i] == head[i] by {
                    assert(name[i] == head[i]);
                }
            }
        } else {
            assert(name[head.len() as int] == ':');
            assert(head.len() == 3);
            assert(head =~= "ref"@) by {
                assert forall|i: int| 0 <= i < 3 implies head[i] == "ref"@[i] by {
                    assert(name[i] == head[i]);
                }
            }
        }
    }
}

proof fn lemma_define_refs(image: ImageV, name: Seq<char>, typ: PoolTypeV)
    requires
        refs_agree(image),
        says_ref(name) <==> typ is Ref,
    ensures
        refs_agree(image.define_type(name, typ).0),
{
    let done = image.define_type(name, typ).0;
    assert forall|other: Seq<char>| #[trigger] done.cache.dom().contains(other) implies {
        &&& done.pool.has(done.cache[other])
        &&& has_ref(done.pool, done.cache[other]) <==> says_ref(other)
    } by {
        if other != name {
            assert(image.cache.dom().contains(other));
            assert(done.pool.defs[image.cache[other]] == image.pool.defs[image.cache[other]]);
        }
    }
}

proof fn lemma_plain_refs()
    ensures
        !says_ref("IScriptable"@),
        forall|prim: Prim| !says_ref(#[trigger] prim_name(prim)),
        wref_id() != ref_id(),
        array_id() != ref_id(),
        script_ref_id() != ref_id(),
{
    reveal_strlit("ref");
    reveal_strlit("ref:");
    reveal_strlit("IScriptable");
    reveal_strlit("wref");
    reveal_strlit("array");
    reveal_strlit("script_ref");
    assert("ref"@.len() == 3 && "wref"@.len() == 4 && "array"@.len() == 5);
    let key = "ref:"@;
    assert(key[3] == ':');
    if says_ref("IScriptable"@) {
        assert(key[0] == "IScriptable"@.subrange(0, 4)[0]);
    }
    assert forall|prim: Prim| !says_ref(#[trigger] prim_name(prim)) by {
        lemma_prim_plain(prim);
        let name = prim_name(prim);
        if says_ref(name) {
            assert(name.subrange(0, 4)[3] == ':');
            assert(name[3] == ':');
            assert(name.contains(':'));
        }
    }
}

proof fn lemma_refs(typ: TypeV, repo: RepoV, image: ImageV)
    requires
        repo.is_builtin(ref_id()),
        refs_agree(image),
        refs_clear(typ, repo),
    ensures
        refs_agree(allocated(typ, repo, image).0),
        refs_agree(allocated_unwrapped(typ, repo, image).0),
        says_ref(mangled(typ, repo, true)) ==> (typ matches TypeV::Data(data) && data.id
            == ref_id()),
    decreases typ,
{
    lemma_plain_refs();
    let name = mangled(typ, repo, true);
    if let TypeV::Data(data) = typ {
        if data.args.len() > 0 {
            lemma_says_ref(data.id, mangled(data.args[0], repo, true));
            lemma_says_ref(data.id, mangled(data.args[0], repo, false));
        }
        if repo.is_builtin(data.id) && data.args.len() == 1 {
            lemma_refs(data.args[0], repo, image);
        }
    }
    if !image.cache.dom().contains(name) {
        match typ {
            TypeV::Data(data) => if repo.is_builtin(data.id) && data.args.len() == 1 {
                let arg = data.args[0];
                let (bare, at) = allocated_unwrapped(arg, repo, image);
                let (full, to) = allocated(arg, repo, image);
                if data.id == ref_id() {
                    lemma_define_refs(bare, name, PoolTypeV::Ref(at));
                } else if data.id == wref_id() {
                    lemma_define_refs(bare, name, PoolTypeV::WeakRef(at));
                } else if data.id == array_id() {
                    lemma_define_refs(full, name, PoolTypeV::Array(to));
                } else {
                    lemma_define_refs(full, name, PoolTypeV::ScriptRef(to));
                }
            } else {
                lemma_define_refs(image, name, PoolTypeV::Class);
            },
            TypeV::Prim(_) => {
                lemma_define_refs(image, name, PoolTypeV::Prim);
            },
            _ => {
                lemma_define_refs(image, name, PoolTypeV::Class);
            },
        }
    }
    let (done, idx) = allocated_unwrapped(typ, repo, image);
    lemma_says_ref(ref_id(), name);
    lemma_define_refs(done, ref_id() + ":"@ + name, PoolTypeV::Ref(idx));
}

/// What can be anything, and a class that is no struct, is described as a reference. Of all other
/// types only `ref` itself is.
pub proof fn law_boxed_is_a_reference(typ: TypeV, repo: RepoV, image: ImageV)
    requires
        repo.is_builtin(ref_id()),
        refs_agree(image),
        refs_clear(typ, repo),
    ensures
        ({
            let (done, idx) = allocated(typ, repo, image);
            &&& refs_agree(done)
            &&& is_boxed(typ, repo) ==> has_ref(done.pool, idx)
            &&& has_ref(done.pool, idx) ==> is_boxed(typ, repo) || (typ matches TypeV::Data(data)
                && data.id == ref_id())
        }),
{
    lemma_refs(typ, repo, image);
    lemma_cached(typ, repo, image);
    lemma_says_ref(ref_id(), mangled(typ, repo, true));
    let done = allocated(typ, repo, image).0;
    assert(done.cache.dom().contains(cache_name(typ, repo)));
}

/// Writes out the name under which the pool keeps a type.
pub fn serialize_type(typ: &Type, repo: &TypeRepo, unwrapped: bool) -> (res: String)
    requires
        type_ok(typ@, repo@),
    ensures
        res@ == mangled(typ@, repo@, unwrapped),
    decreases typ,
{
    broadcast use lemma_data_view;

    match typ {
        Type::Data(data) => {
            let is_ref = is(&data.id, "ref") || is(&data.id, "wref");
            if is_ref {
                proof {
                    assert(data@.args[0] == data.args@[0]@);
                }
                let inner = serialize_type(&data.args[0], repo, true);
                let mut res = concat(data.id.as_str(), ":");
                res.append(inner.as_str());
                res
            } else {
                match repo.get_type(&data.id).unwrap() {
                    DataType::Builtin(_) => {
                        if data.args.len() > 0 {
                            proof {
                                assert(data@.args[0] == data.args@[0]@);
                            }
                            let inner = serialize_type(&data.args[0], repo, false);
                            let mut res = concat(data.id.as_str(), ":");
                            res.append(inner.as_str());
                            res
                        } else {
                            data.id.clone()
                        }
                    },
                    DataType::Class(class) => {
                        if !class.flags.is_struct && !unwrapped {
                            concat("ref:", data.id.as_str())
                        } else {
                            data.id.clone()
                        }
                    },
                    DataType::Enum(_) => data.id.clone(),
                }
            }
        },
        Type::Prim(prim) => prim.name().to_owned(),
        _ => if unwrapped {
            "IScriptable".to_owned()
        } else {
            "ref:IScriptable".to_owned()
        },
    }
}

/// The types that the pool describes, by name.
pub struct TypeCache {
    types: NameTable,
}

impl View for TypeCache {
    type V = Map<Seq<char>, int>;

    closed spec fn view(&self) -> Map<Seq<char>, int> {
        self.types@
    }
}

/// The image that a pool and a cache make up.
pub open spec fn image(pool: ConstantPool, cache: TypeCache) -> ImageV {
    ImageV { pool: pool@, cache: cache@ }
}

impl TypeCache {
    pub fn new() -> (res: TypeCache)
        ensures
            res@ == (Map::<Seq<char>, int>::empty()),
    {
        TypeCache { types: NameTable::empty() }
    }

    /// Notes that the pool describes a type under this name.
    pub fn add(&mut self, mangled: String, idx: PoolIndex)
        ensures
            final(self)@ == old(self)@.insert(mangled@, idx as int),
    {
        self.types.put(&mangled, idx);
    }

    pub fn find(&self, mangled: &String) -> (res: Option<PoolIndex>)
        ensures
            res is Some <==> self@.dom().contains(mangled@),
            res matches Some(idx) ==> idx == self@[mangled@],
    {
        self.types.find(mangled)
    }

    /// The index of a type in the pool, which is made to describe it where it does not yet.
    pub fn alloc_type(&mut self, typ: &Type, repo: &TypeRepo, pool: &mut ConstantPool) -> (idx:
        PoolIndex)
        requires
            repo@.is_builtin(ref_id()),
            type_ok(typ@, repo@),
        ensures
            allocated(typ@, repo@, image(*old(pool), *old(self))) == (
                image(*final(pool), *final(self)),
                idx as int,
            ),
        decreases typ, 2nat,
    {
        broadcast use lemma_data_view;

        let boxed = match typ {
            Type::Data(data) => match repo.get_class(&data.id) {
                Some(class) => !class.flags.is_struct,
                None => false,
            },
            Type::Prim(_) => false,
            _ => true,
        };
        assert(boxed == is_boxed(typ@, repo@));
        if boxed {
            let inner = serialize_type(typ, repo, true);
            let mut name = concat("ref", ":");
            name.append(inner.as_str());
            match self.find(&name) {
                Some(idx) => idx,
                None => {
                    let inner = self.alloc_type_unwrapped(typ, repo, pool);
                    self.define_type(name, PoolType::Ref(inner), pool)
                },
            }
        } else {
            self.alloc_type_unwrapped(typ, repo, pool)
        }
    }

    fn alloc_type_unwrapped(
        &mut self,
        typ: &Type,
        repo: &TypeRepo,
        pool: &mut ConstantPool,
    ) -> (idx: PoolIndex)
        requires
            repo@.is_builtin(ref_id()),
            type_ok(typ@, repo@),
        ensures
            allocated_unwrapped(typ@, repo@, image(*old(pool), *old(self))) == (
                image(*final(pool), *final(self)),
                idx as int,
            ),
        decreases typ, 1nat,
    {
        let name = serialize_type(typ, repo, true);
        match self.find(&name) {
            Some(idx) => idx,
            None => self.add_type(name, typ, repo, pool),
        }
    }

    /// Describes a type that the pool does not describe yet.
    fn add_type(
        &mut self,
        name: String,
        typ: &Type,
        repo: &TypeRepo,
        pool: &mut ConstantPool,
    ) -> (idx: PoolIndex)
        requires
            repo@.is_builtin(ref_id()),
            type_ok(typ@, repo@),
            name@ == mangled(typ@, repo@, true),
            !old(self)@.dom().contains(name@),
        ensures
            allocated_unwrapped(typ@, repo@, image(*old(pool), *old(self))) == (
                image(*final(pool), *final(self)),
                idx as int,
            ),
        decreases typ, 0nat,
    {
        broadcast use lemma_data_view;

        let pool_type = match typ {
            Type::Data(data) => {
                let is_builtin = match repo.get_type(&data.id).unwrap() {
                    DataType::Builtin(_) => true,
                    _ => false,
                };
                if is_builtin && data.args.len() == 1 {
                    proof {
                        assert(data@.args[0] == data.args@[0]@);
                    }
                    if is(&data.id, "ref") {
                        PoolType::Ref(self.alloc_type_unwrapped(&data.args[0], repo, pool))
                    } else if is(&data.id, "wref") {
                        PoolType::WeakRef(self.alloc_type_unwrapped(&data.args[0], repo, pool))
                    } else if is(&data.id, "array") {
                        PoolType::Array(self.alloc_type(&data.args[0], repo, pool))
                    } else {
                        PoolType::ScriptRef(self.alloc_type(&data.args[0], repo, pool))
                    }
                } else {
                    PoolType::Class
                }
            },
            Type::Prim(_) => PoolType::Prim,
            _ => PoolType::Class,
        };
        self.define_type(name, pool_type, pool)
    }

    fn define_type(&mut self, name: String, typ: PoolType, pool: &mut ConstantPool) -> (idx:
        PoolIndex)
        ensures
            image(*old(pool), *old(self)).define_type(name@, typ@) == (
                image(*final(pool), *final(self)),
                idx as int,
            ),
    {
        let name_idx = pool.add_name(name.clone());
        let idx = pool.add_definition(
            Definition { name: name_idx, parent: UNDEFINED, value: AnyDefinition::Type(typ) },
        );
        self.add(name, idx);
        idx
    }
}

} // verus!
