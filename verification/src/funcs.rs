//! Functions: their types, their names and the maps that hold them.
use vstd::prelude::*;

use crate::dict::views;
use crate::flags::FunctionFlags;
use crate::tables::{MemberId, MemberIdV};
use crate::text::{join, joined, lemma_split_head, split};
use crate::types::{type_text, Type, TypeV};

verus! {

/// The model of an optional value.
pub open spec fn opt_view<T: View>(x: Option<T>) -> Option<T::V> {
    match x {
        Some(v) => Some(v@),
        None => None,
    }
}

/// A type variable with the type that bounds it from above.
pub struct TypeVar {
    pub name: String,
    pub upper: Type,
}

pub struct TypeVarV {
    pub name: Seq<char>,
    pub upper: TypeV,
}

impl View for TypeVar {
    type V = TypeVarV;

    open spec fn view(&self) -> TypeVarV {
        TypeVarV { name: self.name@, upper: self.upper@ }
    }
}

/// A parameter of a function. It is polymorphic when it takes the place of a type variable of the
/// method that is overridden.
pub struct FuncParam {
    pub typ: Type,
    pub is_out: bool,
    pub is_poly: bool,
}

pub struct FuncParamV {
    pub typ: TypeV,
    pub is_out: bool,
    pub is_poly: bool,
}

impl View for FuncParam {
    type V = FuncParamV;

    open spec fn view(&self) -> FuncParamV {
        FuncParamV { typ: self.typ@, is_out: self.is_out, is_poly: self.is_poly }
    }
}

impl FuncParam {
    /// A parameter that is not polymorphic.
    pub fn custom(typ: Type, is_out: bool) -> (res: FuncParam)
        ensures
            res@ == (FuncParamV { typ: typ@, is_out, is_poly: false }),
    {
        FuncParam { typ, is_out, is_poly: false }
    }
}

/// The type of a function.
pub struct FuncType {
    pub type_vars: Vec<TypeVar>,
    pub params: Vec<FuncParam>,
    pub ret: Type,
    pub is_ret_poly: bool,
}

#[verifier::ext_equal]
pub struct FuncTypeV {
    pub type_vars: Seq<TypeVarV>,
    pub params: Seq<FuncParamV>,
    pub ret: TypeV,
    pub is_ret_poly: bool,
}

impl View for FuncType {
    type V = FuncTypeV;

    open spec fn view(&self) -> FuncTypeV {
        FuncTypeV {
            type_vars: views(self.type_vars@),
            params: views(self.params@),
            ret: self.ret@,
            is_ret_poly: self.is_ret_poly,
        }
    }
}

impl FuncType {
    /// A function type whose result is not polymorphic.
    pub fn new(type_vars: Vec<TypeVar>, params: Vec<FuncParam>, ret: Type) -> (res: FuncType)
        ensures
            res@ == (FuncTypeV {
                type_vars: views(type_vars@),
                params: views(params@),
                ret: ret@,
                is_ret_poly: false,
            }),
    {
        FuncType { type_vars, params, ret, is_ret_poly: false }
    }
}

/// A name and the path of the module that it belongs to. A top-level name has an empty path.
pub struct ScopedName {
    pub path: Vec<String>,
    pub name: String,
}

#[verifier::ext_equal]
pub struct ScopedNameV {
    pub path: Seq<Seq<char>>,
    pub name: Seq<char>,
}

impl View for ScopedName {
    type V = ScopedNameV;

    open spec fn view(&self) -> ScopedNameV {
        ScopedNameV { path: views(self.path@), name: self.name@ }
    }
}

/// A top-level name.
pub open spec fn top_level(name: Seq<char>) -> ScopedNameV {
    ScopedNameV { path: Seq::empty(), name }
}

impl ScopedNameV {
    /// The path and the name, as one path.
    pub open spec fn parts(self) -> Seq<Seq<char>> {
        self.path.push(self.name)
    }
}

/// A second copy of a list of names.
pub(crate) fn dup_names(names: &Vec<String>) -> (res: Vec<String>)
    ensures
        views(res@) == views(names@),
{
    let mut res: Vec<String> = Vec::new();
    let mut i: usize = 0;
    while i < names.len()
        invariant
            i <= names.len(),
            res.len() == i,
            forall|j: int| 0 <= j < i ==> #[trigger] res@[j]@ == names@[j]@,
        decreases names.len() - i,
    {
        res.push(names[i].clone());
        i += 1;
    }
    assert(views(res@) =~= views(names@));
    res
}

impl ScopedName {
    pub fn top_level(name: String) -> (res: ScopedName)
        ensures
            res@ == top_level(name@),
    {
        let res = ScopedName { path: Vec::new(), name };
        assert(res@ =~= top_level(name@));
        res
    }

    /// The name in a module with this path.
    pub fn new(name: &String, path: &Vec<String>) -> (res: ScopedName)
        ensures
            res@ == (ScopedNameV { path: views(path@), name: name@ }),
    {
        ScopedName { path: dup_names(path), name: name.clone() }
    }

    /// A second copy of the name.
    pub fn dup(&self) -> (res: ScopedName)
        ensures
            res@ == self@,
    {
        ScopedName { path: dup_names(&self.path), name: self.name.clone() }
    }

    /// The path and the name, as one path.
    pub fn as_parts(&self) -> (res: Vec<String>)
        ensures
            views(res@) == self@.parts(),
    {
        broadcast use crate::dict::group_views;

        let mut res = dup_names(&self.path);
        res.push(self.name.clone());
        res
    }

    pub fn same(&self, other: &ScopedName) -> (res: bool)
        ensures
            res == (self@ == other@),
    {
        if self.name != other.name || self.path.len() != other.path.len() {
            assert(self@.name != other@.name || self@.path.len() != other@.path.len());
            return false;
        }
        let mut i: usize = 0;
        while i < self.path.len()
            invariant
                i <= self.path.len(),
                self.path.len() == other.path.len(),
                forall|j: int| 0 <= j < i ==> #[trigger] self.path@[j]@ == other.path@[j]@,
            decreases self.path.len() - i,
        {
            if self.path[i] != other.path[i] {
                assert(self@.path[i as int] != other@.path[i as int]);
                return false;
            }
            i += 1;
        }
        assert(self@ =~= other@);
        true
    }
}

/// The first `n` parameters written out one after the other.
pub open spec fn params_text(params: Seq<FuncParamV>, n: int) -> Seq<char>
    decreases n,
{
    if n <= 0 {
        Seq::empty()
    } else {
        params_text(params, n - 1) + type_text(params[n - 1].typ)
    }
}

/// The signature of a function: its full name, the types of its parameters and of its result,
/// with a semicolon between each two.
pub open spec fn signature(name: ScopedNameV, typ: FuncTypeV) -> Seq<char> {
    joined(name.parts(), "."@) + ";"@ + params_text(typ.params, typ.params.len() as int) + ";"@
        + type_text(typ.ret)
}

/// Writes out the signature of a function.
pub fn make_signature(name: &ScopedName, typ: &FuncType) -> (res: String)
    ensures
        res@ == signature(name@, typ@),
{
    let parts = name.as_parts();
    let mut res = join(&parts, ".");
    res.append(";");
    let ghost head = res@;
    let mut i: usize = 0;
    assert(head + params_text(typ@.params, 0) =~= head);
    while i < typ.params.len()
        invariant
            i <= typ.params.len(),
            res@ == head + params_text(typ@.params, i as int),
        decreases typ.params.len() - i,
    {
        let text = typ.params[i].typ.text();
        res.append(text.as_str());
        i += 1;
        proof {
            assert(typ@.params[i - 1] == typ.params@[i - 1]@);
            assert(head + params_text(typ@.params, i - 1) + text@ =~= head + (params_text(
                typ@.params,
                i - 1,
            ) + text@));
        }
    }
    res.append(";");
    let ret = typ.ret.text();
    res.append(ret.as_str());
    res
}

/// The place of a function name in a map.
pub type FuncIndex = usize;

/// The place of one overload in a map, together with the place of its name.
#[derive(Clone, Copy, PartialEq, Eq, Structural, Debug)]
pub struct OverloadIndex {
    pub func: FuncIndex,
    pub slot: usize,
}

/// One function in a map: the place of its name, its signature, type and flags, and the method
/// that it overrides.
pub struct FuncEntry {
    pub func: FuncIndex,
    pub signature: String,
    pub typ: FuncType,
    pub flags: FunctionFlags,
    pub base: Option<MemberId>,
}

pub struct FuncEntryV {
    pub func: int,
    pub signature: Seq<char>,
    pub typ: FuncTypeV,
    pub flags: FunctionFlags,
    pub base: Option<MemberIdV>,
}

impl View for FuncEntry {
    type V = FuncEntryV;

    open spec fn view(&self) -> FuncEntryV {
        FuncEntryV {
            func: self.func as int,
            signature: self.signature@,
            typ: self.typ@,
            flags: self.flags,
            base: opt_view(self.base),
        }
    }
}

impl FuncEntryV {
    /// A function has an implementation when it has a body or is native.
    pub open spec fn is_implemented(self) -> bool {
        self.flags.has_body || self.flags.is_native
    }
}

impl FuncEntry {
    pub fn is_implemented(&self) -> (res: bool)
        ensures
            res == self@.is_implemented(),
    {
        self.flags.has_body || self.flags.is_native
    }
}

/// The model of a function map.
#[verifier::ext_equal]
pub struct FuncMapV {
    pub names: Seq<ScopedNameV>,
    pub entries: Seq<FuncEntryV>,
}

/// The first entry of a name with a signature, or the number of entries if there is none.
pub open spec fn first_with(entries: Seq<FuncEntryV>, func: int, signature: Seq<char>) -> int
    decreases entries.len(),
{
    if entries.len() == 0 || (entries[0].func == func && entries[0].signature == signature) {
        0
    } else {
        1 + first_with(entries.drop_first(), func, signature)
    }
}

/// What is found is the first entry of a name with a signature.
pub proof fn lemma_first_with(entries: Seq<FuncEntryV>, func: int, signature: Seq<char>, n: int)
    requires
        0 <= n <= entries.len(),
        forall|i: int|
            0 <= i < n ==> !(#[trigger] entries[i].func == func && entries[i].signature
                == signature),
        n < entries.len() ==> entries[n].func == func && entries[n].signature == signature,
    ensures
        first_with(entries, func, signature) == n,
    decreases entries.len(),
{
    if n > 0 {
        let rest = entries.drop_first();
        assert forall|i: int| 0 <= i < n - 1 implies !(#[trigger] rest[i].func == func
            && rest[i].signature == signature) by {
            assert(rest[i] == entries[i + 1]);
        }
        lemma_first_with(rest, func, signature, n - 1);
    }
}

impl FuncMapV {
    pub open spec fn empty() -> FuncMapV {
        FuncMapV { names: Seq::empty(), entries: Seq::empty() }
    }

    /// Names are distinct, and every function has one of them.
    pub open spec fn wf(self) -> bool {
        &&& self.names.no_duplicates()
        &&& forall|i: int|
            0 <= i < self.entries.len() ==> 0 <= (#[trigger] self.entries[i]).func
                < self.names.len()
    }

    pub open spec fn has(self, slot: int) -> bool {
        0 <= slot < self.entries.len()
    }

    /// The name of the function at a place.
    pub open spec fn name_of(self, slot: int) -> ScopedNameV {
        self.names[self.entries[slot].func]
    }

    /// The place of a name: where it is, or where it would be added.
    pub open spec fn func_of(self, name: ScopedNameV) -> int {
        if self.names.contains(name) {
            self.names.index_of(name)
        } else {
            self.names.len() as int
        }
    }

    /// The map that knows a name.
    pub open spec fn reserve(self, name: ScopedNameV) -> FuncMapV {
        if self.names.contains(name) {
            self
        } else {
            FuncMapV { names: self.names.push(name), entries: self.entries }
        }
    }

    /// The place that a function takes: that of the function with the same name and signature,
    /// which it replaces, or the end.
    pub open spec fn slot_for(self, name: ScopedNameV, signature: Seq<char>) -> int {
        first_with(self.entries, self.func_of(name), signature)
    }

    /// The map with a function added.
    pub open spec fn add_with_signature(
        self,
        name: ScopedNameV,
        signature: Seq<char>,
        typ: FuncTypeV,
        flags: FunctionFlags,
    ) -> FuncMapV {
        let func = self.func_of(name);
        let slot = self.slot_for(name, signature);
        let entry = FuncEntryV { func, signature, typ, flags, base: None };
        FuncMapV {
            names: self.reserve(name).names,
            entries: if slot < self.entries.len() {
                self.entries.update(slot, entry)
            } else {
                self.entries.push(entry)
            },
        }
    }

    /// The map with a function added under the signature that its type gives it.
    pub open spec fn add(self, name: ScopedNameV, typ: FuncTypeV, flags: FunctionFlags) -> FuncMapV {
        self.add_with_signature(name, signature(name, typ), typ, flags)
    }

    /// Whether the function at a place has this name.
    pub open spec fn is_named(self, slot: int, name: ScopedNameV) -> bool {
        self.has(slot) && self.name_of(slot) == name
    }

    /// Whether the function at a place is the only one of its name.
    pub open spec fn is_only(self, slot: int, name: ScopedNameV) -> bool {
        &&& self.is_named(slot, name)
        &&& forall|i: int| self.is_named(i, name) ==> i == slot
    }
}

/// The functions of a class, or the global ones, in the order in which they were added.
pub struct FuncMap {
    names: Vec<ScopedName>,
    entries: Vec<FuncEntry>,
}

impl View for FuncMap {
    type V = FuncMapV;

    closed spec fn view(&self) -> FuncMapV {
        FuncMapV { names: views(self.names@), entries: views(self.entries@) }
    }
}

impl FuncMap {
    #[verifier::type_invariant]
    spec fn inv(self) -> bool {
        self@.wf()
    }

    pub fn new() -> (res: FuncMap)
        ensures
            res@ == FuncMapV::empty(),
    {
        broadcast use crate::dict::group_views;

        let res = FuncMap { names: Vec::new(), entries: Vec::new() };
        assert(res@ =~= FuncMapV::empty());
        res
    }

    /// The number of functions.
    pub fn len(&self) -> (n: usize)
        ensures
            self@.wf(),
            n == self@.entries.len(),
    {
        proof {
            use_type_invariant(self);
        }
        self.entries.len()
    }

    /// The number of names.
    pub fn names_len(&self) -> (n: usize)
        ensures
            self@.wf(),
            n == self@.names.len(),
    {
        proof {
            use_type_invariant(self);
        }
        self.names.len()
    }

    pub fn entry(&self, slot: usize) -> (res: &FuncEntry)
        requires
            self@.has(slot as int),
        ensures
            res@ == self@.entries[slot as int],
            self@.wf(),
    {
        proof {
            use_type_invariant(self);
        }
        &self.entries[slot]
    }

    /// The name at a place.
    pub fn get_name(&self, func: FuncIndex) -> (res: &ScopedName)
        requires
            func < self@.names.len(),
        ensures
            res@ == self@.names[func as int],
    {
        &self.names[func]
    }

    /// The name of the function at a place.
    pub fn name_of(&self, slot: usize) -> (res: &ScopedName)
        requires
            self@.has(slot as int),
        ensures
            res@ == self@.name_of(slot as int),
            self@.wf(),
    {
        proof {
            use_type_invariant(self);
            assert(self@.entries[slot as int] == self.entries@[slot as int]@);
        }
        &self.names[self.entries[slot].func]
    }

    fn find_name(&self, name: &ScopedName) -> (at: usize)
        ensures
            at == self@.func_of(name@),
            at <= self@.names.len(),
            self@.wf(),
            at < self@.names.len() <==> self@.names.contains(name@),
    {
        proof {
            use_type_invariant(self);
        }
        let mut i: usize = 0;
        while i < self.names.len()
            invariant
                i <= self.names.len(),
                self@.wf(),
                forall|j: int| 0 <= j < i ==> #[trigger] self@.names[j] != name@,
            decreases self.names.len() - i,
        {
            if self.names[i].same(name) {
                assert(self@.names[i as int] == name@);
                return i;
            }
            i += 1;
        }
        i
    }

    /// The place of a name, which is added where it is not known yet.
    pub fn reserve_name(&mut self, name: ScopedName) -> (at: FuncIndex)
        ensures
            old(self)@.wf(),
            at == old(self)@.func_of(name@),
            final(self)@ == old(self)@.reserve(name@),
    {
        broadcast use crate::dict::group_views;

        let at = self.find_name(&name);
        if at == self.names.len() {
            let mut taken = FuncMap::new();
            std::mem::swap(self, &mut taken);
            let FuncMap { mut names, entries } = taken;
            names.push(name);
            *self = FuncMap { names, entries };
        }
        at
    }

    /// Adds a function. One of the same name and signature is replaced.
    pub fn add_with_signature(
        &mut self,
        name: ScopedName,
        signature: String,
        typ: FuncType,
        flags: FunctionFlags,
    ) -> (at: OverloadIndex)
        ensures
            old(self)@.wf(),
            final(self)@ == old(self)@.add_with_signature(name@, signature@, typ@, flags),
            at.func == old(self)@.func_of(name@),
            at.slot == old(self)@.slot_for(name@, signature@),
    {
        broadcast use crate::dict::group_views;

        let func = self.reserve_name(name);
        proof {
            use_type_invariant(&*self);
        }
        let mut slot: usize = 0;
        while slot < self.entries.len() && !(self.entries[slot].func == func
            && self.entries[slot].signature == signature)
            invariant
                slot <= self.entries.len(),
                forall|j: int|
                    0 <= j < slot ==> !(#[trigger] self@.entries[j].func == func
                        && self@.entries[j].signature == signature@),
            decreases self.entries.len() - slot,
        {
            assert(self@.entries[slot as int] == self.entries@[slot as int]@);
            slot += 1;
        }
        proof {
            if slot < self.entries.len() {
                assert(self@.entries[slot as int] == self.entries@[slot as int]@);
            }
            lemma_first_with(self@.entries, func as int, signature@, slot as int);
        }
        let entry = FuncEntry { func, signature, typ, flags, base: None };
        let mut taken = FuncMap::new();
        std::mem::swap(self, &mut taken);
        let FuncMap { names, mut entries } = taken;
        if slot < entries.len() {
            entries.set(slot, entry);
        } else {
            entries.push(entry);
        }
        *self = FuncMap { names, entries };
        OverloadIndex { func, slot }
    }

    /// Adds a function under the signature that its type gives it.
    pub fn add(&mut self, name: ScopedName, typ: FuncType, flags: FunctionFlags) -> (at:
        OverloadIndex)
        ensures
            old(self)@.wf(),
            final(self)@ == old(self)@.add(name@, typ@, flags),
            at.func == old(self)@.func_of(name@),
            at.slot == old(self)@.slot_for(name@, signature(name@, typ@)),
    {
        let sig = make_signature(&name, &typ);
        self.add_with_signature(name, sig, typ, flags)
    }

    /// The only function of a name, if there is exactly one.
    pub fn exactly_one(&self, name: &ScopedName) -> (res: Option<OverloadIndex>)
        ensures
            self@.wf(),
            match res {
                Some(at) => self@.is_only(at.slot as int, name@) && at.func
                    == self@.entries[at.slot as int].func,
                None => forall|slot: int| !self@.is_only(slot, name@),
            },
    {
        proof {
            use_type_invariant(self);
        }
        let mut found: Option<OverloadIndex> = None;
        let mut i: usize = 0;
        while i < self.entries.len()
            invariant
                i <= self.entries.len(),
                self@.wf(),
                match found {
                    Some(at) => {
                        &&& self@.is_named(at.slot as int, name@)
                        &&& at.slot < i
                        &&& at.func == self@.entries[at.slot as int].func
                        &&& forall|j: int| 0 <= j < i && self@.is_named(j, name@) ==> j == at.slot
                    },
                    None => forall|j: int| 0 <= j < i ==> !self@.is_named(j, name@),
                },
            decreases self.entries.len() - i,
        {
            assert(self@.entries[i as int] == self.entries@[i as int]@);
            if self.names[self.entries[i].func].same(name) {
                assert(self@.is_named(i as int, name@));
                if found.is_some() {
                    return None;
                }
                found = Some(OverloadIndex { func: self.entries[i].func, slot: i });
            } else {
                assert(!self@.is_named(i as int, name@));
            }
            i += 1;
        }
        proof {
            if found is None {
                assert forall|slot: int| !self@.is_only(slot, name@) by {
                    assert(self@.is_only(slot, name@) ==> self@.is_named(slot, name@));
                }
            }
        }
        found
    }

    /// Marks the function at a place as an override: says which method it overrides, whether its
    /// result is polymorphic and which parameters are.
    pub fn promote(&mut self, slot: usize, base: MemberId, is_ret_poly: bool, poly: &Vec<bool>)
        requires
            old(self)@.has(slot as int),
        ensures
            old(self)@.wf(),
            final(self)@ == (FuncMapV {
                names: old(self)@.names,
                entries: old(self)@.entries.update(
                    slot as int,
                    promoted(old(self)@.entries[slot as int], base@, is_ret_poly, poly@),
                ),
            }),
    {
        proof {
            use_type_invariant(&*self);
        }
        let mut taken = FuncMap::new();
        std::mem::swap(self, &mut taken);
        proof {
            use_type_invariant(&taken);
        }
        let FuncMap { names, mut entries } = taken;
        let ghost entry = entries@[slot as int]@;
        let ghost before = views(entries@);
        let mut params: Vec<FuncParam> = Vec::new();
        std::mem::swap(&mut params, &mut entries[slot].typ.params);
        let mut i: usize = 0;
        while i < params.len() && i < poly.len()
            invariant
                i <= params.len(),
                i <= poly.len(),
                params.len() == entry.typ.params.len(),
                forall|j: int|
                    0 <= j < params.len() ==> #[trigger] params@[j]@ == (if j < i && poly@[j] {
                        FuncParamV { is_poly: true, ..entry.typ.params[j] }
                    } else {
                        entry.typ.params[j]
                    }),
            decreases params.len() - i,
        {
            let ghost was = params@;
            if poly[i] {
                params[i].is_poly = true;
            }
            assert forall|j: int| 0 <= j < params.len() && j != i implies params@[j] == was[j] by {}
            assert(was[i as int]@ == entry.typ.params[i as int]);
            i += 1;
        }
        std::mem::swap(&mut params, &mut entries[slot].typ.params);
        entries[slot].typ.is_ret_poly = is_ret_poly;
        entries[slot].base = Some(base);
        proof {
            let want = promoted(entry, base@, is_ret_poly, poly@);
            assert(entries@[slot as int]@.typ =~= want.typ);
            assert(entries@[slot as int]@ == want);
            assert(views(entries@) =~= before.update(slot as int, want));
        }
        *self = FuncMap { names, entries };
    }
}

/// A function marked as an override of `base`.
pub open spec fn promoted(
    entry: FuncEntryV,
    base: MemberIdV,
    is_ret_poly: bool,
    poly: Seq<bool>,
) -> FuncEntryV {
    FuncEntryV {
        base: Some(base),
        typ: FuncTypeV {
            is_ret_poly,
            params: Seq::new(
                entry.typ.params.len(),
                |i: int|
                    if i < poly.len() && poly[i] {
                        FuncParamV { is_poly: true, ..entry.typ.params[i] }
                    } else {
                        entry.typ.params[i]
                    },
            ),
            ..entry.typ
        },
        ..entry
    }
}

proof fn lemma_first_found(entries: Seq<FuncEntryV>, func: int, signature: Seq<char>)
    ensures
        ({
            let n = first_with(entries, func, signature);
            &&& 0 <= n <= entries.len()
            &&& n < entries.len() ==> entries[n].func == func && entries[n].signature == signature
            &&& forall|i: int|
                0 <= i < n ==> !(#[trigger] entries[i].func == func && entries[i].signature
                    == signature)
        }),
    decreases entries.len(),
{
    if entries.len() > 0 && !(entries[0].func == func && entries[0].signature == signature) {
        let rest = entries.drop_first();
        lemma_first_found(rest, func, signature);
        let n = first_with(entries, func, signature);
        assert forall|i: int| 0 <= i < n implies !(#[trigger] entries[i].func == func
            && entries[i].signature == signature) by {
            if i > 0 {
                assert(rest[i - 1] == entries[i]);
            }
        }
    }
}

/// Whether a map has a function at a place, of this name and with this signature.
pub open spec fn is_overload(
    map: FuncMapV,
    slot: int,
    name: ScopedNameV,
    signature: Seq<char>,
) -> bool {
    &&& 0 <= slot < map.entries.len()
    &&& map.names[map.entries[slot].func] == name
    &&& map.entries[slot].signature == signature
}

/// A function that is added to a map is there afterwards, with its name, its signature, its type and
/// its flags, and overrides nothing yet. It takes the place of a function of the same name and
/// signature, if there is one, or a new place behind all others, and no other function changes.
pub proof fn law_added_function(
    map: FuncMapV,
    name: ScopedNameV,
    signature: Seq<char>,
    typ: FuncTypeV,
    flags: FunctionFlags,
    other: int,
)
    requires
        map.wf(),
    ensures
        ({
            let done = map.add_with_signature(name, signature, typ, flags);
            let slot = map.slot_for(name, signature);
            &&& done.wf()
            &&& is_overload(done, slot, name, signature)
            &&& done.names[map.func_of(name)] == name
            &&& 0 <= map.func_of(name) < done.names.len()
            &&& done.entries[slot].typ == typ
            &&& done.entries[slot].flags == flags
            &&& done.entries[slot].base is None
            &&& slot < map.entries.len() ==> is_overload(map, slot, name, signature)
            &&& slot < map.entries.len() ==> done.entries.len() == map.entries.len()
            &&& slot >= map.entries.len() ==> slot == map.entries.len() && done.entries.len()
                == map.entries.len() + 1
            &&& is_overload(map, other, name, signature) ==> slot < map.entries.len()
            &&& 0 <= other < map.entries.len() && other != slot ==> done.entries[other]
                == map.entries[other] && done.names[done.entries[other].func]
                == map.names[map.entries[other].func]
        }),
{
    let func = map.func_of(name);
    lemma_first_found(map.entries, func, signature);
    let done = map.add_with_signature(name, signature, typ, flags);
    assert(done.names[func] == name);
    if is_overload(map, other, name, signature) {
        assert(map.entries[other].func == func) by {
            assert(map.names.contains(name)) by {
                assert(map.names[map.entries[other].func] == name);
            }
        }
        assert(!(map.entries[other].func == func && map.entries[other].signature == signature)
            || map.slot_for(name, signature) <= other);
    }
    assert forall|i: int| 0 <= i < done.entries.len() implies 0 <= (#[trigger] done.entries[i]).func
        < done.names.len() by {
        if i < map.entries.len() && i != map.slot_for(name, signature) {
            assert(done.entries[i] == map.entries[i]);
        }
    }
}

/// Under the signature that its type gives it, a function keeps apart from the others of its name:
/// the signature is the full name, the types of the parameters one after the other and the type of
/// the result, between semicolons.
pub proof fn law_signature_parts(name: ScopedNameV, typ: FuncTypeV)
    requires
        forall|i: int| 0 <= i < name.parts().len() ==> !(#[trigger] name.parts()[i]).contains(';'),
        !params_text(typ.params, typ.params.len() as int).contains(';'),
        !type_text(typ.ret).contains(';'),
    ensures
        split(signature(name, typ), ';') == seq![
            joined(name.path.push(name.name), "."@),
            params_text(typ.params, typ.params.len() as int),
            type_text(typ.ret),
        ],
{
    let head = joined(name.parts(), "."@);
    let params = params_text(typ.params, typ.params.len() as int);
    let ret = type_text(typ.ret);
    reveal_strlit(";");
    reveal_strlit(".");
    assert(";"@ =~= seq![';']);
    lemma_joined_free(name.parts(), "."@, ';');
    lemma_split_head(params, ret, ';');
    lemma_split_head(head, params + seq![';'] + ret, ';');
    assert(signature(name, typ) =~= head + seq![';'] + (params + seq![';'] + ret));
    lemma_split_head(ret, Seq::empty(), ';');
    assert(split(signature(name, typ), ';') =~= seq![head, params, ret]);
}

proof fn lemma_joined_free(parts: Seq<Seq<char>>, sep: Seq<char>, c: char)
    requires
        !sep.contains(c),
        forall|i: int| 0 <= i < parts.len() ==> !(#[trigger] parts[i]).contains(c),
    ensures
        !joined(parts, sep).contains(c),
    decreases parts.len(),
{
    if parts.len() > 1 {
        let rest = parts.drop_last();
        assert forall|i: int| 0 <= i < rest.len() implies !(#[trigger] rest[i]).contains(c) by {
            assert(rest[i] == parts[i]);
        }
        lemma_joined_free(rest, sep, c);
        let all = joined(rest, sep) + sep + parts.last();
        assert(!parts[parts.len() - 1].contains(c));
        if all.contains(c) {
            let i = choose|i: int| 0 <= i < all.len() && all[i] == c;
            let n = joined(rest, sep).len() as int;
            if i < n {
                assert(joined(rest, sep)[i] == c);
            } else if i < n + sep.len() {
                assert(sep[i - n] == c);
            } else {
                assert(parts.last()[i - n - sep.len()] == c);
            }
        }
    } else if parts.len() == 1 {
        assert(!parts[0].contains(c));
    }
}

/// One more parameter adds the text of its type, and nothing else of it.
pub proof fn law_parameter_text(params: Seq<FuncParamV>, param: FuncParamV)
    ensures
        params_text(Seq::<FuncParamV>::empty(), 0) == Seq::<char>::empty(),
        params_text(params.push(param), params.len() as int + 1) == params_text(
            params,
            params.len() as int,
        ) + type_text(param.typ),
{
    lemma_params_text_front(params.push(param), params, params.len() as int);
}

proof fn lemma_params_text_front(a: Seq<FuncParamV>, b: Seq<FuncParamV>, n: int)
    requires
        n <= a.len(),
        n <= b.len(),
        forall|i: int| 0 <= i < n ==> #[trigger] a[i] == b[i],
    ensures
        params_text(a, n) == params_text(b, n),
    decreases n,
{
    if n > 0 {
        lemma_params_text_front(a, b, n - 1);
        assert(a[n - 1] == b[n - 1]);
    }
}

/// Marking a method as an override says what it overrides, and which of its types were filled in.
/// Nothing else of it changes.
pub proof fn law_marked_override(
    entry: FuncEntryV,
    base: MemberIdV,
    is_ret_poly: bool,
    poly: Seq<bool>,
    i: int,
)
    ensures
        ({
            let done = promoted(entry, base, is_ret_poly, poly);
            &&& done.base == Some(base)
            &&& done.func == entry.func
            &&& done.signature == entry.signature
            &&& done.flags == entry.flags
            &&& done.typ.type_vars == entry.typ.type_vars
            &&& done.typ.ret == entry.typ.ret
            &&& done.typ.is_ret_poly == is_ret_poly
            &&& done.typ.params.len() == entry.typ.params.len()
            &&& 0 <= i < entry.typ.params.len() ==> {
                &&& done.typ.params[i].typ == entry.typ.params[i].typ
                &&& done.typ.params[i].is_out == entry.typ.params[i].is_out
                &&& done.typ.params[i].is_poly <==> entry.typ.params[i].is_poly || (i < poly.len()
                    && poly[i])
            }
        }),
{
}

} // verus!
