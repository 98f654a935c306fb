//! Hash tables and the path trie, as the rest of the crate sees them.
//!
//! The tables are `hashbrown` collections, the trie is a `sequence_trie` hashed by `ahash`.
//! All of them hold plain numbers: the position of a value that lives in a vector, or an index
//! into the constant pool. What each collection holds has a name (`name_entries`,
//! `member_entries`, ...) and every operation on it is described over that name.
use vstd::prelude::*;

verus! {

/// The place of a member (a field, a method, an enum member) inside the type that owns it.
pub struct MemberId {
    pub owner: String,
    pub slot: usize,
}

pub struct MemberIdV {
    pub owner: Seq<char>,
    pub slot: int,
}

impl View for MemberId {
    type V = MemberIdV;

    open spec fn view(&self) -> MemberIdV {
        MemberIdV { owner: self.owner@, slot: self.slot as int }
    }
}

impl MemberId {
    pub fn new(owner: &String, slot: usize) -> (id: MemberId)
        ensures
            id@ == (MemberIdV { owner: owner@, slot: slot as int }),
    {
        MemberId { owner: owner.clone(), slot }
    }

    /// A second copy of the identifier.
    pub fn dup(&self) -> (id: MemberId)
        ensures
            id@ == self@,
    {
        MemberId { owner: self.owner.clone(), slot: self.slot }
    }
}

/// The place of a value in a list, used as a key.
pub struct Slot {
    pub at: usize,
}

impl View for Slot {
    type V = int;

    open spec fn view(&self) -> int {
        self.at as int
    }
}

/// A hash table from keys to positions.
pub trait KeyTable: Sized {
    type Key: View;

    spec fn entries(&self) -> Map<<Self::Key as View>::V, int>;

    fn empty() -> (table: Self)
        ensures
            table.entries() == (Map::<<Self::Key as View>::V, int>::empty()),
    ;

    fn find(&self, key: &Self::Key) -> (at: Option<usize>)
        ensures
            at is Some <==> self.entries().dom().contains(key@),
            at matches Some(i) ==> i as int == self.entries()[key@],
    ;

    fn put(&mut self, key: &Self::Key, at: usize)
        ensures
            final(self).entries() == old(self).entries().insert(key@, at as int),
    ;
}

/// A `hashbrown::HashMap` from names to numbers.
#[verifier::external_body]
pub struct NameTable {
    inner: hashbrown::HashMap<String, usize>,
}

/// What a name table holds.
pub uninterp spec fn name_entries(table: NameTable) -> Map<Seq<char>, int>;

/// `hashbrown::HashMap::new`: the new map is empty.
#[verifier::external_body]
fn name_table_new() -> (table: NameTable)
    ensures
        name_entries(table) == (Map::<Seq<char>, int>::empty()),
{
    NameTable { inner: hashbrown::HashMap::new() }
}

/// `hashbrown::HashMap::get` for a string key: the number stored under an equal string, if any.
#[verifier::external_body]
fn name_table_get(table: &NameTable, key: &String) -> (at: Option<usize>)
    ensures
        at is Some <==> name_entries(*table).dom().contains(key@),
        at matches Some(i) ==> i as int == name_entries(*table)[key@],
{
    table.inner.get(key).copied()
}

/// `hashbrown::HashMap::insert` for a string key: afterwards the map holds `at` under `key`,
/// in place of what was there, and is otherwise unchanged.
#[verifier::external_body]
fn name_table_insert(table: &mut NameTable, key: String, at: usize)
    ensures
        name_entries(*final(table)) == name_entries(*old(table)).insert(key@, at as int),
{
    table.inner.insert(key, at);
}

impl View for NameTable {
    type V = Map<Seq<char>, int>;

    open spec fn view(&self) -> Map<Seq<char>, int> {
        name_entries(*self)
    }
}

impl KeyTable for NameTable {
    type Key = String;

    open spec fn entries(&self) -> Map<Seq<char>, int> {
        name_entries(*self)
    }

    fn empty() -> (table: Self) {
        name_table_new()
    }

    fn find(&self, key: &String) -> (at: Option<usize>) {
        name_table_get(self, key)
    }

    fn put(&mut self, key: &String, at: usize) {
        name_table_insert(self, key.clone(), at);
    }
}

/// A `hashbrown::HashMap` from members to numbers.
#[verifier::external_body]
pub struct MemberTable {
    inner: hashbrown::HashMap<(String, usize), usize>,
}

/// What a member table holds.
pub uninterp spec fn member_entries(table: MemberTable) -> Map<MemberIdV, int>;

/// `hashbrown::HashMap::new`: the new map is empty.
#[verifier::external_body]
fn member_table_new() -> (table: MemberTable)
    ensures
        member_entries(table) == (Map::<MemberIdV, int>::empty()),
{
    MemberTable { inner: hashbrown::HashMap::new() }
}

/// `hashbrown::HashMap::get` for a pair of an owner and a slot: the number stored under an equal
/// pair, if any.
#[verifier::external_body]
fn member_table_get(table: &MemberTable, key: &MemberId) -> (at: Option<usize>)
    ensures
        at is Some <==> member_entries(*table).dom().contains(key@),
        at matches Some(i) ==> i as int == member_entries(*table)[key@],
{
    table.inner.get(&(key.owner.clone(), key.slot)).copied()
}

/// `hashbrown::HashMap::insert` for a pair of an owner and a slot: afterwards the map holds `at`
/// under that pair, in place of what was there, and is otherwise unchanged.
#[verifier::external_body]
fn member_table_insert(table: &mut MemberTable, key: &MemberId, at: usize)
    ensures
        member_entries(*final(table)) == member_entries(*old(table)).insert(key@, at as int),
{
    table.inner.insert((key.owner.clone(), key.slot), at);
}

impl View for MemberTable {
    type V = Map<MemberIdV, int>;

    open spec fn view(&self) -> Map<MemberIdV, int> {
        member_entries(*self)
    }
}

impl KeyTable for MemberTable {
    type Key = MemberId;

    open spec fn entries(&self) -> Map<MemberIdV, int> {
        member_entries(*self)
    }

    fn empty() -> (table: Self) {
        member_table_new()
    }

    fn find(&self, key: &MemberId) -> (at: Option<usize>) {
        member_table_get(self, key)
    }

    fn put(&mut self, key: &MemberId, at: usize) {
        member_table_insert(self, key, at);
    }
}

/// A `hashbrown::HashMap` from numbers to numbers.
#[verifier::external_body]
pub struct SlotTable {
    inner: hashbrown::HashMap<usize, usize>,
}

/// What a slot table holds.
pub uninterp spec fn slot_entries(table: SlotTable) -> Map<int, int>;

/// `hashbrown::HashMap::new`: the new map is empty.
#[verifier::external_body]
fn slot_table_new() -> (table: SlotTable)
    ensures
        slot_entries(table) == (Map::<int, int>::empty()),
{
    SlotTable { inner: hashbrown::HashMap::new() }
}

/// `hashbrown::HashMap::get` for a number: what is stored under that number, if anything.
#[verifier::external_body]
fn slot_table_get(table: &SlotTable, key: usize) -> (at: Option<usize>)
    ensures
        at is Some <==> slot_entries(*table).dom().contains(key as int),
        at matches Some(i) ==> i as int == slot_entries(*table)[key as int],
{
    table.inner.get(&key).copied()
}

/// `hashbrown::HashMap::insert` for a number: afterwards the map holds `at` under `key`, in place
/// of what was there, and is otherwise unchanged.
#[verifier::external_body]
fn slot_table_insert(table: &mut SlotTable, key: usize, at: usize)
    ensures
        slot_entries(*final(table)) == slot_entries(*old(table)).insert(key as int, at as int),
{
    table.inner.insert(key, at);
}

impl View for SlotTable {
    type V = Map<int, int>;

    open spec fn view(&self) -> Map<int, int> {
        slot_entries(*self)
    }
}

impl KeyTable for SlotTable {
    type Key = Slot;

    open spec fn entries(&self) -> Map<int, int> {
        slot_entries(*self)
    }

    fn empty() -> (table: Self) {
        slot_table_new()
    }

    fn find(&self, key: &Slot) -> (at: Option<usize>) {
        slot_table_get(self, key.at)
    }

    fn put(&mut self, key: &Slot, at: usize) {
        slot_table_insert(self, key.at, at);
    }
}

/// A `hashbrown::HashSet` of members.
#[verifier::external_body]
pub struct MemberSet {
    inner: hashbrown::HashSet<(String, usize)>,
}

/// What a member set holds.
pub uninterp spec fn member_elems(set: MemberSet) -> Set<MemberIdV>;

impl View for MemberSet {
    type V = Set<MemberIdV>;

    open spec fn view(&self) -> Set<MemberIdV> {
        member_elems(*self)
    }
}

/// `hashbrown::HashSet::new`: the new set is empty.
#[verifier::external_body]
pub(crate) fn member_set_new() -> (set: MemberSet)
    ensures
        member_elems(set) == Set::<MemberIdV>::empty(),
{
    MemberSet { inner: hashbrown::HashSet::new() }
}

/// `hashbrown::HashSet::clone`: the copy holds the same members.
#[verifier::external_body]
pub(crate) fn member_set_clone(set: &MemberSet) -> (copy: MemberSet)
    ensures
        member_elems(copy) == member_elems(*set),
{
    MemberSet { inner: set.inner.clone() }
}

/// `hashbrown::HashSet::insert`: afterwards the set holds `id` too.
#[verifier::external_body]
pub(crate) fn member_set_insert(set: &mut MemberSet, id: &MemberId)
    ensures
        member_elems(*final(set)) == member_elems(*old(set)).insert(id@),
{
    set.inner.insert((id.owner.clone(), id.slot));
}

/// `hashbrown::HashSet::remove`: afterwards the set does not hold `id`.
#[verifier::external_body]
pub(crate) fn member_set_remove(set: &mut MemberSet, id: &MemberId)
    ensures
        member_elems(*final(set)) == member_elems(*old(set)).remove(id@),
{
    set.inner.remove(&(id.owner.clone(), id.slot));
}

/// `hashbrown::HashSet::iter`: every member of the set once, in an order that is left open.
#[verifier::external_body]
pub(crate) fn member_set_iter(set: &MemberSet) -> (walk: Vec<MemberId>)
    ensures
        crate::dict::views(walk@).no_duplicates(),
        crate::dict::views(walk@).to_set() == member_elems(*set),
{
    set.inner.iter().map(|(owner, slot)| MemberId { owner: owner.clone(), slot: *slot }).collect()
}

/// A `sequence_trie::SequenceTrie`, hashed by `ahash`, from paths to numbers.
#[verifier::external_body]
pub struct PathTrie {
    inner: sequence_trie::SequenceTrie<String, usize, ahash::RandomState>,
}

/// What a path trie holds.
pub uninterp spec fn path_entries(trie: PathTrie) -> Map<Seq<Seq<char>>, int>;

impl View for PathTrie {
    type V = Map<Seq<Seq<char>>, int>;

    open spec fn view(&self) -> Map<Seq<Seq<char>>, int> {
        path_entries(*self)
    }
}

/// Whether a trie with these entries has a node at `path`: the root is always there, any other
/// node is there when some entry lies at it or below it.
pub open spec fn has_node(entries: Map<Seq<Seq<char>>, int>, path: Seq<Seq<char>>) -> bool {
    path.len() == 0 || exists|key: Seq<Seq<char>>|
        #[trigger] entries.dom().contains(key) && path.is_prefix_of(key)
}

/// Whether `steps` lists, once each, the fragments that lead from `path` to a child node.
pub open spec fn lists_children(
    entries: Map<Seq<Seq<char>>, int>,
    path: Seq<Seq<char>>,
    steps: Seq<Seq<char>>,
) -> bool {
    &&& steps.no_duplicates()
    &&& forall|step: Seq<char>| #[trigger]
        steps.contains(step) <==> has_node(entries, path.push(step))
}

/// The number that lies at `path`, if one does.
pub open spec fn entry_at(entries: Map<Seq<Seq<char>>, int>, path: Seq<Seq<char>>) -> Option<int> {
    if entries.dom().contains(path) {
        Some(entries[path])
    } else {
        None
    }
}

/// `sequence_trie::SequenceTrie::default`: the new trie is empty.
#[verifier::external_body]
pub(crate) fn path_trie_default() -> (trie: PathTrie)
    ensures
        path_entries(trie) == (Map::<Seq<Seq<char>>, int>::empty()),
{
    PathTrie { inner: sequence_trie::SequenceTrie::default() }
}

/// `sequence_trie::SequenceTrie::insert_owned`: afterwards the trie holds `at` under `path`, in
/// place of what was there, and is otherwise unchanged.
#[verifier::external_body]
pub(crate) fn path_trie_insert_owned(trie: &mut PathTrie, path: Vec<String>, at: usize)
    ensures
        path_entries(*final(trie)) == path_entries(*old(trie)).insert(
            crate::dict::views(path@),
            at as int,
        ),
{
    trie.inner.insert_owned(path, at);
}

/// `sequence_trie::SequenceTrie::get`: the number stored under exactly this path, if any.
#[verifier::external_body]
pub(crate) fn path_trie_get(trie: &PathTrie, path: &Vec<String>) -> (at: Option<usize>)
    ensures
        at is Some <==> path_entries(*trie).dom().contains(crate::dict::views(path@)),
        at matches Some(i) ==> i as int == path_entries(*trie)[crate::dict::views(path@)],
{
    trie.inner.get(path.iter()).copied()
}

/// `sequence_trie::SequenceTrie::get_node`, `children` and `value`: whether there is a node at the
/// path, and then what lies at each of its children, in an order that is left open. A child that
/// only leads to other entries has no value of its own.
#[verifier::external_body]
pub(crate) fn path_trie_children(trie: &PathTrie, path: &Vec<String>) -> (found: Option<
    Vec<Option<usize>>,
>)
    ensures
        found is Some <==> has_node(path_entries(*trie), crate::dict::views(path@)),
        found matches Some(vals) ==> exists|steps: Seq<Seq<char>>|
            #![trigger lists_children(path_entries(*trie), crate::dict::views(path@), steps)]
            {
                &&& lists_children(path_entries(*trie), crate::dict::views(path@), steps)
                &&& steps.len() == vals@.len()
                &&& forall|i: int|
                    0 <= i < steps.len() ==> opt_int(#[trigger] vals@[i]) == entry_at(
                        path_entries(*trie),
                        crate::dict::views(path@).push(steps[i]),
                    )
            },
{
    let node = trie.inner.get_node(path.iter())?;
    Some(node.children().into_iter().map(|child| child.value().copied()).collect())
}

/// An optional number as a mathematical integer.
pub open spec fn opt_int(at: Option<usize>) -> Option<int> {
    match at {
        Some(i) => Some(i as int),
        None => None,
    }
}

} // verus!
