//! What modules hold: types and functions by their full path.
use vstd::prelude::*;

use crate::dict::views;
use crate::funcs::{FuncIndex, ScopedName, ScopedNameV};
use crate::tables::{
    entry_at, has_node, lists_children, opt_int, path_trie_children, path_trie_default,
    path_trie_get, path_trie_insert_owned, PathTrie,
};
use crate::text::{self, joined, split};
use crate::types::TypeId;

verus! {

/// What an import leads to: a type, or a function by the place of its name.
pub enum ImportItem {
    Type(TypeId),
    Func(FuncIndex),
}

pub enum ImportItemV {
    Type(Seq<char>),
    Func(int),
}

impl View for ImportItem {
    type V = ImportItemV;

    open spec fn view(&self) -> ImportItemV {
        match self {
            ImportItem::Type(id) => ImportItemV::Type(id@),
            ImportItem::Func(func) => ImportItemV::Func(*func as int),
        }
    }
}

impl ImportItem {
    fn dup(&self) -> (res: ImportItem)
        ensures
            res@ == self@,
    {
        match self {
            ImportItem::Type(id) => ImportItem::Type(id.clone()),
            ImportItem::Func(func) => ImportItem::Func(*func),
        }
    }
}

/// The model of a module map: what lies at each path.
pub type ModulesV = Map<Seq<Seq<char>>, ImportItemV>;

/// The full name of a type that a module declares.
pub open spec fn type_id(name: Seq<char>, path: Seq<Seq<char>>) -> Seq<char> {
    if path.len() == 0 {
        name
    } else {
        joined(path.push(name), "."@)
    }
}

/// The parts of the full name of a type.
pub open spec fn type_parts(id: Seq<char>) -> Seq<Seq<char>> {
    split(id, '.')
}

/// The last part of the full name of a type.
pub open spec fn last_part(id: Seq<char>) -> Seq<char> {
    type_parts(id).last()
}

/// The modules with a type added.
pub open spec fn add_type(modules: ModulesV, id: Seq<char>) -> ModulesV {
    modules.insert(type_parts(id), ImportItemV::Type(id))
}

/// The modules with a function added.
pub open spec fn add_function(modules: ModulesV, name: ScopedNameV, func: int) -> ModulesV {
    modules.insert(name.parts(), ImportItemV::Func(func))
}

/// Whether something lies at a path or below it. The root is always there.
pub open spec fn has_module(modules: ModulesV, path: Seq<Seq<char>>) -> bool {
    path.len() == 0 || exists|key: Seq<Seq<char>>|
        #[trigger] modules.dom().contains(key) && path.is_prefix_of(key)
}

/// Whether `items` lists, once each and in some order, what lies directly below a path.
pub open spec fn is_listing(
    modules: ModulesV,
    path: Seq<Seq<char>>,
    items: Seq<ImportItemV>,
) -> bool {
    exists|steps: Seq<Seq<char>>| lists_module(modules, path, steps, items)
}

/// Whether `items` lists what lies one of these steps below a path, and nothing else does.
pub open spec fn lists_module(
    modules: ModulesV,
    path: Seq<Seq<char>>,
    steps: Seq<Seq<char>>,
    items: Seq<ImportItemV>,
) -> bool {
    &&& steps.no_duplicates()
    &&& steps.len() == items.len()
    &&& forall|step: Seq<char>| #[trigger]
        steps.contains(step) <==> modules.dom().contains(path.push(step))
    &&& forall|i: int|
        0 <= i < items.len() ==> #[trigger] items[i] == modules[path.push(steps[i])]
}

/// Types and functions by path. The trie leads to places in a list.
pub struct ModuleMap {
    map: PathTrie,
    items: Vec<ImportItem>,
}

impl View for ModuleMap {
    type V = ModulesV;

    closed spec fn view(&self) -> ModulesV {
        Map::new(
            |path: Seq<Seq<char>>| self.map@.dom().contains(path),
            |path: Seq<Seq<char>>| self.items@[self.map@[path]]@,
        )
    }
}

impl ModuleMap {
    #[verifier::type_invariant]
    spec fn inv(self) -> bool {
        forall|path: Seq<Seq<char>>| #[trigger]
            self.map@.dom().contains(path) ==> 0 <= self.map@[path] < self.items@.len()
    }

    pub fn new() -> (res: ModuleMap)
        ensures
            res@ == (Map::<Seq<Seq<char>>, ImportItemV>::empty()),
    {
        let res = ModuleMap { map: path_trie_default(), items: Vec::new() };
        assert(res@ =~= Map::<Seq<Seq<char>>, ImportItemV>::empty());
        res
    }

    /// What lies at a path.
    pub fn get(&self, path: &Vec<String>) -> (res: Option<ImportItem>)
        ensures
            match res {
                Some(item) => self@.dom().contains(views(path@)) && item@ == self@[views(path@)],
                None => !self@.dom().contains(views(path@)),
            },
    {
        proof {
            use_type_invariant(self);
            assert(self.map@.dom().contains(views(path@)) == self@.dom().contains(views(path@)));
        }
        match path_trie_get(&self.map, path) {
            Some(at) => Some(self.items[at].dup()),
            None => None,
        }
    }

    /// What lies directly below a path, in an order that is left open, if there is anything at the
    /// path or below it.
    pub fn get_direct_descendants(&self, path: &Vec<String>) -> (res: Option<Vec<ImportItem>>)
        ensures
            res is Some <==> has_module(self@, views(path@)),
            res matches Some(items) ==> is_listing(self@, views(path@), views(items@)),
    {
        proof {
            use_type_invariant(self);
            self.lemma_nodes(views(path@));
        }
        let vals = match path_trie_children(&self.map, path) {
            Some(vals) => vals,
            None => {
                return None;
            },
        };
        let ghost at = views(path@);
        let ghost all = choose|steps: Seq<Seq<char>>|
            #![trigger lists_children(self.map@, at, steps)]
            {
                &&& lists_children(self.map@, at, steps)
                &&& steps.len() == vals@.len()
                &&& forall|i: int|
                    0 <= i < steps.len() ==> opt_int(#[trigger] vals@[i]) == entry_at(
                        self.map@,
                        at.push(steps[i]),
                    )
            };
        let ghost mut kept: Seq<Seq<char>> = Seq::empty();
        let ghost mut from: Seq<int> = Seq::empty();
        let mut items: Vec<ImportItem> = Vec::new();
        let mut i: usize = 0;
        while i < vals.len()
            invariant
                i <= vals.len(),
                self.inv(),
                lists_children(self.map@, at, all),
                all.len() == vals@.len(),
                forall|k: int|
                    0 <= k < all.len() ==> opt_int(#[trigger] vals@[k]) == entry_at(
                        self.map@,
                        at.push(all[k]),
                    ),
                kept.len() == items@.len(),
                from.len() == kept.len(),
                forall|k: int|
                    0 <= k < kept.len() ==> 0 <= #[trigger] from[k] < i && kept[k] == all[from[k]],
                forall|k: int, l: int|
                    0 <= k < l < kept.len() ==> #[trigger] from[k] < #[trigger] from[l],
                forall|k: int|
                    0 <= k < i && self.map@.dom().contains(at.push(all[k])) ==> kept.contains(
                        #[trigger] all[k],
                    ),
                forall|k: int|
                    0 <= k < kept.len() ==> self.map@.dom().contains(
                        at.push(#[trigger] kept[k]),
                    ) && items@[k]@ == self.items@[self.map@[at.push(kept[k])]]@,
            decreases vals.len() - i,
        {
            assert(opt_int(vals@[i as int]) == entry_at(self.map@, at.push(all[i as int])));
            match vals[i] {
                Some(place) => {
                    let item = self.items[place].dup();
                    items.push(item);
                    proof {
                        let was = kept;
                        kept = kept.push(all[i as int]);
                        from = from.push(i as int);
                        assert(kept[was.len() as int] == all[i as int]);
                        assert forall|k: int| 0 <= k < i && was.contains(#[trigger] all[k]) implies kept.contains(
                            all[k]) by {
                            let j = choose|j: int| 0 <= j < was.len() && was[j] == all[k];
                            assert(kept[j] == all[k]);
                        }
                    }
                },
                None => {},
            }
            i += 1;
        }
        proof {
            assert(kept.no_duplicates()) by {
                assert forall|k: int, l: int| 0 <= k < l < kept.len() implies kept[k] != kept[l] by {
                    assert(from[k] < from[l]);
                }
            }
            assert forall|step: Seq<char>| #[trigger]
                kept.contains(step) <==> self@.dom().contains(at.push(step)) by {
                if self@.dom().contains(at.push(step)) {
                    assert(at.push(step).is_prefix_of(at.push(step)));
                    assert(has_node(self.map@, at.push(step)));
                    assert(all.contains(step));
                }
            }
            assert forall|k: int| 0 <= k < kept.len() implies #[trigger] views(items@)[k]
                == self@[at.push(kept[k])] by {}
            assert(lists_module(self@, at, kept, views(items@)));
            assert(is_listing(self@, views(path@), views(items@)));
        }
        Some(items)
    }

    proof fn lemma_nodes(&self, path: Seq<Seq<char>>)
        ensures
            has_node(self.map@, path) == has_module(self@, path),
    {
        if has_node(self.map@, path) && path.len() > 0 {
            let key = choose|key: Seq<Seq<char>>| #[trigger]
                self.map@.dom().contains(key) && path.is_prefix_of(key);
            assert(self@.dom().contains(key));
        }
        if has_module(self@, path) && path.len() > 0 {
            let key = choose|key: Seq<Seq<char>>| #[trigger]
                self@.dom().contains(key) && path.is_prefix_of(key);
            assert(self.map@.dom().contains(key));
        }
    }

    fn add(&mut self, path: Vec<String>, item: ImportItem)
        ensures
            final(self)@ == old(self)@.insert(views(path@), item@),
    {
        let ghost was = *self;
        let mut taken = ModuleMap::new();
        std::mem::swap(self, &mut taken);
        proof {
            use_type_invariant(&taken);
        }
        let ModuleMap { mut map, mut items } = taken;
        let at: usize = items.len();
        items.push(item);
        let ghost before = map;
        path_trie_insert_owned(&mut map, path, at);
        assert(map@ == before@.insert(views(path@), at as int));
        *self = ModuleMap { map, items };
        assert(self@ =~= was@.insert(views(path@), item@));
    }

    /// Adds a function under its path.
    pub fn add_function(&mut self, name: &ScopedName, func: FuncIndex)
        ensures
            final(self)@ == add_function(old(self)@, name@, func as int),
    {
        self.add(name.as_parts(), ImportItem::Func(func));
    }

    /// Adds a type under the parts of its full name.
    pub fn add_type(&mut self, id: &TypeId)
        ensures
            final(self)@ == add_type(old(self)@, id@),
    {
        self.add(text::split_at_each(id.as_str(), '.'), ImportItem::Type(id.clone()));
    }
}

/// The full name of a type that a module declares.
pub fn generate_type_id(name: &String, path: &Vec<String>) -> (res: TypeId)
    ensures
        res@ == type_id(name@, views(path@)),
{
    broadcast use crate::dict::group_views;

    if path.len() == 0 {
        return name.clone();
    }
    let mut parts = crate::funcs::dup_names(path);
    parts.push(name.clone());
    text::join(&parts, ".")
}

/// The last part of the full name of a type.
pub fn short_type_name(id: &TypeId) -> (res: String)
    ensures
        res@ == last_part(id@),
{
    let mut parts = text::split_at_each(id.as_str(), '.');
    let ghost all = parts@;
    proof {
        crate::text::lemma_split_len(id@, '.');
        assert(views(all).last() == all.last()@);
    }
    parts.pop().unwrap()
}

/// A type that a module declares is found under the path of the module and its own name, as a
/// type of that short name, where neither has a dot in it.
pub proof fn law_declared_type_is_found(modules: ModulesV, name: Seq<char>, path: Seq<Seq<char>>)
    requires
        !name.contains('.'),
        forall|i: int| 0 <= i < path.len() ==> !(#[trigger] path[i]).contains('.'),
    ensures
        ({
            let id = type_id(name, path);
            let after = add_type(modules, id);
            &&& after.dom().contains(path.push(name))
            &&& after[path.push(name)] == ImportItemV::Type(id)
            &&& last_part(id) == name
        }),
{
    let parts = path.push(name);
    assert forall|i: int| 0 <= i < parts.len() implies !(#[trigger] parts[i]).contains('.') by {
        if i < path.len() {
            assert(parts[i] == path[i]);
        }
    }
    crate::text::law_split_undoes_join(parts);
    if path.len() == 0 {
        assert(parts =~= seq![name]);
        assert(joined(parts, "."@) == name);
    }
}

/// Types of different modules or names have different full names, where no part has a dot in it.
pub proof fn law_type_ids_differ(
    name: Seq<char>,
    path: Seq<Seq<char>>,
    other: Seq<char>,
    other_path: Seq<Seq<char>>,
)
    requires
        !name.contains('.'),
        !other.contains('.'),
        forall|i: int| 0 <= i < path.len() ==> !(#[trigger] path[i]).contains('.'),
        forall|i: int| 0 <= i < other_path.len() ==> !(#[trigger] other_path[i]).contains('.'),
        type_id(name, path) == type_id(other, other_path),
    ensures
        name == other,
        path == other_path,
{
    let empty = Map::<Seq<Seq<char>>, ImportItemV>::empty();
    law_declared_type_is_found(empty, name, path);
    law_declared_type_is_found(empty, other, other_path);
    let after = add_type(empty, type_id(name, path));
    assert(after.dom() =~= set![type_parts(type_id(name, path))]);
    assert(path.push(name) == other_path.push(other));
    assert(path =~= path.push(name).drop_last());
    assert(other_path =~= other_path.push(other).drop_last());
}

/// A function that a module declares is found under the path of the module and its name.
pub proof fn law_declared_function_is_found(modules: ModulesV, name: ScopedNameV, func: int)
    ensures
        add_function(modules, name, func).dom().contains(name.path.push(name.name)),
        add_function(modules, name, func)[name.path.push(name.name)] == ImportItemV::Func(func),
{
}

/// Adding an item leaves what lies at other paths as it was.
pub proof fn law_other_items_stay(
    modules: ModulesV,
    id: Seq<char>,
    name: ScopedNameV,
    func: int,
    path: Seq<Seq<char>>,
)
    ensures
        path != type_parts(id) ==> {
            &&& add_type(modules, id).dom().contains(path) == modules.dom().contains(path)
            &&& add_type(modules, id)[path] == modules[path]
        },
        path != name.parts() ==> {
            &&& add_function(modules, name, func).dom().contains(path) == modules.dom().contains(
                path,
            )
            &&& add_function(modules, name, func)[path] == modules[path]
        },
{
}

} // verus!
