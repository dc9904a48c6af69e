//! Class and module snapshots, and the resolver that holds them.
//!
//! A snapshot carries the facts about one class that the kernel reads:
//! its MRO, its own members and their shapes, its metaclass. The resolver
//! maps fullnames to snapshots and module names to symbol tables.

use vstd::prelude::*;
use crate::text::str_eq;
use crate::wire::Type;

verus! {

/// The first value bound to `key` in an association list.
pub open spec fn assoc_find<V>(entries: Seq<(String, V)>, key: Seq<char>) -> Option<V>
    decreases entries.len(),
{
    if entries.len() == 0 {
        None
    } else if entries[0].0@ == key {
        Some(entries[0].1)
    } else {
        assoc_find(entries.drop_first(), key)
    }
}

/// The index of the first entry bound to `key`, if any.
pub open spec fn assoc_index<V>(entries: Seq<(String, V)>, key: Seq<char>) -> Option<int>
    decreases entries.len(),
{
    if entries.len() == 0 {
        None
    } else if entries[0].0@ == key {
        Some(0)
    } else {
        match assoc_index(entries.drop_first(), key) {
            Some(i) => Some(i + 1),
            None => None,
        }
    }
}

pub proof fn lemma_assoc_index<V>(entries: Seq<(String, V)>, key: Seq<char>)
    ensures
        match assoc_index(entries, key) {
            Some(i) => 0 <= i < entries.len() && entries[i].0@ == key
                && (forall|j: int| 0 <= j < i ==> entries[j].0@ != key)
                && assoc_find(entries, key) == Some(entries[i].1),
            None => (forall|j: int| 0 <= j < entries.len() ==> entries[j].0@ != key)
                && assoc_find(entries, key).is_none(),
        },
    decreases entries.len(),
{
    if entries.len() > 0 {
        lemma_assoc_index(entries.drop_first(), key);
        if entries[0].0@ != key {
            match assoc_index(entries.drop_first(), key) {
                Some(i) => {
                    assert forall|j: int| 0 <= j < i + 1 implies entries[j].0@ != key by {
                        if j > 0 {
                            assert(entries[j] == entries.drop_first()[j - 1]);
                        }
                    }
                },
                None => {
                    assert forall|j: int| 0 <= j < entries.len() implies entries[j].0@ != key by {
                        if j > 0 {
                            assert(entries[j] == entries.drop_first()[j - 1]);
                        }
                    }
                },
            }
        }
    }
}

pub proof fn lemma_assoc_update<V>(entries: Seq<(String, V)>, i: int, k: String, v: V, other: Seq<char>)
    requires
        assoc_index(entries, k@) == Some(i),
    ensures
        assoc_find(entries.update(i, (k, v)), k@) == Some(v),
        other != k@ ==> assoc_find(entries.update(i, (k, v)), other) == assoc_find(entries, other),
    decreases entries.len(),
{
    lemma_assoc_index(entries, k@);
    if i > 0 {
        assert(entries.update(i, (k, v)).drop_first() =~= entries.drop_first().update(i - 1, (k, v)));
        lemma_assoc_update(entries.drop_first(), i - 1, k, v, other);
    } else {
        assert(entries.update(i, (k, v)).drop_first() =~= entries.drop_first());
    }
}

pub proof fn lemma_assoc_push<V>(entries: Seq<(String, V)>, k: String, v: V, other: Seq<char>)
    requires
        assoc_find(entries, k@).is_none(),
    ensures
        assoc_find(entries.push((k, v)), k@) == Some(v),
        other != k@ ==> assoc_find(entries.push((k, v)), other) == assoc_find(entries, other),
    decreases entries.len(),
{
    assert(entries.push((k, v))[entries.len() as int] == (k, v));
    if entries.len() > 0 {
        assert(entries.push((k, v))[0] == entries[0]);
        assert(entries.push((k, v)).drop_first() =~= entries.drop_first().push((k, v)));
        lemma_assoc_push(entries.drop_first(), k, v, other);
    } else {
        let pushed = entries.push((k, v));
        assert(pushed.drop_first() =~= Seq::<(String, V)>::empty());
        assert(assoc_find(pushed.drop_first(), other).is_none());
        assert(assoc_find(entries, other).is_none());
    }
}

/// Two association lists with the same keys in the same order find a key
/// at the same index.
pub proof fn lemma_assoc_same_keys<A, B>(a: Seq<(String, A)>, b: Seq<(String, B)>, key: Seq<char>)
    requires
        a.len() == b.len(),
        forall|i: int| 0 <= i < a.len() ==> #[trigger] a[i].0@ == b[i].0@,
    ensures
        assoc_index(a, key) == assoc_index(b, key),
{
    lemma_assoc_index(a, key);
    lemma_assoc_index(b, key);
    match assoc_index(a, key) {
        Some(i) => {
            assert(b[i].0@ == key);
            match assoc_index(b, key) {
                Some(j) => {
                    if j < i {
                        assert(a[j].0@ == key);
                    }
                    if i < j {
                        assert(b[i].0@ == key);
                    }
                },
                None => {},
            }
        },
        None => {
            match assoc_index(b, key) {
                Some(j) => {
                    assert(a[j].0@ == key);
                },
                None => {},
            }
        },
    }
}

/// A string-keyed map, kept as an association list with one entry per key.
#[derive(Debug, PartialEq, Clone)]
pub struct NameMap<V> {
    pub entries: Vec<(String, V)>,
}

impl<V> Default for NameMap<V> {
    fn default() -> (r: NameMap<V>)
        ensures
            r.entries@.len() == 0,
    {
        NameMap { entries: Vec::new() }
    }
}

impl<V> NameMap<V> {
    /// The value bound to `key` in the model.
    pub open spec fn lookup(&self, key: Seq<char>) -> Option<V> {
        assoc_find(self.entries@, key)
    }

    /// An empty map.
    pub fn new() -> (r: NameMap<V>)
        ensures
            r.entries@.len() == 0,
            forall|k: Seq<char>| #[trigger] r.lookup(k).is_none(),
    {
        NameMap { entries: Vec::new() }
    }

    /// Bind `key` to `value`, replacing any earlier binding.
    pub fn insert(&mut self, key: String, value: V)
        ensures
            final(self).lookup(key@) == Some(value),
            forall|k: Seq<char>| k != key@ ==> #[trigger] final(self).lookup(k) == old(self).lookup(k),
            final(self).entries@.len() == old(self).entries@.len() + if old(self).lookup(key@).is_some() {
                0int
            } else {
                1int
            },
    {
        let ghost old_entries = self.entries@;
        let idx = self.position(key.as_str());
        proof {
            lemma_assoc_index(old_entries, key@);
        }
        match idx {
            Some(i) => {
                let ghost k2 = key;
                let pair = (key, value);
                self.entries.set(i, pair);
                proof {
                    assert forall|k: Seq<char>| k != k2@ implies #[trigger] assoc_find(self.entries@, k)
                        == assoc_find(old_entries, k) by {
                        lemma_assoc_update(old_entries, i as int, k2, value, k);
                    }
                    lemma_assoc_update(old_entries, i as int, k2, value, k2@);
                }
            },
            None => {
                let ghost k2 = key;
                self.entries.push((key, value));
                proof {
                    assert forall|k: Seq<char>| k != k2@ implies #[trigger] assoc_find(self.entries@, k)
                        == assoc_find(old_entries, k) by {
                        lemma_assoc_push(old_entries, k2, value, k);
                    }
                    lemma_assoc_push(old_entries, k2, value, k2@);
                }
            },
        }
    }

    /// The index of the entry bound to `key`.
    pub fn position(&self, key: &str) -> (r: Option<usize>)
        ensures
            r.is_some() ==> assoc_index(self.entries@, key@) == Some(r.unwrap() as int),
            r.is_none() ==> assoc_index(self.entries@, key@).is_none(),
    {
        proof {
            lemma_assoc_index(self.entries@, key@);
        }
        let mut i: usize = 0;
        while i < self.entries.len()
            invariant
                i <= self.entries@.len(),
                forall|j: int| 0 <= j < i ==> self.entries@[j].0@ != key@,
            decreases self.entries@.len() - i,
        {
            if str_eq(self.entries[i].0.as_str(), key) {
                proof {
                    lemma_assoc_index(self.entries@, key@);
                    match assoc_index(self.entries@, key@) {
                        Some(k) => {
                            if k < i {
                            } else if k > i {
                            }
                        },
                        None => {},
                    }
                }
                return Some(i);
            }
            i = i + 1;
        }
        None
    }

    /// The value bound to `key`.
    pub fn get(&self, key: &str) -> (r: Option<&V>)
        ensures
            r.is_some() == self.lookup(key@).is_some(),
            r.is_some() ==> *r.unwrap() == self.lookup(key@).unwrap(),
    {
        proof {
            lemma_assoc_index(self.entries@, key@);
        }
        match self.position(key) {
            Some(i) => Some(&self.entries[i].1),
            None => None,
        }
    }

    /// The number of bindings.
    pub fn len(&self) -> (r: usize)
        ensures
            r == self.entries@.len(),
    {
        self.entries.len()
    }

    /// Whether `key` is bound.
    pub fn contains_key(&self, key: &str) -> (r: bool)
        ensures
            r == self.lookup(key@).is_some(),
    {
        self.get(key).is_some()
    }
}

/// A set of names.
#[derive(Debug, Default, PartialEq, Clone)]
pub struct NameSet {
    pub items: Vec<String>,
}

impl NameSet {
    /// Whether `name` is in the set, in the model.
    pub open spec fn has(&self, name: Seq<char>) -> bool {
        exists|i: int| 0 <= i < self.items@.len() && self.items@[i]@ == name
    }

    /// An empty set.
    pub fn new() -> (r: NameSet)
        ensures
            forall|k: Seq<char>| !#[trigger] r.has(k),
    {
        NameSet { items: Vec::new() }
    }

    /// Add `name`; true when it was not there before.
    pub fn insert(&mut self, name: String) -> (r: bool)
        ensures
            r == !old(self).has(name@),
            forall|k: Seq<char>| #[trigger] final(self).has(k) == (old(self).has(k) || k == name@),
    {
        if self.contains(name.as_str()) {
            return false;
        }
        let ghost old_items = self.items@;
        let ghost n = name@;
        self.items.push(name);
        proof {
            assert(self.items@ == old_items.push(self.items@.last()));
            assert forall|k: Seq<char>| #[trigger] self.has(k) == (old(self).has(k) || k == n) by {
                if k == n {
                    assert(self.items@[old_items.len() as int]@ == n);
                }
                if old(self).has(k) {
                    let i = choose|i: int| 0 <= i < old_items.len() && old_items[i]@ == k;
                    assert(self.items@[i] == old_items[i]);
                }
                if self.has(k) {
                    let i = choose|i: int| 0 <= i < self.items@.len() && self.items@[i]@ == k;
                    if i < old_items.len() {
                        assert(self.items@[i] == old_items[i]);
                    }
                }
            }
        }
        true
    }

    /// Whether `name` is in the set.
    pub fn contains(&self, name: &str) -> (r: bool)
        ensures
            r == self.has(name@),
    {
        let mut i: usize = 0;
        while i < self.items.len()
            invariant
                i <= self.items@.len(),
                forall|j: int| 0 <= j < i ==> self.items@[j]@ != name@,
            decreases self.items@.len() - i,
        {
            if str_eq(self.items[i].as_str(), name) {
                return true;
            }
            i = i + 1;
        }
        false
    }
}

/// The facts of one class a check reads.
#[derive(Debug, Default, PartialEq)]
pub struct TypeInfoSnapshot {
    pub fullname: String,
    pub name: String,
    /// The method resolution order, the class itself first.
    pub mro: Vec<String>,
    /// Every fullname in the MRO.
    pub has_base: NameSet,
    /// The declared bases, as instances.
    pub bases: Vec<Type>,
    pub is_protocol: bool,
    pub is_enum: bool,
    pub enum_members: Vec<String>,
    pub fallback_to_any: bool,
    pub meta_fallback_to_any: bool,
    pub is_named_tuple: bool,
    pub is_newtype: bool,
    pub is_abstract: bool,
    pub type_vars: Vec<String>,
    pub protocol_members: Vec<String>,
    /// The calculated metaclass; `Some("")` when there is none.
    pub metaclass_fullname: Option<String>,
    /// Own members as `(implicit, has_explicit_value)`.
    pub member_info: NameMap<(bool, bool)>,
    /// Own members' definers as `(node kind, defining class)`.
    pub member_definers: NameMap<(i64, String)>,
    /// Per class type variable: `(name, variance, kind)`, where the kind is
    /// 0 for a type variable, 1 for a parameter spec and 2 for a type
    /// variable tuple.
    pub type_vars_with_variance: Vec<(String, i64, i64)>,
    /// The upper bound of each class type variable; `None` for a parameter
    /// spec, a type variable tuple, or a type variable without one.
    pub type_var_upper_bounds: Vec<Option<Type>>,
    /// The raw id of each class type variable.
    pub type_var_raw_ids: Vec<i64>,
    pub has_param_spec_type: bool,
    pub has_type_var_tuple_type: bool,
    /// The ad-hoc promotion targets (`int` to `float` and the like).
    pub promote: Vec<Type>,
    pub alt_promote_fullname: Option<String>,
    /// The tuple type of a named tuple class.
    pub tuple_type: Option<Type>,
    pub type_var_tuple_prefix: Option<usize>,
    pub type_var_tuple_suffix: Option<usize>,
    /// The tuple fallback of the first type variable tuple.
    pub type_var_tuple_fallback: Option<Type>,
}

/// One module's symbol table: per name, whether it is hidden and, for a
/// submodule, `(true, module fullname)`.
#[derive(Debug, Default, PartialEq)]
pub struct ModuleSnapshot {
    pub symbols: NameMap<(bool, Option<(bool, String)>)>,
}

impl ModuleSnapshot {
    /// Whether `name` is a visible symbol of the module; `None` when the
    /// module has no such symbol.
    pub fn visible(&self, name: &str) -> (r: Option<bool>)
        ensures
            r == match self.symbols.lookup(name@) {
                Some(entry) => Some(!entry.0),
                None => None,
            },
    {
        match self.symbols.get(name) {
            Some(entry) => Some(!entry.0),
            None => None,
        }
    }

    /// The fullname of the submodule `name` denotes; `None` when `name` is
    /// absent or not a submodule.
    pub fn module_fullname(&self, name: &str) -> (r: Option<&str>)
        ensures
            match self.symbols.lookup(name@) {
                Some((_, Some((true, f)))) => r.is_some() && r.unwrap()@ == f@,
                _ => r.is_none(),
            },
    {
        match self.symbols.get(name) {
            Some(entry) => match &entry.1 {
                Some(node) => {
                    if node.0 {
                        Some(node.1.as_str())
                    } else {
                        None
                    }
                },
                None => None,
            },
            None => None,
        }
    }
}

/// The snapshot store a check reads.
#[derive(Debug, Default)]
pub struct TypeResolver {
    pub classes: NameMap<TypeInfoSnapshot>,
    pub modules: NameMap<ModuleSnapshot>,
}

impl TypeResolver {
    /// The class snapshot of `fullname`, in the model.
    pub open spec fn class_of(&self, fullname: Seq<char>) -> Option<TypeInfoSnapshot> {
        self.classes.lookup(fullname)
    }

    /// The symbol table of `fullname`, in the model.
    pub open spec fn module_of(&self, fullname: Seq<char>) -> Option<ModuleSnapshot> {
        self.modules.lookup(fullname)
    }

    /// The number of class snapshots held.
    pub fn len(&self) -> (r: usize)
        ensures
            r == self.classes.entries@.len(),
    {
        self.classes.entries.len()
    }

    /// An empty resolver.
    pub fn new() -> (r: TypeResolver)
        ensures
            forall|k: Seq<char>| #[trigger] r.class_of(k).is_none(),
            forall|k: Seq<char>| #[trigger] r.module_of(k).is_none(),
    {
        TypeResolver { classes: NameMap::new(), modules: NameMap::new() }
    }

    /// Install the snapshot of class `fullname`.
    pub fn insert(&mut self, fullname: String, snapshot: TypeInfoSnapshot)
        ensures
            final(self).class_of(fullname@) == Some(snapshot),
            forall|k: Seq<char>| k != fullname@ ==> #[trigger] final(self).class_of(k) == old(self).class_of(k),
            forall|k: Seq<char>| #[trigger] final(self).module_of(k) == old(self).module_of(k),
    {
        self.classes.insert(fullname, snapshot);
    }

    /// Install the symbol table of module `fullname`.
    pub fn insert_module(&mut self, fullname: String, module: ModuleSnapshot)
        ensures
            final(self).module_of(fullname@) == Some(module),
            forall|k: Seq<char>| k != fullname@ ==> #[trigger] final(self).module_of(k) == old(self).module_of(k),
            forall|k: Seq<char>| #[trigger] final(self).class_of(k) == old(self).class_of(k),
    {
        self.modules.insert(fullname, module);
    }

    /// The snapshot of class `fullname`.
    pub fn get(&self, fullname: &str) -> (r: Option<&TypeInfoSnapshot>)
        ensures
            r.is_some() == self.class_of(fullname@).is_some(),
            r.is_some() ==> *r.unwrap() == self.class_of(fullname@).unwrap(),
    {
        self.classes.get(fullname)
    }

    /// The symbol table of module `fullname`.
    pub fn get_module(&self, fullname: &str) -> (r: Option<&ModuleSnapshot>)
        ensures
            r.is_some() == self.module_of(fullname@).is_some(),
            r.is_some() ==> *r.unwrap() == self.module_of(fullname@).unwrap(),
    {
        self.modules.get(fullname)
    }
}


/// Walk `mro` from `start` for the first class that defines `name` itself:
/// `Some(Some(i))` for entry `i`, `Some(None)` when no entry defines it,
/// `None` when an entry has no snapshot.
pub open spec fn mro_lookup(r: TypeResolver, mro: Seq<String>, name: Seq<char>, start: int) -> Option<Option<int>>
    decreases mro.len() - start,
{
    if start < 0 || start >= mro.len() {
        Some(None)
    } else {
        match r.class_of(mro[start]@) {
            None => None,
            Some(snap) => if snap.member_info.lookup(name).is_some() {
                Some(Some(start))
            } else {
                mro_lookup(r, mro, name, start + 1)
            },
        }
    }
}

/// Find the first entry of `mro` from `start` whose class defines `name`.
pub fn find_in_mro(r: &TypeResolver, mro: &Vec<String>, name: &str, start: usize) -> (res: Option<Option<usize>>)
    ensures
        match res {
            None => mro_lookup(*r, mro@, name@, start as int).is_none(),
            Some(None) => mro_lookup(*r, mro@, name@, start as int) == Some(None::<int>),
            Some(Some(i)) => mro_lookup(*r, mro@, name@, start as int) == Some(Some(i as int)) && i < mro@.len(),
        },
{
    let mut i = start;
    while i < mro.len()
        invariant
            start <= i || mro@.len() <= start,
            mro_lookup(*r, mro@, name@, start as int) == mro_lookup(*r, mro@, name@, i as int),
        decreases mro@.len() - i,
    {
        match r.get(mro[i].as_str()) {
            None => {
                return None;
            },
            Some(snap) => {
                if snap.member_info.contains_key(name) {
                    return Some(Some(i));
                }
            },
        }
        i = i + 1;
    }
    Some(None)
}

/// `TypeInfo.is_metaclass()` over a snapshot.
pub open spec fn snapshot_is_metaclass(s: TypeInfoSnapshot) -> bool {
    s.has_base.has("builtins.type"@) || s.fullname@ == "abc.ABCMeta"@ || s.fallback_to_any
}

/// `TypeInfo.is_metaclass()` over a snapshot.
pub fn is_metaclass(s: &TypeInfoSnapshot) -> (r: bool)
    ensures
        r == snapshot_is_metaclass(*s),
{
    s.has_base.contains("builtins.type") || str_eq(s.fullname.as_str(), "abc.ABCMeta") || s.fallback_to_any
}

} // verus!
