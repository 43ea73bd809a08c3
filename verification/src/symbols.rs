//! The symbol index: which input defines which global name, and where.

use vstd::prelude::*;

verus! {

/// Where a global name is defined.
#[derive(Debug, Copy, Clone, PartialEq, Eq)]
pub struct Sym {
    /// The symbol's address on the target.
    pub addr: u32,
    /// The zero-based position, in the script, of the input that defines it.
    pub file: u16,
}

/// One name of the index with its definition.
#[derive(Debug)]
pub struct SymEntry {
    name: String,
    sym: Sym,
}

/// The index from global names to their definitions. No name occurs twice;
/// a name keeps the place at which it was first defined.
///
/// The index is a list that is searched in order, not a hash table: of a
/// table keyed by strings nothing could be proved here, and with a list the
/// symbols of the output come in an order that the inputs alone decide.
#[derive(Debug)]
pub struct SymMap {
    entries: Vec<SymEntry>,
}

/// The definitions of a list of entries as a map. Of two entries with one
/// name, which an index never holds, the map has either.
pub open spec fn as_map(entries: Seq<(Seq<char>, Sym)>) -> Map<Seq<char>, Sym> {
    Map::new(
        |k: Seq<char>| exists|i: int| 0 <= i < entries.len() && (#[trigger] entries[i]).0 == k,
        |k: Seq<char>|
            entries[choose|i: int| 0 <= i < entries.len() && (#[trigger] entries[i]).0 == k].1,
    )
}

/// Whether no name occurs twice in a list of entries.
pub open spec fn distinct_names(entries: Seq<(Seq<char>, Sym)>) -> bool {
    forall|i: int, j: int|
        0 <= i < j < entries.len() ==> (#[trigger] entries[i]).0 != (#[trigger] entries[j]).0
}

/// In a list without a repeated name, the map gives each entry's name the
/// entry's definition.
pub proof fn lemma_as_map_entry(entries: Seq<(Seq<char>, Sym)>, i: int)
    requires
        distinct_names(entries),
        0 <= i < entries.len(),
    ensures
        as_map(entries).dom().contains(entries[i].0),
        as_map(entries)[entries[i].0] == entries[i].1,
{
    let k = entries[i].0;
    let j = choose|j: int| 0 <= j < entries.len() && (#[trigger] entries[j]).0 == k;
    assert(j == i);
}

/// Giving the name of an entry a new definition in place is defining the
/// name anew in the map.
pub proof fn lemma_as_map_update(entries: Seq<(Seq<char>, Sym)>, i: int, sym: Sym)
    requires
        distinct_names(entries),
        0 <= i < entries.len(),
    ensures
        distinct_names(entries.update(i, (entries[i].0, sym))),
        as_map(entries.update(i, (entries[i].0, sym))) == as_map(entries).insert(entries[i].0, sym),
{
    let key = entries[i].0;
    let after = entries.update(i, (key, sym));
    assert forall|k: Seq<char>| #[trigger]
        as_map(after).dom().contains(k) == as_map(entries).dom().contains(k) by {
        if as_map(after).dom().contains(k) {
            let j = choose|j: int| 0 <= j < after.len() && (#[trigger] after[j]).0 == k;
            assert(entries[j].0 == k);
        }
        if as_map(entries).dom().contains(k) {
            let j = choose|j: int| 0 <= j < entries.len() && (#[trigger] entries[j]).0 == k;
            assert(after[j].0 == k);
        }
    }
    lemma_as_map_entry(entries, i);
    assert forall|k: Seq<char>| as_map(after).dom().contains(k) implies #[trigger] as_map(after)[k]
        == as_map(entries).insert(key, sym)[k] by {
        let j = choose|j: int| 0 <= j < after.len() && (#[trigger] after[j]).0 == k;
        lemma_as_map_entry(after, j);
        if k != key {
            lemma_as_map_entry(entries, j);
        }
    }
    assert(as_map(after) =~= as_map(entries).insert(key, sym));
}

/// Adding an entry with a name that the list does not hold is defining the
/// name in the map.
pub proof fn lemma_as_map_push(entries: Seq<(Seq<char>, Sym)>, key: Seq<char>, sym: Sym)
    requires
        distinct_names(entries),
        forall|i: int| 0 <= i < entries.len() ==> (#[trigger] entries[i]).0 != key,
    ensures
        !as_map(entries).dom().contains(key),
        distinct_names(entries.push((key, sym))),
        as_map(entries.push((key, sym))) == as_map(entries).insert(key, sym),
{
    let after = entries.push((key, sym));
    assert forall|k: Seq<char>| #[trigger]
        as_map(after).dom().contains(k) == (k == key || as_map(entries).dom().contains(k)) by {
        if as_map(after).dom().contains(k) {
            let j = choose|j: int| 0 <= j < after.len() && (#[trigger] after[j]).0 == k;
            if j < entries.len() {
                assert(entries[j].0 == k);
            }
        }
        if as_map(entries).dom().contains(k) {
            let j = choose|j: int| 0 <= j < entries.len() && (#[trigger] entries[j]).0 == k;
            assert(after[j].0 == k);
        }
        if k == key {
            assert(after[entries.len() as int].0 == k);
        }
    }
    assert forall|k: Seq<char>| as_map(after).dom().contains(k) implies #[trigger] as_map(after)[k]
        == as_map(entries).insert(key, sym)[k] by {
        let j = choose|j: int| 0 <= j < after.len() && (#[trigger] after[j]).0 == k;
        lemma_as_map_entry(after, j);
        if k != key {
            lemma_as_map_entry(entries, j);
        }
    }
    assert(as_map(after) =~= as_map(entries).insert(key, sym));
}

/// A list of entries defines finitely many names.
pub proof fn lemma_as_map_finite(entries: Seq<(Seq<char>, Sym)>)
    ensures
        as_map(entries).dom().finite(),
{
    let names = as_map(entries).dom();
    let indices = vstd::set_lib::set_int_range(0, entries.len() as int);
    vstd::set_lib::lemma_int_range(0, entries.len() as int);
    let image = indices.map(|i: int| entries[i].0);
    indices.lemma_map_finite(|i: int| entries[i].0);
    assert forall|k: Seq<char>| names.contains(k) implies image.contains(k) by {
        let i = choose|i: int| 0 <= i < entries.len() && (#[trigger] entries[i]).0 == k;
        assert(indices.contains(i));
    }
    assert(names =~= image);
}

/// A list without a repeated name defines as many names as it has entries.
pub proof fn lemma_as_map_len(entries: Seq<(Seq<char>, Sym)>)
    requires
        distinct_names(entries),
    ensures
        as_map(entries).dom().finite(),
        as_map(entries).dom().len() == entries.len(),
    decreases entries.len(),
{
    lemma_as_map_finite(entries);
    if entries.len() == 0 {
        assert(as_map(entries).dom() =~= Set::<Seq<char>>::empty());
    } else {
        let rest = entries.drop_last();
        let last = entries.last();
        assert(distinct_names(rest)) by {
            assert forall|i: int, j: int| 0 <= i < j < rest.len() implies (#[trigger] rest[i]).0 != (
            #[trigger] rest[j]).0 by {
                assert(rest[i] == entries[i] && rest[j] == entries[j]);
            }
        }
        assert forall|i: int| 0 <= i < rest.len() implies (#[trigger] rest[i]).0 != last.0 by {
            assert(rest[i] == entries[i]);
            assert(entries[entries.len() - 1] == last);
        }
        lemma_as_map_len(rest);
        lemma_as_map_push(rest, last.0, last.1);
        assert(rest.push((last.0, last.1)) =~= entries);
        assert(as_map(entries).dom() =~= as_map(rest).dom().insert(last.0));
    }
}

/// The position of `name` in a list of entries, if the list holds it.
pub open spec fn position_of(entries: Seq<(Seq<char>, Sym)>, name: Seq<char>) -> Option<int> {
    if as_map(entries).dom().contains(name) {
        Some(choose|i: int| 0 <= i < entries.len() && (#[trigger] entries[i]).0 == name)
    } else {
        None
    }
}

impl View for SymMap {
    type V = Map<Seq<char>, Sym>;

    open spec fn view(&self) -> Map<Seq<char>, Sym> {
        as_map(self.entries())
    }
}

impl SymMap {
    #[verifier::type_invariant]
    closed spec fn well_formed(&self) -> bool {
        distinct_names(self.entries())
    }

    /// The names and definitions in the order in which the names were first
    /// defined.
    pub closed spec fn entries(&self) -> Seq<(Seq<char>, Sym)> {
        pairs(self.entries@)
    }

    /// An index without names.
    pub fn new() -> (r: Self)
        ensures
            r@ == Map::<Seq<char>, Sym>::empty(),
            r.entries() == Seq::<(Seq<char>, Sym)>::empty(),
    {
        let r = SymMap { entries: Vec::new() };
        assert(r.entries() =~= Seq::<(Seq<char>, Sym)>::empty());
        assert(r@ =~= Map::<Seq<char>, Sym>::empty());
        r
    }

    /// The number of names. No name is counted twice.
    pub fn len(&self) -> (n: usize)
        ensures
            n == self.entries().len(),
            n == self@.dom().len(),
            distinct_names(self.entries()),
            self@.dom().finite(),
    {
        proof {
            use_type_invariant(self);
            lemma_as_map_finite(self.entries());
            lemma_as_map_len(self.entries());
        }
        self.entries.len()
    }

    /// The name at position `i` of the order of definition.
    pub fn name_at(&self, i: usize) -> (r: &String)
        requires
            i < self.entries().len(),
        ensures
            r@ == self.entries()[i as int].0,
    {
        &self.entries[i].name
    }

    /// The definition at position `i` of the order of definition.
    pub fn sym_at(&self, i: usize) -> (r: Sym)
        requires
            i < self.entries().len(),
        ensures
            r == self.entries()[i as int].1,
    {
        self.entries[i].sym
    }

    fn position(&self, name: &String) -> (r: Option<usize>)
        ensures
            distinct_names(self.entries()),
            match r {
                Some(i) => i < self.entries().len() && self.entries()[i as int].0 == name@,
                None => forall|i: int|
                    0 <= i < self.entries().len() ==> (#[trigger] self.entries()[i]).0 != name@,
            },
    {
        proof {
            use_type_invariant(self);
        }
        let mut i: usize = 0;
        while i < self.entries.len()
            invariant
                i <= self.entries@.len(),
                self.entries().len() == self.entries@.len(),
                distinct_names(self.entries()),
                forall|j: int| 0 <= j < i ==> (#[trigger] self.entries()[j]).0 != name@,
            decreases self.entries@.len() - i,
        {
            if self.entries[i].name == *name {
                return Some(i);
            }
            i += 1;
        }
        None
    }

    /// The definition of `name`, if the index has one.
    pub fn get(&self, name: &str) -> (r: Option<Sym>)
        ensures
            r == if self@.dom().contains(name@) {
                Some(self@[name@])
            } else {
                None
            },
    {
        let key = name.to_owned();
        match self.position(&key) {
            Some(i) => {
                proof {
                    lemma_as_map_entry(self.entries(), i as int);
                }
                Some(self.entries[i].sym)
            },
            None => None,
        }
    }

    /// Defines `name` as `sym`. Where the name was defined before, the new
    /// definition takes the old one's place and the old one is returned;
    /// else the name goes to the end of the order of definition.
    pub fn insert(&mut self, name: String, sym: Sym) -> (r: Option<Sym>)
        ensures
            final(self)@ == old(self)@.insert(name@, sym),
            r == if old(self)@.dom().contains(name@) {
                Some(old(self)@[name@])
            } else {
                None
            },
            final(self).entries() == match position_of(old(self).entries(), name@) {
                Some(i) => old(self).entries().update(i, (name@, sym)),
                None => old(self).entries().push((name@, sym)),
            },
    {
        let ghost before = self.entries();
        let ghost key = name@;
        let found = self.position(&name);
        let mut entries: Vec<SymEntry> = Vec::new();
        core::mem::swap(&mut self.entries, &mut entries);
        match found {
            Some(i) => {
                let previous = entries[i].sym;
                entries.set(i, SymEntry { name, sym });
                proof {
                    lemma_as_map_entry(before, i as int);
                    lemma_as_map_update(before, i as int, sym);
                    assert(pairs(entries@) =~= before.update(i as int, (key, sym)));
                }
                self.entries = entries;
                Some(previous)
            },
            None => {
                entries.push(SymEntry { name, sym });
                proof {
                    lemma_as_map_push(before, key, sym);
                    assert(pairs(entries@) =~= before.push((key, sym)));
                }
                self.entries = entries;
                None
            },
        }
    }
}

/// The entries of an index as names and definitions.
spec fn pairs(entries: Seq<SymEntry>) -> Seq<(Seq<char>, Sym)> {
    Seq::new(entries.len(), |i: int| (entries[i].name@, entries[i].sym))
}

} // verus!
