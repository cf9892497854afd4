//! A small map from field names to values, kept as a list of entries in
//! which no name occurs twice.

use vstd::prelude::*;

verus! {

/// One field of a record: its name and what it holds.
#[derive(Debug, Clone)]
pub struct Entry<V> {
    pub name: String,
    pub value: V,
}

/// Some entry of `items` carries `name`.
pub open spec fn has_name<V>(items: Seq<Entry<V>>, name: Seq<char>) -> bool {
    exists|i: int| 0 <= i < items.len() && (#[trigger] items[i]).name@ == name
}

/// An index at which `items` carries `name`, where there is one.
pub open spec fn position<V>(items: Seq<Entry<V>>, name: Seq<char>) -> int {
    choose|i: int| 0 <= i < items.len() && (#[trigger] items[i]).name@ == name
}

/// No two entries of `items` carry the same name.
pub open spec fn distinct_names<V>(items: Seq<Entry<V>>) -> bool {
    forall|i: int, j: int|
        0 <= i < j < items.len() ==> (#[trigger] items[i]).name@ != (#[trigger] items[j]).name@
}

/// The map that a list of entries stands for.
pub open spec fn mapping_of<V>(items: Seq<Entry<V>>) -> Map<Seq<char>, V> {
    Map::new(
        |name: Seq<char>| has_name(items, name),
        |name: Seq<char>| items[position(items, name)].value,
    )
}

/// In a list without repeated names, each entry is what the map holds under its name.
pub proof fn lemma_lookup<V>(items: Seq<Entry<V>>, i: int)
    requires
        distinct_names(items),
        0 <= i < items.len(),
    ensures
        has_name(items, items[i].name@),
        position(items, items[i].name@) == i,
        mapping_of(items).contains_key(items[i].name@),
        mapping_of(items)[items[i].name@] == items[i].value,
{
    let name = items[i].name@;
    let p = position(items, name);
    assert(0 <= p < items.len() && items[p].name@ == name);
    if p < i {
        assert(items[p].name@ != items[i].name@);
    } else if i < p {
        assert(items[i].name@ != items[p].name@);
    }
}

/// Adding an entry under a name that is not there yet inserts it into the map.
pub proof fn lemma_push<V>(items: Seq<Entry<V>>, entry: Entry<V>)
    requires
        distinct_names(items),
        !has_name(items, entry.name@),
    ensures
        distinct_names(items.push(entry)),
        mapping_of(items.push(entry)) == mapping_of(items).insert(entry.name@, entry.value),
{
    let grown = items.push(entry);
    assert forall|i: int, j: int| 0 <= i < j < grown.len() implies (#[trigger] grown[i]).name@ != (
    #[trigger] grown[j]).name@ by {
        if j == items.len() {
            assert(items[i].name@ != entry.name@);
        } else {
            assert(items[i].name@ != items[j].name@);
        }
    }
    assert forall|name: Seq<char>| has_name(grown, name) <==> (has_name(items, name) || name
        == entry.name@) by {
        if has_name(items, name) {
            let i = position(items, name);
            assert(grown[i].name@ == name);
        }
        if name == entry.name@ {
            assert(grown[items.len() as int].name@ == name);
        }
        if has_name(grown, name) && name != entry.name@ {
            let i = position(grown, name);
            assert(items[i].name@ == name);
        }
    }
    assert forall|name: Seq<char>| has_name(grown, name) implies #[trigger] mapping_of(grown)[name]
        == mapping_of(items).insert(entry.name@, entry.value)[name] by {
        let i = position(grown, name);
        lemma_lookup(grown, i);
        if i < items.len() {
            assert(items[i].name@ == name);
            lemma_lookup(items, i);
        }
    }
    assert(mapping_of(grown) =~= mapping_of(items).insert(entry.name@, entry.value));
}

/// Replacing the value of an entry replaces what the map holds under its name.
pub proof fn lemma_replace<V>(items: Seq<Entry<V>>, i: int, entry: Entry<V>)
    requires
        distinct_names(items),
        0 <= i < items.len(),
        items[i].name@ == entry.name@,
    ensures
        distinct_names(items.update(i, entry)),
        mapping_of(items.update(i, entry)) == mapping_of(items).insert(entry.name@, entry.value),
{
    let changed = items.update(i, entry);
    assert forall|a: int, b: int| 0 <= a < b < changed.len() implies (#[trigger] changed[a]).name@
        != (#[trigger] changed[b]).name@ by {
        assert(items[a].name@ != items[b].name@);
    }
    assert forall|name: Seq<char>| has_name(changed, name) <==> has_name(items, name) by {
        if has_name(items, name) {
            let j = position(items, name);
            assert(changed[j].name@ == name);
        }
        if has_name(changed, name) {
            let j = position(changed, name);
            assert(items[j].name@ == name);
        }
    }
    lemma_lookup(items, i);
    assert forall|name: Seq<char>| has_name(changed, name) implies #[trigger] mapping_of(
        changed,
    )[name] == mapping_of(items).insert(entry.name@, entry.value)[name] by {
        let j = position(changed, name);
        lemma_lookup(changed, j);
        assert(items[j].name@ == name);
        lemma_lookup(items, j);
    }
    assert(mapping_of(changed) =~= mapping_of(items).insert(entry.name@, entry.value));
}

/// A list without repeated names stands for a finite map with one key per entry.
pub proof fn lemma_size<V>(items: Seq<Entry<V>>)
    requires
        distinct_names(items),
    ensures
        mapping_of(items).dom().finite(),
        mapping_of(items).dom().len() == items.len(),
    decreases items.len(),
{
    if items.len() == 0 {
        assert(mapping_of(items).dom() =~= Set::<Seq<char>>::empty());
    } else {
        let front = items.drop_last();
        let last = items.last();
        assert forall|i: int, j: int| 0 <= i < j < front.len() implies (#[trigger] front[i]).name@
            != (#[trigger] front[j]).name@ by {
            assert(items[i].name@ != items[j].name@);
        }
        if has_name(front, last.name@) {
            let i = position(front, last.name@);
            assert(items[i].name@ != items[items.len() - 1].name@);
        }
        lemma_size(front);
        lemma_push(front, last);
        assert(front.push(last) =~= items);
        assert(mapping_of(items).dom() =~= mapping_of(front).dom().insert(last.name@));
        assert(!mapping_of(front).dom().contains(last.name@));
    }
}

/// A map from field names to values.
#[derive(Debug, Clone)]
pub struct FieldMap<V> {
    entries: Vec<Entry<V>>,
}

impl<V> View for FieldMap<V> {
    type V = Map<Seq<char>, V>;

    open spec fn view(&self) -> Map<Seq<char>, V> {
        mapping_of(self.items())
    }
}

impl<V> FieldMap<V> {
    /// The entries in the order in which their names first came in.
    pub closed spec fn items(&self) -> Seq<Entry<V>> {
        self.entries@
    }

    /// The names of the fields, in the order of the entries.
    pub open spec fn names(&self) -> Seq<Seq<char>> {
        Seq::new(self.items().len(), |i: int| self.items()[i].name@)
    }

    /// No name occurs twice.
    pub open spec fn wf(&self) -> bool {
        distinct_names(self.items())
    }

    /// The map without any field.
    pub fn new() -> (result: Self)
        ensures
            result.wf(),
            result.items() == Seq::<Entry<V>>::empty(),
            result@ == Map::<Seq<char>, V>::empty(),
    {
        let result = FieldMap { entries: Vec::new() };
        assert(result@ =~= Map::<Seq<char>, V>::empty());
        result
    }

    /// How many fields the map holds.
    pub fn len(&self) -> (count: usize)
        requires
            self.wf(),
        ensures
            count == self.items().len(),
            count == self@.dom().len(),
    {
        proof {
            lemma_size(self.items());
        }
        self.entries.len()
    }

    /// The entries, one per field.
    pub fn entries(&self) -> (list: &Vec<Entry<V>>)
        ensures
            list@ == self.items(),
    {
        &self.entries
    }

    /// Gives the entries up, one per field.
    pub fn into_entries(self) -> (list: Vec<Entry<V>>)
        ensures
            list@ == self.items(),
    {
        self.entries
    }

    /// Where the field `name` stands among the entries.
    pub fn find(&self, name: &String) -> (found: Option<usize>)
        ensures
            match found {
                Some(i) => {
                    &&& i < self.items().len()
                    &&& self.items()[i as int].name@ == name@
                    &&& forall|j: int| 0 <= j < i ==> (#[trigger] self.items()[j]).name@ != name@
                },
                None => !has_name(self.items(), name@),
            },
    {
        let mut i: usize = 0;
        while i < self.entries.len()
            invariant
                i <= self.entries.len(),
                forall|j: int| 0 <= j < i ==> (#[trigger] self.entries@[j]).name@ != name@,
            decreases self.entries.len() - i,
        {
            if self.entries[i].name == *name {
                return Some(i);
            }
            i += 1;
        }
        None
    }

    /// Whether the map holds a field `name`.
    pub fn contains_key(&self, name: &String) -> (present: bool)
        ensures
            present == self@.contains_key(name@),
    {
        self.find(name).is_some()
    }

    /// What the map holds under `name`.
    pub fn get(&self, name: &String) -> (value: Option<&V>)
        requires
            self.wf(),
        ensures
            match value {
                Some(v) => self@.contains_key(name@) && *v == self@[name@],
                None => !self@.contains_key(name@),
            },
    {
        match self.find(name) {
            Some(i) => {
                proof {
                    lemma_lookup(self.items(), i as int);
                }
                Some(&self.entries[i].value)
            },
            None => None,
        }
    }

    /// Puts `value` under `name`, in place of what was there.
    pub fn set(&mut self, name: String, value: V)
        requires
            old(self).wf(),
        ensures
            final(self).wf(),
            final(self)@ == old(self)@.insert(name@, value),
            has_name(old(self).items(), name@) ==> final(self).items() == old(self).items().update(
                position(old(self).items(), name@),
                (Entry { name, value }),
            ),
            !has_name(old(self).items(), name@) ==> final(self).items() == old(self).items().push(
                (Entry { name, value }),
            ),
    {
        let found = self.find(&name);
        let entry = Entry { name, value };
        match found {
            Some(i) => {
                proof {
                    lemma_lookup(self.items(), i as int);
                    lemma_replace(self.items(), i as int, entry);
                }
                self.entries.remove(i);
                self.entries.insert(i, entry);
                assert(self.entries@ =~= old(self).entries@.update(i as int, entry));
            },
            None => {
                proof {
                    lemma_push(self.items(), entry);
                }
                self.entries.push(entry);
            },
        }
    }
}

} // verus!
