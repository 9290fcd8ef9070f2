//! Tables of named entries, kept in the order of their names.

use vstd::prelude::*;

use crate::text::{is_before, lemma_text_order, lemma_text_transitive, same_text, text_before};

verus! {

/// Entries under distinct names, in the order of the names' bytes.
#[derive(Debug)]
pub struct Table<T> {
    pub entries: Vec<(String, T)>,
}

/// The names of a sequence of entries.
pub open spec fn names<T>(entries: Seq<(String, T)>) -> Seq<Seq<char>> {
    entries.map_values(|entry: (String, T)| entry.0@)
}

/// The names stand in strictly ascending order.
pub open spec fn ascending(names: Seq<Seq<char>>) -> bool {
    forall|i: int, j: int| 0 <= i < j < names.len() ==> text_before(#[trigger] names[i], #[trigger] names[j])
}

/// What a sequence of entries with distinct names holds under each name.
pub open spec fn contents<T>(entries: Seq<(String, T)>) -> Map<Seq<char>, T> {
    Map::new(
        |name: Seq<char>| names(entries).contains(name),
        |name: Seq<char>| entries[names(entries).index_of(name)].1,
    )
}

impl<T> View for Table<T> {
    type V = Map<Seq<char>, T>;

    open spec fn view(&self) -> Map<Seq<char>, T> {
        contents(self.entries@)
    }
}

impl<T> Table<T> {
    /// The names stand in strictly ascending order.
    pub open spec fn wf(&self) -> bool {
        ascending(names(self.entries@))
    }

    /// The names in order.
    pub open spec fn names(&self) -> Seq<Seq<char>> {
        names(self.entries@)
    }

    /// An empty table.
    pub fn new() -> (table: Self)
        ensures
            table.wf(),
            table@ == Map::<Seq<char>, T>::empty(),
            table.names().len() == 0,
    {
        let table: Table<T> = Table { entries: Vec::new() };
        assert(table@ =~= Map::<Seq<char>, T>::empty());
        table
    }

    /// Whether the names stand in strictly ascending order.
    pub fn is_ordered(&self) -> (ordered: bool)
        ensures
            ordered == self.wf(),
    {
        let ghost all = self.names();
        let mut index: usize = 1;
        while index < self.entries.len()
            invariant
                1 <= index,
                all == self.names(),
                forall|i: int, j: int|
                    0 <= i < j < index && j < all.len() ==> text_before(#[trigger] all[i], #[trigger] all[j]),
            decreases self.entries.len() - index,
        {
            assert(all[index - 1] == self.entries@[index - 1].0@ && all[index as int] == self.entries@[index as int].0@);
            if !is_before(self.entries[index - 1].0.as_str(), self.entries[index].0.as_str()) {
                assert(!text_before(all[index - 1], all[index as int]));
                return false;
            }
            assert forall|i: int, j: int| 0 <= i < j < index + 1 && j < all.len() implies text_before(
                #[trigger] all[i],
                #[trigger] all[j],
            ) by {
                if j == index && i < index - 1 {
                    lemma_text_transitive(all[i], all[index - 1], all[index as int]);
                }
            }
            index += 1;
        }
        true
    }

    /// Returns the position of `name`, or where it would stand.
    pub fn locate(&self, name: &str) -> (place: Result<usize, usize>)
        requires
            self.wf(),
        ensures
            match place {
                Ok(index) => index < self.entries@.len() && self.entries@[index as int].0@ == name@
                    && self@.dom().contains(name@) && self@[name@] == self.entries@[index as int].1,
                Err(index) => {
                    &&& index <= self.entries@.len()
                    &&& !self@.dom().contains(name@)
                    &&& forall|i: int| 0 <= i < index ==> text_before(#[trigger] self.names()[i], name@)
                    &&& forall|i: int| index <= i < self.names().len() ==> text_before(name@, #[trigger] self.names()[i])
                },
            },
    {
        let mut index: usize = 0;
        while index < self.entries.len()
            invariant
                self.wf(),
                index <= self.entries.len(),
                forall|i: int| 0 <= i < index ==> text_before(#[trigger] self.names()[i], name@),
            decreases self.entries.len() - index,
        {
            let entry = &self.entries[index];
            assert(self.names()[index as int] == entry.0@);
            if same_text(entry.0.as_str(), name) {
                proof {
                    self.lemma_entry(index as int);
                }
                return Ok(index);
            }
            if is_before(name, entry.0.as_str()) {
                proof {
                    assert forall|i: int| index <= i < self.names().len() implies text_before(
                        name@,
                        #[trigger] self.names()[i],
                    ) by {
                        if i > index {
                            lemma_text_transitive(name@, self.names()[index as int], self.names()[i]);
                        }
                    }
                    self.lemma_gap(index as int, name@);
                }
                return Err(index);
            }
            proof {
                lemma_text_order(name@, entry.0@);
            }
            index += 1;
        }
        proof {
            self.lemma_gap(index as int, name@);
        }
        Err(index)
    }

    /// The name of an entry leads to that entry.
    pub proof fn lemma_entry(&self, index: int)
        requires
            self.wf(),
            0 <= index < self.entries@.len(),
        ensures
            self@.dom().contains(self.entries@[index].0@),
            self@[self.entries@[index].0@] == self.entries@[index].1,
    {
        lemma_contents_entry(self.entries@, index);
    }

    /// A name between two neighbours is no name of the table.
    proof fn lemma_gap(&self, index: int, name: Seq<char>)
        requires
            0 <= index <= self.entries@.len(),
            forall|i: int| 0 <= i < index ==> text_before(#[trigger] self.names()[i], name),
            forall|i: int| index <= i < self.names().len() ==> text_before(name, #[trigger] self.names()[i]),
        ensures
            !self@.dom().contains(name),
    {
        if self.names().contains(name) {
            let at = choose|i: int| 0 <= i < self.names().len() && self.names()[i] == name;
            lemma_text_order(name, self.names()[at]);
        }
    }

    /// Whether an entry stands under `name`.
    pub fn contains(&self, name: &str) -> (found: bool)
        requires
            self.wf(),
        ensures
            found == self@.dom().contains(name@),
    {
        match self.locate(name) {
            Ok(_) => true,
            Err(_) => false,
        }
    }

    /// Returns what stands under `name`.
    pub fn get(&self, name: &str) -> (value: Option<&T>)
        requires
            self.wf(),
        ensures
            match value {
                Some(value) => self@.dom().contains(name@) && self@[name@] == *value,
                None => !self@.dom().contains(name@),
            },
    {
        match self.locate(name) {
            Ok(index) => Some(&self.entries[index].1),
            Err(_) => None,
        }
    }

    /// Puts `value` under `name` and returns what stood there.
    pub fn insert(&mut self, name: String, value: T) -> (previous: Option<T>)
        requires
            old(self).wf(),
        ensures
            final(self).wf(),
            final(self)@ == old(self)@.insert(name@, value),
            match previous {
                Some(previous) => old(self)@.dom().contains(name@) && old(self)@[name@] == previous,
                None => !old(self)@.dom().contains(name@),
            },
    {
        let ghost before = self.entries@;
        let ghost key = name@;
        match self.locate(name.as_str()) {
            Ok(index) => {
                let removed = self.entries.remove(index);
                let ghost entry = (name, value);
                self.entries.insert(index, (name, value));
                proof {
                    assert(self.entries@ =~= before.update(index as int, entry));
                    lemma_contents_update(before, index as int, entry);
                }
                Some(removed.1)
            },
            Err(index) => {
                let ghost entry = (name, value);
                assert(self.names() == names(before));
                assert(forall|i: int| 0 <= i < index ==> text_before(#[trigger] names(before)[i], key));
                assert(forall|i: int| index <= i < before.len() ==> text_before(key, #[trigger] names(before)[i]));
                self.entries.insert(index, (name, value));
                proof {
                    lemma_contents_insert(before, index as int, entry);
                }
                None
            },
        }
    }

    /// Takes out what stands under `name`.
    pub fn remove(&mut self, name: &str) -> (removed: Option<T>)
        requires
            old(self).wf(),
        ensures
            final(self).wf(),
            final(self)@ == old(self)@.remove(name@),
            match removed {
                Some(removed) => old(self)@.dom().contains(name@) && old(self)@[name@] == removed,
                None => !old(self)@.dom().contains(name@) && *final(self) == *old(self),
            },
    {
        let ghost before = self.entries@;
        match self.locate(name) {
            Ok(index) => {
                let removed = self.entries.remove(index);
                proof {
                    lemma_contents_remove(before, index as int);
                }
                Some(removed.1)
            },
            Err(_) => {
                assert(self@ =~= self@.remove(name@));
                None
            },
        }
    }
}

/// The name of an entry leads to that entry.
pub proof fn lemma_contents_entry<T>(entries: Seq<(String, T)>, index: int)
    requires
        ascending(names(entries)),
        0 <= index < entries.len(),
    ensures
        contents(entries).dom().contains(entries[index].0@),
        contents(entries)[entries[index].0@] == entries[index].1,
{
    let name = entries[index].0@;
    assert(names(entries)[index] == name);
    let found = names(entries).index_of(name);
    assert(names(entries)[found] == name);
    lemma_text_order(name, name);
    if found != index {
        assert(false);
    }
}

/// Two sequences of entries hold the same where each name leads to the same.
proof fn lemma_contents_same<T>(entries: Seq<(String, T)>, expected: Map<Seq<char>, T>)
    requires
        ascending(names(entries)),
        forall|name: Seq<char>| #[trigger] expected.dom().contains(name) ==> names(entries).contains(name),
        forall|index: int|
            0 <= index < entries.len() ==> expected.dom().contains(#[trigger] entries[index].0@)
                && expected[entries[index].0@] == entries[index].1,
    ensures
        contents(entries) == expected,
{
    assert forall|name: Seq<char>| contents(entries).dom().contains(name) <==> expected.dom().contains(name) by {
        if names(entries).contains(name) {
            let at = choose|i: int| 0 <= i < names(entries).len() && names(entries)[i] == name;
            assert(entries[at].0@ == name);
        }
    }
    assert forall|name: Seq<char>| contents(entries).dom().contains(name) implies contents(entries)[name]
        == expected[name] by {
        let at = choose|i: int| 0 <= i < names(entries).len() && names(entries)[i] == name;
        assert(entries[at].0@ == name);
        lemma_contents_entry(entries, at);
    }
    assert(contents(entries) =~= expected);
}

proof fn lemma_contents_update<T>(entries: Seq<(String, T)>, index: int, entry: (String, T))
    requires
        ascending(names(entries)),
        0 <= index < entries.len(),
        entries[index].0@ == entry.0@,
    ensures
        ascending(names(entries.update(index, entry))),
        contents(entries.update(index, entry)) == contents(entries).insert(entry.0@, entry.1),
{
    let after = entries.update(index, entry);
    assert(names(after) =~= names(entries));
    let expected = contents(entries).insert(entry.0@, entry.1);
    assert forall|name: Seq<char>| #[trigger] expected.dom().contains(name) implies names(after).contains(name) by {
        if name == entry.0@ {
            assert(names(after)[index] == name);
        }
    }
    assert forall|i: int| 0 <= i < after.len() implies expected.dom().contains(#[trigger] after[i].0@)
        && expected[after[i].0@] == after[i].1 by {
        if i != index {
            lemma_contents_entry(entries, i);
            assert(names(entries)[i] == entries[i].0@);
            assert(names(entries)[index] == entry.0@);
            lemma_text_order(entries[i].0@, entry.0@);
        }
    }
    lemma_contents_same(after, expected);
}

proof fn lemma_contents_insert<T>(entries: Seq<(String, T)>, index: int, entry: (String, T))
    requires
        ascending(names(entries)),
        0 <= index <= entries.len(),
        forall|i: int| 0 <= i < index ==> text_before(#[trigger] names(entries)[i], entry.0@),
        forall|i: int| index <= i < entries.len() ==> text_before(entry.0@, #[trigger] names(entries)[i]),
    ensures
        ascending(names(entries.insert(index, entry))),
        contents(entries.insert(index, entry)) == contents(entries).insert(entry.0@, entry.1),
{
    let after = entries.insert(index, entry);
    assert(names(after) =~= names(entries).insert(index, entry.0@));
    assert forall|i: int, j: int| 0 <= i < j < names(after).len() implies text_before(
        #[trigger] names(after)[i],
        #[trigger] names(after)[j],
    ) by {
        let from = if i < index {
            i
        } else {
            i - 1
        };
        let to = if j < index {
            j
        } else {
            j - 1
        };
        if i != index {
            assert(names(after)[i] == names(entries)[from]);
        }
        if j != index {
            assert(names(after)[j] == names(entries)[to]);
        }
    }
    let expected = contents(entries).insert(entry.0@, entry.1);
    assert forall|name: Seq<char>| #[trigger] expected.dom().contains(name) implies names(after).contains(name) by {
        if name == entry.0@ {
            assert(names(after)[index] == name);
        } else {
            let at = choose|i: int| 0 <= i < names(entries).len() && names(entries)[i] == name;
            if at < index {
                assert(names(after)[at] == name);
            } else {
                assert(names(after)[at + 1] == name);
            }
        }
    }
    assert forall|i: int| 0 <= i < after.len() implies expected.dom().contains(#[trigger] after[i].0@)
        && expected[after[i].0@] == after[i].1 by {
        if i != index {
            let from = if i < index {
                i
            } else {
                i - 1
            };
            lemma_contents_entry(entries, from);
            assert(after[i] == entries[from]);
            assert(names(entries)[from] == entries[from].0@);
            lemma_text_order(entries[from].0@, entry.0@);
        }
    }
    lemma_contents_same(after, expected);
}

proof fn lemma_contents_remove<T>(entries: Seq<(String, T)>, index: int)
    requires
        ascending(names(entries)),
        0 <= index < entries.len(),
    ensures
        ascending(names(entries.remove(index))),
        contents(entries.remove(index)) == contents(entries).remove(entries[index].0@),
{
    let after = entries.remove(index);
    assert(names(after) =~= names(entries).remove(index));
    let expected = contents(entries).remove(entries[index].0@);
    assert forall|name: Seq<char>| #[trigger] expected.dom().contains(name) implies names(after).contains(name) by {
        let at = choose|i: int| 0 <= i < names(entries).len() && names(entries)[i] == name;
        if at < index {
            assert(names(after)[at] == name);
        } else {
            assert(names(entries)[index] == entries[index].0@);
            assert(names(after)[at - 1] == name);
        }
    }
    assert forall|i: int| 0 <= i < after.len() implies expected.dom().contains(#[trigger] after[i].0@)
        && expected[after[i].0@] == after[i].1 by {
        let from = if i < index {
            i
        } else {
            i + 1
        };
        lemma_contents_entry(entries, from);
        assert(after[i] == entries[from]);
        assert(names(entries)[from] == entries[from].0@);
        assert(names(entries)[index] == entries[index].0@);
        lemma_text_order(entries[from].0@, entries[index].0@);
    }
    lemma_contents_same(after, expected);
}

/// There is one ascending list of the same names.
pub proof fn lemma_ascending_once(first: Seq<Seq<char>>, second: Seq<Seq<char>>)
    requires
        ascending(first),
        ascending(second),
        forall|name: Seq<char>| #[trigger] first.contains(name) <==> second.contains(name),
    ensures
        first == second,
    decreases first.len(),
{
    if first.len() == 0 {
        if second.len() > 0 {
            assert(second.contains(second[0]));
            assert(first.contains(second[0]));
        }
        assert(first =~= second);
    } else {
        let one = first.last();
        assert(first.contains(one));
        assert(second.contains(one));
        let other = second.last();
        assert(second.contains(other));
        assert(first.contains(other));
        let i = choose|i: int| 0 <= i < second.len() && second[i] == one;
        let j = choose|j: int| 0 <= j < first.len() && first[j] == other;
        lemma_text_order(one, other);
        assert(one == other);
        assert forall|name: Seq<char>| #[trigger] first.drop_last().contains(name) <==> second.drop_last().contains(
            name,
        ) by {
            lemma_text_order(one, one);
            if first.drop_last().contains(name) {
                let k = choose|k: int| 0 <= k < first.drop_last().len() && first.drop_last()[k] == name;
                assert(first[k] == name);
                assert(text_before(first[k], first[first.len() - 1]));
                assert(first.contains(name));
                assert(second.contains(name));
                let m = choose|m: int| 0 <= m < second.len() && second[m] == name;
                assert(m != second.len() - 1);
                assert(second.drop_last()[m] == name);
            }
            if second.drop_last().contains(name) {
                let k = choose|k: int| 0 <= k < second.drop_last().len() && second.drop_last()[k] == name;
                assert(second[k] == name);
                assert(text_before(second[k], second[second.len() - 1]));
                assert(second.contains(name));
                assert(first.contains(name));
                let m = choose|m: int| 0 <= m < first.len() && first[m] == name;
                assert(m != first.len() - 1);
                assert(first.drop_last()[m] == name);
            }
        }
        lemma_ascending_once(first.drop_last(), second.drop_last());
        assert(first =~= first.drop_last().push(one));
        assert(second =~= second.drop_last().push(other));
    }
}

} // verus!
