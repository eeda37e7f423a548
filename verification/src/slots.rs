//! Tables that find their entries by name.
use vstd::prelude::*;

verus! {

#[verifier::external_type_specification]
#[verifier::external_body]
#[verifier::reject_recursive_types(K)]
#[verifier::reject_recursive_types(V)]
#[verifier::reject_recursive_types(S)]
pub struct ExDashMap<K, V, S>(dashmap::DashMap<K, V, S>);

/// The numbers that a map holds by their names.
pub uninterp spec fn slots(map: dashmap::DashMap<String, usize>) -> Map<Seq<char>, usize>;

/// `DashMap::new`: nothing is held.
#[verifier::external_body]
pub(crate) fn no_slots() -> (r: dashmap::DashMap<String, usize>)
    ensures
        slots(r).dom() == Set::<Seq<char>>::empty(),
{
    dashmap::DashMap::new()
}

/// `DashMap::insert`: the name has that number, every other name what it had.
#[verifier::external_body]
pub(crate) fn put_slot(map: &mut dashmap::DashMap<String, usize>, name: &str, slot: usize)
    ensures
        slots(*final(map)) == slots(*old(map)).insert(name@, slot),
{
    map.insert(name.to_string(), slot);
}

/// `DashMap::get`: the number of a name.
#[verifier::external_body]
pub(crate) fn find_slot(map: &dashmap::DashMap<String, usize>, name: &str) -> (r: Option<usize>)
    ensures
        r is Some == slots(*map).contains_key(name@),
        r is Some ==> r->0 == slots(*map)[name@],
{
    map.get(name).map(|entry| *entry.value())
}

/// `DashMap::len`: how many names there are.
#[verifier::external_body]
pub(crate) fn count_slots(map: &dashmap::DashMap<String, usize>) -> (r: usize)
    ensures
        r == slots(*map).dom().len(),
{
    map.len()
}

/// The values that a list of entries holds by their names.
pub open spec fn held<V>(entries: Seq<(String, V)>) -> Map<Seq<char>, V>
    decreases entries.len(),
{
    if entries.len() == 0 {
        Map::empty()
    } else {
        held(entries.drop_last()).insert(entries.last().0@, entries.last().1)
    }
}

/// Whether no name stands twice.
pub open spec fn distinct<V>(entries: Seq<(String, V)>) -> bool {
    forall|i: int, j: int|
        0 <= i < j < entries.len() ==> (#[trigger] entries[i]).0@ != (#[trigger] entries[j]).0@
}

/// An entry is found by its name.
pub proof fn held_at<V>(entries: Seq<(String, V)>, i: int)
    requires
        distinct(entries),
        0 <= i < entries.len(),
    ensures
        held(entries).contains_key(entries[i].0@),
        held(entries)[entries[i].0@] == entries[i].1,
    decreases entries.len(),
{
    let front = entries.drop_last();
    if i < front.len() {
        assert(distinct(front)) by {
            assert forall|a: int, b: int| 0 <= a < b < front.len() implies (#[trigger] front[a]).0@
                != (#[trigger] front[b]).0@ by {
                assert(front[a] == entries[a] && front[b] == entries[b]);
            }
        }
        held_at(front, i);
        assert(front[i] == entries[i]);
    }
}

/// A name that no entry has is not found.
pub proof fn held_nowhere_else<V>(entries: Seq<(String, V)>, name: Seq<char>)
    requires
        forall|i: int| 0 <= i < entries.len() ==> (#[trigger] entries[i]).0@ != name,
    ensures
        !held(entries).contains_key(name),
    decreases entries.len(),
{
    if entries.len() > 0 {
        let front = entries.drop_last();
        assert forall|i: int| 0 <= i < front.len() implies (#[trigger] front[i]).0@ != name by {
            assert(front[i] == entries[i]);
        }
        held_nowhere_else(front, name);
        assert(entries.last() == entries[entries.len() - 1]);
    }
}

/// Values that are found by their names.
#[derive(Debug)]
pub struct SlotTable<V> {
    index: dashmap::DashMap<String, usize>,
    entries: Vec<(String, V)>,
}

impl<V> View for SlotTable<V> {
    type V = Map<Seq<char>, V>;

    closed spec fn view(&self) -> Map<Seq<char>, V> {
        Map::new(
            |name: Seq<char>| slots(self.index).contains_key(name),
            |name: Seq<char>| self.entries@[slots(self.index)[name] as int].1,
        )
    }
}

impl<V> SlotTable<V> {
    #[verifier::type_invariant]
    spec fn well_formed(self) -> bool {
        &&& slots(self.index).dom().finite()
        &&& forall|name: Seq<char>| #[trigger]
            slots(self.index).contains_key(name) ==> slots(self.index)[name] < self.entries@.len()
                && self.entries@[slots(self.index)[name] as int].0@ == name
        &&& forall|i: int|
            0 <= i < self.entries@.len() ==> slots(self.index).contains_key(
                (#[trigger] self.entries@[i]).0@,
            ) && slots(self.index)[self.entries@[i].0@] == i
    }

    proof fn entries_are_held(self)
        requires
            self.well_formed(),
        ensures
            distinct(self.entries@),
            held(self.entries@) == self@,
    {
        assert forall|i: int, j: int| 0 <= i < j < self.entries@.len() implies (
        #[trigger] self.entries@[i]).0@ != (#[trigger] self.entries@[j]).0@ by {
            assert(slots(self.index)[self.entries@[i].0@] == i);
            assert(slots(self.index)[self.entries@[j].0@] == j);
        }
        let list = held(self.entries@);
        assert forall|name: Seq<char>|
            #![trigger list.dom().contains(name)]
            #![trigger self@.dom().contains(name)]
            #![trigger list[name]]
            list.dom().contains(name) == self@.dom().contains(name) && (self@.dom().contains(name)
                ==> list[name] == self@[name]) by {
            if slots(self.index).contains_key(name) {
                held_at(self.entries@, slots(self.index)[name] as int);
            } else {
                held_nowhere_else(self.entries@, name);
            }
        }
        assert(list =~= self@);
    }

    /// A table with nothing in it.
    pub fn new() -> (r: SlotTable<V>)
        ensures
            r@ == Map::<Seq<char>, V>::empty(),
    {
        let r = SlotTable { index: no_slots(), entries: Vec::new() };
        assert(r@ =~= Map::<Seq<char>, V>::empty());
        r
    }

    /// The value of a name.
    pub fn get(&self, name: &str) -> (r: Option<&V>)
        ensures
            r is Some == self@.contains_key(name@),
            r matches Some(v) ==> *v == self@[name@],
    {
        proof {
            use_type_invariant(self);
        }
        match find_slot(&self.index, name) {
            Some(i) => Some(&self.entries[i].1),
            None => None,
        }
    }

    /// How many names have a value.
    pub fn len(&self) -> (r: usize)
        ensures
            r == self@.dom().len(),
            self@.dom().finite(),
    {
        proof {
            use_type_invariant(self);
        }
        assert(self@.dom() =~= slots(self.index).dom());
        count_slots(&self.index)
    }

    /// The table with one value set.
    pub fn with(self, name: &str, value: V) -> (r: SlotTable<V>)
        ensures
            r@ == self@.insert(name@, value),
    {
        proof {
            use_type_invariant(&self);
        }
        let mut index = self.index;
        let mut entries = self.entries;
        let ghost before = self@;
        let ghost held_before = entries@;
        let entry = (name.to_owned(), value);
        match find_slot(&index, name) {
            Some(i) => {
                entries.set(i, entry);
                assert forall|j: int| 0 <= j < entries@.len() implies slots(index).contains_key(
                    (#[trigger] entries@[j]).0@,
                ) && slots(index)[entries@[j].0@] == j by {
                    assert(held_before[j].0@ == entries@[j].0@);
                }
            },
            None => {
                let end: usize = entries.len();
                entries.push(entry);
                put_slot(&mut index, name, end);
                assert forall|j: int| 0 <= j < entries@.len() implies slots(index).contains_key(
                    (#[trigger] entries@[j]).0@,
                ) && slots(index)[entries@[j].0@] == j by {
                    if j < end {
                        assert(held_before[j] == entries@[j]);
                        assert(slots(self.index).contains_key(held_before[j].0@));
                    }
                }
            },
        }
        let r = SlotTable { index, entries };
        assert(r@ =~= before.insert(name@, value));
        r
    }

    /// The names and values, each name once.
    pub fn entries(&self) -> (r: &Vec<(String, V)>)
        ensures
            distinct(r@),
            held(r@) == self@,
    {
        proof {
            use_type_invariant(self);
            self.entries_are_held();
        }
        &self.entries
    }

    /// The names and values, each name once.
    pub fn into_entries(self) -> (r: Vec<(String, V)>)
        ensures
            distinct(r@),
            held(r@) == self@,
    {
        proof {
            use_type_invariant(&self);
            self.entries_are_held();
        }
        self.entries
    }
}

impl<V: Clone> Clone for SlotTable<V> {
    /// A table of its own with the same names and clones of their values.
    fn clone(&self) -> (r: Self)
        ensures
            r@.dom() == self@.dom(),
            forall|name: Seq<char>| #[trigger]
                self@.contains_key(name) ==> cloned(self@[name], r@[name]),
    {
        proof {
            use_type_invariant(self);
            self.entries_are_held();
        }
        let mut r: SlotTable<V> = SlotTable::new();
        let mut i: usize = 0;
        assert(held(self.entries@.take(0)) =~= Map::empty());
        while i < self.entries.len()
            invariant
                i <= self.entries.len(),
                r@.dom() == held(self.entries@.take(i as int)).dom(),
                forall|name: Seq<char>| #[trigger]
                    held(self.entries@.take(i as int)).contains_key(name) ==> cloned(
                        held(self.entries@.take(i as int))[name],
                        r@[name],
                    ),
            decreases self.entries.len() - i,
        {
            let ghost front = self.entries@.take(i as int);
            proof {
                let next = self.entries@.take(i + 1);
                assert(next.drop_last() =~= front);
                assert(next.last() == self.entries@[i as int]);
            }
            let value = self.entries[i].1.clone();
            r = r.with(self.entries[i].0.as_str(), value);
            assert(r@.dom() =~= held(self.entries@.take(i + 1)).dom());
            i += 1;
        }
        assert(self.entries@.take(i as int) =~= self.entries@);
        r
    }
}

} // verus!
