//! Tables in key order: the index of the remote records and sets of keys.

use crate::records::{record_views, LocalFileEntry, RemoteFileRecord, RemoteRecordView};
use crate::text::{
    compare_keys, key_before, lemma_key_before_asymmetric, lemma_key_before_irreflexive,
    lemma_key_before_transitive, KeyOrder,
};
use vstd::prelude::*;

verus! {

/// Something that is stored and found under a key.
pub trait Keyed {
    /// The key as a sequence of characters.
    spec fn key_view(&self) -> Seq<char>;

    /// The key.
    fn key(&self) -> (k: &str)
        ensures
            k@ == self.key_view(),
    ;
}

impl Keyed for RemoteFileRecord {
    open spec fn key_view(&self) -> Seq<char> {
        self.key@
    }

    fn key(&self) -> (k: &str) {
        self.key.as_str()
    }
}

impl Keyed for LocalFileEntry {
    open spec fn key_view(&self) -> Seq<char> {
        self.key@
    }

    fn key(&self) -> (k: &str) {
        self.key.as_str()
    }
}

impl Keyed for String {
    open spec fn key_view(&self) -> Seq<char> {
        self@
    }

    fn key(&self) -> (k: &str) {
        self.as_str()
    }
}

/// Each item's key comes strictly before the keys of all items after it.
pub open spec fn ascending<T: Keyed>(items: Seq<T>) -> bool {
    forall|i: int, j: int|
        #![trigger items[i], items[j]]
        0 <= i < j < items.len() ==> key_before(items[i].key_view(), items[j].key_view())
}

/// Some item is stored under `key`.
pub open spec fn holds_key<T: Keyed>(items: Seq<T>, key: Seq<char>) -> bool {
    exists|i: int| 0 <= i < items.len() && (#[trigger] items[i]).key_view() == key
}

/// No item before position `i` has the key of the item at `i`.
pub open spec fn first_with_its_key<T: Keyed>(items: Seq<T>, i: int) -> bool {
    forall|j: int| 0 <= j < i ==> (#[trigger] items[j]).key_view() != items[i].key_view()
}

/// The position of the earliest item that has the key of the item at `i`.
pub open spec fn earliest_with_key<T: Keyed>(items: Seq<T>, i: int) -> int
    decreases i,
{
    if i <= 0 || first_with_its_key(items, i) {
        i
    } else {
        earliest_with_key(
            items,
            choose|j: int| 0 <= j < i && (#[trigger] items[j]).key_view() == items[i].key_view(),
        )
    }
}

/// The earliest item with a given key is the first with its key and lies at
/// or before every other item with that key.
pub proof fn lemma_earliest_with_key<T: Keyed>(items: Seq<T>, i: int)
    requires
        0 <= i < items.len(),
    ensures
        0 <= earliest_with_key(items, i) <= i,
        items[earliest_with_key(items, i)].key_view() == items[i].key_view(),
        first_with_its_key(items, earliest_with_key(items, i)),
    decreases i,
{
    if i <= 0 || first_with_its_key(items, i) {
    } else {
        let j = choose|j: int|
            0 <= j < i && (#[trigger] items[j]).key_view() == items[i].key_view();
        lemma_earliest_with_key(items, j);
    }
}

/// Items kept in ascending key order, one per key, so that a key is found by
/// binary search.
pub struct SortedTable<T: Keyed> {
    items: Vec<T>,
}

impl<T: Keyed> View for SortedTable<T> {
    type V = Seq<T>;

    closed spec fn view(&self) -> Seq<T> {
        self.items@
    }
}

impl<T: Keyed> SortedTable<T> {
    /// The table's invariant: its items are in ascending key order.
    #[verifier::type_invariant]
    pub open spec fn wf(&self) -> bool {
        ascending(self@)
    }

    /// A table without items.
    pub fn new() -> (table: Self)
        ensures
            table@ == Seq::<T>::empty(),
    {
        SortedTable { items: Vec::new() }
    }

    /// The number of items.
    pub fn len(&self) -> (n: usize)
        ensures
            n == self@.len(),
    {
        self.items.len()
    }

    /// The item at position `i` of the key order.
    pub fn get(&self, i: usize) -> (item: &T)
        requires
            i < self@.len(),
        ensures
            *item == self@[i as int],
    {
        &self.items[i]
    }

    /// Where `key` is, or where it would have to go: `Ok(i)` when the item at
    /// `i` is stored under `key`, else `Err(p)` with every item before `p`
    /// under a smaller key and every item from `p` on under a greater one.
    pub fn locate(&self, key: &str) -> (place: Result<usize, usize>)
        ensures
            match place {
                Ok(i) => i < self@.len() && self@[i as int].key_view() == key@,
                Err(p) => {
                    &&& p <= self@.len()
                    &&& !holds_key(self@, key@)
                    &&& forall|j: int|
                        0 <= j < p ==> key_before((#[trigger] self@[j]).key_view(), key@)
                    &&& forall|j: int|
                        p <= j < self@.len() ==> key_before(
                            key@,
                            (#[trigger] self@[j]).key_view(),
                        )
                },
            },
    {
        proof {
            use_type_invariant(self);
        }
        let mut lo: usize = 0;
        let mut hi: usize = self.items.len();
        while lo < hi
            invariant
                self.wf(),
                lo <= hi <= self.items.len(),
                forall|j: int| 0 <= j < lo ==> key_before((#[trigger] self@[j]).key_view(), key@),
                forall|j: int|
                    hi <= j < self@.len() ==> key_before(key@, (#[trigger] self@[j]).key_view()),
            decreases hi - lo,
        {
            let mid = lo + (hi - lo) / 2;
            match compare_keys(self.items[mid].key(), key) {
                KeyOrder::Same => {
                    return Ok(mid);
                },
                KeyOrder::Before => {
                    proof {
                        assert forall|j: int| 0 <= j < mid + 1 implies key_before(
                            (#[trigger] self@[j]).key_view(),
                            key@,
                        ) by {
                            if j < mid {
                                assert(key_before(
                                    self@[j].key_view(),
                                    self@[mid as int].key_view(),
                                ));
                                lemma_key_before_transitive(
                                    self@[j].key_view(),
                                    self@[mid as int].key_view(),
                                    key@,
                                );
                            }
                        }
                    }
                    lo = mid + 1;
                },
                KeyOrder::After => {
                    proof {
                        assert forall|j: int| mid <= j < self@.len() implies key_before(
                            key@,
                            (#[trigger] self@[j]).key_view(),
                        ) by {
                            if mid < j {
                                assert(key_before(
                                    self@[mid as int].key_view(),
                                    self@[j].key_view(),
                                ));
                                lemma_key_before_transitive(
                                    key@,
                                    self@[mid as int].key_view(),
                                    self@[j].key_view(),
                                );
                            }
                        }
                    }
                    hi = mid;
                },
            }
        }
        proof {
            assert forall|j: int| 0 <= j < self@.len() implies (#[trigger] self@[j]).key_view()
                != key@ by {
                if j < lo {
                    lemma_key_before_asymmetric(self@[j].key_view(), key@);
                } else {
                    lemma_key_before_asymmetric(key@, self@[j].key_view());
                }
            }
        }
        Err(lo)
    }

    /// The item stored under `key`, if there is one.
    pub fn find(&self, key: &str) -> (found: Option<&T>)
        ensures
            match found {
                Some(item) => self@.contains(*item) && item.key_view() == key@,
                None => !holds_key(self@, key@),
            },
    {
        match self.locate(key) {
            Ok(i) => Some(&self.items[i]),
            Err(_) => None,
        }
    }

    /// Whether some item is stored under `key`.
    pub fn contains_key(&self, key: &str) -> (present: bool)
        ensures
            present == holds_key(self@, key@),
    {
        self.locate(key).is_ok()
    }

    /// The table of `items`: of several items under one key it keeps the one
    /// that comes first in `items`.
    pub fn from_items(items: Vec<T>) -> (table: Self)
        ensures
            ascending(table@),
            table@.len() <= items@.len(),
            forall|x: T|
                table@.contains(x) <==> exists|j: int|
                    0 <= j < items@.len() && #[trigger] items@[j] == x && first_with_its_key(
                        items@,
                        j,
                    ),
    {
        let mut table = SortedTable::new();
        let ghost all = items@;
        for item in it: items
            invariant
                it.seq() == all,
                table@.len() <= it.index(),
                forall|x: T|
                    table@.contains(x) <==> exists|j: int|
                        0 <= j < it.index() && #[trigger] all[j] == x && first_with_its_key(all, j),
        {
            let ghost i = it.index();
            let ghost before = table@;
            let added = table.insert(item);
            proof {
                assert(all[i] == item);
                assert(holds_key(before, item.key_view()) <==> !first_with_its_key(all, i)) by {
                    if holds_key(before, item.key_view()) {
                        let k = choose|k: int|
                            0 <= k < before.len() && (#[trigger] before[k]).key_view()
                                == item.key_view();
                        assert(before.contains(before[k]));
                    } else if !first_with_its_key(all, i) {
                        // The earliest item under this key was kept.
                        let j0 = choose|j: int|
                            0 <= j < i && (#[trigger] all[j]).key_view() == all[i].key_view();
                        lemma_earliest_with_key(all, j0);
                        let j1 = earliest_with_key(all, j0);
                        assert(before.contains(all[j1]));
                    }
                }
                assert forall|x: T| table@.contains(x) <==> exists|j: int|
                    0 <= j < i + 1 && #[trigger] all[j] == x && first_with_its_key(all, j) by {
                    if added {
                        let p = choose|p: int|
                            0 <= p <= before.len() && table@ == #[trigger] before.insert(p, item);
                        if table@.contains(x) {
                            let k = choose|k: int| 0 <= k < table@.len() && table@[k] == x;
                            if k < p {
                                assert(before.contains(before[k]));
                            } else if k > p {
                                assert(before.contains(before[k - 1]));
                            } else {
                                assert(all[i] == x);
                            }
                        }
                        if exists|j: int|
                            0 <= j < i + 1 && #[trigger] all[j] == x && first_with_its_key(
                                all,
                                j,
                            ) {
                            let j = choose|j: int|
                                0 <= j < i + 1 && #[trigger] all[j] == x && first_with_its_key(
                                    all,
                                    j,
                                );
                            if j < i {
                                assert(before.contains(x));
                                let k = choose|k: int| 0 <= k < before.len() && before[k] == x;
                                if k < p {
                                    assert(table@[k] == x);
                                } else {
                                    assert(table@[k + 1] == x);
                                }
                            } else {
                                assert(table@[p] == x);
                            }
                        }
                    }
                }
            }
        }
        proof {
            use_type_invariant(&table);
        }
        table
    }

    /// Adds `item` unless an item is already stored under its key; says
    /// whether it was added.
    pub fn insert(&mut self, item: T) -> (added: bool)
        ensures
            ascending(final(self)@),
            added == !holds_key(old(self)@, item.key_view()),
            added ==> exists|p: int|
                0 <= p <= old(self)@.len() && final(self)@ == #[trigger] old(self)@.insert(p, item),
            !added ==> final(self)@ == old(self)@,
    {
        proof {
            use_type_invariant(&*self);
        }
        match self.locate(item.key()) {
            Ok(_) => false,
            Err(p) => {
                let ghost before = self@;
                // The items leave the table while the new one is put in
                // place, so that the table itself is never out of order.
                let mut items: Vec<T> = Vec::new();
                std::mem::swap(&mut self.items, &mut items);
                items.insert(p, item);
                proof {
                    let after = items@;
                    assert(after == before.insert(p as int, item));
                    assert forall|i: int, j: int|
                        #![trigger after[i], after[j]]
                        0 <= i < j < after.len() implies key_before(
                        after[i].key_view(),
                        after[j].key_view(),
                    ) by {
                        if j < p {
                            assert(after[i] == before[i] && after[j] == before[j]);
                        } else if j == p {
                            assert(after[i] == before[i]);
                        } else if i < p {
                            assert(after[i] == before[i] && after[j] == before[j - 1]);
                            lemma_key_before_transitive(
                                before[i].key_view(),
                                item.key_view(),
                                before[j - 1].key_view(),
                            );
                        } else if i == p {
                            assert(after[j] == before[j - 1]);
                        } else {
                            assert(after[i] == before[i - 1] && after[j] == before[j - 1]);
                        }
                    }
                }
                std::mem::swap(&mut self.items, &mut items);
                true
            },
        }
    }
}

/// The records are in ascending key order, so no two share a key.
pub open spec fn records_ascending(records: Seq<RemoteRecordView>) -> bool {
    forall|i: int, j: int|
        #![trigger records[i], records[j]]
        0 <= i < j < records.len() ==> key_before(records[i].key, records[j].key)
}

/// Some record is stored under `key`.
pub open spec fn has_record(records: Seq<RemoteRecordView>, key: Seq<char>) -> bool {
    exists|i: int| 0 <= i < records.len() && (#[trigger] records[i]).key == key
}

/// No record before position `i` has the key of the record at `i`.
pub open spec fn first_record_with_its_key(records: Seq<RemoteRecordView>, i: int) -> bool {
    forall|j: int| 0 <= j < i ==> (#[trigger] records[j]).key != records[i].key
}

/// In ascending records a key is found at one position only.
pub proof fn lemma_record_keys_distinct(records: Seq<RemoteRecordView>, i: int, j: int)
    requires
        records_ascending(records),
        0 <= i < records.len(),
        0 <= j < records.len(),
        records[i].key == records[j].key,
    ensures
        i == j,
{
    if i < j {
        assert(key_before(records[i].key, records[j].key));
        lemma_key_before_irreflexive(records[i].key);
    } else if j < i {
        assert(key_before(records[j].key, records[i].key));
        lemma_key_before_irreflexive(records[i].key);
    }
}

/// Records whose items are in ascending key order are so as views.
proof fn lemma_views_ascending(items: Seq<RemoteFileRecord>)
    requires
        ascending(items),
    ensures
        records_ascending(record_views(items)),
{
    let views = record_views(items);
    assert forall|i: int, j: int|
        #![trigger views[i], views[j]]
        0 <= i < j < views.len() implies key_before(views[i].key, views[j].key) by {
        assert(key_before(items[i].key_view(), items[j].key_view()));
    }
}

/// The snapshot of the remote store that one session works against: its
/// records in ascending key order, one per key, found by key in logarithmic
/// time. It does not change once it is built.
pub struct RemoteIndex {
    table: SortedTable<RemoteFileRecord>,
}

impl View for RemoteIndex {
    type V = Seq<RemoteRecordView>;

    closed spec fn view(&self) -> Seq<RemoteRecordView> {
        record_views(self.table@)
    }
}

impl RemoteIndex {
    /// The index's invariant: ascending key order.
    #[verifier::type_invariant]
    pub open spec fn wf(&self) -> bool {
        records_ascending(self@)
    }

    /// The index of `records`. Where several records share a key, the one
    /// that comes first in `records` is kept.
    pub fn build(records: Vec<RemoteFileRecord>) -> (index: Self)
        ensures
            records_ascending(index@),
            index@.len() <= records@.len(),
            forall|v: RemoteRecordView|
                index@.contains(v) <==> exists|j: int|
                    0 <= j < records@.len() && #[trigger] record_views(records@)[j] == v
                        && first_record_with_its_key(record_views(records@), j),
    {
        let ghost items = records@;
        let ghost views = record_views(records@);
        let table = SortedTable::from_items(records);
        proof {
            use_type_invariant(&table);
            lemma_views_ascending(table@);
        }
        let index = RemoteIndex { table };
        proof {
            let table = index.table@;
            assert forall|j: int| 0 <= j < items.len() implies (first_with_its_key(items, j)
                <==> first_record_with_its_key(views, j)) by {
                if first_with_its_key(items, j) {
                    assert forall|k: int| 0 <= k < j implies (#[trigger] views[k]).key
                        != views[j].key by {
                        assert(items[k].key_view() != items[j].key_view());
                    }
                }
                if first_record_with_its_key(views, j) {
                    assert forall|k: int| 0 <= k < j implies (#[trigger] items[k]).key_view()
                        != items[j].key_view() by {
                        assert(views[k].key != views[j].key);
                    }
                }
            }
            assert forall|v: RemoteRecordView| index@.contains(v) <==> exists|j: int|
                0 <= j < items.len() && #[trigger] views[j] == v && first_record_with_its_key(
                    views,
                    j,
                ) by {
                if index@.contains(v) {
                    let k = choose|k: int| 0 <= k < index@.len() && index@[k] == v;
                    assert(table.contains(table[k]));
                    let j = choose|j: int|
                        0 <= j < items.len() && #[trigger] items[j] == table[k]
                            && first_with_its_key(items, j);
                    assert(views[j] == v);
                }
                if exists|j: int|
                    0 <= j < items.len() && #[trigger] views[j] == v
                        && first_record_with_its_key(views, j) {
                    let j = choose|j: int|
                        0 <= j < items.len() && #[trigger] views[j] == v
                            && first_record_with_its_key(views, j);
                    assert(table.contains(items[j]));
                    let k = choose|k: int| 0 <= k < table.len() && table[k] == items[j];
                    assert(index@[k] == v);
                }
            }
        }
        index
    }

    /// The number of records.
    pub fn len(&self) -> (n: usize)
        ensures
            n == self@.len(),
    {
        self.table.len()
    }

    /// The record at position `i` of the key order.
    pub fn record_at(&self, i: usize) -> (record: &RemoteFileRecord)
        requires
            i < self@.len(),
        ensures
            record@ == self@[i as int],
    {
        self.table.get(i)
    }

    /// The record stored under `key`, if there is one.
    pub fn lookup(&self, key: &str) -> (found: Option<&RemoteFileRecord>)
        ensures
            match found {
                Some(record) => self@.contains(record@) && record@.key == key@,
                None => !has_record(self@, key@),
            },
    {
        let found = self.table.find(key);
        proof {
            let items = self.table@;
            match found {
                Some(record) => {
                    let k = choose|k: int| 0 <= k < items.len() && items[k] == *record;
                    assert(self@[k] == record@);
                },
                None => {
                    if has_record(self@, key@) {
                        let k = choose|k: int|
                            0 <= k < self@.len() && (#[trigger] self@[k]).key == key@;
                        assert(items[k].key_view() == key@);
                    }
                },
            }
        }
        found
    }
}

/// A set of keys, searched in logarithmic time.
pub struct KeySet {
    table: SortedTable<String>,
}

impl View for KeySet {
    type V = Set<Seq<char>>;

    closed spec fn view(&self) -> Set<Seq<char>> {
        Set::new(|key: Seq<char>| holds_key(self.table@, key))
    }
}

impl KeySet {
    /// The empty set.
    pub fn new() -> (set: Self)
        ensures
            set@ == Set::<Seq<char>>::empty(),
    {
        let set = KeySet { table: SortedTable::new() };
        assert(set@ =~= Set::<Seq<char>>::empty());
        set
    }

    /// Whether `key` is in the set.
    pub fn contains(&self, key: &str) -> (present: bool)
        ensures
            present == self@.contains(key@),
    {
        self.table.contains_key(key)
    }

    /// Puts `key` into the set; says whether it was new.
    pub fn insert(&mut self, key: String) -> (added: bool)
        ensures
            final(self)@ == old(self)@.insert(key@),
            added == !old(self)@.contains(key@),
    {
        let ghost before = self.table@;
        let added = self.table.insert(key);
        proof {
            let after = self.table@;
            assert forall|k: Seq<char>| holds_key(after, k) <==> (k == key@ || holds_key(
                before,
                k,
            )) by {
                if added {
                    let p = choose|p: int|
                        0 <= p <= before.len() && after == #[trigger] before.insert(p, key);
                    if holds_key(after, k) {
                        let i = choose|i: int|
                            0 <= i < after.len() && (#[trigger] after[i]).key_view() == k;
                        if i < p {
                            assert(before[i].key_view() == k);
                        } else if i > p {
                            assert(before[i - 1].key_view() == k);
                        }
                    }
                    if holds_key(before, k) {
                        let i = choose|i: int|
                            0 <= i < before.len() && (#[trigger] before[i]).key_view() == k;
                        if i < p {
                            assert(after[i].key_view() == k);
                        } else {
                            assert(after[i + 1].key_view() == k);
                        }
                    }
                    if k == key@ {
                        assert(after[p].key_view() == k);
                    }
                }
            }
            assert(self@ =~= old(self)@.insert(key@));
        }
        added
    }

    /// The set of the given keys.
    pub fn from_keys(keys: Vec<String>) -> (set: Self)
        ensures
            forall|key: Seq<char>|
                set@.contains(key) <==> exists|j: int|
                    0 <= j < keys@.len() && (#[trigger] keys@[j])@ == key,
    {
        let mut set = KeySet::new();
        let ghost all = keys@;
        for key in it: keys
            invariant
                it.seq() == all,
                forall|k: Seq<char>|
                    set@.contains(k) <==> exists|j: int|
                        0 <= j < it.index() && (#[trigger] all[j])@ == k,
        {
            let ghost i = it.index();
            assert(all[i] == key);
            set.insert(key);
        }
        set
    }
}

} // verus!
