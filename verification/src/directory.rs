//! Directories: the names in them, and the inodes that the names stand for.

use crate::mode::FileKind;
use vstd::prelude::*;

verus! {

/// What a name in a directory stands for.
#[derive(Debug, PartialEq, Eq)]
pub struct DirectoryEntry {
    pub name: String,
    pub inode: u64,
    pub kind: FileKind,
}

/// An entry of a directory as mathematical values.
#[verifier::ext_equal]
pub struct Entry {
    pub name: Seq<char>,
    pub inode: u64,
    pub kind: FileKind,
}

impl View for DirectoryEntry {
    type V = Entry;

    open spec fn view(&self) -> Entry {
        Entry { name: self.name@, inode: self.inode, kind: self.kind }
    }
}

/// The order of names: by the first character that differs, and a name before those that it
/// begins.
pub open spec fn name_less(a: Seq<char>, b: Seq<char>) -> bool
    decreases a.len(),
{
    if b.len() == 0 {
        false
    } else if a.len() == 0 {
        true
    } else if a[0] != b[0] {
        (a[0] as u32) < (b[0] as u32)
    } else {
        name_less(a.skip(1), b.skip(1))
    }
}

/// The entries come in the order of their names, and no name comes twice.
pub open spec fn is_sorted(entries: Seq<Entry>) -> bool {
    forall|i: int, j: int|
        0 <= i < j < entries.len() ==> name_less(
            (#[trigger] entries[i]).name,
            (#[trigger] entries[j]).name,
        )
}

/// What a name stands for in a list of entries, if it is there.
pub open spec fn entry_for(entries: Seq<Entry>, name: Seq<char>) -> Option<(u64, FileKind)> {
    if exists|i: int| 0 <= i < entries.len() && (#[trigger] entries[i]).name == name {
        let i = choose|i: int| 0 <= i < entries.len() && (#[trigger] entries[i]).name == name;
        Some((entries[i].inode, entries[i].kind))
    } else {
        None
    }
}

/// No name comes before itself.
pub proof fn lemma_name_less_irreflexive(a: Seq<char>)
    ensures
        !name_less(a, a),
    decreases a.len(),
{
    if a.len() > 0 {
        lemma_name_less_irreflexive(a.skip(1));
    }
}

/// The order of names is transitive.
pub proof fn lemma_name_less_transitive(a: Seq<char>, b: Seq<char>, c: Seq<char>)
    requires
        name_less(a, b),
        name_less(b, c),
    ensures
        name_less(a, c),
    decreases a.len(),
{
    if a.len() > 0 && b.len() > 0 && c.len() > 0 && a[0] == b[0] && b[0] == c[0] {
        lemma_name_less_transitive(a.skip(1), b.skip(1), c.skip(1));
    }
}

/// An entry is what its name stands for, in a sorted list.
pub proof fn lemma_entry_at(entries: Seq<Entry>, i: int)
    requires
        is_sorted(entries),
        0 <= i < entries.len(),
    ensures
        entry_for(entries, entries[i].name) == Some((entries[i].inode, entries[i].kind)),
{
    let name = entries[i].name;
    let j = choose|j: int| 0 <= j < entries.len() && (#[trigger] entries[j]).name == name;
    lemma_name_less_irreflexive(name);
    assert(i == j);
}

/// A list of one entry is sorted, and has that entry alone.
pub proof fn lemma_single_entry(entry: Entry)
    ensures
        is_sorted(seq![entry]),
        forall|name: Seq<char>|
            #[trigger] entry_for(seq![entry], name) == (if name == entry.name {
                Some((entry.inode, entry.kind))
            } else {
                None
            }),
{
    let list = seq![entry];
    assert(list[0] == entry);
    lemma_entry_at(list, 0);
}

/// Two sorted lists in which every name stands for the same are the same list.
pub proof fn lemma_sorted_entries_determined(left: Seq<Entry>, right: Seq<Entry>)
    requires
        is_sorted(left),
        is_sorted(right),
        forall|name: Seq<char>| #[trigger] entry_for(left, name) == entry_for(right, name),
    ensures
        left == right,
    decreases left.len(),
{
    if left.len() == 0 {
        if right.len() > 0 {
            lemma_entry_at(right, 0);
            assert(entry_for(left, right[0].name) is Some);
        }
        assert(left =~= right);
    } else {
        let n = left.len() as int;
        lemma_entry_at(left, n - 1);
        let j = lemma_entry_index(right, left[n - 1].name);
        lemma_entry_at(right, j);
        let m = right.len() as int;
        lemma_entry_at(right, m - 1);
        assert(entry_for(left, right[m - 1].name) is Some);
        let i = lemma_entry_index(left, right[m - 1].name);
        if j < m - 1 {
            assert(name_less(right[j].name, right[m - 1].name));
            if i < n - 1 {
                lemma_name_less_transitive(
                    left[n - 1].name,
                    right[m - 1].name,
                    left[n - 1].name,
                );
            }
            lemma_name_less_irreflexive(left[n - 1].name);
        }
        assert(left[n - 1] == right[m - 1]);
        let left1 = left.drop_last();
        let right1 = right.drop_last();
        assert forall|name: Seq<char>| #[trigger] entry_for(left1, name) == entry_for(
            right1,
            name,
        ) by {
            lemma_entry_drop_last(left, name);
            lemma_entry_drop_last(right, name);
            assert(entry_for(left, name) == entry_for(right, name));
        }
        lemma_sorted_drop_last(left);
        lemma_sorted_drop_last(right);
        lemma_sorted_entries_determined(left1, right1);
        assert(left =~= left1.push(left[n - 1]));
        assert(right =~= right1.push(right[m - 1]));
    }
}

proof fn lemma_sorted_drop_last(entries: Seq<Entry>)
    requires
        is_sorted(entries),
        entries.len() > 0,
    ensures
        is_sorted(entries.drop_last()),
{
    assert forall|i: int, j: int| 0 <= i < j < entries.drop_last().len() implies name_less(
        (#[trigger] entries.drop_last()[i]).name,
        (#[trigger] entries.drop_last()[j]).name,
    ) by {
        assert(entries.drop_last()[i] == entries[i]);
        assert(entries.drop_last()[j] == entries[j]);
    }
}

proof fn lemma_entry_index(entries: Seq<Entry>, name: Seq<char>) -> (i: int)
    requires
        entry_for(entries, name) is Some,
    ensures
        0 <= i < entries.len(),
        entries[i].name == name,
{
    choose|i: int| 0 <= i < entries.len() && (#[trigger] entries[i]).name == name
}

/// Without its last entry, a sorted list has every name but the last.
proof fn lemma_entry_drop_last(entries: Seq<Entry>, name: Seq<char>)
    requires
        is_sorted(entries),
        entries.len() > 0,
    ensures
        entry_for(entries.drop_last(), name) == (if name == entries.last().name {
            None
        } else {
            entry_for(entries, name)
        }),
{
    let front = entries.drop_last();
    lemma_sorted_drop_last(entries);
    if entry_for(front, name) is Some {
        let i = lemma_entry_index(front, name);
        assert(front[i] == entries[i]);
        lemma_entry_at(front, i);
        lemma_entry_at(entries, i);
        assert(name_less(entries[i].name, entries[entries.len() - 1].name));
        lemma_name_less_irreflexive(name);
    } else if name != entries.last().name && entry_for(entries, name) is Some {
        let i = lemma_entry_index(entries, name);
        assert(front[i] == entries[i]);
    }
}

/// Whether `a` comes before `b`, or is `b`, or comes after it.
#[derive(Clone, Copy, PartialEq, Eq, Structural)]
enum NameOrder {
    Before,
    Same,
    After,
}

fn name_order(a: &str, b: &str) -> (order: NameOrder)
    ensures
        match order {
            NameOrder::Before => name_less(a@, b@),
            NameOrder::Same => a@ == b@,
            NameOrder::After => name_less(b@, a@),
        },
{
    let a_len: usize = a.unicode_len();
    let b_len: usize = b.unicode_len();
    let mut i: usize = 0;
    assert(a@.skip(0) =~= a@);
    assert(b@.skip(0) =~= b@);
    while i < a_len && i < b_len
        invariant
            a_len == a@.len(),
            b_len == b@.len(),
            i <= a_len,
            i <= b_len,
            a@.take(i as int) == b@.take(i as int),
            name_less(a@, b@) == name_less(a@.skip(i as int), b@.skip(i as int)),
            name_less(b@, a@) == name_less(b@.skip(i as int), a@.skip(i as int)),
        decreases a_len - i,
    {
        let x: char = a.get_char(i);
        let y: char = b.get_char(i);
        proof {
            assert(a@.skip(i as int)[0] == x);
            assert(b@.skip(i as int)[0] == y);
            assert(a@.skip(i as int).skip(1) =~= a@.skip(i + 1));
            assert(b@.skip(i as int).skip(1) =~= b@.skip(i + 1));
        }
        if (x as u32) < (y as u32) {
            return NameOrder::Before;
        }
        if (y as u32) < (x as u32) {
            return NameOrder::After;
        }
        assert(a@.take(i + 1) =~= a@.take(i as int).push(x));
        assert(b@.take(i + 1) =~= b@.take(i as int).push(y));
        i += 1;
    }
    if i < b_len {
        NameOrder::Before
    } else if i < a_len {
        NameOrder::After
    } else {
        assert(a@ =~= a@.take(i as int));
        assert(b@ =~= b@.take(i as int));
        NameOrder::Same
    }
}

/// The entries of a directory, in the order of their names.
#[derive(Debug, PartialEq, Eq)]
pub struct DirectoryEntries {
    entries: Vec<DirectoryEntry>,
}

impl View for DirectoryEntries {
    type V = Seq<Entry>;

    closed spec fn view(&self) -> Seq<Entry> {
        Seq::new(self.entries@.len(), |i: int| self.entries@[i]@)
    }
}

impl DirectoryEntries {
    /// The entries are sorted.
    pub open spec fn wf(&self) -> bool {
        is_sorted(self@)
    }

    /// A directory without entries.
    pub fn new() -> (entries: DirectoryEntries)
        ensures
            entries.wf(),
            entries@ == Seq::<Entry>::empty(),
    {
        let entries = DirectoryEntries { entries: Vec::new() };
        assert(entries@ =~= Seq::<Entry>::empty());
        entries
    }

    /// The number of entries.
    pub fn len(&self) -> (len: usize)
        ensures
            len == self@.len(),
    {
        self.entries.len()
    }

    /// The entry at an index.
    pub fn entry(&self, index: usize) -> (entry: &DirectoryEntry)
        requires
            index < self@.len(),
        ensures
            entry@ == self@[index as int],
    {
        &self.entries[index]
    }

    /// Where a name is, or, if it is not there, where it belongs.
    fn position(&self, name: &str) -> (r: (usize, bool))
        requires
            self.wf(),
        ensures
            r.0 <= self@.len(),
            forall|i: int| 0 <= i < r.0 ==> name_less((#[trigger] self@[i]).name, name@),
            forall|i: int|
                r.0 <= i < self@.len() && !(r.1 && i == r.0) ==> name_less(
                    name@,
                    (#[trigger] self@[i]).name,
                ),
            r.1 ==> r.0 < self@.len() && self@[r.0 as int].name == name@,
    {
        let mut low: usize = 0;
        let mut high: usize = self.entries.len();
        while low < high
            invariant
                self.wf(),
                low <= high <= self@.len(),
                forall|i: int| 0 <= i < low ==> name_less((#[trigger] self@[i]).name, name@),
                forall|i: int|
                    high <= i < self@.len() ==> name_less(name@, (#[trigger] self@[i]).name),
            decreases high - low,
        {
            let mid: usize = low + (high - low) / 2;
            let there = &self.entries[mid];
            let ghost found = self@[mid as int].name;
            match name_order(there.name.as_str(), name) {
                NameOrder::Before => {
                    assert forall|i: int| 0 <= i < mid + 1 implies name_less(
                        (#[trigger] self@[i]).name,
                        name@,
                    ) by {
                        if i < mid {
                            lemma_name_less_transitive(self@[i].name, found, name@);
                        }
                    }
                    low = mid + 1;
                },
                NameOrder::Same => {
                    return (mid, true);
                },
                NameOrder::After => {
                    assert forall|i: int| mid <= i < self@.len() implies name_less(
                        name@,
                        (#[trigger] self@[i]).name,
                    ) by {
                        if i > mid {
                            lemma_name_less_transitive(name@, found, self@[i].name);
                        }
                    }
                    high = mid;
                },
            }
        }
        (low, false)
    }

    /// What a name stands for, if it is there.
    pub fn get(&self, name: &str) -> (found: Option<(u64, FileKind)>)
        requires
            self.wf(),
        ensures
            found == entry_for(self@, name@),
    {
        let (i, there) = self.position(name);
        if there {
            proof {
                lemma_entry_at(self@, i as int);
            }
            let e = &self.entries[i];
            Some((e.inode, e.kind))
        } else {
            proof {
                lemma_name_less_irreflexive(name@);
            }
            None
        }
    }

    /// Lets a name stand for an inode, whatever it stood for before.
    pub fn insert(&mut self, name: String, inode: u64, kind: FileKind)
        requires
            old(self).wf(),
        ensures
            final(self).wf(),
            forall|n: Seq<char>|
                #[trigger] entry_for(final(self)@, n) == (if n == name@ {
                    Some((inode, kind))
                } else {
                    entry_for(old(self)@, n)
                }),
    {
        let (i, there) = self.position(name.as_str());
        let ghost before = self@;
        let ghost new = Entry { name: name@, inode, kind };
        let ghost n = name@;
        let entry = DirectoryEntry { name, inode, kind };
        if there {
            self.entries.set(i, entry);
            assert(self@ =~= before.update(i as int, new));
        } else {
            self.entries.insert(i, entry);
            assert(self@ =~= before.insert(i as int, new));
        }
        proof {
            lemma_inserted(before, self@, i as int, there, new);
        }
    }
}

/// A list with an entry put in its place is sorted, and has that entry and all the others.
proof fn lemma_inserted(before: Seq<Entry>, after: Seq<Entry>, at: int, there: bool, new: Entry)
    requires
        is_sorted(before),
        0 <= at <= before.len(),
        forall|i: int| 0 <= i < at ==> name_less((#[trigger] before[i]).name, new.name),
        forall|i: int|
            at <= i < before.len() && !(there && i == at) ==> name_less(
                new.name,
                (#[trigger] before[i]).name,
            ),
        there ==> at < before.len() && before[at].name == new.name && after == before.update(
            at,
            new,
        ),
        !there ==> after == before.insert(at, new),
    ensures
        is_sorted(after),
        forall|n: Seq<char>|
            #[trigger] entry_for(after, n) == (if n == new.name {
                Some((new.inode, new.kind))
            } else {
                entry_for(before, n)
            }),
{
    let shift: int = if there {
        0
    } else {
        1
    };
    assert forall|i: int| at < i < after.len() implies #[trigger] after[i] == before[i
        - shift] by {}
    assert(is_sorted(after));
    assert(after[at] == new);
    lemma_entry_at(after, at);
    assert forall|n: Seq<char>| #[trigger] entry_for(after, n) == (if n == new.name {
        Some((new.inode, new.kind))
    } else {
        entry_for(before, n)
    }) by {
        if n != new.name {
            if entry_for(before, n) is Some {
                let i = lemma_entry_index(before, n);
                lemma_entry_at(before, i);
                if i < at {
                    assert(after[i] == before[i]);
                    lemma_entry_at(after, i);
                } else {
                    assert(after[i + shift] == before[i]);
                    lemma_entry_at(after, i + shift);
                }
            } else if entry_for(after, n) is Some {
                let i = lemma_entry_index(after, n);
                if i < at {
                    assert(before[i].name == n);
                } else {
                    assert(before[i - shift].name == n);
                }
            }
        }
    }
}

/// The order of names: two names agree up to a place, and there the one with the lesser
/// character, or with none, comes first.
pub proof fn lemma_name_order(a: Seq<char>, b: Seq<char>, k: int)
    requires
        0 <= k <= a.len(),
        k <= b.len(),
        a.take(k) == b.take(k),
        k < a.len() && k < b.len() ==> a[k] != b[k],
    ensures
        k < a.len() && k < b.len() ==> (name_less(a, b) <==> (a[k] as u32) < (b[k] as u32)),
        k == a.len() ==> (name_less(a, b) <==> k < b.len()),
        k == b.len() ==> !name_less(a, b),
    decreases k,
{
    if k > 0 {
        assert(a.take(k)[0] == a[0] && b.take(k)[0] == b[0]);
        let x = a.skip(1);
        let y = b.skip(1);
        assert(x.take(k - 1) =~= a.take(k).skip(1));
        assert(y.take(k - 1) =~= b.take(k).skip(1));
        lemma_name_order(x, y, k - 1);
    }
}

/// What a name stands for: where an entry has it, and the names are sorted, that entry; nothing
/// where none has.
pub proof fn lemma_entry_for(entries: Seq<Entry>, name: Seq<char>, i: int)
    requires
        is_sorted(entries),
    ensures
        0 <= i < entries.len() && entries[i].name == name ==> entry_for(entries, name) == Some(
            (entries[i].inode, entries[i].kind),
        ),
        (forall|j: int| 0 <= j < entries.len() ==> (#[trigger] entries[j]).name != name)
            <==> entry_for(entries, name) is None,
{
    if 0 <= i < entries.len() && entries[i].name == name {
        lemma_entry_at(entries, i);
    }
}

/// The names are sorted where each comes before all that follow it.
pub proof fn lemma_sorted(entries: Seq<Entry>)
    ensures
        is_sorted(entries) <==> forall|i: int, j: int|
            #![trigger entries[i], entries[j]]
            0 <= i < j < entries.len() ==> name_less(entries[i].name, entries[j].name),
{
}

/// A name that was entered is found, with what it was entered for; every other name stands for
/// what it stood for before.
pub proof fn lemma_entered(
    before: DirectoryEntries,
    after: DirectoryEntries,
    name: String,
    inode: u64,
    kind: FileKind,
    other: &str,
    was: Option<(u64, FileKind)>,
    now: Option<(u64, FileKind)>,
)
    requires
        before.wf(),
        exists|entries: &mut DirectoryEntries| #[trigger]
            call_ensures(DirectoryEntries::insert, (entries, name, inode, kind), ())
                && *entries == before && *final(entries) == after,
        call_ensures(DirectoryEntries::get, (&before, other), was),
        call_ensures(DirectoryEntries::get, (&after, other), now),
    ensures
        after.wf(),
        other@ == name@ ==> now == Some((inode, kind)),
        other@ != name@ ==> now == was,
{
    let entries = choose|entries: &mut DirectoryEntries| #[trigger]
        call_ensures(DirectoryEntries::insert, (entries, name, inode, kind), ()) && *entries
            == before && *final(entries) == after;
    assert(entry_for(after@, other@) == (if other@ == name@ {
        Some((inode, kind))
    } else {
        entry_for(before@, other@)
    }));
}

/// The entry at a place has the name that it is found under, and what that stands for.
pub proof fn lemma_entry_found(
    entries: DirectoryEntries,
    index: usize,
    entry: &DirectoryEntry,
    name: &str,
    found: Option<(u64, FileKind)>,
    len: usize,
)
    requires
        entries.wf(),
        call_ensures(DirectoryEntries::len, (&entries,), len),
        index < len,
        call_ensures(DirectoryEntries::entry, (&entries, index), entry),
        entry.name@ == name@,
        call_ensures(DirectoryEntries::get, (&entries, name), found),
    ensures
        found == Some((entry.inode, entry.kind)),
{
    lemma_entry_at(entries@, index as int);
    assert(entry@ == entries@[index as int]);
}

/// What is found under a name is at some place.
pub proof fn lemma_found_entry(
    entries: DirectoryEntries,
    name: &str,
    found: Option<(u64, FileKind)>,
)
    requires
        entries.wf(),
        call_ensures(DirectoryEntries::get, (&entries, name), found),
    ensures
        found is Some <==> exists|i: int|
            0 <= i < entries@.len() && (#[trigger] entries@[i]).name == name@ && found == Some(
                (entries@[i].inode, entries@[i].kind),
            ),
{
    if found is Some {
        let i = lemma_entry_index(entries@, name@);
        lemma_entry_at(entries@, i);
    }
}

} // verus!
