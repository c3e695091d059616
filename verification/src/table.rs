//! A small table from addresses to handles.
use crate::addr::AddrTuple;
use crate::addr::IpAddr;
use crate::addr::SocketAddr;
use vstd::prelude::*;

verus! {

/// How many slots a table has.
pub const SLOTS: usize = 1024;

/// A key that can be told from others, and whose number says in which slot of a table it stands.
pub trait Key: Copy {
    spec fn number(self) -> u64;

    fn same(&self, other: &Self) -> (r: bool)
        ensures
            r == (*self == *other),
    ;

    fn to_number(&self) -> (r: u64)
        ensures
            r == self.number(),
    ;
}

/// The low 48 bits of an address, and the port added.
pub open spec fn address_number(addr: SocketAddr) -> u64 {
    match addr.ip {
        IpAddr::V4(n) => (n + addr.port) as u64,
        IpAddr::V6(n) => (n % 0x1_0000_0000_0000 + addr.port) as u64,
    }
}

impl Key for SocketAddr {
    open spec fn number(self) -> u64 {
        address_number(self)
    }

    fn same(&self, other: &SocketAddr) -> (r: bool) {
        *self == *other
    }

    fn to_number(&self) -> (r: u64) {
        match self.ip {
            IpAddr::V4(n) => n as u64 + self.port as u64,
            IpAddr::V6(n) => (n % 0x1_0000_0000_0000) as u64 + self.port as u64,
        }
    }
}

impl Key for AddrTuple {
    open spec fn number(self) -> u64 {
        (31 * address_number(self.local_addr) + address_number(self.remote_addr)) as u64
    }

    fn same(&self, other: &AddrTuple) -> (r: bool) {
        *self == *other
    }

    fn to_number(&self) -> (r: u64) {
        let local: u64 = self.local_addr.to_number();
        let remote: u64 = self.remote_addr.to_number();
        31 * local + remote
    }
}

/// A table in which no key occurs twice. Its entries are spread over slots, each of which is a short
/// list; a table that never held an entry has none.
#[derive(Debug)]
pub struct Table<K: Key> {
    slots: Vec<Vec<(K, u64)>>,
}

/// What a list of entries maps its keys to.
pub open spec fn contents<K>(entries: Seq<(K, u64)>) -> Map<K, u64>
    decreases entries.len(),
{
    if entries.len() == 0 {
        Map::empty()
    } else {
        contents(entries.drop_last()).insert(entries.last().0, entries.last().1)
    }
}

/// Whether no key occurs twice in a list of entries.
pub open spec fn distinct<K>(entries: Seq<(K, u64)>) -> bool {
    forall|i: int, j: int|
        0 <= i < j < entries.len() ==> (#[trigger] entries[i]).0 != (#[trigger] entries[j]).0
}

proof fn lemma_contents<K>(entries: Seq<(K, u64)>, key: K)
    requires
        distinct(entries),
    ensures
        contents(entries).contains_key(key) <==> exists|i: int|
            0 <= i < entries.len() && (#[trigger] entries[i]).0 == key,
        forall|i: int|
            0 <= i < entries.len() && (#[trigger] entries[i]).0 == key ==> contents(entries)[key]
                == entries[i].1,
    decreases entries.len(),
{
    if entries.len() > 0 {
        let rest = entries.drop_last();
        let n = entries.len() - 1;
        assert forall|i: int, j: int| 0 <= i < j < rest.len() implies (#[trigger] rest[i]).0 != (
        #[trigger] rest[j]).0 by {
            assert(entries[i].0 != entries[j].0);
        }
        lemma_contents(rest, key);
        if contents(rest).contains_key(key) {
            let i = choose|i: int| 0 <= i < rest.len() && (#[trigger] rest[i]).0 == key;
            assert(entries[i].0 == key);
        }
        if entries[n].0 == key {
            assert(entries.last().0 == key);
        }
        assert forall|i: int| 0 <= i < entries.len() && (#[trigger] entries[i]).0 == key implies
            contents(entries)[key] == entries[i].1 by {
            if i < n {
                assert(rest[i] == entries[i]);
                assert(entries[i].0 != entries[n].0);
            }
        }
        assert(contents(entries).contains_key(key) ==> exists|i: int|
            0 <= i < entries.len() && (#[trigger] entries[i]).0 == key);
        assert((exists|i: int| 0 <= i < entries.len() && (#[trigger] entries[i]).0 == key)
            ==> contents(entries).contains_key(key)) by {
            if exists|i: int| 0 <= i < entries.len() && (#[trigger] entries[i]).0 == key {
                let i = choose|i: int| 0 <= i < entries.len() && (#[trigger] entries[i]).0 == key;
                if i < n {
                    assert(rest[i] == entries[i]);
                }
            }
        }
    }
}

/// The slot of a key.
pub open spec fn slot_of<K: Key>(key: K) -> int {
    key.number() as int % SLOTS as int
}

/// What the slot of a key maps it to.
spec fn at_slot<K: Key>(slots: Seq<Vec<(K, u64)>>, key: K) -> Map<K, u64> {
    if slots.len() == 0 {
        Map::empty()
    } else {
        contents(slots[slot_of(key)]@)
    }
}

impl<K: Key> View for Table<K> {
    type V = Map<K, u64>;

    closed spec fn view(&self) -> Map<K, u64> {
        Map::new(
            |key: K| at_slot(self.slots@, key).contains_key(key),
            |key: K| at_slot(self.slots@, key)[key],
        )
    }
}

/// Where the key stands in a list, or the length of the list.
fn position<K: Key>(list: &Vec<(K, u64)>, key: &K) -> (i: usize)
    ensures
        i <= list@.len(),
        i < list@.len() ==> list@[i as int].0 == *key,
        i == list@.len() ==> forall|j: int| 0 <= j < i ==> (#[trigger] list@[j]).0 != *key,
{
    let mut i: usize = 0;
    while i < list.len()
        invariant
            i <= list@.len(),
            forall|j: int| 0 <= j < i ==> (#[trigger] list@[j]).0 != *key,
        decreases list@.len() - i,
    {
        if list[i].0.same(key) {
            return i;
        }
        i = i + 1;
    }
    i
}

/// Takes the key out of a list, if it is there.
fn take_out<K: Key>(list: &mut Vec<(K, u64)>, key: &K)
    requires
        distinct(old(list)@),
    ensures
        distinct(final(list)@),
        contents(final(list)@) == contents(old(list)@).remove(*key),
{
    let i: usize = position(list, key);
    if i < list.len() {
        list.remove(i);
        proof {
            lemma_removed(old(list)@, i as int);
        }
    } else {
        proof {
            lemma_contents(list@, *key);
        }
        assert(contents(list@) =~= contents(list@).remove(*key));
    }
}

fn slot<K: Key>(key: &K) -> (i: usize)
    ensures
        i == slot_of(*key),
        i < SLOTS,
{
    (key.to_number() % SLOTS as u64) as usize
}

impl<K: Key> Table<K> {
    #[verifier::type_invariant]
    closed spec fn wf(self) -> bool {
        &&& self.slots@.len() == 0 || self.slots@.len() == SLOTS
        &&& forall|i: int| 0 <= i < self.slots@.len() ==> distinct((#[trigger] self.slots@[i])@)
    }

    pub fn new() -> (table: Table<K>)
        ensures
            table@ == Map::<K, u64>::empty(),
    {
        let table = Table { slots: Vec::new() };
        assert(table@ =~= Map::empty());
        table
    }

    pub fn get(&self, key: &K) -> (r: Option<u64>)
        ensures
            r == (if self@.contains_key(*key) {
                Some(self@[*key])
            } else {
                None
            }),
    {
        proof {
            use_type_invariant(self);
        }
        if self.slots.len() == 0 {
            return None;
        }
        let at: usize = slot(key);
        let list = &self.slots[at];
        let i: usize = position(list, key);
        proof {
            lemma_contents(list@, *key);
        }
        if i < list.len() {
            Some(list[i].1)
        } else {
            None
        }
    }

    /// Takes the key out, if it is there.
    pub fn remove(&mut self, key: &K)
        ensures
            final(self)@ == old(self)@.remove(*key),
    {
        proof {
            use_type_invariant(&*self);
        }
        if self.slots.len() == 0 {
            assert(self@ =~= old(self)@.remove(*key));
            return;
        }
        let mut slots: Vec<Vec<(K, u64)>> = Vec::new();
        std::mem::swap(&mut slots, &mut self.slots);
        let ghost before = slots@;
        let at: usize = slot(key);
        let mut list: Vec<(K, u64)> = Vec::new();
        std::mem::swap(&mut list, &mut slots[at]);
        take_out(&mut list, key);
        slots[at] = list;
        assert(slots@ =~= before.update(at as int, list));
        self.slots = slots;
        assert(self@ =~= old(self)@.remove(*key));
    }

    /// Puts the value under the key, in place of the one that it had.
    pub fn insert(&mut self, key: K, value: u64)
        ensures
            final(self)@ == old(self)@.insert(key, value),
    {
        proof {
            use_type_invariant(&*self);
        }
        let mut slots: Vec<Vec<(K, u64)>> = Vec::new();
        std::mem::swap(&mut slots, &mut self.slots);
        if slots.len() == 0 {
            slots = empty_slots();
        }
        let ghost before = slots@;
        assert forall|k: K| #[trigger] at_slot(before, k) == at_slot(old(self).slots@, k) by {
            assert(0 <= slot_of(k) < SLOTS);
            if old(self).slots@.len() == 0 {
                assert(before[slot_of(k)]@ == Seq::<(K, u64)>::empty());
            }
        }
        let at: usize = slot(&key);
        let mut list: Vec<(K, u64)> = Vec::new();
        std::mem::swap(&mut list, &mut slots[at]);
        take_out(&mut list, &key);
        let ghost rest = list@;
        list.push((key, value));
        proof {
            lemma_contents(rest, key);
            assert(list@.drop_last() =~= rest);
            assert(contents(list@) =~= contents(before[at as int]@).insert(key, value));
        }
        slots[at] = list;
        assert(slots@ =~= before.update(at as int, list));
        self.slots = slots;
        assert forall|k: K| k != key implies at_slot(self.slots@, k).contains_key(k) == at_slot(
            before,
            k,
        ).contains_key(k) && (at_slot(before, k).contains_key(k) ==> at_slot(self.slots@, k)[k]
            == #[trigger] at_slot(before, k)[k]) by {
            assert(0 <= slot_of(k) < SLOTS);
        }
        assert(self@ =~= old(self)@.insert(key, value));
    }
}

/// The slots of a table without entries.
fn empty_slots<K: Key>() -> (slots: Vec<Vec<(K, u64)>>)
    ensures
        slots@.len() == SLOTS,
        forall|i: int| 0 <= i < SLOTS ==> (#[trigger] slots@[i])@ == Seq::<(K, u64)>::empty(),
{
    let mut slots: Vec<Vec<(K, u64)>> = Vec::new();
    while slots.len() < SLOTS
        invariant
            slots@.len() <= SLOTS,
            forall|i: int|
                0 <= i < slots@.len() ==> (#[trigger] slots@[i])@ == Seq::<(K, u64)>::empty(),
        decreases SLOTS - slots@.len(),
    {
        slots.push(Vec::new());
    }
    slots
}

proof fn lemma_removed<K>(entries: Seq<(K, u64)>, at: int)
    requires
        distinct(entries),
        0 <= at < entries.len(),
    ensures
        distinct(entries.remove(at)),
        contents(entries.remove(at)) == contents(entries).remove(entries[at].0),
{
    let rest = entries.remove(at);
    assert forall|i: int, j: int| 0 <= i < j < rest.len() implies (#[trigger] rest[i]).0 != (
    #[trigger] rest[j]).0 by {
        let a = if i < at { i } else { i + 1 };
        let b = if j < at { j } else { j + 1 };
        assert(entries[a].0 != entries[b].0);
    }
    let gone = entries[at].0;
    assert forall|key: K| #[trigger]
        contents(rest).contains_key(key) == contents(entries).remove(gone).contains_key(key) && (
    contents(rest).contains_key(key) ==> contents(rest)[key] == contents(entries)[key]) by {
        lemma_contents(rest, key);
        lemma_contents(entries, key);
        if contents(rest).contains_key(key) {
            let i = choose|i: int| 0 <= i < rest.len() && (#[trigger] rest[i]).0 == key;
            let a = if i < at { i } else { i + 1 };
            assert(entries[a].0 == key);
            assert(entries[a].0 != entries[at].0);
        }
        if contents(entries).contains_key(key) && key != gone {
            let a = choose|a: int| 0 <= a < entries.len() && (#[trigger] entries[a]).0 == key;
            let i = if a < at { a } else { a - 1 };
            assert(rest[i].0 == key);
        }
    }
    assert(contents(rest) =~= contents(entries).remove(gone));
}

} // verus!
