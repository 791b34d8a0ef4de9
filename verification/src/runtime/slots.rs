//! What the three generated functions do, as a table in memory.
//!
//! A [`SlotTable`] holds references of any type `T` the way the module's
//! table holds the host's: entry `n` is slot `n + 1`, slot 0 stands for no
//! reference, and the free entries are linked through sixteen-bit cells,
//! the last one freed first.

use vstd::prelude::*;

use crate::runtime::MAX_SLOTS;

verus! {

/// The link that ends the list of free entries, and the mark of an entry in
/// use.
pub const NO_ENTRY: u16 = 0xffff;

/// The table could not grow: the module traps.
#[derive(Clone, Copy, Debug, PartialEq, Eq, Structural)]
pub struct Trap {}

/// The content of a slot table.
pub struct SlotsView<T> {
    /// The references by entry.
    pub table: Seq<Option<T>>,
    /// The link of each entry.
    pub links: Seq<u16>,
    /// The first free entry, or [`NO_ENTRY`].
    pub head: u32,
    /// The free entries in the order in which they will be taken.
    pub free: Seq<int>,
}

/// A table of references with a list of free entries.
pub struct SlotTable<T> {
    table: Vec<Option<T>>,
    links: Vec<u16>,
    head: u32,
    free: Ghost<Seq<int>>,
}

impl<T> SlotsView<T> {
    /// A table as the three functions keep it: there is a link for every
    /// entry; the list of free entries names no entry twice and holds
    /// exactly the entries without a reference; the head is its first
    /// entry, and the link of each of its entries is the next one.
    pub open spec fn wf(self) -> bool {
        &&& self.table.len() == self.links.len()
        &&& self.table.len() <= MAX_SLOTS
        &&& self.free.no_duplicates()
        &&& self.head == (if self.free.len() > 0 {
            self.free[0] as u32
        } else {
            NO_ENTRY as u32
        })
        &&& forall|k: int|
            0 <= k < self.free.len() ==> {
                let entry = #[trigger] self.free[k];
                &&& 0 <= entry < self.table.len()
                &&& self.table[entry] is None
                &&& self.links[entry] == (if k + 1 < self.free.len() {
                    self.free[k + 1] as u16
                } else {
                    NO_ENTRY
                })
            }
        &&& forall|i: int|
            0 <= i < self.table.len() && self.table[i] is None ==> self.free.contains(i)
    }

    /// Whether `slot` names an entry that holds a reference.
    pub open spec fn in_use(self, slot: u32) -> bool {
        1 <= slot <= self.table.len() && self.table[slot - 1] is Some
    }

    /// What `alloc` gives for a reference, and what it makes of the table:
    /// the first free entry is taken, or the table grows by one entry.
    pub open spec fn allocate(self, r: T) -> Result<(SlotsView<T>, u32), Trap> {
        if self.head >= self.table.len() {
            if self.table.len() >= MAX_SLOTS {
                Err(Trap {  })
            } else {
                Ok(
                    (
                        SlotsView {
                            table: self.table.push(Some(r)),
                            links: self.links.push(NO_ENTRY),
                            head: self.head,
                            free: self.free,
                        },
                        (self.table.len() + 1) as u32,
                    ),
                )
            }
        } else {
            Ok(
                (
                    SlotsView {
                        table: self.table.update(self.head as int, Some(r)),
                        links: self.links.update(self.head as int, NO_ENTRY),
                        head: self.links[self.head as int] as u32,
                        free: self.free.drop_first(),
                    },
                    (self.head + 1) as u32,
                ),
            )
        }
    }

    /// What `free` makes of the table: the entry of the slot loses its
    /// reference and becomes the first free one.
    pub open spec fn free(self, slot: u32) -> SlotsView<T> {
        if slot == 0 {
            self
        } else {
            SlotsView {
                table: self.table.update(slot - 1, None),
                links: self.links.update(slot - 1, self.head as u16),
                head: (slot - 1) as u32,
                free: seq![slot - 1] + self.free,
            }
        }
    }

    /// What `get` gives: the reference in the entry of the slot.
    pub open spec fn get(self, slot: u32) -> Option<T> {
        if slot == 0 {
            None
        } else {
            self.table[slot - 1]
        }
    }
}

/// `alloc` and then `get` on the slot that it gave: the reference comes back.
pub proof fn lemma_alloc_get<T>(v: SlotsView<T>, r: T)
    requires
        v.wf(),
        v.allocate(r) is Ok,
    ensures
        v.allocate(r)->Ok_0.0.get(v.allocate(r)->Ok_0.1) == Some(r),
{
    if v.head < v.table.len() {
        assert(v.free.len() > 0);
    }
}

/// `alloc` keeps the table well formed, takes no entry that holds a
/// reference, and changes no other entry.
pub proof fn lemma_alloc_fresh<T>(v: SlotsView<T>, r: T)
    requires
        v.wf(),
        v.allocate(r) is Ok,
    ensures
        v.allocate(r)->Ok_0.0.wf(),
        !v.in_use(v.allocate(r)->Ok_0.1),
        v.allocate(r)->Ok_0.1 >= 1,
        forall|s: u32|
            v.in_use(s) ==> #[trigger] v.allocate(r)->Ok_0.0.get(s) == v.get(s) && v.allocate(
                r,
            )->Ok_0.0.in_use(s),
{
    let after = v.allocate(r)->Ok_0.0;
    if v.head < v.table.len() {
        let i = v.head as int;
        assert(v.free.len() > 0);
        assert(v.free[0] == i);
        assert forall|k: int| 0 <= k < after.free.len() implies {
            let entry = #[trigger] after.free[k];
            &&& 0 <= entry < after.table.len()
            &&& after.table[entry] is None
            &&& after.links[entry] == (if k + 1 < after.free.len() {
                after.free[k + 1] as u16
            } else {
                NO_ENTRY
            })
        } by {
            assert(after.free[k] == v.free[k + 1]);
            assert(v.free[k + 1] != v.free[0]);
        }
        assert(after.free.no_duplicates()) by {
            assert forall|a: int, b: int|
                0 <= a < after.free.len() && 0 <= b < after.free.len() && a != b implies after.free[a]
                != after.free[b] by {
                assert(after.free[a] == v.free[a + 1]);
                assert(after.free[b] == v.free[b + 1]);
            }
        }
        assert forall|j: int| 0 <= j < after.table.len() && after.table[j] is None implies after.free.contains(
            j,
        ) by {
            assert(v.free.contains(j));
            let k = choose|k: int| 0 <= k < v.free.len() && v.free[k] == j;
            assert(k != 0);
            assert(after.free[k - 1] == j);
        }
        if v.free.len() > 1 {
            assert(v.free[1] == after.free[0]);
        }
    } else {
        assert(v.free.len() == 0) by {
            if v.free.len() > 0 {
                assert(v.free[0] < v.table.len());
            }
        }
        assert forall|j: int| 0 <= j < after.table.len() && after.table[j] is None implies after.free.contains(
            j,
        ) by {
            assert(v.table[j] is None);
            assert(v.free.contains(j));
        }
    }
}

/// `free` of a slot that is in use keeps the table well formed and changes
/// no other entry.
pub proof fn lemma_free_wf<T>(v: SlotsView<T>, slot: u32)
    requires
        v.wf(),
        v.in_use(slot),
    ensures
        v.free(slot).wf(),
        !v.free(slot).in_use(slot),
        forall|s: u32| s != slot && v.in_use(s) ==> #[trigger] v.free(slot).get(s) == v.get(s),
{
    let after = v.free(slot);
    let i = slot - 1;
    assert(!v.free.contains(i)) by {
        if v.free.contains(i) {
            let k = choose|k: int| 0 <= k < v.free.len() && v.free[k] == i;
            assert(v.table[v.free[k]] is None);
        }
    }
    assert(after.free.no_duplicates()) by {
        assert forall|a: int, b: int|
            0 <= a < after.free.len() && 0 <= b < after.free.len() && a != b implies after.free[a]
            != after.free[b] by {
            if a > 0 {
                assert(after.free[a] == v.free[a - 1]);
                assert(v.free.contains(v.free[a - 1]));
            }
            if b > 0 {
                assert(after.free[b] == v.free[b - 1]);
                assert(v.free.contains(v.free[b - 1]));
            }
        }
    }
    assert forall|k: int| 0 <= k < after.free.len() implies {
        let entry = #[trigger] after.free[k];
        &&& 0 <= entry < after.table.len()
        &&& after.table[entry] is None
        &&& after.links[entry] == (if k + 1 < after.free.len() {
            after.free[k + 1] as u16
        } else {
            NO_ENTRY
        })
    } by {
        if k > 0 {
            assert(after.free[k] == v.free[k - 1]);
            assert(v.free.contains(v.free[k - 1]));
            if k + 1 < after.free.len() {
                assert(after.free[k + 1] == v.free[k]);
            }
        } else {
            if v.free.len() > 0 {
                assert(after.free[1] == v.free[0]);
            }
        }
    }
    assert forall|j: int| 0 <= j < after.table.len() && after.table[j] is None implies after.free.contains(
        j,
    ) by {
        if j == i {
            assert(after.free[0] == j);
        } else {
            assert(v.free.contains(j));
            let k = choose|k: int| 0 <= k < v.free.len() && v.free[k] == j;
            assert(after.free[k + 1] == j);
        }
    }
}

/// `free` and then `alloc`: the slot that was given back is given out again.
pub proof fn lemma_free_alloc<T>(v: SlotsView<T>, slot: u32, r: T)
    requires
        v.wf(),
        v.in_use(slot),
    ensures
        v.free(slot).allocate(r) is Ok,
        v.free(slot).allocate(r)->Ok_0.1 == slot,
{
}

/// `alloc`, `free` of the slot that it gave, and `alloc` again: the second
/// reference gets the slot of the first.
pub proof fn lemma_slot_reuse<T>(v: SlotsView<T>, first: T, second: T)
    requires
        v.wf(),
        v.allocate(first) is Ok,
    ensures
        ({
            let (after, slot) = v.allocate(first)->Ok_0;
            after.free(slot).allocate(second) is Ok && after.free(slot).allocate(second)->Ok_0.1
                == slot
        }),
{
    if v.head < v.table.len() {
        assert(v.free.len() > 0);
    }
}

/// Slot 0 is the slot of no reference: `get` gives none for it, and `free`
/// leaves the table, its list of free entries too, as it is.
pub proof fn lemma_null_slot<T>(v: SlotsView<T>)
    ensures
        v.get(0) is None,
        v.free(0) == v,
{
}

impl<T> View for SlotTable<T> {
    type V = SlotsView<T>;

    closed spec fn view(&self) -> SlotsView<T> {
        SlotsView { table: self.table@, links: self.links@, head: self.head, free: self.free@ }
    }
}

impl<T> SlotTable<T> {
    /// A table without entries.
    pub fn new() -> (t: SlotTable<T>)
        ensures
            t@.table.len() == 0,
            t@.wf(),
    {
        SlotTable { table: Vec::new(), links: Vec::new(), head: 0xffff, free: Ghost(Seq::empty()) }
    }

    /// How many entries the table has.
    pub fn len(&self) -> (n: usize)
        ensures
            n == self@.table.len(),
    {
        self.table.len()
    }

    /// Puts a reference in the table and returns its slot; slot 0 for no
    /// reference, which leaves the table as it is.
    pub fn alloc_slot(&mut self, r: Option<T>) -> (slot: Result<u32, Trap>)
        requires
            old(self)@.wf(),
        ensures
            final(self)@.wf(),
            match r {
                None => slot == Ok::<u32, Trap>(0) && final(self)@ == old(self)@,
                Some(x) => match old(self)@.allocate(x) {
                    Ok((after, s)) => slot == Ok::<u32, Trap>(s) && final(self)@ == after,
                    Err(t) => slot == Err::<u32, Trap>(t) && final(self)@ == old(self)@,
                },
            },
    {
        let x = match r {
            None => {
                return Ok(0);
            },
            Some(x) => x,
        };
        proof {
            if old(self)@.allocate(x) is Ok {
                lemma_alloc_fresh(old(self)@, x);
            }
        }
        let n = self.table.len();
        if self.head as usize >= n {
            if n >= MAX_SLOTS as usize {
                return Err(Trap {  });
            }
            self.table.push(Some(x));
            self.links.push(NO_ENTRY);
            Ok((n + 1) as u32)
        } else {
            let i = self.head as usize;
            self.head = self.links[i] as u32;
            self.table[i] = Some(x);
            self.links[i] = NO_ENTRY;
            proof {
                self.free@ = self.free@.drop_first();
            }
            Ok((i + 1) as u32)
        }
    }

    /// Gives a slot back; nothing happens for slot 0.
    pub fn free(&mut self, slot: u32)
        requires
            old(self)@.wf(),
            slot == 0 || old(self)@.in_use(slot),
        ensures
            final(self)@ == old(self)@.free(slot),
            final(self)@.wf(),
    {
        if slot != 0 {
            proof {
                lemma_free_wf(old(self)@, slot);
            }
            let i = (slot - 1) as usize;
            self.table[i] = None;
            self.links[i] = self.head as u16;
            self.head = slot - 1;
            proof {
                self.free@ = seq![slot - 1] + self.free@;
            }
        }
    }

    /// The reference in a slot; none for slot 0.
    pub fn get(&self, slot: u32) -> (r: Option<&T>)
        requires
            slot == 0 || slot <= self@.table.len(),
        ensures
            match r {
                Some(x) => self@.get(slot) == Some(*x),
                None => self@.get(slot) is None,
            },
    {
        if slot == 0 {
            None
        } else {
            self.table[(slot - 1) as usize].as_ref()
        }
    }
}

} // verus!
