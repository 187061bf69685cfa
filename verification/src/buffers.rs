//! Pool of write buffers for bulk IN submissions in flight.

use vstd::pervasive::unreached;
use vstd::prelude::*;

verus! {

/// How many buffers can be in flight at once.
pub const MAX_BUFFER_SLOTS: usize = 8;

/// Fixed-size pool of write buffers.
///
/// Slots are numbered from 1, so that 0 can stand for no slot.
#[derive(Debug)]
pub struct BufferManager {
    slots: [Option<Vec<u8>>; 8],
}

impl View for BufferManager {
    /// What each slot holds, if it is in use; the slot with number `n` stands at index `n - 1`.
    type V = Seq<Option<Seq<u8>>>;

    closed spec fn view(&self) -> Seq<Option<Seq<u8>>> {
        self.slots@.map_values(
            |s: Option<Vec<u8>>|
                match s {
                    Some(v) => Some(v@),
                    None => None,
                },
        )
    }
}

/// How many of the slots are free.
pub open spec fn free_slots(slots: Seq<Option<Seq<u8>>>) -> nat
    decreases slots.len(),
{
    if slots.len() == 0 {
        0
    } else {
        free_slots(slots.drop_last()) + if slots.last() is None {
            1nat
        } else {
            0
        }
    }
}

/// The index of the first free slot, or the number of slots where none is free.
pub open spec fn first_free(slots: Seq<Option<Seq<u8>>>) -> nat
    decreases slots.len(),
{
    if slots.len() == 0 || slots[0] is None {
        0
    } else {
        1 + first_free(slots.drop_first())
    }
}

proof fn lemma_first_free(slots: Seq<Option<Seq<u8>>>, n: int)
    requires
        0 <= n < slots.len(),
        slots[n] is None,
        forall|i: int| 0 <= i < n ==> slots[i] is Some,
    ensures
        first_free(slots) == n,
    decreases n,
{
    if n > 0 {
        assert(slots[0] is Some);
        lemma_first_free(slots.drop_first(), n - 1);
    }
}

proof fn lemma_some_slot_free(slots: Seq<Option<Seq<u8>>>)
    ensures
        free_slots(slots) > 0 <==> exists|i: int| 0 <= i < slots.len() && slots[i] is None,
    decreases slots.len(),
{
    if slots.len() > 0 {
        let rest = slots.drop_last();
        lemma_some_slot_free(rest);
        if free_slots(rest) > 0 {
            let i = choose|i: int| 0 <= i < rest.len() && rest[i] is None;
            assert(slots[i] is None);
        } else if slots.last() is None {
            assert(slots[slots.len() - 1] is None);
        } else {
            assert forall|i: int| 0 <= i < slots.len() implies slots[i] is Some by {
                if i < rest.len() {
                    assert(rest[i] is Some);
                }
            }
        }
    }
}

/// Where a slot is free, the first free slot is one of the slots, and is free.
pub proof fn first_free_is_free(slots: Seq<Option<Seq<u8>>>)
    requires
        free_slots(slots) > 0,
    ensures
        first_free(slots) < slots.len(),
        slots[first_free(slots) as int] is None,
{
    lemma_some_slot_free(slots);
    let i = choose|i: int| 0 <= i < slots.len() && slots[i] is None;
    lemma_free_before(slots, i);
}

proof fn lemma_free_before(slots: Seq<Option<Seq<u8>>>, i: int)
    requires
        0 <= i < slots.len(),
        slots[i] is None,
    ensures
        first_free(slots) <= i,
        slots[first_free(slots) as int] is None,
    decreases slots.len(),
{
    if slots[0] is Some {
        lemma_free_before(slots.drop_first(), i - 1);
    }
}

/// The pool has eight slots.
pub proof fn slot_count(pool: BufferManager)
    ensures
        pool@.len() == MAX_BUFFER_SLOTS,
{
}

/// Filling a slot or emptying it changes the number of free slots by that slot alone.
pub proof fn free_slots_after_update(
    slots: Seq<Option<Seq<u8>>>,
    i: int,
    value: Option<Seq<u8>>,
)
    requires
        0 <= i < slots.len(),
    ensures
        free_slots(slots.update(i, value)) + (if slots[i] is None {
            1nat
        } else {
            0
        }) == free_slots(slots) + (if value is None {
            1nat
        } else {
            0
        }),
    decreases slots.len(),
{
    let updated = slots.update(i, value);
    if i == slots.len() - 1 {
        assert(updated.drop_last() =~= slots.drop_last());
    } else {
        assert(updated.drop_last() =~= slots.drop_last().update(i, value));
        free_slots_after_update(slots.drop_last(), i, value);
    }
}

/// A slot that was free, once taken and given back, leaves the pool as it was.
pub proof fn free_undoes_allocate(slots: Seq<Option<Seq<u8>>>, i: int, content: Seq<u8>)
    requires
        0 <= i < slots.len(),
        slots[i] is None,
    ensures
        slots.update(i, Some(content)).update(i, None) == slots,
{
    assert(slots.update(i, Some(content)).update(i, None) =~= slots);
}

impl BufferManager {
    /// Creates a pool with all slots free.
    pub fn new() -> (res: Self)
        ensures
            res@ == Seq::new(8, |i: int| None::<Seq<u8>>),
    {
        let res = BufferManager { slots: [None, None, None, None, None, None, None, None] };
        assert(res@ =~= Seq::new(8, |i: int| None::<Seq<u8>>));
        res
    }

    /// Takes the lowest free slot and returns its number and its buffer, which is empty.
    pub fn allocate(&mut self, capacity: usize) -> (res: (u32, &mut Vec<u8>))
        requires
            free_slots(old(self)@) > 0,
        ensures
            1 <= res.0 <= MAX_BUFFER_SLOTS,
            res.0 == first_free(old(self)@) + 1,
            old(self)@[res.0 - 1] is None,
            res.1@ == Seq::<u8>::empty(),
            final(self)@ == old(self)@.update(res.0 - 1, Some(final(res.1)@)),
    {
        proof {
            lemma_some_slot_free(self@);
        }
        let mut slot: usize = 0;
        while self.slots[slot].is_some()
            invariant
                slot < 8,
                forall|i: int| 0 <= i < slot ==> self@[i] is Some,
                exists|i: int| 0 <= i < self@.len() && self@[i] is None,
            decreases 8 - slot,
        {
            slot = slot + 1;
        }
        proof {
            lemma_first_free(self@, slot as int);
        }
        self.slots[slot] = Some(Vec::with_capacity(capacity));
        let slot_id: u32 = (slot + 1) as u32;
        match &mut self.slots[slot] {
            Some(buffer) => (slot_id, buffer),
            None => unreached(),
        }
    }

    /// Frees a slot by its number.
    pub fn free(&mut self, slot: u32)
        requires
            1 <= slot <= MAX_BUFFER_SLOTS,
        ensures
            final(self)@ == old(self)@.update(slot - 1, None),
    {
        let ghost before = self@;
        self.slots[(slot - 1) as usize] = None;
        assert(self@ =~= before.update(slot - 1, None));
    }

    /// What a slot holds, if it is in use.
    pub fn contents(&self, slot: u32) -> (res: Option<&[u8]>)
        requires
            1 <= slot <= MAX_BUFFER_SLOTS,
        ensures
            match res {
                Some(bytes) => self@[slot - 1] == Some(bytes@),
                None => self@[slot - 1] is None,
            },
    {
        match &self.slots[(slot - 1) as usize] {
            Some(buffer) => Some(buffer.as_slice()),
            None => None,
        }
    }

    /// How many slots are free.
    pub fn free_count(&self) -> (res: usize)
        ensures
            res == free_slots(self@),
            res <= MAX_BUFFER_SLOTS,
    {
        let mut n: usize = 0;
        let mut i: usize = 0;
        while i < 8
            invariant
                i <= 8,
                n <= i,
                n == free_slots(self@.take(i as int)),
            decreases 8 - i,
        {
            assert(self@.take(i + 1).drop_last() =~= self@.take(i as int));
            if self.slots[i].is_none() {
                n = n + 1;
            }
            i = i + 1;
        }
        assert(self@.take(8) =~= self@);
        n
    }
}

} // verus!
