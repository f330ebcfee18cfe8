//! The bounded packet sequence that a fuzzing session builds, mutates and sends.
//!
//! A sequence always has exactly [`MAX_PACKETS`] slots. A slot that holds no
//! bytes is empty; the packets of the sequence are its non-empty slots, in
//! slot order.

use crate::hexdump::{hex_encode, hex_string};
use vstd::prelude::*;
use vstd::string::*;

verus! {

/// The number of slots in a packet sequence.
pub const MAX_PACKETS: usize = 10;

/// The number of non-empty buffers among `slots`.
pub open spec fn count_nonempty(slots: Seq<Seq<u8>>) -> nat
    decreases slots.len(),
{
    if slots.len() == 0 {
        0
    } else {
        count_nonempty(slots.drop_last()) + if slots.last().len() > 0 {
            1nat
        } else {
            0nat
        }
    }
}

/// Every buffer of `slots` holds at least one byte.
pub open spec fn all_nonempty(slots: Seq<Seq<u8>>) -> bool {
    forall|i: int| 0 <= i < slots.len() ==> (#[trigger] slots[i]).len() > 0
}

/// `i` is the lowest index of an empty buffer in `slots`.
pub open spec fn is_lowest_empty(slots: Seq<Seq<u8>>, i: int) -> bool {
    &&& 0 <= i < slots.len()
    &&& slots[i].len() == 0
    &&& forall|j: int| 0 <= j < i ==> (#[trigger] slots[j]).len() > 0
}

/// The lowest index of an empty buffer in `slots`; meaningful unless
/// `all_nonempty(slots)`.
pub open spec fn lowest_empty(slots: Seq<Seq<u8>>) -> int {
    choose|i: int| is_lowest_empty(slots, i)
}

/// `slots` after `packet` was appended: `packet` stands in the lowest empty
/// slot, and nothing changes when no slot is empty.
pub open spec fn appended(slots: Seq<Seq<u8>>, packet: Seq<u8>) -> Seq<Seq<u8>> {
    if all_nonempty(slots) {
        slots
    } else {
        slots.update(lowest_empty(slots), packet)
    }
}

/// `i` is the index of the non-empty buffer of `slots` that has exactly `n`
/// non-empty buffers before it.
pub open spec fn is_nth_nonempty(slots: Seq<Seq<u8>>, n: int, i: int) -> bool {
    &&& 0 <= i < slots.len()
    &&& slots[i].len() > 0
    &&& count_nonempty(slots.take(i)) == n
}

/// The index of the `n`-th non-empty buffer of `slots`, counting from zero;
/// meaningful for `n < count_nonempty(slots)`.
pub open spec fn nth_nonempty(slots: Seq<Seq<u8>>, n: int) -> int {
    choose|i: int| is_nth_nonempty(slots, n, i)
}

/// There are never more non-empty buffers than buffers.
pub proof fn lemma_count_bounded(slots: Seq<Seq<u8>>)
    ensures
        count_nonempty(slots) <= slots.len(),
    decreases slots.len(),
{
    if slots.len() > 0 {
        lemma_count_bounded(slots.drop_last());
    }
}

/// The count over a prefix never exceeds the count over the whole, and
/// grows by one across a non-empty buffer.
pub proof fn lemma_count_prefix(slots: Seq<Seq<u8>>, i: int)
    requires
        0 <= i <= slots.len(),
    ensures
        count_nonempty(slots.take(i)) <= count_nonempty(slots),
        i < slots.len() ==> count_nonempty(slots.take(i + 1)) == count_nonempty(slots.take(i)) + if slots[i].len()
            > 0 {
            1nat
        } else {
            0nat
        },
    decreases slots.len() - i,
{
    if i < slots.len() {
        assert(slots.take(i + 1).drop_last() =~= slots.take(i));
        assert(slots.take(i + 1).last() == slots[i]);
        lemma_count_prefix(slots, i + 1);
    } else {
        assert(slots.take(i) =~= slots);
    }
}

/// The count is monotone along prefixes.
pub proof fn lemma_count_monotone(slots: Seq<Seq<u8>>, i: int, j: int)
    requires
        0 <= i <= j <= slots.len(),
    ensures
        count_nonempty(slots.take(i)) <= count_nonempty(slots.take(j)),
    decreases j - i,
{
    if i < j {
        lemma_count_prefix(slots, i);
        lemma_count_monotone(slots, i + 1, j);
    }
}

/// At most one index is the `n`-th non-empty buffer, so `nth_nonempty`
/// names it.
pub proof fn lemma_nth_nonempty_unique(slots: Seq<Seq<u8>>, n: int, i: int)
    requires
        is_nth_nonempty(slots, n, i),
    ensures
        nth_nonempty(slots, n) == i,
{
    let k = nth_nonempty(slots, n);
    assert(is_nth_nonempty(slots, n, k));
    if k < i {
        lemma_count_prefix(slots, k);
        lemma_count_monotone(slots, k + 1, i);
    } else if i < k {
        lemma_count_prefix(slots, i);
        lemma_count_monotone(slots, i + 1, k);
    }
}

/// At most one index is the lowest empty one, so `lowest_empty` names it.
pub proof fn lemma_lowest_empty_unique(slots: Seq<Seq<u8>>, i: int)
    requires
        is_lowest_empty(slots, i),
    ensures
        lowest_empty(slots) == i,
        !all_nonempty(slots),
{
    let k = lowest_empty(slots);
    assert(is_lowest_empty(slots, k));
    if k < i {
        assert(slots[k].len() > 0);
    } else if i < k {
        assert(slots[i].len() > 0);
    }
}

/// Unless every buffer holds a byte, one of the empty ones is the lowest;
/// so appending keeps the number of buffers.
pub proof fn lemma_lowest_empty_exists(slots: Seq<Seq<u8>>)
    requires
        !all_nonempty(slots),
    ensures
        is_lowest_empty(slots, lowest_empty(slots)),
        forall|packet: Seq<u8>| (#[trigger] appended(slots, packet)).len() == slots.len(),
{
    lemma_lowest_empty_from(slots, 0);
}

proof fn lemma_lowest_empty_from(slots: Seq<Seq<u8>>, k: int)
    requires
        !all_nonempty(slots),
        0 <= k <= slots.len(),
        forall|j: int| 0 <= j < k ==> (#[trigger] slots[j]).len() > 0,
    ensures
        is_lowest_empty(slots, lowest_empty(slots)),
    decreases slots.len() - k,
{
    if k < slots.len() {
        if slots[k].len() == 0 {
            assert(is_lowest_empty(slots, k));
        } else {
            lemma_lowest_empty_from(slots, k + 1);
        }
    }
}

/// All buffers are non-empty exactly when the count equals the length.
pub proof fn lemma_full_iff_count(slots: Seq<Seq<u8>>)
    ensures
        all_nonempty(slots) <==> count_nonempty(slots) == slots.len(),
    decreases slots.len(),
{
    if slots.len() > 0 {
        let front = slots.drop_last();
        lemma_full_iff_count(front);
        lemma_count_bounded(front);
        if all_nonempty(slots) {
            assert forall|i: int| 0 <= i < front.len() implies (#[trigger] front[i]).len() > 0 by {
                assert(front[i] == slots[i]);
            }
            assert(slots.last() == slots[slots.len() - 1]);
        }
        if count_nonempty(slots) == slots.len() {
            assert forall|i: int| 0 <= i < slots.len() implies (#[trigger] slots[i]).len() > 0 by {
                if i < front.len() {
                    assert(front[i] == slots[i]);
                } else {
                    assert(slots[i] == slots.last());
                }
            }
        }
    }
}

/// Replacing one buffer by another that is empty exactly when the first was
/// leaves the count as it is.
pub proof fn lemma_count_update(slots: Seq<Seq<u8>>, i: int, buffer: Seq<u8>)
    requires
        0 <= i < slots.len(),
    ensures
        count_nonempty(slots.update(i, buffer)) + (if slots[i].len() > 0 {
            1int
        } else {
            0int
        }) == count_nonempty(slots) + (if buffer.len() > 0 {
            1int
        } else {
            0int
        }),
    decreases slots.len(),
{
    let changed = slots.update(i, buffer);
    if i == slots.len() - 1 {
        assert(changed.drop_last() =~= slots.drop_last());
        assert(changed.last() == buffer);
    } else {
        assert(changed.drop_last() =~= slots.drop_last().update(i, buffer));
        assert(changed.last() == slots.last());
        lemma_count_update(slots.drop_last(), i, buffer);
    }
}

/// The hexadecimal dump of `slots`: one line for each non-empty buffer, in
/// order, each ended by a line feed.
pub open spec fn hex_lines(slots: Seq<Seq<u8>>) -> Seq<char>
    decreases slots.len(),
{
    if slots.len() == 0 {
        Seq::empty()
    } else if slots.last().len() > 0 {
        hex_lines(slots.drop_last()) + hex_string(slots.last()) + seq!['\n']
    } else {
        hex_lines(slots.drop_last())
    }
}

/// A sequence of exactly [`MAX_PACKETS`] byte buffers.
///
/// Its view is the sequence of the buffers' contents, always of length
/// [`MAX_PACKETS`].
#[derive(Debug, PartialEq, Eq, Hash)]
pub struct Packets {
    inner: Vec<Vec<u8>>,
}

impl View for Packets {
    type V = Seq<Seq<u8>>;

    closed spec fn view(&self) -> Seq<Seq<u8>> {
        Seq::new(MAX_PACKETS as nat, |i: int| self.inner@[i]@)
    }
}

/// The view of a freshly made sequence: every slot empty.
pub open spec fn empty_slots() -> Seq<Seq<u8>> {
    Seq::new(MAX_PACKETS as nat, |i: int| Seq::<u8>::empty())
}

/// The contents of a vector of buffers.
pub open spec fn contents(slots: Seq<Vec<u8>>) -> Seq<Seq<u8>> {
    Seq::new(slots.len(), |i: int| slots[i]@)
}

impl Packets {
    #[verifier::type_invariant]
    closed spec fn inv(&self) -> bool {
        self.inner@.len() == MAX_PACKETS
    }

    /// A sequence has [`MAX_PACKETS`] slots, so its size is at most that.
    pub proof fn lemma_slot_count(&self)
        ensures
            self@.len() == MAX_PACKETS,
            count_nonempty(self@) <= MAX_PACKETS,
    {
        lemma_count_bounded(self@);
    }

    /// A sequence whose slots are all empty.
    pub fn new() -> (r: Self)
        ensures
            r@ == empty_slots(),
    {
        let mut inner: Vec<Vec<u8>> = Vec::new();
        let mut i: usize = 0;
        while i < MAX_PACKETS
            invariant
                i <= MAX_PACKETS,
                inner@.len() == i,
                forall|j: int| 0 <= j < i ==> (#[trigger] inner@[j])@ == Seq::<u8>::empty(),
            decreases MAX_PACKETS - i,
        {
            inner.push(Vec::new());
            i += 1;
        }
        let r = Packets { inner };
        assert(r@ =~= empty_slots());
        r
    }

    /// The sequence that holds `slots`, if there are exactly
    /// [`MAX_PACKETS`] of them.
    pub fn from_slots(slots: Vec<Vec<u8>>) -> (r: Option<Self>)
        ensures
            r is Some <==> slots@.len() == MAX_PACKETS,
            r matches Some(p) ==> p@ == contents(slots@),
    {
        if slots.len() == MAX_PACKETS {
            let p = Packets { inner: slots };
            assert(p@ =~= contents(slots@));
            Some(p)
        } else {
            None
        }
    }

    /// A copy of the slots, empty ones included.
    pub fn to_slots(&self) -> (r: Vec<Vec<u8>>)
        ensures
            contents(r@) == self@,
    {
        proof {
            use_type_invariant(self);
        }
        let mut slots: Vec<Vec<u8>> = Vec::new();
        let mut i: usize = 0;
        while i < MAX_PACKETS
            invariant
                i <= MAX_PACKETS,
                self.inner@.len() == MAX_PACKETS,
                slots@.len() == i,
                forall|j: int| 0 <= j < i ==> (#[trigger] slots@[j])@ == self.inner@[j]@,
            decreases MAX_PACKETS - i,
        {
            let copy = self.inner[i].clone();
            assert(copy@ =~= self.inner@[i as int]@);
            slots.push(copy);
            i += 1;
        }
        assert(contents(slots@) =~= self@);
        slots
    }

    /// The bytes in slot `index`.
    pub fn slot(&self, index: usize) -> (r: &Vec<u8>)
        requires
            index < MAX_PACKETS,
        ensures
            r@ == self@[index as int],
    {
        proof {
            use_type_invariant(self);
        }
        &self.inner[index]
    }

    /// Puts `packet` into the lowest empty slot; does nothing when every
    /// slot is taken.
    pub fn append(&mut self, packet: &[u8])
        ensures
            final(self)@ == appended(old(self)@, packet@),
    {
        proof {
            use_type_invariant(&*self);
        }
        let mut i: usize = 0;
        while i < MAX_PACKETS
            invariant
                i <= MAX_PACKETS,
                self.inner@.len() == MAX_PACKETS,
                self@ == old(self)@,
                forall|j: int| 0 <= j < i ==> (#[trigger] self@[j]).len() > 0,
            decreases MAX_PACKETS - i,
        {
            if self.inner[i].len() == 0 {
                proof {
                    lemma_lowest_empty_unique(self@, i as int);
                }
                let copy = vstd::slice::slice_to_vec(packet);
                self.inner[i] = copy;
                assert(self@ =~= old(self)@.update(i as int, packet@));
                return ;
            }
            i += 1;
        }
    }

    /// Whether every slot holds a packet.
    pub fn is_full(&self) -> (r: bool)
        ensures
            r == all_nonempty(self@),
            r == (count_nonempty(self@) == MAX_PACKETS),
    {
        proof {
            use_type_invariant(self);
        }
        let mut i: usize = 0;
        while i < MAX_PACKETS
            invariant
                i <= MAX_PACKETS,
                self.inner@.len() == MAX_PACKETS,
                forall|j: int| 0 <= j < i ==> (#[trigger] self@[j]).len() > 0,
            decreases MAX_PACKETS - i,
        {
            if self.inner[i].len() == 0 {
                proof {
                    assert(self@[i as int].len() == 0);
                    lemma_full_iff_count(self@);
                }
                return false;
            }
            i += 1;
        }
        proof {
            lemma_full_iff_count(self@);
        }
        true
    }

    /// The number of non-empty slots.
    pub fn size(&self) -> (r: usize)
        ensures
            r == count_nonempty(self@),
            r <= MAX_PACKETS,
    {
        proof {
            use_type_invariant(self);
        }
        let mut count: usize = 0;
        let mut i: usize = 0;
        while i < MAX_PACKETS
            invariant
                i <= MAX_PACKETS,
                self.inner@.len() == MAX_PACKETS,
                count == count_nonempty(self@.take(i as int)),
                count <= i,
            decreases MAX_PACKETS - i,
        {
            proof {
                lemma_count_prefix(self@, i as int);
            }
            if self.inner[i].len() > 0 {
                count += 1;
            }
            i += 1;
        }
        assert(self@.take(MAX_PACKETS as int) =~= self@);
        count
    }

    /// The index of the slot that holds the `n`-th packet, counting from
    /// zero.
    pub fn nth_slot(&self, n: usize) -> (r: usize)
        requires
            n < count_nonempty(self@),
        ensures
            r < MAX_PACKETS,
            is_nth_nonempty(self@, n as int, r as int),
            r == nth_nonempty(self@, n as int),
    {
        proof {
            use_type_invariant(self);
        }
        let mut seen: usize = 0;
        let mut i: usize = 0;
        while i < MAX_PACKETS
            invariant
                i <= MAX_PACKETS,
                self.inner@.len() == MAX_PACKETS,
                seen == count_nonempty(self@.take(i as int)),
                seen <= n,
                n < count_nonempty(self@),
            decreases MAX_PACKETS - i,
        {
            proof {
                lemma_count_prefix(self@, i as int);
            }
            if self.inner[i].len() > 0 {
                if seen == n {
                    proof {
                        lemma_nth_nonempty_unique(self@, n as int, i as int);
                    }
                    return i;
                }
                seen += 1;
            }
            i += 1;
        }
        proof {
            assert(self@.take(MAX_PACKETS as int) =~= self@);
            assert(false);
        }
        0
    }

    /// Mutable access to the bytes in slot `index`.
    pub fn slot_mut(&mut self, index: usize) -> (r: &mut Vec<u8>)
        requires
            index < MAX_PACKETS,
        ensures
            r@ == old(self)@[index as int],
            final(self)@ == old(self)@.update(index as int, final(r)@),
    {
        proof {
            use_type_invariant(&*self);
        }
        &mut self.inner[index]
    }

    /// Mutable access to the `n`-th packet, counting from zero.
    pub fn nth_mut(&mut self, n: usize) -> (r: &mut Vec<u8>)
        requires
            n < count_nonempty(old(self)@),
        ensures
            is_nth_nonempty(old(self)@, n as int, nth_nonempty(old(self)@, n as int)),
            r@ == old(self)@[nth_nonempty(old(self)@, n as int)],
            final(self)@ == old(self)@.update(nth_nonempty(old(self)@, n as int), final(r)@),
    {
        let index = self.nth_slot(n);
        self.slot_mut(index)
    }
}

impl Packets {
    /// The packets as hexadecimal text, one line each.
    pub fn to_string(&self) -> (r: String)
        ensures
            r@ == hex_lines(self@),
    {
        proof {
            use_type_invariant(self);
            assert(self@.take(0) =~= Seq::<Seq<u8>>::empty());
        }
        let mut s = String::new();
        let mut i: usize = 0;
        while i < MAX_PACKETS
            invariant
                i <= MAX_PACKETS,
                self.inner@.len() == MAX_PACKETS,
                s@ == hex_lines(self@.take(i as int)),
            decreases MAX_PACKETS - i,
        {
            proof {
                assert(self@.take(i + 1).drop_last() =~= self@.take(i as int));
                assert(self@.take(i + 1).last() == self@[i as int]);
            }
            if self.inner[i].len() > 0 {
                let line = hex_encode(self.inner[i].as_slice());
                s.append(line.as_str());
                s.append("\n");
                proof {
                    reveal_strlit("\n");
                    assert("\n"@ =~= seq!['\n']);
                }
            }
            i += 1;
        }
        assert(self@.take(MAX_PACKETS as int) =~= self@);
        s
    }
}

impl Clone for Packets {
    fn clone(&self) -> (r: Self)
        ensures
            r@ == self@,
    {
        let slots = self.to_slots();
        proof {
            use_type_invariant(self);
            assert(contents(slots@).len() == MAX_PACKETS);
        }
        let r = Packets { inner: slots };
        assert(r@ =~= self@);
        r
    }
}

impl Default for Packets {
    fn default() -> (r: Self)
        ensures
            r@ == empty_slots(),
    {
        Packets::new()
    }
}

} // verus!
