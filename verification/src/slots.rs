//! The slot pool: the fixed, ordered list of remote storage identifiers used
//! as the downlink relay medium, together with the round-robin cursor.
//!
//! Identifiers are held as byte strings. The pool is created once, from the
//! identifiers that already exist remotely, and its list never changes; only
//! the cursor moves, and it only moves forward modulo the pool size.

use vstd::prelude::*;

verus! {

pub struct SlotPool {
    pub ids: Vec<Vec<u8>>,
    pub cursor: usize,
}

impl SlotPool {
    /// The ordered slot identifiers.
    pub open spec fn ids(self) -> Seq<Seq<u8>> {
        self.ids.deep_view()
    }

    /// The index of the slot the next batch will be written to.
    pub open spec fn cursor(self) -> int {
        self.cursor as int
    }

    /// How many slots the pool rotates through.
    pub open spec fn count(self) -> int {
        self.ids@.len() as int
    }

    /// A pool is well formed when it has at least one slot and the cursor
    /// points at one of them.
    pub open spec fn wf(self) -> bool {
        self.ids@.len() > 0 && (self.cursor as int) < self.ids@.len()
    }

    pub fn new(ids: Vec<Vec<u8>>) -> (pool: SlotPool)
        requires
            ids@.len() > 0,
        ensures
            pool.wf(),
            pool.ids() == ids.deep_view(),
            pool.count() == ids@.len(),
            pool.cursor() == 0,
    {
        SlotPool { ids, cursor: 0 }
    }

    pub fn file_count(&self) -> (n: usize)
        ensures
            n == self.count(),
    {
        self.ids.len()
    }

    pub fn current_index(&self) -> (i: usize)
        ensures
            i == self.cursor(),
    {
        self.cursor
    }

    /// The identifier the next batch will be written to.
    pub fn current_id(&self) -> (id: &Vec<u8>)
        requires
            self.wf(),
        ensures
            id.deep_view() == self.ids()[self.cursor()],
    {
        &self.ids[self.cursor]
    }

    /// Advance the cursor one step, wrapping at the pool size. This happens
    /// after every closed non-empty batch, whether or not its upload
    /// succeeded.
    pub fn advance(&mut self)
        requires
            old(self).wf(),
        ensures
            final(self).wf(),
            final(self).ids() == old(self).ids(),
            final(self).count() == old(self).count(),
            final(self).cursor() == (old(self).cursor() + 1) % old(self).count(),
    {
        let n = self.ids.len();
        self.cursor = self.cursor + 1;
        if self.cursor == n {
            self.cursor = 0;
        }
        proof {
            if old(self).cursor() + 1 < old(self).count() {
                vstd::arithmetic::div_mod::lemma_small_mod(
                    (old(self).cursor() + 1) as nat,
                    old(self).count() as nat,
                );
            } else {
                vstd::arithmetic::div_mod::lemma_mod_self_0(old(self).count());
            }
        }
    }
}

/// The cursor value reached from `initial` after `steps` single advances in a
/// pool of `count` slots.
pub open spec fn cursor_after(initial: nat, steps: nat, count: nat) -> nat
    decreases steps,
{
    if steps == 0 {
        initial
    } else {
        (cursor_after(initial, (steps - 1) as nat, count) + 1) % count
    }
}

/// Round-robin rotation in closed form: advancing the cursor `steps` times
/// lands on `(initial + steps) % count`. Since every closed non-empty batch
/// advances the cursor exactly once, the batch closed after `n - 1` earlier
/// ones (successful or not) is written to slot
/// `(initial + n - 1) % count`.
pub proof fn lemma_cursor_after(initial: nat, steps: nat, count: nat)
    requires
        count > 0,
        initial < count,
    ensures
        cursor_after(initial, steps, count) == (initial + steps) % count,
    decreases steps,
{
    if steps == 0 {
        vstd::arithmetic::div_mod::lemma_small_mod(initial, count);
    } else {
        lemma_cursor_after(initial, (steps - 1) as nat, count);
        let a = initial + steps - 1;
        vstd::arithmetic::div_mod::lemma_add_mod_noop(a, 1, count as int);
        if count == 1 {
            vstd::arithmetic::div_mod::lemma_mod_self_0(1int);
            assert(cursor_after(initial, steps, count) == (a % 1 + 1) % 1);
            vstd::arithmetic::div_mod::lemma_mod_bound(a, 1);
            vstd::arithmetic::div_mod::lemma_mod_bound(a + 1, 1);
        } else {
            vstd::arithmetic::div_mod::lemma_small_mod(1, count);
        }
    }
}

/// The slot the Nth closed batch (counting from 1) is written to is
/// `(initial + n - 1) % count`. A failed upload advances the cursor exactly
/// as a successful one does, so this counts upload attempts; in a run whose
/// uploads all succeed it is also the slot of the Nth successful upload.
pub proof fn lemma_nth_upload_slot(initial: nat, n: nat, count: nat)
    requires
        count > 0,
        initial < count,
        n >= 1,
    ensures
        cursor_after(initial, (n - 1) as nat, count) == (initial + n - 1) % (count as int),
{
    lemma_cursor_after(initial, (n - 1) as nat, count);
}

} // verus!
