use vstd::prelude::*;

verus! {

/// Per-item record of when an item last jumped (was moved to a position
/// disjoint from its previous one), in iterations of the weight updates.
/// An item stays on cooldown for `cooldown` iterations after a jump.
pub struct JumpCooldown {
    last_jump_iter: Vec<usize>,
    current_iter: usize,
    cooldown: usize,
}

impl JumpCooldown {
    /// No item ever jumps in the future: every recorded jump lies at or
    /// before the current iteration.
    #[verifier::type_invariant]
    spec fn inv(self) -> bool {
        forall|i: int|
            0 <= i < self.last_jump_iter@.len() ==> #[trigger] self.last_jump_iter@[i]
                <= self.current_iter
    }

    /// Iteration of the last jump of each item.
    pub closed spec fn last_jumps(self) -> Seq<usize> {
        self.last_jump_iter@
    }

    /// The current iteration.
    pub closed spec fn iter(self) -> nat {
        self.current_iter as nat
    }

    /// Length of the cooldown.
    pub closed spec fn cooldown_len(self) -> nat {
        self.cooldown as nat
    }

    /// Whether item `idx` jumped fewer than `cooldown` iterations ago.
    pub open spec fn on_cooldown(self, idx: int) -> bool {
        self.iter() - self.last_jumps()[idx] < self.cooldown_len()
    }

    /// Tracking for `n_items` items, none of which is on cooldown: the
    /// counter starts `cooldown` iterations after their (virtual) last jump.
    pub fn new(n_items: usize, cooldown: usize) -> (j: Self)
        ensures
            j.last_jumps() == Seq::new(n_items as nat, |i: int| 0usize),
            j.iter() == cooldown,
            j.cooldown_len() == cooldown,
            forall|i: int| 0 <= i < n_items ==> !#[trigger] j.on_cooldown(i),
    {
        let mut last_jump_iter: Vec<usize> = Vec::with_capacity(n_items);
        let mut i: usize = 0;
        while i < n_items
            invariant
                i <= n_items,
                last_jump_iter@ == Seq::new(i as nat, |i: int| 0usize),
            decreases n_items - i,
        {
            last_jump_iter.push(0);
            i = i + 1;
            assert(last_jump_iter@ =~= Seq::new(i as nat, |i: int| 0usize));
        }
        JumpCooldown { last_jump_iter, current_iter: cooldown, cooldown }
    }

    /// Records that item `idx` jumps now.
    pub fn register_jump(&mut self, idx: usize)
        requires
            idx < old(self).last_jumps().len(),
        ensures
            final(self).last_jumps() == old(self).last_jumps().update(idx as int, old(self).iter() as usize),
            final(self).iter() == old(self).iter(),
            final(self).cooldown_len() == old(self).cooldown_len(),
            final(self).on_cooldown(idx as int) == (old(self).cooldown_len() > 0),
    {
        proof {
            use_type_invariant(&*self);
        }
        let mut last = Vec::new();
        std::mem::swap(&mut last, &mut self.last_jump_iter);
        last.set(idx, self.current_iter);
        *self = JumpCooldown { last_jump_iter: last, current_iter: self.current_iter, cooldown: self.cooldown };
    }

    /// Whether item `idx` jumped fewer than `cooldown` iterations ago.
    pub fn is_on_jump_cooldown(&self, idx: usize) -> (r: bool)
        requires
            idx < self.last_jumps().len(),
        ensures
            r == self.on_cooldown(idx as int),
            r <==> self.iter() < self.last_jumps()[idx as int] + self.cooldown_len(),
    {
        proof {
            use_type_invariant(self);
        }
        self.current_iter - self.last_jump_iter[idx] < self.cooldown
    }

    /// Moves on to the next iteration.
    pub fn next_iter(&mut self)
        requires
            old(self).iter() < usize::MAX,
        ensures
            final(self).last_jumps() == old(self).last_jumps(),
            final(self).iter() == old(self).iter() + 1,
            final(self).cooldown_len() == old(self).cooldown_len(),
    {
        proof {
            use_type_invariant(&*self);
        }
        let current_iter = self.current_iter + 1;
        let mut last = Vec::new();
        std::mem::swap(&mut last, &mut self.last_jump_iter);
        *self = JumpCooldown { last_jump_iter: last, current_iter, cooldown: self.cooldown };
    }

    /// Skips a whole cooldown ahead, so that no item is on cooldown any more.
    pub fn fast_forward(&mut self)
        requires
            old(self).iter() + old(self).cooldown_len() <= usize::MAX,
        ensures
            final(self).last_jumps() == old(self).last_jumps(),
            final(self).iter() == old(self).iter() + old(self).cooldown_len(),
            final(self).cooldown_len() == old(self).cooldown_len(),
            forall|i: int| 0 <= i < final(self).last_jumps().len() ==> !#[trigger] final(self).on_cooldown(i),
    {
        proof {
            use_type_invariant(&*self);
        }
        let current_iter = self.current_iter + self.cooldown;
        let mut last = Vec::new();
        std::mem::swap(&mut last, &mut self.last_jump_iter);
        *self = JumpCooldown { last_jump_iter: last, current_iter, cooldown: self.cooldown };
    }
}

/// An item whose last jump lies `d` iterations before the current one is on
/// cooldown exactly when `d` is less than the cooldown length: right after a
/// jump and for the `cooldown - 1` iterations that follow, and no longer.
pub proof fn lemma_cooldown_window(j: JumpCooldown, idx: int, d: nat)
    requires
        0 <= idx < j.last_jumps().len(),
        j.last_jumps()[idx] + d == j.iter(),
    ensures
        j.on_cooldown(idx) <==> d < j.cooldown_len(),
{
}

/// Jumping and then moving on `d` iterations leaves the item on cooldown
/// exactly when `d` is less than the cooldown length, whatever the item's
/// earlier jumps.
pub proof fn lemma_jump_then_wait(before: JumpCooldown, jumped: JumpCooldown, later: JumpCooldown, idx: int, d: nat)
    requires
        0 <= idx < before.last_jumps().len(),
        jumped.last_jumps() == before.last_jumps().update(idx, before.iter() as usize),
        jumped.iter() == before.iter(),
        jumped.cooldown_len() == before.cooldown_len(),
        later.last_jumps() == jumped.last_jumps(),
        later.iter() == jumped.iter() + d,
        later.cooldown_len() == jumped.cooldown_len(),
    ensures
        later.on_cooldown(idx) <==> d < before.cooldown_len(),
{
    lemma_cooldown_window(later, idx, d);
}

} // verus!
