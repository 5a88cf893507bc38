use vstd::prelude::*;

use crate::allocation_map::{entries_view, keys_unique, lookup, upsert, AllocationMap, Entries};
use crate::types::{anonymous_bytes, Identity};

verus! {

/// The mathematical form of the airdrop's state.
pub struct StoreView {
    /// The bytes of the configured ledger's identity.
    pub ledger: Seq<u8>,
    /// Share allocations: each participant's weight in the next run.
    pub shares: Entries,
    /// Token allocations: what each participant has been paid.
    pub tokens: Entries,
    /// Payouts that were attempted and never confirmed.
    pub interrupted: Entries,
}

/// The state right after creation or reset: no ledger, no entries.
pub open spec fn empty_store() -> StoreView {
    StoreView {
        ledger: anonymous_bytes(),
        shares: Seq::empty(),
        tokens: Seq::empty(),
        interrupted: Seq::empty(),
    }
}

/// The airdrop's durable state.
pub struct AirdropState {
    token_pid: Identity,
    share_allocations: AllocationMap,
    token_allocations: AllocationMap,
    interrupted_distributions: AllocationMap,
}

impl View for AirdropState {
    type V = StoreView;

    closed spec fn view(&self) -> StoreView {
        StoreView {
            ledger: self.token_pid@,
            shares: self.share_allocations@,
            tokens: self.token_allocations@,
            interrupted: self.interrupted_distributions@,
        }
    }
}

impl AirdropState {
    /// Each of the three maps has at most one entry per identity.
    pub closed spec fn wf(&self) -> bool {
        &&& self.share_allocations.wf()
        &&& self.token_allocations.wf()
        &&& self.interrupted_distributions.wf()
    }

    /// Each map of a well-formed state has unique keys.
    pub proof fn lemma_wf_keys(&self)
        requires
            self.wf(),
        ensures
            keys_unique(self@.shares),
            keys_unique(self@.tokens),
            keys_unique(self@.interrupted),
    {
    }

    /// A fresh state: no ledger configured, no entries.
    pub fn new() -> (r: AirdropState)
        ensures
            r.wf(),
            r@ == empty_store(),
    {
        AirdropState {
            token_pid: Identity::anonymous(),
            share_allocations: AllocationMap::new(),
            token_allocations: AllocationMap::new(),
            interrupted_distributions: AllocationMap::new(),
        }
    }

    /// Configures the ledger.
    pub fn set_token_pid(&mut self, id: Identity)
        ensures
            final(self).wf() == old(self).wf(),
            final(self)@ == (StoreView { ledger: id@, ..old(self)@ }),
    {
        self.token_pid = id;
    }

    /// Records that `user` was paid `amount` and drops their share.
    pub fn record_delivered(&mut self, user: &Identity, amount: u64)
        requires
            old(self).wf(),
        ensures
            final(self).wf(),
            final(self)@ == settle(old(self)@, user@, amount, true),
    {
        self.share_allocations.remove(user);
        self.token_allocations.put(user.duplicate(), amount);
    }

    /// Records that the payout of `amount` to `user` was never confirmed and
    /// drops their share.
    pub fn record_interrupted(&mut self, user: &Identity, amount: u64)
        requires
            old(self).wf(),
        ensures
            final(self).wf(),
            final(self)@ == settle(old(self)@, user@, amount, false),
    {
        self.share_allocations.remove(user);
        self.interrupted_distributions.put(user.duplicate(), amount);
    }

    /// A page of the share allocations.
    pub fn shares_page(&self, start: u64) -> (r: Vec<(Identity, u64)>)
        ensures
            entries_view(r@) == crate::allocation_map::page_of(self@.shares, start as int),
    {
        self.share_allocations.page(start)
    }

    /// A page of the token allocations.
    pub fn tokens_page(&self, start: u64) -> (r: Vec<(Identity, u64)>)
        ensures
            entries_view(r@) == crate::allocation_map::page_of(self@.tokens, start as int),
    {
        self.token_allocations.page(start)
    }

    /// All interrupted distributions, in order.
    pub fn all_interrupted(&self) -> (r: Vec<(Identity, u64)>)
        ensures
            entries_view(r@) == self@.interrupted,
    {
        self.interrupted_distributions.to_vec()
    }
}

/// The state after the payout of `amount` to `user` was attempted: the share
/// is gone, and the amount is recorded as paid when `delivered`, else as
/// interrupted.
pub open spec fn settle(st: StoreView, user: Seq<u8>, amount: u64, delivered: bool) -> StoreView {
    if delivered {
        StoreView {
            shares: crate::allocation_map::remove_key(st.shares, user),
            tokens: upsert(st.tokens, user, amount),
            ..st
        }
    } else {
        StoreView {
            shares: crate::allocation_map::remove_key(st.shares, user),
            interrupted: upsert(st.interrupted, user, amount),
            ..st
        }
    }
}

/// Clears the ledger reference, the share and token allocations and the
/// interrupted distributions.
pub fn clear_all(state: &mut AirdropState)
    ensures
        final(state).wf(),
        final(state)@ == empty_store(),
{
    state.token_pid = Identity::anonymous();
    state.share_allocations.clear();
    state.token_allocations.clear();
    state.interrupted_distributions.clear();
}

/// The configured ledger's identity.
pub fn get_token_pid(state: &AirdropState) -> (r: Identity)
    ensures
        r@ == state@.ledger,
{
    state.token_pid.duplicate()
}

/// The share recorded for `user`.
pub fn get_user_shares(state: &AirdropState, user: &Identity) -> (r: Option<u64>)
    requires
        state.wf(),
    ensures
        r == lookup(state@.shares, user@),
{
    state.share_allocations.get(user)
}

/// All share allocations, in order.
pub fn get_all_share_allocations(state: &AirdropState) -> (r: Vec<(Identity, u64)>)
    ensures
        entries_view(r@) == state@.shares,
{
    state.share_allocations.to_vec()
}

/// Records `amount` as the share of `user`, overwriting any earlier one.
pub fn add_share_allocation(state: &mut AirdropState, user: Identity, amount: u64)
    requires
        old(state).wf(),
    ensures
        final(state).wf(),
        final(state)@ == (StoreView { shares: upsert(old(state)@.shares, user@, amount), ..old(state)@ }),
{
    state.share_allocations.put(user, amount);
}

/// The amount recorded as paid to `user`.
pub fn get_user_tokens(state: &AirdropState, user: &Identity) -> (r: Option<u64>)
    requires
        state.wf(),
    ensures
        r == lookup(state@.tokens, user@),
{
    state.token_allocations.get(user)
}

/// All token allocations, in order.
pub fn get_all_token_allocations(state: &AirdropState) -> (r: Vec<(Identity, u64)>)
    ensures
        entries_view(r@) == state@.tokens,
{
    state.token_allocations.to_vec()
}

/// Records `amount` as paid to `user`, overwriting any earlier amount.
pub fn add_token_allocation(state: &mut AirdropState, user: Identity, amount: u64)
    requires
        old(state).wf(),
    ensures
        final(state).wf(),
        final(state)@ == (StoreView { tokens: upsert(old(state)@.tokens, user@, amount), ..old(state)@ }),
{
    state.token_allocations.put(user, amount);
}

} // verus!
