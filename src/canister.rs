use vstd::prelude::*;

use crate::allocation_map::{entries_view, lookup, page_of, upsert, Entries};
use crate::distribution::{
    balance_spec, begin_spec, fee_spec, run_wf, transfer_spec, DistributionRun, Phase, Step,
};
use crate::state::{
    add_share_allocation, clear_all, empty_store, get_token_pid, get_user_shares, get_user_tokens,
    AirdropState, StoreView,
};
use crate::types::{anonymous_bytes, AirdropError, Identity};
use crate::utils::{authorization, not_anonymous, only_controller};

verus! {

/// The outcome of setting the ledger reference to `id`.
pub open spec fn check_set_token_canister_id(is_controller: bool, id: Seq<u8>) -> Result<(), AirdropError> {
    if !is_controller {
        Err(AirdropError::Unauthorized)
    } else if id == anonymous_bytes() {
        Err(AirdropError::ConfigurationError)
    } else {
        Ok(())
    }
}

/// Whether an allocation names the anonymous identity or a zero share.
pub open spec fn invalid_allocation(e: (Seq<u8>, u64)) -> bool {
    e.1 == 0 || e.0 == anonymous_bytes()
}

/// The outcome of adding the share allocations `allocations`.
pub open spec fn check_add_share_allocations(is_controller: bool, allocations: Entries) -> Result<
    (),
    AirdropError,
> {
    if !is_controller {
        Err(AirdropError::Unauthorized)
    } else if exists|i: int| 0 <= i < allocations.len() && #[trigger] invalid_allocation(allocations[i]) {
        Err(AirdropError::ConfigurationError)
    } else {
        Ok(())
    }
}

/// The shares after recording each of `allocations` in order.
pub open spec fn upsert_all(s: Entries, allocations: Entries) -> Entries
    decreases allocations.len(),
{
    if allocations.len() == 0 {
        s
    } else {
        let init = upsert_all(s, allocations.drop_last());
        upsert(init, allocations.last().0, allocations.last().1)
    }
}

/// The state after a reset requested by a caller.
pub open spec fn reset_spec(st: StoreView, is_controller: bool) -> StoreView {
    if is_controller {
        empty_store()
    } else {
        st
    }
}

/// Resetting twice in a row leaves the same state as resetting once.
pub proof fn lemma_reset_idempotent(st: StoreView, is_controller: bool)
    ensures
        reset_spec(reset_spec(st, is_controller), is_controller) == reset_spec(st, is_controller),
{
}

/// The airdrop service: its own identity and its state. Every mutating
/// entry point has a `validate_` twin that decides alike and changes
/// nothing.
pub struct Airdrop {
    id: Identity,
    state: AirdropState,
}

impl View for Airdrop {
    type V = StoreView;

    closed spec fn view(&self) -> StoreView {
        self.state@
    }
}

impl Airdrop {
    /// The service's own identity.
    pub closed spec fn own_id(&self) -> Seq<u8> {
        self.id@
    }

    /// The state's maps have unique keys.
    pub closed spec fn wf(&self) -> bool {
        self.state.wf()
    }

    /// A service with identity `id`, no ledger configured and no entries.
    pub fn new(id: Identity) -> (r: Airdrop)
        ensures
            r.wf(),
            r@ == empty_store(),
            r.own_id() == id@,
    {
        Airdrop { id, state: AirdropState::new() }
    }

    /// Sets the ledger reference.
    pub fn set_token_canister_id(&mut self, is_controller: bool, id: Identity) -> (r: Result<
        (),
        AirdropError,
    >)
        ensures
            r == check_set_token_canister_id(is_controller, id@),
            final(self).wf() == old(self).wf(),
            final(self).own_id() == old(self).own_id(),
            final(self)@ == (if r is Ok {
                StoreView { ledger: id@, ..old(self)@ }
            } else {
                old(self)@
            }),
    {
        let checked = self.validate_set_token_canister_id(is_controller, id.duplicate());
        if checked.is_err() {
            return checked;
        }
        self.state.set_token_pid(id);
        Ok(())
    }

    /// Decides as `set_token_canister_id` would, changing nothing.
    pub fn validate_set_token_canister_id(&self, is_controller: bool, id: Identity) -> (r: Result<
        (),
        AirdropError,
    >)
        ensures
            r == check_set_token_canister_id(is_controller, id@),
    {
        let auth = only_controller(is_controller);
        if auth.is_err() {
            return auth;
        }
        not_anonymous(&id)
    }

    /// Records each of `allocations` as a share, overwriting earlier shares
    /// of the same participants.
    pub fn add_share_allocations(&mut self, is_controller: bool, allocations: Vec<(Identity, u64)>) -> (r:
        Result<(), AirdropError>)
        requires
            old(self).wf(),
        ensures
            r == check_add_share_allocations(is_controller, entries_view(allocations@)),
            final(self).wf(),
            final(self).own_id() == old(self).own_id(),
            final(self)@ == (if r is Ok {
                StoreView {
                    shares: upsert_all(old(self)@.shares, entries_view(allocations@)),
                    ..old(self)@
                }
            } else {
                old(self)@
            }),
    {
        let ghost a = entries_view(allocations@);
        let checked = self.validate_add_share_allocations(is_controller, &allocations);
        if checked.is_err() {
            return checked;
        }
        let mut i: usize = 0;
        while i < allocations.len()
            invariant
                a == entries_view(allocations@),
                0 <= i <= a.len(),
                self.wf(),
                self.own_id() == old(self).own_id(),
                self@ == (StoreView {
                    shares: upsert_all(old(self)@.shares, a.subrange(0, i as int)),
                    ..old(self)@
                }),
            decreases a.len() - i,
        {
            assert(a.subrange(0, i + 1).drop_last() =~= a.subrange(0, i as int));
            let user = allocations[i].0.duplicate();
            add_share_allocation(&mut self.state, user, allocations[i].1);
            i = i + 1;
        }
        assert(a.subrange(0, a.len() as int) =~= a);
        Ok(())
    }

    /// Decides as `add_share_allocations` would, changing nothing.
    pub fn validate_add_share_allocations(&self, is_controller: bool, allocations: &Vec<(Identity, u64)>) -> (r:
        Result<(), AirdropError>)
        ensures
            r == check_add_share_allocations(is_controller, entries_view(allocations@)),
    {
        let ghost a = entries_view(allocations@);
        let auth = only_controller(is_controller);
        if auth.is_err() {
            return auth;
        }
        let mut i: usize = 0;
        while i < allocations.len()
            invariant
                is_controller,
                a == entries_view(allocations@),
                0 <= i <= a.len(),
                forall|j: int| 0 <= j < i ==> !#[trigger] invalid_allocation(a[j]),
            decreases a.len() - i,
        {
            assert(a[i as int] == (allocations@[i as int].0@, allocations@[i as int].1));
            if allocations[i].1 == 0 || allocations[i].0.is_anonymous() {
                assert(invalid_allocation(a[i as int]));
                return Err(AirdropError::ConfigurationError);
            }
            i = i + 1;
        }
        Ok(())
    }

    /// Clears the ledger reference and every allocation.
    pub fn reset(&mut self, is_controller: bool) -> (r: Result<(), AirdropError>)
        requires
            old(self).wf(),
        ensures
            r == authorization(is_controller),
            final(self).wf(),
            final(self).own_id() == old(self).own_id(),
            final(self)@ == reset_spec(old(self)@, is_controller),
    {
        let auth = self.validate_reset(is_controller);
        if auth.is_err() {
            return auth;
        }
        clear_all(&mut self.state);
        Ok(())
    }

    /// Decides as `reset` would, changing nothing.
    pub fn validate_reset(&self, is_controller: bool) -> (r: Result<(), AirdropError>)
        ensures
            r == authorization(is_controller),
    {
        only_controller(is_controller)
    }

    /// Starts a distribution run that pays every participant in proportion
    /// to their share. The driver makes each call the run asks for and hands
    /// back its reply.
    pub fn distribute(&self, is_controller: bool) -> (r: (DistributionRun, Step))
        ensures
            (r.0@, r.1@) == begin_spec(is_controller, true, self@.ledger, self.own_id()),
            run_wf(r.0@),
    {
        DistributionRun::start(&self.state, &self.id, is_controller, true)
    }

    /// Starts a run that decides as `distribute` would, then stops before
    /// any transfer.
    pub fn validate_distribute(&self, is_controller: bool) -> (r: (DistributionRun, Step))
        ensures
            (r.0@, r.1@) == begin_spec(is_controller, false, self@.ledger, self.own_id()),
            run_wf(r.0@),
    {
        DistributionRun::start(&self.state, &self.id, is_controller, false)
    }

    /// Hands a run the reply to its balance query.
    pub fn receive_balance(&self, run: &mut DistributionRun, reply: Result<u64, AirdropError>) -> (r: Step)
        requires
            self.wf(),
            run_wf(old(run)@),
            old(run)@.phase == Phase::AwaitBalance,
        ensures
            (final(run)@, r@) == balance_spec(old(run)@, self@.shares, reply),
            run_wf(final(run)@),
    {
        run.on_balance(&self.state, reply)
    }

    /// Hands a run the reply to its fee query.
    pub fn receive_fee(&self, run: &mut DistributionRun, reply: Result<u64, AirdropError>) -> (r: Step)
        requires
            run_wf(old(run)@),
            old(run)@.phase == Phase::AwaitFee,
        ensures
            (final(run)@, r@) == fee_spec(old(run)@, reply),
            run_wf(final(run)@),
    {
        run.on_fee(reply)
    }

    /// Hands a run the outcome of the transfer it asked for, and records
    /// the payout when it was delivered or when its attempts ran out.
    pub fn receive_transfer(&mut self, run: &mut DistributionRun, reply: Result<(), AirdropError>) -> (r:
        Step)
        requires
            old(self).wf(),
            run_wf(old(run)@),
            old(run)@.phase == Phase::Transferring,
        ensures
            final(self).wf(),
            final(self).own_id() == old(self).own_id(),
            (final(run)@, final(self)@, r@) == transfer_spec(old(run)@, old(self)@, reply is Ok),
            run_wf(final(run)@),
    {
        run.on_transfer(&mut self.state, reply)
    }

    /// The ledger reference, unless it is unset.
    pub fn get_token_canister_id(&self) -> (r: Option<Identity>)
        ensures
            match r {
                Some(id) => id@ == self@.ledger && self@.ledger != anonymous_bytes(),
                None => self@.ledger == anonymous_bytes(),
            },
    {
        let id = get_token_pid(&self.state);
        if id.is_anonymous() {
            return None;
        }
        Some(id)
    }

    /// The share recorded for `user`.
    pub fn get_user_share_allocation(&self, user: Identity) -> (r: Option<u64>)
        requires
            self.wf(),
        ensures
            r == lookup(self@.shares, user@),
    {
        get_user_shares(&self.state, &user)
    }

    /// The amount recorded as paid to `user`.
    pub fn get_user_token_allocation(&self, user: Identity) -> (r: Option<u64>)
        requires
            self.wf(),
        ensures
            r == lookup(self@.tokens, user@),
    {
        get_user_tokens(&self.state, &user)
    }

    /// The page of share allocations that starts at `start_index`.
    pub fn get_shares_list(&self, start_index: u64) -> (r: Vec<(Identity, u64)>)
        ensures
            entries_view(r@) == page_of(self@.shares, start_index as int),
    {
        self.state.shares_page(start_index)
    }

    /// All interrupted distributions.
    pub fn get_interrupted_distributions(&self) -> (r: Vec<(Identity, u64)>)
        ensures
            entries_view(r@) == self@.interrupted,
    {
        self.state.all_interrupted()
    }

    /// The page of token allocations that starts at `start_index`.
    pub fn get_tokens_list(&self, start_index: u64) -> (r: Vec<(Identity, u64)>)
        ensures
            entries_view(r@) == page_of(self@.tokens, start_index as int),
    {
        self.state.tokens_page(start_index)
    }
}

} // verus!
