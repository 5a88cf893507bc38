use vstd::prelude::*;

use crate::allocation_map::{
    entries_view, has_key, keys_unique, lemma_remove_unique,
    lemma_upsert_unique, lookup, Entries,
};
use crate::payout::{compute_rate, payout_schedule, payouts, plan};
use crate::state::{get_all_share_allocations, get_token_pid, settle, AirdropState, StoreView};
use crate::types::{anonymous_bytes, AirdropError, Identity};
use crate::utils::{not_anonymous, only_controller};

verus! {

/// How many times a transfer to one participant is attempted before its
/// payout is parked as interrupted.
pub const MAX_TRANSFER_ATTEMPTS: u64 = 3;

/// Where a distribution run stands.
#[derive(Debug, Clone, Copy, PartialEq, Eq, Structural)]
pub enum Phase {
    /// Waiting for the service's balance on the ledger.
    AwaitBalance,
    /// Waiting for the ledger's per-transfer fee.
    AwaitFee,
    /// Waiting for the outcome of a transfer.
    Transferring,
    /// The run is over.
    Finished,
}

/// A call to the ledger service that the run asks its driver to make.
#[derive(Debug)]
pub enum LedgerCall {
    /// The balance of `account` on `ledger`.
    BalanceOf { ledger: Identity, account: Identity },
    /// The per-transfer fee of `ledger`.
    Fee { ledger: Identity },
    /// A transfer of `amount` to `to` on `ledger`.
    Transfer { ledger: Identity, to: Identity, amount: u64 },
}

/// What the driver of a run does next.
#[derive(Debug)]
pub enum Step {
    /// Make this call and hand its reply back to the run.
    Call(LedgerCall),
    /// The run is over, with this result.
    Done(Result<(), AirdropError>),
}

/// The mathematical form of a ledger call.
pub enum CallView {
    BalanceOf { ledger: Seq<u8>, account: Seq<u8> },
    Fee { ledger: Seq<u8> },
    Transfer { ledger: Seq<u8>, to: Seq<u8>, amount: u64 },
}

/// The mathematical form of a step.
pub enum StepView {
    Call(CallView),
    Done(Result<(), AirdropError>),
}

impl View for LedgerCall {
    type V = CallView;

    open spec fn view(&self) -> CallView {
        match self {
            LedgerCall::BalanceOf { ledger, account } => CallView::BalanceOf {
                ledger: ledger@,
                account: account@,
            },
            LedgerCall::Fee { ledger } => CallView::Fee { ledger: ledger@ },
            LedgerCall::Transfer { ledger, to, amount } => CallView::Transfer {
                ledger: ledger@,
                to: to@,
                amount: *amount,
            },
        }
    }
}

impl View for Step {
    type V = StepView;

    open spec fn view(&self) -> StepView {
        match self {
            Step::Call(c) => StepView::Call(c@),
            Step::Done(r) => StepView::Done(*r),
        }
    }
}

/// The mathematical form of a run.
pub struct RunView {
    /// Whether the run pays out, or only checks that it could.
    pub execute: bool,
    pub phase: Phase,
    /// The ledger the run calls.
    pub ledger: Seq<u8>,
    /// The gross balance reported by the ledger.
    pub balance: u64,
    /// The snapshot of the shares while the fee is awaited; the payouts
    /// once transfers start.
    pub schedule: Entries,
    /// The position in the schedule of the payout being transferred.
    pub next: int,
    /// How many transfers of that payout have failed.
    pub attempts: int,
}

/// The state of one distribution run, between the calls it asks for.
pub struct DistributionRun {
    execute: bool,
    phase: Phase,
    ledger: Identity,
    balance: u64,
    schedule: Vec<(Identity, u64)>,
    next: usize,
    attempts: u64,
}

impl View for DistributionRun {
    type V = RunView;

    closed spec fn view(&self) -> RunView {
        RunView {
            execute: self.execute,
            phase: self.phase,
            ledger: self.ledger@,
            balance: self.balance,
            schedule: entries_view(self.schedule@),
            next: self.next as int,
            attempts: self.attempts as int,
        }
    }
}

/// A run that is transferring has a payout at hand, has attempts left for
/// it, pays out for real and has a schedule with one entry per participant.
pub open spec fn run_wf(run: RunView) -> bool {
    &&& run.phase == Phase::Transferring ==> {
        &&& run.execute
        &&& 0 <= run.next < run.schedule.len()
        &&& 0 <= run.attempts < MAX_TRANSFER_ATTEMPTS
    }
    &&& run.phase == Phase::AwaitFee ==> run.schedule.len() > 0
    &&& keys_unique(run.schedule)
}

/// The run, finished with `outcome`.
pub open spec fn finish(run: RunView, outcome: Result<(), AirdropError>) -> (RunView, StepView) {
    (RunView { phase: Phase::Finished, ..run }, StepView::Done(outcome))
}

/// The transfer of payout `e` on `ledger`.
pub open spec fn transfer_call(ledger: Seq<u8>, e: (Seq<u8>, u64)) -> StepView {
    StepView::Call(CallView::Transfer { ledger, to: e.0, amount: e.1 })
}

/// The start of a run: the caller's authority and the ledger reference are
/// checked, then the service's balance is asked for.
pub open spec fn begin_spec(is_controller: bool, execute: bool, ledger: Seq<u8>, account: Seq<u8>) -> (
    RunView,
    StepView,
) {
    let run = RunView {
        execute,
        phase: Phase::AwaitBalance,
        ledger,
        balance: 0,
        schedule: Seq::empty(),
        next: 0,
        attempts: 0,
    };
    if !is_controller {
        finish(run, Err(AirdropError::Unauthorized))
    } else if ledger == anonymous_bytes() {
        finish(run, Err(AirdropError::ConfigurationError))
    } else {
        (run, StepView::Call(CallView::BalanceOf { ledger, account }))
    }
}

/// The balance has come: the shares are taken as they stand, and the fee is
/// asked for unless there are none.
pub open spec fn balance_spec(run: RunView, shares: Entries, reply: Result<u64, AirdropError>) -> (
    RunView,
    StepView,
) {
    match reply {
        Err(e) => finish(run, Err(e)),
        Ok(b) => if shares.len() == 0 {
            finish(run, Err(AirdropError::EmptyAllocationList))
        } else {
            (
                RunView { phase: Phase::AwaitFee, balance: b, schedule: shares, ..run },
                StepView::Call(CallView::Fee { ledger: run.ledger }),
            )
        },
    }
}

/// The fee has come: the run is planned; a checking run ends there, a paying
/// run starts on the first payout.
pub open spec fn fee_spec(run: RunView, reply: Result<u64, AirdropError>) -> (RunView, StepView) {
    match reply {
        Err(e) => finish(run, Err(e)),
        Ok(fee) => match plan(run.schedule, run.balance, fee) {
            Err(e) => finish(run, Err(e)),
            Ok(rate) => if !run.execute {
                finish(run, Ok(()))
            } else {
                let s = payouts(run.schedule, rate);
                (
                    RunView { phase: Phase::Transferring, schedule: s, next: 0, attempts: 0, ..run },
                    transfer_call(run.ledger, s[0]),
                )
            },
        },
    }
}

/// Moves on to the payout after the current one, or finishes.
pub open spec fn advance(run: RunView) -> (RunView, StepView) {
    let moved = RunView { next: run.next + 1, attempts: 0, ..run };
    if run.next + 1 >= run.schedule.len() {
        finish(moved, Ok(()))
    } else {
        (moved, transfer_call(run.ledger, run.schedule[run.next + 1]))
    }
}

/// A transfer has come back: a delivered payout is recorded as paid; a
/// failed one is tried again until the attempts run out, then parked.
pub open spec fn transfer_spec(run: RunView, st: StoreView, delivered: bool) -> (
    RunView,
    StoreView,
    StepView,
) {
    let e = run.schedule[run.next];
    if delivered {
        (advance(run).0, settle(st, e.0, e.1, true), advance(run).1)
    } else if run.attempts + 1 < MAX_TRANSFER_ATTEMPTS {
        (RunView { attempts: run.attempts + 1, ..run }, st, transfer_call(run.ledger, e))
    } else {
        (advance(run).0, settle(st, e.0, e.1, false), advance(run).1)
    }
}

/// The state after the payouts of `schedule` were attempted in order, the
/// `i`-th delivered when `delivered[i]`.
pub open spec fn settle_all(st: StoreView, schedule: Entries, delivered: Seq<bool>) -> StoreView
    decreases schedule.len(),
{
    if schedule.len() == 0 || delivered.len() == 0 {
        st
    } else {
        settle(
            settle_all(st, schedule.drop_last(), delivered.drop_last()),
            schedule.last().0,
            schedule.last().1,
            delivered.last(),
        )
    }
}

/// Every map of the state has at most one entry per identity.
pub open spec fn store_wf(st: StoreView) -> bool {
    keys_unique(st.shares) && keys_unique(st.tokens) && keys_unique(st.interrupted)
}

/// `k` has an entry in `s` exactly when `lookup` finds one.
proof fn lemma_has_key_lookup(s: Entries, k: Seq<u8>)
    ensures
        has_key(s, k) <==> lookup(s, k) is Some,
{
}

/// After the payouts of a run were attempted, the shares that remain are
/// exactly those of participants the run did not reach; each participant it
/// reached is recorded with their payout as paid when the transfer was
/// delivered, and as interrupted when it was not.
pub proof fn lemma_run_consumes_shares(st: StoreView, schedule: Entries, delivered: Seq<bool>)
    requires
        store_wf(st),
        keys_unique(schedule),
        schedule.len() == delivered.len(),
    ensures
        store_wf(settle_all(st, schedule, delivered)),
        forall|k: Seq<u8>|
            #![trigger has_key(settle_all(st, schedule, delivered).shares, k)]
            has_key(settle_all(st, schedule, delivered).shares, k) <==> (has_key(st.shares, k)
                && !has_key(schedule, k)),
        forall|i: int|
            0 <= i < schedule.len() && delivered[i] ==> #[trigger] lookup(
                settle_all(st, schedule, delivered).tokens,
                schedule[i].0,
            ) == Some(schedule[i].1),
        forall|i: int|
            0 <= i < schedule.len() && !delivered[i] ==> #[trigger] lookup(
                settle_all(st, schedule, delivered).interrupted,
                schedule[i].0,
            ) == Some(schedule[i].1),
    decreases schedule.len(),
{
    if schedule.len() > 0 {
        let s0 = schedule.drop_last();
        let d0 = delivered.drop_last();
        let n = schedule.len() - 1;
        let (k, a) = schedule.last();
        assert(keys_unique(s0));
        lemma_run_consumes_shares(st, s0, d0);
        let prev = settle_all(st, s0, d0);
        let cur = settle_all(st, schedule, delivered);
        assert(cur == settle(prev, k, a, delivered.last()));
        lemma_remove_unique(prev.shares, k);
        lemma_upsert_unique(prev.tokens, k, a);
        lemma_upsert_unique(prev.interrupted, k, a);
        assert forall|k2: Seq<u8>| #[trigger] has_key(cur.shares, k2) <==> (has_key(st.shares, k2)
            && !has_key(schedule, k2)) by {
            lemma_has_key_lookup(cur.shares, k2);
            lemma_has_key_lookup(prev.shares, k2);
            if has_key(s0, k2) {
                let j = choose|j: int| 0 <= j < s0.len() && s0[j].0 == k2;
                assert(schedule[j].0 == k2);
            }
            if has_key(schedule, k2) && k2 != k {
                let j = choose|j: int| 0 <= j < schedule.len() && schedule[j].0 == k2;
                assert(j != n);
                assert(s0[j].0 == k2);
            }
            if k2 == k {
                assert(schedule[n].0 == k2);
            }
        }
        assert forall|i: int| 0 <= i < schedule.len() && delivered[i] implies #[trigger] lookup(
            cur.tokens,
            schedule[i].0,
        ) == Some(schedule[i].1) by {
            if i < n {
                assert(s0[i] == schedule[i] && d0[i] == delivered[i]);
                assert(schedule[i].0 != k);
                if !delivered.last() {
                    assert(cur.tokens == prev.tokens);
                }
            }
        }
        assert forall|i: int| 0 <= i < schedule.len() && !delivered[i] implies #[trigger] lookup(
            cur.interrupted,
            schedule[i].0,
        ) == Some(schedule[i].1) by {
            if i < n {
                assert(s0[i] == schedule[i] && d0[i] == delivered[i]);
                assert(schedule[i].0 != k);
                assert(lookup(prev.interrupted, s0[i].0) == Some(s0[i].1));
                if delivered.last() {
                    assert(cur.interrupted == prev.interrupted);
                } else {
                    assert(cur.interrupted == crate::allocation_map::upsert(prev.interrupted, k, a));
                }
            } else {
                assert(!delivered.last());
                assert(cur.interrupted == crate::allocation_map::upsert(prev.interrupted, k, a));
            }
        }
    }
}

/// A checking run and a paying run decide alike: they start alike, react
/// alike to the balance, and on the fee either both refuse with the same
/// error, or the checking run reports success exactly where the paying run
/// starts its transfers.
pub proof fn lemma_validate_distribute_agrees(
    is_controller: bool,
    ledger: Seq<u8>,
    account: Seq<u8>,
    run: RunView,
    shares: Entries,
    balance_reply: Result<u64, AirdropError>,
    fee_reply: Result<u64, AirdropError>,
)
    ensures
        begin_spec(is_controller, true, ledger, account).1 == begin_spec(
            is_controller,
            false,
            ledger,
            account,
        ).1,
        balance_spec(RunView { execute: true, ..run }, shares, balance_reply).1 == balance_spec(
            RunView { execute: false, ..run },
            shares,
            balance_reply,
        ).1,
        ({
            let paying = fee_spec(RunView { execute: true, ..run }, fee_reply).1;
            let checking = fee_spec(RunView { execute: false, ..run }, fee_reply).1;
            &&& checking is Done
            &&& (checking == StepView::Done(Ok(())) <==> paying is Call)
            &&& (checking->Done_0 is Err ==> paying == checking)
        }),
{
}

/// Once transfers start, a run never ends in an error: a failed payout is
/// retried or parked, and the run goes on.
pub proof fn lemma_transfers_never_fail(run: RunView, st: StoreView, delivered: bool)
    requires
        run_wf(run),
        run.phase == Phase::Transferring,
    ensures
        transfer_spec(run, st, delivered).2 is Done ==> transfer_spec(run, st, delivered).2
            == StepView::Done(Ok(())),
{
}

impl DistributionRun {
    /// Where the run stands.
    pub fn phase(&self) -> (r: Phase)
        ensures
            r == self@.phase,
    {
        self.phase
    }

    /// Whether the run pays out, or only checks.
    pub fn is_paying(&self) -> (r: bool)
        ensures
            r == self@.execute,
    {
        self.execute
    }

    /// Starts a run over `state` for the service `account`; it pays out
    /// when `execute`.
    pub(crate) fn start(state: &AirdropState, account: &Identity, is_controller: bool, execute: bool) -> (r: (
        DistributionRun,
        Step,
    ))
        ensures
            (r.0@, r.1@) == begin_spec(is_controller, execute, state@.ledger, account@),
            run_wf(r.0@),
    {
        let ledger = get_token_pid(state);
        let mut run = DistributionRun {
            execute,
            phase: Phase::AwaitBalance,
            ledger,
            balance: 0,
            schedule: Vec::new(),
            next: 0,
            attempts: 0,
        };
        assert(entries_view(run.schedule@) =~= Seq::<(Seq<u8>, u64)>::empty());
        if let Err(e) = only_controller(is_controller) {
            run.phase = Phase::Finished;
            return (run, Step::Done(Err(e)));
        }
        if let Err(e) = not_anonymous(&run.ledger) {
            run.phase = Phase::Finished;
            return (run, Step::Done(Err(e)));
        }
        let call = LedgerCall::BalanceOf { ledger: run.ledger.duplicate(), account: account.duplicate() };
        (run, Step::Call(call))
    }

    /// Takes the reply to the balance query.
    pub(crate) fn on_balance(&mut self, state: &AirdropState, reply: Result<u64, AirdropError>) -> (r: Step)
        requires
            state.wf(),
            run_wf(old(self)@),
            old(self)@.phase == Phase::AwaitBalance,
        ensures
            (final(self)@, r@) == balance_spec(old(self)@, state@.shares, reply),
            run_wf(final(self)@),
    {
        proof {
            state.lemma_wf_keys();
        }
        match reply {
            Err(e) => {
                self.phase = Phase::Finished;
                Step::Done(Err(e))
            },
            Ok(b) => {
                let shares = get_all_share_allocations(state);
                if shares.len() == 0 {
                    self.phase = Phase::Finished;
                    return Step::Done(Err(AirdropError::EmptyAllocationList));
                }
                self.phase = Phase::AwaitFee;
                self.balance = b;
                self.schedule = shares;
                Step::Call(LedgerCall::Fee { ledger: self.ledger.duplicate() })
            },
        }
    }

    /// The transfer of the payout at hand.
    fn transfer_at_hand(&self) -> (r: Step)
        requires
            0 <= self@.next < self@.schedule.len(),
        ensures
            r@ == transfer_call(self@.ledger, self@.schedule[self@.next]),
    {
        let i = self.next;
        Step::Call(
            LedgerCall::Transfer {
                ledger: self.ledger.duplicate(),
                to: self.schedule[i].0.duplicate(),
                amount: self.schedule[i].1,
            },
        )
    }

    /// Takes the reply to the fee query.
    pub(crate) fn on_fee(&mut self, reply: Result<u64, AirdropError>) -> (r: Step)
        requires
            run_wf(old(self)@),
            old(self)@.phase == Phase::AwaitFee,
        ensures
            (final(self)@, r@) == fee_spec(old(self)@, reply),
            run_wf(final(self)@),
    {
        match reply {
            Err(e) => {
                self.phase = Phase::Finished;
                Step::Done(Err(e))
            },
            Ok(fee) => {
                match compute_rate(&self.schedule, self.balance, fee) {
                    Err(e) => {
                        self.phase = Phase::Finished;
                        Step::Done(Err(e))
                    },
                    Ok(rate) => {
                        if !self.execute {
                            self.phase = Phase::Finished;
                            return Step::Done(Ok(()));
                        }
                        let ghost s0 = self@.schedule;
                        let schedule = payout_schedule(&self.schedule, self.balance, fee, rate);
                        assert(keys_unique(payouts(s0, rate as int)));
                        self.schedule = schedule;
                        self.phase = Phase::Transferring;
                        self.next = 0;
                        self.attempts = 0;
                        self.transfer_at_hand()
                    },
                }
            },
        }
    }

    /// Moves past the payout at hand.
    fn advance_run(&mut self) -> (r: Step)
        requires
            run_wf(old(self)@),
            old(self)@.phase == Phase::Transferring,
        ensures
            (final(self)@, r@) == advance(old(self)@),
            run_wf(final(self)@),
    {
        let n = self.schedule.len();
        assert(self.schedule@.len() == self@.schedule.len());
        self.next = self.next + 1;
        self.attempts = 0;
        if self.next >= n {
            self.phase = Phase::Finished;
            return Step::Done(Ok(()));
        }
        self.transfer_at_hand()
    }

    /// Takes the outcome of a transfer and records the payout in `state`
    /// when it was delivered or when its attempts ran out.
    pub(crate) fn on_transfer(&mut self, state: &mut AirdropState, reply: Result<(), AirdropError>) -> (r:
        Step)
        requires
            old(state).wf(),
            run_wf(old(self)@),
            old(self)@.phase == Phase::Transferring,
        ensures
            final(state).wf(),
            (final(self)@, final(state)@, r@) == transfer_spec(old(self)@, old(state)@, reply is Ok),
            run_wf(final(self)@),
    {
        let i = self.next;
        if reply.is_ok() {
            state.record_delivered(&self.schedule[i].0, self.schedule[i].1);
            return self.advance_run();
        }
        if self.attempts + 1 < MAX_TRANSFER_ATTEMPTS {
            self.attempts = self.attempts + 1;
            return self.transfer_at_hand();
        }
        state.record_interrupted(&self.schedule[i].0, self.schedule[i].1);
        self.advance_run()
    }
}

} // verus!
