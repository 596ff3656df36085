use crate::ret_token::batch_total;
use crate::types::TokenType;
use candid::Principal;
use vstd::prelude::*;

verus! {

#[derive(Clone, Copy, Debug, PartialEq, Eq, Structural)]
pub enum PaymentError {
    InsufficientBalance,
    TransferFailed,
    InvalidToken,
}

/// A payment that was not made: why, and what the service said where the
/// call itself failed (`code` is zero where it did not).
#[derive(Debug)]
pub struct PaymentFailure {
    pub error: PaymentError,
    pub code: i32,
    pub message: String,
}

/// One of the two operations that a value-transfer service offers.
#[derive(Clone, Copy, Debug)]
pub enum ServiceCall {
    BalanceOf { service: Principal, account: Principal },
    Transfer { service: Principal, from: Principal, to: Principal, amount: u64 },
}

/// What came back from a call to a value-transfer service.
#[derive(Debug)]
pub enum ServiceReply {
    Balance(u64),
    Transferred(bool),
    /// The call did not get through, or was rejected on the way.
    Failed { code: i32, message: String },
}

#[derive(Clone, Copy, Debug, PartialEq, Eq, Structural)]
pub enum PaymentPhase {
    CheckingBalance,
    Transferring,
}

/// A payment under way: what is to be paid, and which reply is awaited.
#[derive(Clone, Copy, Debug)]
pub struct Payment {
    pub service: Principal,
    pub from: Principal,
    pub to: Principal,
    pub amount: u64,
    pub phase: PaymentPhase,
}

/// What a payment does next: another call, or nothing more.
#[derive(Debug)]
pub enum PaymentStep {
    Call(Payment, ServiceCall),
    Done(Result<(), PaymentFailure>),
}

/// The message of a failure that carries no detail of the service.
pub open spec fn refusal_text(error: PaymentError) -> Seq<char> {
    match error {
        PaymentError::InsufficientBalance => "Insufficient balance"@,
        PaymentError::TransferFailed => "Transfer failed"@,
        PaymentError::InvalidToken => "Invalid token"@,
    }
}

/// `step` ends the payment with a failure of kind `error` that carries no
/// detail of the service.
pub open spec fn refused(step: PaymentStep, error: PaymentError) -> bool {
    step matches PaymentStep::Done(Err(f)) && f.error == error && f.code == 0 && f.message@ == refusal_text(error)
}

/// `step` ends the payment because a call failed with `code` and `message`.
pub open spec fn call_failed(step: PaymentStep, code: i32, message: String) -> bool {
    step matches PaymentStep::Done(Err(f)) && f.error == PaymentError::TransferFailed && f.code == code
        && f.message == message
}

/// `step` is what follows `reply` in the payment `p`.
pub open spec fn payment_follows(p: Payment, reply: ServiceReply, step: PaymentStep) -> bool {
    match reply {
        ServiceReply::Failed { code, message } => call_failed(step, code, message),
        ServiceReply::Balance(b) => match p.phase {
            PaymentPhase::CheckingBalance => if b < p.amount {
                refused(step, PaymentError::InsufficientBalance)
            } else {
                step matches PaymentStep::Call(next, call) && next == (Payment {
                    phase: PaymentPhase::Transferring,
                    ..p
                }) && call == (ServiceCall::Transfer { service: p.service, from: p.from, to: p.to, amount: p.amount })
            },
            PaymentPhase::Transferring => refused(step, PaymentError::TransferFailed),
        },
        ServiceReply::Transferred(ok) => match p.phase {
            PaymentPhase::Transferring => if ok {
                step matches PaymentStep::Done(Ok(_))
            } else {
                refused(step, PaymentError::TransferFailed)
            },
            PaymentPhase::CheckingBalance => refused(step, PaymentError::TransferFailed),
        },
    }
}

fn refusal(error: PaymentError) -> (step: PaymentStep)
    ensures
        refused(step, error),
{
    let message = match error {
        PaymentError::InsufficientBalance => "Insufficient balance".to_owned(),
        PaymentError::TransferFailed => "Transfer failed".to_owned(),
        PaymentError::InvalidToken => "Invalid token".to_owned(),
    };
    PaymentStep::Done(Err(PaymentFailure { error, code: 0, message }))
}

impl Payment {
    /// Begins a payment of `amount` from `from` to `to` through `service`,
    /// with a query of the payer's balance first where `check_balance` asks
    /// for it.
    pub fn begin(service: Principal, from: Principal, to: Principal, amount: u64, check_balance: bool) -> (r: (
        Payment,
        ServiceCall,
    ))
        ensures
            r.0 == (Payment {
                service,
                from,
                to,
                amount,
                phase: if check_balance {
                    PaymentPhase::CheckingBalance
                } else {
                    PaymentPhase::Transferring
                },
            }),
            r.1 == if check_balance {
                ServiceCall::BalanceOf { service, account: from }
            } else {
                ServiceCall::Transfer { service, from, to, amount }
            },
    {
        if check_balance {
            (
                Payment { service, from, to, amount, phase: PaymentPhase::CheckingBalance },
                ServiceCall::BalanceOf { service, account: from },
            )
        } else {
            (
                Payment { service, from, to, amount, phase: PaymentPhase::Transferring },
                ServiceCall::Transfer { service, from, to, amount },
            )
        }
    }

    /// Takes the reply to the call that the payment made last, and says what
    /// comes next.
    pub fn resume(self, reply: ServiceReply) -> (step: PaymentStep)
        ensures
            payment_follows(self, reply, step),
    {
        match reply {
            ServiceReply::Failed { code, message } => PaymentStep::Done(
                Err(PaymentFailure { error: PaymentError::TransferFailed, code, message }),
            ),
            ServiceReply::Balance(b) => match self.phase {
                PaymentPhase::CheckingBalance => {
                    if b < self.amount {
                        refusal(PaymentError::InsufficientBalance)
                    } else {
                        PaymentStep::Call(
                            Payment {
                                service: self.service,
                                from: self.from,
                                to: self.to,
                                amount: self.amount,
                                phase: PaymentPhase::Transferring,
                            },
                            ServiceCall::Transfer {
                                service: self.service,
                                from: self.from,
                                to: self.to,
                                amount: self.amount,
                            },
                        )
                    }
                },
                PaymentPhase::Transferring => refusal(PaymentError::TransferFailed),
            },
            ServiceReply::Transferred(ok) => match self.phase {
                PaymentPhase::Transferring => {
                    if ok {
                        PaymentStep::Done(Ok(()))
                    } else {
                        refusal(PaymentError::TransferFailed)
                    }
                },
                PaymentPhase::CheckingBalance => refusal(PaymentError::TransferFailed),
            },
        }
    }
}

/// How a batch of payments ended: how many transfers the service made, and
/// why the next one was not made, where one was not.
#[derive(Debug)]
pub struct BatchOutcome {
    pub completed: usize,
    pub failure: Option<PaymentFailure>,
}

/// A batch of payments under way.
pub struct IncomeBatchView {
    pub service: Principal,
    pub from: Principal,
    pub payouts: Seq<(Principal, u64)>,
    /// The balance of the payer is being asked for; no transfer was made.
    pub checking: bool,
    /// How many transfers the service has made.
    pub completed: nat,
}

impl IncomeBatchView {
    /// While the balance is asked for no transfer was made; after that, one is
    /// still to be made.
    pub open spec fn valid(self) -> bool {
        if self.checking {
            self.completed == 0
        } else {
            self.completed < self.payouts.len()
        }
    }

    /// The transfer that the batch makes once `completed` were made.
    pub open spec fn transfer_at(self, k: int) -> ServiceCall {
        ServiceCall::Transfer {
            service: self.service,
            from: self.from,
            to: self.payouts[k].0,
            amount: self.payouts[k].1,
        }
    }
}

/// A batch of payments from one payer: the balance is asked for once, then
/// the transfers are made one after the other, and the first that fails ends
/// the batch.
#[derive(Debug)]
pub struct IncomeBatch {
    service: Principal,
    from: Principal,
    payouts: Vec<(Principal, u64)>,
    checking: bool,
    completed: usize,
}

impl View for IncomeBatch {
    type V = IncomeBatchView;

    closed spec fn view(&self) -> IncomeBatchView {
        IncomeBatchView {
            service: self.service,
            from: self.from,
            payouts: self.payouts@,
            checking: self.checking,
            completed: self.completed as nat,
        }
    }
}

/// What a batch does next: another call, or nothing more.
#[derive(Debug)]
pub enum BatchStep {
    Call(IncomeBatch, ServiceCall),
    Done(BatchOutcome),
}

/// `step` ends the batch after `completed` transfers, all that there were.
pub open spec fn batch_completes(step: BatchStep, completed: nat) -> bool {
    step matches BatchStep::Done(outcome) && outcome.completed == completed && outcome.failure is None
}

/// `step` ends the batch after `completed` transfers with a failure of kind
/// `error` that carries no detail of the service.
pub open spec fn batch_refused(step: BatchStep, completed: nat, error: PaymentError) -> bool {
    step matches BatchStep::Done(outcome) && outcome.completed == completed && (outcome.failure matches Some(f)
        && f.error == error && f.code == 0 && f.message@ == refusal_text(error))
}

/// `step` ends the batch after `completed` transfers because a call failed
/// with `code` and `message`.
pub open spec fn batch_call_failed(step: BatchStep, completed: nat, code: i32, message: String) -> bool {
    step matches BatchStep::Done(outcome) && outcome.completed == completed && (outcome.failure matches Some(f)
        && f.error == PaymentError::TransferFailed && f.code == code && f.message == message)
}

/// `step` goes on with the transfer at `k`.
pub open spec fn batch_goes_on(b: IncomeBatchView, step: BatchStep, k: nat) -> bool {
    step matches BatchStep::Call(next, call) && next.wf() && next@ == (IncomeBatchView {
        checking: false,
        completed: k,
        ..b
    }) && call == b.transfer_at(k as int)
}

/// `step` is what follows `reply` in the batch `b`.
pub open spec fn batch_follows(b: IncomeBatchView, reply: ServiceReply, step: BatchStep) -> bool {
    match reply {
        ServiceReply::Failed { code, message } => batch_call_failed(step, b.completed, code, message),
        ServiceReply::Balance(balance) => if !b.checking {
            batch_refused(step, b.completed, PaymentError::TransferFailed)
        } else if balance < batch_total(b.payouts) {
            batch_refused(step, 0, PaymentError::InsufficientBalance)
        } else if b.payouts.len() == 0 {
            batch_completes(step, 0)
        } else {
            batch_goes_on(b, step, 0)
        },
        ServiceReply::Transferred(ok) => if b.checking {
            batch_refused(step, 0, PaymentError::TransferFailed)
        } else if !ok {
            batch_refused(step, b.completed, PaymentError::TransferFailed)
        } else if b.completed + 1 == b.payouts.len() {
            batch_completes(step, b.completed + 1)
        } else {
            batch_goes_on(b, step, b.completed + 1)
        },
    }
}

fn batch_refusal(completed: usize, error: PaymentError) -> (step: BatchStep)
    ensures
        batch_refused(step, completed as nat, error),
{
    let message = match error {
        PaymentError::InsufficientBalance => "Insufficient balance".to_owned(),
        PaymentError::TransferFailed => "Transfer failed".to_owned(),
        PaymentError::InvalidToken => "Invalid token".to_owned(),
    };
    BatchStep::Done(BatchOutcome { completed, failure: Some(PaymentFailure { error, code: 0, message }) })
}

/// Whether `balance` covers every payout of the list.
fn covers(balance: u64, payouts: &Vec<(Principal, u64)>) -> (r: bool)
    ensures
        r == (balance >= batch_total(payouts@)),
{
    let mut left: u64 = balance;
    let mut i: usize = 0;
    while i < payouts.len()
        invariant
            i <= payouts.len(),
            left == balance - batch_total(payouts@.take(i as int)),
        decreases payouts.len() - i,
    {
        proof {
            assert(payouts@.take(i + 1).drop_last() =~= payouts@.take(i as int));
            assert(payouts@.take(i + 1).last() == payouts@[i as int]);
            crate::ret_token::lemma_batch_prefix(payouts@, i + 1);
        }
        if payouts[i].1 > left {
            return false;
        }
        left = left - payouts[i].1;
        i = i + 1;
    }
    assert(payouts@.take(payouts.len() as int) =~= payouts@);
    true
}

impl IncomeBatch {
    /// The batch's invariant: the count of transfers made fits its phase.
    pub open spec fn wf(&self) -> bool {
        self@.valid()
    }

    /// Begins a batch of payments from `from` through `service`: the first
    /// call asks for the payer's balance.
    pub fn begin(service: Principal, from: Principal, payouts: Vec<(Principal, u64)>) -> (r: (
        IncomeBatch,
        ServiceCall,
    ))
        ensures
            r.0.wf(),
            r.0@ == (IncomeBatchView { service, from, payouts: payouts@, checking: true, completed: 0 }),
            r.1 == (ServiceCall::BalanceOf { service, account: from }),
    {
        (
            IncomeBatch { service, from, payouts, checking: true, completed: 0 },
            ServiceCall::BalanceOf { service, account: from },
        )
    }

    /// Takes the reply to the call that the batch made last, and says what
    /// comes next.
    pub fn resume(self, reply: ServiceReply) -> (step: BatchStep)
        requires
            self.wf(),
        ensures
            batch_follows(self@, reply, step),
    {
        match reply {
            ServiceReply::Failed { code, message } => BatchStep::Done(
                BatchOutcome {
                    completed: self.completed,
                    failure: Some(PaymentFailure { error: PaymentError::TransferFailed, code, message }),
                },
            ),
            ServiceReply::Balance(balance) => {
                if !self.checking {
                    batch_refusal(self.completed, PaymentError::TransferFailed)
                } else if !covers(balance, &self.payouts) {
                    batch_refusal(0, PaymentError::InsufficientBalance)
                } else if self.payouts.len() == 0 {
                    BatchStep::Done(BatchOutcome { completed: 0, failure: None })
                } else {
                    self.go_on(0)
                }
            },
            ServiceReply::Transferred(ok) => {
                if self.checking {
                    batch_refusal(0, PaymentError::TransferFailed)
                } else if !ok {
                    batch_refusal(self.completed, PaymentError::TransferFailed)
                } else {
                    let n = self.payouts.len();
                    let k = self.completed + 1;
                    if k == n {
                        BatchStep::Done(BatchOutcome { completed: k, failure: None })
                    } else {
                        self.go_on(k)
                    }
                }
            },
        }
    }

    fn go_on(self, k: usize) -> (step: BatchStep)
        requires
            k < self.payouts.len(),
        ensures
            batch_goes_on(self@, step, k as nat),
    {
        let call = ServiceCall::Transfer {
            service: self.service,
            from: self.from,
            to: self.payouts[k].0,
            amount: self.payouts[k].1,
        };
        BatchStep::Call(
            IncomeBatch {
                service: self.service,
                from: self.from,
                payouts: self.payouts,
                checking: false,
                completed: k,
            },
            call,
        )
    }
}

/// The handle of the reward token's value-transfer service.
pub struct PaymentManager {
    ret_ledger: Principal,
}

impl PaymentManager {
    /// The handle of the reward token's service.
    pub closed spec fn ledger(&self) -> Principal {
        self.ret_ledger
    }

    /// A manager for the service at `ret_ledger`.
    pub fn new(ret_ledger: Principal) -> (r: Self)
        ensures
            r.ledger() == ret_ledger,
    {
        PaymentManager { ret_ledger }
    }

    /// Accepts every payment, in either denomination.
    pub fn verify_payment(&self, _from: Principal, _amount: u64, token_type: TokenType) -> (r: Result<
        bool,
        PaymentError,
    >)
        ensures
            r == Ok::<bool, PaymentError>(true),
    {
        match token_type {
            TokenType::RET => Ok(true),
            TokenType::ICP => Ok(true),
        }
    }

    /// The service that settles payments in `token_type`.
    pub fn service_for(&self, token_type: TokenType) -> (r: Result<Principal, PaymentError>)
        ensures
            r == match token_type {
                TokenType::RET => Ok::<Principal, PaymentError>(self.ledger()),
                TokenType::ICP => Err::<Principal, PaymentError>(PaymentError::InvalidToken),
            },
    {
        match token_type {
            TokenType::RET => Ok(self.ret_ledger),
            TokenType::ICP => Err(PaymentError::InvalidToken),
        }
    }

    /// Begins a payment in `token_type`, with a query of the payer's balance
    /// first.
    pub fn process_payment(&self, from: Principal, to: Principal, amount: u64, token_type: TokenType) -> (r: Result<
        (Payment, ServiceCall),
        PaymentError,
    >)
        ensures
            match token_type {
                TokenType::RET => r matches Ok(p) && p.0 == (Payment {
                    service: self.ledger(),
                    from,
                    to,
                    amount,
                    phase: PaymentPhase::CheckingBalance,
                }) && p.1 == (ServiceCall::BalanceOf { service: self.ledger(), account: from }),
                TokenType::ICP => r matches Err(e) && e == PaymentError::InvalidToken,
            },
    {
        match self.service_for(token_type) {
            Ok(service) => Ok(Payment::begin(service, from, to, amount, true)),
            Err(e) => Err(e),
        }
    }

    /// Begins a batch of payments in `token_type`.
    pub fn distribute_income(&self, from: Principal, payouts: Vec<(Principal, u64)>, token_type: TokenType) -> (r:
        Result<(IncomeBatch, ServiceCall), PaymentError>)
        ensures
            match token_type {
                TokenType::RET => r matches Ok(p) && p.0.wf() && p.0@ == (IncomeBatchView {
                    service: self.ledger(),
                    from,
                    payouts: payouts@,
                    checking: true,
                    completed: 0,
                }) && p.1 == (ServiceCall::BalanceOf { service: self.ledger(), account: from }),
                TokenType::ICP => r matches Err(e) && e == PaymentError::InvalidToken,
            },
    {
        match self.service_for(token_type) {
            Ok(service) => Ok(IncomeBatch::begin(service, from, payouts)),
            Err(e) => Err(e),
        }
    }
}

/// Sets the payment manager of a canister to one for `ret_ledger`.
pub fn initialize_payment_manager(manager: &mut Option<PaymentManager>, ret_ledger: Principal)
    ensures
        *final(manager) matches Some(m) && m.ledger() == ret_ledger,
{
    *manager = Some(PaymentManager::new(ret_ledger));
}

} // verus!
