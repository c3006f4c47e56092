//! What the fixture program does with labelled counters. An account that has
//! to lie at a searched address is refused when the search finds another
//! address or none.
use crate::address::{bump_if_at, bump_of, with_bump};
use crate::borsh_format::{counter_fits, counter_format, read_counter_front};
use crate::bytes::{
    copy_bytes, from_le64, le64, lemma_le64, overwrite, read_u64, u64_bytes, write_at,
};
use crate::chain::{
    instruction_states, key, positions, readonly, writable, AccountMeta, AccountState, Accounts,
    InstructionState, ProgramError, Pubkey, SolanaInstruction,
};
use crate::effects::{
    all_seeds, delegation_answer, handler_states, no_plan, plan_delegation, plan_of, plan_of_two,
    says, ActionCallback, Answer, CallHandler, CallbackState, CommitIntent, CommitState, Deed,
    Effect, HandlerState, ShortMeta, UndelegateIntent, UndelegateState,
};
use crate::fields::from_bits;
use crate::ids::{CALLBACK_SIGNER, DELEGATION_PROGRAM_ID, SYSTEM_PROGRAM_ID};
use crate::magic::{
    bundle_bytes, bundle_data, cancel_bytes, cancel_data, holds_response, read_response,
    response_ok, response_payload, task_bytes, task_data,
};
use crate::redshift::flexi::{
    counter_at_front, counter_in, encoding_is_read_back, flexi_address, flexi_data, flexi_of, flexi_seeds,
    lemma_counter_at_front, lemma_counter_in, tagged, FlexiCounter, FlexiInstruction,
    ACTOR_ESCROW_INDEX, FLEXI_SEED, PRIZE, TRANSFER_CALLBACK_DISCRIMINATOR, TRANSFER_FAIL_CODE,
};
use crate::redshift::flexi_builders::{add_error, add_unsigned};
use crate::redshift::ID;
use crate::system::{create_account, create_account_data, transfer, transfer_data};
use vstd::prelude::*;

verus! {

/// How a count changes.
#[derive(Clone, Copy, Debug, PartialEq, Eq, Structural)]
pub enum Change {
    Add(u8),
    Mul(u8),
}

impl Change {
    /// The count afterwards.
    pub open spec fn of(self, count: u64) -> int {
        match self {
            Change::Add(n) => count + n,
            Change::Mul(n) => count * n,
        }
    }
}

/// Whether the counter at a position, if it is one, can take a change: its
/// count and the number of its updates stay within bounds.
pub open spec fn changeable(accounts: Accounts, at: int, change: Change) -> bool {
    at < accounts.count() ==> (counter_in(accounts.at(at).data) matches Some((count, updates, _))
        ==> change.of(count) <= u64::MAX && updates < u64::MAX)
}

/// Whether the counter at a position, if it is one, can take a change.
fn can_change(accounts: &Accounts, at: usize, change: Change) -> (r: bool)
    requires
        accounts.wf(),
    ensures
        r == changeable(*accounts, at as int, change),
{
    if at >= accounts.len() {
        return true;
    }
    match FlexiCounter::try_decode(accounts.get(at).data.as_slice()) {
        Ok(counter) => {
            let held: u128 = counter.count as u128;
            let now: u128 = match change {
                Change::Add(n) => held + n as u128,
                Change::Mul(n) => {
                    assert(held * n <= 0xffff_ffff_ffff_ffffu64 * 0xff) by (nonlinear_arith)
                        requires
                            held <= 0xffff_ffff_ffff_ffffu64,
                            n <= 0xff,
                    ;
                    held * n as u128
                },
            };
            now <= u64::MAX as u128 && counter.updates < u64::MAX
        },
        Err(_) => true,
    }
}

/// The accounts once the counter at a position was changed, and whether it is
/// a counter.
pub open spec fn changed(accounts: Accounts, at: int, change: Change) -> (
    Seq<AccountState>,
    Result<(), ProgramError>,
) {
    match counter_in(accounts.at(at).data) {
        None => (accounts@, Err(ProgramError::BorshIoError)),
        Some((count, updates, label)) => (
            accounts@.update(
                accounts.refs@[at] as int,
                accounts.at(at).with_data(
                    counter_format(change.of(count) as u64, (updates + 1) as u64, label),
                ),
            ),
            Ok(()),
        ),
    }
}

/// Changes the counter at a position and counts the update.
fn apply(accounts: &mut Accounts, at: usize, change: Change) -> (r: Result<(), ProgramError>)
    requires
        old(accounts).wf(),
        at < old(accounts).count(),
        changeable(*old(accounts), at as int, change),
    ensures
        final(accounts).wf(),
        final(accounts).refs@ == old(accounts).refs@,
        (final(accounts)@, r) == changed(*old(accounts), at as int, change),
{
    let mut counter: FlexiCounter = match FlexiCounter::try_decode(
        accounts.get(at).data.as_slice(),
    ) {
        Ok(counter) => counter,
        Err(e) => {
            return Err(e);
        },
    };
    match change {
        Change::Add(n) => {
            counter.count = counter.count + n as u64;
        },
        Change::Mul(n) => {
            counter.count = counter.count * n as u64;
        },
    }
    counter.updates = counter.updates + 1;
    match counter.encode() {
        Ok(data) => {
            accounts.set_data(at, data);
            Ok(())
        },
        Err(e) => Err(e),
    }
}

/// The accounts once the counter at a position was changed, and the answer to
/// that; accounts up to that position have to be there.
pub open spec fn change_answer(accounts: Accounts, at: int, change: Change) -> (
    Seq<AccountState>,
    Answer,
) {
    if accounts.count() <= at {
        (accounts@, Err(ProgramError::NotEnoughAccountKeys))
    } else {
        let (done, answer) = changed(accounts, at, change);
        (
            done,
            match answer {
                Ok(_) => Ok(Seq::empty()),
                Err(e) => Err(e),
            },
        )
    }
}

/// Changes the counter at a position.
fn process_change(accounts: &mut Accounts, at: usize, change: Change) -> (r: Result<
    Vec<Effect>,
    ProgramError,
>)
    requires
        old(accounts).wf(),
        changeable(*old(accounts), at as int, change),
    ensures
        final(accounts).wf(),
        final(accounts).refs@ == old(accounts).refs@,
        final(accounts)@ == change_answer(*old(accounts), at as int, change).0,
        says(r, change_answer(*old(accounts), at as int, change).1),
{
    if accounts.len() <= at {
        return Err(ProgramError::NotEnoughAccountKeys);
    }
    match apply(accounts, at, change) {
        Ok(_) => Ok(no_plan()),
        Err(e) => Err(e),
    }
}

/// Adds to the counter at the second position.
pub fn process_add(accounts: &mut Accounts, count: u8) -> (r: Result<Vec<Effect>, ProgramError>)
    requires
        old(accounts).wf(),
        changeable(*old(accounts), 1, Change::Add(count)),
    ensures
        final(accounts).wf(),
        final(accounts).refs@ == old(accounts).refs@,
        final(accounts)@ == change_answer(*old(accounts), 1, Change::Add(count)).0,
        says(r, change_answer(*old(accounts), 1, Change::Add(count)).1),
{
    process_change(accounts, 1, Change::Add(count))
}

/// Adds to the counter at the first position.
pub fn process_add_unsigned(accounts: &mut Accounts, count: u8) -> (r: Result<
    Vec<Effect>,
    ProgramError,
>)
    requires
        old(accounts).wf(),
        changeable(*old(accounts), 0, Change::Add(count)),
    ensures
        final(accounts).wf(),
        final(accounts).refs@ == old(accounts).refs@,
        final(accounts)@ == change_answer(*old(accounts), 0, Change::Add(count)).0,
        says(r, change_answer(*old(accounts), 0, Change::Add(count)).1),
{
    process_change(accounts, 0, Change::Add(count))
}

/// Multiplies the counter at the second position.
pub fn process_mul(accounts: &mut Accounts, multiplier: u8) -> (r: Result<
    Vec<Effect>,
    ProgramError,
>)
    requires
        old(accounts).wf(),
        changeable(*old(accounts), 1, Change::Mul(multiplier)),
    ensures
        final(accounts).wf(),
        final(accounts).refs@ == old(accounts).refs@,
        final(accounts)@ == change_answer(*old(accounts), 1, Change::Mul(multiplier)).0,
        says(r, change_answer(*old(accounts), 1, Change::Mul(multiplier)).1),
{
    process_change(accounts, 1, Change::Mul(multiplier))
}

/// Refuses an addition.
pub fn process_add_error() -> (r: Result<Vec<Effect>, ProgramError>)
    ensures
        says(r, Err(ProgramError::Custom(0))),
{
    Err(ProgramError::Custom(0))
}

/// Why the creation of a counter is refused, if it is.
pub open spec fn init_refused(accounts: Accounts, label: Seq<char>) -> Option<ProgramError> {
    if accounts.count() < 3 {
        Some(ProgramError::NotEnoughAccountKeys)
    } else if bump_of(flexi_address(accounts.at(0).key), accounts.at(1).key) is None {
        Some(ProgramError::InvalidSeeds)
    } else if !counter_fits(label) {
        Some(ProgramError::BorshIoError)
    } else {
        None
    }
}

/// The bytes of a new counter, if it is not refused; the balance that an
/// account of this size needs is what [`process_init`] takes.
pub fn new_counter(accounts: &Accounts, label: &str) -> (r: Result<Vec<u8>, ProgramError>)
    requires
        accounts.wf(),
    ensures
        match r {
            Ok(data) => init_refused(*accounts, label@) is None && data@ == counter_format(
                0,
                0,
                label@,
            ),
            Err(e) => init_refused(*accounts, label@) == Some(e),
        },
{
    if accounts.len() < 3 {
        return Err(ProgramError::NotEnoughAccountKeys);
    }
    let payer = accounts.get(0).key;
    if bump_if_at(FlexiCounter::pda_and_bump(&payer), &accounts.get(1).key).is_none() {
        return Err(ProgramError::InvalidSeeds);
    }
    FlexiCounter::new(label.to_owned()).encode()
}

/// The seeds that sign for the counter of a payer.
pub open spec fn signing_seeds(payer: Pubkey, bump: u8) -> Seq<Seq<u8>> {
    seq![ID@, FLEXI_SEED@, payer@].push(seq![bump])
}

/// The answer that sets up the counter of a payer: an account for it is
/// created with `required` lamports, and it starts at zero.
pub open spec fn init_answer(accounts: Accounts, label: Seq<char>, bump: u8, required: u64)
    -> Answer {
    match init_refused(accounts, label) {
        Some(e) => Err(e),
        None => {
            let data = counter_format(0, 0, label);
            Ok(
                seq![
                    Deed::Invoke {
                        program_id: key(SYSTEM_PROGRAM_ID),
                        accounts: seq![
                            writable(accounts.at(0).key, true),
                            writable(accounts.at(1).key, true),
                        ],
                        data: create_account_data(required, data.len() as u64, key(ID)),
                        infos: seq![0usize, 1usize, 2usize],
                        signer_seeds: seq![signing_seeds(accounts.at(0).key, bump)],
                    },
                    Deed::Write { target: 1, bytes: data },
                ],
            )
        },
    }
}

/// Sets up the counter of a payer.
pub fn process_init(accounts: &Accounts, label: &str, bump: u8, required: u64) -> (r: Result<
    Vec<Effect>,
    ProgramError,
>)
    requires
        accounts.wf(),
    ensures
        says(r, init_answer(*accounts, label@, bump, required)),
{
    let data: Vec<u8> = match new_counter(accounts, label) {
        Ok(data) => data,
        Err(e) => {
            return Err(e);
        },
    };
    let payer = accounts.get(0).key;
    let instruction = create_account(
        &payer,
        &accounts.get(1).key,
        required,
        data.len() as u64,
        &Pubkey::new(ID),
    );
    let infos: Vec<usize> = vec![0, 1, 2];
    let mut signer_seeds: Vec<Vec<Vec<u8>>> = Vec::new();
    signer_seeds.push(with_bump(flexi_seeds(&payer), bump));
    assert(all_seeds(signer_seeds@) =~= seq![signing_seeds(payer, bump)]);
    Ok(
        plan_of_two(
            Effect::Invoke { instruction, infos, signer_seeds },
            Effect::Write { target: 1, bytes: data },
        ),
    )
}

/// Delegates the counter of the payer at the first position.
pub fn process_delegate(
    accounts: &Accounts,
    commit_frequency_ms: u32,
    validator: Option<Pubkey>,
) -> (r: Result<Vec<Effect>, ProgramError>)
    requires
        accounts.wf(),
    ensures
        says(
            r,
            delegation_answer(
                *accounts,
                seq![ID@, FLEXI_SEED@, accounts.at(0).key@],
                commit_frequency_ms,
                validator,
            ),
        ),
{
    if accounts.len() != 8 {
        return Err(ProgramError::NotEnoughAccountKeys);
    }
    plan_delegation(accounts, flexi_seeds(&accounts.get(0).key), commit_frequency_ms, validator)
}

/// What transfers lamports between the accounts at two positions.
pub open spec fn transfer_deed(
    accounts: Accounts,
    from: usize,
    to: usize,
    system: usize,
    amount: u64,
) -> Deed {
    Deed::Invoke {
        program_id: key(SYSTEM_PROGRAM_ID),
        accounts: seq![
            writable(accounts.at(from as int).key, true),
            writable(accounts.at(to as int).key, false),
        ],
        data: transfer_data(amount),
        infos: seq![from, to, system],
        signer_seeds: Seq::empty(),
    }
}

/// Transfers lamports between the accounts at two positions.
fn invoke_transfer(accounts: &Accounts, from: usize, to: usize, system: usize, amount: u64) -> (r:
    Effect)
    requires
        accounts.wf(),
        from < accounts.count(),
        to < accounts.count(),
    ensures
        r@ == transfer_deed(*accounts, from, to, system, amount),
{
    let instruction = transfer(&accounts.get(from).key, &accounts.get(to).key, amount);
    let infos: Vec<usize> = vec![from, to, system];
    let signer_seeds: Vec<Vec<Vec<u8>>> = Vec::new();
    assert(all_seeds(signer_seeds@) =~= Seq::<Seq<Seq<u8>>>::empty());
    Effect::Invoke { instruction, infos, signer_seeds }
}

/// A handler on the account at a position.
pub open spec fn handler_state(
    accounts: Accounts,
    committee: int,
    escrow_authority: int,
    data: Seq<u8>,
    compute_units: u32,
) -> HandlerState {
    HandlerState {
        data,
        escrow_index: ACTOR_ESCROW_INDEX,
        compute_units,
        escrow_authority: escrow_authority as usize,
        destination_program: accounts.at(0).key,
        accounts: seq![
            ShortMeta::Position(committee as usize),
            ShortMeta::Writable(3),
            ShortMeta::Position(4),
        ],
    }
}

/// A handler on the account at a position.
fn action_handler(
    accounts: &Accounts,
    committee: usize,
    escrow_authority: usize,
    instruction: &FlexiInstruction,
    compute_units: u32,
) -> (r: CallHandler)
    requires
        accounts.wf(),
        accounts.count() > 0,
        instruction.fits(),
    ensures
        r@ == handler_state(
            *accounts,
            committee as int,
            escrow_authority as int,
            flexi_data(*instruction),
            compute_units,
        ),
{
    let touched: Vec<ShortMeta> = vec![
        ShortMeta::Position(committee),
        ShortMeta::Writable(3),
        ShortMeta::Position(4),
    ];
    CallHandler {
        data: tagged(instruction),
        escrow_index: ACTOR_ESCROW_INDEX,
        compute_units,
        escrow_authority,
        destination_program: accounts.get(0).key,
        accounts: touched,
    }
}

/// The handlers that pay out after the commit of the `n` accounts from
/// `committees` on, with the authorities from `escrows` on.
pub open spec fn commit_handlers(
    accounts: Accounts,
    committees: int,
    escrows: int,
    n: nat,
    compute_units: u32,
) -> Seq<HandlerState> {
    Seq::new(
        n,
        |i: int|
            handler_state(
                accounts,
                committees + i,
                escrows + i,
                flexi_data(FlexiInstruction::CommitActionHandler { amount: PRIZE }),
                compute_units,
            ),
    )
}

/// The handlers that pay out after the commit of several accounts.
fn list_commit_handlers(
    accounts: &Accounts,
    committees: usize,
    escrows: usize,
    n: usize,
    compute_units: u32,
) -> (r: Vec<CallHandler>)
    requires
        accounts.wf(),
        0 < accounts.count(),
        committees + n <= accounts.count(),
        escrows + n <= accounts.count(),
    ensures
        handler_states(r@) == commit_handlers(
            *accounts,
            committees as int,
            escrows as int,
            n as nat,
            compute_units,
        ),
{
    assert(accounts.refs.len() == accounts.count());
    let mut out: Vec<CallHandler> = Vec::new();
    let ghost wanted = commit_handlers(
        *accounts,
        committees as int,
        escrows as int,
        n as nat,
        compute_units,
    );
    let mut i: usize = 0;
    assert(handler_states(out@) =~= wanted.take(0));
    while i < n
        invariant
            accounts.wf(),
            0 < accounts.count(),
            accounts.count() <= usize::MAX,
            committees + n <= accounts.count(),
            escrows + n <= accounts.count(),
            i <= n,
            wanted == commit_handlers(
                *accounts,
                committees as int,
                escrows as int,
                n as nat,
                compute_units,
            ),
            handler_states(out@) == wanted.take(i as int),
        decreases n - i,
    {
        let ghost earlier = out@;
        let handler = action_handler(
            accounts,
            committees + i,
            escrows + i,
            &FlexiInstruction::CommitActionHandler { amount: PRIZE },
            compute_units,
        );
        out.push(handler);
        assert(handler_states(out@) =~= handler_states(earlier).push(handler@));
        i = i + 1;
        assert(handler_states(out@) =~= wanted.take(i as int));
    }
    assert(wanted.take(i as int) =~= wanted);
    out
}

/// The handlers that change counters after their return: as many as there are
/// both accounts and differences.
pub open spec fn undelegate_handlers(
    accounts: Accounts,
    committees: int,
    escrows: int,
    n: nat,
    counter_diffs: Seq<i64>,
    compute_units: u32,
) -> Seq<HandlerState> {
    Seq::new(
        if n <= counter_diffs.len() {
            n
        } else {
            counter_diffs.len()
        },
        |i: int|
            handler_state(
                accounts,
                committees + i,
                escrows + i,
                flexi_data(
                    FlexiInstruction::UndelegateActionHandler {
                        amount: PRIZE,
                        counter_diff: counter_diffs[i],
                    },
                ),
                compute_units,
            ),
    )
}

/// The handlers that change counters after their return.
fn list_undelegate_handlers(
    accounts: &Accounts,
    committees: usize,
    escrows: usize,
    n: usize,
    counter_diffs: &[i64],
    compute_units: u32,
) -> (r: Vec<CallHandler>)
    requires
        accounts.wf(),
        0 < accounts.count(),
        committees + n <= accounts.count(),
        escrows + n <= accounts.count(),
    ensures
        handler_states(r@) == undelegate_handlers(
            *accounts,
            committees as int,
            escrows as int,
            n as nat,
            counter_diffs@,
            compute_units,
        ),
{
    assert(accounts.refs.len() == accounts.count());
    let mut out: Vec<CallHandler> = Vec::new();
    let ghost wanted = undelegate_handlers(
        *accounts,
        committees as int,
        escrows as int,
        n as nat,
        counter_diffs@,
        compute_units,
    );
    let mut i: usize = 0;
    assert(handler_states(out@) =~= wanted.take(0));
    while i < n && i < counter_diffs.len()
        invariant
            accounts.wf(),
            0 < accounts.count(),
            accounts.count() <= usize::MAX,
            committees + n <= accounts.count(),
            escrows + n <= accounts.count(),
            i <= n,
            i <= counter_diffs@.len(),
            wanted == undelegate_handlers(
                *accounts,
                committees as int,
                escrows as int,
                n as nat,
                counter_diffs@,
                compute_units,
            ),
            handler_states(out@) == wanted.take(i as int),
        decreases n - i,
    {
        let ghost earlier = out@;
        let handler = action_handler(
            accounts,
            committees + i,
            escrows + i,
            &FlexiInstruction::UndelegateActionHandler {
                amount: PRIZE,
                counter_diff: counter_diffs[i],
            },
            compute_units,
        );
        out.push(handler);
        assert(handler_states(out@) =~= handler_states(earlier).push(handler@));
        i = i + 1;
        assert(handler_states(out@) =~= wanted.take(i as int));
    }
    assert(wanted.take(i as int) =~= wanted);
    out
}

/// The answer that creates an intent on `n` counters, whose payers stand in
/// front of them.
pub open spec fn intent_answer(
    accounts: Accounts,
    num_committees: u8,
    counter_diffs: Seq<i64>,
    is_undelegate: bool,
    compute_units: u32,
) -> Answer {
    let n = num_committees as int;
    if accounts.count() != 2 * n + 5 {
        Err(ProgramError::NotEnoughAccountKeys)
    } else {
        let committees = positions(5 + n, 5 + 2 * n);
        let handlers = commit_handlers(accounts, 5 + n, 5, n as nat, compute_units);
        Ok(
            seq![
                Deed::IntentBundle {
                    payer: 5,
                    magic_context: 1,
                    magic_program: 2,
                    magic_fee_vault: None,
                    commit: if is_undelegate {
                        None
                    } else {
                        Some(CommitState { accounts: committees, handlers, callback: None })
                    },
                    commit_and_undelegate: if is_undelegate {
                        Some(
                            UndelegateState {
                                accounts: committees,
                                commit_handlers: handlers,
                                undelegate_handlers: undelegate_handlers(
                                    accounts,
                                    5 + n,
                                    5,
                                    n as nat,
                                    counter_diffs,
                                    compute_units,
                                ),
                            },
                        )
                    } else {
                        None
                    },
                },
            ],
        )
    }
}

/// Creates an intent on some counters. There has to be one, whose payer pays.
pub fn process_create_intent(
    accounts: &Accounts,
    num_committees: u8,
    counter_diffs: &[i64],
    is_undelegate: bool,
    compute_units: u32,
) -> (r: Result<Vec<Effect>, ProgramError>)
    requires
        accounts.wf(),
        num_committees == 0 ==> accounts.count() != 5,
    ensures
        says(
            r,
            intent_answer(
                *accounts,
                num_committees,
                counter_diffs@,
                is_undelegate,
                compute_units,
            ),
        ),
{
    let n: usize = num_committees as usize;
    if accounts.len() != 2 * n + 5 {
        return Err(ProgramError::NotEnoughAccountKeys);
    }
    let committees: Vec<usize> = accounts.positions_from(5 + n);
    let handlers: Vec<CallHandler> = list_commit_handlers(accounts, 5 + n, 5, n, compute_units);
    let (commit, commit_and_undelegate): (Option<CommitIntent>, Option<UndelegateIntent>) =
        if is_undelegate {
        let undelegate_handlers: Vec<CallHandler> = list_undelegate_handlers(
            accounts,
            5 + n,
            5,
            n,
            counter_diffs,
            compute_units,
        );
        (
            None,
            Some(
                UndelegateIntent {
                    accounts: committees,
                    commit_handlers: handlers,
                    undelegate_handlers,
                },
            ),
        )
    } else {
        (Some(CommitIntent { accounts: committees, handlers, callback: None }), None)
    };
    Ok(
        plan_of(
            Effect::IntentBundle {
                payer: 5,
                magic_context: 1,
                magic_program: 2,
                magic_fee_vault: None,
                commit,
                commit_and_undelegate,
            },
        ),
    )
}

/// The answer that creates a bundle of two intents: one on counters that are
/// committed, and one on counters that are returned too. Each kind stands with
/// its payers in front, and the first payer of all pays.
pub open spec fn bundle_answer(
    accounts: Accounts,
    num_commit_only: u8,
    num_undelegate: u8,
    counter_diffs: Seq<i64>,
    compute_units: u32,
) -> Answer {
    let c = num_commit_only as int;
    let u = num_undelegate as int;
    let second = 5 + 2 * c;
    if accounts.count() != 5 + 2 * c + 2 * u || c + u == 0 {
        Err(ProgramError::NotEnoughAccountKeys)
    } else {
        Ok(
            seq![
                Deed::IntentBundle {
                    payer: 5,
                    magic_context: 1,
                    magic_program: 2,
                    magic_fee_vault: None,
                    commit: if c > 0 {
                        Some(
                            CommitState {
                                accounts: positions(5 + c, second),
                                handlers: commit_handlers(
                                    accounts,
                                    5 + c,
                                    5,
                                    c as nat,
                                    compute_units,
                                ),
                                callback: None,
                            },
                        )
                    } else {
                        None
                    },
                    commit_and_undelegate: if u > 0 {
                        Some(
                            UndelegateState {
                                accounts: positions(second + u, second + 2 * u),
                                commit_handlers: commit_handlers(
                                    accounts,
                                    second + u,
                                    second,
                                    u as nat,
                                    compute_units,
                                ),
                                undelegate_handlers: undelegate_handlers(
                                    accounts,
                                    second + u,
                                    second,
                                    u as nat,
                                    counter_diffs,
                                    compute_units,
                                ),
                            },
                        )
                    } else {
                        None
                    },
                },
            ],
        )
    }
}

/// The positions from `from` up to `to`.
fn positions_between(from: usize, to: usize) -> (r: Vec<usize>)
    requires
        from <= to,
    ensures
        r@ == positions(from as int, to as int),
{
    let mut out: Vec<usize> = Vec::new();
    let mut i: usize = from;
    while i < to
        invariant
            from <= i <= to,
            out@ == positions(from as int, i as int),
        decreases to - i,
    {
        out.push(i);
        i = i + 1;
        assert(out@ =~= positions(from as int, i as int));
    }
    out
}

/// Creates a bundle of two intents.
pub fn process_create_intent_bundle(
    accounts: &Accounts,
    num_commit_only: u8,
    num_undelegate: u8,
    counter_diffs: &[i64],
    compute_units: u32,
) -> (r: Result<Vec<Effect>, ProgramError>)
    requires
        accounts.wf(),
    ensures
        says(
            r,
            bundle_answer(
                *accounts,
                num_commit_only,
                num_undelegate,
                counter_diffs@,
                compute_units,
            ),
        ),
{
    let c: usize = num_commit_only as usize;
    let u: usize = num_undelegate as usize;
    if accounts.len() != 5 + 2 * c + 2 * u {
        return Err(ProgramError::NotEnoughAccountKeys);
    }
    if c == 0 && u == 0 {
        return Err(ProgramError::NotEnoughAccountKeys);
    }
    let second: usize = 5 + 2 * c;
    let commit: Option<CommitIntent> = if c > 0 {
        Some(
            CommitIntent {
                accounts: positions_between(5 + c, second),
                handlers: list_commit_handlers(accounts, 5 + c, 5, c, compute_units),
                callback: None,
            },
        )
    } else {
        None
    };
    let commit_and_undelegate: Option<UndelegateIntent> = if u > 0 {
        Some(
            UndelegateIntent {
                accounts: positions_between(second + u, second + 2 * u),
                commit_handlers: list_commit_handlers(
                    accounts,
                    second + u,
                    second,
                    u,
                    compute_units,
                ),
                undelegate_handlers: list_undelegate_handlers(
                    accounts,
                    second + u,
                    second,
                    u,
                    counter_diffs,
                    compute_units,
                ),
            },
        )
    } else {
        None
    };
    Ok(
        plan_of(
            Effect::IntentBundle {
                payer: 5,
                magic_context: 1,
                magic_program: 2,
                magic_fee_vault: None,
                commit,
                commit_and_undelegate,
            },
        ),
    )
}

/// The positions from `from` up to `to` whose address stands at none of them
/// before: the first position of every address.
pub open spec fn firsts(accounts: Accounts, from: int, to: int) -> Seq<usize>
    decreases to - from,
{
    if to <= from {
        Seq::empty()
    } else {
        let earlier = firsts(accounts, from, to - 1);
        if exists|i: int|
            from <= i < to - 1 && (#[trigger] accounts.at(i)).key == accounts.at(to - 1).key {
            earlier
        } else {
            earlier.push((to - 1) as usize)
        }
    }
}

/// Whether the `k`-th first position is that of the address at `at`.
pub open spec fn leads(accounts: Accounts, from: int, to: int, k: int, at: int) -> bool {
    let once = firsts(accounts, from, to);
    0 <= k < once.len() && accounts.at(once[k] as int).key == accounts.at(at).key
}

/// The place of the address at a position among the first positions.
pub open spec fn rank(accounts: Accounts, from: int, to: int, at: int) -> int {
    choose|k: int| leads(accounts, from, to, k, at)
}

/// First positions lie in the range, and no two of them hold the same address.
pub proof fn lemma_firsts(accounts: Accounts, from: int, to: int)
    requires
        0 <= from <= to <= usize::MAX,
    ensures
        firsts(accounts, from, to).len() <= to - from,
        forall|k: int|
            0 <= k < firsts(accounts, from, to).len() ==> from <= (#[trigger] firsts(
                accounts,
                from,
                to,
            )[k]) < to,
        forall|k: int, l: int|
            0 <= k < l < firsts(accounts, from, to).len() ==> accounts.at(
                (#[trigger] firsts(accounts, from, to)[k]) as int,
            ).key != accounts.at((#[trigger] firsts(accounts, from, to)[l]) as int).key,
    decreases to - from,
{
    if from < to {
        lemma_firsts(accounts, from, to - 1);
        let earlier = firsts(accounts, from, to - 1);
        let now = firsts(accounts, from, to);
        let last = to - 1;
        assert forall|k: int, l: int| 0 <= k < l < now.len() implies accounts.at(
            (#[trigger] now[k]) as int,
        ).key != accounts.at((#[trigger] now[l]) as int).key by {
            if l == earlier.len() {
                assert(now[k] == earlier[k]);
                assert(accounts.at(earlier[k] as int).key != accounts.at(last).key);
            } else {
                assert(now[k] == earlier[k] && now[l] == earlier[l]);
            }
        }
    }
}

/// Every address in the range has a first position.
pub proof fn lemma_leads(accounts: Accounts, from: int, to: int, at: int)
    requires
        0 <= from <= at < to <= usize::MAX,
    ensures
        leads(accounts, from, to, rank(accounts, from, to, at), at),
    decreases to - from,
{
    let earlier = firsts(accounts, from, to - 1);
    let now = firsts(accounts, from, to);
    let last = to - 1;
    let known = exists|i: int|
        from <= i < last && (#[trigger] accounts.at(i)).key == accounts.at(last).key;
    if at < last {
        lemma_leads(accounts, from, last, at);
        let k = rank(accounts, from, last, at);
        assert(now[k] == earlier[k]);
        assert(leads(accounts, from, to, k, at));
    } else if known {
        let i = choose|i: int|
            from <= i < last && (#[trigger] accounts.at(i)).key == accounts.at(last).key;
        lemma_leads(accounts, from, last, i);
        let k = rank(accounts, from, last, i);
        assert(now[k] == earlier[k]);
        assert(leads(accounts, from, to, k, at));
    } else {
        assert(now[earlier.len() as int] == last);
        assert(leads(accounts, from, to, earlier.len() as int, at));
    }
}

/// The place of the address at a position among the first positions `known`,
/// if it is there.
fn find_place(accounts: &Accounts, known: &[usize], at: usize) -> (r: Option<usize>)
    requires
        accounts.wf(),
        at < accounts.count(),
        forall|k: int| 0 <= k < known@.len() ==> (#[trigger] known@[k]) < accounts.count(),
    ensures
        match r {
            Some(k) => k < known@.len() && accounts.at(known@[k as int] as int).key == accounts.at(
                at as int,
            ).key,
            None => forall|k: int|
                0 <= k < known@.len() ==> accounts.at((#[trigger] known@[k]) as int).key
                    != accounts.at(at as int).key,
        },
{
    let wanted = accounts.get(at).key;
    let mut k: usize = 0;
    while k < known.len()
        invariant
            accounts.wf(),
            forall|j: int| 0 <= j < known@.len() ==> (#[trigger] known@[j]) < accounts.count(),
            k <= known@.len(),
            forall|j: int| 0 <= j < k ==> accounts.at((#[trigger] known@[j]) as int).key != wanted,
            wanted == accounts.at(at as int).key,
        decreases known@.len() - k,
    {
        if accounts.get(known[k]).key.same(&wanted) {
            return Some(k);
        }
        k = k + 1;
    }
    None
}

/// The first position of every address.
fn first_positions(accounts: &Accounts, from: usize, to: usize) -> (r: Vec<usize>)
    requires
        accounts.wf(),
        from <= to <= accounts.count(),
    ensures
        r@ == firsts(*accounts, from as int, to as int),
{
    let mut out: Vec<usize> = Vec::new();
    let mut at: usize = from;
    while at < to
        invariant
            accounts.wf(),
            from <= at <= to <= accounts.count(),
            out@ == firsts(*accounts, from as int, at as int),
        decreases to - at,
    {
        proof {
            lemma_firsts(*accounts, from as int, at as int);
        }
        let found = find_place(accounts, out.as_slice(), at);
        proof {
            let last = at as int;
            let stands = exists|i: int|
                from <= i < last && (#[trigger] accounts.at(i)).key == accounts.at(last).key;
            if let Some(k) = found {
                assert(accounts.at(out@[k as int] as int).key == accounts.at(last).key);
            }
            if stands {
                let i = choose|i: int|
                    from <= i < last && (#[trigger] accounts.at(i)).key == accounts.at(last).key;
                lemma_leads(*accounts, from as int, last, i);
                let k = rank(*accounts, from as int, last, i);
                assert(accounts.at(out@[k] as int).key == accounts.at(last).key);
            }
            assert(stands == (found is Some));
        }
        if found.is_none() {
            out.push(at);
        }
        at = at + 1;
    }
    out
}

/// The bytes that name the accounts at the positions from `lo` up to `hi`: the
/// ranks of their addresses behind the payer and the context. What does not
/// fit into a byte is cut off.
pub open spec fn places(accounts: Accounts, lo: int, hi: int) -> Seq<u8> {
    Seq::new(
        (hi - lo) as nat,
        |i: int| ((2 + rank(accounts, 3, accounts.count() as int, lo + i)) % 256) as u8,
    )
}

/// The bytes that name the accounts at several positions.
fn list_places(accounts: &Accounts, known: &[usize], lo: usize, hi: usize) -> (r: Vec<u8>)
    requires
        accounts.wf(),
        3 <= lo <= hi <= accounts.count(),
        accounts.count() + 2 <= usize::MAX,
        known@ == firsts(*accounts, 3, accounts.count() as int),
    ensures
        r@ == places(*accounts, lo as int, hi as int),
{
    let ghost total = accounts.count() as int;
    proof {
        lemma_firsts(*accounts, 3, total);
    }
    let mut out: Vec<u8> = Vec::new();
    let mut at: usize = lo;
    while at < hi
        invariant
            accounts.wf(),
            3 <= lo <= at <= hi <= accounts.count(),
            accounts.count() + 2 <= usize::MAX,
            total == accounts.count(),
            known@ == firsts(*accounts, 3, total),
            known@.len() <= total - 3,
            forall|k: int| 0 <= k < known@.len() ==> 3 <= (#[trigger] known@[k]) < total,
            out@ == places(*accounts, lo as int, at as int),
        decreases hi - at,
    {
        let ghost there = rank(*accounts, 3, total, at as int);
        proof {
            lemma_leads(*accounts, 3, total, at as int);
            assert(accounts.at(known@[there] as int).key == accounts.at(at as int).key);
        }
        let k: usize = match find_place(accounts, known, at) {
            Some(k) => k,
            None => 0,
        };
        proof {
            lemma_firsts(*accounts, 3, total);
            let once = firsts(*accounts, 3, total);
            assert(accounts.at(once[k as int] as int).key == accounts.at(once[there] as int).key);
            if k < there {
                assert(once[k as int] == known@[k as int] && once[there] == known@[there]);
            }
            assert(k == there);
        }
        out.push(((2 + k) % 256) as u8);
        at = at + 1;
        assert(out@ =~= places(*accounts, lo as int, at as int));
    }
    assert(out@ =~= places(*accounts, lo as int, hi as int));
    out
}

/// The answer that commits some counters and commits and finalises others,
/// each account being passed on once.
pub open spec fn finalize_answer(accounts: Accounts, num_commit: u8, num_commit_finalize: u8)
    -> Answer {
    let c = num_commit as int;
    let f = num_commit_finalize as int;
    if accounts.count() != 3 + c + f {
        Err(ProgramError::NotEnoughAccountKeys)
    } else {
        let once = firsts(accounts, 3, 3 + c + f);
        Ok(
            seq![
                Deed::Invoke {
                    program_id: accounts.at(1).key,
                    accounts: seq![
                        writable(accounts.at(2).key, true),
                        writable(accounts.at(0).key, false),
                    ] + once.map(|i: int, at: usize| writable(accounts.at(at as int).key, false)),
                    data: bundle_data(
                        places(accounts, 3, 3 + c),
                        places(accounts, 3 + c, 3 + c + f),
                    ),
                    infos: seq![1usize, 2usize, 0usize] + once,
                    signer_seeds: Seq::empty(),
                },
            ],
        )
    }
}

/// Commits some counters and commits and finalises others.
pub fn process_create_intent_bundle_commit_and_finalize(
    accounts: &Accounts,
    num_commit: u8,
    num_commit_finalize: u8,
) -> (r: Result<Vec<Effect>, ProgramError>)
    requires
        accounts.wf(),
    ensures
        says(r, finalize_answer(*accounts, num_commit, num_commit_finalize)),
{
    let c: usize = num_commit as usize;
    let f: usize = num_commit_finalize as usize;
    if accounts.len() != 3 + c + f {
        return Err(ProgramError::NotEnoughAccountKeys);
    }
    let once: Vec<usize> = first_positions(accounts, 3, 3 + c + f);
    proof {
        lemma_firsts(*accounts, 3, 3 + c + f);
    }
    let commit: Vec<u8> = list_places(accounts, once.as_slice(), 3, 3 + c);
    let commit_finalize: Vec<u8> = list_places(accounts, once.as_slice(), 3 + c, 3 + c + f);
    let mut metas: Vec<AccountMeta> = vec![
        AccountMeta::new(accounts.get(2).key, true),
        AccountMeta::new(accounts.get(0).key, false),
    ];
    let mut infos: Vec<usize> = vec![1, 2, 0];
    let ghost front = metas@;
    let ghost passed = |i: int, at: usize| writable(accounts.at(at as int).key, false);
    let mut i: usize = 0;
    assert(metas@ =~= front + once@.take(0).map(passed));
    assert(infos@ =~= seq![1usize, 2usize, 0usize] + once@.take(0));
    while i < once.len()
        invariant
            accounts.wf(),
            i <= once@.len(),
            forall|k: int| 0 <= k < once@.len() ==> (#[trigger] once@[k]) < accounts.count(),
            passed == (|i: int, at: usize| writable(accounts.at(at as int).key, false)),
            metas@ == front + once@.take(i as int).map(passed),
            infos@ == seq![1usize, 2usize, 0usize] + once@.take(i as int),
        decreases once@.len() - i,
    {
        metas.push(AccountMeta::new(accounts.get(once[i]).key, false));
        infos.push(once[i]);
        i = i + 1;
        assert(metas@ =~= front + once@.take(i as int).map(passed));
        assert(infos@ =~= seq![1usize, 2usize, 0usize] + once@.take(i as int));
    }
    assert(once@.take(i as int) =~= once@);
    let instruction = SolanaInstruction {
        program_id: accounts.get(1).key,
        accounts: metas,
        data: bundle_bytes(commit, commit_finalize),
    };
    let signer_seeds: Vec<Vec<Vec<u8>>> = Vec::new();
    assert(all_seeds(signer_seeds@) =~= Seq::<Seq<Seq<u8>>>::empty());
    Ok(plan_of(Effect::Invoke { instruction, infos, signer_seeds }))
}

/// No address is passed on twice to the magic program.
pub proof fn accounts_are_passed_once(accounts: Accounts, k: int, l: int)
    requires
        3 <= accounts.count() <= usize::MAX,
        0 <= k < l < firsts(accounts, 3, accounts.count() as int).len(),
    ensures
        accounts.at(firsts(accounts, 3, accounts.count() as int)[k] as int).key != accounts.at(
            firsts(accounts, 3, accounts.count() as int)[l] as int,
        ).key,
{
    lemma_firsts(accounts, 3, accounts.count() as int);
}

/// Every account that is committed is passed on: the byte that names it leads
/// to its address, wherever the accounts can be counted in a byte.
pub proof fn places_lead_to_their_accounts(accounts: Accounts, at: int)
    requires
        3 <= at < accounts.count() <= 256,
    ensures
        ({
            let once = firsts(accounts, 3, accounts.count() as int);
            let place = places(accounts, at, at + 1)[0];
            &&& 2 <= place < 2 + once.len()
            &&& accounts.at(once[place - 2] as int).key == accounts.at(at).key
        }),
{
    let total = accounts.count() as int;
    lemma_firsts(accounts, 3, total);
    lemma_leads(accounts, 3, total, at);
    assert(places(accounts, at, at + 1)[0] == 2 + rank(accounts, 3, total, at));
}

/// The answer that hands lamports to a counter and asks for their transfer
/// after its commit, with a callback that reports how it went.
pub open spec fn transfer_intent_answer(
    accounts: Accounts,
    amount: u64,
    fail: bool,
    compute_units: u32,
) -> Answer {
    if accounts.count() != 7 {
        Err(ProgramError::NotEnoughAccountKeys)
    } else {
        Ok(
            seq![
                transfer_deed(accounts, 0, 1, 3, amount),
                Deed::IntentBundle {
                    payer: 0,
                    magic_context: 4,
                    magic_program: 5,
                    magic_fee_vault: Some(6),
                    commit: Some(
                        CommitState {
                            accounts: seq![1usize],
                            handlers: seq![
                                HandlerState {
                                    data: flexi_data(
                                        FlexiInstruction::TransferActionHandler { amount, fail },
                                    ),
                                    escrow_index: ACTOR_ESCROW_INDEX,
                                    compute_units,
                                    escrow_authority: 0,
                                    destination_program: key(ID),
                                    accounts: seq![ShortMeta::Writable(2), ShortMeta::Position(3)],
                                },
                            ],
                            callback: Some(
                                CallbackState {
                                    destination_program: key(ID),
                                    discriminator: TRANSFER_CALLBACK_DISCRIMINATOR@,
                                    payload: le64(amount),
                                    compute_units: 20_000,
                                    accounts: seq![
                                        ShortMeta::CallbackSigner,
                                        ShortMeta::Writable(1),
                                        ShortMeta::Writable(0),
                                        ShortMeta::Position(3),
                                    ],
                                },
                            ),
                        },
                    ),
                    commit_and_undelegate: None,
                },
            ],
        )
    }
}

/// Hands lamports to a counter and asks for their transfer after its commit.
pub fn process_create_transfer_intent(
    accounts: &Accounts,
    amount: u64,
    fail: bool,
    compute_units: u32,
) -> (r: Result<Vec<Effect>, ProgramError>)
    requires
        accounts.wf(),
    ensures
        says(r, transfer_intent_answer(*accounts, amount, fail, compute_units)),
{
    if accounts.len() != 7 {
        return Err(ProgramError::NotEnoughAccountKeys);
    }
    let fund = invoke_transfer(accounts, 0, 1, 3, amount);
    let touched: Vec<ShortMeta> = vec![ShortMeta::Writable(2), ShortMeta::Position(3)];
    let handler = CallHandler {
        data: tagged(&FlexiInstruction::TransferActionHandler { amount, fail }),
        escrow_index: ACTOR_ESCROW_INDEX,
        compute_units,
        escrow_authority: 0,
        destination_program: Pubkey::new(ID),
        accounts: touched,
    };
    let reported: Vec<ShortMeta> = vec![
        ShortMeta::CallbackSigner,
        ShortMeta::Writable(1),
        ShortMeta::Writable(0),
        ShortMeta::Position(3),
    ];
    let callback = ActionCallback {
        destination_program: Pubkey::new(ID),
        discriminator: copy_bytes(TRANSFER_CALLBACK_DISCRIMINATOR.as_slice()),
        payload: u64_bytes(amount),
        compute_units: 20_000,
        accounts: reported,
    };
    let committed: Vec<usize> = vec![1];
    assert(committed@ =~= seq![1usize]);
    let mut handlers: Vec<CallHandler> = Vec::new();
    handlers.push(handler);
    assert(handler_states(handlers@) =~= seq![handler@]);
    Ok(
        plan_of_two(
            fund,
            Effect::IntentBundle {
                payer: 0,
                magic_context: 4,
                magic_program: 5,
                magic_fee_vault: Some(6),
                commit: Some(
                    CommitIntent { accounts: committed, handlers, callback: Some(callback) },
                ),
                commit_and_undelegate: None,
            },
        ),
    )
}

/// Why a handler on a counter is refused, if it is: its escrow signs, the
/// delegation program owns the counter exactly if it is `delegated`, and the
/// handler comes from this program.
pub open spec fn handler_refused(accounts: Accounts, delegated: bool) -> Option<ProgramError> {
    if accounts.count() != 6 {
        Some(ProgramError::NotEnoughAccountKeys)
    } else if !accounts.at(5).is_signer {
        Some(ProgramError::MissingRequiredSignature)
    } else if delegated != (accounts.at(0).owner == key(DELEGATION_PROGRAM_ID)) {
        Some(ProgramError::InvalidAccountOwner)
    } else if accounts.at(3).key != key(ID) {
        Some(ProgramError::IncorrectProgramId)
    } else {
        None
    }
}

/// Checks the accounts of a handler on a counter.
fn check_handler(accounts: &Accounts, delegated: bool) -> (r: Result<(), ProgramError>)
    requires
        accounts.wf(),
    ensures
        match r {
            Ok(_) => handler_refused(*accounts, delegated) is None,
            Err(e) => handler_refused(*accounts, delegated) == Some(e),
        },
{
    if accounts.len() != 6 {
        return Err(ProgramError::NotEnoughAccountKeys);
    }
    if !accounts.get(5).is_signer {
        return Err(ProgramError::MissingRequiredSignature);
    }
    if delegated != accounts.get(0).owner.same(&Pubkey::new(DELEGATION_PROGRAM_ID)) {
        return Err(ProgramError::InvalidAccountOwner);
    }
    if !accounts.get(3).key.same(&Pubkey::new(ID)) {
        return Err(ProgramError::IncorrectProgramId);
    }
    Ok(())
}

/// The answer that pays out after a commit.
pub open spec fn commit_action_answer(accounts: Accounts, amount: u64) -> Answer {
    match handler_refused(accounts, true) {
        Some(e) => Err(e),
        None => Ok(seq![transfer_deed(accounts, 5, 1, 2, amount)]),
    }
}

/// Pays out after a commit.
pub fn process_commit_action_handler(accounts: &Accounts, amount: u64) -> (r: Result<
    Vec<Effect>,
    ProgramError,
>)
    requires
        accounts.wf(),
    ensures
        says(r, commit_action_answer(*accounts, amount)),
{
    match check_handler(accounts, true) {
        Err(e) => Err(e),
        Ok(_) => Ok(plan_of(invoke_transfer(accounts, 5, 1, 2, amount))),
    }
}

/// The signed number with the bits of an unsigned one.
pub open spec fn signed(count: u64) -> int {
    if count <= i64::MAX {
        count as int
    } else {
        count - 0x1_0000_0000_0000_0000
    }
}

/// Whether the difference can be added to the counter that comes back, if it
/// is one, and its update counted.
pub open spec fn adjustable(accounts: Accounts, counter_diff: i64) -> bool {
    handler_refused(accounts, false) is None ==> (counter_at_front(
        accounts.at(0).data,
    ) matches Some((count, updates, _)) ==> {
        &&& i64::MIN <= signed(count) + counter_diff <= i64::MAX
        &&& signed(count) + counter_diff >= 0 ==> updates < u64::MAX
    })
}

/// Whether the difference can be added to the counter that comes back.
fn can_adjust(accounts: &Accounts, counter_diff: i64) -> (r: bool)
    requires
        accounts.wf(),
    ensures
        r == adjustable(*accounts, counter_diff),
{
    match check_handler(accounts, false) {
        Err(_) => true,
        Ok(_) => match read_counter_front(accounts.get(0).data.as_slice()) {
            None => true,
            Some((count, updates, label)) => {
                proof {
                    lemma_counter_at_front(accounts.at(0).data, count, updates, label@);
                }
                let before: i64 = from_bits(count);
                assert(before == signed(count));
                let now: i128 = before as i128 + counter_diff as i128;
                i64::MIN as i128 <= now && now <= i64::MAX as i128 && (now < 0 || updates
                    < u64::MAX)
            },
        },
    }
}

/// The accounts once a counter that came back was adjusted, and the answer to
/// that: the counter at the front of the data changes, and what follows it
/// stays. A count below zero is refused.
pub open spec fn undelegate_action_answer(accounts: Accounts, amount: u64, counter_diff: i64) -> (
    Seq<AccountState>,
    Answer,
) {
    match handler_refused(accounts, false) {
        Some(e) => (accounts@, Err(e)),
        None => match counter_at_front(accounts.at(0).data) {
            None => (accounts@, Err(ProgramError::BorshIoError)),
            Some((count, updates, label)) => {
                let now = signed(count) + counter_diff;
                if now < 0 {
                    (accounts@, Err(ProgramError::ArithmeticOverflow))
                } else {
                    (
                        accounts@.update(
                            accounts.refs@[0] as int,
                            accounts.at(0).with_data(
                                overwrite(
                                    accounts.at(0).data,
                                    0,
                                    counter_format(now as u64, (updates + 1) as u64, label),
                                ),
                            ),
                        ),
                        Ok(seq![transfer_deed(accounts, 5, 1, 2, amount)]),
                    )
                }
            },
        },
    }
}

/// Adjusts a counter that came back and pays out.
pub fn process_undelegate_action_handler(
    accounts: &mut Accounts,
    amount: u64,
    counter_diff: i64,
) -> (r: Result<Vec<Effect>, ProgramError>)
    requires
        old(accounts).wf(),
        adjustable(*old(accounts), counter_diff),
    ensures
        final(accounts).wf(),
        final(accounts).refs@ == old(accounts).refs@,
        final(accounts)@ == undelegate_action_answer(*old(accounts), amount, counter_diff).0,
        says(r, undelegate_action_answer(*old(accounts), amount, counter_diff).1),
{
    match check_handler(accounts, false) {
        Err(e) => {
            return Err(e);
        },
        Ok(_) => {},
    }
    let pay = invoke_transfer(accounts, 5, 1, 2, amount);
    let mut data: Vec<u8> = copy_bytes(accounts.get(0).data.as_slice());
    let ghost held = data@;
    match read_counter_front(data.as_slice()) {
        None => Err(ProgramError::BorshIoError),
        Some((count, updates, label)) => {
            proof {
                lemma_counter_at_front(held, count, updates, label@);
            }
            let before: i64 = from_bits(count);
            assert(before == signed(count));
            let now: i64 = before + counter_diff;
            if now < 0 {
                return Err(ProgramError::ArithmeticOverflow);
            }
            let counter = FlexiCounter { count: now as u64, updates: updates + 1, label };
            match counter.encode() {
                Err(e) => Err(e),
                Ok(bytes) => {
                    proof {
                        lemma_le64();
                        assert(bytes@.len() == counter_format(count, updates, label@).len());
                    }
                    write_at(&mut data, 0, bytes.as_slice());
                    accounts.set_data(0, data);
                    Ok(plan_of(pay))
                },
            }
        },
    }
}

/// The answer that carries out a transfer, or fails if it is asked to.
pub open spec fn transfer_action_answer(accounts: Accounts, amount: u64, fail: bool) -> Answer {
    if accounts.count() != 5 {
        Err(ProgramError::NotEnoughAccountKeys)
    } else if accounts.at(2).key != key(ID) {
        Err(ProgramError::IncorrectProgramId)
    } else if !accounts.at(4).is_signer {
        Err(ProgramError::MissingRequiredSignature)
    } else if fail {
        Err(ProgramError::Custom(TRANSFER_FAIL_CODE))
    } else {
        Ok(seq![transfer_deed(accounts, 4, 0, 1, amount)])
    }
}

/// Carries out a transfer, or fails if it is asked to.
pub fn process_transfer_action_handler(accounts: &Accounts, amount: u64, fail: bool) -> (r: Result<
    Vec<Effect>,
    ProgramError,
>)
    requires
        accounts.wf(),
    ensures
        says(r, transfer_action_answer(*accounts, amount, fail)),
{
    if accounts.len() != 5 {
        return Err(ProgramError::NotEnoughAccountKeys);
    }
    if !accounts.get(2).key.same(&Pubkey::new(ID)) {
        return Err(ProgramError::IncorrectProgramId);
    }
    if !accounts.get(4).is_signer {
        return Err(ProgramError::MissingRequiredSignature);
    }
    if fail {
        return Err(ProgramError::Custom(TRANSFER_FAIL_CODE));
    }
    Ok(plan_of(invoke_transfer(accounts, 4, 0, 1, amount)))
}

/// How many lamports a callback gives back: those of the payload, if the
/// transfer failed.
pub open spec fn given_back(accounts: Accounts, data: Seq<u8>) -> Result<
    Option<u64>,
    ProgramError,
> {
    if accounts.count() != 4 {
        Err(ProgramError::NotEnoughAccountKeys)
    } else if !accounts.at(0).is_signer {
        Err(ProgramError::MissingRequiredSignature)
    } else if accounts.at(0).key != key(CALLBACK_SIGNER) {
        Err(ProgramError::IncorrectAuthority)
    } else if !holds_response(data) {
        Err(ProgramError::InvalidInstructionData)
    } else if response_ok(data) {
        Ok(None)
    } else if response_payload(data).len() != 8 {
        Err(ProgramError::InvalidInstructionData)
    } else {
        Ok(Some(from_le64(response_payload(data))))
    }
}

/// The accounts once lamports went from the account at `from` to that at `to`.
pub open spec fn moved(accounts: Seq<AccountState>, from: int, to: int, amount: u64) -> Seq<
    AccountState,
> {
    let paid = accounts.update(
        from,
        AccountState { lamports: (accounts[from].lamports - amount) as u64, ..accounts[from] },
    );
    paid.update(to, AccountState { lamports: (paid[to].lamports + amount) as u64, ..paid[to] })
}

/// Whether the counter holds what a callback gives back, and the payer can
/// take it.
pub open spec fn payable(accounts: Accounts, data: Seq<u8>) -> bool {
    given_back(accounts, data) matches Ok(Some(amount)) ==> {
        &&& accounts.at(1).lamports >= amount
        &&& accounts.refs@[1] != accounts.refs@[2] ==> accounts.at(2).lamports + amount <= u64::MAX
    }
}

/// Whether the counter holds what a callback gives back, and the payer can
/// take it.
pub fn can_give_back(accounts: &Accounts, data: &[u8]) -> (r: bool)
    requires
        accounts.wf(),
    ensures
        r == payable(*accounts, data@),
{
    if accounts.len() != 4 || !accounts.get(0).is_signer || !accounts.get(0).key.same(
        &Pubkey::new(CALLBACK_SIGNER),
    ) {
        return true;
    }
    match read_response(data) {
        None => true,
        Some((ok, payload)) => {
            if ok || payload.len() != 8 {
                return true;
            }
            let amount: u64 = read_u64(payload.as_slice(), 0);
            assert(payload@.subrange(0, 8) =~= payload@);
            accounts.get(1).lamports >= amount && (accounts.refs[1] == accounts.refs[2]
                || accounts.get(2).lamports <= u64::MAX - amount)
        },
    }
}

/// The accounts once the callback of a transfer was served.
pub open spec fn after_callback(accounts: Accounts, data: Seq<u8>) -> Seq<AccountState> {
    match given_back(accounts, data) {
        Ok(Some(amount)) => moved(
            accounts@,
            accounts.refs@[1] as int,
            accounts.refs@[2] as int,
            amount,
        ),
        _ => accounts@,
    }
}

/// Takes the report on a transfer: one that failed is given back to the payer.
pub fn process_transfer_callback(accounts: &mut Accounts, data: &[u8]) -> (r: Result<
    Vec<Effect>,
    ProgramError,
>)
    requires
        old(accounts).wf(),
        payable(*old(accounts), data@),
    ensures
        final(accounts).wf(),
        final(accounts).refs@ == old(accounts).refs@,
        final(accounts)@ == after_callback(*old(accounts), data@),
        says(
            r,
            match given_back(*old(accounts), data@) {
                Ok(_) => Ok(Seq::empty()),
                Err(e) => Err(e),
            },
        ),
{
    if accounts.len() != 4 {
        return Err(ProgramError::NotEnoughAccountKeys);
    }
    if !accounts.get(0).is_signer {
        return Err(ProgramError::MissingRequiredSignature);
    }
    if !accounts.get(0).key.same(&Pubkey::new(CALLBACK_SIGNER)) {
        return Err(ProgramError::IncorrectAuthority);
    }
    let (ok, payload): (bool, Vec<u8>) = match read_response(data) {
        Some(found) => found,
        None => {
            return Err(ProgramError::InvalidInstructionData);
        },
    };
    if !ok {
        if payload.len() != 8 {
            return Err(ProgramError::InvalidInstructionData);
        }
        let amount: u64 = read_u64(payload.as_slice(), 0);
        assert(payload@.subrange(0, 8) =~= payload@);
        let held: u64 = accounts.get(1).lamports;
        assert(accounts.refs@[1] < accounts.store@.len() && accounts.refs@[2]
            < accounts.store@.len());
        accounts.set_lamports(1, held - amount);
        let owned: u64 = accounts.get(2).lamports;
        accounts.set_lamports(2, owned + amount);
        assert(accounts@ =~= after_callback(*old(accounts), data@));
    }
    Ok(no_plan())
}

/// The callback of a transfer keeps the lamports: what the counter loses the
/// payer gets, and all other accounts are untouched.
pub proof fn callbacks_keep_lamports(accounts: Accounts, data: Seq<u8>, s: int)
    requires
        accounts.wf(),
        payable(accounts, data),
        accounts.count() == 4,
        accounts.refs@[1] != accounts.refs@[2],
        0 <= s < accounts@.len(),
    ensures
        ({
            let after = after_callback(accounts, data);
            let counter = accounts.refs@[1] as int;
            let payer = accounts.refs@[2] as int;
            &&& after[counter].lamports + after[payer].lamports == accounts@[counter].lamports
                + accounts@[payer].lamports
            &&& s != counter && s != payer ==> after[s] == accounts@[s]
        }),
{
    assert(accounts.refs@[1] < accounts.store@.len() && accounts.refs@[2] < accounts.store@.len());
}

/// What a task runs: a failing addition, an addition by its payer, or one
/// without a signature.
pub open spec fn task_instruction(payer: Pubkey, error: bool, signer: bool) -> InstructionState {
    let counter = writable(flexi_of(payer), false);
    if error {
        InstructionState {
            program_id: key(ID),
            accounts: seq![counter],
            data: flexi_data(FlexiInstruction::AddError { count: 1 }),
        }
    } else if signer {
        InstructionState {
            program_id: key(ID),
            accounts: seq![readonly(payer, true), counter],
            data: flexi_data(FlexiInstruction::Add { count: 1 }),
        }
    } else {
        InstructionState {
            program_id: key(ID),
            accounts: seq![counter],
            data: flexi_data(FlexiInstruction::AddUnsigned { count: 1 }),
        }
    }
}

/// The answer that schedules a task on the counter of a payer, with the
/// signature of the counter.
pub open spec fn schedule_task_answer(
    accounts: Accounts,
    task_id: i64,
    execution_interval_millis: i64,
    iterations: i64,
    error: bool,
    signer: bool,
) -> Answer {
    if accounts.count() != 3 {
        Err(ProgramError::NotEnoughAccountKeys)
    } else {
        let payer = accounts.at(1).key;
        match bump_of(flexi_address(payer), accounts.at(2).key) {
            None => Err(ProgramError::InvalidSeeds),
            Some(bump) => Ok(
                seq![
                    Deed::Invoke {
                        program_id: accounts.at(0).key,
                        accounts: seq![writable(payer, true), writable(accounts.at(2).key, true)],
                        data: task_data(
                            task_id,
                            execution_interval_millis,
                            iterations,
                            seq![task_instruction(payer, error, signer)],
                        ),
                        infos: seq![1usize, 2usize],
                        signer_seeds: seq![signing_seeds(payer, bump)],
                    },
                ],
            ),
        }
    }
}

/// Schedules a task on the counter of a payer.
pub fn process_schedule_counter_task(
    accounts: &Accounts,
    task_id: i64,
    execution_interval_millis: i64,
    iterations: i64,
    error: bool,
    signer: bool,
) -> (r: Result<Vec<Effect>, ProgramError>)
    requires
        accounts.wf(),
    ensures
        says(
            r,
            schedule_task_answer(
                *accounts,
                task_id,
                execution_interval_millis,
                iterations,
                error,
                signer,
            ),
        ),
{
    if accounts.len() != 3 {
        return Err(ProgramError::NotEnoughAccountKeys);
    }
    let payer = accounts.get(1).key;
    let bump: u8 = match bump_if_at(FlexiCounter::pda_and_bump(&payer), &accounts.get(2).key) {
        None => {
            return Err(ProgramError::InvalidSeeds);
        },
        Some(bump) => bump,
    };
    let task = if error {
        add_error(payer, 1)
    } else if signer {
        crate::redshift::flexi_builders::add(payer, 1)
    } else {
        add_unsigned(payer, 1)
    };
    let task: SolanaInstruction = match task {
        None => {
            return Err(ProgramError::InvalidSeeds);
        },
        Some(task) => task,
    };
    assert(task@ =~= task_instruction(payer, error, signer));
    let mut tasks: Vec<SolanaInstruction> = Vec::new();
    tasks.push(task);
    assert(instruction_states(tasks@) =~= seq![task_instruction(payer, error, signer)]);
    let data: Vec<u8> = task_bytes(
        task_id,
        execution_interval_millis,
        iterations,
        tasks.as_slice(),
    );
    let metas: Vec<AccountMeta> = vec![
        AccountMeta::new(payer, true),
        AccountMeta::new(accounts.get(2).key, true),
    ];
    let instruction = SolanaInstruction {
        program_id: accounts.get(0).key,
        accounts: metas,
        data,
    };
    let infos: Vec<usize> = vec![1, 2];
    let mut signer_seeds: Vec<Vec<Vec<u8>>> = Vec::new();
    signer_seeds.push(with_bump(flexi_seeds(&payer), bump));
    assert(all_seeds(signer_seeds@) =~= seq![signing_seeds(payer, bump)]);
    Ok(plan_of(Effect::Invoke { instruction, infos, signer_seeds }))
}

/// The answer that cancels a task.
pub open spec fn cancel_task_answer(accounts: Accounts, task_id: i64) -> Answer {
    if accounts.count() != 2 {
        Err(ProgramError::NotEnoughAccountKeys)
    } else {
        Ok(
            seq![
                Deed::Invoke {
                    program_id: accounts.at(0).key,
                    accounts: seq![writable(accounts.at(1).key, true)],
                    data: cancel_data(task_id),
                    infos: seq![1usize],
                    signer_seeds: Seq::empty(),
                },
            ],
        )
    }
}

/// Cancels a task.
pub fn process_cancel_counter_task(accounts: &Accounts, task_id: i64) -> (r: Result<
    Vec<Effect>,
    ProgramError,
>)
    requires
        accounts.wf(),
    ensures
        says(r, cancel_task_answer(*accounts, task_id)),
{
    if accounts.len() != 2 {
        return Err(ProgramError::NotEnoughAccountKeys);
    }
    let metas: Vec<AccountMeta> = vec![AccountMeta::new(accounts.get(1).key, true)];
    assert(metas@ =~= seq![writable(accounts.at(1).key, true)]);
    let infos: Vec<usize> = vec![1];
    assert(infos@ =~= seq![1usize]);
    let signer_seeds: Vec<Vec<Vec<u8>>> = Vec::new();
    assert(all_seeds(signer_seeds@) =~= Seq::<Seq<Seq<u8>>>::empty());
    let instruction = SolanaInstruction {
        program_id: accounts.get(0).key,
        accounts: metas,
        data: cancel_bytes(task_id),
    };
    Ok(plan_of(Effect::Invoke { instruction, infos, signer_seeds }))
}

/// The number of accounts that an addition with a commit takes.
pub open spec fn commit_count(has_magic_vault: bool) -> int {
    if has_magic_vault {
        5
    } else {
        4
    }
}

/// The accounts once the counter at the second position was added to and its
/// commit asked for, and the answer to that.
pub open spec fn add_and_commit_answer(
    accounts: Accounts,
    count: u8,
    undelegate: bool,
    has_magic_vault: bool,
) -> (Seq<AccountState>, Answer) {
    if accounts.count() < commit_count(has_magic_vault) {
        (accounts@, Err(ProgramError::NotEnoughAccountKeys))
    } else {
        let (done, answer) = changed(accounts, 1, Change::Add(count));
        (
            done,
            match answer {
                Err(e) => Err(e),
                Ok(_) => Ok(
                    seq![
                        Deed::Commit {
                            payer: 0,
                            committees: seq![1usize],
                            magic_context: 2,
                            magic_program: 3,
                            magic_fee_vault: if has_magic_vault {
                                Some(4)
                            } else {
                                None
                            },
                            undelegate,
                        },
                    ],
                ),
            },
        )
    }
}

/// Adds to the counter at the second position and asks for its commit, and
/// with `undelegate` for its return.
pub fn process_add_and_schedule_commit(
    accounts: &mut Accounts,
    count: u8,
    undelegate: bool,
    has_magic_vault: bool,
) -> (r: Result<Vec<Effect>, ProgramError>)
    requires
        old(accounts).wf(),
        old(accounts).count() >= commit_count(has_magic_vault) ==> changeable(
            *old(accounts),
            1,
            Change::Add(count),
        ),
    ensures
        final(accounts).wf(),
        final(accounts).refs@ == old(accounts).refs@,
        final(accounts)@ == add_and_commit_answer(
            *old(accounts),
            count,
            undelegate,
            has_magic_vault,
        ).0,
        says(
            r,
            add_and_commit_answer(*old(accounts), count, undelegate, has_magic_vault).1,
        ),
{
    let needed: usize = if has_magic_vault {
        5
    } else {
        4
    };
    if accounts.len() < needed {
        return Err(ProgramError::NotEnoughAccountKeys);
    }
    match apply(accounts, 1, Change::Add(count)) {
        Err(e) => Err(e),
        Ok(_) => {
            let committees: Vec<usize> = vec![1];
            assert(committees@ =~= seq![1usize]);
            Ok(
                plan_of(
                    Effect::Commit {
                        payer: 0,
                        committees,
                        magic_context: 2,
                        magic_program: 3,
                        magic_fee_vault: if has_magic_vault {
                            Some(4)
                        } else {
                            None
                        },
                        undelegate,
                    },
                ),
            )
        },
    }
}

/// What an instruction counts on: counters whose count and number of updates
/// stay within bounds, and a payer of every intent.
pub open spec fn ready(ix: FlexiInstruction, accounts: Accounts) -> bool {
    match ix {
        FlexiInstruction::Add { count } => changeable(accounts, 1, Change::Add(count)),
        FlexiInstruction::AddUnsigned { count } => changeable(accounts, 0, Change::Add(count)),
        FlexiInstruction::Mul { multiplier } => changeable(accounts, 1, Change::Mul(multiplier)),
        FlexiInstruction::AddAndScheduleCommit { count, has_magic_vault, .. } => accounts.count()
            >= commit_count(has_magic_vault) ==> changeable(accounts, 1, Change::Add(count)),
        FlexiInstruction::CreateIntent { num_committees, .. } => num_committees == 0
            ==> accounts.count() != 5,
        FlexiInstruction::UndelegateActionHandler { counter_diff, .. } => adjustable(
            accounts,
            counter_diff,
        ),
        _ => true,
    }
}

/// Whether an instruction finds what it counts on.
fn is_ready(ix: &FlexiInstruction, accounts: &Accounts) -> (r: bool)
    requires
        accounts.wf(),
    ensures
        r == ready(*ix, *accounts),
{
    match ix {
        FlexiInstruction::Add { count } => can_change(accounts, 1, Change::Add(*count)),
        FlexiInstruction::AddUnsigned { count } => can_change(accounts, 0, Change::Add(*count)),
        FlexiInstruction::Mul { multiplier } => can_change(accounts, 1, Change::Mul(*multiplier)),
        FlexiInstruction::AddAndScheduleCommit { count, has_magic_vault, .. } => {
            let needed: usize = if *has_magic_vault {
                5
            } else {
                4
            };
            accounts.len() < needed || can_change(accounts, 1, Change::Add(*count))
        },
        FlexiInstruction::CreateIntent { num_committees, .. } => *num_committees != 0
            || accounts.len() != 5,
        FlexiInstruction::UndelegateActionHandler { counter_diff, .. } => can_adjust(
            accounts,
            *counter_diff,
        ),
        _ => true,
    }
}

/// Whether what a payload asks for finds what it counts on.
pub open spec fn ready_for(payload: Seq<u8>, accounts: Accounts) -> bool {
    forall|ix: FlexiInstruction|
        ix.fits() && payload == #[trigger] ix.encoding() ==> ready(ix, accounts)
}

/// What an instruction counts on shows in its bytes.
proof fn lemma_ready_by_fields(one: FlexiInstruction, other: FlexiInstruction, accounts: Accounts)
    requires
        one.tag() == other.tag(),
        one.fields() == other.fields(),
    ensures
        ready(one, accounts) == ready(other, accounts),
{
    let a = one.fields();
    let b = other.fields();
    match one {
        FlexiInstruction::UndelegateActionHandler { .. } => {
            assert(a[1] == b[1]);
        },
        FlexiInstruction::AddAndScheduleCommit { .. } => {
            assert(a[0] == b[0] && a[2] == b[2]);
        },
        _ => {
            assert(a.len() > 0 ==> a[0] == b[0]);
        },
    }
}

/// Whether what a payload asks for finds what it counts on, and [`process`]
/// can serve it.
pub fn can_process(accounts: &Accounts, payload: &[u8]) -> (r: bool)
    requires
        accounts.wf(),
    ensures
        r == ready_for(payload@, *accounts),
{
    match FlexiInstruction::decode(payload) {
        None => true,
        Some(ix) => {
            let r: bool = is_ready(&ix, accounts);
            proof {
                assert forall|other: FlexiInstruction|
                    other.fits() && payload@ == #[trigger] other.encoding() implies ready(
                    other,
                    *accounts,
                ) == r by {
                    encoding_is_read_back(ix, other);
                    lemma_ready_by_fields(ix, other, *accounts);
                }
                assert(payload@ == ix.encoding());
            }
            r
        },
    }
}

/// The accounts that serving `ix` leaves, and the answer to it. `required` is
/// the balance that a new counter needs.
pub open spec fn answer(ix: FlexiInstruction, accounts: Accounts, required: u64) -> (
    Seq<AccountState>,
    Answer,
) {
    match ix {
        FlexiInstruction::Init { label, bump } => (
            accounts@,
            init_answer(accounts, label@, bump, required),
        ),
        FlexiInstruction::Delegate { commit_frequency_ms, validator } => (
            accounts@,
            delegation_answer(
                accounts,
                seq![ID@, FLEXI_SEED@, accounts.at(0).key@],
                commit_frequency_ms,
                validator,
            ),
        ),
        FlexiInstruction::Add { count } => change_answer(accounts, 1, Change::Add(count)),
        FlexiInstruction::CreateIntent {
            num_committees,
            counter_diffs,
            is_undelegate,
            compute_units,
        } => (
            accounts@,
            intent_answer(
                accounts,
                num_committees,
                counter_diffs@,
                is_undelegate,
                compute_units,
            ),
        ),
        FlexiInstruction::CommitActionHandler { amount } => (
            accounts@,
            commit_action_answer(accounts, amount),
        ),
        FlexiInstruction::UndelegateActionHandler { amount, counter_diff } =>
            undelegate_action_answer(accounts, amount, counter_diff),
        FlexiInstruction::CreateIntentBundle {
            num_commit_only,
            num_undelegate,
            counter_diffs,
            compute_units,
        } => (
            accounts@,
            bundle_answer(
                accounts,
                num_commit_only,
                num_undelegate,
                counter_diffs@,
                compute_units,
            ),
        ),
        FlexiInstruction::CreateIntentBundleCommitAndFinalize { num_commit, num_commit_finalize } =>
            (accounts@, finalize_answer(accounts, num_commit, num_commit_finalize)),
        FlexiInstruction::CreateTransferIntent { amount, fail, compute_units } => (
            accounts@,
            transfer_intent_answer(accounts, amount, fail, compute_units),
        ),
        FlexiInstruction::TransferActionHandler { amount, fail } => (
            accounts@,
            transfer_action_answer(accounts, amount, fail),
        ),
        FlexiInstruction::AddUnsigned { count } => change_answer(accounts, 0, Change::Add(count)),
        FlexiInstruction::AddError { .. } => (accounts@, Err(ProgramError::Custom(0))),
        FlexiInstruction::ScheduleCounterTask {
            task_id,
            execution_interval_millis,
            iterations,
            error,
            signer,
        } => (
            accounts@,
            schedule_task_answer(
                accounts,
                task_id,
                execution_interval_millis,
                iterations,
                error,
                signer,
            ),
        ),
        FlexiInstruction::CancelCounterTask { task_id } => (
            accounts@,
            cancel_task_answer(accounts, task_id),
        ),
        FlexiInstruction::Mul { multiplier } => change_answer(
            accounts,
            1,
            Change::Mul(multiplier),
        ),
        FlexiInstruction::AddAndScheduleCommit { count, undelegate, has_magic_vault } =>
            add_and_commit_answer(accounts, count, undelegate, has_magic_vault),
    }
}

/// Serves one instruction on labelled counters.
pub fn serve(accounts: &mut Accounts, ix: &FlexiInstruction, required: u64) -> (r: Result<
    Vec<Effect>,
    ProgramError,
>)
    requires
        old(accounts).wf(),
        ready(*ix, *old(accounts)),
    ensures
        final(accounts).wf(),
        final(accounts).refs@ == old(accounts).refs@,
        final(accounts)@ == answer(*ix, *old(accounts), required).0,
        says(r, answer(*ix, *old(accounts), required).1),
{
    match ix {
        FlexiInstruction::Init { label, bump } => process_init(
            accounts,
            label.as_str(),
            *bump,
            required,
        ),
        FlexiInstruction::Delegate { commit_frequency_ms, validator } => process_delegate(
            accounts,
            *commit_frequency_ms,
            *validator,
        ),
        FlexiInstruction::Add { count } => process_add(accounts, *count),
        FlexiInstruction::CreateIntent {
            num_committees,
            counter_diffs,
            is_undelegate,
            compute_units,
        } => process_create_intent(
            accounts,
            *num_committees,
            counter_diffs.as_slice(),
            *is_undelegate,
            *compute_units,
        ),
        FlexiInstruction::CommitActionHandler { amount } => process_commit_action_handler(
            accounts,
            *amount,
        ),
        FlexiInstruction::UndelegateActionHandler { amount, counter_diff } =>
            process_undelegate_action_handler(accounts, *amount, *counter_diff),
        FlexiInstruction::CreateIntentBundle {
            num_commit_only,
            num_undelegate,
            counter_diffs,
            compute_units,
        } => process_create_intent_bundle(
            accounts,
            *num_commit_only,
            *num_undelegate,
            counter_diffs.as_slice(),
            *compute_units,
        ),
        FlexiInstruction::CreateIntentBundleCommitAndFinalize { num_commit, num_commit_finalize } =>
            process_create_intent_bundle_commit_and_finalize(
            accounts,
            *num_commit,
            *num_commit_finalize,
        ),
        FlexiInstruction::CreateTransferIntent { amount, fail, compute_units } =>
            process_create_transfer_intent(accounts, *amount, *fail, *compute_units),
        FlexiInstruction::TransferActionHandler { amount, fail } =>
            process_transfer_action_handler(accounts, *amount, *fail),
        FlexiInstruction::AddUnsigned { count } => process_add_unsigned(accounts, *count),
        FlexiInstruction::AddError { .. } => process_add_error(),
        FlexiInstruction::ScheduleCounterTask {
            task_id,
            execution_interval_millis,
            iterations,
            error,
            signer,
        } => process_schedule_counter_task(
            accounts,
            *task_id,
            *execution_interval_millis,
            *iterations,
            *error,
            *signer,
        ),
        FlexiInstruction::CancelCounterTask { task_id } => process_cancel_counter_task(
            accounts,
            *task_id,
        ),
        FlexiInstruction::Mul { multiplier } => process_mul(accounts, *multiplier),
        FlexiInstruction::AddAndScheduleCommit { count, undelegate, has_magic_vault } =>
            process_add_and_schedule_commit(accounts, *count, *undelegate, *has_magic_vault),
    }
}

/// Whether serving a payload on `before` leaves `after` and answers `r`.
pub open spec fn processed(
    payload: Seq<u8>,
    before: Accounts,
    after: Seq<AccountState>,
    required: u64,
    r: Result<Vec<Effect>, ProgramError>,
) -> bool {
    ||| exists|ix: FlexiInstruction|
        ix.fits() && payload == #[trigger] ix.encoding() && after == answer(ix, before, required).0
            && says(r, answer(ix, before, required).1)
    ||| {
        &&& forall|ix: FlexiInstruction| ix.fits() ==> payload != #[trigger] ix.encoding()
        &&& r == Err::<Vec<Effect>, _>(ProgramError::InvalidInstructionData)
        &&& after == before@
    }
}

/// Serves the instruction on labelled counters that a payload holds; one that
/// holds none is refused. `required` is the balance that a new counter needs.
pub fn process(accounts: &mut Accounts, payload: &[u8], required: u64) -> (r: Result<
    Vec<Effect>,
    ProgramError,
>)
    requires
        old(accounts).wf(),
        ready_for(payload@, *old(accounts)),
    ensures
        final(accounts).wf(),
        final(accounts).refs@ == old(accounts).refs@,
        processed(payload@, *old(accounts), final(accounts)@, required, r),
{
    match FlexiInstruction::decode(payload) {
        None => Err(ProgramError::InvalidInstructionData),
        Some(ix) => serve(accounts, &ix, required),
    }
}

/// A change keeps the label, counts itself as one update, and touches no other
/// account.
pub proof fn changes_keep_the_label(accounts: Accounts, at: int, change: Change, s: int)
    requires
        accounts.wf(),
        0 <= at < accounts.count(),
        changeable(accounts, at, change),
        0 <= s < accounts@.len(),
        counter_in(accounts.at(at).data) is Some,
    ensures
        ({
            let (after, answer) = changed(accounts, at, change);
            let (count, updates, label) = counter_in(accounts.at(at).data)->0;
            &&& answer is Ok
            &&& counter_in(after[accounts.refs@[at] as int].data) == Some(
                (change.of(count) as u64, (updates + 1) as u64, label),
            )
            &&& s != accounts.refs@[at] ==> after[s] == accounts@[s]
        }),
{
    let (count, updates, label) = counter_in(accounts.at(at).data)->0;
    assert(accounts.refs@[at] < accounts.store@.len());
    lemma_counter_in(change.of(count) as u64, (updates + 1) as u64, label);
}

} // verus!
