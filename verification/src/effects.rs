//! What a program asks the runtime to do once it has checked an instruction:
//! the calls into other programs and the writes that follow them, in order.
use crate::address::seed_bytes;
use crate::chain::{positions, AccountMeta, Accounts, ProgramError, Pubkey, SolanaInstruction};
use vstd::prelude::*;

verus! {

/// A handler that runs on the base chain after a commit or an undelegation.
#[derive(Clone, Debug)]
pub struct CallHandler {
    pub data: Vec<u8>,
    pub escrow_index: u8,
    pub compute_units: u32,
    pub escrow_authority: usize,
    pub destination_program: Pubkey,
    pub accounts: Vec<ShortMeta>,
}

/// An account that a handler touches.
#[derive(Clone, Copy, Debug, PartialEq, Eq, Structural)]
pub enum ShortMeta {
    /// The account at a position, with the flags it was handed over with.
    Position(usize),
    /// The account at a position, writable.
    Writable(usize),
    /// The signer of callbacks, read-only.
    CallbackSigner,
}

/// A callback that reports how an action went.
#[derive(Clone, Debug)]
pub struct ActionCallback {
    pub destination_program: Pubkey,
    pub discriminator: Vec<u8>,
    pub payload: Vec<u8>,
    pub compute_units: u32,
    pub accounts: Vec<ShortMeta>,
}

/// What is committed, with the handlers that run afterwards.
#[derive(Clone, Debug)]
pub struct CommitIntent {
    pub accounts: Vec<usize>,
    pub handlers: Vec<CallHandler>,
    pub callback: Option<ActionCallback>,
}

/// What is committed and undelegated, with the handlers that run afterwards.
#[derive(Clone, Debug)]
pub struct UndelegateIntent {
    pub accounts: Vec<usize>,
    pub commit_handlers: Vec<CallHandler>,
    pub undelegate_handlers: Vec<CallHandler>,
}

/// One thing for the runtime to do. Accounts are named by their position in
/// the instruction.
#[derive(Clone, Debug)]
pub enum Effect {
    /// Calls another program.
    Invoke { instruction: SolanaInstruction, infos: Vec<usize>, signer_seeds: Vec<Vec<Vec<u8>>> },
    /// Creates the account at `target`, with enough lamports to stay.
    CreatePda {
        target: usize,
        owner: Pubkey,
        space: usize,
        seeds: Vec<Vec<u8>>,
        system_program: usize,
        payer: usize,
    },
    /// Hands the account at `pda` to the delegation program. The positions are
    /// those of the payer, the account, its owner program, the buffer, the
    /// record, the metadata, the delegation program and the system program.
    Delegate {
        positions: Vec<usize>,
        seeds: Vec<Vec<u8>>,
        commit_frequency_ms: u32,
        validator: Option<Pubkey>,
    },
    /// Takes the account at `delegated` back from the delegation program.
    Undelegate {
        delegated: usize,
        owner: Pubkey,
        buffer: usize,
        payer: usize,
        system_program: usize,
        seeds: Vec<Vec<u8>>,
    },
    /// Schedules a commit, and with `undelegate` the return of what is
    /// committed.
    Commit {
        payer: usize,
        committees: Vec<usize>,
        magic_context: usize,
        magic_program: usize,
        magic_fee_vault: Option<usize>,
        undelegate: bool,
    },
    /// Schedules a bundle of intents.
    IntentBundle {
        payer: usize,
        magic_context: usize,
        magic_program: usize,
        magic_fee_vault: Option<usize>,
        commit: Option<CommitIntent>,
        commit_and_undelegate: Option<UndelegateIntent>,
    },
    /// Writes `bytes` to the front of the account at `target`.
    Write { target: usize, bytes: Vec<u8> },
    /// Raises the count of every committee by one.
    IncreaseCounts { committees: Vec<usize> },
    /// Changes the size of the account at `target`.
    Resize { target: usize, size: usize },
    /// Fails if the account at `target` holds what must not be returned.
    CheckReturned { target: usize },
    /// Writes a line to the log.
    Log { text: String },
    /// Fails with a code of the program's own.
    Fail { code: u32 },
}

/// What a handler is.
#[verifier::ext_equal]
pub struct HandlerState {
    pub data: Seq<u8>,
    pub escrow_index: u8,
    pub compute_units: u32,
    pub escrow_authority: usize,
    pub destination_program: Pubkey,
    pub accounts: Seq<ShortMeta>,
}

impl View for CallHandler {
    type V = HandlerState;

    open spec fn view(&self) -> HandlerState {
        HandlerState {
            data: self.data@,
            escrow_index: self.escrow_index,
            compute_units: self.compute_units,
            escrow_authority: self.escrow_authority,
            destination_program: self.destination_program,
            accounts: self.accounts@,
        }
    }
}

/// What several handlers are.
pub open spec fn handler_states(handlers: Seq<CallHandler>) -> Seq<HandlerState> {
    Seq::new(handlers.len(), |i: int| handlers[i]@)
}

/// What a callback is.
#[verifier::ext_equal]
pub struct CallbackState {
    pub destination_program: Pubkey,
    pub discriminator: Seq<u8>,
    pub payload: Seq<u8>,
    pub compute_units: u32,
    pub accounts: Seq<ShortMeta>,
}

impl View for ActionCallback {
    type V = CallbackState;

    open spec fn view(&self) -> CallbackState {
        CallbackState {
            destination_program: self.destination_program,
            discriminator: self.discriminator@,
            payload: self.payload@,
            compute_units: self.compute_units,
            accounts: self.accounts@,
        }
    }
}

/// What is committed.
#[verifier::ext_equal]
pub struct CommitState {
    pub accounts: Seq<usize>,
    pub handlers: Seq<HandlerState>,
    pub callback: Option<CallbackState>,
}

impl View for CommitIntent {
    type V = CommitState;

    open spec fn view(&self) -> CommitState {
        CommitState {
            accounts: self.accounts@,
            handlers: handler_states(self.handlers@),
            callback: match self.callback {
                Some(callback) => Some(callback@),
                None => None,
            },
        }
    }
}

/// What is committed and undelegated.
#[verifier::ext_equal]
pub struct UndelegateState {
    pub accounts: Seq<usize>,
    pub commit_handlers: Seq<HandlerState>,
    pub undelegate_handlers: Seq<HandlerState>,
}

impl View for UndelegateIntent {
    type V = UndelegateState;

    open spec fn view(&self) -> UndelegateState {
        UndelegateState {
            accounts: self.accounts@,
            commit_handlers: handler_states(self.commit_handlers@),
            undelegate_handlers: handler_states(self.undelegate_handlers@),
        }
    }
}

/// What an effect does.
#[verifier::ext_equal]
pub enum Deed {
    Invoke {
        program_id: Pubkey,
        accounts: Seq<AccountMeta>,
        data: Seq<u8>,
        infos: Seq<usize>,
        signer_seeds: Seq<Seq<Seq<u8>>>,
    },
    CreatePda {
        target: usize,
        owner: Pubkey,
        space: usize,
        seeds: Seq<Seq<u8>>,
        system_program: usize,
        payer: usize,
    },
    Delegate {
        positions: Seq<usize>,
        seeds: Seq<Seq<u8>>,
        commit_frequency_ms: u32,
        validator: Option<Pubkey>,
    },
    Undelegate {
        delegated: usize,
        owner: Pubkey,
        buffer: usize,
        payer: usize,
        system_program: usize,
        seeds: Seq<Seq<u8>>,
    },
    Commit {
        payer: usize,
        committees: Seq<usize>,
        magic_context: usize,
        magic_program: usize,
        magic_fee_vault: Option<usize>,
        undelegate: bool,
    },
    IntentBundle {
        payer: usize,
        magic_context: usize,
        magic_program: usize,
        magic_fee_vault: Option<usize>,
        commit: Option<CommitState>,
        commit_and_undelegate: Option<UndelegateState>,
    },
    Write { target: usize, bytes: Seq<u8> },
    IncreaseCounts { committees: Seq<usize> },
    Resize { target: usize, size: usize },
    CheckReturned { target: usize },
    Log { text: Seq<char> },
    Fail { code: u32 },
}

/// The seeds of several signers.
pub open spec fn all_seeds(seeds: Seq<Vec<Vec<u8>>>) -> Seq<Seq<Seq<u8>>> {
    Seq::new(seeds.len(), |i: int| seed_bytes(seeds[i]@))
}

impl View for Effect {
    type V = Deed;

    open spec fn view(&self) -> Deed {
        match self {
            Effect::Invoke { instruction, infos, signer_seeds } => Deed::Invoke {
                program_id: instruction.program_id,
                accounts: instruction.accounts@,
                data: instruction.data@,
                infos: infos@,
                signer_seeds: all_seeds(signer_seeds@),
            },
            Effect::CreatePda { target, owner, space, seeds, system_program, payer } =>
                Deed::CreatePda {
                target: *target,
                owner: *owner,
                space: *space,
                seeds: seed_bytes(seeds@),
                system_program: *system_program,
                payer: *payer,
            },
            Effect::Delegate { positions, seeds, commit_frequency_ms, validator } =>
                Deed::Delegate {
                positions: positions@,
                seeds: seed_bytes(seeds@),
                commit_frequency_ms: *commit_frequency_ms,
                validator: *validator,
            },
            Effect::Undelegate { delegated, owner, buffer, payer, system_program, seeds } =>
                Deed::Undelegate {
                delegated: *delegated,
                owner: *owner,
                buffer: *buffer,
                payer: *payer,
                system_program: *system_program,
                seeds: seed_bytes(seeds@),
            },
            Effect::Commit {
                payer,
                committees,
                magic_context,
                magic_program,
                magic_fee_vault,
                undelegate,
            } => Deed::Commit {
                payer: *payer,
                committees: committees@,
                magic_context: *magic_context,
                magic_program: *magic_program,
                magic_fee_vault: *magic_fee_vault,
                undelegate: *undelegate,
            },
            Effect::IntentBundle {
                payer,
                magic_context,
                magic_program,
                magic_fee_vault,
                commit,
                commit_and_undelegate,
            } => Deed::IntentBundle {
                payer: *payer,
                magic_context: *magic_context,
                magic_program: *magic_program,
                magic_fee_vault: *magic_fee_vault,
                commit: match commit {
                    Some(intent) => Some(intent@),
                    None => None,
                },
                commit_and_undelegate: match commit_and_undelegate {
                    Some(intent) => Some(intent@),
                    None => None,
                },
            },
            Effect::Write { target, bytes } => Deed::Write { target: *target, bytes: bytes@ },
            Effect::IncreaseCounts { committees } => Deed::IncreaseCounts {
                committees: committees@,
            },
            Effect::Resize { target, size } => Deed::Resize { target: *target, size: *size },
            Effect::CheckReturned { target } => Deed::CheckReturned { target: *target },
            Effect::Log { text } => Deed::Log { text: text@ },
            Effect::Fail { code } => Deed::Fail { code: *code },
        }
    }
}

/// What a plan does, one thing after the other.
pub open spec fn deeds(plan: Seq<Effect>) -> Seq<Deed> {
    Seq::new(plan.len(), |i: int| plan[i]@)
}

/// A plan that does nothing.
pub fn no_plan() -> (r: Vec<Effect>)
    ensures
        deeds(r@) == Seq::<Deed>::empty(),
{
    let r: Vec<Effect> = Vec::new();
    assert(deeds(r@) =~= Seq::<Deed>::empty());
    r
}

/// A plan that does one thing.
pub fn plan_of(effect: Effect) -> (r: Vec<Effect>)
    ensures
        deeds(r@) == seq![effect@],
{
    let mut r: Vec<Effect> = Vec::new();
    r.push(effect);
    assert(deeds(r@) =~= seq![effect@]);
    r
}

/// A plan that does two things.
pub fn plan_of_two(first: Effect, second: Effect) -> (r: Vec<Effect>)
    ensures
        deeds(r@) == seq![first@, second@],
{
    let mut r: Vec<Effect> = Vec::new();
    r.push(first);
    r.push(second);
    assert(deeds(r@) =~= seq![first@, second@]);
    r
}

/// What a program answers to an instruction: the things that are to be done, or
/// why it refuses.
pub type Answer = Result<Seq<Deed>, ProgramError>;

/// Whether `r` is this answer.
pub open spec fn says(r: Result<Vec<Effect>, ProgramError>, answer: Answer) -> bool {
    match r {
        Ok(plan) => answer == Ok::<_, ProgramError>(deeds(plan@)),
        Err(e) => answer == Err::<Seq<Deed>, _>(e),
    }
}

/// The answer that hands the second of eight accounts to the delegation
/// program.
pub open spec fn delegation_answer(
    accounts: Accounts,
    seeds: Seq<Seq<u8>>,
    commit_frequency_ms: u32,
    validator: Option<Pubkey>,
) -> Answer {
    if accounts.count() != 8 {
        Err(ProgramError::NotEnoughAccountKeys)
    } else {
        Ok(
            seq![
                Deed::Delegate {
                    positions: positions(0, 8),
                    seeds,
                    commit_frequency_ms,
                    validator,
                },
            ],
        )
    }
}

/// Hands the second of eight accounts to the delegation program.
pub fn plan_delegation(
    accounts: &Accounts,
    seeds: Vec<Vec<u8>>,
    commit_frequency_ms: u32,
    validator: Option<Pubkey>,
) -> (r: Result<Vec<Effect>, ProgramError>)
    ensures
        says(
            r,
            delegation_answer(*accounts, seed_bytes(seeds@), commit_frequency_ms, validator),
        ),
{
    if accounts.len() != 8 {
        return Err(ProgramError::NotEnoughAccountKeys);
    }
    let positions: Vec<usize> = vec![0, 1, 2, 3, 4, 5, 6, 7];
    assert(positions@ =~= crate::chain::positions(0, 8));
    Ok(plan_of(Effect::Delegate { positions, seeds, commit_frequency_ms, validator }))
}

} // verus!
