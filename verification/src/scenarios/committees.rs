//! Delegated counters that the security suites work on.
use crate::chain::{key, Pubkey, SolanaInstruction};
use crate::delegation::DelegateAccounts;
use crate::ids::DELEGATION_PROGRAM_ID;
use crate::redshift::schedule_builders::{
    delegate_cpi, init_account, init_metas, is_delegation, schedule_data,
};
use crate::redshift::schedule_commit::{
    counter_address, counter_of, DelegateCpiArgs, ScheduleCommitInstruction, MAIN_ACCOUNT_SIZE,
};
use crate::redshift::ID;
use vstd::prelude::*;

verus! {

/// What a payer is funded with.
pub const PAYER_LAMPORTS: u64 = 2_000_000_000;

/// How often a delegated counter is committed of itself: never within a run.
pub const COMMIT_FREQUENCY_MS: u32 = 1_000_000_000;

/// A delegated counter and its player.
#[derive(Clone, Copy, Debug)]
pub struct Committee {
    pub player: Pubkey,
    pub pda: Pubkey,
}

/// What sets up a counter: one transaction that the payer and the player sign.
#[derive(Clone, Debug)]
pub struct CommitteeSetup {
    pub committee: Committee,
    pub init: SolanaInstruction,
    pub delegate: SolanaInstruction,
}

impl CommitteeSetup {
    /// Whether this creates and delegates the counter of a player.
    pub open spec fn is_for(&self, payer: Pubkey, player: Pubkey, validator: Pubkey) -> bool {
        &&& self.committee.player == player
        &&& self.committee.pda == counter_of(player)
        &&& self.init.is(
            key(ID),
            init_metas(payer, player, counter_of(player), true),
            schedule_data(ScheduleCommitInstruction::Init),
        )
        &&& is_delegation(
            self.delegate,
            payer,
            counter_of(player),
            schedule_data(
                ScheduleCommitInstruction::DelegateCpi(
                    DelegateCpiArgs {
                        valid_until: 0,
                        commit_frequency_ms: COMMIT_FREQUENCY_MS,
                        player,
                        validator: Some(validator),
                    },
                ),
            ),
        )
    }
}

/// Whether the addresses of a delegated counter can be found.
pub open spec fn can_delegate(player: Pubkey) -> bool {
    counter_address(player) is Some && DelegateAccounts::derivable(counter_of(player), key(ID))
}

/// The transactions that set up a counter for every player, one each; there
/// are none exactly if an address cannot be found.
pub fn init_delegated_committees(payer: Pubkey, players: &[Pubkey], validator: Pubkey) -> (r:
    Option<Vec<CommitteeSetup>>)
    ensures
        match r {
            Some(setups) => setups@.len() == players@.len() && forall|i: int|
                0 <= i < players@.len() ==> (#[trigger] setups@[i]).is_for(
                    payer,
                    players@[i],
                    validator,
                ),
            None => exists|i: int| 0 <= i < players@.len() && !can_delegate(#[trigger] players@[i]),
        },
{
    let mut setups: Vec<CommitteeSetup> = Vec::new();
    let mut i: usize = 0;
    while i < players.len()
        invariant
            i <= players@.len(),
            setups@.len() == i,
            forall|j: int|
                0 <= j < i ==> (#[trigger] setups@[j]).is_for(payer, players@[j], validator),
        decreases players@.len() - i,
    {
        let player = players[i];
        let init = init_account(payer, player);
        let delegate = delegate_cpi(payer, player, COMMIT_FREQUENCY_MS, Some(validator));
        match (init, delegate) {
            (Some((init, pda)), Some(delegate)) => {
                setups.push(CommitteeSetup { committee: Committee { player, pda }, init, delegate });
            },
            _ => {
                assert(!can_delegate(players@[i as int]));
                return None;
            },
        }
        i = i + 1;
    }
    Some(setups)
}

/// Whether a counter is delegated, by who owns it on the base chain.
pub fn is_delegated(owner: &Pubkey) -> (r: bool)
    ensures
        r == (*owner == key(DELEGATION_PROGRAM_ID)),
{
    owner.same(&Pubkey::new(DELEGATION_PROGRAM_ID))
}

/// Whether the rollup has the clone of a counter, by what it holds.
pub fn is_cloned(data: Option<&[u8]>) -> (r: bool)
    ensures
        r == (data matches Some(bytes) && bytes@.len() == MAIN_ACCOUNT_SIZE),
{
    match data {
        Some(bytes) => bytes.len() == MAIN_ACCOUNT_SIZE,
        None => false,
    }
}

} // verus!
