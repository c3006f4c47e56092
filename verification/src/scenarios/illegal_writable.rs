//! Commits that nobody may schedule: what is sent, how it has to be refused,
//! and what must be left of the accounts.
use crate::bytes::le32;
use crate::chain::{
    copy_keys, key, metas_of, writable, Accounts, InstructionState, Pubkey, SolanaInstruction,
};
use crate::effects::Deed;
use crate::fields::{fields_format, Field};
use crate::ids::{DELEGATION_PROGRAM_ID, MAGIC_CONTEXT_ID, MAGIC_PROGRAM_ID, SYSTEM_PROGRAM_ID};
use crate::redhat::{
    nested_schedule_commit_cpi, non_cpi, pda_metas, players_data, sibling_schedule_commit_cpis,
    SecurityInstruction,
};
use crate::redshift::agreement::handed;
use crate::redshift::schedule_builders::{
    commit_metas, direct_schedule_commit, schedule_commit_cpi,
};
use crate::redshift::schedule_commit::{
    all_found, counters_of, ScheduleCommitType, MAGIC_SCHEDULE_COMMIT_TAG,
};
use crate::redshift::SCHEDULE_COMMIT_TAG;
use crate::scenarios::committees::is_delegated;
use crate::scenarios::ephemeral_accounts::{LedgerAccount, LedgerState};
use crate::system::{transfer, transfer_data};
use crate::text::{contains_bytes, holds_bytes};
use vstd::prelude::*;
use vstd::string::StringExecFns;
use vstd::utf8::encode_utf8;

verus! {

/// How long a transaction is waited for, in seconds.
pub const RECEIPT_TIMEOUT: u64 = 20;

/// How many counters are set up.
pub const COMMITTEES: usize = 2;

/// The suite.
pub struct IllegalWritable;

impl IllegalWritable {
    /// The name that the suite reports under.
    pub fn name(&self) -> (r: &'static str)
        ensures
            r@ == "redhat/illegal_writable"@,
    {
        "redhat/illegal_writable"
    }
}

/// What a commit without a program in front of it is refused with.
pub fn program_id_not_found() -> (r: &'static str)
    ensures
        r@ == "failed to find parent program id"@,
{
    "failed to find parent program id"
}

/// What a commit by a program that is not the owner is refused with.
pub fn invalid_account_owner() -> (r: &'static str)
    ensures
        r@ == "Invalid account owner"@,
{
    "Invalid account owner"
}

/// What a commit by a program that is not the owner is refused with too.
pub fn needs_to_be_owned() -> (r: &'static str)
    ensures
        r@ == "needs to be owned by the invoking program"@,
{
    "needs to be owned by the invoking program"
}

/// Lines, one below the other.
pub open spec fn joined_lines(lines: Seq<String>) -> Seq<char>
    decreases lines.len(),
{
    if lines.len() == 0 {
        Seq::empty()
    } else if lines.len() == 1 {
        lines[0]@
    } else {
        joined_lines(lines.drop_last()) + "\n"@ + lines.last()@
    }
}

/// What is known of a transaction that failed: its log and its error.
pub open spec fn observed(logs: Seq<String>, error: Seq<char>) -> Seq<char> {
    joined_lines(logs) + "\n"@ + error
}

/// What is known of a transaction that failed.
fn observe(logs: &[String], error: &str) -> (r: String)
    ensures
        r@ == observed(logs@, error@),
{
    let mut text: String = "".to_owned();
    let mut i: usize = 0;
    proof {
        reveal_strlit("");
        assert(""@ =~= Seq::<char>::empty());
        assert(logs@.take(0).len() == 0);
    }
    while i < logs.len()
        invariant
            i <= logs@.len(),
            text@ == joined_lines(logs@.take(i as int)),
        decreases logs@.len() - i,
    {
        let ghost next = logs@.take(i + 1);
        proof {
            assert(next.drop_last() =~= logs@.take(i as int));
            assert(next.last() == logs@[i as int]);
        }
        if i > 0 {
            text.append("\n");
        } else {
            proof {
                assert(text@ =~= Seq::<char>::empty());
            }
        }
        text.append(logs[i].as_str());
        i = i + 1;
        assert(text@ =~= joined_lines(next));
    }
    assert(logs@.take(i as int) =~= logs@);
    text.append("\n");
    text.append(error);
    text
}

/// How a commit that nobody may schedule was taken.
#[derive(Clone, Copy, Debug, PartialEq, Eq, Structural)]
pub enum Refusal {
    /// It did not fail.
    Taken,
    /// It failed, but the phrase at this place is not named.
    Unnamed(usize),
    /// It failed, and every phrase is named.
    Refused,
}

/// Whether what is known of a transaction names a phrase.
pub open spec fn names(text: Seq<char>, needle: Seq<char>) -> bool {
    holds_bytes(encode_utf8(text), encode_utf8(needle))
}

/// Whether `r` is how a transaction was taken: one that did not fail was taken,
/// and of one that failed the first phrase that is not named counts.
pub open spec fn is_refusal(
    logs: Seq<String>,
    error: Option<Seq<char>>,
    needles: Seq<&'static str>,
    r: Refusal,
) -> bool {
    match error {
        None => r == Refusal::Taken,
        Some(text) => match r {
            Refusal::Taken => false,
            Refusal::Unnamed(at) => {
                &&& at < needles.len()
                &&& !names(observed(logs, text), needles[at as int]@)
                &&& forall|i: int|
                    0 <= i < at ==> names(observed(logs, text), (#[trigger] needles[i])@)
            },
            Refusal::Refused => forall|i: int|
                0 <= i < needles.len() ==> names(observed(logs, text), (#[trigger] needles[i])@),
        },
    }
}

/// Judges how a transaction was taken.
pub fn refused(logs: &[String], error: Option<&str>, needles: &[&'static str]) -> (r: Refusal)
    ensures
        is_refusal(
            logs@,
            match error {
                Some(text) => Some(text@),
                None => None,
            },
            needles@,
            r,
        ),
{
    match error {
        None => Refusal::Taken,
        Some(text) => {
            let known: String = observe(logs, text);
            let mut i: usize = 0;
            while i < needles.len()
                invariant
                    i <= needles@.len(),
                    known@ == observed(logs@, text@),
                    error == Some(text),
                    forall|j: int|
                        0 <= j < i ==> names(observed(logs@, text@), (#[trigger] needles@[j])@),
                decreases needles@.len() - i,
            {
                if !contains_bytes(known.as_str().as_bytes(), needles[i].as_bytes()) {
                    return Refusal::Unnamed(i);
                }
                i = i + 1;
            }
            Refusal::Refused
        },
    }
}

/// The direct commit of some accounts.
pub open spec fn direct(payer: Pubkey, pdas: Seq<Pubkey>) -> InstructionState {
    InstructionState {
        program_id: key(MAGIC_PROGRAM_ID),
        accounts: seq![writable(payer, true), writable(key(MAGIC_CONTEXT_ID), false)] + metas_of(
            pdas,
            false,
            true,
        ),
        data: le32(MAGIC_SCHEDULE_COMMIT_TAG),
    }
}

/// The direct commit of some accounts.
fn direct_commit(payer: Pubkey, pdas: &[Pubkey]) -> (r: SolanaInstruction)
    ensures
        r@ == direct(payer, pdas@),
{
    let r = direct_schedule_commit(payer, None, pdas);
    assert(r@ =~= direct(payer, pdas@));
    r
}

/// A transfer.
pub open spec fn payment(from: Pubkey, to: Pubkey, lamports: u64) -> InstructionState {
    InstructionState {
        program_id: key(SYSTEM_PROGRAM_ID),
        accounts: seq![writable(from, true), writable(to, false)],
        data: transfer_data(lamports),
    }
}

/// Several instructions, as they are.
pub open spec fn states(instructions: Seq<SolanaInstruction>) -> Seq<InstructionState> {
    crate::chain::instruction_states(instructions)
}

/// The commit of accounts with no program in front of it.
pub fn direct_attack(payer: Pubkey, pdas: &[Pubkey]) -> (r: Vec<SolanaInstruction>)
    ensures
        states(r@) == seq![direct(payer, pdas@)],
{
    let mut out: Vec<SolanaInstruction> = Vec::new();
    out.push(direct_commit(payer, pdas));
    assert(states(out@) =~= seq![direct(payer, pdas@)]);
    out
}

/// The same commit between two transfers to one of the accounts.
pub fn sandwiched_attack(payer: Pubkey, pdas: &[Pubkey]) -> (r: Vec<SolanaInstruction>)
    requires
        pdas@.len() > 0,
    ensures
        states(r@) == seq![
            payment(payer, pdas@[0], 1_000_000),
            direct(payer, pdas@),
            payment(payer, pdas@[0], 2_000_000),
        ],
{
    let first = transfer(&payer, &pdas[0], 1_000_000);
    let last = transfer(&payer, &pdas[0], 2_000_000);
    assert(first@ =~= payment(payer, pdas@[0], 1_000_000));
    assert(last@ =~= payment(payer, pdas@[0], 2_000_000));
    let mut out: Vec<SolanaInstruction> = Vec::new();
    out.push(first);
    out.push(direct_commit(payer, pdas));
    out.push(last);
    assert(states(out@) =~= seq![
        payment(payer, pdas@[0], 1_000_000),
        direct(payer, pdas@),
        payment(payer, pdas@[0], 2_000_000),
    ]);
    out
}

/// What a program does that is not the owner: it commits accounts through the
/// owner and then past it.
pub open spec fn sibling(payer: Pubkey, players: Seq<Pubkey>, pdas: Seq<Pubkey>) -> InstructionState {
    InstructionState {
        program_id: key(crate::redhat::ID),
        accounts: pda_metas(payer, true, pdas),
        data: players_data(0, players),
    }
}

/// The commit of accounts by a program that is not the owner, next to one
/// through the owner.
pub fn sibling_attack(payer: Pubkey, players: &[Pubkey], pdas: &[Pubkey]) -> (r: Vec<
    SolanaInstruction,
>)
    requires
        players@.len() <= u32::MAX,
    ensures
        states(r@) == seq![sibling(payer, players@, pdas@)],
{
    let ix = sibling_schedule_commit_cpis(payer, players, pdas);
    assert(ix@ =~= sibling(payer, players@, pdas@));
    let mut out: Vec<SolanaInstruction> = Vec::new();
    out.push(ix);
    assert(states(out@) =~= seq![sibling(payer, players@, pdas@)]);
    out
}

/// An instruction that does nothing.
pub open spec fn idle(payer: Pubkey) -> InstructionState {
    InstructionState {
        program_id: key(crate::redhat::ID),
        accounts: seq![writable(payer, true)],
        data: seq![1u8],
    }
}

/// A commit through the owner, which raises the counts.
pub open spec fn lawful(payer: Pubkey, players: Seq<Pubkey>) -> InstructionState {
    InstructionState {
        program_id: key(crate::redshift::ID),
        accounts: commit_metas(payer, counters_of(players), true),
        data: seq![SCHEDULE_COMMIT_TAG] + (seq![2u8] + fields_format(
            seq![
                Field::Keys(players),
                Field::Bool(true),
                Field::Bool(false),
                Field::Bool(false),
                Field::Choice { value: ScheduleCommitType::CommitFinalize.index(), of: 4 },
            ],
        )),
    }
}

/// A commit by a program that is not the owner.
pub open spec fn nested(payer: Pubkey, players: Seq<Pubkey>, pdas: Seq<Pubkey>) -> InstructionState {
    InstructionState {
        program_id: key(crate::redhat::ID),
        accounts: pda_metas(payer, false, pdas),
        data: players_data(2, players),
    }
}

/// Nothing, then a commit through the owner, and then one by a program that is
/// not the owner. There is none exactly if the counter of a player is not
/// found.
pub fn nested_attack(payer: Pubkey, players: &[Pubkey], pdas: &[Pubkey]) -> (r: Option<
    Vec<SolanaInstruction>,
>)
    requires
        players@.len() <= u32::MAX,
    ensures
        match r {
            Some(attack) => all_found(players@) && states(attack@) == seq![
                idle(payer),
                lawful(payer, players@),
                nested(payer, players@, pdas@),
            ],
            None => !all_found(players@),
        },
{
    let named: Vec<Pubkey> = copy_keys(players);
    match schedule_commit_cpi(
        payer,
        named,
        true,
        false,
        ScheduleCommitType::CommitFinalize,
        true,
    ) {
        None => None,
        Some(commit) => {
            let first = non_cpi(payer);
            let last = nested_schedule_commit_cpi(payer, players, pdas);
            assert(first@ =~= idle(payer));
            assert(commit@ =~= lawful(payer, players@));
            assert(last@ =~= nested(payer, players@, pdas@));
            let mut out: Vec<SolanaInstruction> = Vec::new();
            out.push(first);
            out.push(commit);
            out.push(last);
            assert(states(out@) =~= seq![
                idle(payer),
                lawful(payer, players@),
                nested(payer, players@, pdas@),
            ]);
            Some(out)
        },
    }
}

/// The first account that is no longer delegated, by who owns them on the base
/// chain; an account that is gone has no owner.
pub fn first_released(owners: &[Option<Pubkey>]) -> (r: Option<usize>)
    ensures
        match r {
            Some(at) => at < owners@.len() && owners@[at as int] != Some(
                key(DELEGATION_PROGRAM_ID),
            ) && forall|i: int|
                0 <= i < at ==> owners@[i] == Some(key(DELEGATION_PROGRAM_ID)),
            None => forall|i: int|
                0 <= i < owners@.len() ==> owners@[i] == Some(
                    key(DELEGATION_PROGRAM_ID),
                ),
        },
{
    let mut i: usize = 0;
    while i < owners.len()
        invariant
            i <= owners@.len(),
            forall|j: int|
                0 <= j < i ==> owners@[j] == Some(key(DELEGATION_PROGRAM_ID)),
        decreases owners@.len() - i,
    {
        match &owners[i] {
            Some(owner) => {
                if !is_delegated(owner) {
                    return Some(i);
                }
            },
            None => {
                return Some(i);
            },
        }
        i = i + 1;
    }
    None
}

/// What an account holds, if it is there at all.
pub open spec fn found_state(account: Option<LedgerAccount>) -> Option<LedgerState> {
    match account {
        Some(account) => Some(account@),
        None => None,
    }
}

/// The first account that is not exactly as it was on the base chain: its
/// owner, its balance, its data or anything else of it has changed, or it was
/// there only once.
pub fn first_changed(before: &[Option<LedgerAccount>], after: &[Option<LedgerAccount>]) -> (r:
    Option<usize>)
    requires
        before@.len() == after@.len(),
    ensures
        match r {
            Some(at) => at < before@.len() && found_state(before@[at as int]) != found_state(
                after@[at as int],
            ) && forall|i: int|
                0 <= i < at ==> found_state(#[trigger] before@[i]) == found_state(after@[i]),
            None => forall|i: int|
                0 <= i < before@.len() ==> found_state(#[trigger] before@[i]) == found_state(
                    after@[i],
                ),
        },
{
    let mut i: usize = 0;
    while i < before.len()
        invariant
            i <= before@.len(),
            before@.len() == after@.len(),
            forall|j: int|
                0 <= j < i ==> found_state(#[trigger] before@[j]) == found_state(after@[j]),
        decreases before@.len() - i,
    {
        let same: bool = match (&before[i], &after[i]) {
            (Some(one), Some(other)) => one.same(other),
            (None, None) => true,
            _ => false,
        };
        if !same {
            return Some(i);
        }
        i = i + 1;
    }
    None
}

/// Lines are joined by one line break each, in order.
pub proof fn lines_are_joined_by_breaks(one: Seq<String>, other: Seq<String>, line: String)
    ensures
        joined_lines(seq![line]) == line@,
        joined_lines(Seq::empty()) == Seq::<char>::empty(),
        one.len() > 0 && other.len() > 0 ==> joined_lines(one + other) == joined_lines(one) + "\n"@
            + joined_lines(other),
    decreases other.len(),
{
    if one.len() > 0 && other.len() > 0 {
        let all = one + other;
        assert(all.drop_last() =~= one + other.drop_last());
        assert(all.last() == other.last());
        if other.len() == 1 {
            assert(all.drop_last() =~= one);
        } else {
            lines_are_joined_by_breaks(one, other.drop_last(), line);
            assert(joined_lines(all) =~= joined_lines(one) + "\n"@ + joined_lines(other));
        }
    }
}

/// An attack is refused only where there was an error and everything that was
/// to be named is named, and is taken exactly where there was none.
pub proof fn a_refusal_names_everything(
    logs: Seq<String>,
    error: Option<Seq<char>>,
    needles: Seq<&'static str>,
    r: Refusal,
    i: int,
)
    requires
        is_refusal(logs, error, needles, r),
        0 <= i < needles.len(),
    ensures
        r == Refusal::Taken <==> error is None,
        r == Refusal::Refused ==> (error matches Some(text) && names(
            observed(logs, text),
            needles[i]@,
        )),
        error matches Some(text) ==> !names(observed(logs, text), needles[i]@) ==> (
        r matches Refusal::Unnamed(at) && at <= i),
{
}

/// A commit without a program in between names the payer, who alone signs, the
/// context and then the accounts, all of them writable.
pub proof fn a_direct_commit_names_its_accounts(payer: Pubkey, pdas: Seq<Pubkey>, i: int)
    requires
        0 <= i < pdas.len(),
    ensures
        ({
            let ix = direct(payer, pdas);
            &&& ix.program_id@ == MAGIC_PROGRAM_ID@
            &&& ix.data == le32(1)
            &&& ix.accounts.len() == 2 + pdas.len()
            &&& ix.accounts[0].pubkey == payer && ix.accounts[0].is_signer
            &&& ix.accounts[1].pubkey@ == MAGIC_CONTEXT_ID@ && !ix.accounts[1].is_signer
            &&& ix.accounts[2 + i].pubkey == pdas[i] && !ix.accounts[2 + i].is_signer
            &&& forall|k: int| 0 <= k < ix.accounts.len() ==> (#[trigger] ix.accounts[k]).is_writable
        }),
{
}

/// An attack through the security program, handed over as it is built, commits
/// the accounts that it was built for without their owner.
pub proof fn attacks_are_about_their_accounts(
    payer: Pubkey,
    players: Vec<Pubkey>,
    pdas: Seq<Pubkey>,
    side_by_side: bool,
    accounts: Accounts,
)
    requires
        all_found(players@),
        handed(
            accounts,
            if side_by_side {
                sibling(payer, players@, pdas).accounts
            } else {
                nested(payer, players@, pdas).accounts
            },
        ),
    ensures
        ({
            let ix = if side_by_side {
                SecurityInstruction::SiblingScheduleCommitCpis(players)
            } else {
                SecurityInstruction::DirectScheduleCommitCpi(players)
            };
            &&& crate::redhat::answer(ix, accounts) matches Ok(plan)
            &&& plan.last() matches Deed::Invoke { accounts: metas, infos, .. } && {
                &&& metas.len() == 2 + pdas.len()
                &&& metas[0].pubkey == payer
                &&& accounts.at(infos[0] as int).key == payer
                &&& accounts.at(infos[1] as int).key@ == MAGIC_CONTEXT_ID@
                &&& forall|i: int|
                    0 <= i < pdas.len() ==> (#[trigger] metas[2 + i]).pubkey == pdas[i]
                        && accounts.at(infos[2 + i] as int).key == pdas[i]
            }
        }),
{
    let metas = if side_by_side {
        sibling(payer, players@, pdas).accounts
    } else {
        nested(payer, players@, pdas).accounts
    };
    let first = if side_by_side {
        4int
    } else {
        3
    };
    assert(metas.len() == first + pdas.len());
    assert forall|i: int| 0 <= i < pdas.len() implies (#[trigger] accounts.at(first + i)).key
        == pdas[i] by {
        assert(accounts.at(first + i).key == metas[first + i].pubkey);
    }
    assert(accounts.at(0).key == metas[0].pubkey && accounts.at(1).key == metas[1].pubkey);
}

} // verus!
