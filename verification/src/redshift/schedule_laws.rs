//! What the instructions on counters and order books come to: which accounts a
//! commit names, what becomes of the counts, and what a book holds afterwards.
use crate::address::found_address;
use crate::bytes::{from_le64, le32, le64, lemma_le32, lemma_le64};
use crate::chain::{AccountState, Accounts, ProgramError, Pubkey};
use crate::effects::{deeds, Deed, Effect, ShortMeta};
use crate::fields::Field;
use crate::ids::DELEGATION_PROGRAM_ID;
use crate::redshift::flexi_laws::lie_from;
use crate::redshift::order_book::{applied, BookUpdate, OrderLevel};
use crate::redshift::schedule_commit::{
    all_found, book_address, counter_address, counters_read_back, DelegateCpiArgs,
    DelegateOrderBookArgs, MainAccount, ScheduleCommitCpiArgs, ScheduleCommitCpiWithVaultArgs,
    ScheduleCommitInstruction, ScheduleCommitType, ScheduleCommitWithOrderBookArgs,
    ORDER_BOOK_SEED, PDA_SEED,
};
use crate::redshift::schedule_processors::{
    follow_up_data, raisable, raised, ready, return_answer, served,
};
use crate::redshift::ID;
use crate::system::transfer_data;
use vstd::prelude::*;

verus! {

/// Whether data is a counter with a count: the key of its player and eight
/// bytes more.
pub open spec fn counts(data: Seq<u8>, count: int) -> bool {
    data.len() == 40 && from_le64(data.subrange(32, 40)) == count
}

/// How often an account is among those whose counts are raised.
pub open spec fn times(refs: Seq<usize>, committees: Seq<usize>, s: int) -> nat
    decreases committees.len(),
{
    if committees.len() == 0 {
        0
    } else {
        times(refs, committees.drop_last(), s) + if refs[committees.last() as int] == s {
            1nat
        } else {
            0nat
        }
    }
}

/// Counts are raised by one for every time that an account is named. That goes
/// well exactly where all of them are counters, and changes neither players
/// nor accounts that are not named.
pub proof fn counts_are_raised_as_often_as_named(
    accounts: Seq<AccountState>,
    refs: Seq<usize>,
    committees: Seq<usize>,
    s: int,
)
    requires
        forall|i: int|
            0 <= i < committees.len() ==> (#[trigger] committees[i]) < refs.len()
                && refs[committees[i] as int] < accounts.len(),
        0 <= s < accounts.len(),
        raisable(accounts, refs, committees),
    ensures
        ({
            let (after, r) = raised(accounts, refs, committees);
            &&& after.len() == accounts.len()
            &&& r is Ok <==> forall|i: int|
                0 <= i < committees.len() ==> accounts[#[trigger] refs[committees[i] as int] as int]
                    .data.len() == 40
            &&& r is Err ==> r == Err::<(), _>(ProgramError::BorshIoError)
            &&& after[s].data.len() == accounts[s].data.len()
            &&& after[s] == accounts[s].with_data(after[s].data)
            &&& r is Ok && accounts[s].data.len() == 40 ==> {
                &&& counts(
                    after[s].data,
                    from_le64(accounts[s].data.subrange(32, 40)) + times(refs, committees, s),
                )
                &&& after[s].data.subrange(0, 32) == accounts[s].data.subrange(0, 32)
            }
            &&& times(refs, committees, s) == 0 ==> after[s] == accounts[s]
        }),
    decreases committees.len(),
{
    lemma_le64();
    if committees.len() > 0 {
        let fewer = committees.drop_last();
        assert forall|k: int| 0 <= k < fewer.len() implies {
            let (done, answer) = #[trigger] raised(accounts, refs, fewer.take(k));
            answer is Ok ==> match MainAccount::decoded(done[refs[fewer[k] as int] as int].data) {
                Some(counter) => counter.count < u64::MAX,
                None => true,
            }
        } by {
            assert(fewer.take(k) =~= committees.take(k));
            assert(fewer[k] == committees[k]);
        }
        assert(raisable(accounts, refs, fewer));
        let last = committees.len() - 1;
        let place = refs[committees[last] as int] as int;
        counts_are_raised_as_often_as_named(accounts, refs, fewer, s);
        counts_are_raised_as_often_as_named(accounts, refs, fewer, place);
        assert(committees.take(last) =~= fewer);
        let (done, before) = raised(accounts, refs, fewer);
        let (after, r) = raised(accounts, refs, committees);
        if before is Ok {
            if let Some(counter) = MainAccount::decoded(done[place].data) {
                counters_read_back(counter, done[place].data);
                assert(counter.count < u64::MAX);
                let more = MainAccount { player: counter.player, count: (counter.count + 1) as u64 };
                assert(done[place].data == counter.encoding());
                assert(after[place].data == more.encoding());
                assert(more.encoding().subrange(32, 40) =~= le64(more.count));
                assert(counter.encoding().subrange(32, 40) =~= le64(counter.count));
                assert(more.encoding().subrange(0, 32) =~= counter.player@);
                assert(counter.encoding().subrange(0, 32) =~= counter.player@);
            }
            if r is Ok {
                assert forall|i: int| 0 <= i < committees.len() implies accounts[
                    #[trigger] refs[committees[i] as int] as int].data.len() == 40 by {
                    if i < last {
                        assert(fewer[i] == committees[i]);
                        assert(accounts[refs[fewer[i] as int] as int].data.len() == 40);
                    }
                }
            } else {
                assert(accounts[refs[committees[last] as int] as int].data.len() != 40);
            }
        } else {
            let i = choose|i: int|
                0 <= i < fewer.len() && accounts[#[trigger] refs[fewer[i] as int] as int].data.len()
                    != 40;
            assert(fewer[i] == committees[i]);
            assert(accounts[refs[committees[i] as int] as int].data.len() != 40);
        }
    } else {
        assert(accounts[s].with_data(accounts[s].data) =~= accounts[s]);
        assert(accounts[s].data.subrange(0, 32) =~= accounts[s].data.subrange(0, 32));
    }
}

/// Raising a count adds one to the first account that was handed over, setting
/// it leaves the value there. The player and all other accounts stay, and what
/// is no counter is refused.
pub proof fn the_first_counter_is_raised_or_set(
    value: Option<u64>,
    program_id: Pubkey,
    before: Accounts,
    after: Seq<AccountState>,
    required: u64,
    r: Result<Vec<Effect>, ProgramError>,
)
    requires
        before.wf(),
        ({
            let ix = match value {
                Some(value) => ScheduleCommitInstruction::SetCount(value),
                None => ScheduleCommitInstruction::IncreaseCount,
            };
            ready(ix, before) && served(ix, program_id, before, after, required, r)
        }),
    ensures
        r is Ok <==> before.count() >= 1 && before.at(0).data.len() == 40,
        r is Err ==> after == before@,
        r matches Ok(plan) ==> {
            let s = before.refs@[0] as int;
            &&& plan@.len() == 0
            &&& counts(
                after[s].data,
                match value {
                    Some(value) => value as int,
                    None => from_le64(before.at(0).data.subrange(32, 40)) + 1,
                },
            )
            &&& after[s].data.subrange(0, 32) == before.at(0).data.subrange(0, 32)
            &&& after[s] == before.at(0).with_data(after[s].data)
            &&& after.len() == before@.len()
            &&& forall|other: int|
                0 <= other < after.len() && other != s ==> #[trigger] after[other] == before@[other]
        },
{
    lemma_le64();
    if before.count() >= 1 {
        let data = before.at(0).data;
        if let Some(counter) = MainAccount::decoded(data) {
            counters_read_back(counter, data);
            let s = before.refs@[0] as int;
            assert(after[s].data.subrange(32, 40) =~= after[s].data.skip(32));
            assert(after[s].data.subrange(0, 32) =~= counter.player@);
            assert(counter.encoding().subrange(0, 32) =~= counter.player@);
            let count = match value {
                Some(value) => value,
                None => (counter.count + 1) as u64,
            };
            assert(after[s].data == MainAccount { player: counter.player, count }.encoding());
            assert(after[s].data.skip(32) =~= le64(count));
        }
    }
    if let Ok(plan) = r {
        assert(deeds(plan@).len() == plan@.len());
    }
}

/// Whether a deed commits accounts in one of the four ways: through a bundle,
/// which may return them, by a bare call of the magic program, or by a commit
/// that returns them.
pub open spec fn commits(
    deed: Deed,
    how: ScheduleCommitType,
    accounts: Accounts,
    committed: Seq<usize>,
    context: usize,
    program: usize,
    vault: Option<usize>,
) -> bool {
    match how {
        ScheduleCommitType::Commit => {
            deed matches Deed::IntentBundle {
                payer,
                magic_context,
                magic_program,
                magic_fee_vault,
                commit,
                commit_and_undelegate,
            } && payer == 0 && magic_context == context && magic_program == program
                && magic_fee_vault == vault && commit_and_undelegate is None && (
            commit matches Some(c) && c.accounts == committed && c.handlers.len() == 0
                && c.callback is None)
        },
        ScheduleCommitType::CommitAndUndelegate => {
            deed matches Deed::IntentBundle {
                payer,
                magic_context,
                magic_program,
                magic_fee_vault,
                commit,
                commit_and_undelegate,
            } && payer == 0 && magic_context == context && magic_program == program
                && magic_fee_vault == vault && commit is None && (
            commit_and_undelegate matches Some(u) && u.accounts == committed
                && u.commit_handlers.len() == 0 && u.undelegate_handlers.len() == 0)
        },
        ScheduleCommitType::CommitFinalize => {
            let first = if vault is Some {
                3int
            } else {
                2
            };
            deed matches Deed::Invoke { program_id, accounts: metas, data, infos, signer_seeds } && {
                &&& program_id == accounts.at(program as int).key
                &&& data == le32(1)
                &&& signer_seeds.len() == 0
                &&& metas.len() == first + committed.len()
                &&& infos.len() == metas.len()
                &&& infos[0] == 0
                &&& infos[1] == context
                &&& vault matches Some(place) ==> infos[2] == place
                &&& infos.skip(first) == committed
                &&& forall|i: int|
                    0 <= i < metas.len() ==> (#[trigger] metas[i]).pubkey == accounts.at(
                        infos[i] as int,
                    ).key
                &&& metas[0].is_signer
                &&& metas[0].is_writable == accounts.at(0).is_writable
                &&& forall|i: int|
                    1 <= i < first ==> (#[trigger] metas[i]).is_writable && !metas[i].is_signer
                &&& forall|i: int|
                    first <= i < metas.len() ==> (#[trigger] metas[i]).is_signer == accounts.at(
                        infos[i] as int,
                    ).is_signer && metas[i].is_writable == accounts.at(infos[i] as int).is_writable
            }
        },
        ScheduleCommitType::CommitFinalizeAndUndelegate => {
            deed matches Deed::Commit {
                payer,
                committees,
                magic_context,
                magic_program,
                magic_fee_vault,
                undelegate,
            } && payer == 0 && committees == committed && magic_context == context && magic_program
                == program && magic_fee_vault == vault && undelegate
        },
    }
}

/// There have to be as many accounts behind the first ones as there are
/// players. Where there are, counts are raised first if that is asked for, and
/// otherwise nothing changes.
pub proof fn a_commit_counts_its_players(
    args: ScheduleCommitCpiArgs,
    how: ScheduleCommitType,
    program_id: Pubkey,
    before: Accounts,
    after: Seq<AccountState>,
    required: u64,
    r: Result<Vec<Effect>, ProgramError>,
    first: int,
    committees: Seq<usize>,
)
    requires
        before.count() <= usize::MAX,
        first == if args.has_magic_vault {
            4int
        } else {
            3
        },
        lie_from(committees, first, args.players@.len() as int),
        served(
            ScheduleCommitInstruction::ScheduleCommitCpi(args, how),
            program_id,
            before,
            after,
            required,
            r,
        ),
    ensures
        before.count() < first ==> r == Err::<Vec<Effect>, _>(ProgramError::NotEnoughAccountKeys),
        before.count() >= first && before.count() != first + args.players@.len() ==> r == Err::<
            Vec<Effect>,
            _,
        >(ProgramError::InvalidArgument),
        before.count() != first + args.players@.len() || !args.modify_accounts ==> after == before@,
        before.count() == first + args.players@.len() && !args.modify_accounts ==> r is Ok,
        before.count() == first + args.players@.len() && args.modify_accounts ==> {
            &&& after == raised(before@, before.refs@, committees).0
            &&& r is Ok <==> raised(before@, before.refs@, committees).1 is Ok
        },
{
    if before.count() == first + args.players@.len() {
        assert(crate::chain::positions(first, before.count() as int) =~= committees);
    }
}

/// A commit names everything behind the first accounts, in order, and then the
/// payer where that is asked for.
pub proof fn a_commit_names_the_counters(
    args: ScheduleCommitCpiArgs,
    how: ScheduleCommitType,
    program_id: Pubkey,
    before: Accounts,
    after: Seq<AccountState>,
    required: u64,
    plan: Vec<Effect>,
    committees: Seq<usize>,
)
    requires
        before.count() <= usize::MAX,
        lie_from(
            committees,
            if args.has_magic_vault {
                4int
            } else {
                3
            },
            args.players@.len() as int,
        ),
        served(
            ScheduleCommitInstruction::ScheduleCommitCpi(args, how),
            program_id,
            before,
            after,
            required,
            Ok(plan),
        ),
    ensures
        plan@.len() == 1,
        commits(
            deeds(plan@)[0],
            how,
            before,
            if args.commit_payer {
                committees.push(0)
            } else {
                committees
            },
            1,
            2,
            if args.has_magic_vault {
                Some(3usize)
            } else {
                None
            },
        ),
{
    let first = if args.has_magic_vault {
        4int
    } else {
        3
    };
    assert(crate::chain::positions(first, before.count() as int) =~= committees);
    let committed = if args.commit_payer {
        committees.push(0)
    } else {
        committees
    };
    assert(deeds(plan@).len() == 1);
    if let Deed::Invoke { infos, .. } = deeds(plan@)[0] {
        let skip = if args.has_magic_vault {
            3int
        } else {
            2
        };
        assert(infos.skip(skip) =~= committed);
    }
}

/// A commit with a fee vault names everything behind the first accounts, and
/// returns it where that is asked for and only there.
pub proof fn a_commit_with_a_vault_names_the_counters(
    args: ScheduleCommitCpiWithVaultArgs,
    program_id: Pubkey,
    before: Accounts,
    after: Seq<AccountState>,
    required: u64,
    r: Result<Vec<Effect>, ProgramError>,
)
    requires
        before.count() <= usize::MAX,
        served(
            ScheduleCommitInstruction::ScheduleCommitWithVaultCpi(args),
            program_id,
            before,
            after,
            required,
            r,
        ),
    ensures
        after == before@,
        ({
            let first = if args.has_magic_vault {
                4int
            } else {
                3
            };
            &&& r is Ok <==> before.count() == first + args.players@.len()
            &&& r matches Ok(plan) ==> {
                &&& plan@.len() == 1
                &&& returns_all(
                    deeds(plan@)[0],
                    first,
                    args.players@.len() as int,
                    args.has_magic_vault,
                    args.undelegate,
                )
            }
        }),
{
    if let Ok(plan) = r {
        assert(deeds(plan@).len() == 1);
    }
}

/// Whether a deed commits the accounts from one position on, and returns them
/// or not.
pub open spec fn returns_all(deed: Deed, first: int, n: int, vaulted: bool, back: bool) -> bool {
    deed matches Deed::Commit {
        payer,
        committees,
        magic_context,
        magic_program,
        magic_fee_vault,
        undelegate,
    } && {
        &&& payer == 0
        &&& lie_from(committees, first, n)
        &&& magic_context == 1
        &&& magic_program == 2
        &&& vaulted ==> magic_fee_vault == Some(3usize)
        &&& !vaulted ==> magic_fee_vault is None
        &&& undelegate == back
    }
}

/// A return that is followed by a change raises exactly the counts of what was
/// returned.
pub proof fn a_late_change_is_to_what_was_returned(
    players: Vec<Pubkey>,
    program_id: Pubkey,
    before: Accounts,
    after: Seq<AccountState>,
    required: u64,
    r: Result<Vec<Effect>, ProgramError>,
)
    requires
        before.count() <= usize::MAX,
        served(
            ScheduleCommitInstruction::ScheduleCommitAndUndelegateCpiModAfter(players),
            program_id,
            before,
            after,
            required,
            r,
        ),
    ensures
        after == before@,
        r is Ok <==> before.count() == 3 + players@.len(),
        r matches Ok(plan) ==> {
            &&& plan@.len() == 2
            &&& returns_all(deeds(plan@)[0], 3, players@.len() as int, false, true)
            &&& deeds(plan@)[1] matches Deed::IncreaseCounts { committees } && lie_from(
                committees,
                3,
                players@.len() as int,
            )
        },
{
    if let Ok(plan) = r {
        assert(deeds(plan@).len() == 2);
    }
}

/// A return that is asked for twice names the same accounts both times. The
/// second time every one of them signs, with the seeds of its player.
pub proof fn a_second_return_names_the_same(
    players: Vec<Pubkey>,
    program_id: Pubkey,
    before: Accounts,
    after: Seq<AccountState>,
    required: u64,
    r: Result<Vec<Effect>, ProgramError>,
)
    requires
        before.count() <= usize::MAX,
        served(
            ScheduleCommitInstruction::ScheduleCommitAndUndelegateCpiTwice(players),
            program_id,
            before,
            after,
            required,
            r,
        ),
    ensures
        after == before@,
        r is Ok <==> before.count() == 3 + players@.len() && all_found(players@),
        r matches Ok(plan) ==> {
            &&& plan@.len() == 2
            &&& returns_all(deeds(plan@)[0], 3, players@.len() as int, false, true)
            &&& deeds(plan@)[1] matches Deed::Invoke {
                program_id: magic,
                accounts: metas,
                data,
                infos,
                signer_seeds,
            } && {
                &&& magic == before.at(2).key
                &&& data == le32(2)
                &&& metas.len() == 2 + players@.len()
                &&& infos.len() == metas.len()
                &&& infos[0] == 0
                &&& infos[1] == 1
                &&& metas[0].pubkey == before.at(0).key && metas[0].is_signer
                    && metas[0].is_writable
                &&& metas[1].pubkey == before.at(1).key && !metas[1].is_signer
                    && metas[1].is_writable
                &&& forall|i: int|
                    0 <= i < players@.len() ==> {
                        &&& #[trigger] infos[2 + i] == 3 + i
                        &&& metas[2 + i].pubkey == before.at(3 + i).key
                        &&& metas[2 + i].is_signer
                        &&& metas[2 + i].is_writable == before.at(3 + i).is_writable
                    }
                &&& signer_seeds.len() == players@.len()
                &&& forall|i: int|
                    0 <= i < players@.len() ==> {
                        &&& (#[trigger] signer_seeds[i]).len() == 3
                        &&& signer_seeds[i][1] == players@[i]@
                        &&& counter_address(players@[i]) matches Some((_, bump))
                            && signer_seeds[i][2] == seq![bump]
                    }
            }
        },
{
    if let Ok(plan) = r {
        assert(deeds(plan@).len() == 2);
    }
}

/// A counter is set up at the address of a player who signs, with the player's
/// key in it and a count of zero, and the first account pays for it.
pub proof fn a_player_gets_a_counter_of_zero(
    program_id: Pubkey,
    before: Accounts,
    after: Seq<AccountState>,
    required: u64,
    r: Result<Vec<Effect>, ProgramError>,
)
    requires
        served(ScheduleCommitInstruction::Init, program_id, before, after, required, r),
    ensures
        after == before@,
        r is Ok <==> {
            &&& before.count() == 4
            &&& before.at(1).is_signer
            &&& counter_address(before.at(1).key) matches Some((address, _)) && address
                == before.at(2).key@
        },
        r matches Ok(plan) ==> {
            &&& plan@.len() == 2
            &&& deeds(plan@)[0] matches Deed::CreatePda {
                target,
                owner,
                space,
                seeds,
                system_program,
                payer,
            } && {
                &&& target == 2
                &&& owner == program_id
                &&& space == 40
                &&& system_program == 3
                &&& payer == 0
                &&& seeds.len() == 3
                &&& seeds[1] == before.at(1).key@
                &&& counter_address(before.at(1).key) matches Some((_, bump)) && seeds[2]
                    == seq![bump]
                &&& found_address(seeds.drop_last(), ID@) == counter_address(before.at(1).key)
            }
            &&& deeds(plan@)[1] matches Deed::Write { target, bytes } && {
                &&& target == 2
                &&& counts(bytes, 0)
                &&& bytes.subrange(0, 32) == before.at(1).key@
            }
        },
{
    lemma_le64();
    if let Ok(plan) = r {
        assert(deeds(plan@).len() == 2);
        if let Deed::CreatePda { seeds, .. } = deeds(plan@)[0] {
            assert(seeds.drop_last() =~= seq![PDA_SEED@, before.at(1).key@]);
        }
        if let Deed::Write { bytes, .. } = deeds(plan@)[1] {
            assert(bytes.subrange(32, 40) =~= le64(0));
            assert(bytes.subrange(0, 32) =~= before.at(1).key@);
        }
    }
}

/// Whether a plan delegates an account on given terms, with the seeds that
/// lead to its address.
pub open spec fn delegates(
    r: Result<Vec<Effect>, ProgramError>,
    accounts: Accounts,
    owner: Pubkey,
    address: Option<(Seq<u8>, u8)>,
    frequency: u32,
    who: Option<Pubkey>,
) -> bool {
    &&& r is Ok <==> accounts.count() == 8
    &&& r matches Ok(plan) ==> {
        &&& plan@.len() == 1
        &&& deeds(plan@)[0] matches Deed::Delegate {
            positions,
            seeds,
            commit_frequency_ms,
            validator,
        } && {
            &&& positions.len() == 8
            &&& forall|i: int| 0 <= i < 8 ==> #[trigger] positions[i] == i
            &&& commit_frequency_ms == frequency
            &&& validator == who
            &&& seeds.len() == 2
            &&& seeds[1] == owner@
            &&& found_address(seeds, ID@) == address
        }
    }
}

/// Counters and books are delegated on the terms that were asked for.
pub proof fn delegations_keep_their_terms(
    counter: DelegateCpiArgs,
    book: DelegateOrderBookArgs,
    program_id: Pubkey,
    before: Accounts,
    after: Seq<AccountState>,
    required: u64,
    r: Result<Vec<Effect>, ProgramError>,
)
    ensures
        served(
            ScheduleCommitInstruction::DelegateCpi(counter),
            program_id,
            before,
            after,
            required,
            r,
        ) ==> after == before@ && delegates(
            r,
            before,
            counter.player,
            counter_address(counter.player),
            counter.commit_frequency_ms,
            counter.validator,
        ),
        served(
            ScheduleCommitInstruction::DelegateOrderBook(book),
            program_id,
            before,
            after,
            required,
            r,
        ) ==> after == before@ && delegates(
            r,
            before,
            book.book_manager,
            book_address(book.book_manager),
            book.commit_frequency_ms,
            book.validator,
        ),
{
    if let Ok(plan) = r {
        assert(deeds(plan@).len() == plan@.len());
    }
}

/// A book is set up at the address of its manager, and the first account,
/// which signs, pays for it.
pub proof fn a_manager_gets_a_book(
    program_id: Pubkey,
    before: Accounts,
    after: Seq<AccountState>,
    required: u64,
    r: Result<Vec<Effect>, ProgramError>,
)
    requires
        served(ScheduleCommitInstruction::InitOrderBook, program_id, before, after, required, r),
    ensures
        after == before@,
        r is Ok <==> {
            &&& before.count() == 4
            &&& before.at(0).is_signer
            &&& book_address(before.at(1).key) matches Some((address, _)) && address == before.at(
                2,
            ).key@
        },
        r matches Ok(plan) ==> {
            &&& plan@.len() == 1
            &&& deeds(plan@)[0] matches Deed::CreatePda {
                target,
                owner,
                space,
                seeds,
                system_program,
                payer,
            } && {
                &&& target == 2
                &&& owner@ == ID@
                &&& space == 10_240
                &&& system_program == 3
                &&& payer == 0
                &&& seeds.len() == 3
                &&& seeds[1] == before.at(1).key@
                &&& found_address(seeds.drop_last(), ID@) == book_address(before.at(1).key)
            }
        },
{
    if let Ok(plan) = r {
        assert(deeds(plan@).len() == 1);
        if let Deed::CreatePda { seeds, .. } = deeds(plan@)[0] {
            assert(seeds.drop_last() =~= seq![ORDER_BOOK_SEED@, before.at(1).key@]);
        }
    }
}

/// A book grows by exactly what was asked for. Where its lamports do not cover
/// the rent of the larger size the first account pays what is missing, to the
/// lamport, and otherwise nothing.
pub proof fn a_book_grows_by_what_is_asked(
    additional_space: u64,
    program_id: Pubkey,
    before: Accounts,
    after: Seq<AccountState>,
    required: u64,
    r: Result<Vec<Effect>, ProgramError>,
)
    requires
        ready(ScheduleCommitInstruction::GrowOrderBook(additional_space), before),
        served(
            ScheduleCommitInstruction::GrowOrderBook(additional_space),
            program_id,
            before,
            after,
            required,
            r,
        ),
    ensures
        after == before@,
        r is Ok <==> {
            &&& before.count() == 4
            &&& before.at(0).is_signer
            &&& book_address(before.at(1).key) matches Some((address, _)) && address == before.at(
                2,
            ).key@
        },
        r matches Ok(plan) ==> {
            let held = before.at(2).lamports;
            let last = deeds(plan@).last();
            &&& last matches Deed::Resize { target, size } && target == 2 && size
                == before.at(2).data.len() + additional_space
            &&& held >= required ==> plan@.len() == 1
            &&& held < required ==> plan@.len() == 2 && (deeds(plan@)[0] matches Deed::Invoke {
                program_id: system,
                accounts: metas,
                data,
                infos,
                signer_seeds,
            } && {
                &&& system == before.at(3).key
                &&& metas.len() == 2
                &&& metas[0].pubkey == before.at(0).key && metas[0].is_signer
                &&& metas[1].pubkey == before.at(2).key && !metas[1].is_signer
                &&& data.take(4) == le32(2)
                &&& from_le64(data.skip(4)) == required - held
                &&& infos == seq![0usize, 2usize, 3usize]
                &&& signer_seeds.len() == 0
            })
        },
{
    lemma_le32();
    lemma_le64();
    if let Ok(plan) = r {
        assert(deeds(plan@).len() == plan@.len());
        let held = before.at(2).lamports;
        if held < required {
            let missing = (required - held) as u64;
            assert(transfer_data(missing).take(4) =~= le32(2));
            assert(transfer_data(missing).skip(4) =~= le64(missing));
        }
    }
}

/// An update of a book is for a signer and goes to the second account alone.
/// What becomes of its data is what becomes of a book.
pub proof fn a_book_is_updated_in_place(
    update: BookUpdate,
    program_id: Pubkey,
    before: Accounts,
    after: Seq<AccountState>,
    required: u64,
    r: Result<Vec<Effect>, ProgramError>,
)
    requires
        before.wf(),
        served(
            ScheduleCommitInstruction::UpdateOrderBook(update),
            program_id,
            before,
            after,
            required,
            r,
        ),
    ensures
        before.count() < 2 || !before.at(0).is_signer ==> r is Err && after == before@,
        before.count() >= 2 && before.at(0).is_signer ==> {
            let s = before.refs@[1] as int;
            &&& after.len() == before@.len()
            &&& after[s] == before.at(1).with_data(after[s].data)
            &&& applied(
                before.at(1).data,
                after[s].data,
                update.bids@,
                update.asks@,
                match r {
                    Ok(_) => Ok(()),
                    Err(e) => Err(e),
                },
            )
            &&& r matches Ok(plan) ==> plan@.len() == 0
            &&& forall|other: int|
                0 <= other < after.len() && other != s ==> #[trigger] after[other] == before@[other]
        },
{
    if before.count() >= 2 && before.at(0).is_signer {
        let place = before.refs@[1] as int;
        let (data, answer) = choose|data: Seq<u8>, answer: Result<(), ProgramError>| #[trigger]
            applied(before.at(1).data, data, update.bids@, update.asks@, answer) && after
                == before@.update(place, before.at(1).with_data(data)) && crate::effects::says(
                r,
                match answer {
                    Ok(_) => Ok(Seq::empty()),
                    Err(e) => Err(e),
                },
            );
        assert(after[place].data == data);
        if let Ok(plan) = r {
            assert(deeds(plan@).len() == plan@.len());
            assert(answer is Ok);
        }
    }
}

/// A commit next to a book names everything behind the book, which is only
/// touched by the handler that follows where actions are asked for.
pub proof fn a_commit_beside_a_book_leaves_it_to_the_handler(
    args: ScheduleCommitWithOrderBookArgs,
    program_id: Pubkey,
    before: Accounts,
    after: Seq<AccountState>,
    required: u64,
    r: Result<Vec<Effect>, ProgramError>,
)
    requires
        before.count() <= usize::MAX,
        served(
            ScheduleCommitInstruction::ScheduleCommitWithVaultAndOrderBookCpi(args),
            program_id,
            before,
            after,
            required,
            r,
        ),
    ensures
        after == before@,
        r is Ok <==> before.count() == 5 + args.players@.len(),
        r matches Ok(plan) ==> {
            &&& plan@.len() == 1
            &&& deeds(plan@)[0] matches Deed::IntentBundle {
                payer,
                magic_context,
                magic_program,
                magic_fee_vault,
                commit,
                commit_and_undelegate,
            } && {
                &&& payer == 0
                &&& magic_context == 1
                &&& magic_program == 2
                &&& magic_fee_vault == Some(3usize)
                &&& commit_and_undelegate is None
                &&& commit matches Some(c) && {
                    &&& lie_from(c.accounts, 5, args.players@.len() as int)
                    &&& c.callback is None
                    &&& args.with_actions <==> c.handlers.len() == 1
                    &&& !args.with_actions <==> c.handlers.len() == 0
                    &&& args.with_actions ==> {
                        let h = c.handlers[0];
                        &&& h.accounts.len() == 1
                        &&& h.accounts[0] == ShortMeta::Writable(4)
                        &&& h.escrow_authority == 0
                        &&& h.escrow_index == 1
                        &&& h.compute_units == 50_000
                        &&& h.destination_program@ == ID@
                        &&& h.data == follow_up_data()
                    }
                }
            }
        },
{
    if let Ok(plan) = r {
        assert(deeds(plan@).len() == 1);
    }
}

/// A book is committed alone, for a signer, in the way that was asked for.
pub proof fn a_book_is_committed_alone(
    how: ScheduleCommitType,
    program_id: Pubkey,
    before: Accounts,
    after: Seq<AccountState>,
    required: u64,
    r: Result<Vec<Effect>, ProgramError>,
)
    requires
        served(
            ScheduleCommitInstruction::ScheduleCommitForOrderBook(how),
            program_id,
            before,
            after,
            required,
            r,
        ),
    ensures
        after == before@,
        r is Ok <==> before.count() == 4 && before.at(0).is_signer,
        r matches Ok(plan) ==> plan@.len() == 1 && commits(
            deeds(plan@)[0],
            how,
            before,
            seq![1usize],
            2,
            3,
            None,
        ),
{
    if let Ok(plan) = r {
        assert(deeds(plan@).len() == 1);
        if let Deed::Invoke { infos, .. } = deeds(plan@)[0] {
            assert(infos.skip(2) =~= seq![1usize]);
        }
    }
}

/// A return is requested by a signer of the delegation program that was handed
/// over, for the player's own counter, which signs with the player's seeds.
pub proof fn a_return_is_requested_for_ones_own_counter(
    player: Pubkey,
    program_id: Pubkey,
    before: Accounts,
    after: Seq<AccountState>,
    required: u64,
    r: Result<Vec<Effect>, ProgramError>,
)
    requires
        served(
            ScheduleCommitInstruction::RequestUndelegationCpi(player),
            program_id,
            before,
            after,
            required,
            r,
        ),
    ensures
        after == before@,
        r is Ok <==> {
            &&& before.count() == 8
            &&& before.at(0).is_signer
            &&& before.at(2).key@ == ID@
            &&& before.at(7).key@ == DELEGATION_PROGRAM_ID@
            &&& counter_address(player) matches Some((address, _)) && address == before.at(1).key@
        },
        r matches Ok(plan) ==> {
            &&& plan@.len() == 1
            &&& deeds(plan@)[0] matches Deed::Invoke {
                program_id: called,
                accounts: metas,
                data,
                infos,
                signer_seeds,
            } && {
                &&& called == before.at(7).key
                &&& data == le64(26)
                &&& metas.len() == 7
                &&& forall|i: int|
                    0 <= i < 7 ==> {
                        &&& (#[trigger] metas[i]).pubkey == before.at(i).key
                        &&& metas[i].is_signer <==> i < 2
                        &&& metas[i].is_writable <==> i == 0 || i == 3 || i == 5
                    }
                &&& infos.len() == 8
                &&& forall|i: int| 0 <= i < 8 ==> #[trigger] infos[i] == i
                &&& signer_seeds.len() == 1
                &&& signer_seeds[0].len() == 3
                &&& signer_seeds[0][1] == player@
                &&& counter_address(player) matches Some((_, bump)) && signer_seeds[0][2]
                    == seq![bump]
            }
        },
{
    if before.at(2).key@ == ID@ {
        crate::chain::lemma_pubkey_ext(before.at(2).key, crate::chain::key(ID));
    }
    if before.at(7).key@ == DELEGATION_PROGRAM_ID@ {
        crate::chain::lemma_pubkey_ext(
            before.at(7).key,
            crate::chain::key(DELEGATION_PROGRAM_ID),
        );
    }
    if let Ok(plan) = r {
        assert(deeds(plan@).len() == 1);
    }
}

/// A counter of forty bytes comes back unless its count is the largest but
/// one. Data of any other length comes back unless it is a labelled counter
/// that is marked to fail.
pub proof fn what_must_not_come_back(data: Seq<u8>)
    ensures
        data.len() == 40 ==> (return_answer(data) is Err <==> from_le64(data.subrange(32, 40))
            == 0xffff_ffff_ffff_fffe),
        data.len() == 40 && return_answer(data) is Err ==> return_answer(data) == Err::<(), _>(
            ProgramError::Custom(111),
        ),
        data.len() != 40 && return_answer(data) is Err ==> return_answer(data) == Err::<(), _>(
            ProgramError::Custom(122),
        ),
        data.len() != 40 ==> (return_answer(data) is Err <==> exists|count: u64, updates: u64|
            data == #[trigger] crate::borsh_format::counter_format(
                count,
                updates,
                "undelegate_fail"@,
            )),
{
    assert(crate::redshift::flexi::fail_label() == "undelegate_fail"@);
}

/// The bid that follows a commit next to a book is an update of that book, of
/// ten at a price of a hundred, and of nothing else.
pub proof fn the_bid_that_follows(update: BookUpdate)
    requires
        update.bids@.len() == 1,
        update.bids@[0].price == 100,
        update.bids@[0].size == 10,
        update.asks@.len() == 0,
    ensures
        follow_up_data() == seq![5u8] + ScheduleCommitInstruction::UpdateOrderBook(
            update,
        ).encoding(),
{
    assert(update.bids@ =~= seq![OrderLevel { price: 100, size: 10 }]);
    assert(update.asks@ =~= Seq::<OrderLevel>::empty());
    assert(ScheduleCommitInstruction::UpdateOrderBook(update).fields() =~= seq![
        Field::Levels(seq![OrderLevel { price: 100, size: 10 }]),
        Field::Levels(Seq::empty()),
    ]);
}

} // verus!
