//! The security program: commits of accounts that it does not own.
use crate::chain::{
    copy_keys, key, metas_of, positions, push_metas, readonly, writable, AccountMeta, Accounts,
    ProgramError, Pubkey, SolanaInstruction,
};
use crate::bytes::le32;
use crate::effects::{all_seeds, no_plan, plan_of, plan_of_two, says, Answer, Deed, Effect};
use crate::fields::{
    are_of, bytes_tell_the_fields, fields_format, lemma_read_kinds, read_values, views,
    write_values, Field, Kind, Value,
};
use crate::ids::{MAGIC_CONTEXT_ID, MAGIC_PROGRAM_ID};
use crate::redshift::schedule_builders::{commit_metas, direct_schedule_commit, schedule_commit_cpi};
use crate::redshift::schedule_commit::{
    all_found, counters_of, ScheduleCommitType, MAGIC_SCHEDULE_COMMIT_TAG,
};
use crate::redshift::SCHEDULE_COMMIT_TAG;
use vstd::prelude::*;
use vstd::slice::slice_subrange;

verus! {

/// The address of the security program.
pub const ID: [u8; 32] = [
    155, 102, 169, 155, 144, 124, 158, 161, 123, 226, 181, 13, 164, 184, 7, 162, 213, 196, 29, 177,
    1, 72, 143, 88, 210, 151, 152, 50, 17, 76, 78, 114,
];

/// The instructions of the security program.
#[derive(Clone, Debug)]
pub enum SecurityInstruction {
    /// Commits accounts twice: through the program that owns them, and then
    /// past it, which has to fail.
    SiblingScheduleCommitCpis(Vec<Pubkey>),
    /// Does nothing.
    NonCpi,
    /// Commits accounts past the program that owns them, which has to fail.
    DirectScheduleCommitCpi(Vec<Pubkey>),
}

impl SecurityInstruction {
    /// The number of the variant.
    pub open spec fn tag(self) -> u8 {
        match self {
            SecurityInstruction::SiblingScheduleCommitCpis(..) => 0,
            SecurityInstruction::NonCpi => 1,
            SecurityInstruction::DirectScheduleCommitCpi(..) => 2,
        }
    }

    /// What the fields hold, in order.
    pub open spec fn fields(self) -> Seq<Field> {
        match self {
            SecurityInstruction::SiblingScheduleCommitCpis(players) => seq![
                Field::Keys(players@),
            ],
            SecurityInstruction::NonCpi => Seq::empty(),
            SecurityInstruction::DirectScheduleCommitCpi(players) => seq![
                Field::Keys(players@),
            ],
        }
    }

    /// The kinds of the fields of a variant; `None` where there is no such
    /// variant.
    pub open spec fn kinds_of(tag: u8) -> Option<Seq<Kind>> {
        if tag == 0 {
            Some(seq![Kind::Keys])
        } else if tag == 1 {
            Some(Seq::empty())
        } else if tag == 2 {
            Some(seq![Kind::Keys])
        } else {
            None
        }
    }

    /// Whether the lengths of all fields can be written down.
    pub open spec fn fits(self) -> bool {
        forall|i: int| 0 <= i < self.fields().len() ==> (#[trigger] self.fields()[i]).fits()
    }

    /// The bytes of the instruction: its number and its fields.
    pub open spec fn encoding(self) -> Seq<u8> {
        seq![self.tag()] + fields_format(self.fields())
    }

    /// The fields are of the kinds of the variant.
    proof fn lemma_kinds(self)
        requires
            self.fits(),
        ensures
            Self::kinds_of(self.tag()) is Some,
            are_of(self.fields(), Self::kinds_of(self.tag())->0),
    {
    }

    /// The number of the variant.
    fn number(&self) -> (r: u8)
        ensures
            r == self.tag(),
    {
        match self {
            SecurityInstruction::SiblingScheduleCommitCpis(..) => 0,
            SecurityInstruction::NonCpi => 1,
            SecurityInstruction::DirectScheduleCommitCpi(..) => 2,
        }
    }

    /// The fields, in order.
    fn values(&self) -> (r: Vec<Value>)
        ensures
            views(r@) == self.fields(),
    {
        let r: Vec<Value> = match self {
            SecurityInstruction::SiblingScheduleCommitCpis(players) => vec![
                Value::Keys(copy_keys(players.as_slice())),
            ],
            SecurityInstruction::NonCpi => Vec::new(),
            SecurityInstruction::DirectScheduleCommitCpi(players) => vec![
                Value::Keys(copy_keys(players.as_slice())),
            ],
        };
        assert(views(r@) =~= self.fields());
        r
    }

    /// The kinds of the fields of a variant.
    fn kinds(tag: u8) -> (r: Option<Vec<Kind>>)
        ensures
            match r {
                Some(kinds) => Self::kinds_of(tag) == Some(kinds@),
                None => Self::kinds_of(tag) is None,
            },
    {
        let r: Option<Vec<Kind>> = match tag {
            0 => Some(vec![Kind::Keys]),
            1 => Some(Vec::new()),
            2 => Some(vec![Kind::Keys]),
            _ => None,
        };
        proof {
            if r is Some {
                assert(r->0@ =~= Self::kinds_of(tag)->0);
            }
        }
        r
    }

    /// The instruction with these fields.
    fn from_values(tag: u8, values: &[Value]) -> (r: Self)
        requires
            Self::kinds_of(tag) is Some,
            are_of(views(values@), Self::kinds_of(tag)->0),
        ensures
            r.tag() == tag,
            r.fields() == views(values@),
    {
        proof {
            lemma_read_kinds(values@, Self::kinds_of(tag)->0);
        }
        let r: Self = match tag {
            0 => SecurityInstruction::SiblingScheduleCommitCpis(values[0].get_keys()),
            1 => SecurityInstruction::NonCpi,
            _ => SecurityInstruction::DirectScheduleCommitCpi(values[0].get_keys()),
        };
        assert(r.fields() =~= views(values@));
        r
    }

    /// The bytes of the instruction.
    pub fn encode(&self) -> (r: Vec<u8>)
        requires
            self.fits(),
        ensures
            r@ == self.encoding(),
    {
        let values: Vec<Value> = self.values();
        proof {
            assert forall|i: int| 0 <= i < values@.len() implies (#[trigger] values@[i])@.fits() by {
                assert(self.fields()[i] == values@[i]@);
            }
        }
        write_values(self.number(), values.as_slice())
    }

    /// Reads an instruction; `None` exactly if these are the bytes of none.
    pub fn decode(data: &[u8]) -> (r: Option<Self>)
        ensures
            match r {
                Some(ix) => ix.fits() && data@ == ix.encoding(),
                None => forall|ix: Self| ix.fits() ==> data@ != #[trigger] ix.encoding(),
            },
    {
        if data.len() == 0 {
            return None;
        }
        let tag: u8 = data[0];
        let rest = slice_subrange(data, 1, data.len());
        proof {
            assert forall|ix: Self| ix.fits() && data@ == #[trigger] ix.encoding() implies ix.tag()
                == tag && rest@ == fields_format(ix.fields()) by {
                assert(ix.encoding()[0] == ix.tag());
                assert(rest@ =~= fields_format(ix.fields()));
            }
        }
        let kinds: Vec<Kind> = match Self::kinds(tag) {
            Some(kinds) => kinds,
            None => {
                proof {
                    assert forall|ix: Self| ix.fits() implies data@ != #[trigger] ix.encoding() by {
                        ix.lemma_kinds();
                    }
                }
                return None;
            },
        };
        match read_values(kinds.as_slice(), rest) {
            None => {
                proof {
                    assert forall|ix: Self| ix.fits() implies data@ != #[trigger] ix.encoding() by {
                        ix.lemma_kinds();
                        if data@ == ix.encoding() {
                            assert(rest@ != fields_format(ix.fields()));
                        }
                    }
                }
                None
            },
            Some(values) => {
                let ix = Self::from_values(tag, values.as_slice());
                assert(data@ =~= seq![tag] + rest@);
                Some(ix)
            },
        }
    }
}

/// An instruction is told by its bytes: two with the same bytes are the same
/// variant with the same fields, so that what was written reads back.
pub proof fn encoding_is_read_back(one: SecurityInstruction, other: SecurityInstruction)
    requires
        one.fits(),
        other.fits(),
        one.encoding() == other.encoding(),
    ensures
        one.tag() == other.tag(),
        one.fields() == other.fields(),
{
    assert(one.encoding()[0] == one.tag() && other.encoding()[0] == other.tag());
    one.lemma_kinds();
    other.lemma_kinds();
    assert(fields_format(one.fields()) =~= one.encoding().skip(1));
    assert(fields_format(other.fields()) =~= other.encoding().skip(1));
    bytes_tell_the_fields(one.fields(), other.fields(), SecurityInstruction::kinds_of(one.tag())->0);
}

/// The data of an instruction that names players.
pub open spec fn players_data(tag: u8, players: Seq<Pubkey>) -> Seq<u8> {
    seq![tag] + fields_format(seq![Field::Keys(players)])
}

/// The metas of an instruction on some accounts.
pub open spec fn pda_metas(payer: Pubkey, pass_schedulecommit_program: bool, pdas: Seq<Pubkey>)
    -> Seq<AccountMeta> {
    seq![
        writable(payer, true),
        writable(key(MAGIC_CONTEXT_ID), false),
        readonly(key(MAGIC_PROGRAM_ID), false),
    ] + (if pass_schedulecommit_program {
        seq![readonly(key(crate::redshift::ID), false)]
    } else {
        Seq::empty()
    }) + metas_of(pdas, false, true)
}

/// The metas of an instruction on some accounts.
fn with_pdas(payer: Pubkey, pass_schedulecommit_program: bool, pdas: &[Pubkey]) -> (r: Vec<
    AccountMeta,
>)
    ensures
        r@ == pda_metas(payer, pass_schedulecommit_program, pdas@),
{
    let mut metas: Vec<AccountMeta> = vec![
        AccountMeta::new(payer, true),
        AccountMeta::new(Pubkey::new(MAGIC_CONTEXT_ID), false),
        AccountMeta::new_readonly(Pubkey::new(MAGIC_PROGRAM_ID), false),
    ];
    if pass_schedulecommit_program {
        metas.push(AccountMeta::new_readonly(Pubkey::new(crate::redshift::ID), false));
    }
    push_metas(&mut metas, pdas, false, true);
    assert(metas@ =~= pda_metas(payer, pass_schedulecommit_program, pdas@));
    metas
}

/// An instruction of the security program.
fn borsh_ix(instruction: &SecurityInstruction, metas: Vec<AccountMeta>) -> (r: SolanaInstruction)
    requires
        instruction.fits(),
    ensures
        r.is(key(ID), metas@, instruction.encoding()),
{
    SolanaInstruction {
        program_id: Pubkey::new(ID),
        accounts: metas,
        data: instruction.encode(),
    }
}

/// Commits accounts through their owner and then past it. There are no more
/// players than can be counted.
pub fn sibling_schedule_commit_cpis(payer: Pubkey, players: &[Pubkey], pdas: &[Pubkey]) -> (r:
    SolanaInstruction)
    requires
        players@.len() <= u32::MAX,
    ensures
        r.is(key(ID), pda_metas(payer, true, pdas@), players_data(0, players@)),
{
    borsh_ix(
        &SecurityInstruction::SiblingScheduleCommitCpis(copy_keys(players)),
        with_pdas(payer, true, pdas),
    )
}

/// Commits accounts past their owner. There are no more players than can be
/// counted.
pub fn nested_schedule_commit_cpi(payer: Pubkey, players: &[Pubkey], pdas: &[Pubkey]) -> (r:
    SolanaInstruction)
    requires
        players@.len() <= u32::MAX,
    ensures
        r.is(key(ID), pda_metas(payer, false, pdas@), players_data(2, players@)),
{
    borsh_ix(
        &SecurityInstruction::DirectScheduleCommitCpi(copy_keys(players)),
        with_pdas(payer, false, pdas),
    )
}

/// Does nothing.
pub fn non_cpi(payer: Pubkey) -> (r: SolanaInstruction)
    ensures
        r.is(key(ID), seq![writable(payer, true)], seq![1u8]),
{
    let metas: Vec<AccountMeta> = vec![AccountMeta::new(payer, true)];
    assert(metas@ =~= seq![writable(payer, true)]);
    assert(SecurityInstruction::NonCpi.encoding() =~= seq![1u8]);
    borsh_ix(&SecurityInstruction::NonCpi, metas)
}

/// The data that commits the counters of players through their owner.
pub open spec fn owner_commit_data(players: Seq<Pubkey>) -> Seq<u8> {
    seq![SCHEDULE_COMMIT_TAG] + (seq![2u8] + fields_format(
        seq![
            Field::Keys(players),
            Field::Bool(false),
            Field::Bool(false),
            Field::Bool(false),
            Field::Choice { value: ScheduleCommitType::CommitFinalize.index(), of: 4 },
        ],
    ))
}

/// What commits the counters of players through their owner.
pub open spec fn owner_commit(accounts: Accounts, players: Seq<Pubkey>) -> Deed {
    Deed::Invoke {
        program_id: key(crate::redshift::ID),
        accounts: commit_metas(accounts.at(0).key, counters_of(players), true),
        data: owner_commit_data(players),
        infos: seq![0usize, 1usize] + positions(4, accounts.count() as int),
        signer_seeds: Seq::empty(),
    }
}

/// What commits the accounts from a position on past their owner.
pub open spec fn direct_commit(accounts: Accounts, from: int) -> Deed {
    Deed::Invoke {
        program_id: key(MAGIC_PROGRAM_ID),
        accounts: seq![
            writable(accounts.at(0).key, true),
            writable(key(MAGIC_CONTEXT_ID), false),
        ] + metas_of(accounts.keys_from(from), false, true),
        data: le32(MAGIC_SCHEDULE_COMMIT_TAG),
        infos: seq![0usize, 1usize] + positions(from, accounts.count() as int),
        signer_seeds: Seq::empty(),
    }
}

/// Commits the accounts from a position on past their owner.
fn invoke_direct(accounts: &Accounts, from: usize) -> (r: Effect)
    requires
        accounts.wf(),
        1 <= from <= accounts.count(),
    ensures
        r@ == direct_commit(*accounts, from as int),
{
    let mut keys: Vec<Pubkey> = Vec::new();
    let mut i: usize = from;
    while i < accounts.len()
        invariant
            accounts.wf(),
            from <= i <= accounts.count(),
            keys@ == accounts.keys_from(from as int).take(i - from),
        decreases accounts.count() - i,
    {
        keys.push(accounts.get(i).key);
        i = i + 1;
        assert(keys@ =~= accounts.keys_from(from as int).take(i - from));
    }
    assert(keys@ =~= accounts.keys_from(from as int));
    let instruction = direct_schedule_commit(accounts.get(0).key, None, keys.as_slice());
    assert(instruction.accounts@ =~= seq![
        writable(accounts.at(0).key, true),
        writable(key(MAGIC_CONTEXT_ID), false),
    ] + metas_of(keys@, false, true));
    let infos: Vec<usize> = infos_behind(accounts, from);
    let signer_seeds: Vec<Vec<Vec<u8>>> = Vec::new();
    assert(all_seeds(signer_seeds@) =~= Seq::<Seq<Seq<u8>>>::empty());
    Effect::Invoke { instruction, infos, signer_seeds }
}

/// The payer, the magic context and the accounts from a position on.
fn infos_behind(accounts: &Accounts, from: usize) -> (r: Vec<usize>)
    ensures
        r@ == seq![0usize, 1usize] + positions(from as int, accounts.count() as int),
{
    let rest: Vec<usize> = accounts.positions_from(from);
    let mut infos: Vec<usize> = vec![0, 1];
    let mut i: usize = 0;
    assert(infos@ =~= seq![0usize, 1usize] + rest@.take(0));
    while i < rest.len()
        invariant
            i <= rest@.len(),
            infos@ == seq![0usize, 1usize] + rest@.take(i as int),
        decreases rest@.len() - i,
    {
        infos.push(rest[i]);
        i = i + 1;
        assert(infos@ =~= seq![0usize, 1usize] + rest@.take(i as int));
    }
    assert(rest@.take(i as int) =~= rest@);
    infos
}

/// The answer that commits accounts through their owner and then past it; it
/// is refused when the counter of a player is not found.
pub open spec fn sibling_answer(accounts: Accounts, players: Seq<Pubkey>) -> Answer {
    if accounts.count() < 4 {
        Err(ProgramError::NotEnoughAccountKeys)
    } else if !all_found(players) {
        Err(ProgramError::InvalidSeeds)
    } else {
        Ok(seq![owner_commit(accounts, players), direct_commit(accounts, 4)])
    }
}

/// Commits accounts through their owner and then past it.
pub fn process_sibling_cpis(accounts: &Accounts, players: &[Pubkey]) -> (r: Result<
    Vec<Effect>,
    ProgramError,
>)
    requires
        accounts.wf(),
        players@.len() <= u32::MAX,
    ensures
        says(r, sibling_answer(*accounts, players@)),
{
    if accounts.len() < 4 {
        return Err(ProgramError::NotEnoughAccountKeys);
    }
    let named: Vec<Pubkey> = copy_keys(players);
    match schedule_commit_cpi(
        accounts.get(0).key,
        named,
        false,
        false,
        ScheduleCommitType::CommitFinalize,
        true,
    ) {
        None => Err(ProgramError::InvalidSeeds),
        Some(instruction) => {
            assert(instruction.data@ =~= owner_commit_data(players@));
            let infos: Vec<usize> = infos_behind(accounts, 4);
            let signer_seeds: Vec<Vec<Vec<u8>>> = Vec::new();
            assert(all_seeds(signer_seeds@) =~= Seq::<Seq<Seq<u8>>>::empty());
            let indirect = Effect::Invoke { instruction, infos, signer_seeds };
            Ok(plan_of_two(indirect, invoke_direct(accounts, 4)))
        },
    }
}

/// The answer that commits accounts past their owner.
pub open spec fn direct_answer(accounts: Accounts) -> Answer {
    if accounts.count() < 3 {
        Err(ProgramError::NotEnoughAccountKeys)
    } else {
        Ok(seq![direct_commit(accounts, 3)])
    }
}

/// Commits accounts past their owner.
pub fn process_direct_cpi(accounts: &Accounts) -> (r: Result<Vec<Effect>, ProgramError>)
    requires
        accounts.wf(),
    ensures
        says(r, direct_answer(*accounts)),
{
    if accounts.len() < 3 {
        return Err(ProgramError::NotEnoughAccountKeys);
    }
    Ok(plan_of(invoke_direct(accounts, 3)))
}

/// The answer to an instruction.
pub open spec fn answer(ix: SecurityInstruction, accounts: Accounts) -> Answer {
    match ix {
        SecurityInstruction::SiblingScheduleCommitCpis(players) => sibling_answer(
            accounts,
            players@,
        ),
        SecurityInstruction::NonCpi => Ok(Seq::empty()),
        SecurityInstruction::DirectScheduleCommitCpi(_) => direct_answer(accounts),
    }
}

/// Serves what an instruction's data asks for; data that holds no instruction
/// is refused.
pub fn process_instruction(accounts: &Accounts, instruction_data: &[u8]) -> (r: Result<
    Vec<Effect>,
    ProgramError,
>)
    requires
        accounts.wf(),
    ensures
        ({
            ||| exists|ix: SecurityInstruction|
                ix.fits() && instruction_data@ == #[trigger] ix.encoding() && says(
                    r,
                    answer(ix, *accounts),
                )
            ||| {
                &&& forall|ix: SecurityInstruction|
                    ix.fits() ==> instruction_data@ != #[trigger] ix.encoding()
                &&& says(r, Err(ProgramError::InvalidInstructionData))
            }
        }),
{
    match SecurityInstruction::decode(instruction_data) {
        None => Err(ProgramError::InvalidInstructionData),
        Some(ix) => {
            proof {
                if ix is SiblingScheduleCommitCpis {
                    assert(ix.fields()[0].fits());
                }
            }
            match &ix {
                SecurityInstruction::SiblingScheduleCommitCpis(players) => process_sibling_cpis(
                    accounts,
                    players.as_slice(),
                ),
                SecurityInstruction::NonCpi => Ok(no_plan()),
                SecurityInstruction::DirectScheduleCommitCpi(_) => process_direct_cpi(accounts),
            }
        },
    }
}

/// Whether a deed commits the accounts from one position on by calling the
/// magic program, as a program that does not own them.
pub open spec fn commits_directly(deed: Deed, accounts: Accounts, first: int) -> bool {
    deed matches Deed::Invoke { program_id, accounts: metas, data, infos, signer_seeds } && {
        &&& program_id@ == MAGIC_PROGRAM_ID@
        &&& data == le32(1)
        &&& metas.len() == 2 + accounts.count() - first
        &&& infos.len() == metas.len()
        &&& metas[0].pubkey == accounts.at(0).key && metas[0].is_signer && metas[0].is_writable
        &&& metas[1].pubkey@ == MAGIC_CONTEXT_ID@ && !metas[1].is_signer && metas[1].is_writable
        &&& infos[0] == 0
        &&& infos[1] == 1
        &&& forall|i: int|
            2 <= i < metas.len() ==> {
                &&& #[trigger] infos[i] == first + i - 2
                &&& metas[i].pubkey == accounts.at(first + i - 2).key
                &&& !metas[i].is_signer
                &&& metas[i].is_writable
            }
        &&& signer_seeds.len() == 0
    }
}

/// What the security program does: nothing at all, or a commit of all accounts
/// that were handed over behind the first three, or, behind the first four,
/// one through the owning program and then one of its own on the same accounts.
pub proof fn attacks_commit_what_they_are_handed(ix: SecurityInstruction, accounts: Accounts)
    requires
        accounts.count() <= usize::MAX,
    ensures
        ix is NonCpi ==> (answer(ix, accounts) matches Ok(plan) && plan.len() == 0),
        ix is DirectScheduleCommitCpi ==> {
            &&& answer(ix, accounts) is Ok <==> accounts.count() >= 3
            &&& answer(ix, accounts) matches Ok(plan) ==> plan.len() == 1 && commits_directly(
                plan[0],
                accounts,
                3,
            )
        },
        ix matches SecurityInstruction::SiblingScheduleCommitCpis(players) ==> {
            &&& answer(ix, accounts) is Ok <==> accounts.count() >= 4 && all_found(players@)
            &&& answer(ix, accounts) matches Ok(plan) ==> {
                &&& plan.len() == 2
                &&& commits_directly(plan[1], accounts, 4)
                &&& plan[0] matches Deed::Invoke {
                    program_id,
                    accounts: metas,
                    data,
                    infos,
                    signer_seeds,
                } && {
                    &&& program_id@ == crate::redshift::ID@
                    &&& metas == commit_metas(accounts.at(0).key, counters_of(players@), true)
                    &&& data == owner_commit_data(players@)
                    &&& infos.len() == accounts.count() - 2
                    &&& infos[0] == 0
                    &&& infos[1] == 1
                    &&& forall|i: int| 2 <= i < infos.len() ==> #[trigger] infos[i] == i + 2
                    &&& signer_seeds.len() == 0
                }
            }
        },
{
}

/// An instruction names the payer, who alone signs, then the context and the
/// magic program, then the owning program where that is called too, and then
/// the accounts.
pub proof fn an_attack_names_its_accounts(
    payer: Pubkey,
    with_program: bool,
    pdas: Seq<Pubkey>,
    i: int,
)
    requires
        0 <= i < pdas.len(),
    ensures
        ({
            let metas = pda_metas(payer, with_program, pdas);
            let first = if with_program {
                4int
            } else {
                3
            };
            &&& metas.len() == first + pdas.len()
            &&& metas[0].pubkey == payer && metas[0].is_signer && metas[0].is_writable
            &&& metas[1].pubkey@ == MAGIC_CONTEXT_ID@ && metas[1].is_writable
            &&& metas[2].pubkey@ == MAGIC_PROGRAM_ID@ && !metas[2].is_writable
            &&& with_program ==> metas[3].pubkey@ == crate::redshift::ID@ && !metas[3].is_writable
            &&& metas[first + i].pubkey == pdas[i] && metas[first + i].is_writable
            &&& forall|k: int| 1 <= k < metas.len() ==> !(#[trigger] metas[k]).is_signer
        }),
{
}

} // verus!
