//! The entrypoint of the fixture program.
use crate::borsh_format::counter_format;
use crate::bytes::{append_bytes, from_le64, read_u64, same_bytes};
use crate::chain::{
    key, metas_of, positions, AccountState, Accounts, ProgramError, Pubkey, SolanaInstruction,
};
use crate::effects::{all_seeds, deeds, plan_of, says, Answer, Deed, Effect};
use crate::ids::EXTERNAL_UNDELEGATE_DISCRIMINATOR;
use crate::redline::builders::simple_byte_set;
use crate::redline::entry::is_callback;
use crate::redline::instruction::Instruction;
use crate::redshift::flexi::{FlexiInstruction, TRANSFER_CALLBACK_DISCRIMINATOR};
use crate::redshift::flexi_processors;
use crate::redshift::schedule_commit::ScheduleCommitInstruction;
use crate::redshift::schedule_processors;
use crate::redshift::{FLEXI_TAG, LOG_MSG_TAG, SCHEDULE_COMMIT_TAG};
use crate::text::{decimal, push_decimal, text_of};
use vstd::prelude::*;
use vstd::slice::slice_subrange;
use vstd::string::StringExecFns;
use vstd::utf8::{decode_utf8, encode_utf8, valid_utf8};

verus! {

/// How the program was built.
#[derive(Clone, Copy, Debug, PartialEq, Eq, Structural)]
pub struct Build {
    /// Whether this is the second version.
    pub upgraded: bool,
    /// The first byte of the instruction that shows the version, if the build
    /// has it.
    pub upgrade_tag: Option<u8>,
}

impl Build {
    /// The version.
    pub open spec fn version(self) -> u64 {
        if self.upgraded {
            2
        } else {
            1
        }
    }

    /// What follows every logged message.
    pub open spec fn suffix(self) -> Seq<char> {
        if self.upgraded {
            " upgraded"@
        } else {
            ""@
        }
    }
}

/// The data that logs a message.
pub fn log_msg_data(message: &str) -> (r: Vec<u8>)
    ensures
        r@ == seq![LOG_MSG_TAG] + encode_utf8(message@),
{
    let mut data: Vec<u8> = vec![LOG_MSG_TAG];
    append_bytes(&mut data, message.as_bytes());
    assert(data@ =~= seq![LOG_MSG_TAG] + encode_utf8(message@));
    data
}

/// The answer that logs a message; bytes that are no text are refused.
pub open spec fn log_answer(build: Build, message: Seq<u8>) -> Answer {
    if valid_utf8(message) {
        Ok(seq![Deed::Log { text: "LogMsg: "@ + decode_utf8(message) + build.suffix() }])
    } else {
        Err(ProgramError::InvalidInstructionData)
    }
}

/// Logs a message.
pub fn process_log_msg(build: Build, message: &[u8]) -> (r: Result<Vec<Effect>, ProgramError>)
    ensures
        says(r, log_answer(build, message@)),
{
    match text_of(message) {
        None => Err(ProgramError::InvalidInstructionData),
        Some(text) => {
            let mut line: String = "LogMsg: ".to_owned();
            line.append(text.as_str());
            line.append(
                if build.upgraded {
                    " upgraded"
                } else {
                    ""
                },
            );
            Ok(plan_of(Effect::Log { text: line }))
        },
    }
}

/// A logged message shows what was asked to be logged: the data of a message
/// is served with that very text.
pub proof fn messages_are_logged(build: Build, message: Seq<char>)
    ensures
        log_answer(build, encode_utf8(message)) == Ok::<_, ProgramError>(
            seq![Deed::Log { text: "LogMsg: "@ + message + build.suffix() }],
        ),
{
    vstd::utf8::encode_utf8_valid_utf8(message);
    vstd::utf8::encode_utf8_decode_utf8(message);
}

/// The value that shows the version of an id.
pub open spec fn version_value(id: u64, version: u64) -> u64 {
    ((id * 10 + version) % 0x1_0000_0000_0000_0000) as u64
}

/// What fills the account at a position through the load program.
pub open spec fn fill_deed(accounts: Accounts, at: int, value: u64) -> Deed {
    Deed::Invoke {
        program_id: key(crate::redline::ID),
        accounts: metas_of(seq![accounts.at(at).key], false, true),
        data: (Instruction::SimpleByteSet { id: value }).encoding(),
        infos: positions(0, accounts.count() as int),
        signer_seeds: Seq::empty(),
    }
}

/// The answer that shows the version: it is logged and written to the first
/// account, and its complement to the second; and then it fails if it is asked
/// to.
pub open spec fn upgrade_answer(build: Build, tag: u8, accounts: Accounts, payload: Seq<u8>)
    -> Answer {
    if payload.len() != 9 {
        Err(ProgramError::InvalidInstructionData)
    } else if accounts.count() < 2 {
        Err(ProgramError::NotEnoughAccountKeys)
    } else {
        let value = version_value(from_le64(payload.subrange(1, 9)), build.version());
        let shown = seq![
            Deed::Log { text: "Upgrade: "@ + decimal(build.version() as nat) },
            fill_deed(accounts, 0, value),
            fill_deed(accounts, 1, (u64::MAX - value) as u64),
        ];
        Ok(
            if payload[0] != 0 {
                shown.push(Deed::Fail { code: tag as u32 })
            } else {
                shown
            },
        )
    }
}

/// Fills the account at a position through the load program.
fn fill(accounts: &Accounts, at: usize, value: u64) -> (r: Effect)
    requires
        accounts.wf(),
        at < accounts.count(),
    ensures
        r@ == fill_deed(*accounts, at as int, value),
{
    let mut keys: Vec<Pubkey> = Vec::new();
    keys.push(accounts.get(at).key);
    assert(keys@ =~= seq![accounts.at(at as int).key]);
    let instruction: SolanaInstruction = simple_byte_set(value, keys.as_slice());
    let infos: Vec<usize> = accounts.positions_from(0);
    let signer_seeds: Vec<Vec<Vec<u8>>> = Vec::new();
    assert(all_seeds(signer_seeds@) =~= Seq::<Seq<Seq<u8>>>::empty());
    Effect::Invoke { instruction, infos, signer_seeds }
}

/// Shows the version.
pub fn process_upgrade(build: Build, tag: u8, accounts: &Accounts, payload: &[u8]) -> (r: Result<
    Vec<Effect>,
    ProgramError,
>)
    requires
        accounts.wf(),
    ensures
        says(r, upgrade_answer(build, tag, *accounts, payload@)),
{
    if payload.len() != 9 {
        return Err(ProgramError::InvalidInstructionData);
    }
    if accounts.len() < 2 {
        return Err(ProgramError::NotEnoughAccountKeys);
    }
    let id: u64 = read_u64(payload, 1);
    let version: u64 = if build.upgraded {
        2
    } else {
        1
    };
    let value: u64 = ((id as u128 * 10 + version as u128) % 0x1_0000_0000_0000_0000) as u64;
    let mut line: String = "Upgrade: ".to_owned();
    push_decimal(&mut line, version);
    let mut plan: Vec<Effect> = Vec::new();
    plan.push(Effect::Log { text: line });
    plan.push(fill(accounts, 0, value));
    plan.push(fill(accounts, 1, u64::MAX - value));
    if payload[0] != 0 {
        plan.push(Effect::Fail { code: tag as u32 });
    }
    assert(deeds(plan@) =~= upgrade_answer(build, tag, *accounts, payload@)->Ok_0);
    Ok(plan)
}

/// Whether `data` is the callback of a transfer.
pub open spec fn is_transfer_callback(data: Seq<u8>) -> bool {
    TRANSFER_CALLBACK_DISCRIMINATOR@.is_prefix_of(data)
}

/// What an instruction counts on.
pub open spec fn ready(build: Build, accounts: Accounts, data: Seq<u8>) -> bool {
    if is_callback(data) {
        true
    } else if is_transfer_callback(data) {
        flexi_processors::payable(accounts, data.skip(8))
    } else if data.len() == 0 || build.upgrade_tag == Some(data[0]) {
        true
    } else if data[0] == SCHEDULE_COMMIT_TAG {
        schedule_processors::ready_for(data.skip(1), accounts)
    } else if data[0] == FLEXI_TAG {
        flexi_processors::ready_for(data.skip(1), accounts)
    } else {
        true
    }
}

/// Whether an instruction finds what it counts on, and
/// [`process_instruction`] can serve it.
pub fn can_serve(build: Build, accounts: &Accounts, instruction_data: &[u8]) -> (r: bool)
    requires
        accounts.wf(),
    ensures
        r == ready(build, *accounts, instruction_data@),
{
    if instruction_data.len() >= 8 {
        let discriminator = slice_subrange(instruction_data, 0, 8);
        let rest = slice_subrange(instruction_data, 8, instruction_data.len());
        assert(discriminator@ =~= instruction_data@.take(8));
        assert(rest@ =~= instruction_data@.skip(8));
        if same_bytes(discriminator, EXTERNAL_UNDELEGATE_DISCRIMINATOR.as_slice()) {
            return true;
        }
        if same_bytes(discriminator, TRANSFER_CALLBACK_DISCRIMINATOR.as_slice()) {
            return flexi_processors::can_give_back(accounts, rest);
        }
    }
    if instruction_data.len() == 0 {
        return true;
    }
    let tag: u8 = instruction_data[0];
    let payload = slice_subrange(instruction_data, 1, instruction_data.len());
    assert(payload@ =~= instruction_data@.skip(1));
    if let Some(upgrade_tag) = build.upgrade_tag {
        if tag == upgrade_tag {
            return true;
        }
    }
    if tag == SCHEDULE_COMMIT_TAG {
        schedule_processors::can_process(accounts, payload)
    } else if tag == FLEXI_TAG {
        flexi_processors::can_process(accounts, payload)
    } else {
        true
    }
}

/// Whether serving `data` on `before` leaves `after` and answers `r`: the two
/// callbacks are recognised by their markers before anything else is read, and
/// then the first byte decides. An instruction of no known kind does nothing.
pub open spec fn entered(
    build: Build,
    program_id: Pubkey,
    before: Accounts,
    after: Seq<AccountState>,
    data: Seq<u8>,
    required: u64,
    r: Result<Vec<Effect>, ProgramError>,
) -> bool {
    if is_callback(data) {
        after == before@ && schedule_processors::takes_back(r, before, program_id, data.skip(8))
    } else if is_transfer_callback(data) {
        after == flexi_processors::after_callback(before, data.skip(8)) && says(
            r,
            match flexi_processors::given_back(before, data.skip(8)) {
                Ok(_) => Ok(Seq::empty()),
                Err(e) => Err(e),
            },
        )
    } else if data.len() == 0 {
        after == before@ && says(r, Ok(Seq::empty()))
    } else if data[0] == LOG_MSG_TAG {
        after == before@ && says(r, log_answer(build, data.skip(1)))
    } else if build.upgrade_tag == Some(data[0]) {
        after == before@ && says(r, upgrade_answer(build, data[0], before, data.skip(1)))
    } else if data[0] == SCHEDULE_COMMIT_TAG {
        schedule_processors::processed(data.skip(1), program_id, before, after, required, r)
    } else if data[0] == FLEXI_TAG {
        flexi_processors::processed(data.skip(1), before, after, required, r)
    } else {
        after == before@ && says(r, Ok(Seq::empty()))
    }
}

/// Serves what an instruction's data asks for. `required` is the balance that
/// an account needs for the size that [`rent_size`] gives.
pub fn process_instruction(
    build: Build,
    program_id: &Pubkey,
    accounts: &mut Accounts,
    instruction_data: &[u8],
    required: u64,
) -> (r: Result<Vec<Effect>, ProgramError>)
    requires
        old(accounts).wf(),
        ready(build, *old(accounts), instruction_data@),
    ensures
        final(accounts).wf(),
        final(accounts).refs@ == old(accounts).refs@,
        entered(
            build,
            *program_id,
            *old(accounts),
            final(accounts)@,
            instruction_data@,
            required,
            r,
        ),
{
    if instruction_data.len() >= 8 {
        let discriminator = slice_subrange(instruction_data, 0, 8);
        let rest = slice_subrange(instruction_data, 8, instruction_data.len());
        assert(discriminator@ =~= instruction_data@.take(8));
        assert(rest@ =~= instruction_data@.skip(8));
        if same_bytes(discriminator, EXTERNAL_UNDELEGATE_DISCRIMINATOR.as_slice()) {
            return schedule_processors::process_undelegate_request(program_id, accounts, rest);
        }
        if same_bytes(discriminator, TRANSFER_CALLBACK_DISCRIMINATOR.as_slice()) {
            return flexi_processors::process_transfer_callback(accounts, rest);
        }
    }
    if instruction_data.len() == 0 {
        return Ok(crate::effects::no_plan());
    }
    let tag: u8 = instruction_data[0];
    let payload = slice_subrange(instruction_data, 1, instruction_data.len());
    assert(payload@ =~= instruction_data@.skip(1));
    if tag == LOG_MSG_TAG {
        return process_log_msg(build, payload);
    }
    if let Some(upgrade_tag) = build.upgrade_tag {
        if tag == upgrade_tag {
            return process_upgrade(build, tag, accounts, payload);
        }
    }
    if tag == SCHEDULE_COMMIT_TAG {
        schedule_processors::process(program_id, accounts, payload, required)
    } else if tag == FLEXI_TAG {
        flexi_processors::process(accounts, payload, required)
    } else {
        Ok(crate::effects::no_plan())
    }
}

/// Serves what an instruction's data asks for, if it finds what it counts on;
/// `None`, and nothing changed, if it does not.
pub fn try_process_instruction(
    build: Build,
    program_id: &Pubkey,
    accounts: &mut Accounts,
    instruction_data: &[u8],
    required: u64,
) -> (r: Option<Result<Vec<Effect>, ProgramError>>)
    requires
        old(accounts).wf(),
    ensures
        final(accounts).wf(),
        final(accounts).refs@ == old(accounts).refs@,
        match r {
            Some(served) => ready(build, *old(accounts), instruction_data@) && entered(
                build,
                *program_id,
                *old(accounts),
                final(accounts)@,
                instruction_data@,
                required,
                served,
            ),
            None => !ready(build, *old(accounts), instruction_data@) && final(accounts)@ == old(
                accounts,
            )@,
        },
{
    if can_serve(build, accounts, instruction_data) {
        Some(process_instruction(build, program_id, accounts, instruction_data, required))
    } else {
        None
    }
}

/// The size whose balance an instruction on counters and order books asks
/// for: that of an order book that grows.
pub open spec fn schedule_rent(ix: ScheduleCommitInstruction, accounts: Accounts) -> Option<int> {
    match ix {
        ScheduleCommitInstruction::GrowOrderBook(additional_space) =>
            if schedule_processors::grow_refused(accounts) is None {
            Some(accounts.at(2).data.len() + additional_space)
        } else {
            None
        },
        _ => None,
    }
}

/// The size whose balance an instruction on labelled counters asks for: that of
/// a new counter.
pub open spec fn flexi_rent(ix: FlexiInstruction, accounts: Accounts) -> Option<int> {
    match ix {
        FlexiInstruction::Init { label, .. } => if flexi_processors::init_refused(
            accounts,
            label@,
        ) is None {
            Some(counter_format(0, 0, label@).len() as int)
        } else {
            None
        },
        _ => None,
    }
}

/// Whether `size` is the size whose balance `data` asks for.
pub open spec fn asks_for(build: Build, accounts: Accounts, data: Seq<u8>, size: Option<int>)
    -> bool {
    if is_callback(data) || is_transfer_callback(data) || data.len() == 0 || data[0] == LOG_MSG_TAG
        || build.upgrade_tag == Some(data[0]) {
        size is None
    } else if data[0] == SCHEDULE_COMMIT_TAG {
        ||| exists|ix: ScheduleCommitInstruction|
            ix.fits() && data.skip(1) == #[trigger] ix.encoding() && size == schedule_rent(
                ix,
                accounts,
            )
        ||| size is None && forall|ix: ScheduleCommitInstruction|
            ix.fits() ==> data.skip(1) != #[trigger] ix.encoding()
    } else if data[0] == FLEXI_TAG {
        ||| exists|ix: FlexiInstruction|
            ix.fits() && data.skip(1) == #[trigger] ix.encoding() && size == flexi_rent(ix, accounts)
        ||| size is None && forall|ix: FlexiInstruction|
            ix.fits() ==> data.skip(1) != #[trigger] ix.encoding()
    } else {
        size is None
    }
}

/// The size whose balance [`process_instruction`] needs to know, if it needs
/// one; an instruction that does not find what it counts on needs none.
pub fn rent_size(build: Build, accounts: &Accounts, instruction_data: &[u8]) -> (r: Option<usize>)
    requires
        accounts.wf(),
    ensures
        if ready(build, *accounts, instruction_data@) {
            asks_for(
                build,
                *accounts,
                instruction_data@,
                match r {
                    Some(size) => Some(size as int),
                    None => None,
                },
            )
        } else {
            r is None
        },
{
    if !can_serve(build, accounts, instruction_data) {
        return None;
    }
    if instruction_data.len() >= 8 {
        let discriminator = slice_subrange(instruction_data, 0, 8);
        assert(discriminator@ =~= instruction_data@.take(8));
        if same_bytes(discriminator, EXTERNAL_UNDELEGATE_DISCRIMINATOR.as_slice()) || same_bytes(
            discriminator,
            TRANSFER_CALLBACK_DISCRIMINATOR.as_slice(),
        ) {
            return None;
        }
    }
    if instruction_data.len() == 0 {
        return None;
    }
    let tag: u8 = instruction_data[0];
    let payload = slice_subrange(instruction_data, 1, instruction_data.len());
    assert(payload@ =~= instruction_data@.skip(1));
    if tag == LOG_MSG_TAG {
        return None;
    }
    if let Some(upgrade_tag) = build.upgrade_tag {
        if tag == upgrade_tag {
            return None;
        }
    }
    if tag == SCHEDULE_COMMIT_TAG {
        match ScheduleCommitInstruction::decode(payload) {
            None => None,
            Some(ix) => {
                let ghost asked = ix;
                let size: Option<usize> = match ix {
                    ScheduleCommitInstruction::GrowOrderBook(additional_space) =>
                        match schedule_processors::grown_size(accounts, additional_space) {
                        Ok(size) => Some(size),
                        Err(_) => None,
                    },
                    _ => None,
                };
                assert(payload@ == asked.encoding());
                size
            },
        }
    } else if tag == FLEXI_TAG {
        match FlexiInstruction::decode(payload) {
            None => None,
            Some(ix) => {
                let ghost asked = ix;
                let size: Option<usize> = match ix {
                    FlexiInstruction::Init { label, .. } => match flexi_processors::new_counter(
                        accounts,
                        label.as_str(),
                    ) {
                        Ok(data) => Some(data.len()),
                        Err(_) => None,
                    },
                    _ => None,
                };
                assert(payload@ == asked.encoding());
                size
            },
        }
    } else {
        None
    }
}

/// An upgrade shows the version of the build: the first account is filled with
/// ten times the id and the version behind it, and the second with what is
/// missing to the largest number. It fails afterwards where that is asked for.
pub proof fn an_upgrade_shows_the_version(
    build: Build,
    tag: u8,
    accounts: Accounts,
    payload: Seq<u8>,
)
    requires
        accounts.count() <= usize::MAX,
        payload.len() == 9 ==> 10 * from_le64(payload.subrange(1, 9)) + 2 <= u64::MAX,
    ensures
        ({
            let r = upgrade_answer(build, tag, accounts, payload);
            let version = if build.upgraded {
                2u64
            } else {
                1u64
            };
            &&& r is Ok <==> payload.len() == 9 && accounts.count() >= 2
            &&& payload.len() != 9 ==> r == Err::<Seq<Deed>, _>(
                ProgramError::InvalidInstructionData,
            )
            &&& r matches Ok(plan) ==> {
                &&& plan.len() == if payload[0] != 0 {
                    4int
                } else {
                    3
                }
                &&& plan[0] matches Deed::Log { text } && text == "Upgrade: "@ + decimal(
                    version as nat,
                )
                &&& exists|value: u64, rest: u64|
                    {
                        &&& value == 10 * from_le64(payload.subrange(1, 9)) + version
                        &&& value + rest == u64::MAX
                        &&& #[trigger] fills(plan[1], accounts, 0, value)
                        &&& #[trigger] fills(plan[2], accounts, 1, rest)
                    }
                &&& payload[0] != 0 ==> (plan[3] matches Deed::Fail { code } && code == tag)
            }
        }),
{
    let r = upgrade_answer(build, tag, accounts, payload);
    if let Ok(plan) = r {
        let id = from_le64(payload.subrange(1, 9));
        let value = (10 * id + build.version()) as u64;
        assert(version_value(id, build.version()) == value);
        let rest = (u64::MAX - value) as u64;
        assert(fills(plan[1], accounts, 0, value));
        assert(fills(plan[2], accounts, 1, rest));
    }
}

/// Whether a deed has one account filled with a number by the load program.
pub open spec fn fills(deed: Deed, accounts: Accounts, at: int, value: u64) -> bool {
    deed matches Deed::Invoke { program_id, accounts: metas, data, infos, signer_seeds } && {
        &&& program_id@ == crate::redline::ID@
        &&& metas.len() == 1
        &&& metas[0].pubkey == accounts.at(at).key
        &&& metas[0].is_writable
        &&& !metas[0].is_signer
        &&& data == (Instruction::SimpleByteSet { id: value }).encoding()
        &&& infos.len() == accounts.count()
        &&& forall|i: int| 0 <= i < infos.len() ==> #[trigger] infos[i] == i
        &&& signer_seeds.len() == 0
    }
}

/// The balance that is asked for is that of the size which the account will
/// have: the length of the counter that is written, or the size that the book
/// is brought to.
pub proof fn rent_is_asked_for_the_size_to_be(
    label: String,
    bump: u8,
    additional_space: u64,
    accounts: Accounts,
    required: u64,
)
    requires
        schedule_processors::ready(
            ScheduleCommitInstruction::GrowOrderBook(additional_space),
            accounts,
        ),
    ensures
        ({
            let init = FlexiInstruction::Init { label, bump };
            let r = flexi_processors::answer(init, accounts, required).1;
            &&& flexi_rent(init, accounts) is Some <==> r is Ok
            &&& r matches Ok(plan) ==> (plan[1] matches Deed::Write { bytes, .. } && flexi_rent(
                init,
                accounts,
            ) == Some(bytes.len() as int))
        }),
        ({
            let grow = ScheduleCommitInstruction::GrowOrderBook(additional_space);
            let r = schedule_processors::grow_answer(accounts, additional_space, required);
            &&& schedule_rent(grow, accounts) is Some <==> r is Ok
            &&& r matches Ok(plan) ==> (plan.last() matches Deed::Resize { size, .. }
                && schedule_rent(grow, accounts) == Some(size as int))
        }),
{
}

/// Where no callback is meant the first byte decides: four logs, five is for
/// counters and order books, six is for labelled counters, and anything else is
/// passed over, as no data at all is.
pub proof fn the_first_byte_decides(
    build: Build,
    program_id: Pubkey,
    before: Accounts,
    after: Seq<AccountState>,
    data: Seq<u8>,
    required: u64,
    r: Result<Vec<Effect>, ProgramError>,
)
    requires
        entered(build, program_id, before, after, data, required, r),
        !is_callback(data),
        !is_transfer_callback(data),
        build.upgrade_tag is None,
    ensures
        data.len() == 0 || !(4 <= data[0] <= 6) ==> after == before@ && (r matches Ok(plan)
            && plan@.len() == 0),
        data.len() > 0 && data[0] == 4 ==> after == before@ && says(
            r,
            log_answer(build, data.skip(1)),
        ),
        data.len() > 0 && data[0] == 5 ==> schedule_processors::processed(
            data.skip(1),
            program_id,
            before,
            after,
            required,
            r,
        ),
        data.len() > 0 && data[0] == 6 ==> flexi_processors::processed(
            data.skip(1),
            before,
            after,
            required,
            r,
        ),
{
    if let Ok(plan) = r {
        assert(deeds(plan@).len() == plan@.len());
    }
}

/// A callback of the delegation program takes the account back, whatever its
/// other bytes look like, and checks it.
pub proof fn a_return_is_taken_and_checked(
    build: Build,
    program_id: Pubkey,
    before: Accounts,
    after: Seq<AccountState>,
    data: Seq<u8>,
    required: u64,
    plan: Vec<Effect>,
)
    requires
        entered(build, program_id, before, after, data, required, Ok(plan)),
        is_callback(data),
    ensures
        after == before@,
        plan@.len() == 2,
        plan@[0] matches Effect::Undelegate {
            delegated,
            owner,
            buffer,
            payer,
            system_program,
            seeds,
        } && {
            &&& delegated == 0
            &&& buffer == 1
            &&& payer == 2
            &&& system_program == 3
            &&& owner == program_id
            &&& data.skip(8) == crate::borsh_format::list_format(
                crate::address::seed_bytes(seeds@),
            )
        },
        plan@[1] matches Effect::CheckReturned { target } && target == 0,
{
}

} // verus!
