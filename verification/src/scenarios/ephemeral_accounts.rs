//! Accounts that live on the rollup only: creating, resizing and closing them
//! moves rent between their sponsor and a vault, and conflicting requests
//! must come out as if they had been served one after the other.
use crate::address::{address_text, base58};
use crate::bytes::{copy_bytes, same_bytes};
use crate::chain::{key, writable, AccountMeta, Pubkey, SolanaInstruction};
use crate::hash::{content_hash, sha256};
use crate::ids::{MAGIC_PROGRAM_ID, SYSTEM_PROGRAM_ID};
use crate::magic::{operation_bytes, operation_data, Operation};
use crate::text::{
    begins, decimal, hex, hexadecimal, push_decimal, same_text, starts_with, strip_prefix,
};
use vstd::prelude::*;
use vstd::string::StringExecFns;

verus! {

/// The place of the payer among the watched accounts.
pub const PAYER: usize = 0;

/// The place of the sponsor.
pub const SPONSOR: usize = 1;

/// The place of the ephemeral account.
pub const TARGET: usize = 2;

/// The place of the vault.
pub const VAULT: usize = 3;

/// The place of an account that stands in for another.
pub const SUBSTITUTE: usize = 4;

/// The bytes that every account is charged for on top of its data.
pub const ACCOUNT_OVERHEAD: u64 = 60;

/// The rent of one byte.
pub const RENT_PER_BYTE: u64 = 32;

/// The rent of the largest account.
pub const MAX_RENT: u64 = 137_438_955_360;

/// The suite.
pub struct EphemeralAccounts;

impl EphemeralAccounts {
    /// The name that the suite reports under.
    pub fn name(&self) -> (r: &'static str)
        ensures
            r@ == "redhat/ephemeral_accounts"@,
    {
        "redhat/ephemeral_accounts"
    }
}

/// The rent of an ephemeral account with `len` bytes of data.
pub open spec fn rent_of(len: int) -> int {
    (len + ACCOUNT_OVERHEAD) * RENT_PER_BYTE
}

/// The rent of an ephemeral account with `len` bytes of data.
pub fn rent(len: u32) -> (r: u64)
    ensures
        r == rent_of(len as int),
        r <= MAX_RENT,
{
    (len as u64 + ACCOUNT_OVERHEAD) * RENT_PER_BYTE
}

/// A larger account pays more rent, byte by byte.
pub proof fn rent_grows_by_bytes(len: int, more: int)
    ensures
        rent_of(len + more) == rent_of(len) + more * RENT_PER_BYTE,
{
    assert((len + more + 60) * 32 == (len + 60) * 32 + more * 32) by (nonlinear_arith);
}

/// An account, as a ledger holds it.
#[derive(Clone, Debug, PartialEq, Eq)]
pub struct LedgerAccount {
    pub lamports: u64,
    pub data: Vec<u8>,
    pub owner: [u8; 32],
    pub executable: bool,
    pub rent_epoch: u64,
}

/// What an account holds.
#[verifier::ext_equal]
pub struct LedgerState {
    pub lamports: u64,
    pub data: Seq<u8>,
    pub owner: Pubkey,
    pub executable: bool,
    pub rent_epoch: u64,
}

impl View for LedgerAccount {
    type V = LedgerState;

    open spec fn view(&self) -> LedgerState {
        LedgerState {
            lamports: self.lamports,
            data: self.data@,
            owner: key(self.owner),
            executable: self.executable,
            rent_epoch: self.rent_epoch,
        }
    }
}

/// What a blank account holds.
pub open spec fn blank() -> LedgerState {
    LedgerState {
        lamports: 0,
        data: Seq::empty(),
        owner: key(SYSTEM_PROGRAM_ID),
        executable: false,
        rent_epoch: 0,
    }
}

impl LedgerAccount {
    /// A blank account.
    pub fn blank() -> (r: LedgerAccount)
        ensures
            r@ == blank(),
    {
        let r = LedgerAccount {
            lamports: 0,
            data: Vec::new(),
            owner: SYSTEM_PROGRAM_ID,
            executable: false,
            rent_epoch: 0,
        };
        assert(r@ =~= blank());
        r
    }

    /// A copy of the account.
    pub fn copy(&self) -> (r: LedgerAccount)
        ensures
            r@ == self@,
    {
        let r = LedgerAccount {
            lamports: self.lamports,
            data: copy_bytes(self.data.as_slice()),
            owner: self.owner,
            executable: self.executable,
            rent_epoch: self.rent_epoch,
        };
        assert(r@ =~= self@);
        r
    }

    /// Whether two accounts hold the same.
    pub fn same(&self, other: &LedgerAccount) -> (r: bool)
        ensures
            r == (self@ == other@),
    {
        let r: bool = self.lamports == other.lamports && same_bytes(
            self.data.as_slice(),
            other.data.as_slice(),
        ) && Pubkey::new(self.owner).same(&Pubkey::new(other.owner)) && self.executable
            == other.executable && self.rent_epoch == other.rent_epoch;
        proof {
            if r {
                assert(self@ =~= other@);
            }
        }
        r
    }
}

/// What several accounts hold.
pub open spec fn states(accounts: Seq<LedgerAccount>) -> Seq<LedgerState> {
    Seq::new(accounts.len(), |i: int| accounts[i]@)
}

/// Copies of several accounts.
pub fn copy_state(accounts: &[LedgerAccount]) -> (r: Vec<LedgerAccount>)
    ensures
        states(r@) == states(accounts@),
{
    let mut out: Vec<LedgerAccount> = Vec::new();
    let mut i: usize = 0;
    while i < accounts.len()
        invariant
            i <= accounts@.len(),
            out@.len() == i,
            forall|j: int| 0 <= j < i ==> (#[trigger] out@[j])@ == accounts@[j]@,
        decreases accounts@.len() - i,
    {
        out.push(accounts[i].copy());
        i = i + 1;
    }
    assert(states(out@) =~= states(accounts@));
    out
}

/// Whether two lists of accounts hold the same.
pub fn same_state(one: &[LedgerAccount], other: &[LedgerAccount]) -> (r: bool)
    ensures
        r == (states(one@) == states(other@)),
{
    if one.len() != other.len() {
        assert(states(one@).len() != states(other@).len());
        return false;
    }
    let mut i: usize = 0;
    while i < one.len()
        invariant
            i <= one@.len(),
            one@.len() == other@.len(),
            forall|j: int| 0 <= j < i ==> (#[trigger] one@[j])@ == other@[j]@,
        decreases one@.len() - i,
    {
        if !one[i].same(&other[i]) {
            assert(states(one@)[i as int] != states(other@)[i as int]);
            return false;
        }
        i = i + 1;
    }
    assert(states(one@) =~= states(other@));
    true
}

/// Why a request is refused.
#[derive(Clone, Copy, Debug, PartialEq, Eq, Structural)]
pub enum Reason {
    MissingRequiredSignature,
    InvalidAccountData,
    IncorrectProgramId,
    InvalidAccountOwner,
    /// Anything else.
    Other,
}

/// A request: the operation, the program that asks for it, and the byte that
/// the program fills the account with afterwards, unless it is zero.
#[derive(Clone, Copy, Debug)]
pub struct Action {
    pub operation: Operation,
    pub caller: Pubkey,
    pub fill: u8,
}

/// Whether the ephemeral account exists.
pub open spec fn exists_in(state: Seq<LedgerState>) -> bool {
    state[TARGET as int].owner != key(SYSTEM_PROGRAM_ID)
}

/// The rent that the vault holds for the ephemeral account, whose length
/// counts in 32 bits.
pub open spec fn held(state: Seq<LedgerState>) -> int {
    if exists_in(state) {
        rent_of(state[TARGET as int].data.len() as int % 0x1_0000_0000)
    } else {
        0
    }
}

/// The rent that the vault holds for the ephemeral account.
pub fn rent_held(state: &[LedgerAccount]) -> (r: u64)
    requires
        state@.len() == 5,
    ensures
        r == held(states(state@)),
        r <= MAX_RENT,
{
    assert(states(state@)[TARGET as int] == state@[TARGET as int]@);
    let owner = Pubkey::new(state[TARGET].owner);
    if owner.same(&Pubkey::new(SYSTEM_PROGRAM_ID)) {
        return 0;
    }
    let len: u64 = state[TARGET].data.len() as u64;
    rent((len % 0x1_0000_0000) as u32)
}

/// Data brought to another length: cut off, or continued with zeros.
pub open spec fn resized(data: Seq<u8>, len: int) -> Seq<u8> {
    Seq::new(
        len as nat,
        |i: int|
            if i < data.len() {
                data[i]
            } else {
                0
            },
    )
}

/// Brings data to another length.
fn resize_bytes(data: &[u8], len: u32) -> (r: Vec<u8>)
    ensures
        r@ == resized(data@, len as int),
{
    let mut out: Vec<u8> = Vec::new();
    let mut i: usize = 0;
    while i < len as usize
        invariant
            i <= len,
            out@.len() == i,
            forall|j: int| 0 <= j < i ==> out@[j] == resized(data@, len as int)[j],
        decreases len - i,
    {
        if i < data.len() {
            out.push(data[i]);
        } else {
            out.push(0);
        }
        i = i + 1;
    }
    assert(out@ =~= resized(data@, len as int));
    out
}

/// Data of the same length filled with one byte, unless the byte is zero.
pub open spec fn painted(data: Seq<u8>, fill: u8) -> Seq<u8> {
    if fill == 0 {
        data
    } else {
        Seq::new(data.len(), |i: int| fill)
    }
}

/// Fills data with one byte, unless the byte is zero.
fn paint(data: Vec<u8>, fill: u8) -> (r: Vec<u8>)
    ensures
        r@ == painted(data@, fill),
{
    if fill == 0 {
        return data;
    }
    let mut out: Vec<u8> = Vec::new();
    let mut i: usize = 0;
    while i < data.len()
        invariant
            i <= data@.len(),
            out@.len() == i,
            forall|j: int| 0 <= j < i ==> out@[j] == fill,
        decreases data@.len() - i,
    {
        out.push(fill);
        i = i + 1;
    }
    assert(out@ =~= painted(data@, fill));
    out
}

impl Action {
    /// A request without a fill.
    pub fn new(operation: Operation, caller: Pubkey) -> (r: Action)
        ensures
            r == (Action { operation, caller, fill: 0 }),
    {
        Action { operation, caller, fill: 0 }
    }

    /// Why the request is refused, if it is.
    pub open spec fn refusal(self, state: Seq<LedgerState>) -> Option<Reason> {
        let target = state[TARGET as int];
        match self.operation {
            Operation::Create { .. } => if exists_in(state) || target.lamports != 0 {
                Some(Reason::InvalidAccountData)
            } else {
                None
            },
            _ => if !exists_in(state) {
                Some(Reason::InvalidAccountData)
            } else if target.owner != self.caller {
                Some(Reason::InvalidAccountOwner)
            } else {
                None
            },
        }
    }

    /// The ephemeral account once the request is served.
    pub open spec fn target_after(self, target: LedgerState) -> LedgerState {
        match self.operation {
            Operation::Create { data_len } => LedgerState {
                owner: self.caller,
                rent_epoch: u64::MAX,
                data: painted(Seq::new(data_len as nat, |i: int| 0u8), self.fill),
                ..target
            },
            Operation::Resize { new_data_len } => LedgerState {
                data: painted(resized(target.data, new_data_len as int), self.fill),
                ..target
            },
            Operation::Close => blank(),
        }
    }

    /// The rent that the ephemeral account takes once the request is served.
    pub open spec fn rent_after(self) -> int {
        match self.operation {
            Operation::Create { data_len } => rent_of(data_len as int),
            Operation::Resize { new_data_len } => rent_of(new_data_len as int),
            Operation::Close => 0,
        }
    }

    /// Whether the rent of a request that is served can be moved.
    pub open spec fn payable(self, state: Seq<LedgerState>) -> bool {
        &&& state.len() == 5
        &&& state[SPONSOR as int].lamports + held(state) <= u64::MAX
        &&& state[SPONSOR as int].lamports + held(state) >= self.rent_after()
        &&& state[VAULT as int].lamports + self.rent_after() <= u64::MAX
        &&& state[VAULT as int].lamports + self.rent_after() >= held(state)
    }

    /// All accounts once the request is served: the ephemeral account changes,
    /// and the difference in rent moves between the sponsor and the vault.
    pub open spec fn served(self, state: Seq<LedgerState>) -> Seq<LedgerState> {
        let moved = self.rent_after() - held(state);
        state.update(TARGET as int, self.target_after(state[TARGET as int])).update(
            SPONSOR as int,
            LedgerState {
                lamports: (state[SPONSOR as int].lamports - moved) as u64,
                ..state[SPONSOR as int]
            },
        ).update(
            VAULT as int,
            LedgerState {
                lamports: (state[VAULT as int].lamports + moved) as u64,
                ..state[VAULT as int]
            },
        )
    }

    /// Why the request is refused, if it is.
    pub fn refused(&self, state: &[LedgerAccount]) -> (r: Option<Reason>)
        requires
            state@.len() == 5,
        ensures
            r == self.refusal(states(state@)),
    {
        assert(states(state@)[TARGET as int] == state@[TARGET as int]@);
        let owner = Pubkey::new(state[TARGET].owner);
        let present: bool = !owner.same(&Pubkey::new(SYSTEM_PROGRAM_ID));
        match self.operation {
            Operation::Create { .. } => {
                if present || state[TARGET].lamports != 0 {
                    return Some(Reason::InvalidAccountData);
                }
            },
            _ => {
                if !present {
                    return Some(Reason::InvalidAccountData);
                }
                if !owner.same(&self.caller) {
                    return Some(Reason::InvalidAccountOwner);
                }
            },
        }
        None
    }

    /// Whether the rent of the request can be moved between the sponsor and
    /// the vault.
    pub fn can_pay(&self, state: &[LedgerAccount]) -> (r: bool)
        requires
            state@.len() == 5,
        ensures
            r == self.payable(states(state@)),
    {
        assert(states(state@)[SPONSOR as int] == state@[SPONSOR as int]@);
        assert(states(state@)[VAULT as int] == state@[VAULT as int]@);
        let before: u128 = rent_held(state) as u128;
        let after: u128 = match self.operation {
            Operation::Create { data_len } => rent(data_len) as u128,
            Operation::Resize { new_data_len } => rent(new_data_len) as u128,
            Operation::Close => 0,
        };
        let sponsor: u128 = state[SPONSOR].lamports as u128 + before;
        let vault: u128 = state[VAULT].lamports as u128 + after;
        let limit: u128 = u64::MAX as u128;
        after <= sponsor && sponsor <= limit && before <= vault && vault <= limit
    }

    /// Serves the request, or says why it is refused and changes nothing.
    pub fn apply(&self, state: &mut Vec<LedgerAccount>) -> (r: Option<Reason>)
        requires
            states(old(state)@).len() == 5,
            self.refusal(states(old(state)@)) is None ==> self.payable(states(old(state)@)),
        ensures
            r == self.refusal(states(old(state)@)),
            r is Some ==> states(final(state)@) == states(old(state)@),
            r is None ==> states(final(state)@) == self.served(states(old(state)@)),
    {
        let ghost before = states(state@);
        assert(before[TARGET as int] == state@[TARGET as int]@);
        assert(before[SPONSOR as int] == state@[SPONSOR as int]@);
        assert(before[VAULT as int] == state@[VAULT as int]@);
        if let Some(reason) = self.refused(state.as_slice()) {
            return Some(reason);
        }
        let owner = Pubkey::new(state[TARGET].owner);
        let old_rent: u64 = rent_held(state.as_slice());
        let lamports: u64 = state[TARGET].lamports;
        let executable: bool = state[TARGET].executable;
        let rent_epoch: u64 = state[TARGET].rent_epoch;
        let (target, new_rent): (LedgerAccount, u64) = match self.operation {
            Operation::Create { data_len } => {
                let zeros: Vec<u8> = resize_bytes(Vec::new().as_slice(), data_len);
                assert(zeros@ =~= Seq::new(data_len as nat, |i: int| 0u8));
                let data: Vec<u8> = paint(zeros, self.fill);
                (
                    LedgerAccount {
                        lamports,
                        data,
                        owner: self.caller.bytes,
                        executable,
                        rent_epoch: u64::MAX,
                    },
                    rent(data_len),
                )
            },
            Operation::Resize { new_data_len } => {
                let data: Vec<u8> = paint(
                    resize_bytes(state[TARGET].data.as_slice(), new_data_len),
                    self.fill,
                );
                (
                    LedgerAccount {
                        lamports,
                        data,
                        owner: owner.bytes,
                        executable,
                        rent_epoch,
                    },
                    rent(new_data_len),
                )
            },
            Operation::Close => (LedgerAccount::blank(), 0),
        };
        assert(target@ =~= self.target_after(before[TARGET as int]));
        let mut sponsor: LedgerAccount = state[SPONSOR].copy();
        let mut vault: LedgerAccount = state[VAULT].copy();
        sponsor.lamports = sponsor.lamports + old_rent - new_rent;
        vault.lamports = vault.lamports + new_rent - old_rent;
        state.set(TARGET, target);
        state.set(SPONSOR, sponsor);
        state.set(VAULT, vault);
        assert(states(state@) =~= self.served(before));
        None
    }
}

/// Rent is only moved: what the sponsor and the vault hold between them stays
/// the same, whatever request is served, and the payer and the substitute are
/// not touched.
pub proof fn rent_is_conserved(action: Action, state: Seq<LedgerState>)
    requires
        action.payable(state),
    ensures
        ({
            let after = action.served(state);
            &&& after[SPONSOR as int].lamports + after[VAULT as int].lamports
                == state[SPONSOR as int].lamports + state[VAULT as int].lamports
            &&& after[PAYER as int] == state[PAYER as int]
            &&& after[SUBSTITUTE as int] == state[SUBSTITUTE as int]
        }),
{
}

/// Whatever is served, the vault holds exactly the rent of the ephemeral
/// account on top of what it held before for others.
pub proof fn vault_holds_the_rent(action: Action, state: Seq<LedgerState>)
    requires
        action.payable(state),
        action.caller != key(SYSTEM_PROGRAM_ID),
        action.refusal(state) is None,
    ensures
        held(action.served(state)) == action.rent_after(),
        action.served(state)[VAULT as int].lamports - held(action.served(state))
            == state[VAULT as int].lamports - held(state),
        action.served(state)[SPONSOR as int].lamports + held(action.served(state))
            == state[SPONSOR as int].lamports + held(state),
{
    assert(painted(
        resized(state[TARGET as int].data, action.rent_after() / 32 - 60),
        action.fill,
    ).len() >= 0);
}

/// Creating an ephemeral account and closing it again leaves all accounts as
/// they were, if the address was blank.
pub proof fn close_undoes_create(
    state: Seq<LedgerState>,
    data_len: u32,
    fill: u8,
    caller: Pubkey,
    close_fill: u8,
)
    requires
        state.len() == 5,
        state[TARGET as int] == blank(),
        caller != key(SYSTEM_PROGRAM_ID),
        (Action { operation: Operation::Create { data_len }, caller, fill }).payable(state),
    ensures
        ({
            let create = Action { operation: Operation::Create { data_len }, caller, fill };
            let close = Action { operation: Operation::Close, caller, fill: close_fill };
            &&& create.refusal(state) is None
            &&& close.refusal(create.served(state)) is None
            &&& close.payable(create.served(state))
            &&& close.served(create.served(state)) == state
        }),
{
    let create = Action { operation: Operation::Create { data_len }, caller, fill };
    let close = Action { operation: Operation::Close, caller, fill: close_fill };
    let mid = create.served(state);
    assert(mid[TARGET as int].data.len() == data_len);
    assert(close.served(mid) =~= state);
}

/// Nobody but the program that created an ephemeral account can resize or
/// close it.
pub proof fn only_the_creator_may_touch(action: Action, state: Seq<LedgerState>)
    requires
        exists_in(state),
        state[TARGET as int].owner != action.caller,
        !(action.operation is Create),
    ensures
        action.refusal(state) == Some(Reason::InvalidAccountOwner),
{
}

/// What the fixture program reports of the accounts before and after a
/// request: the owner, length and lamports of the ephemeral account, the
/// lamports of the sponsor and of the vault, and the digest of the data.
pub open spec fn observed(state: Seq<LedgerState>) -> Seq<char> {
    let target = state[TARGET as int];
    base58(target.owner@) + " "@ + decimal(target.data.len()) + " "@ + decimal(
        target.lamports as nat,
    ) + " "@ + decimal(state[SPONSOR as int].lamports as nat) + " "@ + decimal(
        state[VAULT as int].lamports as nat,
    ) + " "@ + hexadecimal(sha256(target.data))
}

/// What the fixture program reports of the accounts.
pub fn observation(state: &[LedgerAccount]) -> (r: String)
    requires
        state@.len() == 5,
    ensures
        r@ == observed(states(state@)),
{
    let target = &state[TARGET];
    assert(states(state@)[TARGET as int] == state@[TARGET as int]@);
    assert(states(state@)[SPONSOR as int] == state@[SPONSOR as int]@);
    assert(states(state@)[VAULT as int] == state@[VAULT as int]@);
    let mut out: String = address_text(&Pubkey::new(target.owner));
    out.append(" ");
    push_decimal(&mut out, target.data.len() as u64);
    out.append(" ");
    push_decimal(&mut out, target.lamports);
    out.append(" ");
    push_decimal(&mut out, state[SPONSOR].lamports);
    out.append(" ");
    push_decimal(&mut out, state[VAULT].lamports);
    out.append(" ");
    out.append(hex(content_hash(target.data.as_slice()).as_slice()).as_str());
    out
}

/// What the fixture program reported in a log, in order.
pub open spec fn reports(logs: Seq<String>) -> Seq<Seq<char>>
    decreases logs.len(),
{
    if logs.len() == 0 {
        Seq::empty()
    } else {
        let before = reports(logs.drop_last());
        let prefix = "Program log: Ephemeral: "@;
        if begins(logs.last()@, prefix) {
            before.push(logs.last()@.skip(prefix.len() as int))
        } else {
            before
        }
    }
}

/// What the fixture program reported in a log, in order.
pub fn find_reports(logs: &[String]) -> (r: Vec<String>)
    ensures
        r@.len() == reports(logs@).len(),
        forall|i: int| 0 <= i < r@.len() ==> (#[trigger] r@[i])@ == reports(logs@)[i],
{
    let mut out: Vec<String> = Vec::new();
    let mut i: usize = 0;
    while i < logs.len()
        invariant
            i <= logs@.len(),
            out@.len() == reports(logs@.take(i as int)).len(),
            forall|j: int|
                0 <= j < out@.len() ==> (#[trigger] out@[j])@ == reports(
                    logs@.take(i as int),
                )[j],
        decreases logs@.len() - i,
    {
        assert(logs@.take(i as int + 1).drop_last() =~= logs@.take(i as int));
        if let Some(rest) = strip_prefix(logs[i].as_str(), "Program log: Ephemeral: ") {
            out.push(String::from_str(rest));
        }
        i = i + 1;
    }
    assert(logs@.take(i as int) =~= logs@);
    out
}

/// How the log line begins with which a program is called.
pub open spec fn call_line(program: Pubkey) -> Seq<char> {
    "Program "@ + base58(program@) + " invoke"@
}

/// Whether a program was called, according to a log.
pub open spec fn called(logs: Seq<String>, program: Pubkey) -> bool {
    exists|i: int| 0 <= i < logs.len() && begins((#[trigger] logs[i])@, call_line(program))
}

/// Whether a program was called, according to a log.
pub fn was_called(logs: &[String], program: &Pubkey) -> (r: bool)
    ensures
        r == called(logs@, *program),
{
    let mut line: String = String::from_str("Program ");
    line.append(address_text(program).as_str());
    line.append(" invoke");
    let mut i: usize = 0;
    while i < logs.len()
        invariant
            i <= logs@.len(),
            line@ == call_line(*program),
            forall|j: int| 0 <= j < i ==> !begins((#[trigger] logs@[j])@, call_line(*program)),
        decreases logs@.len() - i,
    {
        if starts_with(logs[i].as_str(), line.as_str()) {
            assert(begins(logs@[i as int]@, call_line(*program)));
            return true;
        }
        i = i + 1;
    }
    false
}

/// What is known of an executed transaction.
#[derive(Debug)]
pub struct TxFacts {
    /// Which instruction failed, and why.
    pub err: Option<(usize, Reason)>,
    pub account_keys: Vec<Pubkey>,
    pub pre_balances: Vec<u64>,
    pub post_balances: Vec<u64>,
    pub logs: Vec<String>,
    pub fee: u64,
}

/// What an executed transaction can be faulted for.
#[derive(Clone, Copy, Debug, PartialEq, Eq, Structural)]
pub enum RecordFault {
    /// It came out otherwise than expected.
    Outcome,
    /// Balances of accounts are missing.
    IncompleteBalances,
    /// A watched account had another balance before.
    PreBalance { index: usize },
    /// A balance changed otherwise than expected.
    PostBalances,
    /// The fixture program observed something else.
    Observations,
    /// The magic program was not called.
    NotInvoked,
}

/// The place of an address among the watched ones.
pub open spec fn place_of(watched: Seq<Pubkey>, address: Pubkey) -> Option<int>
    decreases watched.len(),
{
    if watched.len() == 0 {
        None
    } else {
        match place_of(watched.drop_last(), address) {
            Some(i) => Some(i),
            None => if watched.last() == address {
                Some(watched.len() - 1)
            } else {
                None
            },
        }
    }
}

/// The place of an address among the watched ones.
fn find_place(watched: &[Pubkey], address: &Pubkey) -> (r: Option<usize>)
    ensures
        match r {
            Some(i) => i < watched@.len() && place_of(watched@, *address) == Some(i as int),
            None => place_of(watched@, *address) is None,
        },
{
    let mut i: usize = 0;
    while i < watched.len()
        invariant
            i <= watched@.len(),
            place_of(watched@.take(i as int), *address) is None,
        decreases watched@.len() - i,
    {
        assert(watched@.take(i as int + 1).drop_last() =~= watched@.take(i as int));
        if watched[i].same(address) {
            proof {
                lemma_place_stays(watched@, i as int + 1, *address);
            }
            return Some(i);
        }
        i = i + 1;
    }
    assert(watched@.take(i as int) =~= watched@);
    None
}

/// A place that was found among the first stays.
proof fn lemma_place_stays(watched: Seq<Pubkey>, n: int, address: Pubkey)
    requires
        0 <= n <= watched.len(),
        place_of(watched.take(n), address) is Some,
    ensures
        place_of(watched, address) == place_of(watched.take(n), address),
    decreases watched.len(),
{
    if n < watched.len() {
        assert(watched.drop_last().take(n) =~= watched.take(n));
        lemma_place_stays(watched.drop_last(), n, address);
    } else {
        assert(watched.take(n) =~= watched);
    }
}

/// Every place is one of the watched.
proof fn lemma_place_in_range(watched: Seq<Pubkey>, address: Pubkey)
    ensures
        place_of(watched, address) matches Some(i) ==> 0 <= i < watched.len(),
    decreases watched.len(),
{
    if watched.len() > 0 {
        lemma_place_in_range(watched.drop_last(), address);
    }
}

/// Whether the balance of the account at `i` was right before.
pub open spec fn pre_balance_fits(
    facts: TxFacts,
    watched: Seq<Pubkey>,
    before: Seq<LedgerState>,
    i: int,
) -> bool {
    match place_of(watched, facts.account_keys@[i]) {
        Some(p) => facts.pre_balances@[i] == before[p].lamports,
        None => true,
    }
}

/// The balances that are expected afterwards: watched accounts hold what the
/// model says, all others what they held before.
pub open spec fn balances_after(
    facts: TxFacts,
    watched: Seq<Pubkey>,
    after: Seq<LedgerState>,
) -> Seq<u64> {
    Seq::new(
        facts.pre_balances@.len(),
        |i: int|
            match place_of(watched, facts.account_keys@[i]) {
                Some(p) => after[p].lamports,
                None => facts.pre_balances@[i],
            },
    )
}

/// The first account, from `i` on, whose balance was wrong before.
pub open spec fn first_wrong_balance(
    facts: TxFacts,
    watched: Seq<Pubkey>,
    before: Seq<LedgerState>,
    i: int,
) -> Option<usize>
    decreases facts.account_keys@.len() - i,
{
    if i >= facts.account_keys@.len() {
        None
    } else if !pre_balance_fits(facts, watched, before, i) {
        Some(i as usize)
    } else {
        first_wrong_balance(facts, watched, before, i + 1)
    }
}

/// The first thing that a transaction is faulted for, in the order of the
/// checks.
pub open spec fn record_fault(
    facts: TxFacts,
    watched: Seq<Pubkey>,
    before: Seq<LedgerState>,
    after: Seq<LedgerState>,
    expected: Option<(usize, Reason)>,
) -> Option<RecordFault> {
    if facts.err != expected {
        Some(RecordFault::Outcome)
    } else if facts.pre_balances@.len() != facts.account_keys@.len() {
        Some(RecordFault::IncompleteBalances)
    } else if first_wrong_balance(facts, watched, before, 0) is Some {
        Some(
            RecordFault::PreBalance {
                index: first_wrong_balance(facts, watched, before, 0)->0,
            },
        )
    } else if facts.post_balances@ != balances_after(facts, watched, after) {
        Some(RecordFault::PostBalances)
    } else if facts.err is None && reports(facts.logs@) != seq![observed(before), observed(after)] {
        Some(RecordFault::Observations)
    } else if !called(facts.logs@, key(MAGIC_PROGRAM_ID)) {
        Some(RecordFault::NotInvoked)
    } else {
        None
    }
}

/// Whether two outcomes are the same.
fn same_outcome(one: &Option<(usize, Reason)>, other: &Option<(usize, Reason)>) -> (r: bool)
    ensures
        r == (*one == *other),
{
    match (one, other) {
        (None, None) => true,
        (Some(a), Some(b)) => a.0 == b.0 && a.1 == b.1,
        _ => false,
    }
}

/// Holds an executed transaction against the accounts before and after it.
pub fn check_record(
    facts: &TxFacts,
    watched: &[Pubkey],
    before: &[LedgerAccount],
    after: &[LedgerAccount],
    expected: &Option<(usize, Reason)>,
) -> (r: Result<(), RecordFault>)
    requires
        watched@.len() == 5,
        before@.len() == 5,
        after@.len() == 5,
    ensures
        match r {
            Ok(_) => record_fault(
                *facts,
                watched@,
                states(before@),
                states(after@),
                *expected,
            ) is None,
            Err(fault) => record_fault(
                *facts,
                watched@,
                states(before@),
                states(after@),
                *expected,
            ) == Some(fault),
        },
{
    if !same_outcome(&facts.err, expected) {
        return Err(RecordFault::Outcome);
    }
    if facts.pre_balances.len() != facts.account_keys.len() {
        return Err(RecordFault::IncompleteBalances);
    }
    let ghost was = states(before@);
    let ghost is = states(after@);
    let mut balances: Vec<u64> = Vec::new();
    let mut i: usize = 0;
    while i < facts.account_keys.len()
        invariant
            i <= facts.account_keys@.len(),
            facts.pre_balances@.len() == facts.account_keys@.len(),
            facts.err == *expected,
            watched@.len() == 5,
            before@.len() == 5,
            after@.len() == 5,
            was == states(before@),
            is == states(after@),
            first_wrong_balance(*facts, watched@, was, 0) == first_wrong_balance(
                *facts,
                watched@,
                was,
                i as int,
            ),
            balances@ == balances_after(*facts, watched@, is).take(i as int),
        decreases facts.account_keys@.len() - i,
    {
        let place = find_place(watched, &facts.account_keys[i]);
        let balance: u64 = match place {
            Some(p) => {
                assert(was[p as int] == before@[p as int]@);
                assert(is[p as int] == after@[p as int]@);
                if facts.pre_balances[i] != before[p].lamports {
                    return Err(RecordFault::PreBalance { index: i });
                }
                after[p].lamports
            },
            None => facts.pre_balances[i],
        };
        balances.push(balance);
        assert(balances@ =~= balances_after(*facts, watched@, is).take(i as int + 1));
        i = i + 1;
    }
    assert(balances@ =~= balances_after(*facts, watched@, is));
    if !same_numbers(facts.post_balances.as_slice(), balances.as_slice()) {
        return Err(RecordFault::PostBalances);
    }
    if facts.err.is_none() {
        let found: Vec<String> = find_reports(facts.logs.as_slice());
        if found.len() != 2 {
            return Err(RecordFault::Observations);
        }
        if !same_text(found[0].as_str(), observation(before).as_str()) || !same_text(
            found[1].as_str(),
            observation(after).as_str(),
        ) {
            return Err(RecordFault::Observations);
        }
        assert(reports(facts.logs@) =~= seq![observed(was), observed(is)]);
    }
    if !was_called(facts.logs.as_slice(), &Pubkey::new(MAGIC_PROGRAM_ID)) {
        return Err(RecordFault::NotInvoked);
    }
    Ok(())
}

/// Whether two lists of numbers are the same.
fn same_numbers(one: &[u64], other: &[u64]) -> (r: bool)
    ensures
        r == (one@ == other@),
{
    if one.len() != other.len() {
        return false;
    }
    let mut i: usize = 0;
    while i < one.len()
        invariant
            i <= one@.len(),
            one@.len() == other@.len(),
            forall|j: int| 0 <= j < i ==> one@[j] == other@[j],
        decreases one@.len() - i,
    {
        if one[i] != other[i] {
            return false;
        }
        i = i + 1;
    }
    assert(one@ =~= other@);
    true
}

/// The accounts and the outcome that are expected of a request on its own.
pub open spec fn expected_of(action: Action, state: Seq<LedgerState>) -> (
    Seq<LedgerState>,
    Option<(usize, Reason)>,
) {
    match action.refusal(state) {
        Some(reason) => (state, Some((0usize, reason))),
        None => (action.served(state), None),
    }
}

/// The accounts once the payer has paid a fee as well.
pub open spec fn charged(state: Seq<LedgerState>, fee: u64) -> Seq<LedgerState> {
    state.update(
        PAYER as int,
        LedgerState {
            lamports: (state[PAYER as int].lamports - fee) as u64,
            ..state[PAYER as int]
        },
    )
}

/// The accounts after a request that was recorded.
pub open spec fn stepped(record: (Action, TxFacts), state: Seq<LedgerState>) -> Seq<LedgerState> {
    charged(expected_of(record.0, state).0, record.1.fee)
}

/// Whether a recorded request can have been served on these accounts: its rent
/// can be moved unless it is refused, its fee can be paid, and the record
/// shows what is expected.
pub open spec fn fits(
    record: (Action, TxFacts),
    watched: Seq<Pubkey>,
    state: Seq<LedgerState>,
) -> bool {
    &&& record.0.refusal(state) is None ==> record.0.payable(state)
    &&& record.1.fee <= state[PAYER as int].lamports
    &&& record_fault(
        record.1,
        watched,
        state,
        stepped(record, state),
        expected_of(record.0, state).1,
    ) is None
}

/// Whether serving the records in this order, each of those not used yet once,
/// explains every one of them and ends at `end`.
pub open spec fn explains(
    order: Seq<usize>,
    records: Seq<(Action, TxFacts)>,
    used: Seq<bool>,
    watched: Seq<Pubkey>,
    state: Seq<LedgerState>,
    end: Seq<LedgerState>,
) -> bool
    decreases order.len(),
{
    if order.len() == 0 {
        unused(used) == 0 && state == end
    } else {
        let i = order[0] as int;
        &&& i < records.len()
        &&& !used[i]
        &&& fits(records[i], watched, state)
        &&& explains(
            order.skip(1),
            records,
            used.update(i, true),
            watched,
            stepped(records[i], state),
            end,
        )
    }
}

/// The records that are not used yet.
pub open spec fn unused(used: Seq<bool>) -> nat
    decreases used.len(),
{
    if used.len() == 0 {
        0
    } else {
        unused(used.drop_last()) + if used.last() {
            0nat
        } else {
            1nat
        }
    }
}

/// The fees of the records that are not used yet.
pub open spec fn fees_left(records: Seq<(Action, TxFacts)>, used: Seq<bool>) -> int
    decreases used.len(),
{
    if used.len() == 0 {
        0
    } else {
        fees_left(records, used.drop_last()) + if used.last() {
            0int
        } else {
            records[used.len() - 1].1.fee as int
        }
    }
}

/// Using a record takes one off the number of those left, and its fee off the
/// fees left.
proof fn lemma_use(records: Seq<(Action, TxFacts)>, used: Seq<bool>, i: int)
    requires
        0 <= i < used.len(),
        !used[i],
    ensures
        unused(used.update(i, true)) == unused(used) - 1,
        fees_left(records, used.update(i, true)) == fees_left(records, used) - records[i].1.fee,
        fees_left(records, used) >= records[i].1.fee,
    decreases used.len(),
{
    lemma_fees_positive(records, used.drop_last());
    if i == used.len() - 1 {
        assert(used.update(i, true).drop_last() =~= used.drop_last());
    } else {
        assert(used.update(i, true).drop_last() =~= used.drop_last().update(i, true));
        lemma_use(records, used.drop_last(), i);
    }
}

/// Fees are not negative.
proof fn lemma_fees_positive(records: Seq<(Action, TxFacts)>, used: Seq<bool>)
    ensures
        fees_left(records, used) >= 0,
    decreases used.len(),
{
    if used.len() > 0 {
        lemma_fees_positive(records, used.drop_last());
    }
}

/// As long as a record is not used, there are some left.
proof fn lemma_unused_positive(used: Seq<bool>, i: int)
    requires
        0 <= i < used.len(),
        !used[i],
    ensures
        unused(used) > 0,
    decreases used.len(),
{
    if i < used.len() - 1 {
        lemma_unused_positive(used.drop_last(), i);
    }
}

/// Whether none is left.
fn all_used(used: &[bool]) -> (r: bool)
    ensures
        r == (unused(used@) == 0),
{
    let mut i: usize = 0;
    while i < used.len()
        invariant
            i <= used@.len(),
            unused(used@.take(i as int)) == 0,
        decreases used@.len() - i,
    {
        if !used[i] {
            proof {
                lemma_unused_positive(used@, i as int);
            }
            return false;
        }
        assert(used@.take(i as int + 1).drop_last() =~= used@.take(i as int));
        i = i + 1;
    }
    assert(used@.take(i as int) =~= used@);
    true
}

/// Whether one order comes before another: it is lower at the first place at
/// which they differ, or ends there.
pub open spec fn precedes(one: Seq<usize>, other: Seq<usize>) -> bool
    decreases other.len(),
{
    if other.len() == 0 {
        false
    } else if one.len() == 0 {
        true
    } else {
        one[0] < other[0] || (one[0] == other[0] && precedes(one.skip(1), other.skip(1)))
    }
}

/// Whether no order explains the records.
pub open spec fn unexplained(
    records: Seq<(Action, TxFacts)>,
    used: Seq<bool>,
    watched: Seq<Pubkey>,
    state: Seq<LedgerState>,
    end: Seq<LedgerState>,
) -> bool {
    forall|order: Seq<usize>| !#[trigger] explains(order, records, used, watched, state, end)
}

/// Whether an order is the first one that explains the records.
pub open spec fn first_explains(
    order: Seq<usize>,
    records: Seq<(Action, TxFacts)>,
    used: Seq<bool>,
    watched: Seq<Pubkey>,
    state: Seq<LedgerState>,
    end: Seq<LedgerState>,
) -> bool {
    &&& explains(order, records, used, watched, state, end)
    &&& forall|other: Seq<usize>| #[trigger]
        explains(other, records, used, watched, state, end) ==> !precedes(other, order)
}

/// With no record left there are no fees left.
proof fn lemma_no_fees_left(records: Seq<(Action, TxFacts)>, used: Seq<bool>)
    requires
        unused(used) == 0,
    ensures
        fees_left(records, used) == 0,
    decreases used.len(),
{
    if used.len() > 0 {
        lemma_no_fees_left(records, used.drop_last());
    }
}

/// Where an order explains the records, the payer can pay all their fees.
pub proof fn explained_fees_are_affordable(
    order: Seq<usize>,
    records: Seq<(Action, TxFacts)>,
    used: Seq<bool>,
    watched: Seq<Pubkey>,
    state: Seq<LedgerState>,
    end: Seq<LedgerState>,
)
    requires
        used.len() == records.len(),
        state.len() == 5,
        explains(order, records, used, watched, state, end),
    ensures
        fees_left(records, used) <= state[PAYER as int].lamports,
    decreases order.len(),
{
    if order.len() == 0 {
        lemma_no_fees_left(records, used);
    } else {
        let i = order[0] as int;
        lemma_use(records, used, i);
        explained_fees_are_affordable(
            order.skip(1),
            records,
            used.update(i, true),
            watched,
            stepped(records[i], state),
            end,
        );
    }
}

/// An order that explains the records holds each of those not used yet once,
/// and nothing else.
pub proof fn explaining_orders_use_each_record_once(
    order: Seq<usize>,
    records: Seq<(Action, TxFacts)>,
    used: Seq<bool>,
    watched: Seq<Pubkey>,
    state: Seq<LedgerState>,
    end: Seq<LedgerState>,
)
    requires
        used.len() == records.len(),
        explains(order, records, used, watched, state, end),
    ensures
        order.len() == unused(used),
        order.no_duplicates(),
        forall|k: int| #![trigger order[k]]
            0 <= k < order.len() ==> order[k] < records.len() && !used[order[k] as int],
    decreases order.len(),
{
    if order.len() > 0 {
        let i = order[0] as int;
        let rest = order.skip(1);
        let more = used.update(i, true);
        lemma_use(records, used, i);
        explaining_orders_use_each_record_once(
            rest,
            records,
            more,
            watched,
            stepped(records[i], state),
            end,
        );
        assert forall|k: int| #![trigger order[k]] 1 <= k < order.len() implies order[k]
            < records.len() && order[k] != order[0] && !used[order[k] as int] by {
            assert(order[k] == rest[k - 1]);
        }
        assert forall|j: int, k: int| 0 <= j < order.len() && 0 <= k < order.len() && j
            != k implies order[j] != order[k] by {
            if j > 0 && k > 0 {
                assert(order[j] == rest[j - 1] && order[k] == rest[k - 1]);
            }
        }
    }
}

/// Searches for the first order in which the records that are not used yet can
/// have been served one after the other, from `before` to `end`. There is one
/// exactly if any order explains them.
pub fn serialized(
    watched: &[Pubkey],
    before: &[LedgerAccount],
    end: &[LedgerAccount],
    records: &[(Action, TxFacts)],
    used: &[bool],
) -> (r: Option<Vec<usize>>)
    requires
        watched@.len() == 5,
        before@.len() == 5,
        end@.len() == 5,
        used@.len() == records@.len(),
    ensures
        unused(used@) == 0 ==> r is Some == (states(before@) == states(end@)),
        match r {
            Some(order) => first_explains(
                order@,
                records@,
                used@,
                watched@,
                states(before@),
                states(end@),
            ),
            None => unexplained(records@, used@, watched@, states(before@), states(end@)),
        },
    decreases unused(used@),
{
    let ghost state = states(before@);
    let ghost goal = states(end@);
    if all_used(used) {
        if same_state(before, end) {
            let order: Vec<usize> = Vec::new();
            return Some(order);
        }
        proof {
            assert forall|order: Seq<usize>| !#[trigger] explains(
                order,
                records@,
                used@,
                watched@,
                state,
                goal,
            ) by {
                if order.len() > 0 && order[0] < records@.len() && !used@[order[0] as int] {
                    lemma_unused_positive(used@, order[0] as int);
                }
            }
        }
        return None;
    }
    let mut index: usize = 0;
    while index < records.len()
        invariant
            index <= records@.len(),
            watched@.len() == 5,
            before@.len() == 5,
            end@.len() == 5,
            used@.len() == records@.len(),
            state == states(before@),
            goal == states(end@),
            unused(used@) > 0,
            forall|order: Seq<usize>|
                order.len() > 0 && order[0] < index ==> !#[trigger] explains(
                    order,
                    records@,
                    used@,
                    watched@,
                    state,
                    goal,
                ),
        decreases records@.len() - index,
    {
        let record = &records[index];
        if !used[index] && (record.0.can_pay(before) || record.0.refused(before).is_some()) {
            let mut after: Vec<LedgerAccount> = copy_state(before);
            proof {
                lemma_use(records@, used@, index as int);
            }
            let refused = record.0.apply(&mut after);
            let outcome: Option<(usize, Reason)> = match refused {
                Some(reason) => Some((0, reason)),
                None => None,
            };
            assert(states(after@) == expected_of(record.0, state).0);
            assert(outcome == expected_of(record.0, state).1);
            assert(states(after@)[PAYER as int] == after@[PAYER as int]@);
            assert(states(after@)[PAYER as int] == state[PAYER as int]);
            let ghost served = states(after@);
            if after[PAYER].lamports < record.1.fee {
                proof {
                    assert forall|order: Seq<usize>| !#[trigger] explains(
                        order,
                        records@,
                        used@,
                        watched@,
                        state,
                        goal,
                    ) by {
                        if explains(order, records@, used@, watched@, state, goal) {
                            explained_fees_are_affordable(
                                order,
                                records@,
                                used@,
                                watched@,
                                state,
                                goal,
                            );
                        }
                    }
                }
                return None;
            }
            let mut payer: LedgerAccount = after[PAYER].copy();
            payer.lamports = payer.lamports - record.1.fee;
            after.set(PAYER, payer);
            assert(states(after@) =~= charged(served, record.1.fee));
            let verdict = check_record(
                &record.1,
                watched,
                before,
                after.as_slice(),
                &outcome,
            );
            if verdict.is_ok() {
                let mut more: Vec<bool> = Vec::new();
                let mut k: usize = 0;
                while k < used.len()
                    invariant
                        k <= used@.len(),
                        index < used@.len(),
                        more@ == used@.update(index as int, true).take(k as int),
                    decreases used@.len() - k,
                {
                    if k == index {
                        more.push(true);
                    } else {
                        more.push(used[k]);
                    }
                    k = k + 1;
                    assert(more@ =~= used@.update(index as int, true).take(k as int));
                }
                assert(more@ =~= used@.update(index as int, true));
                let found = serialized(watched, after.as_slice(), end, records, more.as_slice());
                if let Some(rest) = found {
                    let mut order: Vec<usize> = Vec::new();
                    order.push(index);
                    let mut m: usize = 0;
                    while m < rest.len()
                        invariant
                            m <= rest@.len(),
                            order@ == seq![index] + rest@.take(m as int),
                        decreases rest@.len() - m,
                    {
                        order.push(rest[m]);
                        m = m + 1;
                        assert(order@ =~= seq![index] + rest@.take(m as int));
                    }
                    assert(order@.skip(1) =~= rest@);
                    proof {
                        assert(explains(order@, records@, used@, watched@, state, goal));
                        assert forall|other: Seq<usize>| #[trigger]
                            explains(other, records@, used@, watched@, state, goal)
                                implies !precedes(other, order@) by {
                            assert(other.len() > 0);
                            if other[0] == index {
                                assert(explains(
                                    other.skip(1),
                                    records@,
                                    more@,
                                    watched@,
                                    stepped(records@[index as int], state),
                                    goal,
                                ));
                                assert(!precedes(other.skip(1), rest@));
                            }
                        }
                    }
                    return Some(order);
                }
            }
            proof {
                assert forall|order: Seq<usize>|
                    order.len() > 0 && order[0] < index + 1 implies !#[trigger] explains(
                    order,
                    records@,
                    used@,
                    watched@,
                    state,
                    goal,
                ) by {
                    if order[0] == index && explains(
                        order,
                        records@,
                        used@,
                        watched@,
                        state,
                        goal,
                    ) {
                        assert(fits(records@[index as int], watched@, state));
                        assert(explains(
                            order.skip(1),
                            records@,
                            used@.update(index as int, true),
                            watched@,
                            stepped(records@[index as int], state),
                            goal,
                        ));
                    }
                }
            }
        }
        index = index + 1;
    }
    proof {
        assert forall|order: Seq<usize>| !#[trigger] explains(
            order,
            records@,
            used@,
            watched@,
            state,
            goal,
        ) by {
            if order.len() > 0 {
                assert(order[0] < index || !(order[0] < records@.len()));
            }
        }
    }
    None
}

/// What is expected of the accounts after a step of the script, and which
/// outcome: a valid request changes them, a refused one only costs the fee.
pub fn expect_step(before: &[LedgerAccount], effect: &Result<Action, (usize, Reason)>, fee: u64)
    -> (r: Option<(Vec<LedgerAccount>, Option<(usize, Reason)>)>)
    requires
        before@.len() == 5,
        effect matches Ok(action) ==> action.refusal(states(before@)) is None ==> action.payable(
            states(before@),
        ),
    ensures
        ({
            let state = states(before@);
            match effect {
                Ok(action) => match r {
                    Some((after, outcome)) => action.refusal(state) is None && fee
                        <= state[PAYER as int].lamports && outcome is None && states(after@)
                        == charged(action.served(state), fee),
                    None => action.refusal(state) is Some || fee > state[PAYER as int].lamports,
                },
                Err(failure) => match r {
                    Some((after, outcome)) => fee <= state[PAYER as int].lamports && outcome
                        == Some(*failure) && states(after@) == charged(state, fee),
                    None => fee > state[PAYER as int].lamports,
                },
            }
        }),
{
    let mut after: Vec<LedgerAccount> = copy_state(before);
    let ghost state = states(before@);
    let outcome: Option<(usize, Reason)> = match effect {
        Ok(action) => {
            if action.apply(&mut after).is_some() {
                return None;
            }
            None
        },
        Err(failure) => Some(*failure),
    };
    let ghost served = states(after@);
    assert(served.len() == 5);
    assert(states(after@)[PAYER as int] == after@[PAYER as int]@);
    assert(served[PAYER as int] == state[PAYER as int]);
    if after[PAYER].lamports < fee {
        return None;
    }
    let mut payer: LedgerAccount = after[PAYER].copy();
    payer.lamports = payer.lamports - fee;
    after.set(PAYER, payer);
    assert(states(after@) =~= charged(served, fee));
    Some((after, outcome))
}

/// The metas of a request to the magic program: the sponsor signs, and so
/// does the address of an account that is to be created.
pub open spec fn request_metas(operation: Operation, watched: Seq<Pubkey>) -> Seq<AccountMeta> {
    seq![
        writable(watched[SPONSOR as int], true),
        writable(watched[TARGET as int], operation is Create),
        writable(watched[VAULT as int], false),
    ]
}

/// A request to the magic program itself.
pub fn native_instruction(operation: Operation, watched: &[Pubkey]) -> (r: SolanaInstruction)
    requires
        watched@.len() == 5,
    ensures
        r.is(key(MAGIC_PROGRAM_ID), request_metas(operation, watched@), operation_data(operation)),
{
    let creates: bool = match operation {
        Operation::Create { .. } => true,
        _ => false,
    };
    SolanaInstruction {
        program_id: Pubkey::new(MAGIC_PROGRAM_ID),
        accounts: vec![
            AccountMeta::new(watched[SPONSOR], true),
            AccountMeta::new(watched[TARGET], creates),
            AccountMeta::new(watched[VAULT], false),
        ],
        data: operation_bytes(operation),
    }
}

/// How a request of the script is made invalid.
#[derive(Clone, Copy, Debug, PartialEq, Eq, Structural)]
pub enum Tamper {
    /// The sponsor does not sign.
    UnsignedSponsor,
    /// Another account stands in for the vault.
    SubstitutedVault,
    /// The magic program is asked directly.
    TopLevel,
    /// The address to create does not sign.
    UnsignedAddress,
    /// An account with lamports stands in for the address to create.
    FundedAddress,
    /// A program that is not the owner asks.
    ForeignCaller,
    /// A direct request follows a valid one in the same transaction.
    Rollback,
}

/// Which instruction of a tampered transaction fails, and why.
pub open spec fn tamper_outcome(tamper: Tamper) -> (usize, Reason) {
    match tamper {
        Tamper::UnsignedSponsor => (0, Reason::MissingRequiredSignature),
        Tamper::SubstitutedVault => (0, Reason::InvalidAccountData),
        Tamper::TopLevel => (0, Reason::IncorrectProgramId),
        Tamper::UnsignedAddress => (0, Reason::MissingRequiredSignature),
        Tamper::FundedAddress => (0, Reason::InvalidAccountData),
        Tamper::ForeignCaller => (0, Reason::InvalidAccountOwner),
        Tamper::Rollback => (1, Reason::IncorrectProgramId),
    }
}

/// Which instruction of a tampered transaction fails, and why.
pub fn tampered(tamper: Tamper) -> (r: (usize, Reason))
    ensures
        r == tamper_outcome(tamper),
{
    match tamper {
        Tamper::UnsignedSponsor => (0, Reason::MissingRequiredSignature),
        Tamper::SubstitutedVault => (0, Reason::InvalidAccountData),
        Tamper::TopLevel => (0, Reason::IncorrectProgramId),
        Tamper::UnsignedAddress => (0, Reason::MissingRequiredSignature),
        Tamper::FundedAddress => (0, Reason::InvalidAccountData),
        Tamper::ForeignCaller => (0, Reason::InvalidAccountOwner),
        Tamper::Rollback => (1, Reason::IncorrectProgramId),
    }
}

/// The metas of a request that is tampered with.
pub open spec fn tampered_metas(tamper: Tamper, metas: Seq<AccountMeta>, watched: Seq<Pubkey>)
    -> Seq<AccountMeta> {
    match tamper {
        Tamper::UnsignedSponsor => metas.update(0, AccountMeta { is_signer: false, ..metas[0] }),
        Tamper::SubstitutedVault => metas.update(
            2,
            AccountMeta { pubkey: watched[SUBSTITUTE as int], ..metas[2] },
        ),
        Tamper::UnsignedAddress => metas.update(1, AccountMeta { is_signer: false, ..metas[1] }),
        Tamper::FundedAddress => metas.update(
            1,
            AccountMeta { pubkey: watched[SUBSTITUTE as int], ..metas[1] },
        ),
        _ => metas,
    }
}

/// Tampers with the metas of a request.
pub fn tamper_metas(tamper: Tamper, metas: &mut Vec<AccountMeta>, watched: &[Pubkey])
    requires
        old(metas)@.len() >= 3,
        watched@.len() == 5,
    ensures
        final(metas)@ == tampered_metas(tamper, old(metas)@, watched@),
{
    match tamper {
        Tamper::UnsignedSponsor => {
            let mut meta: AccountMeta = metas[0];
            meta.is_signer = false;
            metas.set(0, meta);
        },
        Tamper::SubstitutedVault => {
            let mut meta: AccountMeta = metas[2];
            meta.pubkey = watched[SUBSTITUTE];
            metas.set(2, meta);
        },
        Tamper::UnsignedAddress => {
            let mut meta: AccountMeta = metas[1];
            meta.is_signer = false;
            metas.set(1, meta);
        },
        Tamper::FundedAddress => {
            let mut meta: AccountMeta = metas[1];
            meta.pubkey = watched[SUBSTITUTE];
            metas.set(1, meta);
        },
        _ => {},
    }
}

/// The ways in which an operation is tampered with, in order: an account that
/// is to be created has no owner yet, so its address is tried instead of a
/// foreign caller.
pub open spec fn tampers_of(operation: Operation) -> Seq<Tamper> {
    if operation is Create {
        seq![
            Tamper::UnsignedSponsor,
            Tamper::SubstitutedVault,
            Tamper::TopLevel,
            Tamper::UnsignedAddress,
            Tamper::FundedAddress,
            Tamper::Rollback,
        ]
    } else {
        seq![
            Tamper::UnsignedSponsor,
            Tamper::SubstitutedVault,
            Tamper::TopLevel,
            Tamper::ForeignCaller,
            Tamper::Rollback,
        ]
    }
}

/// The ways in which an operation is tampered with.
pub fn tampers(operation: Operation) -> (r: Vec<Tamper>)
    ensures
        r@ == tampers_of(operation),
{
    match operation {
        Operation::Create { .. } => vec![
            Tamper::UnsignedSponsor,
            Tamper::SubstitutedVault,
            Tamper::TopLevel,
            Tamper::UnsignedAddress,
            Tamper::FundedAddress,
            Tamper::Rollback,
        ],
        _ => vec![
            Tamper::UnsignedSponsor,
            Tamper::SubstitutedVault,
            Tamper::TopLevel,
            Tamper::ForeignCaller,
            Tamper::Rollback,
        ],
    }
}

/// What is tried on the ephemeral account.
#[derive(Clone, Copy, Debug)]
pub enum Trial {
    /// A request that is tampered with.
    Tampered { action: Action, tamper: Tamper },
    /// A request that the state of the account forbids.
    Refused { action: Action, reason: Reason },
    /// A request that is served.
    Served { action: Action },
}

/// Every way of tampering with a request.
pub open spec fn tampered_trials(action: Action) -> Seq<Trial> {
    let tampers = tampers_of(action.operation);
    Seq::new(tampers.len(), |i: int| Trial::Tampered { action, tamper: tampers[i] })
}

/// A request to create an account.
pub open spec fn creation(caller: Pubkey, data_len: u32, fill: u8) -> Action {
    Action { operation: Operation::Create { data_len }, caller, fill }
}

/// A request to resize the account.
pub open spec fn sizing(caller: Pubkey, new_data_len: u32, fill: u8) -> Action {
    Action { operation: Operation::Resize { new_data_len }, caller, fill }
}

/// A request to close the account.
pub open spec fn closing(caller: Pubkey) -> Action {
    Action { operation: Operation::Close, caller, fill: 0 }
}

/// The account is created, and cannot be created again.
pub open spec fn creation_trials(own: Pubkey) -> Seq<Trial> {
    tampered_trials(creation(own, 32, 0)) + seq![
        Trial::Served { action: creation(own, 32, 0xa5) },
        Trial::Refused { action: creation(own, 32, 0xa5), reason: Reason::InvalidAccountData },
    ]
}

/// The account grows, shrinks, grows again, becomes empty and is filled.
pub open spec fn sizing_trials(own: Pubkey) -> Seq<Trial> {
    tampered_trials(sizing(own, 96, 0)) + seq![
        Trial::Served { action: sizing(own, 96, 0) },
        Trial::Served { action: sizing(own, 16, 0) },
        Trial::Served { action: sizing(own, 64, 0) },
        Trial::Served { action: sizing(own, 0, 0) },
        Trial::Served { action: sizing(own, 24, 0x3c) },
    ]
}

/// The account is closed.
pub open spec fn closing_trials(own: Pubkey) -> Seq<Trial> {
    tampered_trials(closing(own)) + seq![Trial::Served { action: closing(own) }]
}

/// The account is created anew: only its present owner can close it.
pub open spec fn handover_trials(owner: Pubkey, other: Pubkey) -> Seq<Trial> {
    seq![
        Trial::Served { action: creation(owner, 48, 0) },
        Trial::Refused { action: closing(other), reason: Reason::InvalidAccountOwner },
        Trial::Served { action: closing(owner) },
    ]
}

/// Everything that is tried before requests are raced.
pub open spec fn script_of(own: Pubkey, foreign: Pubkey) -> Seq<Trial> {
    creation_trials(own) + sizing_trials(own) + closing_trials(own) + handover_trials(foreign, own)
        + handover_trials(own, foreign)
}

/// Adds every way of tampering with a request.
fn push_tampered(trials: &mut Vec<Trial>, action: Action)
    ensures
        final(trials)@ == old(trials)@ + tampered_trials(action),
{
    let ways: Vec<Tamper> = tampers(action.operation);
    let ghost wanted = tampered_trials(action);
    let mut i: usize = 0;
    while i < ways.len()
        invariant
            i <= ways@.len(),
            ways@ == tampers_of(action.operation),
            wanted == tampered_trials(action),
            trials@ == old(trials)@ + wanted.take(i as int),
        decreases ways@.len() - i,
    {
        trials.push(Trial::Tampered { action, tamper: ways[i] });
        assert(wanted.take(i as int + 1) =~= wanted.take(i as int).push(wanted[i as int]));
        i = i + 1;
    }
    assert(wanted.take(i as int) =~= wanted);
}

/// Adds the trials of an account that changes hands.
fn push_handover(trials: &mut Vec<Trial>, owner: Pubkey, other: Pubkey)
    ensures
        final(trials)@ == old(trials)@ + handover_trials(owner, other),
{
    let create = Action::new(Operation::Create { data_len: 48 }, owner);
    trials.push(Trial::Served { action: create });
    trials.push(
        Trial::Refused {
            action: Action::new(Operation::Close, other),
            reason: Reason::InvalidAccountOwner,
        },
    );
    trials.push(Trial::Served { action: Action::new(Operation::Close, owner) });
    assert(trials@ =~= old(trials)@ + handover_trials(owner, other));
}

/// Everything that is tried before requests are raced.
pub fn script(own: Pubkey, foreign: Pubkey) -> (r: Vec<Trial>)
    ensures
        r@ == script_of(own, foreign),
{
    let mut trials: Vec<Trial> = Vec::new();
    let create = Action { operation: Operation::Create { data_len: 32 }, caller: own, fill: 0 };
    push_tampered(&mut trials, create);
    let filled = Action { operation: Operation::Create { data_len: 32 }, caller: own, fill: 0xa5 };
    trials.push(Trial::Served { action: filled });
    trials.push(Trial::Refused { action: filled, reason: Reason::InvalidAccountData });
    assert(trials@ =~= creation_trials(own));
    let resize = Action::new(Operation::Resize { new_data_len: 96 }, own);
    push_tampered(&mut trials, resize);
    trials.push(Trial::Served { action: resize });
    trials.push(
        Trial::Served { action: Action::new(Operation::Resize { new_data_len: 16 }, own) },
    );
    trials.push(
        Trial::Served { action: Action::new(Operation::Resize { new_data_len: 64 }, own) },
    );
    trials.push(Trial::Served { action: Action::new(Operation::Resize { new_data_len: 0 }, own) });
    trials.push(
        Trial::Served {
            action: Action {
                operation: Operation::Resize { new_data_len: 24 },
                caller: own,
                fill: 0x3c,
            },
        },
    );
    assert(trials@ =~= creation_trials(own) + sizing_trials(own));
    let close = Action::new(Operation::Close, own);
    push_tampered(&mut trials, close);
    trials.push(Trial::Served { action: close });
    assert(trials@ =~= creation_trials(own) + sizing_trials(own) + closing_trials(own));
    push_handover(&mut trials, foreign, own);
    push_handover(&mut trials, own, foreign);
    trials
}

/// Whether the model answers a trial as the trial expects.
pub open spec fn agrees(trial: Trial, state: Seq<LedgerState>) -> bool {
    match trial {
        Trial::Tampered { .. } => true,
        Trial::Refused { action, reason } => action.refusal(state) == Some(reason),
        Trial::Served { action } => action.refusal(state) is None,
    }
}

/// The accounts after a trial, but for the fee that the payer is charged.
pub open spec fn tried(trial: Trial, state: Seq<LedgerState>) -> Seq<LedgerState> {
    match trial {
        Trial::Served { action } => action.served(state),
        _ => state,
    }
}

/// The accounts after a number of trials.
pub open spec fn tried_all(trials: Seq<Trial>, state: Seq<LedgerState>) -> Seq<LedgerState>
    decreases trials.len(),
{
    if trials.len() == 0 {
        state
    } else {
        tried_all(trials.drop_first(), tried(trials[0], state))
    }
}

/// Whether the model answers every trial as expected, each in the state that
/// the trials before it leave.
pub open spec fn all_agree(trials: Seq<Trial>, state: Seq<LedgerState>) -> bool
    decreases trials.len(),
{
    trials.len() == 0 || (agrees(trials[0], state) && all_agree(
        trials.drop_first(),
        tried(trials[0], state),
    ))
}

/// Trials can be judged in two parts.
proof fn lemma_trials_in_parts(one: Seq<Trial>, other: Seq<Trial>, state: Seq<LedgerState>)
    ensures
        tried_all(one + other, state) == tried_all(other, tried_all(one, state)),
        all_agree(one + other, state) == (all_agree(one, state) && all_agree(
            other,
            tried_all(one, state),
        )),
    decreases one.len(),
{
    if one.len() == 0 {
        assert(one + other =~= other);
    } else {
        assert((one + other).drop_first() =~= one.drop_first() + other);
        lemma_trials_in_parts(one.drop_first(), other, tried(one[0], state));
    }
}

/// Requests that are tampered with change nothing.
proof fn lemma_tampering_changes_nothing(trials: Seq<Trial>, state: Seq<LedgerState>)
    requires
        forall|i: int| 0 <= i < trials.len() ==> #[trigger] trials[i] is Tampered,
    ensures
        tried_all(trials, state) == state,
        all_agree(trials, state),
    decreases trials.len(),
{
    if trials.len() > 0 {
        lemma_tampering_changes_nothing(trials.drop_first(), state);
    }
}

/// Whether the ephemeral account has a certain owner.
spec fn owned(state: Seq<LedgerState>, owner: Pubkey) -> bool {
    &&& state.len() == 5
    &&& state[TARGET as int].owner == owner
    &&& state[TARGET as int].lamports == 0
}

/// The account is created while it is absent, and then has an owner.
proof fn lemma_creation_trials(own: Pubkey, state: Seq<LedgerState>)
    requires
        owned(state, key(SYSTEM_PROGRAM_ID)),
        own != key(SYSTEM_PROGRAM_ID),
    ensures
        all_agree(creation_trials(own), state),
        owned(tried_all(creation_trials(own), state), own),
{
    let front = tampered_trials(creation(own, 32, 0));
    let last = seq![
        Trial::Served { action: creation(own, 32, 0xa5) },
        Trial::Refused { action: creation(own, 32, 0xa5), reason: Reason::InvalidAccountData },
    ];
    lemma_tampering_changes_nothing(front, state);
    lemma_trials_in_parts(front, last, state);
    reveal_with_fuel(all_agree, 3);
    reveal_with_fuel(tried_all, 3);
    assert(owned(creation(own, 32, 0xa5).served(state), own));
    assert(last.drop_first() =~= seq![last[1]]);
    assert(last.drop_first().drop_first() =~= Seq::<Trial>::empty());
}

/// Resizing keeps the owner.
proof fn lemma_sizing_trials(own: Pubkey, state: Seq<LedgerState>)
    requires
        owned(state, own),
        own != key(SYSTEM_PROGRAM_ID),
    ensures
        all_agree(sizing_trials(own), state),
        owned(tried_all(sizing_trials(own), state), own),
{
    let front = tampered_trials(sizing(own, 96, 0));
    let last = seq![
        Trial::Served { action: sizing(own, 96, 0) },
        Trial::Served { action: sizing(own, 16, 0) },
        Trial::Served { action: sizing(own, 64, 0) },
        Trial::Served { action: sizing(own, 0, 0) },
        Trial::Served { action: sizing(own, 24, 0x3c) },
    ];
    lemma_tampering_changes_nothing(front, state);
    lemma_trials_in_parts(front, last, state);
    lemma_sizings_keep_the_owner(last, own, state);
}

/// Any number of resizes by the owner is served and keeps the owner.
proof fn lemma_sizings_keep_the_owner(trials: Seq<Trial>, own: Pubkey, state: Seq<LedgerState>)
    requires
        owned(state, own),
        own != key(SYSTEM_PROGRAM_ID),
        forall|i: int|
            0 <= i < trials.len() ==> {
                &&& #[trigger] trials[i] is Served
                &&& trials[i]->Served_action.operation is Resize
                &&& trials[i]->Served_action.caller == own
            },
    ensures
        all_agree(trials, state),
        owned(tried_all(trials, state), own),
    decreases trials.len(),
{
    if trials.len() > 0 {
        assert(trials[0] is Served);
        assert(owned(tried(trials[0], state), own));
        lemma_sizings_keep_the_owner(trials.drop_first(), own, tried(trials[0], state));
    }
}

/// The owner closes the account, which is then absent.
proof fn lemma_closing_trials(own: Pubkey, state: Seq<LedgerState>)
    requires
        owned(state, own),
        own != key(SYSTEM_PROGRAM_ID),
    ensures
        all_agree(closing_trials(own), state),
        owned(tried_all(closing_trials(own), state), key(SYSTEM_PROGRAM_ID)),
{
    let front = tampered_trials(closing(own));
    let last = seq![Trial::Served { action: closing(own) }];
    lemma_tampering_changes_nothing(front, state);
    lemma_trials_in_parts(front, last, state);
    reveal_with_fuel(all_agree, 2);
    reveal_with_fuel(tried_all, 2);
    assert(last.drop_first() =~= Seq::<Trial>::empty());
    assert(owned(closing(own).served(state), key(SYSTEM_PROGRAM_ID)));
}

/// An account that is created anew can be closed by its owner alone.
proof fn lemma_handover_trials(owner: Pubkey, other: Pubkey, state: Seq<LedgerState>)
    requires
        owned(state, key(SYSTEM_PROGRAM_ID)),
        owner != key(SYSTEM_PROGRAM_ID),
        owner != other,
    ensures
        all_agree(handover_trials(owner, other), state),
        owned(tried_all(handover_trials(owner, other), state), key(SYSTEM_PROGRAM_ID)),
{
    let trials = handover_trials(owner, other);
    let made = creation(owner, 48, 0).served(state);
    assert(owned(made, owner));
    assert(owned(closing(owner).served(made), key(SYSTEM_PROGRAM_ID)));
    reveal_with_fuel(all_agree, 4);
    reveal_with_fuel(tried_all, 4);
    assert(trials.drop_first() =~= seq![trials[1], trials[2]]);
    assert(trials.drop_first().drop_first() =~= seq![trials[2]]);
    assert(trials.drop_first().drop_first().drop_first() =~= Seq::<Trial>::empty());
}

/// The script expects what the model says: from a fresh address on, the model
/// serves every request that the script has served and refuses every request
/// that the script has refused, for the same reason; and in the end the
/// account is absent again.
pub proof fn the_script_agrees_with_the_model(
    own: Pubkey,
    foreign: Pubkey,
    state: Seq<LedgerState>,
)
    requires
        state.len() == 5,
        !exists_in(state),
        state[TARGET as int].lamports == 0,
        own != key(SYSTEM_PROGRAM_ID),
        foreign != key(SYSTEM_PROGRAM_ID),
        own != foreign,
    ensures
        all_agree(script_of(own, foreign), state),
        !exists_in(tried_all(script_of(own, foreign), state)),
{
    let one = creation_trials(own);
    let two = one + sizing_trials(own);
    let three = two + closing_trials(own);
    let four = three + handover_trials(foreign, own);
    lemma_creation_trials(own, state);
    lemma_trials_in_parts(one, sizing_trials(own), state);
    lemma_sizing_trials(own, tried_all(one, state));
    lemma_trials_in_parts(two, closing_trials(own), state);
    lemma_closing_trials(own, tried_all(two, state));
    lemma_trials_in_parts(three, handover_trials(foreign, own), state);
    lemma_handover_trials(foreign, own, tried_all(three, state));
    lemma_trials_in_parts(four, handover_trials(own, foreign), state);
    lemma_handover_trials(own, foreign, tried_all(four, state));
}

/// How many times conflicting requests are raced.
pub const RACES: usize = 3;

/// The request that sets the stage for a race.
pub fn race_start(own: Pubkey) -> (r: Action)
    ensures
        r == creation(own, 40, 0x5a),
{
    Action { operation: Operation::Create { data_len: 40 }, caller: own, fill: 0x5a }
}

/// The request that clears up after a race, unless the account is gone.
pub fn race_end(state: &[LedgerAccount], own: Pubkey) -> (r: Option<Action>)
    requires
        state@.len() == 5,
    ensures
        r == if exists_in(states(state@)) {
            Some(closing(own))
        } else {
            None
        },
{
    assert(states(state@)[TARGET as int] == state@[TARGET as int]@);
    let owner = Pubkey::new(state[TARGET].owner);
    if owner.same(&Pubkey::new(SYSTEM_PROGRAM_ID)) {
        None
    } else {
        Some(Action::new(Operation::Close, own))
    }
}

/// The operations that are raced against each other on an account of forty
/// bytes.
pub fn conflicting_operations() -> (r: Vec<Operation>)
    ensures
        r@ == seq![
            Operation::Resize { new_data_len: 80 },
            Operation::Resize { new_data_len: 8 },
            Operation::Close,
            Operation::Close,
            Operation::Create { data_len: 56 },
            Operation::Create { data_len: 112 },
        ],
{
    vec![
        Operation::Resize { new_data_len: 80 },
        Operation::Resize { new_data_len: 8 },
        Operation::Close,
        Operation::Close,
        Operation::Create { data_len: 56 },
        Operation::Create { data_len: 112 },
    ]
}

/// A resize that does not fill the account keeps what the account held, byte
/// by byte, as far as both lengths reach. What is added is zero, and nothing
/// but the data changes.
pub proof fn resizing_keeps_the_content(state: Seq<LedgerState>, caller: Pubkey, new_data_len: u32)
    requires
        state.len() == 5,
    ensures
        ({
            let action = Action { operation: Operation::Resize { new_data_len }, caller, fill: 0 };
            let before = state[TARGET as int];
            let after = action.served(state)[TARGET as int];
            &&& after == action.target_after(before)
            &&& after.data.len() == new_data_len
            &&& forall|i: int|
                0 <= i < before.data.len() && i < new_data_len ==> #[trigger] after.data[i]
                    == before.data[i]
            &&& forall|i: int|
                before.data.len() <= i < new_data_len ==> #[trigger] after.data[i] == 0
            &&& after.owner == before.owner
            &&& after.lamports == before.lamports
            &&& after.executable == before.executable
            &&& after.rent_epoch == before.rent_epoch
        }),
{
}

/// An account that grew without a fill and is brought back to its length
/// holds what it held before.
pub proof fn growing_is_undone_by_shrinking(state: Seq<LedgerState>, caller: Pubkey, new_data_len: u32)
    requires
        state.len() == 5,
        state[TARGET as int].data.len() <= new_data_len,
    ensures
        ({
            let old_data_len = state[TARGET as int].data.len() as u32;
            let grow = Action { operation: Operation::Resize { new_data_len }, caller, fill: 0 };
            let shrink = Action {
                operation: Operation::Resize { new_data_len: old_data_len },
                caller,
                fill: 0,
            };
            shrink.served(grow.served(state))[TARGET as int] == state[TARGET as int]
        }),
{
    let old_data_len = state[TARGET as int].data.len() as u32;
    let grow = Action { operation: Operation::Resize { new_data_len }, caller, fill: 0 };
    let shrink = Action {
        operation: Operation::Resize { new_data_len: old_data_len },
        caller,
        fill: 0,
    };
    assert(shrink.served(grow.served(state))[TARGET as int].data =~= state[TARGET as int].data);
}

/// A created account belongs to the program that asked for it and has the
/// length that was asked for. Without a fill it holds zeros only.
pub proof fn creating_gives_zeros(state: Seq<LedgerState>, caller: Pubkey, data_len: u32, fill: u8)
    requires
        state.len() == 5,
    ensures
        ({
            let action = Action { operation: Operation::Create { data_len }, caller, fill };
            let before = state[TARGET as int];
            let after = action.served(state)[TARGET as int];
            &&& after.owner == caller
            &&& after.rent_epoch == 0xffff_ffff_ffff_ffff
            &&& after.lamports == before.lamports
            &&& after.executable == before.executable
            &&& after.data.len() == data_len
            &&& forall|i: int| 0 <= i < data_len ==> #[trigger] after.data[i] == fill
        }),
{
}

/// A fill other than zero stands in every byte of a resized account, whatever
/// it held before.
pub proof fn a_fill_reaches_every_byte(
    state: Seq<LedgerState>,
    caller: Pubkey,
    new_data_len: u32,
    fill: u8,
)
    requires
        state.len() == 5,
        fill != 0,
    ensures
        ({
            let action = Action { operation: Operation::Resize { new_data_len }, caller, fill };
            let after = action.served(state)[TARGET as int];
            &&& after.data.len() == new_data_len
            &&& forall|i: int| 0 <= i < new_data_len ==> #[trigger] after.data[i] == fill
            &&& after.owner == state[TARGET as int].owner
            &&& after.lamports == state[TARGET as int].lamports
        }),
{
}

/// Nothing is left of a closed account.
pub proof fn closing_leaves_nothing(state: Seq<LedgerState>, caller: Pubkey, fill: u8)
    requires
        state.len() == 5,
    ensures
        ({
            let action = Action { operation: Operation::Close, caller, fill };
            let after = action.served(state)[TARGET as int];
            &&& after.lamports == 0
            &&& after.data.len() == 0
            &&& after.owner == key(SYSTEM_PROGRAM_ID)
            &&& !after.executable
            &&& after.rent_epoch == 0
        }),
{
}

/// Rent is 32 lamports for every byte and for 60 bytes more. The sponsor pays
/// it to the vault at creation, pays or gets back the difference at a resize,
/// and gets all of it back when the account is closed.
pub proof fn rent_is_paid_by_the_byte(action: Action, state: Seq<LedgerState>)
    requires
        action.payable(state),
        action.refusal(state) is None,
        state[TARGET as int].data.len() < 0x1_0000_0000,
    ensures
        ({
            let after = action.served(state);
            let len = state[TARGET as int].data.len();
            let paid = match action.operation {
                Operation::Create { data_len } => 32 * data_len + 1920,
                Operation::Resize { new_data_len } => 32 * new_data_len - 32 * len,
                Operation::Close => -(32 * len + 1920),
            };
            &&& after[SPONSOR as int].lamports == state[SPONSOR as int].lamports - paid
            &&& after[VAULT as int].lamports == state[VAULT as int].lamports + paid
            &&& after[SPONSOR as int].data == state[SPONSOR as int].data
            &&& after[SPONSOR as int].owner == state[SPONSOR as int].owner
            &&& after[VAULT as int].data == state[VAULT as int].data
            &&& after[VAULT as int].owner == state[VAULT as int].owner
            &&& after.len() == 5
        }),
{
}

/// A creation on a blank address can be paid exactly where the sponsor has the
/// rent and the vault has room for it.
pub proof fn a_creation_needs_its_rent(
    state: Seq<LedgerState>,
    caller: Pubkey,
    data_len: u32,
    fill: u8,
)
    requires
        state.len() == 5,
        !exists_in(state),
    ensures
        (Action { operation: Operation::Create { data_len }, caller, fill }).payable(state) <==> {
            &&& 32 * data_len + 1920 <= state[SPONSOR as int].lamports
            &&& state[VAULT as int].lamports + 32 * data_len + 1920 <= u64::MAX
        },
{
}

/// An account can be closed exactly where the vault still holds its rent and
/// the sponsor has room for it.
pub proof fn a_closing_needs_the_rent_back(state: Seq<LedgerState>, caller: Pubkey, fill: u8)
    requires
        state.len() == 5,
        exists_in(state),
        state[TARGET as int].data.len() < 0x1_0000_0000,
    ensures
        (Action { operation: Operation::Close, caller, fill }).payable(state) <==> {
            &&& 32 * state[TARGET as int].data.len() + 1920 <= state[VAULT as int].lamports
            &&& state[SPONSOR as int].lamports + 32 * state[TARGET as int].data.len() + 1920
                <= u64::MAX
        },
{
}

/// Who is refused, and why: a creation where the address has an owner or
/// lamports, and everything else where nobody owns the account or somebody
/// other than the caller does.
pub proof fn who_is_refused(action: Action, state: Seq<LedgerState>)
    ensures
        ({
            let target = state[TARGET as int];
            let system = key(SYSTEM_PROGRAM_ID);
            let refusal = action.refusal(state);
            &&& action.operation is Create ==> (refusal is None <==> target.owner == system
                && target.lamports == 0)
            &&& !(action.operation is Create) ==> (refusal is None <==> target.owner != system
                && target.owner == action.caller)
            &&& refusal is Some ==> refusal == Some(Reason::InvalidAccountData) || refusal == Some(
                Reason::InvalidAccountOwner,
            )
            &&& refusal == Some(Reason::InvalidAccountOwner) <==> !(action.operation is Create)
                && target.owner != system && target.owner != action.caller
        }),
{
}

/// A created account cannot be created again, by nobody, and its creator can
/// resize and close it. Once it is closed it can be created again, by anybody,
/// and nobody can resize or close it.
pub proof fn an_account_lives_between_creation_and_closing(
    state: Seq<LedgerState>,
    create: Action,
    close: Action,
    next: Action,
)
    requires
        state.len() == 5,
        create.operation is Create,
        close.operation is Close,
        create.caller != key(SYSTEM_PROGRAM_ID),
        close.caller == create.caller,
        create.refusal(state) is None,
    ensures
        ({
            let open = create.served(state);
            let shut = close.served(open);
            &&& next.operation is Create ==> next.refusal(open) == Some(Reason::InvalidAccountData)
            &&& !(next.operation is Create) ==> (next.refusal(open) is None <==> next.caller
                == create.caller)
            &&& next.operation is Create ==> next.refusal(shut) is None
            &&& !(next.operation is Create) ==> next.refusal(shut) == Some(
                Reason::InvalidAccountData,
            )
        }),
{
}

/// A fee is taken from the payer, to the lamport, and from nobody else.
pub proof fn a_fee_is_taken_from_the_payer(state: Seq<LedgerState>, fee: u64)
    requires
        state.len() == 5,
        fee <= state[PAYER as int].lamports,
    ensures
        ({
            let after = charged(state, fee);
            &&& after.len() == 5
            &&& after[PAYER as int].lamports + fee == state[PAYER as int].lamports
            &&& after[PAYER as int].data == state[PAYER as int].data
            &&& after[PAYER as int].owner == state[PAYER as int].owner
            &&& forall|i: int| 1 <= i < 5 ==> #[trigger] after[i] == state[i]
        }),
{
}

/// A refused request changes nothing but the payer's balance, and is expected
/// to fail at the first instruction, for the reason it is refused for.
pub proof fn a_refused_request_costs_its_fee(record: (Action, TxFacts), state: Seq<LedgerState>)
    requires
        state.len() == 5,
        record.0.refusal(state) is Some,
        record.1.fee <= state[PAYER as int].lamports,
    ensures
        stepped(record, state)[PAYER as int].lamports + record.1.fee
            == state[PAYER as int].lamports,
        forall|i: int| 1 <= i < 5 ==> #[trigger] stepped(record, state)[i] == state[i],
        expected_of(record.0, state).1 matches Some((place, reason)) && place == 0 && Some(reason)
            == record.0.refusal(state),
{
}

/// However requests are ordered, an order that explains the end leaves the
/// payer with what it had less all fees, the sponsor and the vault with what
/// they had between them, and the substitute untouched.
pub proof fn an_explained_end_balances(
    order: Seq<usize>,
    records: Seq<(Action, TxFacts)>,
    used: Seq<bool>,
    watched: Seq<Pubkey>,
    state: Seq<LedgerState>,
    end: Seq<LedgerState>,
)
    requires
        used.len() == records.len(),
        state.len() == 5,
        explains(order, records, used, watched, state, end),
    ensures
        end.len() == 5,
        end[PAYER as int].lamports == state[PAYER as int].lamports - fees_left(records, used),
        end[SPONSOR as int].lamports + end[VAULT as int].lamports == state[SPONSOR as int].lamports
            + state[VAULT as int].lamports,
        end[SUBSTITUTE as int] == state[SUBSTITUTE as int],
    decreases order.len(),
{
    if order.len() == 0 {
        lemma_no_fees_left(records, used);
    } else {
        let i = order[0] as int;
        let next = stepped(records[i], state);
        lemma_use(records, used, i);
        if records[i].0.refusal(state) is None {
            rent_is_conserved(records[i].0, state);
        }
        an_explained_end_balances(
            order.skip(1),
            records,
            used.update(i, true),
            watched,
            next,
            end,
        );
    }
}

/// The place of an address is the first that holds it, and an address without
/// a place is not watched.
pub proof fn the_first_place_counts(watched: Seq<Pubkey>, address: Pubkey)
    ensures
        match place_of(watched, address) {
            Some(p) => {
                &&& 0 <= p < watched.len()
                &&& watched[p] == address
                &&& forall|i: int| 0 <= i < p ==> #[trigger] watched[i] != address
            },
            None => forall|i: int| 0 <= i < watched.len() ==> #[trigger] watched[i] != address,
        },
    decreases watched.len(),
{
    if watched.len() > 0 {
        let rest = watched.drop_last();
        the_first_place_counts(rest, address);
        assert forall|i: int| 0 <= i < rest.len() implies rest[i] == #[trigger] watched[i] by {}
    }
}

/// The wrong balance that is named is the first one from where the search
/// begins, and where none is named, all balances fit.
pub proof fn the_first_wrong_balance_is_named(
    facts: TxFacts,
    watched: Seq<Pubkey>,
    before: Seq<LedgerState>,
    from: int,
)
    requires
        0 <= from,
        facts.account_keys@.len() <= usize::MAX,
    ensures
        match first_wrong_balance(facts, watched, before, from) {
            Some(at) => {
                &&& from <= at < facts.account_keys@.len()
                &&& !pre_balance_fits(facts, watched, before, at as int)
                &&& forall|i: int|
                    from <= i < at ==> #[trigger] pre_balance_fits(facts, watched, before, i)
            },
            None => forall|i: int|
                from <= i < facts.account_keys@.len() ==> #[trigger] pre_balance_fits(
                    facts,
                    watched,
                    before,
                    i,
                ),
        },
    decreases facts.account_keys@.len() - from,
{
    if from < facts.account_keys@.len() && pre_balance_fits(facts, watched, before, from) {
        the_first_wrong_balance_is_named(facts, watched, before, from + 1);
    }
}

/// A record is accepted exactly where the transaction came out as expected,
/// every watched account held before and after what it should, every other
/// account kept its balance, a transaction that went through reported both
/// states, and the magic program was called.
pub proof fn what_makes_a_record_good(
    facts: TxFacts,
    watched: Seq<Pubkey>,
    before: Seq<LedgerState>,
    after: Seq<LedgerState>,
    expected: Option<(usize, Reason)>,
)
    requires
        facts.account_keys@.len() <= usize::MAX,
        watched.no_duplicates(),
    ensures
        record_fault(facts, watched, before, after, expected) is None <==> {
            &&& facts.err == expected
            &&& facts.pre_balances@.len() == facts.account_keys@.len()
            &&& facts.post_balances@.len() == facts.account_keys@.len()
            &&& forall|i: int, p: int|
                #![trigger facts.account_keys@[i], watched[p]]
                0 <= i < facts.account_keys@.len() && 0 <= p < watched.len()
                    && facts.account_keys@[i] == watched[p] ==> facts.pre_balances@[i]
                    == before[p].lamports && facts.post_balances@[i] == after[p].lamports
            &&& forall|i: int|
                #![trigger facts.account_keys@[i]]
                0 <= i < facts.account_keys@.len() && !watched.contains(facts.account_keys@[i])
                    ==> facts.post_balances@[i] == facts.pre_balances@[i]
            &&& facts.err is None ==> reports(facts.logs@) == seq![
                observed(before),
                observed(after),
            ]
            &&& called(facts.logs@, key(MAGIC_PROGRAM_ID))
        },
{
    let keys = facts.account_keys@;
    the_first_wrong_balance_is_named(facts, watched, before, 0);
    assert forall|i: int| 0 <= i < keys.len() implies match place_of(watched, #[trigger] keys[i]) {
        Some(p) => 0 <= p < watched.len() && watched[p] == keys[i],
        None => !watched.contains(keys[i]),
    } by {
        the_first_place_counts(watched, keys[i]);
    }
    let wanted = balances_after(facts, watched, after);
    if record_fault(facts, watched, before, after, expected) is None {
        assert(facts.post_balances@ == wanted);
        assert forall|i: int, p: int|
            #![trigger keys[i], watched[p]]
            0 <= i < keys.len() && 0 <= p < watched.len() && keys[i]
                == watched[p] implies facts.pre_balances@[i] == before[p].lamports
            && facts.post_balances@[i] == after[p].lamports by {
            assert(pre_balance_fits(facts, watched, before, i));
            assert(facts.post_balances@[i] == wanted[i]);
        }
        assert forall|i: int|
            #![trigger keys[i]]
            0 <= i < keys.len() && !watched.contains(keys[i]) implies facts.post_balances@[i]
            == facts.pre_balances@[i] by {
            assert(facts.post_balances@[i] == wanted[i]);
        }
    }
    if {
        &&& facts.err == expected
        &&& facts.pre_balances@.len() == keys.len()
        &&& facts.post_balances@.len() == keys.len()
        &&& forall|i: int, p: int|
            #![trigger keys[i], watched[p]]
            0 <= i < keys.len() && 0 <= p < watched.len() && keys[i] == watched[p]
                ==> facts.pre_balances@[i] == before[p].lamports && facts.post_balances@[i]
                == after[p].lamports
        &&& forall|i: int|
            #![trigger keys[i]]
            0 <= i < keys.len() && !watched.contains(keys[i]) ==> facts.post_balances@[i]
                == facts.pre_balances@[i]
    } {
        assert forall|i: int| 0 <= i < keys.len() implies #[trigger] pre_balance_fits(
            facts,
            watched,
            before,
            i,
        ) by {
            assert(keys[i] == keys[i]);
        }
        assert forall|i: int| 0 <= i < wanted.len() implies #[trigger] wanted[i]
            == facts.post_balances@[i] by {
            assert(keys[i] == keys[i]);
        }
        assert(facts.post_balances@ =~= wanted);
    }
}

/// A transaction that came out otherwise than expected is faulted for that,
/// whatever else is wrong with it.
pub proof fn the_outcome_is_looked_at_first(
    facts: TxFacts,
    watched: Seq<Pubkey>,
    before: Seq<LedgerState>,
    after: Seq<LedgerState>,
    expected: Option<(usize, Reason)>,
)
    ensures
        record_fault(facts, watched, before, after, expected) == Some(RecordFault::Outcome)
            <==> facts.err != expected,
{
}

/// What is reported in two logs together is what the first reports, and then
/// what the second does. A line reports what follows its prefix, and a line
/// without the prefix nothing.
pub proof fn reports_come_line_by_line(one: Seq<String>, other: Seq<String>, line: String)
    ensures
        reports(one + other) == reports(one) + reports(other),
        begins(line@, "Program log: Ephemeral: "@) ==> reports(seq![line]) == seq![
            line@.skip("Program log: Ephemeral: "@.len() as int),
        ],
        !begins(line@, "Program log: Ephemeral: "@) ==> reports(seq![line]) == Seq::<
            Seq<char>,
        >::empty(),
    decreases other.len(),
{
    assert(seq![line].drop_last() =~= Seq::<String>::empty());
    assert(reports(seq![line].drop_last()) =~= Seq::<Seq<char>>::empty());
    if other.len() == 0 {
        assert(one + other =~= one);
    } else {
        reports_come_line_by_line(one, other.drop_last(), line);
        assert((one + other).drop_last() =~= one + other.drop_last());
        assert((one + other).last() == other.last());
    }
}

/// One order precedes another exactly where, behind what they have in common,
/// it ends or goes on with the smaller place.
pub proof fn orders_part_at_a_place(one: Seq<usize>, other: Seq<usize>)
    ensures
        precedes(one, other) <==> exists|n: int|
            {
                &&& 0 <= n <= one.len()
                &&& n < other.len()
                &&& #[trigger] one.take(n) == other.take(n)
                &&& n == one.len() || one[n] < other[n]
            },
        !(precedes(one, other) && precedes(other, one)),
        one != other ==> precedes(one, other) || precedes(other, one),
        !precedes(one, one),
    decreases one.len() + other.len(),
{
    lemma_order_is_strict(one, other);
    lemma_order_is_strict(one, one);
    if precedes(one, other) {
        lemma_precedes_parts(one, other);
    }
    if exists|n: int|
        {
            &&& 0 <= n <= one.len()
            &&& n < other.len()
            &&& #[trigger] one.take(n) == other.take(n)
            &&& n == one.len() || one[n] < other[n]
        } {
        let n = choose|n: int|
            {
                &&& 0 <= n <= one.len()
                &&& n < other.len()
                &&& #[trigger] one.take(n) == other.take(n)
                &&& n == one.len() || one[n] < other[n]
            };
        lemma_parts_precede(one, other, n);
    }
}

/// Of two different orders exactly one precedes the other.
proof fn lemma_order_is_strict(one: Seq<usize>, other: Seq<usize>)
    ensures
        !(precedes(one, other) && precedes(other, one)),
        one != other ==> precedes(one, other) || precedes(other, one),
        one == other ==> !precedes(one, other),
    decreases one.len() + other.len(),
{
    if one.len() > 0 && other.len() > 0 {
        lemma_order_is_strict(one.skip(1), other.skip(1));
        if one[0] == other[0] && one.skip(1) == other.skip(1) {
            assert forall|i: int| 0 <= i < one.len() implies one[i] == other[i] by {
                if i > 0 {
                    assert(one.skip(1)[i - 1] == other.skip(1)[i - 1]);
                }
            }
            assert(one.len() == one.skip(1).len() + 1);
            assert(one =~= other);
        }
    } else if one.len() == 0 && other.len() == 0 {
        assert(one =~= other);
    }
}

/// Where an order precedes another they part at a place.
proof fn lemma_precedes_parts(one: Seq<usize>, other: Seq<usize>) -> (n: int)
    requires
        precedes(one, other),
    ensures
        0 <= n <= one.len(),
        n < other.len(),
        one.take(n) == other.take(n),
        n == one.len() || one[n] < other[n],
    decreases one.len(),
{
    if one.len() == 0 || one[0] < other[0] {
        assert(one.take(0) =~= other.take(0));
        0
    } else {
        let m = lemma_precedes_parts(one.skip(1), other.skip(1));
        assert forall|i: int| 0 <= i < m + 1 implies one[i] == other[i] by {
            if i > 0 {
                assert(one.skip(1).take(m)[i - 1] == other.skip(1).take(m)[i - 1]);
            }
        }
        assert(one.take(m + 1) =~= other.take(m + 1));
        m + 1
    }
}

/// Where two orders part, the one that ends or goes on with the smaller place
/// precedes the other.
proof fn lemma_parts_precede(one: Seq<usize>, other: Seq<usize>, n: int)
    requires
        0 <= n <= one.len(),
        n < other.len(),
        one.take(n) == other.take(n),
        n == one.len() || one[n] < other[n],
    ensures
        precedes(one, other),
    decreases n,
{
    if n > 0 {
        assert(one[0] == one.take(n)[0] && other[0] == other.take(n)[0]);
        assert(one.skip(1).take(n - 1) =~= one.take(n).skip(1));
        assert(other.skip(1).take(n - 1) =~= other.take(n).skip(1));
        lemma_parts_precede(one.skip(1), other.skip(1), n - 1);
    }
}

/// A request names the sponsor, the address and the vault, all of them
/// writable. The sponsor signs always, the vault never, and the address where
/// it is created.
pub proof fn who_signs_a_request(operation: Operation, watched: Seq<Pubkey>)
    requires
        watched.len() == 5,
    ensures
        ({
            let metas = request_metas(operation, watched);
            &&& metas.len() == 3
            &&& forall|i: int|
                0 <= i < 3 ==> (#[trigger] metas[i]).pubkey == watched[i + 1]
                    && metas[i].is_writable
            &&& metas[0].is_signer
            &&& metas[1].is_signer <==> operation is Create
            &&& !metas[2].is_signer
        }),
{
}

/// Tampering with the accounts of a request touches one of them: it takes a
/// signature away, or puts the substitute in its place.
pub proof fn tampering_touches_one_account(
    tamper: Tamper,
    metas: Seq<AccountMeta>,
    watched: Seq<Pubkey>,
)
    requires
        metas.len() == 3,
        watched.len() == 5,
    ensures
        ({
            let after = tampered_metas(tamper, metas, watched);
            let place = match tamper {
                Tamper::UnsignedSponsor => 0int,
                Tamper::UnsignedAddress | Tamper::FundedAddress => 1,
                Tamper::SubstitutedVault => 2,
                _ => -1,
            };
            &&& after.len() == 3
            &&& forall|i: int| 0 <= i < 3 && i != place ==> #[trigger] after[i] == metas[i]
            &&& forall|i: int|
                0 <= i < 3 ==> (#[trigger] after[i]).is_writable == metas[i].is_writable
            &&& tamper is UnsignedSponsor || tamper is UnsignedAddress ==> !after[place].is_signer
                && after[place].pubkey == metas[place].pubkey
            &&& tamper is SubstitutedVault || tamper is FundedAddress ==> after[place].pubkey
                == watched[4] && after[place].is_signer == metas[place].is_signer
        }),
{
}

/// What tampering is expected to come to is what the model refuses for: a
/// foreign caller as the owner of an account that is not the caller's, an
/// address with lamports as one that cannot be created, and a missing
/// signature as such. Only a rollback fails at a later instruction.
pub proof fn tampering_fails_as_the_model_does(
    tamper: Tamper,
    action: Action,
    state: Seq<LedgerState>,
)
    ensures
        tamper is ForeignCaller && !(action.operation is Create) && exists_in(state)
            && state[TARGET as int].owner != action.caller ==> action.refusal(state) == Some(
            tamper_outcome(tamper).1,
        ),
        tamper is FundedAddress && action.operation is Create && state[TARGET as int].lamports != 0
            ==> action.refusal(state) == Some(tamper_outcome(tamper).1),
        tamper is UnsignedSponsor || tamper is UnsignedAddress <==> tamper_outcome(tamper).1
            == Reason::MissingRequiredSignature,
        tamper is TopLevel || tamper is Rollback <==> tamper_outcome(tamper).1
            == Reason::IncorrectProgramId,
        tamper is SubstitutedVault || tamper is FundedAddress <==> tamper_outcome(tamper).1
            == Reason::InvalidAccountData,
        tamper_outcome(tamper).0 == if tamper is Rollback {
            1int
        } else {
            0
        },
{
}

/// Every request is tampered with in all ways that concern it, once each:
/// signatures and funds of the address where it is created, a foreign caller
/// where it exists, and everything else in either case.
pub proof fn every_tamper_that_concerns_is_tried(action: Action, tamper: Tamper)
    ensures
        tampers_of(action.operation).contains(tamper) <==> match tamper {
            Tamper::UnsignedAddress | Tamper::FundedAddress => action.operation is Create,
            Tamper::ForeignCaller => !(action.operation is Create),
            _ => true,
        },
        tampers_of(action.operation).no_duplicates(),
        tampered_trials(action).len() == tampers_of(action.operation).len(),
        forall|i: int|
            0 <= i < tampered_trials(action).len() ==> #[trigger] tampered_trials(action)[i] == (
            Trial::Tampered { action, tamper: tampers_of(action.operation)[i] }),
{
    let all = tampers_of(action.operation);
    if action.operation is Create {
        assert(all[0] == Tamper::UnsignedSponsor && all[1] == Tamper::SubstitutedVault && all[2]
            == Tamper::TopLevel && all[3] == Tamper::UnsignedAddress && all[4]
            == Tamper::FundedAddress && all[5] == Tamper::Rollback);
    } else {
        assert(all[0] == Tamper::UnsignedSponsor && all[1] == Tamper::SubstitutedVault && all[2]
            == Tamper::TopLevel && all[3] == Tamper::ForeignCaller && all[4] == Tamper::Rollback);
    }
}

/// The script tampers with a creation, a resize and a closing in every way.
pub proof fn the_script_tampers_with_everything(own: Pubkey, foreign: Pubkey, tamper: Tamper)
    ensures
        tampers_of(creation(own, 32, 0).operation).contains(tamper) ==> script_of(
            own,
            foreign,
        ).contains(Trial::Tampered { action: creation(own, 32, 0), tamper }),
        tampers_of(sizing(own, 96, 0).operation).contains(tamper) ==> script_of(
            own,
            foreign,
        ).contains(Trial::Tampered { action: sizing(own, 96, 0), tamper }),
        tampers_of(closing(own).operation).contains(tamper) ==> script_of(own, foreign).contains(
            Trial::Tampered { action: closing(own), tamper },
        ),
{
    let script = script_of(own, foreign);
    let one = creation_trials(own);
    let two = sizing_trials(own);
    let three = closing_trials(own);
    if tampers_of(creation(own, 32, 0).operation).contains(tamper) {
        let all = tampers_of(creation(own, 32, 0).operation);
        let i = choose|i: int| 0 <= i < all.len() && all[i] == tamper;
        assert(script[i] == one[i]);
        assert(one[i] == tampered_trials(creation(own, 32, 0))[i]);
    }
    if tampers_of(sizing(own, 96, 0).operation).contains(tamper) {
        let all = tampers_of(sizing(own, 96, 0).operation);
        let i = choose|i: int| 0 <= i < all.len() && all[i] == tamper;
        assert(script[one.len() + i] == two[i]);
        assert(two[i] == tampered_trials(sizing(own, 96, 0))[i]);
    }
    if tampers_of(closing(own).operation).contains(tamper) {
        let all = tampers_of(closing(own).operation);
        let i = choose|i: int| 0 <= i < all.len() && all[i] == tamper;
        assert(script[one.len() + two.len() + i] == three[i]);
        assert(three[i] == tampered_trials(closing(own))[i]);
    }
}

/// A request that is served takes effect: the ephemeral account becomes what
/// was asked for, the rent moves, the payer pays the fee, and no failure is
/// expected.
pub proof fn a_served_request_takes_effect(record: (Action, TxFacts), state: Seq<LedgerState>)
    requires
        state.len() == 5,
        record.0.refusal(state) is None,
        record.1.fee <= state[PAYER as int].lamports,
    ensures
        ({
            let after = stepped(record, state);
            let served = record.0.served(state);
            &&& expected_of(record.0, state).1 is None
            &&& after[PAYER as int].lamports + record.1.fee == state[PAYER as int].lamports
            &&& after[TARGET as int] == record.0.target_after(state[TARGET as int])
            &&& after[SPONSOR as int] == served[SPONSOR as int]
            &&& after[VAULT as int] == served[VAULT as int]
            &&& after[SUBSTITUTE as int] == state[SUBSTITUTE as int]
        }),
{
}

} // verus!
