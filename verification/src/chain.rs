//! The plain values that the programs and the suites exchange with a chain:
//! addresses, account metas, instructions, program errors and the accounts an
//! instruction is handed.
use crate::bytes::{copy_bytes, same_bytes};
use vstd::prelude::*;

verus! {

/// A 32-byte address.
#[derive(Clone, Copy, Debug)]
pub struct Pubkey {
    pub bytes: [u8; 32],
}

impl View for Pubkey {
    type V = Seq<u8>;

    open spec fn view(&self) -> Seq<u8> {
        self.bytes@
    }
}

/// Two addresses with the same bytes are the same address.
pub proof fn lemma_pubkey_ext(a: Pubkey, b: Pubkey)
    requires
        a@ == b@,
    ensures
        a == b,
{
    assert(a.bytes =~= b.bytes);
}

/// The address with the given bytes.
pub open spec fn key(bytes: [u8; 32]) -> Pubkey {
    Pubkey { bytes }
}

/// The address that has these bytes.
pub open spec fn address_of(bytes: Seq<u8>) -> Pubkey {
    choose|k: Pubkey| k@ == bytes
}

/// An address is the one that has its bytes.
pub proof fn lemma_address_of(k: Pubkey)
    ensures
        address_of(k@) == k,
{
    lemma_pubkey_ext(address_of(k@), k);
}

impl Pubkey {
    /// The address with the given bytes.
    pub fn new(bytes: [u8; 32]) -> (r: Pubkey)
        ensures
            r == key(bytes),
    {
        Pubkey { bytes }
    }

    /// The address as a byte string.
    pub fn as_bytes(&self) -> (r: &[u8])
        ensures
            r@ == self@,
    {
        self.bytes.as_slice()
    }

    /// Whether two addresses are the same.
    pub fn same(&self, other: &Pubkey) -> (r: bool)
        ensures
            r == (*self == *other),
    {
        let r: bool = same_bytes(self.bytes.as_slice(), other.bytes.as_slice());
        proof {
            if r {
                lemma_pubkey_ext(*self, *other);
            }
        }
        r
    }
}

/// How an instruction refers to an account.
#[derive(Clone, Copy, Debug)]
pub struct AccountMeta {
    pub pubkey: Pubkey,
    pub is_signer: bool,
    pub is_writable: bool,
}

/// A writable meta.
pub open spec fn writable(pubkey: Pubkey, is_signer: bool) -> AccountMeta {
    AccountMeta { pubkey, is_signer, is_writable: true }
}

/// A read-only meta.
pub open spec fn readonly(pubkey: Pubkey, is_signer: bool) -> AccountMeta {
    AccountMeta { pubkey, is_signer, is_writable: false }
}

impl AccountMeta {
    /// A writable account.
    pub fn new(pubkey: Pubkey, is_signer: bool) -> (r: AccountMeta)
        ensures
            r == writable(pubkey, is_signer),
    {
        AccountMeta { pubkey, is_signer, is_writable: true }
    }

    /// A read-only account.
    pub fn new_readonly(pubkey: Pubkey, is_signer: bool) -> (r: AccountMeta)
        ensures
            r == readonly(pubkey, is_signer),
    {
        AccountMeta { pubkey, is_signer, is_writable: false }
    }
}

/// The metas of several accounts that share their flags.
pub open spec fn metas_of(keys: Seq<Pubkey>, is_signer: bool, is_writable: bool) -> Seq<
    AccountMeta,
> {
    Seq::new(keys.len(), |i: int| AccountMeta { pubkey: keys[i], is_signer, is_writable })
}

/// Appends the metas of several accounts that share their flags.
pub fn push_metas(
    metas: &mut Vec<AccountMeta>,
    keys: &[Pubkey],
    is_signer: bool,
    is_writable: bool,
)
    ensures
        final(metas)@ == old(metas)@ + metas_of(keys@, is_signer, is_writable),
{
    let mut i: usize = 0;
    while i < keys.len()
        invariant
            i <= keys@.len(),
            metas@ == old(metas)@ + metas_of(keys@.take(i as int), is_signer, is_writable),
        decreases keys@.len() - i,
    {
        metas.push(AccountMeta { pubkey: keys[i], is_signer, is_writable });
        i = i + 1;
        assert(metas@ =~= old(metas)@ + metas_of(keys@.take(i as int), is_signer, is_writable));
    }
    assert(keys@.take(i as int) =~= keys@);
}

/// An instruction as the chain takes it.
#[derive(Clone, Debug)]
pub struct SolanaInstruction {
    pub program_id: Pubkey,
    pub accounts: Vec<AccountMeta>,
    pub data: Vec<u8>,
}

impl SolanaInstruction {
    /// Whether this is the instruction with the given program, metas and data.
    pub open spec fn is(&self, program_id: Pubkey, accounts: Seq<AccountMeta>, data: Seq<u8>) -> bool {
        &&& self.program_id == program_id
        &&& self.accounts@ == accounts
        &&& self.data@ == data
    }
}

/// What an instruction asks for.
#[verifier::ext_equal]
pub struct InstructionState {
    pub program_id: Pubkey,
    pub accounts: Seq<AccountMeta>,
    pub data: Seq<u8>,
}

impl View for SolanaInstruction {
    type V = InstructionState;

    open spec fn view(&self) -> InstructionState {
        InstructionState {
            program_id: self.program_id,
            accounts: self.accounts@,
            data: self.data@,
        }
    }
}

/// What several instructions ask for.
pub open spec fn instruction_states(instructions: Seq<SolanaInstruction>) -> Seq<InstructionState> {
    Seq::new(instructions.len(), |i: int| instructions[i]@)
}

/// Why a program refuses an instruction.
#[derive(Clone, Copy, Debug, PartialEq, Eq, Structural)]
pub enum ProgramError {
    Custom(u32),
    InvalidArgument,
    InvalidInstructionData,
    InvalidAccountData,
    MissingRequiredSignature,
    UninitializedAccount,
    NotEnoughAccountKeys,
    AccountBorrowFailed,
    InvalidSeeds,
    BorshIoError,
    InvalidAccountOwner,
    ArithmeticOverflow,
    IncorrectProgramId,
    IncorrectAuthority,
}

/// One account of the ledger.
#[derive(Clone, Debug)]
pub struct Account {
    pub key: Pubkey,
    pub owner: Pubkey,
    pub is_signer: bool,
    pub is_writable: bool,
    pub lamports: u64,
    pub data: Vec<u8>,
}

/// What an account holds.
#[verifier::ext_equal]
pub struct AccountState {
    pub key: Pubkey,
    pub owner: Pubkey,
    pub is_signer: bool,
    pub is_writable: bool,
    pub lamports: u64,
    pub data: Seq<u8>,
}

impl View for Account {
    type V = AccountState;

    open spec fn view(&self) -> AccountState {
        AccountState {
            key: self.key,
            owner: self.owner,
            is_signer: self.is_signer,
            is_writable: self.is_writable,
            lamports: self.lamports,
            data: self.data@,
        }
    }
}

impl AccountState {
    /// The account with other data.
    pub open spec fn with_data(self, data: Seq<u8>) -> AccountState {
        AccountState { data, ..self }
    }
}

/// The accounts that an instruction is handed. An instruction may list an
/// account more than once: every position of `refs` names an account of
/// `store`, and positions that name the same account see the same bytes.
#[derive(Clone, Debug)]
pub struct Accounts {
    pub store: Vec<Account>,
    pub refs: Vec<usize>,
}

impl View for Accounts {
    type V = Seq<AccountState>;

    /// What the distinct accounts hold.
    open spec fn view(&self) -> Seq<AccountState> {
        Seq::new(self.store@.len(), |i: int| self.store@[i]@)
    }
}

impl Accounts {
    /// Every position names an account.
    pub open spec fn wf(&self) -> bool {
        forall|i: int| 0 <= i < self.refs@.len() ==> (#[trigger] self.refs@[i]) < self.store@.len()
    }

    /// The number of positions.
    pub open spec fn count(&self) -> nat {
        self.refs@.len()
    }

    /// What the account at a position holds.
    pub open spec fn at(&self, i: int) -> AccountState {
        self@[self.refs@[i] as int]
    }

    /// The addresses at the positions from `from` on.
    pub open spec fn keys_from(&self, from: int) -> Seq<Pubkey> {
        Seq::new((self.count() - from) as nat, |i: int| self.at(from + i).key)
    }

    /// The number of positions.
    pub fn len(&self) -> (r: usize)
        ensures
            r == self.count(),
    {
        self.refs.len()
    }

    /// The account at a position.
    pub fn get(&self, i: usize) -> (r: &Account)
        requires
            self.wf(),
            i < self.count(),
        ensures
            r@ == self.at(i as int),
    {
        &self.store[self.refs[i]]
    }

    /// Replaces the data of the account at a position.
    pub fn set_data(&mut self, i: usize, data: Vec<u8>)
        requires
            old(self).wf(),
            i < old(self).count(),
        ensures
            final(self).wf(),
            final(self).refs@ == old(self).refs@,
            final(self)@ == old(self)@.update(
                old(self).refs@[i as int] as int,
                old(self).at(i as int).with_data(data@),
            ),
    {
        let index: usize = self.refs[i];
        let account = &self.store[index];
        let replaced = Account {
            key: account.key,
            owner: account.owner,
            is_signer: account.is_signer,
            is_writable: account.is_writable,
            lamports: account.lamports,
            data,
        };
        self.store.set(index, replaced);
        assert(self@ =~= old(self)@.update(
            index as int,
            old(self).at(i as int).with_data(data@),
        ));
    }

    /// Replaces the balance of the account at a position.
    pub fn set_lamports(&mut self, i: usize, lamports: u64)
        requires
            old(self).wf(),
            i < old(self).count(),
        ensures
            final(self).wf(),
            final(self).refs@ == old(self).refs@,
            final(self)@ == old(self)@.update(
                old(self).refs@[i as int] as int,
                AccountState { lamports, ..old(self).at(i as int) },
            ),
    {
        let index: usize = self.refs[i];
        let account = &self.store[index];
        let replaced = Account {
            key: account.key,
            owner: account.owner,
            is_signer: account.is_signer,
            is_writable: account.is_writable,
            lamports,
            data: copy_bytes(account.data.as_slice()),
        };
        self.store.set(index, replaced);
        assert(self@ =~= old(self)@.update(
            index as int,
            AccountState { lamports, ..old(self).at(i as int) },
        ));
    }

    /// Empties the account at a position and hands it to another owner.
    pub fn release(&mut self, i: usize, owner: Pubkey)
        requires
            old(self).wf(),
            i < old(self).count(),
        ensures
            final(self).wf(),
            final(self).refs@ == old(self).refs@,
            final(self)@ == old(self)@.update(
                old(self).refs@[i as int] as int,
                AccountState { owner, data: Seq::empty(), ..old(self).at(i as int) },
            ),
    {
        let index: usize = self.refs[i];
        let account = &self.store[index];
        let replaced = Account {
            key: account.key,
            owner,
            is_signer: account.is_signer,
            is_writable: account.is_writable,
            lamports: account.lamports,
            data: Vec::new(),
        };
        self.store.set(index, replaced);
        assert(self@ =~= old(self)@.update(
            index as int,
            AccountState { owner, data: Seq::empty(), ..old(self).at(i as int) },
        ));
    }

    /// The same positions with accounts of their own.
    pub fn copy(&self) -> (r: Accounts)
        ensures
            r@ == self@,
            r.refs@ == self.refs@,
    {
        let mut store: Vec<Account> = Vec::new();
        let mut i: usize = 0;
        while i < self.store.len()
            invariant
                i <= self.store@.len(),
                store@.len() == i,
                forall|j: int| 0 <= j < i ==> (#[trigger] store@[j])@ == self.store@[j]@,
            decreases self.store@.len() - i,
        {
            let account = &self.store[i];
            store.push(
                Account {
                    key: account.key,
                    owner: account.owner,
                    is_signer: account.is_signer,
                    is_writable: account.is_writable,
                    lamports: account.lamports,
                    data: copy_bytes(account.data.as_slice()),
                },
            );
            i = i + 1;
        }
        let mut refs: Vec<usize> = Vec::new();
        let mut i: usize = 0;
        while i < self.refs.len()
            invariant
                i <= self.refs@.len(),
                refs@ == self.refs@.take(i as int),
            decreases self.refs@.len() - i,
        {
            refs.push(self.refs[i]);
            i = i + 1;
            assert(refs@ =~= self.refs@.take(i as int));
        }
        assert(refs@ =~= self.refs@);
        let copied = Accounts { store, refs };
        assert(copied@ =~= self@);
        copied
    }

    /// The positions from `from` on.
    pub fn positions_from(&self, from: usize) -> (r: Vec<usize>)
        ensures
            r@ == positions(from as int, self.count() as int),
    {
        let mut out: Vec<usize> = Vec::new();
        let mut i: usize = from;
        while i < self.refs.len()
            invariant
                from <= i,
                i <= self.refs@.len() || i == from,
                out@ == positions(from as int, i as int),
            decreases self.refs@.len() - i,
        {
            out.push(i);
            i = i + 1;
            assert(out@ =~= positions(from as int, i as int));
        }
        assert(out@ =~= positions(from as int, self.count() as int));
        out
    }
}

/// The positions from `from` up to `to`.
pub open spec fn positions(from: int, to: int) -> Seq<usize> {
    Seq::new(
        if from <= to {
            (to - from) as nat
        } else {
            0
        },
        |i: int| (from + i) as usize,
    )
}

/// A copy of some addresses.
pub fn copy_keys(keys: &[Pubkey]) -> (r: Vec<Pubkey>)
    ensures
        r@ == keys@,
{
    let mut out: Vec<Pubkey> = Vec::new();
    let mut i: usize = 0;
    while i < keys.len()
        invariant
            i <= keys@.len(),
            out@ == keys@.take(i as int),
        decreases keys@.len() - i,
    {
        out.push(keys[i]);
        i = i + 1;
        assert(out@ =~= keys@.take(i as int));
    }
    assert(out@ =~= keys@);
    out
}

} // verus!
