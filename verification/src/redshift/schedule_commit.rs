//! Counters and order books: their instructions, what a counter holds, and
//! the addresses that both live at.
use crate::address::{address_in, found_address};
use crate::bytes::{append_bytes, array_32, copy_bytes, from_le64, le64, lemma_le64, read_u64, u64_bytes};
use crate::chain::{address_of, copy_keys, key, lemma_address_of, Pubkey};
use crate::delegation::find_tagged;
use crate::fields::{
    are_of, bytes_tell_the_fields, copy_levels, fields_format, lemma_read_kinds, read_values, views,
    write_values, Field, Kind, Value,
};
use crate::redshift::order_book::BookUpdate;
use crate::redshift::ID;
use vstd::prelude::*;
use vstd::slice::slice_subrange;

verus! {

/// The count that makes the return of a counter fail.
pub const FAIL_UNDELEGATION_COUNT: u64 = 0xffff_ffff_ffff_fffe;

/// The seed of counters: `magic_schedule_commit`.
pub const PDA_SEED: [u8; 21] = [
    109, 97, 103, 105, 99, 95, 115, 99, 104, 101, 100, 117, 108, 101, 95, 99, 111, 109, 109, 105, 116,
];

/// The seed of order books: `order_book`.
pub const ORDER_BOOK_SEED: [u8; 10] = [
    111, 114, 100, 101, 114, 95, 98, 111, 111, 107,
];

/// The bytes that an order book starts out with.
pub const ORDER_BOOK_INIT_SIZE: usize = 10240;

/// The instruction of the magic program that schedules a commit.
pub const MAGIC_SCHEDULE_COMMIT_TAG: u32 = 1;

/// The instruction of the magic program that schedules a commit and a return.
pub const MAGIC_SCHEDULE_COMMIT_AND_UNDELEGATE_TAG: u32 = 2;

/// The instruction of the delegation program that requests a return.
pub const DLP_REQUEST_UNDELEGATION_TAG: u64 = 26;

/// The instruction of the system program that transfers lamports.
pub const SYSTEM_TRANSFER_TAG: u32 = 2;

/// What a counter holds.
#[derive(Clone, Copy, Debug)]
pub struct MainAccount {
    pub player: Pubkey,
    pub count: u64,
}

/// The bytes of a counter.
pub const MAIN_ACCOUNT_SIZE: usize = 40;

impl MainAccount {
    /// The bytes of the counter: the player and the count.
    pub open spec fn encoding(self) -> Seq<u8> {
        self.player@ + le64(self.count)
    }

    /// The counter that bytes hold; `None` exactly if their number is not that
    /// of a counter.
    pub open spec fn decoded(data: Seq<u8>) -> Option<MainAccount> {
        if data.len() == MAIN_ACCOUNT_SIZE {
            Some(
                MainAccount {
                    player: address_of(data.subrange(0, 32)),
                    count: from_le64(data.subrange(32, 40)),
                },
            )
        } else {
            None
        }
    }

    /// Reads a counter.
    pub fn decode(data: &[u8]) -> (r: Option<MainAccount>)
        ensures
            r == Self::decoded(data@),
    {
        if data.len() != MAIN_ACCOUNT_SIZE {
            return None;
        }
        let window = slice_subrange(data, 0, 32);
        let player = Pubkey::new(array_32(window));
        proof {
            assert(player@ =~= data@.subrange(0, 32));
            lemma_address_of(player);
        }
        Some(MainAccount { player, count: read_u64(data, 32) })
    }

    /// The bytes of the counter.
    pub fn encode(&self) -> (r: Vec<u8>)
        ensures
            r@ == self.encoding(),
            r@.len() == MAIN_ACCOUNT_SIZE,
    {
        proof {
            lemma_le64();
        }
        let mut out: Vec<u8> = copy_bytes(self.player.as_bytes());
        append_bytes(&mut out, u64_bytes(self.count).as_slice());
        out
    }
}

/// A counter that was written reads back, and bytes that were read are
/// written back.
pub proof fn counters_read_back(counter: MainAccount, data: Seq<u8>)
    ensures
        MainAccount::decoded(counter.encoding()) == Some(counter),
        MainAccount::decoded(data) matches Some(found) ==> found.encoding() == data,
{
    lemma_le64();
    let bytes = counter.encoding();
    assert(bytes.subrange(0, 32) =~= counter.player@);
    assert(bytes.subrange(32, 40) =~= le64(counter.count));
    lemma_address_of(counter.player);
    if data.len() == MAIN_ACCOUNT_SIZE {
        let player = address_of(data.subrange(0, 32));
        lemma_bytes_make_an_address(data.subrange(0, 32));
        assert(player@ + le64(from_le64(data.subrange(32, 40))) =~= data);
    }
}

/// Thirty-two bytes are the bytes of an address.
proof fn lemma_bytes_make_an_address(bytes: Seq<u8>)
    requires
        bytes.len() == 32,
    ensures
        address_of(bytes)@ == bytes,
{
    let k = key(
        [
            bytes[0], bytes[1], bytes[2], bytes[3], bytes[4], bytes[5], bytes[6], bytes[7], bytes[8], bytes[9], bytes[10], bytes[11], bytes[12], bytes[13], bytes[14], bytes[15], bytes[16], bytes[17], bytes[18], bytes[19], bytes[20], bytes[21], bytes[22], bytes[23], bytes[24], bytes[25], bytes[26], bytes[27], bytes[28], bytes[29], bytes[30], bytes[31],
        ],
    );
    assert(k@ =~= bytes);
    lemma_address_of(k);
}

/// How a commit is scheduled.
#[derive(Clone, Copy, Debug, PartialEq, Eq, Structural)]
pub enum ScheduleCommitType {
    Commit,
    CommitAndUndelegate,
    CommitFinalize,
    CommitFinalizeAndUndelegate,
}

impl ScheduleCommitType {
    /// The number of the variant.
    pub open spec fn index(self) -> u8 {
        match self {
            ScheduleCommitType::Commit => 0,
            ScheduleCommitType::CommitAndUndelegate => 1,
            ScheduleCommitType::CommitFinalize => 2,
            ScheduleCommitType::CommitFinalizeAndUndelegate => 3,
        }
    }

    /// The number of the variant.
    pub fn number(self) -> (r: u8)
        ensures
            r == self.index(),
    {
        match self {
            ScheduleCommitType::Commit => 0,
            ScheduleCommitType::CommitAndUndelegate => 1,
            ScheduleCommitType::CommitFinalize => 2,
            ScheduleCommitType::CommitFinalizeAndUndelegate => 3,
        }
    }

    /// The variant with a number.
    pub fn from_number(number: u8) -> (r: ScheduleCommitType)
        requires
            number < 4,
        ensures
            r.index() == number,
    {
        match number {
            0 => ScheduleCommitType::Commit,
            1 => ScheduleCommitType::CommitAndUndelegate,
            2 => ScheduleCommitType::CommitFinalize,
            _ => ScheduleCommitType::CommitFinalizeAndUndelegate,
        }
    }
}

/// How a counter is delegated.
#[derive(Clone, Copy, Debug)]
pub struct DelegateCpiArgs {
    pub valid_until: i64,
    pub commit_frequency_ms: u32,
    pub player: Pubkey,
    pub validator: Option<Pubkey>,
}

/// How counters are committed.
#[derive(Clone, Debug)]
pub struct ScheduleCommitCpiArgs {
    pub players: Vec<Pubkey>,
    pub modify_accounts: bool,
    pub commit_payer: bool,
    pub has_magic_vault: bool,
}

/// How counters are committed, and maybe returned.
#[derive(Clone, Debug)]
pub struct ScheduleCommitCpiWithVaultArgs {
    pub players: Vec<Pubkey>,
    pub undelegate: bool,
    pub has_magic_vault: bool,
}

/// How an order book is delegated.
#[derive(Clone, Copy, Debug)]
pub struct DelegateOrderBookArgs {
    pub commit_frequency_ms: u32,
    pub book_manager: Pubkey,
    pub validator: Option<Pubkey>,
}

/// How counters are committed next to an order book.
#[derive(Clone, Debug)]
pub struct ScheduleCommitWithOrderBookArgs {
    pub players: Vec<Pubkey>,
    pub with_actions: bool,
}

/// The instructions on counters and order books.
#[derive(Clone, Debug)]
pub enum ScheduleCommitInstruction {
    Init,
    DelegateCpi(DelegateCpiArgs),
    ScheduleCommitCpi(ScheduleCommitCpiArgs, ScheduleCommitType),
    ScheduleCommitWithVaultCpi(ScheduleCommitCpiWithVaultArgs),
    ScheduleCommitAndUndelegateCpiModAfter(Vec<Pubkey>),
    ScheduleCommitAndUndelegateCpiTwice(Vec<Pubkey>),
    IncreaseCount,
    SetCount(u64),
    InitOrderBook,
    GrowOrderBook(u64),
    DelegateOrderBook(DelegateOrderBookArgs),
    UpdateOrderBook(BookUpdate),
    ScheduleCommitWithVaultAndOrderBookCpi(ScheduleCommitWithOrderBookArgs),
    ScheduleCommitForOrderBook(ScheduleCommitType),
    RequestUndelegationCpi(Pubkey),
}

impl ScheduleCommitInstruction {
    /// The number of the variant.
    pub open spec fn tag(self) -> u8 {
        match self {
            ScheduleCommitInstruction::Init => 0,
            ScheduleCommitInstruction::DelegateCpi(_) => 1,
            ScheduleCommitInstruction::ScheduleCommitCpi(..) => 2,
            ScheduleCommitInstruction::ScheduleCommitWithVaultCpi(_) => 3,
            ScheduleCommitInstruction::ScheduleCommitAndUndelegateCpiModAfter(..) => 4,
            ScheduleCommitInstruction::ScheduleCommitAndUndelegateCpiTwice(..) => 5,
            ScheduleCommitInstruction::IncreaseCount => 6,
            ScheduleCommitInstruction::SetCount(..) => 7,
            ScheduleCommitInstruction::InitOrderBook => 8,
            ScheduleCommitInstruction::GrowOrderBook(..) => 9,
            ScheduleCommitInstruction::DelegateOrderBook(_) => 10,
            ScheduleCommitInstruction::UpdateOrderBook(_) => 11,
            ScheduleCommitInstruction::ScheduleCommitWithVaultAndOrderBookCpi(_) => 12,
            ScheduleCommitInstruction::ScheduleCommitForOrderBook(..) => 13,
            ScheduleCommitInstruction::RequestUndelegationCpi(..) => 14,
        }
    }

    /// What the fields hold, in order.
    pub open spec fn fields(self) -> Seq<Field> {
        match self {
            ScheduleCommitInstruction::Init => Seq::empty(),
            ScheduleCommitInstruction::DelegateCpi(args) => seq![
                Field::I64(args.valid_until),
                Field::U32(args.commit_frequency_ms),
                Field::Key(args.player),
                Field::OptionalKey(args.validator),
            ],
            ScheduleCommitInstruction::ScheduleCommitCpi(args, commit_type) => seq![
                Field::Keys(args.players@),
                Field::Bool(args.modify_accounts),
                Field::Bool(args.commit_payer),
                Field::Bool(args.has_magic_vault),
                Field::Choice { value: commit_type.index(), of: 4 },
            ],
            ScheduleCommitInstruction::ScheduleCommitWithVaultCpi(args) => seq![
                Field::Keys(args.players@),
                Field::Bool(args.undelegate),
                Field::Bool(args.has_magic_vault),
            ],
            ScheduleCommitInstruction::ScheduleCommitAndUndelegateCpiModAfter(players) => seq![
                Field::Keys(players@),
            ],
            ScheduleCommitInstruction::ScheduleCommitAndUndelegateCpiTwice(players) => seq![
                Field::Keys(players@),
            ],
            ScheduleCommitInstruction::IncreaseCount => Seq::empty(),
            ScheduleCommitInstruction::SetCount(value) => seq![
                Field::U64(value),
            ],
            ScheduleCommitInstruction::InitOrderBook => Seq::empty(),
            ScheduleCommitInstruction::GrowOrderBook(additional_space) => seq![
                Field::U64(additional_space),
            ],
            ScheduleCommitInstruction::DelegateOrderBook(args) => seq![
                Field::U32(args.commit_frequency_ms),
                Field::Key(args.book_manager),
                Field::OptionalKey(args.validator),
            ],
            ScheduleCommitInstruction::UpdateOrderBook(args) => seq![
                Field::Levels(args.bids@),
                Field::Levels(args.asks@),
            ],
            ScheduleCommitInstruction::ScheduleCommitWithVaultAndOrderBookCpi(args) => seq![
                Field::Keys(args.players@),
                Field::Bool(args.with_actions),
            ],
            ScheduleCommitInstruction::ScheduleCommitForOrderBook(commit_type) => seq![
                Field::Choice { value: commit_type.index(), of: 4 },
            ],
            ScheduleCommitInstruction::RequestUndelegationCpi(player) => seq![
                Field::Key(player),
            ],
        }
    }

    /// The kinds of the fields of a variant; `None` where there is no such
    /// variant.
    pub open spec fn kinds_of(tag: u8) -> Option<Seq<Kind>> {
        if tag == 0 {
            Some(Seq::empty())
        } else if tag == 1 {
            Some(seq![Kind::I64, Kind::U32, Kind::Key, Kind::OptionalKey])
        } else if tag == 2 {
            Some(seq![Kind::Keys, Kind::Bool, Kind::Bool, Kind::Bool, Kind::Choice { of: 4 }])
        } else if tag == 3 {
            Some(seq![Kind::Keys, Kind::Bool, Kind::Bool])
        } else if tag == 4 {
            Some(seq![Kind::Keys])
        } else if tag == 5 {
            Some(seq![Kind::Keys])
        } else if tag == 6 {
            Some(Seq::empty())
        } else if tag == 7 {
            Some(seq![Kind::U64])
        } else if tag == 8 {
            Some(Seq::empty())
        } else if tag == 9 {
            Some(seq![Kind::U64])
        } else if tag == 10 {
            Some(seq![Kind::U32, Kind::Key, Kind::OptionalKey])
        } else if tag == 11 {
            Some(seq![Kind::Levels, Kind::Levels])
        } else if tag == 12 {
            Some(seq![Kind::Keys, Kind::Bool])
        } else if tag == 13 {
            Some(seq![Kind::Choice { of: 4 }])
        } else if tag == 14 {
            Some(seq![Kind::Key])
        } else {
            None
        }
    }

    /// Whether the lengths of all fields can be written down.
    pub open spec fn fits(self) -> bool {
        forall|i: int| 0 <= i < self.fields().len() ==> (#[trigger] self.fields()[i]).fits()
    }

    /// The bytes of the instruction: its number and its fields.
    pub open spec fn encoding(self) -> Seq<u8> {
        seq![self.tag()] + fields_format(self.fields())
    }

    /// The fields are of the kinds of the variant.
    proof fn lemma_kinds(self)
        requires
            self.fits(),
        ensures
            Self::kinds_of(self.tag()) is Some,
            are_of(self.fields(), Self::kinds_of(self.tag())->0),
    {
    }

    /// The number of the variant.
    fn number(&self) -> (r: u8)
        ensures
            r == self.tag(),
    {
        match self {
            ScheduleCommitInstruction::Init => 0,
            ScheduleCommitInstruction::DelegateCpi(_) => 1,
            ScheduleCommitInstruction::ScheduleCommitCpi(..) => 2,
            ScheduleCommitInstruction::ScheduleCommitWithVaultCpi(_) => 3,
            ScheduleCommitInstruction::ScheduleCommitAndUndelegateCpiModAfter(..) => 4,
            ScheduleCommitInstruction::ScheduleCommitAndUndelegateCpiTwice(..) => 5,
            ScheduleCommitInstruction::IncreaseCount => 6,
            ScheduleCommitInstruction::SetCount(..) => 7,
            ScheduleCommitInstruction::InitOrderBook => 8,
            ScheduleCommitInstruction::GrowOrderBook(..) => 9,
            ScheduleCommitInstruction::DelegateOrderBook(_) => 10,
            ScheduleCommitInstruction::UpdateOrderBook(_) => 11,
            ScheduleCommitInstruction::ScheduleCommitWithVaultAndOrderBookCpi(_) => 12,
            ScheduleCommitInstruction::ScheduleCommitForOrderBook(..) => 13,
            ScheduleCommitInstruction::RequestUndelegationCpi(..) => 14,
        }
    }

    /// The fields, in order.
    fn values(&self) -> (r: Vec<Value>)
        ensures
            views(r@) == self.fields(),
    {
        let r: Vec<Value> = match self {
            ScheduleCommitInstruction::Init => Vec::new(),
            ScheduleCommitInstruction::DelegateCpi(args) => vec![
                Value::I64(args.valid_until),
                Value::U32(args.commit_frequency_ms),
                Value::Key(args.player),
                Value::OptionalKey(args.validator),
            ],
            ScheduleCommitInstruction::ScheduleCommitCpi(args, commit_type) => vec![
                Value::Keys(copy_keys(args.players.as_slice())),
                Value::Bool(args.modify_accounts),
                Value::Bool(args.commit_payer),
                Value::Bool(args.has_magic_vault),
                Value::Choice { value: commit_type.number(), of: 4 },
            ],
            ScheduleCommitInstruction::ScheduleCommitWithVaultCpi(args) => vec![
                Value::Keys(copy_keys(args.players.as_slice())),
                Value::Bool(args.undelegate),
                Value::Bool(args.has_magic_vault),
            ],
            ScheduleCommitInstruction::ScheduleCommitAndUndelegateCpiModAfter(players) => vec![
                Value::Keys(copy_keys(players.as_slice())),
            ],
            ScheduleCommitInstruction::ScheduleCommitAndUndelegateCpiTwice(players) => vec![
                Value::Keys(copy_keys(players.as_slice())),
            ],
            ScheduleCommitInstruction::IncreaseCount => Vec::new(),
            ScheduleCommitInstruction::SetCount(value) => vec![
                Value::U64(*value),
            ],
            ScheduleCommitInstruction::InitOrderBook => Vec::new(),
            ScheduleCommitInstruction::GrowOrderBook(additional_space) => vec![
                Value::U64(*additional_space),
            ],
            ScheduleCommitInstruction::DelegateOrderBook(args) => vec![
                Value::U32(args.commit_frequency_ms),
                Value::Key(args.book_manager),
                Value::OptionalKey(args.validator),
            ],
            ScheduleCommitInstruction::UpdateOrderBook(args) => vec![
                Value::Levels(copy_levels(args.bids.as_slice())),
                Value::Levels(copy_levels(args.asks.as_slice())),
            ],
            ScheduleCommitInstruction::ScheduleCommitWithVaultAndOrderBookCpi(args) => vec![
                Value::Keys(copy_keys(args.players.as_slice())),
                Value::Bool(args.with_actions),
            ],
            ScheduleCommitInstruction::ScheduleCommitForOrderBook(commit_type) => vec![
                Value::Choice { value: commit_type.number(), of: 4 },
            ],
            ScheduleCommitInstruction::RequestUndelegationCpi(player) => vec![
                Value::Key(*player),
            ],
        };
        assert(views(r@) =~= self.fields());
        r
    }

    /// The kinds of the fields of a variant.
    fn kinds(tag: u8) -> (r: Option<Vec<Kind>>)
        ensures
            match r {
                Some(kinds) => Self::kinds_of(tag) == Some(kinds@),
                None => Self::kinds_of(tag) is None,
            },
    {
        let r: Option<Vec<Kind>> = match tag {
            0 => Some(Vec::new()),
            1 => Some(vec![Kind::I64, Kind::U32, Kind::Key, Kind::OptionalKey]),
            2 => Some(vec![Kind::Keys, Kind::Bool, Kind::Bool, Kind::Bool, Kind::Choice { of: 4 }]),
            3 => Some(vec![Kind::Keys, Kind::Bool, Kind::Bool]),
            4 => Some(vec![Kind::Keys]),
            5 => Some(vec![Kind::Keys]),
            6 => Some(Vec::new()),
            7 => Some(vec![Kind::U64]),
            8 => Some(Vec::new()),
            9 => Some(vec![Kind::U64]),
            10 => Some(vec![Kind::U32, Kind::Key, Kind::OptionalKey]),
            11 => Some(vec![Kind::Levels, Kind::Levels]),
            12 => Some(vec![Kind::Keys, Kind::Bool]),
            13 => Some(vec![Kind::Choice { of: 4 }]),
            14 => Some(vec![Kind::Key]),
            _ => None,
        };
        proof {
            if r is Some {
                assert(r->0@ =~= Self::kinds_of(tag)->0);
            }
        }
        r
    }

    /// The instruction with these fields.
    fn from_values(tag: u8, values: &[Value]) -> (r: Self)
        requires
            Self::kinds_of(tag) is Some,
            are_of(views(values@), Self::kinds_of(tag)->0),
        ensures
            r.tag() == tag,
            r.fields() == views(values@),
    {
        proof {
            lemma_read_kinds(values@, Self::kinds_of(tag)->0);
        }
        let r: Self = match tag {
            0 => ScheduleCommitInstruction::Init,
            1 => ScheduleCommitInstruction::DelegateCpi(
                DelegateCpiArgs {
                    valid_until: values[0].get_i64(),
                    commit_frequency_ms: values[1].get_u32(),
                    player: values[2].get_key(),
                    validator: values[3].get_optional_key(),
                },
            ),
            2 => ScheduleCommitInstruction::ScheduleCommitCpi(
                ScheduleCommitCpiArgs {
                    players: values[0].get_keys(),
                    modify_accounts: values[1].get_bool(),
                    commit_payer: values[2].get_bool(),
                    has_magic_vault: values[3].get_bool(),
                },
                ScheduleCommitType::from_number(values[4].get_choice()),
            ),
            3 => ScheduleCommitInstruction::ScheduleCommitWithVaultCpi(
                ScheduleCommitCpiWithVaultArgs {
                    players: values[0].get_keys(),
                    undelegate: values[1].get_bool(),
                    has_magic_vault: values[2].get_bool(),
                },
            ),
            4 => ScheduleCommitInstruction::ScheduleCommitAndUndelegateCpiModAfter(values[0].get_keys()),
            5 => ScheduleCommitInstruction::ScheduleCommitAndUndelegateCpiTwice(values[0].get_keys()),
            6 => ScheduleCommitInstruction::IncreaseCount,
            7 => ScheduleCommitInstruction::SetCount(values[0].get_u64()),
            8 => ScheduleCommitInstruction::InitOrderBook,
            9 => ScheduleCommitInstruction::GrowOrderBook(values[0].get_u64()),
            10 => ScheduleCommitInstruction::DelegateOrderBook(
                DelegateOrderBookArgs {
                    commit_frequency_ms: values[0].get_u32(),
                    book_manager: values[1].get_key(),
                    validator: values[2].get_optional_key(),
                },
            ),
            11 => ScheduleCommitInstruction::UpdateOrderBook(
                BookUpdate {
                    bids: values[0].get_levels(),
                    asks: values[1].get_levels(),
                },
            ),
            12 => ScheduleCommitInstruction::ScheduleCommitWithVaultAndOrderBookCpi(
                ScheduleCommitWithOrderBookArgs {
                    players: values[0].get_keys(),
                    with_actions: values[1].get_bool(),
                },
            ),
            13 => ScheduleCommitInstruction::ScheduleCommitForOrderBook(ScheduleCommitType::from_number(values[0].get_choice())),
            _ => ScheduleCommitInstruction::RequestUndelegationCpi(values[0].get_key()),
        };
        assert(r.fields() =~= views(values@));
        r
    }

    /// The bytes of the instruction.
    pub fn encode(&self) -> (r: Vec<u8>)
        requires
            self.fits(),
        ensures
            r@ == self.encoding(),
    {
        let values: Vec<Value> = self.values();
        proof {
            assert forall|i: int| 0 <= i < values@.len() implies (#[trigger] values@[i])@.fits() by {
                assert(self.fields()[i] == values@[i]@);
            }
        }
        write_values(self.number(), values.as_slice())
    }

    /// Reads an instruction; `None` exactly if these are the bytes of none.
    pub fn decode(data: &[u8]) -> (r: Option<Self>)
        ensures
            match r {
                Some(ix) => ix.fits() && data@ == ix.encoding(),
                None => forall|ix: Self| ix.fits() ==> data@ != #[trigger] ix.encoding(),
            },
    {
        if data.len() == 0 {
            return None;
        }
        let tag: u8 = data[0];
        let rest = slice_subrange(data, 1, data.len());
        proof {
            assert forall|ix: Self| ix.fits() && data@ == #[trigger] ix.encoding() implies ix.tag()
                == tag && rest@ == fields_format(ix.fields()) by {
                assert(ix.encoding()[0] == ix.tag());
                assert(rest@ =~= fields_format(ix.fields()));
            }
        }
        let kinds: Vec<Kind> = match Self::kinds(tag) {
            Some(kinds) => kinds,
            None => {
                proof {
                    assert forall|ix: Self| ix.fits() implies data@ != #[trigger] ix.encoding() by {
                        ix.lemma_kinds();
                    }
                }
                return None;
            },
        };
        match read_values(kinds.as_slice(), rest) {
            None => {
                proof {
                    assert forall|ix: Self| ix.fits() implies data@ != #[trigger] ix.encoding() by {
                        ix.lemma_kinds();
                        if data@ == ix.encoding() {
                            assert(rest@ != fields_format(ix.fields()));
                        }
                    }
                }
                None
            },
            Some(values) => {
                let ix = Self::from_values(tag, values.as_slice());
                assert(data@ =~= seq![tag] + rest@);
                Some(ix)
            },
        }
    }
}

/// An instruction is told by its bytes: two with the same bytes are the same
/// variant with the same fields, so that what was written reads back.
pub proof fn encoding_is_read_back(one: ScheduleCommitInstruction, other: ScheduleCommitInstruction)
    requires
        one.fits(),
        other.fits(),
        one.encoding() == other.encoding(),
    ensures
        one.tag() == other.tag(),
        one.fields() == other.fields(),
{
    assert(one.encoding()[0] == one.tag() && other.encoding()[0] == other.tag());
    one.lemma_kinds();
    other.lemma_kinds();
    assert(fields_format(one.fields()) =~= one.encoding().skip(1));
    assert(fields_format(other.fields()) =~= other.encoding().skip(1));
    bytes_tell_the_fields(one.fields(), other.fields(), ScheduleCommitInstruction::kinds_of(one.tag())->0);
}

/// The address and bump of a player's counter.
pub open spec fn counter_address(player: Pubkey) -> Option<(Seq<u8>, u8)> {
    found_address(seq![PDA_SEED@, player@], ID@)
}

/// The address and bump of a manager's order book.
pub open spec fn book_address(book_manager: Pubkey) -> Option<(Seq<u8>, u8)> {
    found_address(seq![ORDER_BOOK_SEED@, book_manager@], ID@)
}

/// The counter of a player.
pub open spec fn counter_of(player: Pubkey) -> Pubkey {
    address_in(counter_address(player))
}

/// The order book of a manager.
pub open spec fn order_book_of(book_manager: Pubkey) -> Pubkey {
    address_in(book_address(book_manager))
}

/// The address and bump of a player's counter, if the search finds one.
pub fn pda_and_bump(player: &Pubkey) -> (r: Option<(Pubkey, u8)>)
    ensures
        match r {
            Some((pda, bump)) => counter_address(*player) == Some((pda@, bump)) && pda
                == counter_of(*player),
            None => counter_address(*player) is None,
        },
{
    let r = find_tagged(PDA_SEED.as_slice(), player, &Pubkey::new(ID));
    proof {
        if let Some((pda, _)) = r {
            lemma_address_of(pda);
        }
    }
    r
}

/// The address and bump of a manager's order book, if the search finds one.
pub fn order_book_pda_and_bump(book_manager: &Pubkey) -> (r: Option<(Pubkey, u8)>)
    ensures
        match r {
            Some((pda, bump)) => book_address(*book_manager) == Some((pda@, bump)) && pda
                == order_book_of(*book_manager),
            None => book_address(*book_manager) is None,
        },
{
    let r = find_tagged(ORDER_BOOK_SEED.as_slice(), book_manager, &Pubkey::new(ID));
    proof {
        if let Some((pda, _)) = r {
            lemma_address_of(pda);
        }
    }
    r
}

/// Whether the search finds the counters of all players.
pub open spec fn all_found(players: Seq<Pubkey>) -> bool {
    forall|i: int| 0 <= i < players.len() ==> counter_address(#[trigger] players[i]) is Some
}

/// The counters of several players.
pub open spec fn counters_of(players: Seq<Pubkey>) -> Seq<Pubkey> {
    Seq::new(players.len(), |i: int| counter_of(players[i]))
}

/// The counters of several players, if the search finds them all.
pub fn find_counters(players: &[Pubkey]) -> (r: Option<Vec<Pubkey>>)
    ensures
        match r {
            Some(pdas) => all_found(players@) && pdas@ == counters_of(players@),
            None => !all_found(players@),
        },
{
    let mut out: Vec<Pubkey> = Vec::new();
    let mut i: usize = 0;
    while i < players.len()
        invariant
            i <= players@.len(),
            forall|j: int| 0 <= j < i ==> counter_address(#[trigger] players@[j]) is Some,
            out@ == counters_of(players@).take(i as int),
        decreases players@.len() - i,
    {
        match pda_and_bump(&players[i]) {
            None => {
                assert(counter_address(players@[i as int]) is None);
                return None;
            },
            Some((pda, _)) => {
                out.push(pda);
            },
        }
        i = i + 1;
        assert(out@ =~= counters_of(players@).take(i as int));
    }
    assert(out@ =~= counters_of(players@));
    Some(out)
}

} // verus!
