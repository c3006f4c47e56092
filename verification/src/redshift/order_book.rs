//! An order book in account data: a header with the number of bids and asks,
//! bids from the front, asks from the back.
use crate::bytes::{
    from_le32, from_le64, le32, le64, lemma_le32, lemma_le64, lemma_overwrite_leaves_others,
    lemma_overwrite_reads_back, overwrite, read_u32, read_u64, u32_bytes, u64_bytes, write_at,
};
use crate::chain::ProgramError;
use vstd::prelude::*;

verus! {

/// The bytes of the header.
pub const ORDER_BOOK_HEADER_SIZE: usize = 8;

/// The bytes of a level.
pub const ORDER_LEVEL_SIZE: usize = 16;

/// A price, and how much is bid or asked for it.
#[derive(Clone, Copy, Debug, Default, PartialEq, Eq, Structural)]
pub struct OrderLevel {
    pub price: u64,
    pub size: u64,
}

/// Levels that are added to a book.
#[derive(Clone, Debug, Default)]
pub struct BookUpdate {
    pub bids: Vec<OrderLevel>,
    pub asks: Vec<OrderLevel>,
}

/// What a book holds, the oldest levels first.
#[verifier::ext_equal]
pub struct Book {
    pub bids: Seq<OrderLevel>,
    pub asks: Seq<OrderLevel>,
}

/// How many levels fit into this much data.
pub open spec fn capacity_of(len: int) -> int {
    (len - ORDER_BOOK_HEADER_SIZE) / ORDER_LEVEL_SIZE as int
}

/// The numbers of bids, of asks and of levels that fit; `None` if the data is
/// not a book.
pub open spec fn lens(data: Seq<u8>) -> Option<(int, int, int)> {
    if data.len() < ORDER_BOOK_HEADER_SIZE {
        None
    } else {
        let capacity = capacity_of(data.len() as int);
        let bids = from_le32(data.subrange(0, 4)) as int;
        let asks = from_le32(data.subrange(4, 8)) as int;
        if bids + asks <= capacity {
            Some((bids, asks, capacity))
        } else {
            None
        }
    }
}

/// Where a level begins.
pub open spec fn offset_of(index: int) -> int {
    ORDER_BOOK_HEADER_SIZE + index * ORDER_LEVEL_SIZE
}

/// The level at a place.
pub open spec fn level_at(data: Seq<u8>, index: int) -> OrderLevel {
    OrderLevel {
        price: from_le64(data.subrange(offset_of(index), offset_of(index) + 8)),
        size: from_le64(data.subrange(offset_of(index) + 8, offset_of(index) + 16)),
    }
}

/// The book that data holds: bids lie from the front, asks from the back.
pub open spec fn book_of(data: Seq<u8>) -> Option<Book> {
    match lens(data) {
        Some((bids, asks, capacity)) => Some(
            Book {
                bids: Seq::new(bids as nat, |i: int| level_at(data, i)),
                asks: Seq::new(asks as nat, |i: int| level_at(data, capacity - 1 - i)),
            },
        ),
        None => None,
    }
}

/// A book after an update: bids are added if all of them fit, and then asks
/// if all of them fit.
pub open spec fn updated(book: Book, capacity: int, bids: Seq<OrderLevel>, asks: Seq<OrderLevel>)
    -> Book {
    let room = capacity - book.bids.len() - book.asks.len();
    let new_bids = if bids.len() <= room {
        book.bids + bids
    } else {
        book.bids
    };
    let left = capacity - new_bids.len() - book.asks.len();
    let new_asks = if asks.len() <= left {
        book.asks + asks
    } else {
        book.asks
    };
    Book { bids: new_bids, asks: new_asks }
}

/// The bytes behind the last place.
pub open spec fn tail_of(data: Seq<u8>) -> Seq<u8> {
    data.skip(offset_of(capacity_of(data.len() as int)))
}

/// Whether the places of `after` that no side takes, and the bytes behind the
/// last place, are those of `before`.
pub open spec fn keeps_the_rest(before: Seq<u8>, after: Seq<u8>) -> bool {
    match lens(after) {
        Some((bids, asks, capacity)) => {
            &&& forall|i: int|
                bids <= i < capacity - asks ==> #[trigger] level_at(after, i) == level_at(before, i)
            &&& tail_of(after) == tail_of(before)
        },
        None => false,
    }
}

/// The numbers of bids, of asks and of levels that fit; `None` if the data is
/// not a book.
pub fn book_lens(data: &[u8]) -> (r: Option<(usize, usize, usize)>)
    ensures
        match r {
            Some((bids, asks, capacity)) => lens(data@) == Some(
                (bids as int, asks as int, capacity as int),
            ),
            None => lens(data@) is None,
        },
{
    if data.len() < ORDER_BOOK_HEADER_SIZE {
        return None;
    }
    let capacity: usize = (data.len() - ORDER_BOOK_HEADER_SIZE) / ORDER_LEVEL_SIZE;
    let bids: u32 = read_u32(data, 0);
    let asks: u32 = read_u32(data, 4);
    if bids as u64 + asks as u64 <= capacity as u64 {
        Some((bids as usize, asks as usize, capacity))
    } else {
        None
    }
}

/// Data with a level written to a place.
pub open spec fn with_level(data: Seq<u8>, index: int, level: OrderLevel) -> Seq<u8> {
    overwrite(
        overwrite(data, offset_of(index), le64(level.price)),
        offset_of(index) + 8,
        le64(level.size),
    )
}

/// A level that was written reads back, and the header, all other levels and
/// the bytes behind the last place stay.
pub proof fn written_levels_read_back(data: Seq<u8>, index: int, level: OrderLevel)
    requires
        0 <= index,
        offset_of(index) + 16 <= data.len(),
    ensures
        with_level(data, index, level).len() == data.len(),
        with_level(data, index, level).subrange(0, 4) == data.subrange(0, 4),
        with_level(data, index, level).subrange(4, 8) == data.subrange(4, 8),
        index < capacity_of(data.len() as int) ==> tail_of(with_level(data, index, level))
            == tail_of(data),
        level_at(with_level(data, index, level), index) == level,
        forall|other: int|
            0 <= other && other != index && offset_of(other) + 16 <= data.len()
                ==> #[trigger] level_at(with_level(data, index, level), other) == level_at(
                data,
                other,
            ),
{
    lemma_le64();
    let at = offset_of(index);
    let first = overwrite(data, at, le64(level.price));
    let both = with_level(data, index, level);
    lemma_overwrite_reads_back(data, at, le64(level.price));
    lemma_overwrite_reads_back(first, at + 8, le64(level.size));
    lemma_overwrite_leaves_others(first, at + 8, le64(level.size), at, at + 8);
    assert(both.subrange(0, 4) =~= data.subrange(0, 4));
    assert(both.subrange(4, 8) =~= data.subrange(4, 8));
    if index < capacity_of(data.len() as int) {
        assert(tail_of(both) =~= tail_of(data));
    }
    assert forall|other: int|
        0 <= other && other != index && offset_of(other) + 16 <= data.len() implies #[trigger] level_at(
        both,
        other,
    ) == level_at(data, other) by {
        let o = offset_of(other);
        assert(both.subrange(o, o + 8) =~= data.subrange(o, o + 8));
        assert(both.subrange(o + 8, o + 16) =~= data.subrange(o + 8, o + 16));
    }
}

/// Writes a level to a place.
pub fn write_level(data: &mut Vec<u8>, index: usize, level: &OrderLevel)
    requires
        offset_of(index as int) + 16 <= old(data)@.len(),
    ensures
        final(data)@ == with_level(old(data)@, index as int, *level),
{
    proof {
        lemma_le64();
    }
    assert(data.len() == data@.len());
    let offset: usize = ORDER_BOOK_HEADER_SIZE + index * ORDER_LEVEL_SIZE;
    write_at(data, offset, u64_bytes(level.price).as_slice());
    write_at(data, offset + 8, u64_bytes(level.size).as_slice());
}

/// Reads the level at a place.
pub fn read_level(data: &[u8], index: usize) -> (r: OrderLevel)
    requires
        offset_of(index as int) + 16 <= data@.len(),
    ensures
        r == level_at(data@, index as int),
{
    assert(data.len() == data@.len());
    let offset: usize = ORDER_BOOK_HEADER_SIZE + index * ORDER_LEVEL_SIZE;
    OrderLevel { price: read_u64(data, offset), size: read_u64(data, offset + 8) }
}

/// A level below the capacity lies within the data.
proof fn lemma_capacity(len: int, index: int)
    requires
        len >= ORDER_BOOK_HEADER_SIZE,
        0 <= index < capacity_of(len),
    ensures
        offset_of(index) + 16 <= len,
{
}

/// Whether an update of `before` leaves `after` and answers `r`.
pub open spec fn applied(
    before: Seq<u8>,
    after: Seq<u8>,
    bids: Seq<OrderLevel>,
    asks: Seq<OrderLevel>,
    r: Result<(), ProgramError>,
) -> bool {
    match book_of(before) {
        Some(book) => {
            &&& r is Ok
            &&& after.len() == before.len()
            &&& book_of(after) == Some(
                updated(book, capacity_of(before.len() as int), bids, asks),
            )
            &&& keeps_the_rest(before, after)
        },
        None => r == Err::<(), ProgramError>(ProgramError::InvalidAccountData) && after == before,
    }
}

/// Adds levels to a book: the bids if all of them fit, and then the asks if
/// all of them fit. Data that is not a book is left as it is. The length is
/// one whose levels the header can count.
pub fn order_book_apply(data: &mut Vec<u8>, update: &BookUpdate) -> (r: Result<(), ProgramError>)
    requires
        capacity_of(old(data)@.len() as int) <= u32::MAX,
    ensures
        applied(old(data)@, final(data)@, update.bids@, update.asks@, r),
{
    let ghost start = data@;
    let (bids_len, asks_len, capacity): (usize, usize, usize) = match book_lens(data.as_slice()) {
        Some(found) => found,
        None => {
            return Err(ProgramError::InvalidAccountData);
        },
    };
    let ghost book = book_of(start)->0;
    let mut remaining: usize = capacity - bids_len - asks_len;
    let mut bids_now: usize = bids_len;
    if update.bids.len() <= remaining {
        let mut position: usize = 0;
        while position < update.bids.len()
            invariant
                position <= update.bids@.len(),
                capacity == capacity_of(start.len() as int),
                start.len() >= ORDER_BOOK_HEADER_SIZE,
                bids_len + asks_len + update.bids@.len() <= capacity,
                data@.len() == start.len(),
                data@.subrange(0, 4) == start.subrange(0, 4),
                data@.subrange(4, 8) == start.subrange(4, 8),
                tail_of(data@) == tail_of(start),
                forall|i: int|
                    0 <= i < capacity ==> #[trigger] level_at(data@, i) == if bids_len <= i
                        < bids_len + position {
                        update.bids@[i - bids_len]
                    } else {
                        level_at(start, i)
                    },
            decreases update.bids@.len() - position,
        {
            proof {
                lemma_capacity(start.len() as int, bids_len + position);
                written_levels_read_back(data@, bids_len + position, update.bids@[position as int]);
            }
            let ghost before = data@;
            write_level(data, bids_len + position, &update.bids[position]);
            position = position + 1;
            proof {
                assert forall|i: int| 0 <= i < capacity implies #[trigger] level_at(data@, i)
                    == if bids_len <= i < bids_len + position {
                    update.bids@[i - bids_len]
                } else {
                    level_at(start, i)
                } by {
                    lemma_capacity(start.len() as int, i);
                    assert(level_at(before, i) == level_at(before, i));
                }
            }
        }
        bids_now = bids_len + update.bids.len();
        let ghost before = data@;
        proof {
            lemma_le32();
        }
        write_at(data, 0, u32_bytes(bids_now as u32).as_slice());
        proof {
            lemma_header(before, 0, bids_now as u32, capacity as int);
        }
        remaining = remaining - update.bids.len();
    }
    let ghost middle = data@;
    proof {
        assert forall|i: int| 0 <= i < capacity implies #[trigger] level_at(middle, i)
            == if bids_len <= i < bids_now {
            update.bids@[i - bids_len]
        } else {
            level_at(start, i)
        } by {}
    }
    let mut asks_now: usize = asks_len;
    if update.asks.len() <= remaining {
        asks_now = asks_len + update.asks.len();
        let count: usize = update.asks.len();
        let first: usize = capacity - asks_now;
        let mut position: usize = 0;
        while position < count
            invariant
                position <= count,
                count == update.asks@.len(),
                first == capacity - asks_len - count,
                capacity == capacity_of(start.len() as int),
                start.len() >= ORDER_BOOK_HEADER_SIZE,
                asks_len + count <= capacity,
                data@.len() == start.len(),
                middle.len() == start.len(),
                data@.subrange(0, 4) == middle.subrange(0, 4),
                data@.subrange(4, 8) == middle.subrange(4, 8),
                tail_of(data@) == tail_of(start),
                forall|i: int|
                    0 <= i < capacity ==> #[trigger] level_at(data@, i) == if first <= i < first
                        + position {
                        update.asks@[count - 1 - (i - first)]
                    } else {
                        level_at(middle, i)
                    },
            decreases count - position,
        {
            let level: OrderLevel = update.asks[count - 1 - position];
            proof {
                lemma_capacity(start.len() as int, first + position);
                written_levels_read_back(data@, first + position, level);
            }
            let ghost before = data@;
            write_level(data, first + position, &level);
            position = position + 1;
            proof {
                assert forall|i: int| 0 <= i < capacity implies #[trigger] level_at(data@, i)
                    == if first <= i < first + position {
                    update.asks@[count - 1 - (i - first)]
                } else {
                    level_at(middle, i)
                } by {
                    lemma_capacity(start.len() as int, i);
                    assert(level_at(before, i) == level_at(before, i));
                }
            }
        }
        let ghost before = data@;
        proof {
            lemma_le32();
        }
        write_at(data, 4, u32_bytes(asks_now as u32).as_slice());
        proof {
            lemma_header(before, 4, asks_now as u32, capacity as int);
        }
    }
    proof {
        let end = data@;
        let expected = updated(book, capacity as int, update.bids@, update.asks@);
        assert(lens(end) == Some((bids_now as int, asks_now as int, capacity as int)));
        let found = book_of(end)->0;
        assert forall|i: int| 0 <= i < bids_now implies found.bids[i] == expected.bids[i] by {
            assert(level_at(end, i) == level_at(middle, i));
        }
        assert(found.bids =~= expected.bids);
        assert forall|i: int| 0 <= i < asks_now implies found.asks[i] == expected.asks[i] by {
            let place = capacity - 1 - i;
            assert(found.asks[i] == level_at(end, place));
            if i < asks_len {
                assert(level_at(end, place) == level_at(middle, place));
                assert(level_at(middle, place) == level_at(start, place));
            }
        }
        assert(found.asks =~= expected.asks);
        assert(found =~= expected);
        assert forall|i: int| bids_now <= i < capacity - asks_now implies #[trigger] level_at(end, i)
            == level_at(start, i) by {
            assert(level_at(end, i) == level_at(middle, i));
        }
    }
    Ok(())
}

/// Writing a number of the header reads back, and leaves the other number and
/// all levels as they are.
proof fn lemma_header(data: Seq<u8>, at: int, number: u32, capacity: int)
    requires
        at == 0 || at == 4,
        data.len() >= ORDER_BOOK_HEADER_SIZE,
        capacity == capacity_of(data.len() as int),
    ensures
        ({
            let end = overwrite(data, at, le32(number));
            &&& end.len() == data.len()
            &&& from_le32(end.subrange(at, at + 4)) == number
            &&& end.subrange(4 - at, 8 - at) == data.subrange(4 - at, 8 - at)
            &&& tail_of(end) == tail_of(data)
            &&& forall|i: int|
                0 <= i < capacity ==> #[trigger] level_at(end, i) == level_at(data, i)
        }),
{
    lemma_le32();
    let end = overwrite(data, at, le32(number));
    lemma_overwrite_reads_back(data, at, le32(number));
    assert(end.subrange(4 - at, 8 - at) =~= data.subrange(4 - at, 8 - at));
    assert(tail_of(end) =~= tail_of(data));
    assert forall|i: int| 0 <= i < capacity implies #[trigger] level_at(end, i) == level_at(
        data,
        i,
    ) by {
        lemma_capacity(data.len() as int, i);
        let o = offset_of(i);
        assert(end.subrange(o, o + 8) =~= data.subrange(o, o + 8));
        assert(end.subrange(o + 8, o + 16) =~= data.subrange(o + 8, o + 16));
    }
}

/// The bids and asks of a book, the oldest first; `None` if the data is not a
/// book.
pub fn order_book_view(data: &[u8]) -> (r: Option<(Vec<OrderLevel>, Vec<OrderLevel>)>)
    ensures
        match r {
            Some((bids, asks)) => book_of(data@) == Some(Book { bids: bids@, asks: asks@ }),
            None => book_of(data@) is None,
        },
{
    let (bids_len, asks_len, capacity): (usize, usize, usize) = match book_lens(data) {
        Some(found) => found,
        None => {
            return None;
        },
    };
    let ghost book = book_of(data@)->0;
    let mut bids: Vec<OrderLevel> = Vec::new();
    let mut i: usize = 0;
    while i < bids_len
        invariant
            i <= bids_len,
            bids_len <= capacity,
            data@.len() >= ORDER_BOOK_HEADER_SIZE,
            capacity == capacity_of(data@.len() as int),
            bids@ == Seq::new(i as nat, |j: int| level_at(data@, j)),
        decreases bids_len - i,
    {
        proof {
            lemma_capacity(data@.len() as int, i as int);
        }
        bids.push(read_level(data, i));
        i = i + 1;
        assert(bids@ =~= Seq::new(i as nat, |j: int| level_at(data@, j)));
    }
    let mut asks: Vec<OrderLevel> = Vec::new();
    let mut k: usize = 0;
    while k < asks_len
        invariant
            k <= asks_len,
            asks_len <= capacity,
            data@.len() >= ORDER_BOOK_HEADER_SIZE,
            capacity == capacity_of(data@.len() as int),
            asks@ == Seq::new(k as nat, |j: int| level_at(data@, capacity - 1 - j)),
        decreases asks_len - k,
    {
        proof {
            lemma_capacity(data@.len() as int, capacity - 1 - k);
        }
        asks.push(read_level(data, capacity - 1 - k));
        k = k + 1;
        assert(asks@ =~= Seq::new(k as nat, |j: int| level_at(data@, capacity - 1 - j)));
    }
    assert(Book { bids: bids@, asks: asks@ } =~= book);
    Some((bids, asks))
}

/// A book never outgrows its data, an update only ever adds levels behind the
/// ones there are, and each side takes all of its new levels or none.
pub proof fn updates_only_append(
    book: Book,
    capacity: int,
    bids: Seq<OrderLevel>,
    asks: Seq<OrderLevel>,
)
    requires
        book.bids.len() + book.asks.len() <= capacity,
    ensures
        ({
            let after = updated(book, capacity, bids, asks);
            &&& after.bids.len() + after.asks.len() <= capacity
            &&& after.bids == book.bids || after.bids == book.bids + bids
            &&& after.asks == book.asks || after.asks == book.asks + asks
        }),
{
}

/// An update for which there is room is taken whole.
pub proof fn fitting_updates_are_taken(
    book: Book,
    capacity: int,
    bids: Seq<OrderLevel>,
    asks: Seq<OrderLevel>,
)
    requires
        book.bids.len() + book.asks.len() + bids.len() + asks.len() <= capacity,
    ensures
        updated(book, capacity, bids, asks) == (Book {
            bids: book.bids + bids,
            asks: book.asks + asks,
        }),
{
}

/// Data of zeros is an empty book.
pub proof fn fresh_data_is_an_empty_book(data: Seq<u8>)
    requires
        data.len() >= ORDER_BOOK_HEADER_SIZE,
        forall|i: int| 0 <= i < 8 ==> data[i] == 0,
    ensures
        book_of(data) == Some(Book { bids: Seq::empty(), asks: Seq::empty() }),
{
    reveal(from_le32);
    let book = book_of(data)->0;
    assert(book =~= Book { bids: Seq::empty(), asks: Seq::empty() });
}

/// The price at a place, as it lies in the data.
pub open spec fn price_at(data: Seq<u8>, index: int) -> u64 {
    from_le64(data.subrange(8 + 16 * index, 16 + 16 * index))
}

/// The size at a place, as it lies in the data.
pub open spec fn size_at(data: Seq<u8>, index: int) -> u64 {
    from_le64(data.subrange(16 + 16 * index, 24 + 16 * index))
}

/// What an update does to the data of a book. Bids are taken if there is room
/// for all of them, and then asks if there is room for all of those. The
/// numbers at the front count what was taken, new bids lie behind the old ones
/// from the front, new asks before the old ones from the back, each with its
/// price before its size, and every level that was there stays. Data that is
/// no book is refused and stays.
pub proof fn an_update_writes_its_levels(
    before: Seq<u8>,
    after: Seq<u8>,
    bids: Seq<OrderLevel>,
    asks: Seq<OrderLevel>,
    r: Result<(), ProgramError>,
)
    requires
        applied(before, after, bids, asks, r),
    ensures
        ({
            let n = (before.len() - 8) / 16;
            let b = from_le32(before.subrange(0, 4)) as int;
            let a = from_le32(before.subrange(4, 8)) as int;
            let more_bids = if bids.len() <= n - b - a {
                bids.len() as int
            } else {
                0
            };
            let more_asks = if asks.len() <= n - b - a - more_bids {
                asks.len() as int
            } else {
                0
            };
            &&& after.len() == before.len()
            &&& r is Ok <==> before.len() >= 8 && b + a <= n
            &&& r is Err ==> r == Err::<(), _>(ProgramError::InvalidAccountData) && after == before
            &&& r is Ok ==> {
                &&& from_le32(after.subrange(0, 4)) == b + more_bids
                &&& from_le32(after.subrange(4, 8)) == a + more_asks
                &&& forall|i: int|
                    0 <= i < b ==> #[trigger] price_at(after, i) == price_at(before, i) && size_at(
                        after,
                        i,
                    ) == size_at(before, i)
                &&& forall|i: int|
                    n - a <= i < n ==> #[trigger] price_at(after, i) == price_at(before, i)
                        && size_at(after, i) == size_at(before, i)
                &&& forall|i: int|
                    0 <= i < more_bids ==> price_at(after, b + i) == (#[trigger] bids[i]).price
                        && size_at(after, b + i) == bids[i].size
                &&& forall|i: int|
                    0 <= i < more_asks ==> price_at(after, n - a - 1 - i) == (
                    #[trigger] asks[i]).price && size_at(after, n - a - 1 - i) == asks[i].size
            }
        }),
{
    let n = (before.len() - 8) / 16;
    let b = from_le32(before.subrange(0, 4)) as int;
    let a = from_le32(before.subrange(4, 8)) as int;
    if r is Ok {
        let old_book = book_of(before)->0;
        let new_book = book_of(after)->0;
        assert(new_book == updated(old_book, n, bids, asks));
        assert(old_book.bids.len() == b && old_book.asks.len() == a);
        assert(new_book.bids.len() == from_le32(after.subrange(0, 4)));
        assert(new_book.asks.len() == from_le32(after.subrange(4, 8)));
        assert forall|data: Seq<u8>, i: int|
            #![trigger level_at(data, i)]
            level_at(data, i).price == price_at(data, i) && level_at(data, i).size == size_at(
                data,
                i,
            ) by {
            assert(offset_of(i) == 8 + 16 * i);
        }
        assert forall|i: int| 0 <= i < b implies #[trigger] price_at(after, i) == price_at(
            before,
            i,
        ) && size_at(after, i) == size_at(before, i) by {
            assert(new_book.bids[i] == old_book.bids[i]);
            assert(level_at(after, i) == level_at(before, i));
        }
        assert forall|i: int| n - a <= i < n implies #[trigger] price_at(after, i) == price_at(
            before,
            i,
        ) && size_at(after, i) == size_at(before, i) by {
            let k = n - 1 - i;
            assert(new_book.asks[k] == old_book.asks[k]);
            assert(level_at(after, n - 1 - k) == level_at(before, n - 1 - k));
        }
        assert forall|i: int| 0 <= i < new_book.bids.len() - b implies price_at(after, b + i) == (
        #[trigger] bids[i]).price && size_at(after, b + i) == bids[i].size by {
            assert(new_book.bids[b + i] == bids[i]);
            assert(level_at(after, b + i) == bids[i]);
        }
        assert forall|i: int| 0 <= i < new_book.asks.len() - a implies price_at(
            after,
            n - a - 1 - i,
        ) == (#[trigger] asks[i]).price && size_at(after, n - a - 1 - i) == asks[i].size by {
            assert(new_book.asks[a + i] == asks[i]);
            assert(level_at(after, n - 1 - (a + i)) == asks[i]);
        }
        let more_bids = if bids.len() <= n - b - a {
            bids.len() as int
        } else {
            0
        };
        let more_asks = if asks.len() <= n - b - a - more_bids {
            asks.len() as int
        } else {
            0
        };
        assert(new_book.bids.len() == b + more_bids);
        assert(new_book.asks.len() == a + more_asks);
        assert(forall|i: int|
            0 <= i < more_bids ==> price_at(after, b + i) == (#[trigger] bids[i]).price && size_at(
                after,
                b + i,
            ) == bids[i].size);
        assert(forall|i: int|
            0 <= i < more_asks ==> price_at(after, n - a - 1 - i) == (#[trigger] asks[i]).price
                && size_at(after, n - a - 1 - i) == asks[i].size);
    } else {
        assert(book_of(before) is None);
    }
}

/// An update leaves everything alone that it does not write: the places
/// between the bids and the asks, and the bytes behind the last place.
pub proof fn an_update_leaves_the_rest(
    before: Seq<u8>,
    after: Seq<u8>,
    bids: Seq<OrderLevel>,
    asks: Seq<OrderLevel>,
    i: int,
)
    requires
        applied(before, after, bids, asks, Ok(())),
    ensures
        ({
            let n = (before.len() - 8) / 16;
            let b = from_le32(after.subrange(0, 4)) as int;
            let a = from_le32(after.subrange(4, 8)) as int;
            &&& b <= i < n - a ==> price_at(after, i) == price_at(before, i) && size_at(after, i)
                == size_at(before, i)
            &&& 8 + 16 * n <= i < before.len() ==> after[i] == before[i]
        }),
{
    let n = (before.len() - 8) / 16;
    let b = from_le32(after.subrange(0, 4)) as int;
    let a = from_le32(after.subrange(4, 8)) as int;
    if b <= i < n - a {
        assert(level_at(after, i) == level_at(before, i));
        assert(offset_of(i) == 8 + 16 * i);
    }
    if 8 + 16 * n <= i < before.len() {
        let at = 8 + 16 * n;
        assert(offset_of(n) == at);
        assert(tail_of(after)[i - at] == tail_of(before)[i - at]);
    }
}

} // verus!
