//! Plain values in borsh, the format of account data and of the seeds that
//! come with a returned account.
use crate::bytes::{from_le32, from_le64, le32, le64, lemma_le32, lemma_le64, starts};
use vstd::prelude::*;
use vstd::utf8::encode_utf8;

verus! {

/// A byte string in borsh: its length and its bytes.
pub open spec fn bytes_format(s: Seq<u8>) -> Seq<u8> {
    le32(s.len() as u32) + s
}

/// Several byte strings, each in borsh, one after the other.
pub open spec fn each_format(items: Seq<Seq<u8>>) -> Seq<u8>
    decreases items.len(),
{
    if items.len() == 0 {
        Seq::empty()
    } else {
        each_format(items.drop_last()) + bytes_format(items.last())
    }
}

/// A list of byte strings in borsh: their number and then each of them.
pub open spec fn list_format(items: Seq<Seq<u8>>) -> Seq<u8> {
    le32(items.len() as u32) + each_format(items)
}

/// Lengths that borsh can write down.
pub open spec fn list_fits(items: Seq<Seq<u8>>) -> bool {
    &&& items.len() <= u32::MAX
    &&& forall|i: int| 0 <= i < items.len() ==> (#[trigger] items[i]).len() <= u32::MAX
}

/// `borsh::from_slice` at `Vec<Vec<u8>>`: reads a number and that many byte
/// strings, each behind its length, and nothing may be left over.
#[verifier::external_body]
pub(crate) fn read_byte_strings(data: &[u8]) -> (r: Option<Vec<Vec<u8>>>)
    ensures
        match r {
            Some(items) => {
                &&& list_fits(crate::address::seed_bytes(items@))
                &&& data@ == list_format(crate::address::seed_bytes(items@))
            },
            None => forall|items: Seq<Seq<u8>>|
                list_fits(items) ==> data@ != #[trigger] list_format(items),
        },
{
    borsh::from_slice::<Vec<Vec<u8>>>(data).ok()
}

/// A counter in borsh: two numbers and a label in UTF-8 behind its length.
pub open spec fn counter_format(count: u64, updates: u64, label: Seq<char>) -> Seq<u8> {
    le64(count) + le64(updates) + bytes_format(encode_utf8(label))
}

/// Whether the length of a label can be written down.
pub open spec fn counter_fits(label: Seq<char>) -> bool {
    encode_utf8(label).len() <= u32::MAX
}

/// Two counters that data begins with are the same.
pub proof fn lemma_counter_fronts(
    data: Seq<u8>,
    count: u64,
    updates: u64,
    label: Seq<char>,
    other_count: u64,
    other_updates: u64,
    other_label: Seq<char>,
)
    requires
        counter_fits(label),
        counter_fits(other_label),
        starts(data, counter_format(count, updates, label)),
        starts(data, counter_format(other_count, other_updates, other_label)),
    ensures
        count == other_count,
        updates == other_updates,
        label == other_label,
{
    lemma_counter_front(data, count, updates, label);
    lemma_counter_front(data, other_count, other_updates, other_label);
    vstd::utf8::encode_utf8_decode_utf8(label);
    vstd::utf8::encode_utf8_decode_utf8(other_label);
}

/// What a counter at the front of data is made of.
proof fn lemma_counter_front(data: Seq<u8>, count: u64, updates: u64, label: Seq<char>)
    requires
        counter_fits(label),
        starts(data, counter_format(count, updates, label)),
    ensures
        from_le64(data.subrange(0, 8)) == count,
        from_le64(data.subrange(8, 16)) == updates,
        from_le32(data.subrange(16, 20)) == encode_utf8(label).len(),
        data.subrange(20, 20 + encode_utf8(label).len() as int) == encode_utf8(label),
{
    lemma_le32();
    lemma_le64();
    let e = encode_utf8(label);
    let f = counter_format(count, updates, label);
    let front = data.take(f.len() as int);
    assert(front == f);
    assert(data.subrange(0, 8) =~= front.subrange(0, 8));
    assert(f.subrange(0, 8) =~= le64(count));
    assert(data.subrange(8, 16) =~= front.subrange(8, 16));
    assert(f.subrange(8, 16) =~= le64(updates));
    assert(data.subrange(16, 20) =~= front.subrange(16, 20));
    assert(f.subrange(16, 20) =~= le32(e.len() as u32));
    assert(data.subrange(20, 20 + e.len() as int) =~= front.subrange(20, 20 + e.len() as int));
    assert(f.subrange(20, 20 + e.len() as int) =~= e);
}

/// A counter is told by its bytes.
pub proof fn lemma_counter_tells(
    count: u64,
    updates: u64,
    label: Seq<char>,
    other_count: u64,
    other_updates: u64,
    other_label: Seq<char>,
)
    requires
        counter_fits(label),
        counter_fits(other_label),
        counter_format(count, updates, label) == counter_format(
            other_count,
            other_updates,
            other_label,
        ),
    ensures
        count == other_count,
        updates == other_updates,
        label == other_label,
{
    let data = counter_format(count, updates, label);
    assert(data.take(data.len() as int) =~= data);
    lemma_counter_fronts(
        data,
        count,
        updates,
        label,
        other_count,
        other_updates,
        other_label,
    );
}

/// `borsh::from_slice` at `(u64, u64, String)`: two numbers, a length and that
/// many bytes of UTF-8, and nothing may be left over.
#[verifier::external_body]
pub(crate) fn read_counter(data: &[u8]) -> (r: Option<(u64, u64, String)>)
    ensures
        match r {
            Some((count, updates, label)) => {
                &&& counter_fits(label@)
                &&& data@ == counter_format(count, updates, label@)
            },
            None => forall|count: u64, updates: u64, label: Seq<char>|
                counter_fits(label) ==> data@ != #[trigger] counter_format(count, updates, label),
        },
{
    borsh::from_slice::<(u64, u64, String)>(data).ok()
}

/// `borsh::BorshDeserialize::deserialize` at `(u64, u64, String)`: two
/// numbers, a length and that many bytes of UTF-8; what follows is not looked
/// at.
#[verifier::external_body]
pub(crate) fn read_counter_front(data: &[u8]) -> (r: Option<(u64, u64, String)>)
    ensures
        match r {
            Some((count, updates, label)) => {
                &&& counter_fits(label@)
                &&& starts(data@, counter_format(count, updates, label@))
            },
            None => forall|count: u64, updates: u64, label: Seq<char>|
                counter_fits(label) ==> !starts(
                    data@,
                    #[trigger] counter_format(count, updates, label),
                ),
        },
{
    let mut rest: &[u8] = data;
    <(u64, u64, String) as borsh::BorshDeserialize>::deserialize(&mut rest).ok()
}

/// `borsh::to_vec` at `(u64, u64, &str)`: fails only when the label is too
/// long for its length to be written.
#[verifier::external_body]
pub(crate) fn write_counter(count: u64, updates: u64, label: &str) -> (r: Option<Vec<u8>>)
    ensures
        match r {
            Some(data) => {
                &&& counter_fits(label@)
                &&& data@ == counter_format(count, updates, label@)
            },
            None => !counter_fits(label@),
        },
{
    borsh::to_vec(&(count, updates, label)).ok()
}

} // verus!
