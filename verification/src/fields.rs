//! The fields of an instruction in borsh: what each kind of field looks like,
//! and how a list of fields is written and read back.
use crate::borsh_format::bytes_format;
use crate::bytes::{
    all_wide, append_bytes, array_32, from_le32, from_le64, joined, le32, le64, lemma_joined,
    lemma_joined_tells, lemma_le32, lemma_le64, read_u32, read_u64, starts, u32_bytes, u64_bytes,
};
use crate::chain::{copy_keys, lemma_pubkey_ext, Pubkey};
use crate::redshift::order_book::OrderLevel;
use crate::text::text_of;
use vstd::prelude::*;
use vstd::slice::slice_subrange;
use vstd::utf8::encode_utf8;

verus! {

/// What a field may hold.
#[derive(Clone, Copy, Debug, PartialEq, Eq, Structural)]
pub enum Kind {
    U8,
    Bool,
    U32,
    U64,
    I64,
    /// One of so many choices.
    Choice { of: u8 },
    Key,
    OptionalKey,
    Keys,
    Levels,
    Ints,
    Text,
}

/// What a field holds.
#[verifier::ext_equal]
pub enum Field {
    U8(u8),
    Bool(bool),
    U32(u32),
    U64(u64),
    I64(i64),
    Choice { value: u8, of: u8 },
    Key(Pubkey),
    OptionalKey(Option<Pubkey>),
    Keys(Seq<Pubkey>),
    Levels(Seq<OrderLevel>),
    Ints(Seq<i64>),
    Text(Seq<char>),
}

/// A field.
#[derive(Clone, Debug)]
pub enum Value {
    U8(u8),
    Bool(bool),
    U32(u32),
    U64(u64),
    I64(i64),
    Choice { value: u8, of: u8 },
    Key(Pubkey),
    OptionalKey(Option<Pubkey>),
    Keys(Vec<Pubkey>),
    Levels(Vec<OrderLevel>),
    Ints(Vec<i64>),
    Text(String),
}

impl View for Value {
    type V = Field;

    open spec fn view(&self) -> Field {
        match self {
            Value::U8(x) => Field::U8(*x),
            Value::Bool(x) => Field::Bool(*x),
            Value::U32(x) => Field::U32(*x),
            Value::U64(x) => Field::U64(*x),
            Value::I64(x) => Field::I64(*x),
            Value::Choice { value, of } => Field::Choice { value: *value, of: *of },
            Value::Key(x) => Field::Key(*x),
            Value::OptionalKey(x) => Field::OptionalKey(*x),
            Value::Keys(x) => Field::Keys(x@),
            Value::Levels(x) => Field::Levels(x@),
            Value::Ints(x) => Field::Ints(x@),
            Value::Text(x) => Field::Text(x@),
        }
    }
}

/// The unsigned number with the bits of a signed one.
pub open spec fn bits_of(x: i64) -> u64 {
    if x >= 0 {
        x as u64
    } else {
        (x + 0x1_0000_0000_0000_0000) as u64
    }
}

/// The unsigned number with the bits of a signed one.
pub fn to_bits(x: i64) -> (r: u64)
    ensures
        r == bits_of(x),
{
    if x >= 0 {
        x as u64
    } else {
        u64::MAX - (-(x + 1)) as u64
    }
}

/// The signed number with the bits of an unsigned one.
pub fn from_bits(bits: u64) -> (r: i64)
    ensures
        bits_of(r) == bits,
{
    if bits <= 0x7fff_ffff_ffff_ffff {
        bits as i64
    } else {
        -((u64::MAX - bits) as i64) - 1
    }
}

/// The bytes of several addresses.
pub open spec fn key_items(keys: Seq<Pubkey>) -> Seq<Seq<u8>> {
    Seq::new(keys.len(), |i: int| keys[i]@)
}

/// The bytes of several levels.
pub open spec fn level_items(levels: Seq<OrderLevel>) -> Seq<Seq<u8>> {
    Seq::new(levels.len(), |i: int| le64(levels[i].price) + le64(levels[i].size))
}

/// The bytes of several numbers.
pub open spec fn int_items(ints: Seq<i64>) -> Seq<Seq<u8>> {
    Seq::new(ints.len(), |i: int| le64(bits_of(ints[i])))
}

/// A list: how many items there are, and their bytes.
pub open spec fn items_format(items: Seq<Seq<u8>>) -> Seq<u8> {
    le32(items.len() as u32) + joined(items)
}

impl Field {
    /// Whether the field is of a kind.
    pub open spec fn is_of(self, kind: Kind) -> bool {
        match kind {
            Kind::U8 => self is U8,
            Kind::Bool => self is Bool,
            Kind::U32 => self is U32,
            Kind::U64 => self is U64,
            Kind::I64 => self is I64,
            Kind::Choice { of } => self matches Field::Choice { value, of: n } && n == of && value
                < of,
            Kind::Key => self is Key,
            Kind::OptionalKey => self is OptionalKey,
            Kind::Keys => self is Keys,
            Kind::Levels => self is Levels,
            Kind::Ints => self is Ints,
            Kind::Text => self is Text,
        }
    }

    /// Whether the length of the field can be written down.
    pub open spec fn fits(self) -> bool {
        match self {
            Field::Keys(x) => x.len() <= u32::MAX,
            Field::Levels(x) => x.len() <= u32::MAX,
            Field::Ints(x) => x.len() <= u32::MAX,
            Field::Text(x) => encode_utf8(x).len() <= u32::MAX,
            _ => true,
        }
    }

    /// The bytes of the field.
    pub open spec fn format(self) -> Seq<u8> {
        match self {
            Field::U8(x) => seq![x],
            Field::Bool(x) => seq![
                if x {
                    1u8
                } else {
                    0u8
                },
            ],
            Field::U32(x) => le32(x),
            Field::U64(x) => le64(x),
            Field::I64(x) => le64(bits_of(x)),
            Field::Choice { value, .. } => seq![value],
            Field::Key(x) => x@,
            Field::OptionalKey(None) => seq![0u8],
            Field::OptionalKey(Some(x)) => seq![1u8] + x@,
            Field::Keys(x) => items_format(key_items(x)),
            Field::Levels(x) => items_format(level_items(x)),
            Field::Ints(x) => items_format(int_items(x)),
            Field::Text(x) => bytes_format(encode_utf8(x)),
        }
    }
}

/// The widths of the items of lists.
proof fn lemma_widths()
    ensures
        forall|x: Seq<Pubkey>| #[trigger] all_wide(key_items(x), 32),
        forall|x: Seq<OrderLevel>| #[trigger] all_wide(level_items(x), 16),
        forall|x: Seq<i64>| #[trigger] all_wide(int_items(x), 8),
{
    lemma_le64();
}

/// A list of items of one width begins with their number, and its length
/// follows from it.
proof fn lemma_items_format(items: Seq<Seq<u8>>, width: int, s: Seq<u8>)
    requires
        all_wide(items, width),
        width >= 0,
        items.len() <= u32::MAX,
        starts(s, items_format(items)),
    ensures
        s.len() >= 4,
        items.len() == from_le32(s.subrange(0, 4)),
        items_format(items).len() == 4 + items.len() * width,
{
    lemma_le32();
    lemma_joined(items, width);
    assert(s.subrange(0, 4) =~= le32(items.len() as u32)) by {
        assert(s.take(items_format(items).len() as int).subrange(0, 4) =~= s.subrange(0, 4));
        assert(items_format(items).subrange(0, 4) =~= le32(items.len() as u32));
    }
}

/// A text begins with the number of its bytes.
proof fn lemma_text_format(text: Seq<char>, s: Seq<u8>)
    requires
        encode_utf8(text).len() <= u32::MAX,
        starts(s, bytes_format(encode_utf8(text))),
    ensures
        s.len() >= 4,
        encode_utf8(text).len() == from_le32(s.subrange(0, 4)),
        bytes_format(encode_utf8(text)).len() == 4 + encode_utf8(text).len(),
        s.subrange(4, 4 + encode_utf8(text).len() as int) == encode_utf8(text),
{
    lemma_le32();
    let e = encode_utf8(text);
    let f = bytes_format(e);
    assert(s.subrange(0, 4) =~= le32(e.len() as u32)) by {
        assert(s.take(f.len() as int).subrange(0, 4) =~= s.subrange(0, 4));
        assert(f.subrange(0, 4) =~= le32(e.len() as u32));
    }
    assert(s.subrange(4, 4 + e.len() as int) =~= e) by {
        assert(s.take(f.len() as int).subrange(4, 4 + e.len() as int) =~= s.subrange(
            4,
            4 + e.len() as int,
        ));
        assert(f.subrange(4, 4 + e.len() as int) =~= e);
    }
}

/// Two fields of a kind that bytes begin with are equally long.
proof fn lemma_same_length(one: Field, other: Field, kind: Kind, s: Seq<u8>)
    requires
        one.is_of(kind),
        other.is_of(kind),
        one.fits(),
        other.fits(),
        starts(s, one.format()),
        starts(s, other.format()),
    ensures
        one.format().len() == other.format().len(),
{
    lemma_le32();
    lemma_le64();
    lemma_widths();
    match (one, other) {
        (Field::OptionalKey(a), Field::OptionalKey(b)) => {
            assert(s.take(one.format().len() as int)[0] == s[0]);
            assert(s.take(other.format().len() as int)[0] == s[0]);
        },
        (Field::Keys(a), Field::Keys(b)) => {
            lemma_items_format(key_items(a), 32, s);
            lemma_items_format(key_items(b), 32, s);
        },
        (Field::Levels(a), Field::Levels(b)) => {
            lemma_items_format(level_items(a), 16, s);
            lemma_items_format(level_items(b), 16, s);
        },
        (Field::Ints(a), Field::Ints(b)) => {
            lemma_items_format(int_items(a), 8, s);
            lemma_items_format(int_items(b), 8, s);
        },
        (Field::Text(a), Field::Text(b)) => {
            lemma_text_format(a, s);
            lemma_text_format(b, s);
        },
        _ => {},
    }
}

/// A field is told by its kind and its bytes.
pub proof fn bytes_tell_the_field(one: Field, other: Field, kind: Kind)
    requires
        one.is_of(kind),
        other.is_of(kind),
        one.fits(),
        other.fits(),
        one.format() == other.format(),
    ensures
        one == other,
{
    lemma_le32();
    lemma_le64();
    lemma_widths();
    let f = one.format();
    assert(f.take(f.len() as int) =~= f);
    match (one, other) {
        (Field::U8(a), Field::U8(b)) => {
            assert(one.format()[0] == a && other.format()[0] == b);
        },
        (Field::Choice { value: a, .. }, Field::Choice { value: b, .. }) => {
            assert(one.format()[0] == a && other.format()[0] == b);
        },
        (Field::Bool(a), Field::Bool(b)) => {
            assert(one.format()[0] == other.format()[0]);
        },
        (Field::U32(a), Field::U32(b)) => {
            assert(from_le32(le32(a)) == a && from_le32(le32(b)) == b);
        },
        (Field::U64(a), Field::U64(b)) => {
            assert(from_le64(le64(a)) == a && from_le64(le64(b)) == b);
        },
        (Field::I64(a), Field::I64(b)) => {
            assert(from_le64(le64(bits_of(a))) == bits_of(a));
            assert(from_le64(le64(bits_of(b))) == bits_of(b));
        },
        (Field::Key(a), Field::Key(b)) => {
            lemma_pubkey_ext(a, b);
        },
        (Field::OptionalKey(a), Field::OptionalKey(b)) => {
            assert(one.format()[0] == other.format()[0]);
            if a is Some && b is Some {
                assert(a->0@ =~= one.format().skip(1));
                assert(b->0@ =~= other.format().skip(1));
                lemma_pubkey_ext(a->0, b->0);
            }
        },
        (Field::Keys(a), Field::Keys(b)) => {
            lemma_items_tell(key_items(a), key_items(b), 32);
            assert forall|i: int| 0 <= i < a.len() implies a[i] == b[i] by {
                assert(key_items(a)[i] == key_items(b)[i]);
                lemma_pubkey_ext(a[i], b[i]);
            }
            assert(a =~= b);
        },
        (Field::Levels(a), Field::Levels(b)) => {
            lemma_items_tell(level_items(a), level_items(b), 16);
            assert forall|i: int| 0 <= i < a.len() implies a[i] == b[i] by {
                assert(level_items(a)[i] == level_items(b)[i]);
                let bytes = level_items(a)[i];
                assert(bytes.subrange(0, 8) =~= le64(a[i].price));
                assert(bytes.subrange(8, 16) =~= le64(a[i].size));
                assert(bytes.subrange(0, 8) =~= le64(b[i].price));
                assert(bytes.subrange(8, 16) =~= le64(b[i].size));
                assert(from_le64(le64(a[i].price)) == from_le64(le64(b[i].price)));
                assert(from_le64(le64(a[i].size)) == from_le64(le64(b[i].size)));
            }
            assert(a =~= b);
        },
        (Field::Ints(a), Field::Ints(b)) => {
            lemma_items_tell(int_items(a), int_items(b), 8);
            assert forall|i: int| 0 <= i < a.len() implies a[i] == b[i] by {
                assert(int_items(a)[i] == int_items(b)[i]);
                assert(from_le64(le64(bits_of(a[i]))) == from_le64(le64(bits_of(b[i]))));
            }
            assert(a =~= b);
        },
        (Field::Text(a), Field::Text(b)) => {
            lemma_text_format(a, f);
            lemma_text_format(b, f);
            assert(encode_utf8(a) == encode_utf8(b));
            vstd::utf8::encode_utf8_decode_utf8(a);
            vstd::utf8::encode_utf8_decode_utf8(b);
        },
        _ => {},
    }
}

/// Items of one width are told by the bytes of their list.
proof fn lemma_items_tell(one: Seq<Seq<u8>>, other: Seq<Seq<u8>>, width: int)
    requires
        all_wide(one, width),
        all_wide(other, width),
        width >= 0,
        one.len() <= u32::MAX,
        other.len() <= u32::MAX,
        items_format(one) == items_format(other),
    ensures
        one == other,
{
    let f = items_format(one);
    assert(f.take(f.len() as int) =~= f);
    lemma_items_format(one, width, f);
    lemma_items_format(other, width, f);
    lemma_le32();
    assert(joined(one) =~= f.skip(4));
    assert(joined(other) =~= f.skip(4));
    lemma_joined_tells(one, other, width);
}

/// The bytes of several fields, one after the other.
pub open spec fn fields_format(fields: Seq<Field>) -> Seq<u8>
    decreases fields.len(),
{
    if fields.len() == 0 {
        Seq::empty()
    } else {
        fields_format(fields.drop_last()) + fields.last().format()
    }
}

/// Whether fields are of these kinds, one by one, and can be written down.
pub open spec fn are_of(fields: Seq<Field>, kinds: Seq<Kind>) -> bool {
    &&& fields.len() == kinds.len()
    &&& forall|i: int|
        0 <= i < fields.len() ==> (#[trigger] fields[i]).is_of(kinds[i]) && fields[i].fits()
}

/// The bytes of fields begin with those of the first ones.
proof fn lemma_front(fields: Seq<Field>, n: int)
    requires
        0 <= n <= fields.len(),
    ensures
        starts(fields_format(fields), fields_format(fields.take(n))),
    decreases fields.len(),
{
    if n == fields.len() {
        assert(fields.take(n) =~= fields);
        assert(fields_format(fields).take(fields_format(fields).len() as int) =~= fields_format(
            fields,
        ));
    } else {
        let front = fields.drop_last();
        lemma_front(front, n);
        assert(front.take(n) =~= fields.take(n));
        let m = fields_format(fields.take(n)).len() as int;
        assert(fields_format(fields).take(m) =~= fields_format(front).take(m));
    }
}

/// Behind the bytes of the first fields stand those of the next.
proof fn lemma_next(fields: Seq<Field>, n: int)
    requires
        0 <= n < fields.len(),
    ensures
        starts(
            fields_format(fields).skip(fields_format(fields.take(n)).len() as int),
            fields[n].format(),
        ),
        fields_format(fields.take(n + 1)).len() == fields_format(fields.take(n)).len()
            + fields[n].format().len(),
{
    let all = fields_format(fields);
    let front = fields_format(fields.take(n));
    let more = fields_format(fields.take(n + 1));
    assert(fields.take(n + 1).drop_last() =~= fields.take(n));
    assert(more == front + fields[n].format());
    lemma_front(fields, n + 1);
    let f = fields[n].format();
    assert(all.skip(front.len() as int).take(f.len() as int) =~= f) by {
        assert(all.take(more.len() as int) == more);
        assert forall|i: int| 0 <= i < f.len() implies all.skip(front.len() as int)[i] == f[i] by {
            assert(all.take(more.len() as int)[front.len() + i] == more[front.len() + i]);
        }
    }
}

/// Fields are told by their kinds and their bytes.
pub proof fn bytes_tell_the_fields(one: Seq<Field>, other: Seq<Field>, kinds: Seq<Kind>)
    requires
        are_of(one, kinds),
        are_of(other, kinds),
        fields_format(one) == fields_format(other),
    ensures
        one == other,
    decreases kinds.len(),
{
    let n = kinds.len() as int;
    if n > 0 {
        lemma_same_fronts(one, other, kinds, n - 1);
        let all = fields_format(one);
        assert(one.take(n - 1) =~= one.drop_last());
        assert(other.take(n - 1) =~= other.drop_last());
        let m = fields_format(one.drop_last()).len() as int;
        assert(all.take(m) =~= fields_format(one.drop_last()));
        assert(all.take(m) =~= fields_format(other.drop_last()));
        assert(all.skip(m) =~= one.last().format());
        assert(all.skip(m) =~= other.last().format());
        bytes_tell_the_field(one.last(), other.last(), kinds.last());
        bytes_tell_the_fields(one.drop_last(), other.drop_last(), kinds.drop_last());
        assert(one =~= one.drop_last().push(one.last()));
        assert(other =~= other.drop_last().push(other.last()));
    } else {
        assert(one =~= other);
    }
}

/// Fields of the same kinds and with the same bytes are equally long, one by
/// one.
proof fn lemma_same_fronts(one: Seq<Field>, other: Seq<Field>, kinds: Seq<Kind>, n: int)
    requires
        are_of(one, kinds),
        are_of(other, kinds),
        fields_format(one) == fields_format(other),
        0 <= n <= kinds.len(),
    ensures
        fields_format(one.take(n)).len() == fields_format(other.take(n)).len(),
    decreases n,
{
    if n > 0 {
        lemma_same_fronts(one, other, kinds, n - 1);
        lemma_next(one, n - 1);
        lemma_next(other, n - 1);
        let rest = fields_format(one).skip(fields_format(one.take(n - 1)).len() as int);
        lemma_same_length(one[n - 1], other[n - 1], kinds[n - 1], rest);
    } else {
        assert(one.take(0) =~= other.take(0));
    }
}

/// What fields hold.
pub open spec fn views(values: Seq<Value>) -> Seq<Field> {
    Seq::new(values.len(), |i: int| values[i]@)
}

/// Writes a field.
pub fn write_value(out: &mut Vec<u8>, value: &Value)
    requires
        value@.fits(),
    ensures
        final(out)@ == old(out)@ + value@.format(),
{
    match value {
        Value::U8(x) => {
            out.push(*x);
        },
        Value::Bool(x) => {
            out.push(
                if *x {
                    1
                } else {
                    0
                },
            );
        },
        Value::U32(x) => {
            append_bytes(out, u32_bytes(*x).as_slice());
        },
        Value::U64(x) => {
            append_bytes(out, u64_bytes(*x).as_slice());
        },
        Value::I64(x) => {
            append_bytes(out, u64_bytes(to_bits(*x)).as_slice());
        },
        Value::Choice { value, .. } => {
            out.push(*value);
        },
        Value::Key(x) => {
            append_bytes(out, x.as_bytes());
        },
        Value::OptionalKey(None) => {
            out.push(0);
        },
        Value::OptionalKey(Some(x)) => {
            out.push(1);
            append_bytes(out, x.as_bytes());
        },
        Value::Keys(x) => {
            append_bytes(out, u32_bytes(x.len() as u32).as_slice());
            let ghost start = out@;
            let ghost items = key_items(x@);
            let mut i: usize = 0;
            assert(start =~= start + joined(items.take(0)));
            while i < x.len()
                invariant
                    i <= x@.len(),
                    items == key_items(x@),
                    out@ == start + joined(items.take(i as int)),
                decreases x@.len() - i,
            {
                append_bytes(out, x[i].as_bytes());
                assert(items.take(i as int + 1).drop_last() =~= items.take(i as int));
                i = i + 1;
                assert(out@ =~= start + joined(items.take(i as int)));
            }
            assert(items.take(i as int) =~= items);
        },
        Value::Levels(x) => {
            append_bytes(out, u32_bytes(x.len() as u32).as_slice());
            let ghost start = out@;
            let ghost items = level_items(x@);
            let mut i: usize = 0;
            assert(start =~= start + joined(items.take(0)));
            while i < x.len()
                invariant
                    i <= x@.len(),
                    items == level_items(x@),
                    out@ == start + joined(items.take(i as int)),
                decreases x@.len() - i,
            {
                append_bytes(out, u64_bytes(x[i].price).as_slice());
                append_bytes(out, u64_bytes(x[i].size).as_slice());
                assert(items.take(i as int + 1).drop_last() =~= items.take(i as int));
                i = i + 1;
                assert(out@ =~= start + joined(items.take(i as int)));
            }
            assert(items.take(i as int) =~= items);
        },
        Value::Ints(x) => {
            append_bytes(out, u32_bytes(x.len() as u32).as_slice());
            let ghost start = out@;
            let ghost items = int_items(x@);
            let mut i: usize = 0;
            assert(start =~= start + joined(items.take(0)));
            while i < x.len()
                invariant
                    i <= x@.len(),
                    items == int_items(x@),
                    out@ == start + joined(items.take(i as int)),
                decreases x@.len() - i,
            {
                append_bytes(out, u64_bytes(to_bits(x[i])).as_slice());
                assert(items.take(i as int + 1).drop_last() =~= items.take(i as int));
                i = i + 1;
                assert(out@ =~= start + joined(items.take(i as int)));
            }
            assert(items.take(i as int) =~= items);
        },
        Value::Text(x) => {
            let bytes: &[u8] = x.as_str().as_bytes();
            append_bytes(out, u32_bytes(bytes.len() as u32).as_slice());
            append_bytes(out, bytes);
        },
    }
    assert(out@ =~= old(out)@ + value@.format());
}

/// Writes fields behind a tag.
pub fn write_values(tag: u8, values: &[Value]) -> (r: Vec<u8>)
    requires
        forall|i: int| 0 <= i < values@.len() ==> (#[trigger] values@[i])@.fits(),
    ensures
        r@ == seq![tag] + fields_format(views(values@)),
{
    let mut out: Vec<u8> = vec![tag];
    let ghost all = views(values@);
    let mut i: usize = 0;
    assert(out@ =~= seq![tag] + fields_format(all.take(0)));
    while i < values.len()
        invariant
            i <= values@.len(),
            all == views(values@),
            forall|j: int| 0 <= j < values@.len() ==> (#[trigger] values@[j])@.fits(),
            out@ == seq![tag] + fields_format(all.take(i as int)),
        decreases values@.len() - i,
    {
        write_value(&mut out, &values[i]);
        assert(all.take(i as int + 1).drop_last() =~= all.take(i as int));
        i = i + 1;
        assert(out@ =~= seq![tag] + fields_format(all.take(i as int)));
    }
    assert(all.take(i as int) =~= all);
    out
}

/// Whether a field of a kind was read from `at` to the place in the result, or
/// no field of the kind stands there.
pub open spec fn is_read(r: Option<(Value, usize)>, kind: Kind, data: Seq<u8>, at: int) -> bool {
    match r {
        Some((value, next)) => {
            &&& at <= next <= data.len()
            &&& value@.is_of(kind)
            &&& value@.fits()
            &&& data.subrange(at, next as int) == value@.format()
        },
        None => forall|field: Field|
            field.is_of(kind) && field.fits() ==> !starts(
                data.skip(at),
                #[trigger] field.format(),
            ),
    }
}

/// How many items of a width follow the number at `at`; `None` if that many do
/// not fit.
fn read_count(data: &[u8], at: usize, width: usize) -> (r: Option<usize>)
    requires
        at <= data@.len(),
        width > 0,
    ensures
        match r {
            Some(n) => {
                &&& at + 4 + n * width <= data@.len()
                &&& n == from_le32(data@.subrange(at as int, at + 4))
            },
            None => at + 4 > data@.len() || at + 4 + from_le32(data@.subrange(at as int, at + 4))
                * width > data@.len(),
        },
{
    assert(data.len() == data@.len());
    let left: usize = data.len() - at;
    if left < 4 {
        return None;
    }
    let n: u32 = read_u32(data, at);
    let room: usize = (left - 4) / width;
    proof {
        let total = left - 4;
        let w = width as int;
        let q = room as int;
        assert(q * w <= total < (q + 1) * w) by (nonlinear_arith)
            requires
                q == total / w,
                w > 0,
                total >= 0,
        ;
        let k = n as int;
        if k <= q {
            assert(k * w <= q * w) by (nonlinear_arith)
                requires
                    k <= q,
                    w > 0,
            ;
        } else {
            assert((q + 1) * w <= k * w) by (nonlinear_arith)
                requires
                    q + 1 <= k,
                    w > 0,
            ;
        }
    }
    if n as u64 <= room as u64 {
        Some(n as usize)
    } else {
        None
    }
}

/// A list that does not fit is not there.
proof fn lemma_no_items(data: Seq<u8>, at: int, items: Seq<Seq<u8>>, width: int)
    requires
        0 <= at <= data.len(),
        all_wide(items, width),
        width > 0,
        items.len() <= u32::MAX,
        at + 4 > data.len() || at + 4 + from_le32(data.subrange(at, at + 4)) * width > data.len(),
    ensures
        !starts(data.skip(at), items_format(items)),
{
    let s = data.skip(at);
    if starts(s, items_format(items)) {
        lemma_items_format(items, width, s);
        assert(s.subrange(0, 4) =~= data.subrange(at, at + 4));
    }
}

/// Reads addresses.
fn read_keys(data: &[u8], at: usize) -> (r: Option<(Value, usize)>)
    requires
        at <= data@.len(),
    ensures
        is_read(r, Kind::Keys, data@, at as int),
{
    proof {
        lemma_le32();
        lemma_widths();
    }
    let n: usize = match read_count(data, at, 32) {
        Some(n) => n,
        None => {
            proof {
                assert forall|field: Field| field.is_of(Kind::Keys) && field.fits() implies !starts(
                    data@.skip(at as int),
                    #[trigger] field.format(),
                ) by {
                    lemma_no_items(data@, at as int, key_items(field->Keys_0), 32);
                }
            }
            return None;
        },
    };
    assert(data.len() == data@.len());
    let first: usize = at + 4;
    let mut keys: Vec<Pubkey> = Vec::new();
    let mut i: usize = 0;
    assert(data@.subrange(first as int, first as int) =~= joined(key_items(keys@)));
    while i < n
        invariant
            i <= n,
            first + n * 32 <= data@.len(),
            data@.len() <= usize::MAX,
            keys@.len() == i,
            data@.subrange(first as int, first + i * 32) == joined(key_items(keys@)),
        decreases n - i,
    {
        let window = slice_subrange(data, first + i * 32, first + i * 32 + 32);
        let next = Pubkey::new(array_32(window));
        let ghost before = keys@;
        keys.push(next);
        proof {
            assert(key_items(keys@).drop_last() =~= key_items(before));
            assert(next@ =~= window@);
            assert(data@.subrange(first as int, first + (i + 1) * 32) =~= data@.subrange(
                first as int,
                first + i * 32,
            ) + window@);
        }
        i = i + 1;
    }
    let next: usize = first + n * 32;
    assert(data@.subrange(at as int, next as int) =~= data@.subrange(at as int, at + 4)
        + data@.subrange(first as int, next as int));
    assert(le32(n as u32) == data@.subrange(at as int, at + 4));
    Some((Value::Keys(keys), next))
}

/// Reads levels.
fn read_levels(data: &[u8], at: usize) -> (r: Option<(Value, usize)>)
    requires
        at <= data@.len(),
    ensures
        is_read(r, Kind::Levels, data@, at as int),
{
    proof {
        lemma_le32();
        lemma_widths();
    }
    let n: usize = match read_count(data, at, 16) {
        Some(n) => n,
        None => {
            proof {
                assert forall|field: Field|
                    field.is_of(Kind::Levels) && field.fits() implies !starts(
                    data@.skip(at as int),
                    #[trigger] field.format(),
                ) by {
                    lemma_no_items(data@, at as int, level_items(field->Levels_0), 16);
                }
            }
            return None;
        },
    };
    assert(data.len() == data@.len());
    let first: usize = at + 4;
    let mut levels: Vec<OrderLevel> = Vec::new();
    let mut i: usize = 0;
    assert(data@.subrange(first as int, first as int) =~= joined(level_items(levels@)));
    while i < n
        invariant
            i <= n,
            first + n * 16 <= data@.len(),
            data@.len() <= usize::MAX,
            levels@.len() == i,
            data@.subrange(first as int, first + i * 16) == joined(level_items(levels@)),
        decreases n - i,
    {
        let place: usize = first + i * 16;
        let next = OrderLevel { price: read_u64(data, place), size: read_u64(data, place + 8) };
        let ghost before = levels@;
        levels.push(next);
        proof {
            lemma_le64();
            assert(level_items(levels@).drop_last() =~= level_items(before));
            assert(level_items(levels@).last() == le64(next.price) + le64(next.size));
            assert(data@.subrange(first as int, first + (i + 1) * 16) =~= data@.subrange(
                first as int,
                first + i * 16,
            ) + (data@.subrange(place as int, place + 8) + data@.subrange(place + 8, place + 16)));
        }
        i = i + 1;
    }
    let next: usize = first + n * 16;
    assert(data@.subrange(at as int, next as int) =~= data@.subrange(at as int, at + 4)
        + data@.subrange(first as int, next as int));
    assert(le32(n as u32) == data@.subrange(at as int, at + 4));
    Some((Value::Levels(levels), next))
}

/// Reads signed numbers.
fn read_ints(data: &[u8], at: usize) -> (r: Option<(Value, usize)>)
    requires
        at <= data@.len(),
    ensures
        is_read(r, Kind::Ints, data@, at as int),
{
    proof {
        lemma_le32();
        lemma_widths();
    }
    let n: usize = match read_count(data, at, 8) {
        Some(n) => n,
        None => {
            proof {
                assert forall|field: Field| field.is_of(Kind::Ints) && field.fits() implies !starts(
                    data@.skip(at as int),
                    #[trigger] field.format(),
                ) by {
                    lemma_no_items(data@, at as int, int_items(field->Ints_0), 8);
                }
            }
            return None;
        },
    };
    assert(data.len() == data@.len());
    let first: usize = at + 4;
    let mut ints: Vec<i64> = Vec::new();
    let mut i: usize = 0;
    assert(data@.subrange(first as int, first as int) =~= joined(int_items(ints@)));
    while i < n
        invariant
            i <= n,
            first + n * 8 <= data@.len(),
            data@.len() <= usize::MAX,
            ints@.len() == i,
            data@.subrange(first as int, first + i * 8) == joined(int_items(ints@)),
        decreases n - i,
    {
        let place: usize = first + i * 8;
        let next: i64 = from_bits(read_u64(data, place));
        let ghost before = ints@;
        ints.push(next);
        proof {
            lemma_le64();
            assert(int_items(ints@).drop_last() =~= int_items(before));
            assert(int_items(ints@).last() == le64(bits_of(next)));
            assert(data@.subrange(first as int, first + (i + 1) * 8) =~= data@.subrange(
                first as int,
                first + i * 8,
            ) + data@.subrange(place as int, place + 8));
        }
        i = i + 1;
    }
    let next: usize = first + n * 8;
    assert(data@.subrange(at as int, next as int) =~= data@.subrange(at as int, at + 4)
        + data@.subrange(first as int, next as int));
    assert(le32(n as u32) == data@.subrange(at as int, at + 4));
    Some((Value::Ints(ints), next))
}

/// Reads a text.
fn read_text(data: &[u8], at: usize) -> (r: Option<(Value, usize)>)
    requires
        at <= data@.len(),
    ensures
        is_read(r, Kind::Text, data@, at as int),
{
    proof {
        lemma_le32();
    }
    let ghost s = data@.skip(at as int);
    let n: usize = match read_count(data, at, 1) {
        Some(n) => n,
        None => {
            proof {
                assert forall|field: Field| field.is_of(Kind::Text) && field.fits() implies !starts(
                    s,
                    #[trigger] field.format(),
                ) by {
                    if starts(s, field.format()) {
                        lemma_text_format(field->Text_0, s);
                        assert(s.subrange(0, 4) =~= data@.subrange(at as int, at + 4));
                    }
                }
            }
            return None;
        },
    };
    assert(data.len() == data@.len());
    let next: usize = at + 4 + n;
    let window = slice_subrange(data, at + 4, next);
    match text_of(window) {
        Some(text) => {
            proof {
                vstd::utf8::decode_utf8_encode_utf8(window@);
                assert(encode_utf8(text@) == window@);
                assert(le32(n as u32) == data@.subrange(at as int, at + 4));
                assert(data@.subrange(at as int, next as int) =~= data@.subrange(
                    at as int,
                    at + 4,
                ) + window@);
            }
            Some((Value::Text(text), next))
        },
        None => {
            proof {
                assert forall|field: Field| field.is_of(Kind::Text) && field.fits() implies !starts(
                    s,
                    #[trigger] field.format(),
                ) by {
                    if starts(s, field.format()) {
                        let text = field->Text_0;
                        lemma_text_format(text, s);
                        assert(s.subrange(0, 4) =~= data@.subrange(at as int, at + 4));
                        assert(s.subrange(4, 4 + n) =~= window@);
                        vstd::utf8::encode_utf8_valid_utf8(text);
                    }
                }
            }
            None
        },
    }
}

/// Reads a field that takes one byte.
fn read_byte(kind: Kind, data: &[u8], at: usize) -> (r: Option<(Value, usize)>)
    requires
        at <= data@.len(),
        kind is U8 || kind is Bool || kind is Choice,
    ensures
        is_read(r, kind, data@, at as int),
{
    let ghost s = data@.skip(at as int);
    proof {
        assert forall|field: Field| field.is_of(kind) && starts(s, #[trigger] field.format()) implies
            s.len() > 0 && s[0] == field.format()[0] by {
            assert(s.take(field.format().len() as int)[0] == field.format()[0]);
        }
    }
    if at == data.len() {
        return None;
    }
    let byte: u8 = data[at];
    assert(data@.subrange(at as int, at + 1) =~= seq![byte]);
    assert(s[0] == byte);
    match kind {
        Kind::Bool => if byte == 0 {
            Some((Value::Bool(false), at + 1))
        } else if byte == 1 {
            Some((Value::Bool(true), at + 1))
        } else {
            None
        },
        Kind::Choice { of } => if byte < of {
            Some((Value::Choice { value: byte, of }, at + 1))
        } else {
            None
        },
        _ => Some((Value::U8(byte), at + 1)),
    }
}

/// Reads a number or an address.
fn read_fixed(kind: Kind, data: &[u8], at: usize) -> (r: Option<(Value, usize)>)
    requires
        at <= data@.len(),
        kind is U32 || kind is U64 || kind is I64 || kind is Key,
    ensures
        is_read(r, kind, data@, at as int),
{
    proof {
        lemma_le32();
        lemma_le64();
    }
    assert(data.len() == data@.len());
    let left: usize = data.len() - at;
    let width: usize = match kind {
        Kind::U32 => 4,
        Kind::Key => 32,
        _ => 8,
    };
    if left < width {
        return None;
    }
    let next: usize = at + width;
    match kind {
        Kind::U32 => Some((Value::U32(read_u32(data, at)), next)),
        Kind::U64 => Some((Value::U64(read_u64(data, at)), next)),
        Kind::I64 => Some((Value::I64(from_bits(read_u64(data, at))), next)),
        _ => {
            let window = slice_subrange(data, at, next);
            let found = Pubkey::new(array_32(window));
            assert(found@ =~= window@);
            Some((Value::Key(found), next))
        },
    }
}

/// Reads an address that may be missing.
fn read_optional(data: &[u8], at: usize) -> (r: Option<(Value, usize)>)
    requires
        at <= data@.len(),
    ensures
        is_read(r, Kind::OptionalKey, data@, at as int),
{
    let ghost s = data@.skip(at as int);
    proof {
        assert forall|field: Field|
            field.is_of(Kind::OptionalKey) && starts(s, #[trigger] field.format()) implies s.len()
            > 0 && s[0] == field.format()[0] by {
            assert(s.take(field.format().len() as int)[0] == field.format()[0]);
        }
    }
    assert(data.len() == data@.len());
    if at == data.len() {
        return None;
    }
    let byte: u8 = data[at];
    assert(s[0] == byte);
    if byte == 0 {
        assert(data@.subrange(at as int, at + 1) =~= seq![0u8]);
        return Some((Value::OptionalKey(None), at + 1));
    }
    if byte != 1 || data.len() - at < 33 {
        return None;
    }
    let window = slice_subrange(data, at + 1, at + 33);
    let found = Pubkey::new(array_32(window));
    assert(found@ =~= window@);
    assert(data@.subrange(at as int, at + 33) =~= seq![1u8] + window@);
    Some((Value::OptionalKey(Some(found)), at + 33))
}

/// Reads a field of a kind.
pub fn read_value(kind: Kind, data: &[u8], at: usize) -> (r: Option<(Value, usize)>)
    requires
        at <= data@.len(),
    ensures
        is_read(r, kind, data@, at as int),
{
    match kind {
        Kind::U8 | Kind::Bool | Kind::Choice { .. } => read_byte(kind, data, at),
        Kind::U32 | Kind::U64 | Kind::I64 | Kind::Key => read_fixed(kind, data, at),
        Kind::OptionalKey => read_optional(data, at),
        Kind::Keys => read_keys(data, at),
        Kind::Levels => read_levels(data, at),
        Kind::Ints => read_ints(data, at),
        Kind::Text => read_text(data, at),
    }
}

/// Reads fields of these kinds; nothing may be left over. `None` only if no
/// fields of these kinds have these bytes.
pub fn read_values(kinds: &[Kind], data: &[u8]) -> (r: Option<Vec<Value>>)
    ensures
        match r {
            Some(values) => are_of(views(values@), kinds@) && data@ == fields_format(
                views(values@),
            ),
            None => forall|fields: Seq<Field>|
                are_of(fields, kinds@) ==> data@ != #[trigger] fields_format(fields),
        },
{
    let mut values: Vec<Value> = Vec::new();
    let mut at: usize = 0;
    let mut i: usize = 0;
    proof {
        assert(views(values@) =~= Seq::empty());
        assert(data@.take(0) =~= fields_format(views(values@)));
        assert forall|fields: Seq<Field>|
            are_of(fields, kinds@) && data@ == #[trigger] fields_format(fields) implies
            fields_format(fields.take(0)).len() == 0 by {
            assert(fields.take(0) =~= Seq::empty());
        }
    }
    while i < kinds.len()
        invariant
            i <= kinds@.len(),
            at <= data@.len(),
            values@.len() == i,
            forall|j: int|
                0 <= j < i ==> (#[trigger] values@[j])@.is_of(kinds@[j]) && values@[j]@.fits(),
            data@.take(at as int) == fields_format(views(values@)),
            forall|fields: Seq<Field>|
                are_of(fields, kinds@) && data@ == #[trigger] fields_format(fields)
                    ==> fields_format(fields.take(i as int)).len() == at,
        decreases kinds@.len() - i,
    {
        let found = read_value(kinds[i], data, at);
        match found {
            None => {
                proof {
                    assert forall|fields: Seq<Field>| are_of(fields, kinds@) implies data@
                        != #[trigger] fields_format(fields) by {
                        if data@ == fields_format(fields) {
                            lemma_next(fields, i as int);
                            assert(fields[i as int].is_of(kinds@[i as int]));
                            assert(!starts(data@.skip(at as int), fields[i as int].format()));
                        }
                    }
                }
                return None;
            },
            Some((value, next)) => {
                let ghost before = views(values@);
                values.push(value);
                proof {
                    assert(views(values@).drop_last() =~= before);
                    assert(data@.take(next as int) =~= data@.take(at as int) + data@.subrange(
                        at as int,
                        next as int,
                    ));
                    let rest = data@.skip(at as int);
                    assert(rest.take(next - at) =~= data@.subrange(at as int, next as int));
                    assert forall|fields: Seq<Field>|
                        are_of(fields, kinds@) && data@ == #[trigger] fields_format(
                            fields,
                        ) implies fields_format(fields.take(i as int + 1)).len() == next by {
                        lemma_next(fields, i as int);
                        assert(fields[i as int].is_of(kinds@[i as int]));
                        lemma_same_length(
                            value@,
                            fields[i as int],
                            kinds@[i as int],
                            rest,
                        );
                    }
                }
                at = next;
            },
        }
        i = i + 1;
    }
    if at != data.len() {
        proof {
            assert forall|fields: Seq<Field>| are_of(fields, kinds@) implies data@
                != #[trigger] fields_format(fields) by {
                if data@ == fields_format(fields) {
                    assert(fields.take(i as int) =~= fields);
                }
            }
        }
        return None;
    }
    assert(data@.take(at as int) =~= data@);
    Some(values)
}

/// What a field of a known kind holds.
impl Value {
    /// The byte.
    pub fn get_u8(&self) -> (r: u8)
        requires
            self@ is U8,
        ensures
            self@ == Field::U8(r),
    {
        match self {
            Value::U8(x) => *x,
            _ => {
                assert(false);
                0
            },
        }
    }

    /// The truth value.
    pub fn get_bool(&self) -> (r: bool)
        requires
            self@ is Bool,
        ensures
            self@ == Field::Bool(r),
    {
        match self {
            Value::Bool(x) => *x,
            _ => {
                assert(false);
                false
            },
        }
    }

    /// The number.
    pub fn get_u32(&self) -> (r: u32)
        requires
            self@ is U32,
        ensures
            self@ == Field::U32(r),
    {
        match self {
            Value::U32(x) => *x,
            _ => {
                assert(false);
                0
            },
        }
    }

    /// The number.
    pub fn get_u64(&self) -> (r: u64)
        requires
            self@ is U64,
        ensures
            self@ == Field::U64(r),
    {
        match self {
            Value::U64(x) => *x,
            _ => {
                assert(false);
                0
            },
        }
    }

    /// The number.
    pub fn get_i64(&self) -> (r: i64)
        requires
            self@ is I64,
        ensures
            self@ == Field::I64(r),
    {
        match self {
            Value::I64(x) => *x,
            _ => {
                assert(false);
                0
            },
        }
    }

    /// The address.
    pub fn get_key(&self) -> (r: Pubkey)
        requires
            self@ is Key,
        ensures
            self@ == Field::Key(r),
    {
        match self {
            Value::Key(x) => *x,
            _ => {
                assert(false);
                Pubkey::new([0; 32])
            },
        }
    }

    /// The address, if there is one.
    pub fn get_optional_key(&self) -> (r: Option<Pubkey>)
        requires
            self@ is OptionalKey,
        ensures
            self@ == Field::OptionalKey(r),
    {
        match self {
            Value::OptionalKey(x) => *x,
            _ => {
                assert(false);
                None
            },
        }
    }

    /// The addresses.
    pub fn get_keys(&self) -> (r: Vec<Pubkey>)
        requires
            self@ is Keys,
        ensures
            self@ == Field::Keys(r@),
    {
        match self {
            Value::Keys(x) => copy_keys(x.as_slice()),
            _ => {
                assert(false);
                Vec::new()
            },
        }
    }

    /// The levels.
    pub fn get_levels(&self) -> (r: Vec<OrderLevel>)
        requires
            self@ is Levels,
        ensures
            self@ == Field::Levels(r@),
    {
        match self {
            Value::Levels(x) => copy_levels(x.as_slice()),
            _ => {
                assert(false);
                Vec::new()
            },
        }
    }

    /// The numbers.
    pub fn get_ints(&self) -> (r: Vec<i64>)
        requires
            self@ is Ints,
        ensures
            self@ == Field::Ints(r@),
    {
        match self {
            Value::Ints(x) => copy_ints(x.as_slice()),
            _ => {
                assert(false);
                Vec::new()
            },
        }
    }

    /// The text.
    pub fn get_text(&self) -> (r: String)
        requires
            self@ is Text,
        ensures
            self@ == Field::Text(r@),
    {
        match self {
            Value::Text(x) => x.clone(),
            _ => {
                assert(false);
                String::new()
            },
        }
    }

    /// The choice.
    pub fn get_choice(&self) -> (r: u8)
        requires
            self@ is Choice,
        ensures
            self@ matches Field::Choice { value, .. } && value == r,
    {
        match self {
            Value::Choice { value, .. } => *value,
            _ => {
                assert(false);
                0
            },
        }
    }
}

/// A copy of some levels.
pub fn copy_levels(levels: &[OrderLevel]) -> (r: Vec<OrderLevel>)
    ensures
        r@ == levels@,
{
    let mut out: Vec<OrderLevel> = Vec::new();
    let mut i: usize = 0;
    while i < levels.len()
        invariant
            i <= levels@.len(),
            out@ == levels@.take(i as int),
        decreases levels@.len() - i,
    {
        out.push(levels[i]);
        i = i + 1;
        assert(out@ =~= levels@.take(i as int));
    }
    assert(out@ =~= levels@);
    out
}

/// A copy of some numbers.
pub fn copy_ints(ints: &[i64]) -> (r: Vec<i64>)
    ensures
        r@ == ints@,
{
    let mut out: Vec<i64> = Vec::new();
    let mut i: usize = 0;
    while i < ints.len()
        invariant
            i <= ints@.len(),
            out@ == ints@.take(i as int),
        decreases ints@.len() - i,
    {
        out.push(ints[i]);
        i = i + 1;
        assert(out@ =~= ints@.take(i as int));
    }
    assert(out@ =~= ints@);
    out
}

/// Fields that were read are of the kinds that were asked for.
pub proof fn lemma_read_kinds(values: Seq<Value>, kinds: Seq<Kind>)
    requires
        are_of(views(values), kinds),
    ensures
        values.len() == kinds.len(),
        forall|i: int| 0 <= i < values.len() ==> (#[trigger] values[i])@.is_of(kinds[i]),
{
    assert forall|i: int| 0 <= i < values.len() implies (#[trigger] values[i])@.is_of(kinds[i]) by {
        assert(views(values)[i].is_of(kinds[i]));
    }
}

/// A number that is not negative keeps its bits, and a negative one has those
/// of the number that is larger by all 64 of them. Different numbers have
/// different bits.
pub proof fn bits_tell_the_number(x: i64, y: i64)
    ensures
        x >= 0 ==> bits_of(x) == x,
        x < 0 ==> bits_of(x) == x + 0x1_0000_0000_0000_0000,
        bits_of(x) == bits_of(y) ==> x == y,
{
}

} // verus!
