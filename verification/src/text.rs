//! Numbers and bytes as text.
use vstd::prelude::*;
use vstd::string::{StrSliceExecFns, StringExecFns};
use vstd::utf8::{decode_utf8, valid_utf8};

verus! {

/// The digit of a number below sixteen.
pub open spec fn digit(d: int) -> char {
    if d < 10 {
        (48 + d) as char
    } else {
        (87 + d) as char
    }
}

/// A number in decimal.
pub open spec fn decimal(n: nat) -> Seq<char>
    decreases n,
{
    if n < 10 {
        seq![digit(n as int)]
    } else {
        decimal(n / 10).push(digit((n % 10) as int))
    }
}

/// Bytes in lower-case hexadecimal, two digits each.
pub open spec fn hexadecimal(bytes: Seq<u8>) -> Seq<char>
    decreases bytes.len(),
{
    if bytes.len() == 0 {
        Seq::empty()
    } else {
        hexadecimal(bytes.drop_last()) + seq![
            digit(bytes.last() as int / 16),
            digit(bytes.last() as int % 16),
        ]
    }
}

/// Appends the digit of a number below sixteen.
pub fn push_digit(out: &mut String, d: u8)
    requires
        d < 16,
    ensures
        final(out)@ == old(out)@.push(digit(d as int)),
{
    let s: &str = if d == 0 {
        "0"
    } else if d == 1 {
        "1"
    } else if d == 2 {
        "2"
    } else if d == 3 {
        "3"
    } else if d == 4 {
        "4"
    } else if d == 5 {
        "5"
    } else if d == 6 {
        "6"
    } else if d == 7 {
        "7"
    } else if d == 8 {
        "8"
    } else if d == 9 {
        "9"
    } else if d == 10 {
        "a"
    } else if d == 11 {
        "b"
    } else if d == 12 {
        "c"
    } else if d == 13 {
        "d"
    } else if d == 14 {
        "e"
    } else {
        "f"
    };
    proof {
        reveal_strlit("0");
        reveal_strlit("1");
        reveal_strlit("2");
        reveal_strlit("3");
        reveal_strlit("4");
        reveal_strlit("5");
        reveal_strlit("6");
        reveal_strlit("7");
        reveal_strlit("8");
        reveal_strlit("9");
        reveal_strlit("a");
        reveal_strlit("b");
        reveal_strlit("c");
        reveal_strlit("d");
        reveal_strlit("e");
        reveal_strlit("f");
        assert(s@ =~= seq![digit(d as int)]);
    }
    out.append(s);
    assert(out@ =~= old(out)@.push(digit(d as int)));
}

/// Appends a number in decimal.
pub fn push_decimal(out: &mut String, n: u64)
    ensures
        final(out)@ == old(out)@ + decimal(n as nat),
    decreases n,
{
    if n < 10 {
        push_digit(out, n as u8);
        assert(out@ =~= old(out)@ + decimal(n as nat));
    } else {
        push_decimal(out, n / 10);
        push_digit(out, (n % 10) as u8);
        assert(out@ =~= old(out)@ + decimal(n as nat));
    }
}

/// Bytes in lower-case hexadecimal, two digits each.
pub fn hex(bytes: &[u8]) -> (r: String)
    ensures
        r@ == hexadecimal(bytes@),
{
    let mut out: String = String::new();
    let mut i: usize = 0;
    while i < bytes.len()
        invariant
            i <= bytes@.len(),
            out@ == hexadecimal(bytes@.take(i as int)),
        decreases bytes@.len() - i,
    {
        let byte: u8 = bytes[i];
        push_digit(&mut out, byte / 16);
        push_digit(&mut out, byte % 16);
        assert(bytes@.take(i as int + 1).drop_last() =~= bytes@.take(i as int));
        assert(out@ =~= hexadecimal(bytes@.take(i as int + 1)));
        i = i + 1;
    }
    assert(bytes@.take(i as int) =~= bytes@);
    out
}

/// Two digits stand for every byte.
pub proof fn hex_has_two_digits_per_byte(bytes: Seq<u8>)
    ensures
        hexadecimal(bytes).len() == 2 * bytes.len(),
    decreases bytes.len(),
{
    if bytes.len() > 0 {
        hex_has_two_digits_per_byte(bytes.drop_last());
    }
}

/// Whether `needle` stands in `hay` at `at`.
pub open spec fn stands_at(hay: Seq<u8>, needle: Seq<u8>, at: int) -> bool {
    &&& 0 <= at
    &&& at + needle.len() <= hay.len()
    &&& hay.subrange(at, at + needle.len()) == needle
}

/// Whether `at` is where `needle` first stands in `hay`.
pub open spec fn first_at(hay: Seq<u8>, needle: Seq<u8>, at: int) -> bool {
    &&& stands_at(hay, needle, at)
    &&& forall|i: int| 0 <= i < at ==> !#[trigger] stands_at(hay, needle, i)
}

/// Where `needle` first stands in `hay`.
pub fn find_bytes(hay: &[u8], needle: &[u8]) -> (r: Option<usize>)
    ensures
        match r {
            Some(at) => first_at(hay@, needle@, at as int),
            None => forall|i: int| !#[trigger] stands_at(hay@, needle@, i),
        },
{
    if needle.len() > hay.len() {
        return None;
    }
    let last: usize = hay.len() - needle.len();
    let mut at: usize = 0;
    while at <= last
        invariant
            at <= last + 1,
            last == hay@.len() - needle@.len(),
            hay.len() == hay@.len(),
            forall|i: int| 0 <= i < at ==> !#[trigger] stands_at(hay@, needle@, i),
        decreases last + 1 - at,
    {
        let window = vstd::slice::slice_subrange(hay, at, at + needle.len());
        if crate::bytes::same_bytes(window, needle) {
            return Some(at);
        }
        if at == last {
            return None;
        }
        at = at + 1;
    }
    None
}

/// Whether a byte is a decimal digit.
pub open spec fn is_digit(b: u8) -> bool {
    48 <= b <= 57
}

/// Whether a text begins with another.
pub open spec fn begins(text: Seq<char>, prefix: Seq<char>) -> bool {
    prefix.len() <= text.len() && text.take(prefix.len() as int) == prefix
}

/// Whether a text begins with another.
pub fn starts_with(text: &str, prefix: &str) -> (r: bool)
    ensures
        r == begins(text@, prefix@),
{
    let n: usize = prefix.unicode_len();
    if text.unicode_len() < n {
        return false;
    }
    let mut i: usize = 0;
    while i < n
        invariant
            i <= n,
            n == prefix@.len(),
            n <= text@.len(),
            forall|j: int| 0 <= j < i ==> text@[j] == prefix@[j],
        decreases n - i,
    {
        if text.get_char(i) != prefix.get_char(i) {
            assert(text@.take(n as int)[i as int] != prefix@[i as int]);
            return false;
        }
        i = i + 1;
    }
    assert(text@.take(n as int) =~= prefix@);
    true
}

/// What follows a prefix in a text that begins with it.
pub fn strip_prefix<'a>(text: &'a str, prefix: &str) -> (r: Option<&'a str>)
    ensures
        match r {
            Some(rest) => begins(text@, prefix@) && rest@ == text@.skip(prefix@.len() as int),
            None => !begins(text@, prefix@),
        },
{
    if starts_with(text, prefix) {
        Some(text.substring_char(prefix.unicode_len(), text.unicode_len()))
    } else {
        None
    }
}

/// Whether two texts are the same.
pub fn same_text(one: &str, other: &str) -> (r: bool)
    ensures
        r == (one@ == other@),
{
    let r: bool = one.unicode_len() == other.unicode_len() && starts_with(one, other);
    assert(one@.take(one@.len() as int) =~= one@);
    r
}

/// Whether `needle` stands anywhere in `hay`.
pub open spec fn holds_bytes(hay: Seq<u8>, needle: Seq<u8>) -> bool {
    exists|at: int| #[trigger] stands_at(hay, needle, at)
}

/// Whether `needle` stands anywhere in `hay`.
pub fn contains_bytes(hay: &[u8], needle: &[u8]) -> (r: bool)
    ensures
        r == holds_bytes(hay@, needle@),
{
    match find_bytes(hay, needle) {
        Some(at) => {
            assert(stands_at(hay@, needle@, at as int));
            true
        },
        None => false,
    }
}

/// What follows `needle` where it first stands in `hay`.
pub open spec fn following(hay: Seq<u8>, needle: Seq<u8>) -> Option<Seq<u8>> {
    if exists|at: int| first_at(hay, needle, at) {
        let at = choose|at: int| first_at(hay, needle, at);
        Some(hay.skip(at + needle.len()))
    } else {
        None
    }
}

/// What follows `needle` where it first stands in `hay`.
pub fn after_first<'a>(hay: &'a [u8], needle: &[u8]) -> (r: Option<&'a [u8]>)
    ensures
        match r {
            Some(rest) => following(hay@, needle@) == Some(rest@),
            None => following(hay@, needle@) is None,
        },
{
    match find_bytes(hay, needle) {
        Some(at) => {
            proof {
                let chosen = choose|i: int| first_at(hay@, needle@, i);
                assert(first_at(hay@, needle@, at as int));
                assert(chosen == at) by {
                    if chosen < at {
                        assert(!stands_at(hay@, needle@, chosen));
                    } else if at < chosen {
                        assert(!stands_at(hay@, needle@, at as int));
                    }
                }
            }
            assert(hay.len() == hay@.len());
            let rest = vstd::slice::slice_subrange(hay, at + needle.len(), hay.len());
            assert(rest@ =~= hay@.skip(at + needle@.len()));
            Some(rest)
        },
        None => {
            assert forall|at: int| !first_at(hay@, needle@, at) by {
                assert(!stands_at(hay@, needle@, at));
            }
            None
        },
    }
}

/// The digits at the beginning of some bytes.
pub open spec fn leading_digits(s: Seq<u8>) -> Seq<u8>
    decreases s.len(),
{
    if s.len() == 0 || !is_digit(s[0]) {
        Seq::empty()
    } else {
        seq![s[0]] + leading_digits(s.skip(1))
    }
}

/// The first run of digits in some bytes.
pub open spec fn run_of_digits(s: Seq<u8>) -> Seq<u8>
    decreases s.len(),
{
    if s.len() == 0 || is_digit(s[0]) {
        leading_digits(s)
    } else {
        run_of_digits(s.skip(1))
    }
}

/// The first run of digits in some bytes.
pub fn first_digits(bytes: &[u8]) -> (r: Vec<u8>)
    ensures
        r@ == run_of_digits(bytes@),
{
    let mut i: usize = 0;
    assert(bytes@.skip(0) =~= bytes@);
    while i < bytes.len() && !(bytes[i] >= 48 && bytes[i] <= 57)
        invariant
            i <= bytes@.len(),
            run_of_digits(bytes@.skip(i as int)) == run_of_digits(bytes@),
        decreases bytes@.len() - i,
    {
        assert(bytes@.skip(i as int).skip(1) =~= bytes@.skip(i as int + 1));
        i = i + 1;
    }
    let mut out: Vec<u8> = Vec::new();
    assert(run_of_digits(bytes@) == leading_digits(bytes@.skip(i as int)));
    assert(out@ + leading_digits(bytes@.skip(i as int)) =~= run_of_digits(bytes@));
    while i < bytes.len() && bytes[i] >= 48 && bytes[i] <= 57
        invariant
            i <= bytes@.len(),
            out@ + leading_digits(bytes@.skip(i as int)) == run_of_digits(bytes@),
        decreases bytes@.len() - i,
    {
        let ghost before = out@;
        out.push(bytes[i]);
        proof {
            let rest = bytes@.skip(i as int);
            assert(rest.skip(1) =~= bytes@.skip(i as int + 1));
            assert(out@ + leading_digits(bytes@.skip(i as int + 1)) =~= before + leading_digits(
                rest,
            ));
        }
        i = i + 1;
    }
    assert(leading_digits(bytes@.skip(i as int)) =~= Seq::empty());
    assert(out@ =~= run_of_digits(bytes@));
    out
}

/// `core::str::from_utf8`: the text that bytes encode in UTF-8, if they do.
#[verifier::external_body]
pub(crate) fn text_of(bytes: &[u8]) -> (r: Option<String>)
    ensures
        match r {
            Some(text) => valid_utf8(bytes@) && text@ == decode_utf8(bytes@),
            None => !valid_utf8(bytes@),
        },
{
    core::str::from_utf8(bytes).ok().map(|text| text.to_owned())
}

/// What follows is everything behind the first place that holds the needle.
pub proof fn what_follows_comes_behind_the_first(hay: Seq<u8>, needle: Seq<u8>, at: int)
    requires
        first_at(hay, needle, at),
    ensures
        following(hay, needle) == Some(hay.skip(at + needle.len())),
{
    let chosen = choose|other: int| first_at(hay, needle, other);
    assert(first_at(hay, needle, chosen));
    assert(chosen == at) by {
        if chosen < at {
            assert(stands_at(hay, needle, chosen));
        } else if at < chosen {
            assert(stands_at(hay, needle, at));
        }
    }
}

/// The first run of digits is found behind anything that is no digit, and is
/// taken up to the next byte that is none.
pub proof fn the_first_run_of_digits_is_taken(front: Seq<u8>, digits: Seq<u8>, rest: Seq<u8>)
    requires
        forall|i: int| 0 <= i < front.len() ==> !(48 <= #[trigger] front[i] <= 57),
        forall|i: int| 0 <= i < digits.len() ==> 48 <= #[trigger] digits[i] <= 57,
        digits.len() > 0,
        rest.len() > 0 ==> !(48 <= rest[0] <= 57),
    ensures
        run_of_digits(front + digits + rest) == digits,
    decreases front.len(),
{
    let all = front + digits + rest;
    if front.len() == 0 {
        assert(all =~= digits + rest);
        lemma_leading_digits(digits, rest);
    } else {
        assert(all[0] == front[0]);
        assert(all.skip(1) =~= front.skip(1) + digits + rest);
        the_first_run_of_digits_is_taken(front.skip(1), digits, rest);
    }
}

/// Where there is no digit, there is no run of digits.
pub proof fn no_digits_no_run(s: Seq<u8>)
    requires
        forall|i: int| 0 <= i < s.len() ==> !(48 <= #[trigger] s[i] <= 57),
    ensures
        run_of_digits(s).len() == 0,
    decreases s.len(),
{
    if s.len() > 0 {
        assert forall|i: int| 0 <= i < s.skip(1).len() implies !(48 <= #[trigger] s.skip(1)[i]
            <= 57) by {
            assert(s.skip(1)[i] == s[i + 1]);
        }
        no_digits_no_run(s.skip(1));
    }
}

/// Digits at the front are taken up to the next byte that is none.
proof fn lemma_leading_digits(digits: Seq<u8>, rest: Seq<u8>)
    requires
        forall|i: int| 0 <= i < digits.len() ==> 48 <= #[trigger] digits[i] <= 57,
        rest.len() > 0 ==> !(48 <= rest[0] <= 57),
    ensures
        leading_digits(digits + rest) == digits,
    decreases digits.len(),
{
    let all = digits + rest;
    if digits.len() == 0 {
        assert(all =~= rest);
        assert(digits =~= Seq::<u8>::empty());
    } else {
        assert(all[0] == digits[0]);
        assert(all.skip(1) =~= digits.skip(1) + rest);
        lemma_leading_digits(digits.skip(1), rest);
        assert(seq![digits[0]] + digits.skip(1) =~= digits);
    }
}

/// Reads a number back from its digits.
pub open spec fn number_of(text: Seq<char>) -> int
    decreases text.len(),
{
    if text.len() == 0 {
        0
    } else {
        10 * number_of(text.drop_last()) + (text.last() as int - 48)
    }
}

/// A number is read back from its decimal digits, of which there are as few as
/// can be.
pub proof fn decimals_read_back(n: nat)
    ensures
        number_of(decimal(n)) == n,
        decimal(n).len() >= 1,
        forall|i: int| 0 <= i < decimal(n).len() ==> '0' <= #[trigger] decimal(n)[i] <= '9',
        n > 0 ==> decimal(n)[0] != '0',
        n == 0 ==> decimal(n).len() == 1,
    decreases n,
{
    reveal_with_fuel(number_of, 2);
    if n >= 10 {
        decimals_read_back(n / 10);
        let text = decimal(n);
        assert(text.drop_last() =~= decimal(n / 10));
        assert forall|i: int| 0 <= i < text.len() implies '0' <= #[trigger] text[i] <= '9' by {
            if i < text.len() - 1 {
                assert(text[i] == decimal(n / 10)[i]);
            }
        }
        assert(text[0] == decimal(n / 10)[0]);
    } else {
        assert(decimal(n).drop_last() =~= Seq::<char>::empty());
    }
}

/// The worth of a hexadecimal digit.
pub open spec fn worth(c: char) -> int {
    if c <= '9' {
        c as int - 48
    } else {
        c as int - 87
    }
}

/// Every byte is read back from its two digits, the higher one first.
pub proof fn hex_reads_back(bytes: Seq<u8>, i: int)
    requires
        0 <= i < bytes.len(),
    ensures
        hexadecimal(bytes).len() == 2 * bytes.len(),
        bytes[i] == 16 * worth(hexadecimal(bytes)[2 * i]) + worth(hexadecimal(bytes)[2 * i + 1]),
    decreases bytes.len(),
{
    hex_has_two_digits_per_byte(bytes);
    hex_has_two_digits_per_byte(bytes.drop_last());
    if i < bytes.len() - 1 {
        hex_reads_back(bytes.drop_last(), i);
        assert(hexadecimal(bytes)[2 * i] == hexadecimal(bytes.drop_last())[2 * i]);
        assert(hexadecimal(bytes)[2 * i + 1] == hexadecimal(bytes.drop_last())[2 * i + 1]);
    }
}

} // verus!
