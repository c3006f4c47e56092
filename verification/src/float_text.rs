//! How floating-point numbers are written.
use crate::text::is_digit;
use vstd::prelude::*;
use vstd::slice::slice_subrange;

verus! {

/// Whether bytes are digits only.
pub open spec fn all_digits(s: Seq<u8>) -> bool {
    forall|i: int| 0 <= i < s.len() ==> is_digit(#[trigger] s[i])
}

/// What is left without a sign in front.
pub open spec fn without_sign(s: Seq<u8>) -> Seq<u8> {
    if s.len() > 0 && (s[0] == 43 || s[0] == 45) {
        s.skip(1)
    } else {
        s
    }
}

/// Whether a byte marks an exponent: `e` or `E`.
pub open spec fn is_mark(b: u8) -> bool {
    b == 101 || b == 69
}

/// Whether bytes are digits, with a point in front of, behind or between them
/// or none.
pub open spec fn is_plain(s: Seq<u8>) -> bool {
    ||| s.len() > 0 && all_digits(s)
    ||| s.len() > 1 && exists|point: int|
        0 <= point < s.len() && #[trigger] s[point] == 46 && all_digits(s.take(point))
            && all_digits(s.skip(point + 1))
}

/// Whether bytes are an exponent: its mark, a sign or none, and digits.
pub open spec fn is_exponent(s: Seq<u8>) -> bool {
    &&& s.len() > 0
    &&& is_mark(s[0])
    &&& without_sign(s.skip(1)).len() > 0
    &&& all_digits(without_sign(s.skip(1)))
}

/// A letter in lower case.
pub open spec fn lower(b: u8) -> u8 {
    if 65 <= b <= 90 {
        (b + 32) as u8
    } else {
        b
    }
}

/// The word `inf`.
pub const INF: [u8; 3] = [105, 110, 102];

/// The word `infinity`.
pub const INFINITY: [u8; 8] = [105, 110, 102, 105, 110, 105, 116, 121];

/// The word `nan`.
pub const NAN: [u8; 3] = [110, 97, 110];

/// Whether bytes are a word in upper or lower case.
pub open spec fn is_word(s: Seq<u8>, word: Seq<u8>) -> bool {
    s.len() == word.len() && forall|i: int| 0 <= i < s.len() ==> lower(#[trigger] s[i]) == word[i]
}

/// Whether bytes are a floating-point number: a sign or none, and then one of
/// the words for what is no number or infinite, or digits with a point or
/// none and an exponent or none.
pub open spec fn is_float(s: Seq<u8>) -> bool {
    let t = without_sign(s);
    ||| is_word(t, INF@)
    ||| is_word(t, INFINITY@)
    ||| is_word(t, NAN@)
    ||| is_plain(t)
    ||| exists|at: int|
        0 <= at < t.len() && is_plain(#[trigger] t.take(at)) && is_exponent(t.skip(at))
}

/// Whether bytes are digits only.
fn has_digits_only(s: &[u8]) -> (r: bool)
    ensures
        r == all_digits(s@),
{
    let mut i: usize = 0;
    while i < s.len()
        invariant
            i <= s@.len(),
            forall|j: int| 0 <= j < i ==> is_digit(#[trigger] s@[j]),
        decreases s@.len() - i,
    {
        if s[i] < 48 || s[i] > 57 {
            assert(!is_digit(s@[i as int]));
            return false;
        }
        i = i + 1;
    }
    true
}

/// What is left without a sign in front.
fn strip_sign(s: &[u8]) -> (r: &[u8])
    ensures
        r@ == without_sign(s@),
{
    if s.len() > 0 && (s[0] == 43 || s[0] == 45) {
        let r = slice_subrange(s, 1, s.len());
        assert(r@ =~= s@.skip(1));
        r
    } else {
        s
    }
}

/// Whether bytes are digits with a point or none.
fn reads_plain(s: &[u8]) -> (r: bool)
    ensures
        r == is_plain(s@),
{
    let mut point: usize = 0;
    while point < s.len() && s[point] != 46
        invariant
            point <= s@.len(),
            forall|j: int| 0 <= j < point ==> #[trigger] s@[j] != 46,
        decreases s@.len() - point,
    {
        point = point + 1;
    }
    if point == s.len() {
        return s.len() > 0 && has_digits_only(s);
    }
    let whole = slice_subrange(s, 0, point);
    let fraction = slice_subrange(s, point + 1, s.len());
    assert(whole@ =~= s@.take(point as int));
    assert(fraction@ =~= s@.skip(point + 1));
    assert(!is_digit(s@[point as int]));
    let r: bool = s.len() > 1 && has_digits_only(whole) && has_digits_only(fraction);
    proof {
        if is_plain(s@) {
            let other = choose|other: int|
                0 <= other < s@.len() && #[trigger] s@[other] == 46 && all_digits(s@.take(other))
                    && all_digits(s@.skip(other + 1));
            if other > point {
                assert(s@.take(other)[point as int] == 46);
            }
            assert(other == point);
        }
    }
    r
}

/// Whether bytes are an exponent.
fn reads_exponent(s: &[u8]) -> (r: bool)
    ensures
        r == is_exponent(s@),
{
    if s.len() == 0 || !(s[0] == 101 || s[0] == 69) {
        return false;
    }
    let rest = slice_subrange(s, 1, s.len());
    assert(rest@ =~= s@.skip(1));
    let digits = strip_sign(rest);
    digits.len() > 0 && has_digits_only(digits)
}

/// Whether bytes are a word in upper or lower case.
fn reads_word(s: &[u8], word: &[u8]) -> (r: bool)
    ensures
        r == is_word(s@, word@),
{
    if s.len() != word.len() {
        return false;
    }
    let mut i: usize = 0;
    while i < s.len()
        invariant
            i <= s@.len(),
            s@.len() == word@.len(),
            forall|j: int| 0 <= j < i ==> lower(#[trigger] s@[j]) == word@[j],
        decreases s@.len() - i,
    {
        let b: u8 = if 65 <= s[i] && s[i] <= 90 {
            s[i] + 32
        } else {
            s[i]
        };
        if b != word[i] {
            assert(lower(s@[i as int]) != word@[i as int]);
            return false;
        }
        i = i + 1;
    }
    true
}

/// Plain digits hold no mark of an exponent.
proof fn lemma_no_mark(s: Seq<u8>, i: int)
    requires
        is_plain(s),
        0 <= i < s.len(),
    ensures
        !is_mark(s[i]),
{
    if s.len() > 0 && all_digits(s) {
        assert(is_digit(s[i]));
    } else {
        let point = choose|point: int|
            0 <= point < s.len() && #[trigger] s[point] == 46 && all_digits(s.take(point))
                && all_digits(s.skip(point + 1));
        if i < point {
            assert(is_digit(s.take(point)[i]));
        } else if i > point {
            assert(is_digit(s.skip(point + 1)[i - point - 1]));
        }
    }
}

/// Whether bytes are a floating-point number.
pub fn reads_as_float(s: &[u8]) -> (r: bool)
    ensures
        r == is_float(s@),
{
    let t = strip_sign(s);
    if reads_word(t, INF.as_slice()) || reads_word(t, INFINITY.as_slice()) || reads_word(
        t,
        NAN.as_slice(),
    ) {
        return true;
    }
    let mut at: usize = 0;
    while at < t.len() && !(t[at] == 101 || t[at] == 69)
        invariant
            at <= t@.len(),
            forall|j: int| 0 <= j < at ==> !is_mark(#[trigger] t@[j]),
        decreases t@.len() - at,
    {
        at = at + 1;
    }
    if at == t.len() {
        proof {
            assert forall|other: int| 0 <= other < t@.len() implies !is_exponent(
                t@.skip(other),
            ) by {
                assert(t@.skip(other)[0] == t@[other]);
            }
        }
        return reads_plain(t);
    }
    let front = slice_subrange(t, 0, at);
    let back = slice_subrange(t, at, t.len());
    assert(front@ =~= t@.take(at as int));
    assert(back@ =~= t@.skip(at as int));
    let r: bool = reads_plain(front) && reads_exponent(back);
    proof {
        if is_plain(t@) {
            lemma_no_mark(t@, at as int);
        }
        assert forall|other: int|
            0 <= other < t@.len() && is_plain(#[trigger] t@.take(other)) && is_exponent(
                t@.skip(other),
            ) implies other == at by {
            assert(t@.skip(other)[0] == t@[other]);
            if other > at {
                assert(t@.take(other)[at as int] == t@[at as int]);
                lemma_no_mark(t@.take(other), at as int);
            }
        }
    }
    r
}

/// Digits alone, as logs write whole numbers, are a floating-point number.
pub proof fn whole_numbers_are_floats(s: Seq<u8>)
    requires
        s.len() > 0,
        all_digits(s),
    ensures
        is_float(s),
{
    assert(is_digit(s[0]));
}

/// A sign in front of an unsigned number makes no difference, a second sign
/// does.
pub proof fn signs_make_no_difference(s: Seq<u8>, sign: u8)
    requires
        sign == 43 || sign == 45,
        s.len() == 0 || (s[0] != 43 && s[0] != 45),
    ensures
        is_float(seq![sign] + s) <==> is_float(s),
{
    assert((seq![sign] + s).skip(1) =~= s);
}

/// Digits with one point among them are a number, and so are those with an
/// exponent behind them, in either case and with a sign or none. Neither a
/// point alone nor nothing is one.
pub proof fn points_and_exponents_are_taken(
    whole: Seq<u8>,
    part: Seq<u8>,
    exponent: Seq<u8>,
    mark: u8,
)
    requires
        forall|i: int| 0 <= i < whole.len() ==> 48 <= #[trigger] whole[i] <= 57,
        forall|i: int| 0 <= i < part.len() ==> 48 <= #[trigger] part[i] <= 57,
        forall|i: int| 0 <= i < exponent.len() ==> 48 <= #[trigger] exponent[i] <= 57,
        mark == 101 || mark == 69,
    ensures
        is_float(whole + seq![46u8] + part) <==> whole.len() + part.len() > 0,
        whole.len() > 0 && exponent.len() > 0 ==> is_float(whole + seq![mark] + exponent),
        whole.len() > 0 && exponent.len() > 0 ==> is_float(whole + seq![mark, 45u8] + exponent),
        !is_float(Seq::empty()),
{
    let pointed = whole + seq![46u8] + part;
    let point = whole.len() as int;
    assert(pointed[point] == 46);
    assert(pointed.take(point) =~= whole);
    assert(pointed.skip(point + 1) =~= part);
    assert(without_sign(pointed) == pointed) by {
        if whole.len() > 0 {
            assert(pointed[0] == whole[0]);
        }
    }
    if whole.len() + part.len() > 0 {
        assert(is_plain(pointed));
    } else {
        assert(pointed.len() == 1);
        assert(!is_digit(pointed[0]));
        assert(!is_plain(pointed));
        assert forall|at: int| 0 <= at < pointed.len() implies !is_plain(
            #[trigger] pointed.take(at),
        ) by {
            assert(pointed.take(at).len() == 0);
        }
        assert(lower(pointed[0]) == 46);
    }
    if whole.len() > 0 && exponent.len() > 0 {
        assert(is_plain(whole));
        let plain = whole + seq![mark] + exponent;
        assert(plain[0] == whole[0]);
        assert(plain.take(point) =~= whole);
        assert(plain.skip(point) =~= seq![mark] + exponent);
        assert((seq![mark] + exponent).skip(1) =~= exponent);
        assert(exponent[0] != 43 && exponent[0] != 45);
        assert(is_exponent(plain.skip(point)));
        assert(is_plain(plain.take(point)));
        let signed = whole + seq![mark, 45u8] + exponent;
        assert(signed[0] == whole[0]);
        assert(signed.take(point) =~= whole);
        assert(signed.skip(point) =~= seq![mark, 45u8] + exponent);
        assert((seq![mark, 45u8] + exponent).skip(1).skip(1) =~= exponent);
        assert(is_exponent(signed.skip(point)));
        assert(is_plain(signed.take(point)));
    }
    let none = Seq::<u8>::empty();
    assert(!is_plain(none));
}

} // verus!
