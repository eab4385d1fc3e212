//! Two-letter base-26 codes, as written into a genome.

use vstd::prelude::*;

verus! {

/// The letter that stands for the base-26 digit `d`.
pub open spec fn digit_letter(d: int) -> char {
    (65 + d) as char
}

/// The two letters that `u2b26` writes for `n`: the number `n` taken modulo
/// 676, most significant digit first.
pub open spec fn code_of(n: nat) -> Seq<char> {
    seq![digit_letter(((n / 26) % 26) as int), digit_letter((n % 26) as int)]
}

/// Appends one character to a string, by `String::push`. Its contract claims
/// what the standard library documents: the string's characters are the old
/// ones followed by `c`.
#[verifier::external_body]
pub(crate) fn push_char(s: &mut String, c: char)
    ensures
        final(s)@ == old(s)@.push(c),
{
    s.push(c);
}

/// The letter for a digit below 26.
fn letter(d: usize) -> (c: char)
    requires
        d < 26,
    ensures
        c == digit_letter(d as int),
{
    let b: u8 = 65u8 + d as u8;
    b as char
}

/// Writes `n` as two base-26 letters (`A` is 0), most significant first;
/// only the value of `n` modulo 676 is kept.
pub fn u2b26(n: usize) -> (s: String)
    ensures
        s@ == code_of(n as nat),
{
    let mut s = String::new();
    push_code(&mut s, n);
    s
}

/// Appends the two letters of `u2b26(n)`.
pub(crate) fn push_code(s: &mut String, n: usize)
    ensures
        final(s)@ == old(s)@ + code_of(n as nat),
{
    push_char(s, letter((n / 26) % 26));
    push_char(s, letter(n % 26));
    assert(final(s)@ =~= old(s)@ + code_of(n as nat));
}


/// The low bytes of the characters of `s`: what `b262u` reads of each.
pub open spec fn low_bytes(s: Seq<char>) -> Seq<u8> {
    s.map_values(|c: char| c as u8)
}

/// Whether a byte can be read as a digit without the subtraction wrapping.
pub open spec fn is_digit_byte(b: u8) -> bool {
    b >= 65
}

/// The number that the bytes of `s` spell in base 26 (`A` is 0), most
/// significant first.
pub open spec fn value_of(s: Seq<u8>) -> int
    decreases s.len(),
{
    if s.len() == 0 {
        0
    } else {
        value_of(s.drop_last()) * 26 + (s.last() as int - 65)
    }
}

/// Whether the bytes can be read as a number without a panic: each is at least
/// `A`, and the number fits in a `usize`.
pub open spec fn readable(s: Seq<u8>) -> bool {
    &&& forall|i: int| 0 <= i < s.len() ==> #[trigger] is_digit_byte(s[i])
    &&& value_of(s) <= usize::MAX
}

/// The number a string of digit letters writes is never negative and never
/// less than the number written by a prefix of it.
pub proof fn lemma_value_prefix_monotone(s: Seq<u8>, i: int)
    requires
        0 <= i <= s.len(),
        forall|k: int| 0 <= k < s.len() ==> #[trigger] is_digit_byte(s[k]),
    ensures
        0 <= value_of(s.take(i)) <= value_of(s),
    decreases s.len() - i,
{
    if i == s.len() {
        assert(s.take(i) =~= s);
        lemma_value_nonneg(s);
    } else {
        lemma_value_prefix_monotone(s, i + 1);
        assert(s.take(i + 1).drop_last() =~= s.take(i));
        assert(is_digit_byte(s[i]));
        lemma_value_nonneg(s.take(i));
    }
}

/// The number a string of digit letters writes is never negative.
pub proof fn lemma_value_nonneg(s: Seq<u8>)
    requires
        forall|k: int| 0 <= k < s.len() ==> #[trigger] is_digit_byte(s[k]),
    ensures
        value_of(s) >= 0,
    decreases s.len(),
{
    if s.len() > 0 {
        assert(is_digit_byte(s[s.len() - 1]));
        lemma_value_nonneg(s.drop_last());
    }
}

/// Reads base-26 letters (`A` is 0), most significant first.
pub fn b262u(s: &str) -> (n: usize)
    requires
        readable(low_bytes(s@)),
    ensures
        n == value_of(low_bytes(s@)),
{
    let len = s.unicode_len();
    let mut acc: usize = 0;
    let mut i: usize = 0;
    while i < len
        invariant
            len == s@.len(),
            i <= len,
            readable(low_bytes(s@)),
            acc == value_of(low_bytes(s@).take(i as int)),
        decreases len - i,
    {
        let c = s.get_char(i);
        proof {
            lemma_value_prefix_monotone(low_bytes(s@), i + 1);
            assert(low_bytes(s@).take(i + 1).drop_last() =~= low_bytes(s@).take(i as int));
            assert(is_digit_byte(low_bytes(s@)[i as int]));
        }
        let b: u8 = c as u8;
        acc = acc * 26 + (b - 65u8) as usize;
        i = i + 1;
    }
    proof {
        assert(low_bytes(s@).take(len as int) =~= low_bytes(s@));
    }
    acc
}


/// Two letters spell the first digit times 26 plus the second.
pub proof fn lemma_value_pair(s: Seq<u8>)
    requires
        s.len() == 2,
    ensures
        value_of(s) == (s[0] - 65) * 26 + (s[1] - 65),
{
    let b1 = s.drop_last();
    assert(b1.len() == 1 && b1.last() == s[0]);
    assert(b1.drop_last().len() == 0);
    assert(value_of(b1.drop_last()) == 0);
    assert(value_of(b1) == s[0] - 65);
}

/// A code read back gives the number it was written from, modulo 676: what
/// `u2b26` writes, `b262u` reads without a panic.
pub proof fn lemma_code_round_trip(n: nat)
    ensures
        readable(low_bytes(code_of(n))),
        value_of(low_bytes(code_of(n))) == n % 676,
{
    let hi = ((n / 26) % 26) as int;
    let lo = (n % 26) as int;
    let b = low_bytes(code_of(n));
    assert(b[0] == 65 + hi);
    assert(b[1] == 65 + lo);
    let b1 = b.drop_last();
    assert(b1.len() == 1 && b1.last() == b[0]);
    assert(value_of(b1.drop_last()) == 0);
    assert(value_of(b1) == hi);
    assert(value_of(b) == hi * 26 + lo);
    assert(n % 676 == ((n / 26) % 26) * 26 + n % 26) by (nonlinear_arith);
}

} // verus!
