//! Text helpers shared by the modules that build and read identifiers:
//! decimal numerals and prefix tests on character sequences.

use vstd::prelude::*;
use vstd::string::*;

verus! {

/// The character that writes the digit `d`.
pub open spec fn digit_char(d: nat) -> char
    recommends
        d < 10,
{
    (48 + d) as char
}

/// Whether `c` is one of the characters `0` to `9`.
pub open spec fn is_digit(c: char) -> bool {
    '0' <= c && c <= '9'
}

/// The decimal numeral of `n`, without sign and without leading zeros.
pub open spec fn decimal(n: nat) -> Seq<char>
    decreases n,
{
    if n < 10 {
        seq![digit_char(n)]
    } else {
        decimal(n / 10).push(digit_char(n % 10))
    }
}

/// Whether `text` begins with `prefix`.
pub open spec fn is_prefix(prefix: Seq<char>, text: Seq<char>) -> bool {
    prefix.len() <= text.len() && text.subrange(0, prefix.len() as int) == prefix
}

/// A decimal numeral has at least one character, and all of them are
/// digits.
pub proof fn lemma_decimal_digits(n: nat)
    ensures
        decimal(n).len() >= 1,
        forall|k: int| 0 <= k < decimal(n).len() ==> is_digit(#[trigger] decimal(n)[k]),
    decreases n,
{
    if n >= 10 {
        lemma_decimal_digits(n / 10);
        let head = decimal(n / 10);
        assert forall|k: int| 0 <= k < decimal(n).len() implies is_digit(
            #[trigger] decimal(n)[k],
        ) by {
            if k < head.len() {
                assert(decimal(n)[k] == head[k]);
            } else {
                assert(decimal(n)[k] == digit_char(n % 10));
            }
        }
    }
}

/// Different numbers have different decimal numerals.
pub proof fn lemma_decimal_injective(a: nat, b: nat)
    requires
        decimal(a) == decimal(b),
    ensures
        a == b,
    decreases a,
{
    lemma_decimal_digits(a / 10);
    lemma_decimal_digits(b / 10);
    if a < 10 {
        if b >= 10 {
            assert(decimal(b).len() >= 2);
        }
        assert(decimal(a)[0] == digit_char(a));
        assert(decimal(b)[0] == digit_char(b));
    } else {
        if b < 10 {
            assert(decimal(a).len() >= 2);
        }
        let x = decimal(a / 10);
        let y = decimal(b / 10);
        assert(x =~= decimal(a).drop_last());
        assert(y =~= decimal(b).drop_last());
        assert(decimal(a).last() == digit_char(a % 10));
        assert(decimal(b).last() == digit_char(b % 10));
        lemma_decimal_injective(a / 10, b / 10);
    }
}

/// A numeral followed by a hyphen begins a text that starts with a numeral
/// and a hyphen exactly if the two numerals are of the same number.
pub proof fn lemma_decimal_prefix(p: nat, q: nat, rest: Seq<char>)
    ensures
        is_prefix(decimal(p).push('-'), decimal(q).push('-') + rest) <==> p == q,
{
    let dp = decimal(p);
    let dq = decimal(q);
    let prefix = dp.push('-');
    let text = dq.push('-') + rest;
    lemma_decimal_digits(p);
    lemma_decimal_digits(q);
    if p == q {
        assert(text.subrange(0, prefix.len() as int) =~= prefix);
    }
    if is_prefix(prefix, text) {
        let head = text.subrange(0, prefix.len() as int);
        assert(head == prefix);
        if dp.len() < dq.len() {
            assert(head[dp.len() as int] == text[dp.len() as int]);
            assert(text[dp.len() as int] == dq[dp.len() as int]);
            assert(is_digit(dq[dp.len() as int]));
            assert(prefix[dp.len() as int] == '-');
            assert(false);
        }
        if dp.len() > dq.len() {
            assert(head[dq.len() as int] == text[dq.len() as int]);
            assert(text[dq.len() as int] == '-');
            assert(prefix[dq.len() as int] == dp[dq.len() as int]);
            assert(is_digit(dp[dq.len() as int]));
            assert(false);
        }
        assert forall|k: int| 0 <= k < dp.len() implies dp[k] == dq[k] by {
            assert(head[k] == text[k]);
            assert(prefix[k] == dp[k]);
            assert(text[k] == dq[k]);
        }
        assert(dp =~= dq);
        lemma_decimal_injective(p, q);
    }
}

/// Appends one character to a string.
///
/// Trusted: this is `String::push` of the standard library, which adds the
/// given character at the end of the string and changes nothing else.
#[verifier::external_body]
pub(crate) fn push_char(s: &mut String, c: char)
    ensures
        final(s)@ == old(s)@.push(c),
{
    s.push(c)
}

/// Appends the decimal numeral of `n` to `s`.
pub fn push_decimal(s: &mut String, n: u32)
    ensures
        final(s)@ == old(s)@ + decimal(n as nat),
    decreases n,
{
    if n >= 10 {
        push_decimal(s, n / 10);
    }
    let d: u8 = (n % 10) as u8;
    push_char(s, (48 + d) as char);
    proof {
        reveal_with_fuel(decimal, 2);
        assert((48 + d) as char == digit_char((n % 10) as nat));
        assert(final(s)@ =~= old(s)@ + decimal(n as nat));
    }
}

/// The decimal numeral of `n` as a string.
pub fn decimal_string(n: u32) -> (s: String)
    ensures
        s@ == decimal(n as nat),
{
    let mut s = String::new();
    push_decimal(&mut s, n);
    s
}

/// Tells whether `text` begins with `prefix`, comparing character by
/// character.
pub fn starts_with(text: &str, prefix: &str) -> (b: bool)
    ensures
        b == is_prefix(prefix@, text@),
{
    let n = prefix.unicode_len();
    if n > text.unicode_len() {
        return false;
    }
    let mut i: usize = 0;
    while i < n
        invariant
            0 <= i <= n,
            n == prefix@.len(),
            n <= text@.len(),
            forall|k: int| 0 <= k < i ==> text@[k] == prefix@[k],
        decreases n - i,
    {
        if text.get_char(i) != prefix.get_char(i) {
            return false;
        }
        i += 1;
    }
    assert(text@.subrange(0, n as int) =~= prefix@);
    true
}

} // verus!
