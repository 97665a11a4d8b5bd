//! Text that the simulator writes: decimal numbers and ASCII strings.

use vstd::prelude::*;
use vstd::string::*;

verus! {

/// The decimal digits of `n`, as ASCII bytes, without leading zeros.
pub open spec fn decimal(n: nat) -> Seq<u8>
    decreases n,
{
    if n < 10 {
        seq![(48 + n) as u8]
    } else {
        decimal(n / 10).push((48 + n % 10) as u8)
    }
}

/// The decimal form of a signed number: a minus sign before the digits of a
/// negative number.
pub open spec fn signed_decimal(n: int) -> Seq<u8> {
    if n < 0 {
        seq![45u8] + decimal((-n) as nat)
    } else {
        decimal(n as nat)
    }
}

/// The characters of ASCII bytes.
pub open spec fn ascii_chars(bytes: Seq<u8>) -> Seq<char> {
    Seq::new(bytes.len(), |i: int| bytes[i] as char)
}

/// Whether all bytes are ASCII.
pub open spec fn all_ascii(bytes: Seq<u8>) -> bool {
    forall|i: int| 0 <= i < bytes.len() ==> #[trigger] bytes[i] < 128
}

spec fn decimal_or_empty(n: nat) -> Seq<u8> {
    if n == 0 {
        Seq::empty()
    } else {
        decimal(n)
    }
}

spec fn backwards(s: Seq<u8>) -> Seq<u8> {
    Seq::new(s.len(), |i: int| s[s.len() - 1 - i])
}

/// Decimal digits are ASCII.
pub proof fn lemma_decimal_ascii(n: nat)
    ensures
        all_ascii(decimal(n)),
        decimal(n).len() >= 1,
    decreases n,
{
    if n >= 10 {
        lemma_decimal_ascii(n / 10);
    }
}

/// Appends the decimal digits of `n` to `out`.
pub fn push_decimal(out: &mut Vec<u8>, n: u64)
    ensures
        final(out)@ == old(out)@ + decimal(n as nat),
{
    let mut rest: u64 = n / 10;
    let mut digits: Vec<u8> = Vec::new();
    digits.push(48 + (n % 10) as u8);
    assert(decimal(n as nat) =~= decimal_or_empty(rest as nat) + backwards(digits@));
    while rest > 0
        invariant
            decimal(n as nat) == decimal_or_empty(rest as nat) + backwards(digits@),
        decreases rest,
    {
        let ghost before = digits@;
        let ghost r = rest;
        digits.push(48 + (rest % 10) as u8);
        rest = rest / 10;
        assert(decimal_or_empty(r as nat) =~= decimal_or_empty(rest as nat).push(
            (48 + r % 10) as u8,
        ));
        assert(backwards(digits@) =~= seq![(48 + r % 10) as u8] + backwards(before));
        assert(decimal_or_empty(rest as nat).push((48 + r % 10) as u8) + backwards(before)
            =~= decimal_or_empty(rest as nat) + (seq![(48 + r % 10) as u8] + backwards(before)));
    }
    let mut i: usize = digits.len();
    while i > 0
        invariant
            i <= digits.len(),
            out@ == old(out)@ + backwards(digits@).subrange(0, digits.len() - i),
        decreases i,
    {
        i -= 1;
        let ghost before = out@;
        out.push(digits[i]);
        assert(out@ =~= old(out)@ + backwards(digits@).subrange(0, digits.len() - i));
    }
    assert(backwards(digits@).subrange(0, digits.len() as int) =~= backwards(digits@));
}

/// Appends the decimal form of a signed number to `out`.
pub fn push_signed_decimal(out: &mut Vec<u8>, n: i64)
    ensures
        final(out)@ == old(out)@ + signed_decimal(n as int),
{
    if n < 0 {
        out.push(45);
        let magnitude: u64 = if n == i64::MIN {
            0x8000_0000_0000_0000
        } else {
            (-n) as u64
        };
        push_decimal(out, magnitude);
        assert(out@ =~= old(out)@ + signed_decimal(n as int));
    } else {
        push_decimal(out, n as u64);
    }
}

/// Appends the ASCII bytes of `text` to `out`.
pub fn push_ascii(out: &mut Vec<u8>, text: &str)
    requires
        text.is_ascii(),
    ensures
        final(out)@ == old(out)@ + text.spec_bytes(),
{
    let bytes = text.as_bytes();
    let mut i: usize = 0;
    while i < bytes.len()
        invariant
            i <= bytes.len(),
            bytes@ == text.spec_bytes(),
            out@ == old(out)@ + bytes@.subrange(0, i as int),
        decreases bytes.len() - i,
    {
        out.push(bytes[i]);
        assert(out@ =~= old(out)@ + bytes@.subrange(0, i + 1));
        i += 1;
    }
    assert(bytes@.subrange(0, bytes.len() as int) =~= bytes@);
}

/// The bytes of an ASCII string are its characters.
pub proof fn lemma_ascii_text(text: &str)
    requires
        text.is_ascii(),
    ensures
        all_ascii(text.spec_bytes()),
        ascii_chars(text.spec_bytes()) == text@,
{
    is_ascii_spec_bytes(text);
    let bytes = text.spec_bytes();
    assert forall|i: int| 0 <= i < bytes.len() implies #[trigger] bytes[i] < 128 && bytes[i] as char
        == text@[i] by {
        assert(bytes[i] == text@[i] as u8);
    }
    assert(ascii_chars(bytes) =~= text@);
}

/// The characters of two runs of bytes, one after the other.
pub proof fn lemma_ascii_chars_concat(a: Seq<u8>, b: Seq<u8>)
    ensures
        ascii_chars(a + b) == ascii_chars(a) + ascii_chars(b),
        all_ascii(a) && all_ascii(b) ==> all_ascii(a + b),
{
    assert(ascii_chars(a + b) =~= ascii_chars(a) + ascii_chars(b));
    if all_ascii(a) && all_ascii(b) {
        assert forall|i: int| 0 <= i < (a + b).len() implies #[trigger] (a + b)[i] < 128 by {
            if i < a.len() {
                assert((a + b)[i] == a[i]);
            } else {
                assert((a + b)[i] == b[i - a.len()]);
            }
        }
    }
}

/// Turns ASCII bytes into a string with `String::from_utf8`, which takes
/// every sequence of bytes below 128 and reads each byte as one character.
#[verifier::external_body]
pub(crate) fn ascii_string(bytes: Vec<u8>) -> (s: String)
    requires
        all_ascii(bytes@),
    ensures
        s@ == ascii_chars(bytes@),
{
    String::from_utf8(bytes).unwrap()
}

/// Whether two strings hold the same characters.
pub fn same_text(a: &str, b: &str) -> (r: bool)
    ensures
        r == (a@ == b@),
{
    let n = a.unicode_len();
    if n != b.unicode_len() {
        return false;
    }
    let mut i: usize = 0;
    while i < n
        invariant
            i <= n,
            n == a@.len(),
            n == b@.len(),
            forall|j: int| 0 <= j < i ==> a@[j] == b@[j],
        decreases n - i,
    {
        if a.get_char(i) != b.get_char(i) {
            return false;
        }
        i += 1;
    }
    assert(a@ =~= b@);
    true
}

} // verus!
