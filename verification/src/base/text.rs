//! Text building blocks: decimal numbers, concatenation, and the byte order
//! of strings.

use vstd::prelude::*;
use vstd::string::*;
use vstd::utf8::*;

verus! {

/// The text of one decimal digit.
pub open spec fn digit_text(d: int) -> Seq<char> {
    if d == 0 {
        "0"@
    } else if d == 1 {
        "1"@
    } else if d == 2 {
        "2"@
    } else if d == 3 {
        "3"@
    } else if d == 4 {
        "4"@
    } else if d == 5 {
        "5"@
    } else if d == 6 {
        "6"@
    } else if d == 7 {
        "7"@
    } else if d == 8 {
        "8"@
    } else {
        "9"@
    }
}

/// The decimal text of a number, without leading zeros.
pub open spec fn decimal(n: nat) -> Seq<char>
    decreases n,
{
    if n < 10 {
        digit_text(n as int)
    } else {
        decimal(n / 10) + digit_text((n % 10) as int)
    }
}

fn digit(d: u64) -> (text: &'static str)
    requires
        d < 10,
    ensures
        text@ == digit_text(d as int),
{
    if d == 0 {
        "0"
    } else if d == 1 {
        "1"
    } else if d == 2 {
        "2"
    } else if d == 3 {
        "3"
    } else if d == 4 {
        "4"
    } else if d == 5 {
        "5"
    } else if d == 6 {
        "6"
    } else if d == 7 {
        "7"
    } else if d == 8 {
        "8"
    } else {
        "9"
    }
}

/// Writes a number in decimal.
pub fn number(n: u64) -> (text: String)
    ensures
        text@ == decimal(n as nat),
    decreases n,
{
    if n < 10 {
        digit(n).to_owned()
    } else {
        let mut text = number(n / 10);
        text.append(digit(n % 10));
        text
    }
}

/// `first` followed by `second`.
pub fn join(first: &str, second: &str) -> (text: String)
    ensures
        text@ == first@ + second@,
{
    let mut text = first.to_owned();
    text.append(second);
    text
}

/// A number between two pieces of text.
pub fn with_number(before: &str, n: u64, after: &str) -> (text: String)
    ensures
        text@ == before@ + decimal(n as nat) + after@,
{
    let digits = number(n);
    let mut text = before.to_owned();
    text.append(digits.as_str());
    text.append(after);
    text
}

/// The strict lexicographic order of byte strings.
pub open spec fn bytes_before(a: Seq<u8>, b: Seq<u8>) -> bool
    decreases a.len(),
{
    if b.len() == 0 {
        false
    } else if a.len() == 0 {
        true
    } else if a[0] == b[0] {
        bytes_before(a.drop_first(), b.drop_first())
    } else {
        a[0] < b[0]
    }
}

/// The order of strings: by their UTF-8 bytes.
pub open spec fn text_before(a: Seq<char>, b: Seq<char>) -> bool {
    bytes_before(encode_utf8(a), encode_utf8(b))
}

/// A byte string comes before, equals, or comes after another: exactly one
/// of the three.
pub proof fn bytes_order_total(a: Seq<u8>, b: Seq<u8>)
    ensures
        bytes_before(a, b) || bytes_before(b, a) || a == b,
        !(bytes_before(a, b) && bytes_before(b, a)),
        !bytes_before(a, a),
    decreases a.len(),
{
    if a.len() > 0 {
        bytes_order_total(a.drop_first(), a.drop_first());
    }
    if a.len() > 0 && b.len() > 0 && a[0] == b[0] {
        bytes_order_total(a.drop_first(), b.drop_first());
        if a.drop_first() == b.drop_first() {
            assert(a =~= seq![a[0]] + a.drop_first());
            assert(b =~= seq![b[0]] + b.drop_first());
        }
    } else if a.len() == 0 && b.len() == 0 {
        assert(a =~= b);
    }
}

/// The order of byte strings is transitive.
pub proof fn bytes_order_transitive(a: Seq<u8>, b: Seq<u8>, c: Seq<u8>)
    requires
        bytes_before(a, b),
        bytes_before(b, c),
    ensures
        bytes_before(a, c),
    decreases a.len(),
{
    if a.len() > 0 && a[0] == b[0] && b[0] == c[0] {
        bytes_order_transitive(a.drop_first(), b.drop_first(), c.drop_first());
    }
}

/// Of two strings exactly one comes first, unless they are the same string.
pub proof fn text_order_total(a: Seq<char>, b: Seq<char>)
    ensures
        text_before(a, b) || text_before(b, a) || a == b,
        !(text_before(a, b) && text_before(b, a)),
        !text_before(a, a),
{
    bytes_order_total(encode_utf8(a), encode_utf8(b));
    encode_utf8_decode_utf8(a);
    encode_utf8_decode_utf8(b);
}

/// The order of strings is transitive.
pub proof fn text_order_transitive(a: Seq<char>, b: Seq<char>, c: Seq<char>)
    requires
        text_before(a, b),
        text_before(b, c),
    ensures
        text_before(a, c),
{
    bytes_order_transitive(encode_utf8(a), encode_utf8(b), encode_utf8(c));
}

/// Whether `a` comes before `b`.
pub fn comes_before(a: &str, b: &str) -> (before: bool)
    ensures
        before == text_before(a@, b@),
{
    let left = a.as_bytes();
    let right = b.as_bytes();
    assert(left@.subrange(0, left@.len() as int) =~= left@);
    assert(right@.subrange(0, right@.len() as int) =~= right@);
    let mut i: usize = 0;
    while i < left.len() && i < right.len() && left[i] == right[i]
        invariant
            i <= left@.len(),
            i <= right@.len(),
            bytes_before(left@, right@) == bytes_before(
                left@.subrange(i as int, left@.len() as int),
                right@.subrange(i as int, right@.len() as int),
            ),
        decreases left@.len() - i,
    {
        assert(left@.subrange(i as int, left@.len() as int).drop_first() =~= left@.subrange(
            i + 1,
            left@.len() as int,
        ));
        assert(right@.subrange(i as int, right@.len() as int).drop_first() =~= right@.subrange(
            i + 1,
            right@.len() as int,
        ));
        i = i + 1;
    }
    if i < right.len() {
        if i < left.len() {
            left[i] < right[i]
        } else {
            true
        }
    } else {
        false
    }
}

/// The number that decimal digits stand for, the highest first.
pub open spec fn number_read(text: Seq<char>) -> int
    decreases text.len(),
{
    if text.len() == 0 {
        0
    } else {
        10 * number_read(text.drop_last()) + (text.last() as u32 - '0' as u32)
    }
}

proof fn digits_are_digits(d: int)
    requires
        0 <= d < 10,
    ensures
        digit_text(d).len() == 1,
        digit_text(d)[0] as u32 == '0' as u32 + d,
{
    reveal_strlit("0");
    reveal_strlit("1");
    reveal_strlit("2");
    reveal_strlit("3");
    reveal_strlit("4");
    reveal_strlit("5");
    reveal_strlit("6");
    reveal_strlit("7");
    reveal_strlit("8");
    reveal_strlit("9");
}

/// A number written in decimal consists of the digits from 0 to 9, has no
/// leading zero unless it is zero, and reads back as the number.
pub proof fn decimals_read_back(n: nat)
    ensures
        decimal(n).len() > 0,
        forall|i: int|
            0 <= i < decimal(n).len() ==> '0' as u32 <= (#[trigger] decimal(n)[i]) as u32
                <= '9' as u32,
        n > 0 ==> decimal(n)[0] != '0',
        number_read(decimal(n)) == n,
    decreases n,
{
    if n < 10 {
        digits_are_digits(n as int);
        assert(decimal(n).drop_last() =~= Seq::empty());
        assert(number_read(decimal(n).drop_last()) == 0);
        assert(decimal(n).last() == digit_text(n as int)[0]);
    } else {
        let high = decimal(n / 10);
        let low = digit_text((n % 10) as int);
        digits_are_digits((n % 10) as int);
        decimals_read_back(n / 10);
        assert(decimal(n).drop_last() =~= high);
        assert forall|i: int| 0 <= i < decimal(n).len() implies '0' as u32 <= (
        #[trigger] decimal(n)[i]) as u32 <= '9' as u32 by {
            if i < high.len() {
                assert(decimal(n)[i] == high[i]);
            } else {
                assert(decimal(n)[i] == low[0]);
            }
        }
        assert(decimal(n)[0] == high[0]);
        assert(decimal(n).last() == low[0]);
        assert(number_read(decimal(n)) == 10 * number_read(high) + n % 10);
    }
}

/// Byte strings are compared at the first byte in which they differ; one that
/// is the beginning of the other comes before it.
pub proof fn bytes_are_compared_at_the_first_difference(a: Seq<u8>, b: Seq<u8>, i: int)
    requires
        0 <= i <= a.len(),
        i <= b.len(),
        forall|j: int| 0 <= j < i ==> (#[trigger] a[j]) == b[j],
    ensures
        i < a.len() && i < b.len() && a[i] != b[i] ==> (bytes_before(a, b) <==> a[i] < b[i]),
        i == a.len() ==> (bytes_before(a, b) <==> i < b.len()),
        i == b.len() ==> !bytes_before(a, b),
    decreases i,
{
    if i > 0 {
        let (x, y) = (a.drop_first(), b.drop_first());
        assert(a[0] == b[0]);
        assert forall|j: int| 0 <= j < i - 1 implies (#[trigger] x[j]) == y[j] by {
            assert(a[j + 1] == b[j + 1]);
        }
        bytes_are_compared_at_the_first_difference(x, y, i - 1);
    }
}

} // verus!
