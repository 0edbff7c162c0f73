//! The byte encoding of protocol payloads: little-endian integers,
//! length-prefixed text, tagged values, counted sequences.

use vstd::prelude::*;
use vstd::utf8::*;

use crate::base::value::views;
use crate::network::error::{ProtocolError, ProtocolErrorView};

verus! {

/// What decoding a prefix of some bytes yields: the thing and the bytes
/// after it, or the violation found.
pub type Decoded<V> = Result<(V, Seq<u8>), ProtocolErrorView>;

/// A decoder's result is the one expected, and it stopped where expected.
pub open spec fn decodes_as<T: View>(
    result: Result<T, ProtocolError>,
    after: Seq<u8>,
    expected: Decoded<T::V>,
) -> bool {
    match expected {
        Ok((v, rest)) => result is Ok && result->Ok_0@ == v && after == rest,
        Err(e) => result is Err && result->Err_0@ == e,
    }
}

/// A thing with a byte encoding.
pub trait Wire: View + Sized {
    /// What `put` accepts.
    spec fn encodable(v: Self::V) -> bool;

    /// What `get` gives back as it was put.
    spec fn faithful(v: Self::V) -> bool;

    /// The encoding.
    spec fn encoded(v: Self::V) -> Seq<u8>;

    /// What the front of some bytes decodes as.
    spec fn decoded(bytes: Seq<u8>) -> Decoded<Self::V>;

    /// Reading back: what was put in front of any bytes is what is read, and
    /// those bytes are what is left.
    proof fn reads_back(v: Self::V, rest: Seq<u8>)
        requires
            Self::faithful(v),
        ensures
            Self::decoded(Self::encoded(v) + rest) == Ok::<(Self::V, Seq<u8>), ProtocolErrorView>(
                (v, rest),
            ),
    ;

    /// Appends the encoding.
    fn put(&self, out: &mut Vec<u8>)
        requires
            Self::encodable(self@),
        ensures
            final(out)@ == old(out)@ + Self::encoded(self@),
    ;

    /// Decodes from the front of `cursor`, which advances past what was read.
    fn get(cursor: &mut &[u8]) -> (result: Result<Self, ProtocolError>)
        ensures
            decodes_as(result, final(cursor)@, Self::decoded(old(cursor)@)),
    ;
}

/// A payload violation with the given message.
pub fn malformed(message: &str) -> (error: ProtocolError)
    ensures
        error@ == ProtocolErrorView::Malformed(message@),
{
    ProtocolError::Malformed(message.to_owned())
}

/// Joining byte strings is associative.
pub proof fn join_assoc(a: Seq<u8>, b: Seq<u8>, c: Seq<u8>)
    ensures
        (a + b) + c == a + (b + c),
{
    assert((a + b) + c =~= a + (b + c));
}

// ---------------------------------------------------------------- integers

/// `n` little-endian bytes of a number.
pub open spec fn le_bytes(x: nat, n: nat) -> Seq<u8>
    decreases n,
{
    if n == 0 {
        Seq::empty()
    } else {
        seq![(x % 256) as u8] + le_bytes(x / 256, (n - 1) as nat)
    }
}

/// The number that little-endian bytes stand for.
pub open spec fn le_number(bytes: Seq<u8>) -> nat
    decreases bytes.len(),
{
    if bytes.len() == 0 {
        0
    } else {
        bytes[0] as nat + 256 * le_number(bytes.drop_first())
    }
}

/// `256` to the power `n`.
pub open spec fn byte_range(n: nat) -> nat
    decreases n,
{
    if n == 0 {
        1
    } else {
        256 * byte_range((n - 1) as nat)
    }
}

pub proof fn le_bytes_len(x: nat, n: nat)
    ensures
        le_bytes(x, n).len() == n,
    decreases n,
{
    if n > 0 {
        le_bytes_len(x / 256, (n - 1) as nat);
    }
}

proof fn le_number_bound(bytes: Seq<u8>)
    ensures
        le_number(bytes) < byte_range(bytes.len()),
    decreases bytes.len(),
{
    if bytes.len() > 0 {
        le_number_bound(bytes.drop_first());
    }
}

/// A number that fits in `n` bytes is the one its bytes stand for.
pub proof fn le_reads_back(x: nat, n: nat)
    requires
        x < byte_range(n),
    ensures
        le_number(le_bytes(x, n)) == x,
    decreases n,
{
    if n > 0 {
        le_reads_back(x / 256, (n - 1) as nat);
        assert(le_bytes(x, n).drop_first() =~= le_bytes(x / 256, (n - 1) as nat));
    }
}

proof fn byte_ranges()
    ensures
        byte_range(1) == 0x100,
        byte_range(2) == 0x10000,
        byte_range(4) == 0x1_0000_0000,
        byte_range(8) == 0x1_0000_0000_0000_0000,
        forall|n: nat| n <= 8 ==> #[trigger] byte_range(n) <= 0x1_0000_0000_0000_0000,
{
    reveal_with_fuel(byte_range, 9);
}

/// Appends `n` little-endian bytes of `x`.
pub fn put_le(out: &mut Vec<u8>, x: u64, n: usize)
    ensures
        final(out)@ == old(out)@ + le_bytes(x as nat, n as nat),
{
    let mut left: u64 = x;
    let mut i: usize = 0;
    let ghost whole = out@ + le_bytes(x as nat, n as nat);
    while i < n
        invariant
            i <= n,
            out@ + le_bytes(left as nat, (n - i) as nat) =~= whole,
        decreases n - i,
    {
        out.push((left % 256) as u8);
        left = left / 256;
        i = i + 1;
    }
}

/// The number that little-endian bytes stand for.
pub fn le_value(bytes: &[u8]) -> (x: u64)
    requires
        bytes@.len() <= 8,
    ensures
        x == le_number(bytes@),
        x < byte_range(bytes@.len()),
{
    let mut x: u64 = 0;
    let mut i: usize = bytes.len();
    assert(bytes@.skip(bytes@.len() as int) =~= Seq::empty());
    while i > 0
        invariant
            i <= bytes@.len() <= 8,
            x == le_number(bytes@.skip(i as int)),
        decreases i,
    {
        proof {
            let tail = bytes@.skip(i - 1);
            assert(tail.drop_first() =~= bytes@.skip(i as int));
            le_number_bound(tail);
            byte_ranges();
        }
        i = i - 1;
        x = bytes[i] as u64 + 256 * x;
    }
    proof {
        assert(bytes@.skip(0) =~= bytes@);
        le_number_bound(bytes@);
    }
    x
}

/// Splits `n` bytes off the front of `cursor`; `None` when it is shorter.
pub fn take_bytes<'a>(cursor: &mut &'a [u8], n: usize) -> (taken: Option<&'a [u8]>)
    ensures
        match taken {
            Some(head) => n <= old(cursor)@.len() && head@ == old(cursor)@.take(n as int)
                && final(cursor)@ == old(cursor)@.skip(n as int),
            None => old(cursor)@.len() < n && final(cursor)@ == old(cursor)@,
        },
{
    let whole: &'a [u8] = *cursor;
    if whole.len() < n {
        return None;
    }
    let (head, tail) = whole.split_at(n);
    *cursor = tail;
    assert(head@ =~= whole@.take(n as int));
    assert(tail@ =~= whole@.skip(n as int));
    Some(head)
}

/// The first byte of some bytes.
pub open spec fn byte_decoded(bytes: Seq<u8>) -> Decoded<u8> {
    if bytes.len() < 1 {
        Err(ProtocolErrorView::Truncated)
    } else {
        Ok((bytes[0], bytes.skip(1)))
    }
}

impl Wire for u8 {
    open spec fn encodable(v: u8) -> bool {
        true
    }

    open spec fn faithful(v: u8) -> bool {
        true
    }

    open spec fn encoded(v: u8) -> Seq<u8> {
        seq![v]
    }

    open spec fn decoded(bytes: Seq<u8>) -> Decoded<u8> {
        byte_decoded(bytes)
    }

    proof fn reads_back(v: u8, rest: Seq<u8>) {
        let bytes = <u8 as Wire>::encoded(v) + rest;
        assert(bytes =~= seq![v] + rest);
        assert(bytes.skip(1) =~= rest);
        assert(<u8 as Wire>::decoded(bytes) == byte_decoded(bytes));
        assert(<u8 as Wire>::decoded(bytes) == Ok::<(u8, Seq<u8>), ProtocolErrorView>((v, rest)));
    }

    fn put(&self, out: &mut Vec<u8>) {
        out.push(*self);
        assert(out@ =~= old(out)@ + seq![*self]);
    }

    fn get(cursor: &mut &[u8]) -> (result: Result<u8, ProtocolError>)
        ensures
            result is Err ==> final(cursor)@ == old(cursor)@,
    {
        match take_bytes(cursor, 1) {
            Some(head) => Ok(head[0]),
            None => Err(ProtocolError::Truncated),
        }
    }
}

impl Wire for u16 {
    open spec fn encodable(v: u16) -> bool {
        true
    }

    open spec fn faithful(v: u16) -> bool {
        true
    }

    open spec fn encoded(v: u16) -> Seq<u8> {
        le_bytes(v as nat, 2)
    }

    open spec fn decoded(bytes: Seq<u8>) -> Decoded<u16> {
        if bytes.len() < 2 {
            Err(ProtocolErrorView::Truncated)
        } else {
            Ok((le_number(bytes.take(2)) as u16, bytes.skip(2)))
        }
    }

    proof fn reads_back(v: u16, rest: Seq<u8>) {
        byte_ranges();
        le_bytes_len(v as nat, 2);
        le_reads_back(v as nat, 2);
        let bytes = Self::encoded(v) + rest;
        assert(bytes.take(2) =~= le_bytes(v as nat, 2));
        assert(bytes.skip(2) =~= rest);
    }

    fn put(&self, out: &mut Vec<u8>) {
        put_le(out, *self as u64, 2);
    }

    fn get(cursor: &mut &[u8]) -> (result: Result<u16, ProtocolError>)
        ensures
            result is Err ==> final(cursor)@ == old(cursor)@,
    {
        match take_bytes(cursor, 2) {
            Some(head) => {
                proof {
                    byte_ranges();
                }
                Ok(le_value(head) as u16)
            },
            None => Err(ProtocolError::Truncated),
        }
    }
}

impl Wire for u32 {
    open spec fn encodable(v: u32) -> bool {
        true
    }

    open spec fn faithful(v: u32) -> bool {
        true
    }

    open spec fn encoded(v: u32) -> Seq<u8> {
        le_bytes(v as nat, 4)
    }

    open spec fn decoded(bytes: Seq<u8>) -> Decoded<u32> {
        if bytes.len() < 4 {
            Err(ProtocolErrorView::Truncated)
        } else {
            Ok((le_number(bytes.take(4)) as u32, bytes.skip(4)))
        }
    }

    proof fn reads_back(v: u32, rest: Seq<u8>) {
        byte_ranges();
        le_bytes_len(v as nat, 4);
        le_reads_back(v as nat, 4);
        let bytes = Self::encoded(v) + rest;
        assert(bytes.take(4) =~= le_bytes(v as nat, 4));
        assert(bytes.skip(4) =~= rest);
    }

    fn put(&self, out: &mut Vec<u8>) {
        put_le(out, *self as u64, 4);
    }

    fn get(cursor: &mut &[u8]) -> (result: Result<u32, ProtocolError>)
        ensures
            result is Err ==> final(cursor)@ == old(cursor)@,
    {
        match take_bytes(cursor, 4) {
            Some(head) => {
                proof {
                    byte_ranges();
                }
                Ok(le_value(head) as u32)
            },
            None => Err(ProtocolError::Truncated),
        }
    }
}

/// The message of a codec that runs out of bytes.
pub open spec fn short_text() -> Seq<char> {
    "unexpected end of encoded data"@
}

fn short<T>() -> (result: Result<T, ProtocolError>)
    ensures
        result is Err,
        result->Err_0@ == ProtocolErrorView::Malformed(short_text()),
{
    Err(malformed("unexpected end of encoded data"))
}

impl Wire for u64 {
    open spec fn encodable(v: u64) -> bool {
        true
    }

    open spec fn faithful(v: u64) -> bool {
        true
    }

    open spec fn encoded(v: u64) -> Seq<u8> {
        le_bytes(v as nat, 8)
    }

    open spec fn decoded(bytes: Seq<u8>) -> Decoded<u64> {
        if bytes.len() < 8 {
            Err(ProtocolErrorView::Malformed(short_text()))
        } else {
            Ok((le_number(bytes.take(8)) as u64, bytes.skip(8)))
        }
    }

    proof fn reads_back(v: u64, rest: Seq<u8>) {
        byte_ranges();
        le_bytes_len(v as nat, 8);
        le_reads_back(v as nat, 8);
        let bytes = Self::encoded(v) + rest;
        assert(bytes.take(8) =~= le_bytes(v as nat, 8));
        assert(bytes.skip(8) =~= rest);
    }

    fn put(&self, out: &mut Vec<u8>) {
        put_le(out, *self, 8);
    }

    fn get(cursor: &mut &[u8]) -> (result: Result<u64, ProtocolError>)
        ensures
            result is Err ==> final(cursor)@ == old(cursor)@,
    {
        match take_bytes(cursor, 8) {
            Some(head) => {
                proof {
                    byte_ranges();
                }
                Ok(le_value(head))
            },
            None => short(),
        }
    }
}

impl Wire for bool {
    open spec fn encodable(v: bool) -> bool {
        true
    }

    open spec fn faithful(v: bool) -> bool {
        true
    }

    open spec fn encoded(v: bool) -> Seq<u8> {
        seq![if v { 1u8 } else { 0u8 }]
    }

    open spec fn decoded(bytes: Seq<u8>) -> Decoded<bool> {
        if bytes.len() < 1 {
            Err(ProtocolErrorView::Malformed(short_text()))
        } else if bytes[0] > 1 {
            Err(ProtocolErrorView::Malformed("invalid truth value"@))
        } else {
            Ok((bytes[0] == 1, bytes.skip(1)))
        }
    }

    proof fn reads_back(v: bool, rest: Seq<u8>) {
        let bytes = Self::encoded(v) + rest;
        assert(bytes[0] == Self::encoded(v)[0]);
        assert(bytes.skip(1) =~= rest);
    }

    fn put(&self, out: &mut Vec<u8>) {
        out.push(if *self { 1 } else { 0 });
        assert(out@ =~= old(out)@ + Self::encoded(*self));
    }

    fn get(cursor: &mut &[u8]) -> (result: Result<bool, ProtocolError>)
        ensures
            old(cursor)@.len() == 0 ==> final(cursor)@ == old(cursor)@,
    {
        match take_bytes(cursor, 1) {
            Some(head) => {
                let byte: u8 = head[0];
                if byte > 1 {
                    Err(malformed("invalid truth value"))
                } else {
                    Ok(byte == 1)
                }
            },
            None => short(),
        }
    }
}

// -------------------------------------------------------------------- text

/// Reads bytes as UTF-8 text with `std::str::from_utf8`, which accepts
/// exactly the valid UTF-8 byte strings and yields the text they encode.
#[verifier::external_body]
fn text_from_utf8(bytes: &[u8]) -> (text: Option<String>)
    ensures
        match text {
            Some(s) => valid_utf8(bytes@) && s@ == decode_utf8(bytes@),
            None => !valid_utf8(bytes@),
        },
{
    match std::str::from_utf8(bytes) {
        Ok(s) => Some(s.to_owned()),
        Err(_) => None,
    }
}

/// The encoding of a text: its length in bytes, then the bytes.
pub open spec fn text_encoded(v: Seq<char>) -> Seq<u8> {
    <u64 as Wire>::encoded(encode_utf8(v).len() as u64) + encode_utf8(v)
}

/// Appends the encoding of a text.
pub fn put_text(out: &mut Vec<u8>, text: &str)
    ensures
        final(out)@ == old(out)@ + text_encoded(text@),
{
    let bytes = text.as_bytes();
    let count: u64 = bytes.len() as u64;
    count.put(out);
    put_bytes(out, bytes);
    assert(out@ =~= old(out)@ + text_encoded(text@));
}

/// Appends bytes.
pub fn put_bytes(out: &mut Vec<u8>, bytes: &[u8])
    ensures
        final(out)@ == old(out)@ + bytes@,
{
    let mut i: usize = 0;
    while i < bytes.len()
        invariant
            i <= bytes@.len(),
            out@ == old(out)@ + bytes@.take(i as int),
        decreases bytes@.len() - i,
    {
        out.push(bytes[i]);
        i = i + 1;
        assert(out@ =~= old(out)@ + bytes@.take(i as int));
    }
    assert(bytes@.take(bytes@.len() as int) =~= bytes@);
}

impl Wire for String {
    open spec fn encodable(v: Seq<char>) -> bool {
        true
    }

    open spec fn faithful(v: Seq<char>) -> bool {
        encode_utf8(v).len() <= u64::MAX
    }

    open spec fn encoded(v: Seq<char>) -> Seq<u8> {
        text_encoded(v)
    }

    open spec fn decoded(bytes: Seq<u8>) -> Decoded<Seq<char>> {
        match <u64 as Wire>::decoded(bytes) {
            Err(e) => Err(e),
            Ok((n, rest)) => if rest.len() < n {
                Err(ProtocolErrorView::Malformed(short_text()))
            } else if !valid_utf8(rest.take(n as int)) {
                Err(ProtocolErrorView::Malformed("text is not valid UTF-8"@))
            } else {
                Ok((decode_utf8(rest.take(n as int)), rest.skip(n as int)))
            },
        }
    }

    proof fn reads_back(v: Seq<char>, rest: Seq<u8>) {
        let body = encode_utf8(v);
        encode_utf8_valid_utf8(v);
        encode_utf8_decode_utf8(v);
        <u64 as Wire>::reads_back(body.len() as u64, body + rest);
        assert(text_encoded(v) + rest =~= <u64 as Wire>::encoded(body.len() as u64) + (body
            + rest));
        assert((body + rest).take(body.len() as int) =~= body);
        assert((body + rest).skip(body.len() as int) =~= rest);
    }

    fn put(&self, out: &mut Vec<u8>) {
        put_text(out, self.as_str());
    }

    fn get(cursor: &mut &[u8]) -> (result: Result<String, ProtocolError>) {
        let n: u64 = u64::get(cursor)?;
        if (cursor.len() as u64) < n {
            return short();
        }
        match take_bytes(cursor, n as usize) {
            Some(head) => match text_from_utf8(head) {
                Some(text) => Ok(text),
                None => Err(malformed("text is not valid UTF-8")),
            },
            None => short(),
        }
    }
}

// --------------------------------------------------------------- sequences

/// The encodings of some things, one after another.
pub open spec fn all_encoded<T: Wire>(items: Seq<T::V>) -> Seq<u8>
    decreases items.len(),
{
    if items.len() == 0 {
        Seq::empty()
    } else {
        T::encoded(items[0]) + all_encoded::<T>(items.drop_first())
    }
}

/// What the front of some bytes decodes as, read as `n` things.
pub open spec fn all_decoded<T: Wire>(bytes: Seq<u8>, n: nat) -> Decoded<Seq<T::V>>
    decreases n,
{
    if n == 0 {
        Ok((Seq::empty(), bytes))
    } else {
        match T::decoded(bytes) {
            Err(e) => Err(e),
            Ok((v, rest)) => match all_decoded::<T>(rest, (n - 1) as nat) {
                Err(e) => Err(e),
                Ok((vs, rest)) => Ok((seq![v] + vs, rest)),
            },
        }
    }
}

/// `put` accepts each of some things.
pub open spec fn all_encodable<T: Wire>(items: Seq<T::V>) -> bool {
    forall|i: int| 0 <= i < items.len() ==> T::encodable(#[trigger] items[i])
}

/// Each of some things is read back as it was put.
pub open spec fn all_faithful<T: Wire>(items: Seq<T::V>) -> bool {
    forall|i: int| 0 <= i < items.len() ==> T::faithful(#[trigger] items[i])
}

/// Reading back a sequence of things.
pub proof fn all_read_back<T: Wire>(items: Seq<T::V>, rest: Seq<u8>)
    requires
        all_faithful::<T>(items),
    ensures
        all_decoded::<T>(all_encoded::<T>(items) + rest, items.len()) == Ok::<
            (Seq<T::V>, Seq<u8>),
            ProtocolErrorView,
        >((items, rest)),
    decreases items.len(),
{
    if items.len() == 0 {
        assert(all_encoded::<T>(items) + rest =~= rest);
        assert(items =~= Seq::empty());
    } else {
        let tail = items.drop_first();
        assert forall|i: int| 0 <= i < tail.len() implies T::faithful(#[trigger] tail[i]) by {
            assert(tail[i] == items[i + 1]);
        }
        all_read_back::<T>(tail, rest);
        let after = all_encoded::<T>(tail) + rest;
        T::reads_back(items[0], after);
        assert(all_encoded::<T>(items) + rest =~= T::encoded(items[0]) + after);
        assert(seq![items[0]] + tail =~= items);
    }
}

/// Appending a thing appends its encoding.
pub proof fn all_encoded_push<T: Wire>(items: Seq<T::V>, last: T::V)
    ensures
        all_encoded::<T>(items.push(last)) == all_encoded::<T>(items) + T::encoded(last),
    decreases items.len(),
{
    let longer = items.push(last);
    if items.len() == 0 {
        assert(longer.drop_first() =~= items);
        assert(all_encoded::<T>(longer) =~= all_encoded::<T>(items) + T::encoded(last));
    } else {
        all_encoded_push::<T>(items.drop_first(), last);
        assert(longer.drop_first() =~= items.drop_first().push(last));
        assert(all_encoded::<T>(longer) =~= all_encoded::<T>(items) + T::encoded(last));
    }
}

/// Appends the encodings of some things.
pub fn put_all<T: Wire>(out: &mut Vec<u8>, items: &[T])
    requires
        all_encodable::<T>(views(items@)),
    ensures
        final(out)@ == old(out)@ + all_encoded::<T>(views(items@)),
{
    let ghost vs = views(items@);
    let mut i: usize = 0;
    assert(vs.take(0) =~= Seq::empty());
    assert(out@ =~= old(out)@ + all_encoded::<T>(vs.take(0)));
    while i < items.len()
        invariant
            vs == views(items@),
            all_encodable::<T>(vs),
            i <= items@.len(),
            out@ == old(out)@ + all_encoded::<T>(vs.take(i as int)),
        decreases items@.len() - i,
    {
        assert(T::encodable(vs[i as int]));
        items[i].put(out);
        proof {
            all_encoded_push::<T>(vs.take(i as int), vs[i as int]);
            assert(vs.take(i as int).push(vs[i as int]) =~= vs.take(i + 1));
            assert(out@ =~= old(out)@ + all_encoded::<T>(vs.take(i + 1)));
        }
        i = i + 1;
    }
    assert(vs.take(vs.len() as int) =~= vs);
}

/// `first` in front of what decoding the rest yields.
pub open spec fn after_items<V>(first: Seq<V>, decoded: Decoded<Seq<V>>) -> Decoded<Seq<V>> {
    match decoded {
        Err(e) => Err(e),
        Ok((vs, rest)) => Ok((first + vs, rest)),
    }
}

/// A sequence decoder's result is the one expected.
pub open spec fn decodes_as_all<T: View>(
    result: Result<Vec<T>, ProtocolError>,
    after: Seq<u8>,
    expected: Decoded<Seq<T::V>>,
) -> bool {
    match expected {
        Ok((vs, rest)) => result is Ok && views(result->Ok_0@) == vs && after == rest,
        Err(e) => result is Err && result->Err_0@ == e,
    }
}

/// Decodes `n` things from the front of `cursor`. Nothing is reserved ahead,
/// so a hostile count costs no memory.
pub fn get_all<T: Wire>(cursor: &mut &[u8], n: u64) -> (result: Result<Vec<T>, ProtocolError>)
    ensures
        decodes_as_all(result, final(cursor)@, all_decoded::<T>(old(cursor)@, n as nat)),
{
    let mut items: Vec<T> = Vec::new();
    let ghost expected = all_decoded::<T>(cursor@, n as nat);
    let mut i: u64 = 0;
    assert(expected == after_items(views(items@), all_decoded::<T>(cursor@, n as nat))) by {
        if let Ok((vs, rest)) = expected {
            assert(views(items@) + vs =~= vs);
        }
    }
    while i < n
        invariant
            i <= n,
            expected == all_decoded::<T>(old(cursor)@, n as nat),
            expected == after_items(views(items@), all_decoded::<T>(cursor@, (n - i) as nat)),
        ensures
            i == n,
        decreases n - i,
    {
        let ghost before = views(items@);
        let ghost here = cursor@;
        let item = T::get(cursor)?;
        items.push(item);
        i = i + 1;
        proof {
            assert(views(items@) =~= before.push(item@));
            if let Ok((vs, rest)) = all_decoded::<T>(cursor@, (n - i) as nat) {
                assert(before + (seq![item@] + vs) =~= before.push(item@) + vs);
            }
        }
    }
    assert(views(items@) + Seq::empty() =~= views(items@));
    Ok(items)
}

/// The encoding of a counted sequence: the count, then the things.
pub open spec fn counted_encoded<T: Wire>(items: Seq<T::V>) -> Seq<u8> {
    <u64 as Wire>::encoded(items.len() as u64) + all_encoded::<T>(items)
}

/// What the front of some bytes decodes as, read as a counted sequence.
pub open spec fn counted_decoded<T: Wire>(bytes: Seq<u8>) -> Decoded<Seq<T::V>> {
    match <u64 as Wire>::decoded(bytes) {
        Err(e) => Err(e),
        Ok((n, rest)) => all_decoded::<T>(rest, n as nat),
    }
}

/// A counted sequence is read back as it was put.
pub open spec fn counted_faithful<T: Wire>(items: Seq<T::V>) -> bool {
    items.len() <= u64::MAX && all_faithful::<T>(items)
}

/// Reading back a counted sequence.
pub proof fn counted_reads_back<T: Wire>(items: Seq<T::V>, rest: Seq<u8>)
    requires
        counted_faithful::<T>(items),
    ensures
        counted_decoded::<T>(counted_encoded::<T>(items) + rest) == Ok::<
            (Seq<T::V>, Seq<u8>),
            ProtocolErrorView,
        >((items, rest)),
{
    let after = all_encoded::<T>(items) + rest;
    <u64 as Wire>::reads_back(items.len() as u64, after);
    assert(counted_encoded::<T>(items) + rest =~= <u64 as Wire>::encoded(items.len() as u64)
        + after);
    all_read_back::<T>(items, rest);
}

/// Appends a counted sequence.
pub fn put_counted<T: Wire>(out: &mut Vec<u8>, items: &[T])
    requires
        all_encodable::<T>(views(items@)),
    ensures
        final(out)@ == old(out)@ + counted_encoded::<T>(views(items@)),
{
    let count: u64 = items.len() as u64;
    count.put(out);
    put_all(out, items);
    assert(out@ =~= old(out)@ + counted_encoded::<T>(views(items@)));
}

/// Decodes a counted sequence from the front of `cursor`.
pub fn get_counted<T: Wire>(cursor: &mut &[u8]) -> (result: Result<Vec<T>, ProtocolError>)
    ensures
        decodes_as_all(result, final(cursor)@, counted_decoded::<T>(old(cursor)@)),
{
    let n: u64 = u64::get(cursor)?;
    get_all(cursor, n)
}

// ------------------------------------------------------------ compositions

impl Wire for () {
    open spec fn encodable(v: ()) -> bool {
        true
    }

    open spec fn faithful(v: ()) -> bool {
        true
    }

    open spec fn encoded(v: ()) -> Seq<u8> {
        Seq::empty()
    }

    open spec fn decoded(bytes: Seq<u8>) -> Decoded<()> {
        Ok(((), bytes))
    }

    proof fn reads_back(v: (), rest: Seq<u8>) {
        assert(Seq::<u8>::empty() + rest =~= rest);
    }

    fn put(&self, out: &mut Vec<u8>) {
        assert(out@ + Seq::<u8>::empty() =~= out@);
    }

    fn get(cursor: &mut &[u8]) -> (result: Result<(), ProtocolError>) {
        Ok(())
    }
}

/// One thing, then another.
impl<A: Wire, B: Wire> Wire for (A, B) {
    open spec fn encodable(v: (A::V, B::V)) -> bool {
        A::encodable(v.0) && B::encodable(v.1)
    }

    open spec fn faithful(v: (A::V, B::V)) -> bool {
        A::faithful(v.0) && B::faithful(v.1)
    }

    open spec fn encoded(v: (A::V, B::V)) -> Seq<u8> {
        A::encoded(v.0) + B::encoded(v.1)
    }

    open spec fn decoded(bytes: Seq<u8>) -> Decoded<(A::V, B::V)> {
        match A::decoded(bytes) {
            Err(e) => Err(e),
            Ok((first, rest)) => match B::decoded(rest) {
                Err(e) => Err(e),
                Ok((second, rest)) => Ok(((first, second), rest)),
            },
        }
    }

    proof fn reads_back(v: (A::V, B::V), rest: Seq<u8>) {
        A::reads_back(v.0, B::encoded(v.1) + rest);
        B::reads_back(v.1, rest);
        join_assoc(A::encoded(v.0), B::encoded(v.1), rest);
    }

    fn put(&self, out: &mut Vec<u8>) {
        self.0.put(out);
        self.1.put(out);
        proof {
            join_assoc(old(out)@, A::encoded(self.0@), B::encoded(self.1@));
        }
    }

    fn get(cursor: &mut &[u8]) -> (result: Result<(A, B), ProtocolError>) {
        let first = A::get(cursor)?;
        let second = B::get(cursor)?;
        Ok((first, second))
    }
}

/// A counted sequence of things.
pub struct Counted<T> {
    /// The things.
    pub items: Vec<T>,
}

impl<T: View> View for Counted<T> {
    type V = Seq<T::V>;

    open spec fn view(&self) -> Seq<T::V> {
        views(self.items@)
    }
}

impl<T: Wire> Wire for Counted<T> {
    open spec fn encodable(v: Seq<T::V>) -> bool {
        all_encodable::<T>(v)
    }

    open spec fn faithful(v: Seq<T::V>) -> bool {
        counted_faithful::<T>(v)
    }

    open spec fn encoded(v: Seq<T::V>) -> Seq<u8> {
        counted_encoded::<T>(v)
    }

    open spec fn decoded(bytes: Seq<u8>) -> Decoded<Seq<T::V>> {
        counted_decoded::<T>(bytes)
    }

    proof fn reads_back(v: Seq<T::V>, rest: Seq<u8>) {
        counted_reads_back::<T>(v, rest);
    }

    fn put(&self, out: &mut Vec<u8>) {
        put_counted(out, self.items.as_slice());
    }

    fn get(cursor: &mut &[u8]) -> (result: Result<Counted<T>, ProtocolError>) {
        let items = get_counted::<T>(cursor)?;
        Ok(Counted { items })
    }
}

/// How a request ended: with a result, or with a reason why not.
pub enum Outcome<T> {
    /// The request was granted.
    Done(T),
    /// The request was refused.
    Refused(String),
}

/// The mathematical content of an [`Outcome`].
pub enum OutcomeView<V> {
    Done(V),
    Refused(Seq<char>),
}

impl<T: View> View for Outcome<T> {
    type V = OutcomeView<T::V>;

    open spec fn view(&self) -> OutcomeView<T::V> {
        match self {
            Outcome::Done(x) => OutcomeView::Done(x@),
            Outcome::Refused(reason) => OutcomeView::Refused(reason@),
        }
    }
}

impl<T: Wire> Wire for Outcome<T> {
    open spec fn encodable(v: OutcomeView<T::V>) -> bool {
        v matches OutcomeView::Done(x) ==> T::encodable(x)
    }

    open spec fn faithful(v: OutcomeView<T::V>) -> bool {
        match v {
            OutcomeView::Done(x) => T::faithful(x),
            OutcomeView::Refused(reason) => <String as Wire>::faithful(reason),
        }
    }

    /// A truth value, then the result or the reason.
    open spec fn encoded(v: OutcomeView<T::V>) -> Seq<u8> {
        match v {
            OutcomeView::Done(x) => <bool as Wire>::encoded(true) + T::encoded(x),
            OutcomeView::Refused(reason) => <bool as Wire>::encoded(false) + text_encoded(reason),
        }
    }

    open spec fn decoded(bytes: Seq<u8>) -> Decoded<OutcomeView<T::V>> {
        match <bool as Wire>::decoded(bytes) {
            Err(e) => Err(e),
            Ok((ok, rest)) => if ok {
                match T::decoded(rest) {
                    Err(e) => Err(e),
                    Ok((x, rest)) => Ok((OutcomeView::Done(x), rest)),
                }
            } else {
                match <String as Wire>::decoded(rest) {
                    Err(e) => Err(e),
                    Ok((reason, rest)) => Ok((OutcomeView::Refused(reason), rest)),
                }
            },
        }
    }

    proof fn reads_back(v: OutcomeView<T::V>, rest: Seq<u8>) {
        match v {
            OutcomeView::Done(x) => {
                T::reads_back(x, rest);
                <bool as Wire>::reads_back(true, T::encoded(x) + rest);
                join_assoc(<bool as Wire>::encoded(true), T::encoded(x), rest);
            },
            OutcomeView::Refused(reason) => {
                <String as Wire>::reads_back(reason, rest);
                <bool as Wire>::reads_back(false, text_encoded(reason) + rest);
                join_assoc(<bool as Wire>::encoded(false), text_encoded(reason), rest);
            },
        }
    }

    fn put(&self, out: &mut Vec<u8>) {
        match self {
            Outcome::Done(x) => {
                true.put(out);
                x.put(out);
                proof {
                    join_assoc(old(out)@, <bool as Wire>::encoded(true), T::encoded(x@));
                }
            },
            Outcome::Refused(reason) => {
                false.put(out);
                put_text(out, reason.as_str());
                proof {
                    join_assoc(old(out)@, <bool as Wire>::encoded(false), text_encoded(reason@));
                }
            },
        }
    }

    fn get(cursor: &mut &[u8]) -> (result: Result<Outcome<T>, ProtocolError>) {
        let ok = bool::get(cursor)?;
        if ok {
            let x = T::get(cursor)?;
            Ok(Outcome::Done(x))
        } else {
            let reason = String::get(cursor)?;
            Ok(Outcome::Refused(reason))
        }
    }
}

// ----------------------------------------------------------- whole payloads

/// What a whole payload decodes as: bytes left over are a violation.
#[verifier::opaque]
pub open spec fn whole_decoded<T: Wire>(payload: Seq<u8>) -> Result<T::V, ProtocolErrorView> {
    match T::decoded(payload) {
        Err(e) => Err(e),
        Ok((v, rest)) => if rest.len() == 0 {
            Ok(v)
        } else {
            Err(ProtocolErrorView::Malformed("trailing bytes after message payload"@))
        },
    }
}

/// Reading back a whole payload.
pub proof fn whole_reads_back<T: Wire>(v: T::V)
    requires
        T::faithful(v),
    ensures
        whole_decoded::<T>(T::encoded(v)) == Ok::<T::V, ProtocolErrorView>(v),
{
    reveal(whole_decoded);
    T::reads_back(v, Seq::empty());
    assert(T::encoded(v) + Seq::<u8>::empty() =~= T::encoded(v));
}

/// Decodes a whole payload.
pub fn get_whole<T: Wire>(payload: &[u8]) -> (result: Result<T, ProtocolError>)
    ensures
        match whole_decoded::<T>(payload@) {
            Ok(v) => result is Ok && result->Ok_0@ == v,
            Err(e) => result is Err && result->Err_0@ == e,
        },
{
    proof {
        reveal(whole_decoded);
    }
    let mut cursor: &[u8] = payload;
    let value = T::get(&mut cursor)?;
    if cursor.len() == 0 {
        Ok(value)
    } else {
        Err(malformed("trailing bytes after message payload"))
    }
}

} // verus!
