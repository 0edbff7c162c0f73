//! The encodings of the things messages carry: values, rows, changes, input
//! frames, queries and reducer arguments.

use vstd::prelude::*;
use vstd::utf8::*;

use crate::base::change::{
    Change, ChangeBody, ChangeBodyView, ChangeKind, ChangeView, DeliveredRow, DeliveredRowView,
};
use crate::base::error::ErrorView;
use crate::base::ids::{RowId, TableId, TickId, Version};
use crate::base::input::{InputCommand, InputCommandView, InputFrame, InputFrameView};
use crate::base::query::{
    ComparisonOp, OrderBy, OrderByView, OrderDirection, Predicate, PredicateView, Query, QueryParts,
    QueryView,
};
use crate::base::text::{decimal, join, number};
use crate::base::value::{opt_view, views, Row, Value, ValueView};
use crate::network::error::{ProtocolError, ProtocolErrorView};
use crate::network::wire::{
    all_decoded, all_encoded, all_faithful, all_read_back, byte_decoded, counted_decoded,
    counted_encoded, counted_faithful, counted_reads_back, decodes_as, get_all, get_counted,
    join_assoc, le_bytes_len, malformed, put_counted, put_text, short_text, text_encoded, Counted,
    Decoded, Wire,
};
use crate::reducer::args::{
    in_name_order, setting_ordered_pairs, with_entries, Entries, ReducerArgs,
};
use crate::reducer::event::{ReducerEvent, ReducerEventView};

verus! {

/// The message of a tag byte that stands for nothing.
pub open spec fn tag_text(what: Seq<char>, tag: u8) -> Seq<char> {
    what + decimal(tag as nat)
}

/// A violation that names a tag byte.
pub fn bad_tag(what: &str, tag: u8) -> (error: ProtocolError)
    ensures
        error@ == ProtocolErrorView::Malformed(tag_text(what@, tag)),
{
    let digits = number(tag as u64);
    ProtocolError::Malformed(join(what, digits.as_str()))
}

// ------------------------------------------------------------------ values

/// The two's complement pattern of a signed number of the given range.
pub open spec fn to_pattern(v: int, range: int) -> int {
    if v < 0 {
        v + range
    } else {
        v
    }
}

/// The signed number that a two's complement pattern stands for.
pub open spec fn from_pattern(p: int, range: int) -> int {
    if p < range / 2 {
        p
    } else {
        p - range
    }
}

/// The tag byte of each value type.
pub open spec fn value_tag(v: ValueView) -> u8 {
    match v {
        ValueView::Bool(_) => 0,
        ValueView::I32(_) => 1,
        ValueView::I64(_) => 2,
        ValueView::U32(_) => 3,
        ValueView::U64(_) => 4,
        ValueView::F64(_) => 5,
        ValueView::Text(_) => 6,
    }
}

/// The encoding of a value behind its tag.
pub open spec fn value_body(v: ValueView) -> Seq<u8> {
    match v {
        ValueView::Bool(b) => <bool as Wire>::encoded(b),
        ValueView::I32(n) => <u64 as Wire>::encoded(
            to_pattern(n as int, 0x1_0000_0000_0000_0000) as u64,
        ),
        ValueView::I64(n) => <u64 as Wire>::encoded(
            to_pattern(n as int, 0x1_0000_0000_0000_0000) as u64,
        ),
        ValueView::U32(n) => <u64 as Wire>::encoded(n as u64),
        ValueView::U64(n) => <u64 as Wire>::encoded(n),
        ValueView::F64(bits) => <u64 as Wire>::encoded(bits),
        ValueView::Text(s) => text_encoded(s),
    }
}

/// The message of a number that does not fit its type.
pub open spec fn range_text() -> Seq<char> {
    "value is out of range for its type"@
}

/// What follows a tag byte.
pub open spec fn value_body_decoded(tag: u8, bytes: Seq<u8>) -> Decoded<ValueView> {
    if tag == 0 {
        match <bool as Wire>::decoded(bytes) {
            Err(e) => Err(e),
            Ok((b, rest)) => Ok((ValueView::Bool(b), rest)),
        }
    } else if tag == 6 {
        match <String as Wire>::decoded(bytes) {
            Err(e) => Err(e),
            Ok((s, rest)) => Ok((ValueView::Text(s), rest)),
        }
    } else if tag > 6 {
        Err(ProtocolErrorView::Malformed(tag_text("unknown value tag "@, tag)))
    } else {
        match <u64 as Wire>::decoded(bytes) {
            Err(e) => Err(e),
            Ok((n, rest)) => {
                let signed = from_pattern(n as int, 0x1_0000_0000_0000_0000);
                if tag == 1 {
                    if i32::MIN <= signed <= i32::MAX {
                        Ok((ValueView::I32(signed as i32), rest))
                    } else {
                        Err(ProtocolErrorView::Malformed(range_text()))
                    }
                } else if tag == 2 {
                    Ok((ValueView::I64(signed as i64), rest))
                } else if tag == 3 {
                    if n <= u32::MAX {
                        Ok((ValueView::U32(n as u32), rest))
                    } else {
                        Err(ProtocolErrorView::Malformed(range_text()))
                    }
                } else if tag == 4 {
                    Ok((ValueView::U64(n), rest))
                } else {
                    Ok((ValueView::F64(n), rest))
                }
            },
        }
    }
}

fn pattern_of(n: i64) -> (p: u64)
    ensures
        p == to_pattern(n as int, 0x1_0000_0000_0000_0000),
{
    if n < 0 {
        (n as i128 + 0x1_0000_0000_0000_0000i128) as u64
    } else {
        n as u64
    }
}

fn signed_of(p: u64) -> (n: i64)
    ensures
        n == from_pattern(p as int, 0x1_0000_0000_0000_0000),
{
    if p < 0x8000_0000_0000_0000u64 {
        p as i64
    } else {
        (p as i128 - 0x1_0000_0000_0000_0000i128) as i64
    }
}

impl Wire for Value {
    open spec fn encodable(v: ValueView) -> bool {
        true
    }

    open spec fn faithful(v: ValueView) -> bool {
        match v {
            ValueView::Text(s) => <String as Wire>::faithful(s),
            _ => true,
        }
    }

    open spec fn encoded(v: ValueView) -> Seq<u8> {
        seq![value_tag(v)] + value_body(v)
    }

    open spec fn decoded(bytes: Seq<u8>) -> Decoded<ValueView> {
        match byte_decoded(bytes) {
            Err(_) => Err(ProtocolErrorView::Malformed(short_text())),
            Ok((tag, rest)) => value_body_decoded(tag, rest),
        }
    }

    proof fn reads_back(v: ValueView, rest: Seq<u8>) {
        let after = value_body(v) + rest;
        <u8 as Wire>::reads_back(value_tag(v), after);
        assert(Self::encoded(v) + rest =~= seq![value_tag(v)] + after);
        match v {
            ValueView::Bool(b) => {
                <bool as Wire>::reads_back(b, rest);
            },
            ValueView::I32(n) => {
                <u64 as Wire>::reads_back(
                    to_pattern(n as int, 0x1_0000_0000_0000_0000) as u64,
                    rest,
                );
            },
            ValueView::I64(n) => {
                <u64 as Wire>::reads_back(
                    to_pattern(n as int, 0x1_0000_0000_0000_0000) as u64,
                    rest,
                );
            },
            ValueView::U32(n) => {
                <u64 as Wire>::reads_back(n as u64, rest);
            },
            ValueView::U64(n) => {
                <u64 as Wire>::reads_back(n, rest);
            },
            ValueView::F64(bits) => {
                <u64 as Wire>::reads_back(bits, rest);
            },
            ValueView::Text(s) => {
                <String as Wire>::reads_back(s, rest);
            },
        }
    }

    fn put(&self, out: &mut Vec<u8>) {
        match self {
            Value::Bool(b) => {
                out.push(0);
                b.put(out);
            },
            Value::I32(n) => {
                out.push(1);
                pattern_of(*n as i64).put(out);
            },
            Value::I64(n) => {
                out.push(2);
                pattern_of(*n).put(out);
            },
            Value::U32(n) => {
                out.push(3);
                (*n as u64).put(out);
            },
            Value::U64(n) => {
                out.push(4);
                n.put(out);
            },
            Value::F64(bits) => {
                out.push(5);
                bits.put(out);
            },
            Value::String(s) => {
                out.push(6);
                put_text(out, s.as_str());
            },
        }
        assert(out@ =~= old(out)@ + Self::encoded(self@));
    }

    fn get(cursor: &mut &[u8]) -> (result: Result<Value, ProtocolError>) {
        let tag: u8 = match u8::get(cursor) {
            Ok(tag) => tag,
            Err(_) => {
                return Err(malformed("unexpected end of encoded data"));
            },
        };
        if tag == 0 {
            let b = bool::get(cursor)?;
            return Ok(Value::Bool(b));
        }
        if tag == 6 {
            let s = String::get(cursor)?;
            return Ok(Value::String(s));
        }
        if tag > 6 {
            return Err(bad_tag("unknown value tag ", tag));
        }
        let n: u64 = u64::get(cursor)?;
        if tag == 1 {
            let signed: i64 = signed_of(n);
            if signed < -0x8000_0000i64 || signed > 0x7fff_ffffi64 {
                return Err(malformed("value is out of range for its type"));
            }
            Ok(Value::I32(signed as i32))
        } else if tag == 2 {
            Ok(Value::I64(signed_of(n)))
        } else if tag == 3 {
            if n > 0xffff_ffffu64 {
                return Err(malformed("value is out of range for its type"));
            }
            Ok(Value::U32(n as u32))
        } else if tag == 4 {
            Ok(Value::U64(n))
        } else {
            Ok(Value::F64(n))
        }
    }
}

impl Wire for Row {
    open spec fn encodable(v: Seq<ValueView>) -> bool {
        true
    }

    open spec fn faithful(v: Seq<ValueView>) -> bool {
        counted_faithful::<Value>(v)
    }

    open spec fn encoded(v: Seq<ValueView>) -> Seq<u8> {
        counted_encoded::<Value>(v)
    }

    open spec fn decoded(bytes: Seq<u8>) -> Decoded<Seq<ValueView>> {
        counted_decoded::<Value>(bytes)
    }

    proof fn reads_back(v: Seq<ValueView>, rest: Seq<u8>) {
        counted_reads_back::<Value>(v, rest);
    }

    fn put(&self, out: &mut Vec<u8>) {
        put_counted(out, self.values());
    }

    fn get(cursor: &mut &[u8]) -> (result: Result<Row, ProtocolError>) {
        let values = get_counted::<Value>(cursor)?;
        Ok(Row::new(values))
    }
}

impl Wire for DeliveredRow {
    open spec fn encodable(v: DeliveredRowView) -> bool {
        true
    }

    open spec fn faithful(v: DeliveredRowView) -> bool {
        <Row as Wire>::faithful(v.row)
    }

    open spec fn encoded(v: DeliveredRowView) -> Seq<u8> {
        <u64 as Wire>::encoded(v.row_id.0) + <Row as Wire>::encoded(v.row)
    }

    open spec fn decoded(bytes: Seq<u8>) -> Decoded<DeliveredRowView> {
        match <u64 as Wire>::decoded(bytes) {
            Err(e) => Err(e),
            Ok((id, rest)) => match <Row as Wire>::decoded(rest) {
                Err(e) => Err(e),
                Ok((row, rest)) => Ok((DeliveredRowView { row_id: RowId(id), row }, rest)),
            },
        }
    }

    proof fn reads_back(v: DeliveredRowView, rest: Seq<u8>) {
        let after = <Row as Wire>::encoded(v.row) + rest;
        <u64 as Wire>::reads_back(v.row_id.0, after);
        <Row as Wire>::reads_back(v.row, rest);
        assert(Self::encoded(v) + rest =~= <u64 as Wire>::encoded(v.row_id.0) + after);
    }

    fn put(&self, out: &mut Vec<u8>) {
        self.row_id.as_u64().put(out);
        self.row.put(out);
        assert(out@ =~= old(out)@ + Self::encoded(self@));
    }

    fn get(cursor: &mut &[u8]) -> (result: Result<DeliveredRow, ProtocolError>) {
        let id: u64 = u64::get(cursor)?;
        let row = Row::get(cursor)?;
        Ok(DeliveredRow::new(RowId::from_u64(id), row))
    }
}

impl Wire for ReducerEvent {
    open spec fn encodable(v: ReducerEventView) -> bool {
        true
    }

    open spec fn faithful(v: ReducerEventView) -> bool {
        <String as Wire>::faithful(v.name) && <Value as Wire>::faithful(v.payload)
    }

    open spec fn encoded(v: ReducerEventView) -> Seq<u8> {
        text_encoded(v.name) + <Value as Wire>::encoded(v.payload)
    }

    open spec fn decoded(bytes: Seq<u8>) -> Decoded<ReducerEventView> {
        match <(String, Value) as Wire>::decoded(bytes) {
            Err(e) => Err(e),
            Ok(((name, payload), rest)) => Ok((ReducerEventView { name, payload }, rest)),
        }
    }

    proof fn reads_back(v: ReducerEventView, rest: Seq<u8>) {
        <(String, Value) as Wire>::reads_back((v.name, v.payload), rest);
    }

    fn put(&self, out: &mut Vec<u8>) {
        put_text(out, self.name());
        self.payload().put(out);
        assert(out@ =~= old(out)@ + Self::encoded(self@));
    }

    fn get(cursor: &mut &[u8]) -> (result: Result<ReducerEvent, ProtocolError>) {
        let name = String::get(cursor)?;
        let payload = Value::get(cursor)?;
        Ok(ReducerEvent::new(name.as_str(), payload))
    }
}

// ----------------------------------------------------------------- options

/// The encoding of an optional thing: a presence byte, then the thing.
pub open spec fn opt_encoded<T: Wire>(v: Option<T::V>) -> Seq<u8> {
    match v {
        Some(x) => seq![1u8] + T::encoded(x),
        None => seq![0u8],
    }
}

/// An optional thing is read back as it was put.
pub open spec fn opt_faithful<T: Wire>(v: Option<T::V>) -> bool {
    match v {
        Some(x) => T::faithful(x),
        None => true,
    }
}

/// What the front of some bytes decodes as, read as an optional thing whose
/// presence byte is `0` or `1`.
pub open spec fn opt_decoded<T: Wire>(bytes: Seq<u8>, what: Seq<char>) -> Decoded<Option<T::V>> {
    match byte_decoded(bytes) {
        Err(e) => Err(e),
        Ok((flag, rest)) => if flag == 0 {
            Ok((None, rest))
        } else if flag == 1 {
            match T::decoded(rest) {
                Err(e) => Err(e),
                Ok((x, rest)) => Ok((Some(x), rest)),
            }
        } else {
            Err(ProtocolErrorView::Malformed(tag_text(what, flag)))
        },
    }
}

proof fn opt_reads_back<T: Wire>(v: Option<T::V>, what: Seq<char>, rest: Seq<u8>)
    requires
        opt_faithful::<T>(v),
    ensures
        opt_decoded::<T>(opt_encoded::<T>(v) + rest, what) == Ok::<
            (Option<T::V>, Seq<u8>),
            ProtocolErrorView,
        >((v, rest)),
{
    match v {
        Some(x) => {
            let after = T::encoded(x) + rest;
            T::reads_back(x, rest);
            <u8 as Wire>::reads_back(1u8, after);
            assert(opt_encoded::<T>(v) + rest =~= seq![1u8] + after);
        },
        None => {
            <u8 as Wire>::reads_back(0u8, rest);
        },
    }
}

fn put_opt<T: Wire>(out: &mut Vec<u8>, item: Option<&T>)
    requires
        item matches Some(x) ==> T::encodable(x@),
    ensures
        final(out)@ == old(out)@ + opt_encoded::<T>(
            match item {
                Some(x) => Some(x@),
                None => None,
            },
        ),
{
    match item {
        Some(x) => {
            out.push(1);
            x.put(out);
            assert(out@ =~= old(out)@ + (seq![1u8] + T::encoded(x@)));
        },
        None => {
            out.push(0);
            assert(out@ =~= old(out)@ + seq![0u8]);
        },
    }
}

fn get_opt<T: Wire>(cursor: &mut &[u8], what: &str) -> (result: Result<Option<T>, ProtocolError>)
    ensures
        match opt_decoded::<T>(old(cursor)@, what@) {
            Ok((v, rest)) => result is Ok && opt_view(result->Ok_0) == v && final(cursor)@ == rest,
            Err(e) => result is Err && result->Err_0@ == e,
        },
{
    let flag: u8 = u8::get(cursor)?;
    if flag == 0 {
        Ok(None)
    } else if flag == 1 {
        let x = T::get(cursor)?;
        Ok(Some(x))
    } else {
        Err(bad_tag(what, flag))
    }
}

// ------------------------------------------------------------ input frames

/// The flag message of a command payload.
pub open spec fn payload_flag_text() -> Seq<char> {
    "invalid payload flag "@
}

impl Wire for InputCommand {
    open spec fn encodable(v: InputCommandView) -> bool {
        true
    }

    open spec fn faithful(v: InputCommandView) -> bool {
        v.kind.len() > 0 && <String as Wire>::faithful(v.kind) && opt_faithful::<Value>(v.payload)
    }

    open spec fn encoded(v: InputCommandView) -> Seq<u8> {
        <u64 as Wire>::encoded(v.source) + text_encoded(v.kind) + opt_encoded::<Value>(v.payload)
    }

    open spec fn decoded(bytes: Seq<u8>) -> Decoded<InputCommandView> {
        match <u64 as Wire>::decoded(bytes) {
            Err(e) => Err(e),
            Ok((source, rest)) => match <String as Wire>::decoded(rest) {
                Err(e) => Err(e),
                Ok((kind, rest)) => if kind.len() == 0 {
                    Err(ProtocolErrorView::Malformed("input command kind must not be empty"@))
                } else {
                    match opt_decoded::<Value>(rest, payload_flag_text()) {
                        Err(e) => Err(e),
                        Ok((payload, rest)) => Ok(
                            (InputCommandView { source, kind, payload }, rest),
                        ),
                    }
                },
            },
        }
    }

    proof fn reads_back(v: InputCommandView, rest: Seq<u8>) {
        let third = opt_encoded::<Value>(v.payload) + rest;
        let second = text_encoded(v.kind) + third;
        <u64 as Wire>::reads_back(v.source, second);
        <String as Wire>::reads_back(v.kind, third);
        opt_reads_back::<Value>(v.payload, payload_flag_text(), rest);
        assert(Self::encoded(v) + rest =~= <u64 as Wire>::encoded(v.source) + second);
    }

    fn put(&self, out: &mut Vec<u8>) {
        self.source().put(out);
        put_text(out, self.kind());
        put_opt(out, self.payload().as_ref());
        assert(out@ =~= old(out)@ + Self::encoded(self@));
    }

    fn get(cursor: &mut &[u8]) -> (result: Result<InputCommand, ProtocolError>) {
        let source: u64 = u64::get(cursor)?;
        let kind = String::get(cursor)?;
        if kind.as_str().is_empty() {
            return Err(malformed("input command kind must not be empty"));
        }
        let payload = get_opt::<Value>(cursor, "invalid payload flag ")?;
        match InputCommand::new(source, kind.as_str(), payload) {
            Ok(command) => Ok(command),
            Err(error) => {
                let text = error.to_text();
                Err(malformed(text.as_str()))
            },
        }
    }
}

proof fn commands_take_space(commands: Seq<InputCommandView>)
    requires
        all_faithful::<InputCommand>(commands),
    ensures
        all_encoded::<InputCommand>(commands).len() >= 18 * commands.len(),
    decreases commands.len(),
{
    if commands.len() > 0 {
        let tail = commands.drop_first();
        let first = commands[0];
        assert(<InputCommand as Wire>::faithful(first));
        assert forall|i: int| 0 <= i < tail.len() implies <InputCommand as Wire>::faithful(
            #[trigger] tail[i],
        ) by {
            assert(tail[i] == commands[i + 1]);
        }
        commands_take_space(tail);
        le_bytes_len(first.source as nat, 8);
        le_bytes_len(encode_utf8(first.kind).len() as u64 as nat, 8);
        encode_utf8_decode_utf8(first.kind);
        if encode_utf8(first.kind).len() == 0 {
            assert(encode_utf8(first.kind) =~= Seq::empty());
            assert(decode_utf8(Seq::<u8>::empty()).len() == 0);
        }
        assert(opt_encoded::<Value>(first.payload).len() >= 1);
        assert(<InputCommand as Wire>::encoded(first).len() >= 18);
    }
}

impl Wire for InputFrame {
    open spec fn encodable(v: InputFrameView) -> bool {
        true
    }

    open spec fn faithful(v: InputFrameView) -> bool {
        counted_faithful::<InputCommand>(v.commands)
    }

    open spec fn encoded(v: InputFrameView) -> Seq<u8> {
        <u64 as Wire>::encoded(v.tick.0) + counted_encoded::<InputCommand>(v.commands)
    }

    /// A command takes at least 18 bytes, so a count that the remaining bytes
    /// cannot hold is refused before anything else is read.
    open spec fn decoded(bytes: Seq<u8>) -> Decoded<InputFrameView> {
        match <u64 as Wire>::decoded(bytes) {
            Err(e) => Err(e),
            Ok((tick, rest)) => match <u64 as Wire>::decoded(rest) {
                Err(e) => Err(e),
                Ok((count, rest)) => if count > rest.len() / 18 {
                    Err(
                        ProtocolErrorView::Malformed(
                            "command count exceeds the remaining payload"@,
                        ),
                    )
                } else {
                    match all_decoded::<InputCommand>(rest, count as nat) {
                        Err(e) => Err(e),
                        Ok((commands, rest)) => Ok(
                            (InputFrameView { tick: TickId(tick), commands }, rest),
                        ),
                    }
                },
            },
        }
    }

    #[verifier::spinoff_prover]
    proof fn reads_back(v: InputFrameView, rest: Seq<u8>) {
        let count = v.commands.len() as u64;
        let third = all_encoded::<InputCommand>(v.commands) + rest;
        let second = <u64 as Wire>::encoded(count) + third;
        let first = <u64 as Wire>::encoded(v.tick.0) + second;
        assert(<u64 as Wire>::decoded(first) == Ok::<(u64, Seq<u8>), ProtocolErrorView>(
            (v.tick.0, second),
        )) by {
            <u64 as Wire>::reads_back(v.tick.0, second);
        }
        assert(<u64 as Wire>::decoded(second) == Ok::<(u64, Seq<u8>), ProtocolErrorView>(
            (count, third),
        )) by {
            <u64 as Wire>::reads_back(count, third);
        }
        assert(count <= third.len() / 18) by {
            commands_take_space(v.commands);
        }
        assert(all_decoded::<InputCommand>(third, count as nat) == Ok::<
            (Seq<InputCommandView>, Seq<u8>),
            ProtocolErrorView,
        >((v.commands, rest))) by {
            all_read_back::<InputCommand>(v.commands, rest);
        }
        assert(Self::encoded(v) + rest =~= first);
    }

    fn put(&self, out: &mut Vec<u8>) {
        self.tick.as_u64().put(out);
        put_counted(out, self.commands.as_slice());
        assert(out@ =~= old(out)@ + Self::encoded(self@));
    }

    fn get(cursor: &mut &[u8]) -> (result: Result<InputFrame, ProtocolError>) {
        let tick: u64 = u64::get(cursor)?;
        let count: u64 = u64::get(cursor)?;
        if count > (cursor.len() / 18) as u64 {
            return Err(malformed("command count exceeds the remaining payload"));
        }
        let commands = get_all::<InputCommand>(cursor, count)?;
        Ok(InputFrame { tick: TickId::from_u64(tick), commands })
    }
}

// ----------------------------------------------------------------- queries

/// The tag byte of a comparison.
pub open spec fn comparison_tag(op: ComparisonOp) -> u8 {
    match op {
        ComparisonOp::Eq => 0,
        ComparisonOp::Ne => 1,
        ComparisonOp::Lt => 2,
        ComparisonOp::Lte => 3,
        ComparisonOp::Gt => 4,
        ComparisonOp::Gte => 5,
    }
}

/// The tag byte of a direction.
pub open spec fn direction_tag(direction: OrderDirection) -> u8 {
    match direction {
        OrderDirection::Ascending => 0,
        OrderDirection::Descending => 1,
    }
}

impl Wire for ComparisonOp {
    open spec fn encodable(v: ComparisonOp) -> bool {
        true
    }

    open spec fn faithful(v: ComparisonOp) -> bool {
        true
    }

    open spec fn encoded(v: ComparisonOp) -> Seq<u8> {
        seq![comparison_tag(v)]
    }

    open spec fn decoded(bytes: Seq<u8>) -> Decoded<ComparisonOp> {
        match byte_decoded(bytes) {
            Err(e) => Err(e),
            Ok((tag, rest)) => if tag == 0 {
                Ok((ComparisonOp::Eq, rest))
            } else if tag == 1 {
                Ok((ComparisonOp::Ne, rest))
            } else if tag == 2 {
                Ok((ComparisonOp::Lt, rest))
            } else if tag == 3 {
                Ok((ComparisonOp::Lte, rest))
            } else if tag == 4 {
                Ok((ComparisonOp::Gt, rest))
            } else if tag == 5 {
                Ok((ComparisonOp::Gte, rest))
            } else {
                Err(ProtocolErrorView::Malformed(tag_text("unknown comparison op tag "@, tag)))
            },
        }
    }

    proof fn reads_back(v: ComparisonOp, rest: Seq<u8>) {
        <u8 as Wire>::reads_back(comparison_tag(v), rest);
    }

    fn put(&self, out: &mut Vec<u8>) {
        let tag: u8 = match self {
            ComparisonOp::Eq => 0,
            ComparisonOp::Ne => 1,
            ComparisonOp::Lt => 2,
            ComparisonOp::Lte => 3,
            ComparisonOp::Gt => 4,
            ComparisonOp::Gte => 5,
        };
        tag.put(out);
    }

    fn get(cursor: &mut &[u8]) -> (result: Result<ComparisonOp, ProtocolError>) {
        let tag: u8 = u8::get(cursor)?;
        match tag {
            0 => Ok(ComparisonOp::Eq),
            1 => Ok(ComparisonOp::Ne),
            2 => Ok(ComparisonOp::Lt),
            3 => Ok(ComparisonOp::Lte),
            4 => Ok(ComparisonOp::Gt),
            5 => Ok(ComparisonOp::Gte),
            _ => Err(bad_tag("unknown comparison op tag ", tag)),
        }
    }
}

impl View for ComparisonOp {
    type V = ComparisonOp;

    open spec fn view(&self) -> ComparisonOp {
        *self
    }
}

impl View for OrderDirection {
    type V = OrderDirection;

    open spec fn view(&self) -> OrderDirection {
        *self
    }
}

impl Wire for OrderDirection {
    open spec fn encodable(v: OrderDirection) -> bool {
        true
    }

    open spec fn faithful(v: OrderDirection) -> bool {
        true
    }

    open spec fn encoded(v: OrderDirection) -> Seq<u8> {
        seq![direction_tag(v)]
    }

    open spec fn decoded(bytes: Seq<u8>) -> Decoded<OrderDirection> {
        match byte_decoded(bytes) {
            Err(e) => Err(e),
            Ok((tag, rest)) => if tag == 0 {
                Ok((OrderDirection::Ascending, rest))
            } else if tag == 1 {
                Ok((OrderDirection::Descending, rest))
            } else {
                Err(ProtocolErrorView::Malformed(tag_text("unknown order direction tag "@, tag)))
            },
        }
    }

    proof fn reads_back(v: OrderDirection, rest: Seq<u8>) {
        <u8 as Wire>::reads_back(direction_tag(v), rest);
    }

    fn put(&self, out: &mut Vec<u8>) {
        let tag: u8 = match self {
            OrderDirection::Ascending => 0,
            OrderDirection::Descending => 1,
        };
        tag.put(out);
    }

    fn get(cursor: &mut &[u8]) -> (result: Result<OrderDirection, ProtocolError>) {
        let tag: u8 = u8::get(cursor)?;
        match tag {
            0 => Ok(OrderDirection::Ascending),
            1 => Ok(OrderDirection::Descending),
            _ => Err(bad_tag("unknown order direction tag ", tag)),
        }
    }
}

impl Wire for Predicate {
    open spec fn encodable(v: PredicateView) -> bool {
        true
    }

    open spec fn faithful(v: PredicateView) -> bool {
        <String as Wire>::faithful(v.column) && <Value as Wire>::faithful(v.value)
    }

    open spec fn encoded(v: PredicateView) -> Seq<u8> {
        text_encoded(v.column) + <ComparisonOp as Wire>::encoded(v.op) + <Value as Wire>::encoded(
            v.value,
        )
    }

    open spec fn decoded(bytes: Seq<u8>) -> Decoded<PredicateView> {
        match <String as Wire>::decoded(bytes) {
            Err(e) => Err(e),
            Ok((column, rest)) => match <ComparisonOp as Wire>::decoded(rest) {
                Err(e) => Err(e),
                Ok((op, rest)) => match <Value as Wire>::decoded(rest) {
                    Err(e) => Err(e),
                    Ok((value, rest)) => Ok((PredicateView { column, op, value }, rest)),
                },
            },
        }
    }

    proof fn reads_back(v: PredicateView, rest: Seq<u8>) {
        let third = <Value as Wire>::encoded(v.value) + rest;
        let second = <ComparisonOp as Wire>::encoded(v.op) + third;
        <String as Wire>::reads_back(v.column, second);
        <ComparisonOp as Wire>::reads_back(v.op, third);
        <Value as Wire>::reads_back(v.value, rest);
        assert(Self::encoded(v) + rest =~= text_encoded(v.column) + second);
    }

    fn put(&self, out: &mut Vec<u8>) {
        put_text(out, self.column.as_str());
        self.op.put(out);
        self.value.put(out);
        assert(out@ =~= old(out)@ + Self::encoded(self@));
    }

    fn get(cursor: &mut &[u8]) -> (result: Result<Predicate, ProtocolError>) {
        let column = String::get(cursor)?;
        let op = ComparisonOp::get(cursor)?;
        let value = Value::get(cursor)?;
        Ok(Predicate { column, op, value })
    }
}

impl Wire for OrderBy {
    open spec fn encodable(v: OrderByView) -> bool {
        true
    }

    open spec fn faithful(v: OrderByView) -> bool {
        <String as Wire>::faithful(v.column)
    }

    open spec fn encoded(v: OrderByView) -> Seq<u8> {
        text_encoded(v.column) + <OrderDirection as Wire>::encoded(v.direction)
    }

    open spec fn decoded(bytes: Seq<u8>) -> Decoded<OrderByView> {
        match <String as Wire>::decoded(bytes) {
            Err(e) => Err(e),
            Ok((column, rest)) => match <OrderDirection as Wire>::decoded(rest) {
                Err(e) => Err(e),
                Ok((direction, rest)) => Ok((OrderByView { column, direction }, rest)),
            },
        }
    }

    proof fn reads_back(v: OrderByView, rest: Seq<u8>) {
        let second = <OrderDirection as Wire>::encoded(v.direction) + rest;
        <String as Wire>::reads_back(v.column, second);
        <OrderDirection as Wire>::reads_back(v.direction, rest);
        assert(Self::encoded(v) + rest =~= text_encoded(v.column) + second);
    }

    fn put(&self, out: &mut Vec<u8>) {
        put_text(out, self.column.as_str());
        self.direction.put(out);
        assert(out@ =~= old(out)@ + Self::encoded(self@));
    }

    fn get(cursor: &mut &[u8]) -> (result: Result<OrderBy, ProtocolError>) {
        let column = String::get(cursor)?;
        let direction = OrderDirection::get(cursor)?;
        Ok(OrderBy { column, direction })
    }
}

/// An optional thing that is present when its flag byte is `1` and absent
/// otherwise.
pub struct Flagged<T> {
    /// The thing, if present.
    pub item: Option<T>,
}

impl<T: View> View for Flagged<T> {
    type V = Option<T::V>;

    open spec fn view(&self) -> Option<T::V> {
        opt_view(self.item)
    }
}

impl<T: Wire> Wire for Flagged<T> {
    open spec fn encodable(v: Option<T::V>) -> bool {
        v matches Some(x) ==> T::encodable(x)
    }

    open spec fn faithful(v: Option<T::V>) -> bool {
        opt_faithful::<T>(v)
    }

    open spec fn encoded(v: Option<T::V>) -> Seq<u8> {
        opt_encoded::<T>(v)
    }

    open spec fn decoded(bytes: Seq<u8>) -> Decoded<Option<T::V>> {
        match byte_decoded(bytes) {
            Err(e) => Err(e),
            Ok((flag, rest)) => if flag == 1 {
                match T::decoded(rest) {
                    Err(e) => Err(e),
                    Ok((x, rest)) => Ok((Some(x), rest)),
                }
            } else {
                Ok((None, rest))
            },
        }
    }

    proof fn reads_back(v: Option<T::V>, rest: Seq<u8>) {
        match v {
            Some(x) => {
                T::reads_back(x, rest);
                <u8 as Wire>::reads_back(1u8, T::encoded(x) + rest);
                join_assoc(seq![1u8], T::encoded(x), rest);
            },
            None => {
                <u8 as Wire>::reads_back(0u8, rest);
            },
        }
    }

    fn put(&self, out: &mut Vec<u8>) {
        put_opt(out, self.item.as_ref());
    }

    fn get(cursor: &mut &[u8]) -> (result: Result<Flagged<T>, ProtocolError>) {
        let flag: u8 = u8::get(cursor)?;
        if flag == 1 {
            let x = T::get(cursor)?;
            Ok(Flagged { item: Some(x) })
        } else {
            Ok(Flagged { item: None })
        }
    }
}

/// A query payload: table, conditions, ordering, limit, columns.
pub type QueryWire = (
    String,
    (Counted<Predicate>, (Flagged<OrderBy>, (Flagged<u32>, Flagged<Counted<String>>))),
);

/// The parts of a query in payload order.
pub open spec fn query_fields(v: QueryView) -> <QueryWire as View>::V {
    (v.table, (v.predicates, (v.order_by, (v.limit, v.projection))))
}

impl Wire for Query {
    open spec fn encodable(v: QueryView) -> bool {
        true
    }

    open spec fn faithful(v: QueryView) -> bool {
        v.table.len() > 0 && <QueryWire as Wire>::faithful(query_fields(v))
    }

    open spec fn encoded(v: QueryView) -> Seq<u8> {
        <QueryWire as Wire>::encoded(query_fields(v))
    }

    /// The parts in order; an empty table name is a violation.
    open spec fn decoded(bytes: Seq<u8>) -> Decoded<QueryView> {
        match <QueryWire as Wire>::decoded(bytes) {
            Err(e) => Err(e),
            Ok(((table, (predicates, (order_by, (limit, projection)))), rest)) => if table.len()
                == 0 {
                Err(
                    ProtocolErrorView::Malformed(
                        ErrorView::InvalidArgument("query table name must not be empty"@).text(),
                    ),
                )
            } else {
                Ok((QueryView { table, predicates, order_by, limit, projection }, rest))
            },
        }
    }

    proof fn reads_back(v: QueryView, rest: Seq<u8>) {
        <QueryWire as Wire>::reads_back(query_fields(v), rest);
    }

    fn put(&self, out: &mut Vec<u8>) {
        let parts = self.parts();
        put_text(out, parts.table.as_str());
        put_counted(out, parts.predicates.as_slice());
        put_opt(out, parts.order_by.as_ref());
        put_opt(out, parts.limit.as_ref());
        put_columns(out, &parts.projection);
        proof {
            let start = old(out)@;
            let t = text_encoded(self@.table);
            let p = counted_encoded::<Predicate>(self@.predicates);
            let o = opt_encoded::<OrderBy>(self@.order_by);
            let l = opt_encoded::<u32>(self@.limit);
            let c = opt_encoded::<Counted<String>>(self@.projection);
            join_assoc(start + t + p + o, l, c);
            join_assoc(start + t + p, o, l + c);
            join_assoc(start + t, p, o + (l + c));
            join_assoc(start, t, p + (o + (l + c)));
        }
    }

    fn get(cursor: &mut &[u8]) -> (result: Result<Query, ProtocolError>) {
        let (table, (predicates, (order_by, (limit, projection)))) = <QueryWire as Wire>::get(
            cursor,
        )?;
        let columns = match projection.item {
            Some(names) => Some(names.items),
            None => None,
        };
        let parts = QueryParts {
            table,
            predicates: predicates.items,
            order_by: order_by.item,
            limit: limit.item,
            projection: columns,
        };
        match Query::build(parts) {
            Ok(query) => Ok(query),
            Err(error) => {
                let text = error.to_text();
                Err(malformed(text.as_str()))
            },
        }
    }
}

fn put_columns(out: &mut Vec<u8>, columns: &Option<Vec<String>>)
    ensures
        final(out)@ == old(out)@ + opt_encoded::<Counted<String>>(
            match columns {
                Some(names) => Some(views(names@)),
                None => None,
            },
        ),
{
    match columns {
        Some(names) => {
            out.push(1);
            put_counted(out, names.as_slice());
            assert(out@ =~= old(out)@ + (seq![1u8] + counted_encoded::<String>(views(names@))));
        },
        None => {
            out.push(0);
            assert(out@ =~= old(out)@ + seq![0u8]);
        },
    }
}

// --------------------------------------------------------------- arguments

proof fn pairs_take_space(pairs: Entries)
    ensures
        all_encoded::<(String, Value)>(pairs).len() >= pairs.len(),
    decreases pairs.len(),
{
    if pairs.len() > 0 {
        pairs_take_space(pairs.drop_first());
        le_bytes_len(encode_utf8(pairs[0].0).len() as u64 as nat, 8);
        assert(<(String, Value) as Wire>::encoded(pairs[0]).len() >= 1);
    }
}

impl Wire for ReducerArgs {
    open spec fn encodable(v: Entries) -> bool {
        true
    }

    open spec fn faithful(v: Entries) -> bool {
        in_name_order(v) && counted_faithful::<(String, Value)>(v)
    }

    open spec fn encoded(v: Entries) -> Seq<u8> {
        counted_encoded::<(String, Value)>(v)
    }

    /// A pair takes at least one byte, so a count that the remaining bytes
    /// cannot hold is refused. A later pair replaces an earlier one of the
    /// same name.
    open spec fn decoded(bytes: Seq<u8>) -> Decoded<Entries> {
        match <u64 as Wire>::decoded(bytes) {
            Err(e) => Err(e),
            Ok((count, rest)) => if count > rest.len() {
                Err(
                    ProtocolErrorView::Malformed(
                        "reducer args count exceeds the remaining payload"@,
                    ),
                )
            } else {
                match all_decoded::<(String, Value)>(rest, count as nat) {
                    Err(e) => Err(e),
                    Ok((pairs, rest)) => Ok((with_entries(Seq::empty(), pairs), rest)),
                }
            },
        }
    }

    proof fn reads_back(v: Entries, rest: Seq<u8>) {
        let after = all_encoded::<(String, Value)>(v) + rest;
        <u64 as Wire>::reads_back(v.len() as u64, after);
        assert(Self::encoded(v) + rest =~= <u64 as Wire>::encoded(v.len() as u64) + after);
        all_read_back::<(String, Value)>(v, rest);
        pairs_take_space(v);
        assert(Seq::<(Seq<char>, ValueView)>::empty() + v =~= v);
        setting_ordered_pairs(Seq::empty(), v);
    }

    fn put(&self, out: &mut Vec<u8>) {
        let count: u64 = self.len() as u64;
        count.put(out);
        let ghost vs = self@;
        let ghost start = out@;
        let mut i: usize = 0;
        assert(vs.take(0) =~= Seq::empty());
        assert(out@ =~= start + all_encoded::<(String, Value)>(vs.take(0)));
        while i < self.len()
            invariant
                vs == self@,
                i <= vs.len(),
                out@ == start + all_encoded::<(String, Value)>(vs.take(i as int)),
            decreases vs.len() - i,
        {
            let (name, value) = self.entry(i);
            put_text(out, name);
            value.put(out);
            proof {
                pairs_encoded_push(vs.take(i as int), vs[i as int]);
                assert(vs.take(i as int).push(vs[i as int]) =~= vs.take(i + 1));
                assert(out@ =~= start + all_encoded::<(String, Value)>(vs.take(i + 1)));
            }
            i = i + 1;
        }
        assert(vs.take(vs.len() as int) =~= vs);
        assert(out@ =~= old(out)@ + Self::encoded(self@));
    }

    fn get(cursor: &mut &[u8]) -> (result: Result<ReducerArgs, ProtocolError>) {
        let count: u64 = u64::get(cursor)?;
        if count > cursor.len() as u64 {
            return Err(malformed("reducer args count exceeds the remaining payload"));
        }
        let mut pairs = get_all::<(String, Value)>(cursor, count)?;
        let ghost vs = views(pairs@);
        let mut args = ReducerArgs::new();
        while pairs.len() > 0
            invariant
                with_entries(args@, views(pairs@)) == with_entries(Seq::empty(), vs),
            decreases pairs@.len(),
        {
            let ghost before = views(pairs@);
            let (name, value) = pairs.remove(0);
            args = args.insert(name.as_str(), value);
            assert(views(pairs@) =~= before.drop_first());
        }
        assert(views(pairs@) =~= Seq::empty());
        Ok(args)
    }
}

proof fn pairs_encoded_push(pairs: Entries, last: (Seq<char>, ValueView))
    ensures
        all_encoded::<(String, Value)>(pairs.push(last)) == all_encoded::<(String, Value)>(pairs)
            + <(String, Value) as Wire>::encoded(last),
{
    crate::network::wire::all_encoded_push::<(String, Value)>(pairs, last);
}

// ----------------------------------------------------------------- changes

/// The rows and versions of a change as they travel.
pub struct ChangeFields {
    pub old_row: Option<Seq<ValueView>>,
    pub new_row: Option<Seq<ValueView>>,
    pub old_version: Option<u64>,
    pub new_version: Option<u64>,
}

/// The tag byte of a change.
pub open spec fn change_tag(body: ChangeBodyView) -> u8 {
    match body {
        ChangeBodyView::Insert { .. } => 1,
        ChangeBodyView::Update { .. } => 2,
        ChangeBodyView::Delete { .. } => 3,
    }
}

/// The rows and versions a change sends.
pub open spec fn change_fields(body: ChangeBodyView) -> ChangeFields {
    match body {
        ChangeBodyView::Insert { row, version } => ChangeFields {
            old_row: None,
            new_row: Some(row),
            old_version: None,
            new_version: Some(version.0),
        },
        ChangeBodyView::Update { old_row, old_version, new_row, new_version } => ChangeFields {
            old_row: Some(old_row),
            new_row: Some(new_row),
            old_version: Some(old_version.0),
            new_version: Some(new_version.0),
        },
        ChangeBodyView::Delete { row, version } => ChangeFields {
            old_row: Some(row),
            new_row: None,
            old_version: Some(version.0),
            new_version: None,
        },
    }
}

/// The encoding of the rows and versions of a change.
pub open spec fn fields_encoded(f: ChangeFields) -> Seq<u8> {
    opt_encoded::<Row>(f.old_row) + opt_encoded::<Row>(f.new_row) + opt_encoded::<u64>(
        f.old_version,
    ) + opt_encoded::<u64>(f.new_version)
}

/// What the front of some bytes decodes as, read as the rows and versions of
/// a change.
pub open spec fn fields_decoded(bytes: Seq<u8>) -> Decoded<ChangeFields> {
    match opt_decoded::<Row>(bytes, "invalid optional-row flag "@) {
        Err(e) => Err(e),
        Ok((old_row, rest)) => match opt_decoded::<Row>(rest, "invalid optional-row flag "@) {
            Err(e) => Err(e),
            Ok((new_row, rest)) => match opt_decoded::<u64>(
                rest,
                "invalid optional-version flag "@,
            ) {
                Err(e) => Err(e),
                Ok((old_version, rest)) => match opt_decoded::<u64>(
                    rest,
                    "invalid optional-version flag "@,
                ) {
                    Err(e) => Err(e),
                    Ok((new_version, rest)) => Ok(
                        (ChangeFields { old_row, new_row, old_version, new_version }, rest),
                    ),
                },
            },
        },
    }
}

proof fn fields_read_back(f: ChangeFields, rest: Seq<u8>)
    requires
        opt_faithful::<Row>(f.old_row),
        opt_faithful::<Row>(f.new_row),
    ensures
        fields_decoded(fields_encoded(f) + rest) == Ok::<
            (ChangeFields, Seq<u8>),
            ProtocolErrorView,
        >((f, rest)),
{
    let a = opt_encoded::<Row>(f.old_row);
    let b = opt_encoded::<Row>(f.new_row);
    let c = opt_encoded::<u64>(f.old_version);
    let d = opt_encoded::<u64>(f.new_version);
    assert(fields_encoded(f) + rest == a + (b + (c + (d + rest)))) by {
        join_assoc(a + b + c, d, rest);
        join_assoc(a + b, c, d + rest);
        join_assoc(a, b, c + (d + rest));
    }
    opt_reads_back::<Row>(f.old_row, "invalid optional-row flag "@, b + (c + (d + rest)));
    opt_reads_back::<Row>(f.new_row, "invalid optional-row flag "@, c + (d + rest));
    opt_reads_back::<u64>(f.old_version, "invalid optional-version flag "@, d + rest);
    opt_reads_back::<u64>(f.new_version, "invalid optional-version flag "@, rest);
}

/// The change that a kind and the rows and versions sent stand for. What the
/// kind does not need is ignored; what it needs and lacks is a violation.
pub open spec fn body_from(kind: ChangeKind, f: ChangeFields) -> Result<
    ChangeBodyView,
    Seq<char>,
> {
    match kind {
        ChangeKind::Insert => match (f.new_row, f.new_version) {
            (None, _) => Err("insert change lacks a new row"@),
            (_, None) => Err("insert change lacks a new version"@),
            (Some(row), Some(version)) => Ok(
                ChangeBodyView::Insert { row, version: Version(version) },
            ),
        },
        ChangeKind::Update => match (f.old_row, f.old_version, f.new_row, f.new_version) {
            (None, _, _, _) => Err("update change lacks an old row"@),
            (_, None, _, _) => Err("update change lacks an old version"@),
            (_, _, None, _) => Err("update change lacks a new row"@),
            (_, _, _, None) => Err("update change lacks a new version"@),
            (Some(old_row), Some(old_version), Some(new_row), Some(new_version)) => Ok(
                ChangeBodyView::Update {
                    old_row,
                    old_version: Version(old_version),
                    new_row,
                    new_version: Version(new_version),
                },
            ),
        },
        ChangeKind::Delete => match (f.old_row, f.old_version) {
            (None, _) => Err("delete change lacks an old row"@),
            (_, None) => Err("delete change lacks an old version"@),
            (Some(row), Some(version)) => Ok(
                ChangeBodyView::Delete { row, version: Version(version) },
            ),
        },
    }
}

impl View for ChangeKind {
    type V = ChangeKind;

    open spec fn view(&self) -> ChangeKind {
        *self
    }
}

/// The change kind a tag byte stands for.
pub open spec fn kind_decoded(bytes: Seq<u8>) -> Decoded<ChangeKind> {
    match byte_decoded(bytes) {
        Err(e) => Err(e),
        Ok((tag, rest)) => if tag == 1 {
            Ok((ChangeKind::Insert, rest))
        } else if tag == 2 {
            Ok((ChangeKind::Update, rest))
        } else if tag == 3 {
            Ok((ChangeKind::Delete, rest))
        } else {
            Err(ProtocolErrorView::Malformed(tag_text("unknown change kind tag "@, tag)))
        },
    }
}

fn get_change_kind(cursor: &mut &[u8]) -> (result: Result<ChangeKind, ProtocolError>)
    ensures
        decodes_as(result, final(cursor)@, kind_decoded(old(cursor)@)),
{
    let tag: u8 = u8::get(cursor)?;
    match tag {
        1 => Ok(ChangeKind::Insert),
        2 => Ok(ChangeKind::Update),
        3 => Ok(ChangeKind::Delete),
        _ => Err(bad_tag("unknown change kind tag ", tag)),
    }
}

impl Wire for Change {
    open spec fn encodable(v: ChangeView) -> bool {
        true
    }

    open spec fn faithful(v: ChangeView) -> bool {
        opt_faithful::<Row>(change_fields(v.body).old_row) && opt_faithful::<Row>(
            change_fields(v.body).new_row,
        )
    }

    open spec fn encoded(v: ChangeView) -> Seq<u8> {
        <u64 as Wire>::encoded(v.table_id.0) + seq![change_tag(v.body)] + <u64 as Wire>::encoded(
            v.row_id.0,
        ) + fields_encoded(change_fields(v.body))
    }

    open spec fn decoded(bytes: Seq<u8>) -> Decoded<ChangeView> {
        match <u64 as Wire>::decoded(bytes) {
            Err(e) => Err(e),
            Ok((table, rest)) => match kind_decoded(rest) {
                Err(e) => Err(e),
                Ok((kind, rest)) => match <u64 as Wire>::decoded(rest) {
                    Err(e) => Err(e),
                    Ok((row, rest)) => match fields_decoded(rest) {
                        Err(e) => Err(e),
                        Ok((fields, rest)) => match body_from(kind, fields) {
                            Err(message) => Err(ProtocolErrorView::Malformed(message)),
                            Ok(body) => Ok(
                                (
                                    ChangeView { table_id: TableId(table), row_id: RowId(row), body },
                                    rest,
                                ),
                            ),
                        },
                    },
                },
            },
        }
    }

    proof fn reads_back(v: ChangeView, rest: Seq<u8>) {
        let f = change_fields(v.body);
        let table = <u64 as Wire>::encoded(v.table_id.0);
        let tag = seq![change_tag(v.body)];
        let row = <u64 as Wire>::encoded(v.row_id.0);
        let fourth = fields_encoded(f) + rest;
        let third = row + fourth;
        let second = tag + third;
        assert(Self::encoded(v) + rest == table + second) by {
            join_assoc(table + tag + row, fields_encoded(f), rest);
            join_assoc(table + tag, row, fourth);
            join_assoc(table, tag, third);
        }
        fields_read_back(f, rest);
        <u64 as Wire>::reads_back(v.table_id.0, second);
        <u8 as Wire>::reads_back(change_tag(v.body), third);
        <u64 as Wire>::reads_back(v.row_id.0, fourth);
        assert(body_from(
            match v.body {
                ChangeBodyView::Insert { .. } => ChangeKind::Insert,
                ChangeBodyView::Update { .. } => ChangeKind::Update,
                ChangeBodyView::Delete { .. } => ChangeKind::Delete,
            },
            f,
        ) == Ok::<ChangeBodyView, Seq<char>>(v.body));
    }

    fn put(&self, out: &mut Vec<u8>) {
        self.table_id.as_u64().put(out);
        match &self.body {
            ChangeBody::Insert { row, version } => {
                out.push(1);
                self.row_id.as_u64().put(out);
                put_opt::<Row>(out, None);
                put_opt(out, Some(row));
                put_opt::<u64>(out, None);
                let number: u64 = version.as_u64();
                put_opt(out, Some(&number));
            },
            ChangeBody::Update { old_row, old_version, new_row, new_version } => {
                out.push(2);
                self.row_id.as_u64().put(out);
                put_opt(out, Some(old_row));
                put_opt(out, Some(new_row));
                let before: u64 = old_version.as_u64();
                put_opt(out, Some(&before));
                let after: u64 = new_version.as_u64();
                put_opt(out, Some(&after));
            },
            ChangeBody::Delete { row, version } => {
                out.push(3);
                self.row_id.as_u64().put(out);
                put_opt(out, Some(row));
                put_opt::<Row>(out, None);
                let number: u64 = version.as_u64();
                put_opt(out, Some(&number));
                put_opt::<u64>(out, None);
            },
        }
        assert(out@ =~= old(out)@ + Self::encoded(self@));
    }

    fn get(cursor: &mut &[u8]) -> (result: Result<Change, ProtocolError>) {
        let table: u64 = u64::get(cursor)?;
        let kind = get_change_kind(cursor)?;
        let row: u64 = u64::get(cursor)?;
        let old_row = get_opt::<Row>(cursor, "invalid optional-row flag ")?;
        let new_row = get_opt::<Row>(cursor, "invalid optional-row flag ")?;
        let old_version = get_opt::<u64>(cursor, "invalid optional-version flag ")?;
        let new_version = get_opt::<u64>(cursor, "invalid optional-version flag ")?;
        let body = match kind {
            ChangeKind::Insert => match (new_row, new_version) {
                (None, _) => {
                    return Err(malformed("insert change lacks a new row"));
                },
                (_, None) => {
                    return Err(malformed("insert change lacks a new version"));
                },
                (Some(row), Some(version)) => ChangeBody::Insert {
                    row,
                    version: Version::from_u64(version),
                },
            },
            ChangeKind::Update => match (old_row, old_version, new_row, new_version) {
                (None, _, _, _) => {
                    return Err(malformed("update change lacks an old row"));
                },
                (_, None, _, _) => {
                    return Err(malformed("update change lacks an old version"));
                },
                (_, _, None, _) => {
                    return Err(malformed("update change lacks a new row"));
                },
                (_, _, _, None) => {
                    return Err(malformed("update change lacks a new version"));
                },
                (Some(old_row), Some(old_version), Some(new_row), Some(new_version)) =>
                    ChangeBody::Update {
                    old_row,
                    old_version: Version::from_u64(old_version),
                    new_row,
                    new_version: Version::from_u64(new_version),
                },
            },
            ChangeKind::Delete => match (old_row, old_version) {
                (None, _) => {
                    return Err(malformed("delete change lacks an old row"));
                },
                (_, None) => {
                    return Err(malformed("delete change lacks an old version"));
                },
                (Some(row), Some(version)) => ChangeBody::Delete {
                    row,
                    version: Version::from_u64(version),
                },
            },
        };
        Ok(Change { table_id: TableId::from_u64(table), row_id: RowId::from_u64(row), body })
    }
}

} // verus!
