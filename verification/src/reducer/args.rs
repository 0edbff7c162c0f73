//! Reducer arguments: a named, deterministic, protocol-independent map.
//!
//! Names are self-documenting and iteration follows the order of names.
//! Typed accessors report a missing name as [`Error::NotFound`] and a value
//! of another type as [`Error::InvalidArgument`].

use vstd::prelude::*;
use vstd::string::*;

use crate::base::error::{Error, ErrorView};
use crate::base::text::{comes_before, join, text_before, text_order_total, text_order_transitive};
use crate::base::value::{Value, ValueView};

verus! {

/// Named values in the order of their names.
pub type Entries = Seq<(Seq<char>, ValueView)>;

/// Every name comes before every later one.
pub open spec fn in_name_order(entries: Entries) -> bool {
    forall|i: int, j: int|
        0 <= i < j < entries.len() ==> text_before(
            #[trigger] entries[i].0,
            #[trigger] entries[j].0,
        )
}

/// How many leading entries come before `name`.
pub open spec fn rank(entries: Entries, name: Seq<char>) -> int
    decreases entries.len(),
{
    if entries.len() > 0 && text_before(entries[0].0, name) {
        1 + rank(entries.drop_first(), name)
    } else {
        0
    }
}

/// The entries with `name` set to `value`.
pub open spec fn with_entry(entries: Entries, name: Seq<char>, value: ValueView) -> Entries {
    let at = rank(entries, name);
    if at < entries.len() && entries[at].0 == name {
        entries.update(at, (name, value))
    } else {
        entries.insert(at, (name, value))
    }
}

/// Whether `name` is present.
pub open spec fn has_entry(entries: Entries, name: Seq<char>) -> bool {
    exists|i: int| 0 <= i < entries.len() && (#[trigger] entries[i]).0 == name
}

/// The value of `name`, if present.
pub open spec fn entry_of(entries: Entries, name: Seq<char>) -> Option<ValueView> {
    if has_entry(entries, name) {
        Some(
            entries[choose|i: int|
                0 <= i < entries.len() && (#[trigger] entries[i]).0 == name].1,
        )
    } else {
        None
    }
}

/// The entries that result from setting each pair of `pairs` in turn.
pub open spec fn with_entries(entries: Entries, pairs: Entries) -> Entries
    decreases pairs.len(),
{
    if pairs.len() == 0 {
        entries
    } else {
        with_entries(with_entry(entries, pairs[0].0, pairs[0].1), pairs.drop_first())
    }
}

proof fn rank_is(entries: Entries, name: Seq<char>, at: int)
    requires
        0 <= at <= entries.len(),
        forall|j: int| 0 <= j < at ==> text_before((#[trigger] entries[j]).0, name),
        at == entries.len() || !text_before(entries[at].0, name),
    ensures
        rank(entries, name) == at,
    decreases entries.len(),
{
    if at > 0 {
        let tail = entries.drop_first();
        assert(entries[0].0 == entries[0].0);
        assert forall|j: int| 0 <= j < at - 1 implies text_before((#[trigger] tail[j]).0, name) by {
            assert(tail[j] == entries[j + 1]);
        }
        if at < entries.len() {
            assert(tail[at - 1] == entries[at]);
        }
        rank_is(tail, name, at - 1);
    }
}

proof fn rank_bounds(entries: Entries, name: Seq<char>)
    ensures
        0 <= rank(entries, name) <= entries.len(),
        forall|j: int|
            0 <= j < rank(entries, name) ==> text_before((#[trigger] entries[j]).0, name),
        rank(entries, name) < entries.len() ==> !text_before(
            entries[rank(entries, name)].0,
            name,
        ),
    decreases entries.len(),
{
    if entries.len() > 0 && text_before(entries[0].0, name) {
        let tail = entries.drop_first();
        rank_bounds(tail, name);
        assert forall|j: int| 0 <= j < rank(entries, name) implies text_before(
            (#[trigger] entries[j]).0,
            name,
        ) by {
            if j > 0 {
                assert(tail[j - 1] == entries[j]);
            }
        }
    }
}

/// Setting an entry keeps the entries in the order of their names, and so
/// without duplicates.
pub proof fn with_entry_in_order(entries: Entries, name: Seq<char>, value: ValueView)
    requires
        in_name_order(entries),
    ensures
        in_name_order(with_entry(entries, name, value)),
{
    rank_bounds(entries, name);
    let at = rank(entries, name);
    let after = with_entry(entries, name, value);
    if at < entries.len() {
        text_order_total(entries[at].0, name);
    }
    assert forall|i: int, j: int| 0 <= i < j < after.len() implies text_before(
        #[trigger] after[i].0,
        #[trigger] after[j].0,
    ) by {
        if at < entries.len() && entries[at].0 == name {
            assert(after[i].0 == entries[i].0 && after[j].0 == entries[j].0);
        } else {
            if j < at {
                assert(after[i] == entries[i] && after[j] == entries[j]);
            } else if i < at && j == at {
                assert(after[i] == entries[i]);
            } else if i < at {
                assert(after[i] == entries[i] && after[j] == entries[j - 1]);
            } else if i == at {
                assert(after[j] == entries[j - 1]);
                if j - 1 > at {
                    text_order_transitive(name, entries[at].0, entries[j - 1].0);
                }
            } else {
                assert(after[i] == entries[i - 1] && after[j] == entries[j - 1]);
            }
        }
    }
}

/// In ordered entries a present name has one place.
pub proof fn entry_of_is(entries: Entries, name: Seq<char>, i: int)
    requires
        in_name_order(entries),
        0 <= i < entries.len(),
        entries[i].0 == name,
    ensures
        entry_of(entries, name) == Some(entries[i].1),
{
    let k = choose|k: int| 0 <= k < entries.len() && (#[trigger] entries[k]).0 == name;
    assert(entries[i].0 == name);
    text_order_total(name, name);
    if i < k {
        assert(text_before(entries[i].0, entries[k].0));
    }
    if k < i {
        assert(text_before(entries[k].0, entries[i].0));
    }
}

/// Reading back: a set entry reads as what was set, and every other entry
/// reads as before.
pub proof fn reading_a_set_entry(
    entries: Entries,
    name: Seq<char>,
    value: ValueView,
    other: Seq<char>,
)
    requires
        in_name_order(entries),
    ensures
        entry_of(with_entry(entries, name, value), name) == Some(value),
        other != name ==> entry_of(with_entry(entries, name, value), other) == entry_of(
            entries,
            other,
        ),
{
    let after = with_entry(entries, name, value);
    let at = rank(entries, name);
    rank_bounds(entries, name);
    with_entry_in_order(entries, name, value);
    assert(after[at] == (name, value));
    entry_of_is(after, name, at);
    if other != name {
        let replaced = at < entries.len() && entries[at].0 == name;
        if has_entry(entries, other) {
            let i = choose|i: int| 0 <= i < entries.len() && (#[trigger] entries[i]).0 == other;
            entry_of_is(entries, other, i);
            let k = if replaced || i < at {
                i
            } else {
                i + 1
            };
            assert(after[k] == entries[i]);
            entry_of_is(after, other, k);
        } else if has_entry(after, other) {
            let k = choose|k: int| 0 <= k < after.len() && (#[trigger] after[k]).0 == other;
            let i = if replaced || k < at {
                k
            } else {
                k - 1
            };
            assert(after[k] == entries[i]);
            assert(has_entry(entries, other));
        }
    }
}

/// Ordered entries are determined by what each name has.
pub proof fn entries_are_determined(a: Entries, b: Entries)
    requires
        in_name_order(a),
        in_name_order(b),
        forall|name: Seq<char>| #[trigger] entry_of(a, name) == entry_of(b, name),
    ensures
        a == b,
    decreases a.len(),
{
    if a.len() == 0 {
        if b.len() > 0 {
            entry_of_is(b, b[0].0, 0);
            assert(entry_of(a, b[0].0) is None);
        }
        assert(a =~= b);
    } else {
        let name = a[0].0;
        entry_of_is(a, name, 0);
        assert(entry_of(b, name) == Some(a[0].1));
        let j = choose|j: int| 0 <= j < b.len() && (#[trigger] b[j]).0 == name;
        entry_of_is(b, name, j);
        if j > 0 {
            entry_of_is(b, b[0].0, 0);
            assert(entry_of(a, b[0].0) is Some);
            let i = choose|i: int| 0 <= i < a.len() && (#[trigger] a[i]).0 == b[0].0;
            assert(text_before(b[0].0, b[j].0));
            text_order_total(b[0].0, name);
            if i > 0 {
                assert(text_before(a[0].0, a[i].0));
            }
            assert(false);
        }
        let rest_a = a.drop_first();
        let rest_b = b.drop_first();
        rest_in_order(a);
        rest_in_order(b);
        assert forall|other: Seq<char>| #[trigger] entry_of(rest_a, other) == entry_of(
            rest_b,
            other,
        ) by {
            entry_of_rest(a, other);
            entry_of_rest(b, other);
            assert(entry_of(a, other) == entry_of(b, other));
        }
        entries_are_determined(rest_a, rest_b);
        assert(a =~= seq![a[0]] + rest_a);
        assert(b =~= seq![b[0]] + rest_b);
    }
}

proof fn rest_in_order(entries: Entries)
    requires
        in_name_order(entries),
        entries.len() > 0,
    ensures
        in_name_order(entries.drop_first()),
{
    let rest = entries.drop_first();
    assert forall|i: int, j: int| 0 <= i < j < rest.len() implies text_before(
        #[trigger] rest[i].0,
        #[trigger] rest[j].0,
    ) by {
        assert(text_before(entries[i + 1].0, entries[j + 1].0));
    }
}

proof fn entry_of_rest(entries: Entries, name: Seq<char>)
    requires
        in_name_order(entries),
        entries.len() > 0,
    ensures
        entry_of(entries.drop_first(), name) == if name == entries[0].0 {
            None
        } else {
            entry_of(entries, name)
        },
{
    let rest = entries.drop_first();
    rest_in_order(entries);
    if has_entry(rest, name) {
        let i = choose|i: int| 0 <= i < rest.len() && (#[trigger] rest[i]).0 == name;
        entry_of_is(rest, name, i);
        assert(entries[i + 1] == rest[i]);
        entry_of_is(entries, name, i + 1);
        assert(text_before(entries[0].0, entries[i + 1].0));
        text_order_total(entries[0].0, name);
    } else if has_entry(entries, name) {
        let i = choose|i: int| 0 <= i < entries.len() && (#[trigger] entries[i]).0 == name;
        if i > 0 {
            assert(rest[i - 1] == entries[i]);
            assert(has_entry(rest, name));
        }
    }
}

/// The order in which arguments of different names are set does not matter.
pub proof fn setting_order_does_not_matter(
    entries: Entries,
    a: Seq<char>,
    x: ValueView,
    b: Seq<char>,
    y: ValueView,
)
    requires
        in_name_order(entries),
        a != b,
    ensures
        with_entry(with_entry(entries, a, x), b, y) == with_entry(
            with_entry(entries, b, y),
            a,
            x,
        ),
{
    let one = with_entry(with_entry(entries, a, x), b, y);
    let two = with_entry(with_entry(entries, b, y), a, x);
    with_entry_in_order(entries, a, x);
    with_entry_in_order(entries, b, y);
    with_entry_in_order(with_entry(entries, a, x), b, y);
    with_entry_in_order(with_entry(entries, b, y), a, x);
    assert forall|name: Seq<char>| #[trigger] entry_of(one, name) == entry_of(two, name) by {
        reading_a_set_entry(with_entry(entries, a, x), b, y, name);
        reading_a_set_entry(with_entry(entries, b, y), a, x, name);
        reading_a_set_entry(entries, a, x, name);
        reading_a_set_entry(entries, b, y, name);
    }
    entries_are_determined(one, two);
}

/// Setting ordered pairs one after another reproduces them.
pub proof fn setting_ordered_pairs(entries: Entries, pairs: Entries)
    requires
        in_name_order(entries + pairs),
    ensures
        with_entries(entries, pairs) == entries + pairs,
    decreases pairs.len(),
{
    if pairs.len() == 0 {
        assert(entries + pairs =~= entries);
    } else {
        let whole = entries + pairs;
        let name = pairs[0].0;
        assert(whole[entries.len() as int] == pairs[0]);
        assert forall|j: int| 0 <= j < entries.len() implies text_before(
            (#[trigger] entries[j]).0,
            name,
        ) by {
            assert(whole[j] == entries[j]);
            assert(text_before(whole[j].0, whole[entries.len() as int].0));
        }
        rank_is(entries, name, entries.len() as int);
        let next = with_entry(entries, name, pairs[0].1);
        assert(next =~= entries.push(pairs[0]));
        assert(next + pairs.drop_first() =~= whole);
        setting_ordered_pairs(next, pairs.drop_first());
    }
}

/// The named argument set of a reducer invocation.
#[derive(Debug, PartialEq, Eq)]
pub struct ReducerArgs {
    entries: Vec<(String, Value)>,
}

spec fn pairs_of(entries: Seq<(String, Value)>) -> Entries {
    Seq::new(entries.len(), |i: int| (entries[i].0@, entries[i].1@))
}

impl View for ReducerArgs {
    type V = Entries;

    closed spec fn view(&self) -> Entries {
        pairs_of(self.entries@)
    }
}

impl ReducerArgs {
    #[verifier::type_invariant]
    spec fn ordered(&self) -> bool {
        in_name_order(pairs_of(self.entries@))
    }

    /// Creates an empty argument set.
    pub fn new() -> (args: ReducerArgs)
        ensures
            args@ == Seq::<(Seq<char>, ValueView)>::empty(),
    {
        let args = ReducerArgs { entries: Vec::new() };
        assert(args@ =~= Seq::empty());
        args
    }

    /// Sets a named argument, replacing any earlier value of the name.
    pub fn insert(self, name: &str, value: Value) -> (args: ReducerArgs)
        ensures
            args@ == with_entry(self@, name@, value@),
    {
        proof {
            use_type_invariant(&self);
        }
        let mut entries = self.entries;
        let ghost before = pairs_of(entries@);
        let mut at: usize = 0;
        while at < entries.len() && comes_before(entries[at].0.as_str(), name)
            invariant
                at <= entries@.len(),
                before == pairs_of(entries@),
                forall|j: int| 0 <= j < at ==> text_before((#[trigger] before[j]).0, name@),
            decreases entries@.len() - at,
        {
            at = at + 1;
        }
        proof {
            rank_is(before, name@, at as int);
            with_entry_in_order(before, name@, value@);
        }
        let key = name.to_owned();
        if at < entries.len() && entries[at].0 == key {
            entries.set(at, (key, value));
        } else {
            entries.insert(at, (key, value));
        }
        assert(pairs_of(entries@) =~= with_entry(before, name@, value@));
        ReducerArgs { entries }
    }

    /// The argument with the given name, if present.
    pub fn get(&self, name: &str) -> (found: Option<&Value>)
        ensures
            match found {
                Some(value) => entry_of(self@, name@) == Some(value@),
                None => entry_of(self@, name@) is None,
            },
    {
        proof {
            use_type_invariant(self);
        }
        let key = name.to_owned();
        let mut i: usize = 0;
        while i < self.entries.len()
            invariant
                in_name_order(self@),
                key@ == name@,
                i <= self.entries@.len(),
                forall|j: int| 0 <= j < i ==> (#[trigger] self@[j]).0 != name@,
            decreases self.entries@.len() - i,
        {
            if self.entries[i].0 == key {
                proof {
                    entry_of_is(self@, name@, i as int);
                }
                return Some(&self.entries[i].1);
            }
            i = i + 1;
        }
        None
    }

    /// Whether `name` is present.
    pub fn contains(&self, name: &str) -> (present: bool)
        ensures
            present == has_entry(self@, name@),
    {
        self.get(name).is_some()
    }

    /// The number of arguments.
    pub fn len(&self) -> (count: usize)
        ensures
            count == self@.len(),
    {
        self.entries.len()
    }

    /// Whether there are no arguments.
    pub fn is_empty(&self) -> (empty: bool)
        ensures
            empty == (self@.len() == 0),
    {
        self.entries.len() == 0
    }

    /// The arguments in the order of their names.
    pub fn iter(&self) -> (pairs: Vec<(&str, &Value)>)
        ensures
            in_name_order(self@),
            pairs@.len() == self@.len(),
            forall|i: int|
                0 <= i < self@.len() ==> (#[trigger] pairs@[i]).0@ == self@[i].0 && pairs@[i].1@
                    == self@[i].1,
    {
        proof {
            use_type_invariant(self);
        }
        let mut pairs: Vec<(&str, &Value)> = Vec::new();
        let mut i: usize = 0;
        while i < self.entries.len()
            invariant
                i <= self.entries@.len(),
                pairs@.len() == i,
                forall|j: int|
                    0 <= j < i ==> (#[trigger] pairs@[j]).0@ == self@[j].0 && pairs@[j].1@
                        == self@[j].1,
            decreases self.entries@.len() - i,
        {
            pairs.push((self.entries[i].0.as_str(), &self.entries[i].1));
            i = i + 1;
        }
        pairs
    }

    /// The argument at a place in the order of names.
    pub fn entry(&self, index: usize) -> (pair: (&str, &Value))
        requires
            index < self@.len(),
        ensures
            pair.0@ == self@[index as int].0,
            pair.1@ == self@[index as int].1,
    {
        (self.entries[index].0.as_str(), &self.entries[index].1)
    }

    /// The argument with the given name, or [`Error::NotFound`].
    pub fn require(&self, name: &str) -> (found: Result<&Value, Error>)
        ensures
            match found {
                Ok(value) => entry_of(self@, name@) == Some(value@),
                Err(e) => entry_of(self@, name@) is None && e@ == ErrorView::NotFound(
                    missing_text(name@),
                ),
            },
    {
        match self.get(name) {
            Some(value) => Ok(value),
            None => {
                let mut text = join("reducer argument '", name);
                text.append("' is missing");
                Err(Error::NotFound(text))
            },
        }
    }

    /// The argument as an unsigned 64-bit number, or [`Error::NotFound`] or
    /// [`Error::InvalidArgument`].
    pub fn require_u64(&self, name: &str) -> (found: Result<u64, Error>)
        ensures
            match found {
                Ok(x) => entry_of(self@, name@) == Some(ValueView::U64(x)),
                Err(e) => match entry_of(self@, name@) {
                    None => e@ == ErrorView::NotFound(missing_text(name@)),
                    Some(value) => !(value is U64) && e@ == ErrorView::InvalidArgument(
                        wrong_type_text(name@, "u64"@),
                    ),
                },
            },
    {
        match self.require(name) {
            Ok(value) => match value.as_u64() {
                Some(x) => Ok(x),
                None => Err(wrong_type(name, "u64")),
            },
            Err(error) => Err(error),
        }
    }

    /// The argument as a signed 32-bit number, or [`Error::NotFound`] or
    /// [`Error::InvalidArgument`].
    pub fn require_i32(&self, name: &str) -> (found: Result<i32, Error>)
        ensures
            match found {
                Ok(x) => entry_of(self@, name@) == Some(ValueView::I32(x)),
                Err(e) => match entry_of(self@, name@) {
                    None => e@ == ErrorView::NotFound(missing_text(name@)),
                    Some(value) => !(value is I32) && e@ == ErrorView::InvalidArgument(
                        wrong_type_text(name@, "i32"@),
                    ),
                },
            },
    {
        match self.require(name) {
            Ok(value) => match value.as_i32() {
                Some(x) => Ok(x),
                None => Err(wrong_type(name, "i32")),
            },
            Err(error) => Err(error),
        }
    }

    /// The argument as a signed 64-bit number, or [`Error::NotFound`] or
    /// [`Error::InvalidArgument`].
    pub fn require_i64(&self, name: &str) -> (found: Result<i64, Error>)
        ensures
            match found {
                Ok(x) => entry_of(self@, name@) == Some(ValueView::I64(x)),
                Err(e) => match entry_of(self@, name@) {
                    None => e@ == ErrorView::NotFound(missing_text(name@)),
                    Some(value) => !(value is I64) && e@ == ErrorView::InvalidArgument(
                        wrong_type_text(name@, "i64"@),
                    ),
                },
            },
    {
        match self.require(name) {
            Ok(value) => match value.as_i64() {
                Some(x) => Ok(x),
                None => Err(wrong_type(name, "i64")),
            },
            Err(error) => Err(error),
        }
    }

    /// The argument as an unsigned 32-bit number, or [`Error::NotFound`] or
    /// [`Error::InvalidArgument`].
    pub fn require_u32(&self, name: &str) -> (found: Result<u32, Error>)
        ensures
            match found {
                Ok(x) => entry_of(self@, name@) == Some(ValueView::U32(x)),
                Err(e) => match entry_of(self@, name@) {
                    None => e@ == ErrorView::NotFound(missing_text(name@)),
                    Some(value) => !(value is U32) && e@ == ErrorView::InvalidArgument(
                        wrong_type_text(name@, "u32"@),
                    ),
                },
            },
    {
        match self.require(name) {
            Ok(value) => match value.as_u32() {
                Some(x) => Ok(x),
                None => Err(wrong_type(name, "u32")),
            },
            Err(error) => Err(error),
        }
    }

    /// The argument as a truth value, or [`Error::NotFound`] or
    /// [`Error::InvalidArgument`].
    pub fn require_bool(&self, name: &str) -> (found: Result<bool, Error>)
        ensures
            match found {
                Ok(x) => entry_of(self@, name@) == Some(ValueView::Bool(x)),
                Err(e) => match entry_of(self@, name@) {
                    None => e@ == ErrorView::NotFound(missing_text(name@)),
                    Some(value) => !(value is Bool) && e@ == ErrorView::InvalidArgument(
                        wrong_type_text(name@, "bool"@),
                    ),
                },
            },
    {
        match self.require(name) {
            Ok(value) => match value.as_bool() {
                Some(x) => Ok(x),
                None => Err(wrong_type(name, "bool")),
            },
            Err(error) => Err(error),
        }
    }

    /// The argument as the bit pattern of a double-precision number, or [`Error::NotFound`] or
    /// [`Error::InvalidArgument`].
    pub fn require_f64_bits(&self, name: &str) -> (found: Result<u64, Error>)
        ensures
            match found {
                Ok(x) => entry_of(self@, name@) == Some(ValueView::F64(x)),
                Err(e) => match entry_of(self@, name@) {
                    None => e@ == ErrorView::NotFound(missing_text(name@)),
                    Some(value) => !(value is F64) && e@ == ErrorView::InvalidArgument(
                        wrong_type_text(name@, "f64"@),
                    ),
                },
            },
    {
        match self.require(name) {
            Ok(value) => match value.as_f64_bits() {
                Some(x) => Ok(x),
                None => Err(wrong_type(name, "f64")),
            },
            Err(error) => Err(error),
        }
    }

    /// The argument as a text, or [`Error::NotFound`] or
    /// [`Error::InvalidArgument`].
    pub fn require_str(&self, name: &str) -> (found: Result<&str, Error>)
        ensures
            match found {
                Ok(x) => entry_of(self@, name@) == Some(ValueView::Text(x@)),
                Err(e) => match entry_of(self@, name@) {
                    None => e@ == ErrorView::NotFound(missing_text(name@)),
                    Some(value) => !(value is Text) && e@ == ErrorView::InvalidArgument(
                        wrong_type_text(name@, "string"@),
                    ),
                },
            },
    {
        match self.require(name) {
            Ok(value) => match value.as_str() {
                Some(x) => Ok(x),
                None => Err(wrong_type(name, "string")),
            },
            Err(error) => Err(error),
        }
    }
}

impl Default for ReducerArgs {
    fn default() -> (args: Self)
        ensures
            args@ == Seq::<(Seq<char>, ValueView)>::empty(),
    {
        ReducerArgs::new()
    }
}

impl Clone for ReducerArgs {
    fn clone(&self) -> (copy: Self)
        ensures
            copy@ == self@,
    {
        proof {
            use_type_invariant(self);
        }
        let mut entries: Vec<(String, Value)> = Vec::new();
        let mut i: usize = 0;
        while i < self.entries.len()
            invariant
                i <= self.entries@.len(),
                entries@.len() == i,
                forall|j: int|
                    0 <= j < i ==> (#[trigger] entries@[j]).0@ == self.entries@[j].0@
                        && entries@[j].1@ == self.entries@[j].1@,
            decreases self.entries@.len() - i,
        {
            entries.push((self.entries[i].0.clone(), self.entries[i].1.clone()));
            i = i + 1;
        }
        assert(pairs_of(entries@) =~= pairs_of(self.entries@));
        ReducerArgs { entries }
    }
}

/// The message of a missing argument.
pub open spec fn missing_text(name: Seq<char>) -> Seq<char> {
    "reducer argument '"@ + name + "' is missing"@
}

/// The message of an argument of another type.
pub open spec fn wrong_type_text(name: Seq<char>, expected: Seq<char>) -> Seq<char> {
    "reducer argument '"@ + name + "' is not a "@ + expected
}

fn wrong_type(name: &str, expected: &str) -> (error: Error)
    ensures
        error@ == ErrorView::InvalidArgument(wrong_type_text(name@, expected@)),
{
    let mut text = join("reducer argument '", name);
    text.append("' is not a ");
    text.append(expected);
    Error::InvalidArgument(text)
}

} // verus!
