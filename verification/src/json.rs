//! JSON values: the model that contracts speak of, the type that the logic
//! works on, and reading and writing them as text.

use vstd::prelude::*;

use crate::text;

verus! {

/// A JSON value, as a mathematical object. An object maps keys to values; the
/// order of its members has no meaning.
pub ghost enum JsonView {
    /// `null`.
    Null,
    /// `true` or `false`.
    Bool(bool),
    /// A whole number from zero on.
    Unsigned(u64),
    /// A whole number below zero.
    Negative(i64),
    /// Any other number, by the text that writes it.
    Float(Seq<char>),
    /// A string.
    Text(Seq<char>),
    /// An array.
    Array(Seq<JsonView>),
    /// An object.
    Object(Map<Seq<char>, JsonView>),
}

/// A JSON value.
#[derive(Debug)]
pub enum Json {
    /// `null`.
    Null,
    /// `true` or `false`.
    Bool(bool),
    /// A whole number from zero on.
    Unsigned(u64),
    /// A whole number below zero.
    Negative(i64),
    /// Any other number.
    Float(Real),
    /// A string.
    Text(String),
    /// An array.
    Array(Vec<Json>),
    /// An object. Of two members with one key the later counts.
    Object(Vec<(String, Json)>),
}

/// The double-precision number nearest to what a text writes, in the one way
/// of writing it that numbers of JSON values have; `None` for a text that
/// writes no finite number.
pub uninterp spec fn float_of_text(text: Seq<char>) -> Option<Seq<char>>;

/// A finite double-precision number, held by the text that writes it.
#[derive(Debug)]
pub struct Real {
    text: String,
}

impl View for Real {
    type V = Seq<char>;

    closed spec fn view(&self) -> Seq<char> {
        self.text@
    }
}

impl Real {
    /// The text is the one way of writing the number.
    #[verifier::type_invariant]
    closed spec fn inv(&self) -> bool {
        float_of_text(self.text@) == Some(self.text@)
    }

    /// The number nearest to what `text` writes, if it writes a finite one.
    pub fn parse(text: &str) -> (number: Option<Real>)
        ensures
            match number {
                Some(number) => float_of_text(text@) == Some(number@),
                None => float_of_text(text@) is None,
            },
            is_whole(text@) ==> number is Some,
    {
        match float_text(text) {
            Some(text) => Some(Real { text }),
            None => None,
        }
    }

    /// The text that writes the number.
    pub fn as_str(&self) -> (text: &str)
        ensures
            text@ == self@,
            float_of_text(self@) == Some(self@),
    {
        proof {
            use_type_invariant(self);
        }
        self.text.as_str()
    }
}

/// Whether a text is one to twenty digits.
pub open spec fn is_digits(text: Seq<char>) -> bool {
    &&& 1 <= text.len() <= 20
    &&& forall|i: int| 0 <= i < text.len() ==> '0' <= #[trigger] text[i] <= '9'
}

/// Whether a text is a whole number of up to twenty digits, with or without a
/// minus sign.
pub open spec fn is_whole(text: Seq<char>) -> bool {
    is_digits(text) || (text.len() > 0 && text[0] == '-' && is_digits(text.skip(1)))
}

/// A number as a double-precision number; other values are none.
pub open spec fn float_in(value: JsonView) -> Option<Seq<char>> {
    match value {
        JsonView::Unsigned(n) => float_of_text(text::decimal(n as nat)),
        JsonView::Negative(n) => float_of_text(seq!['-'] + text::decimal((-n) as nat)),
        JsonView::Float(number) => Some(number),
        _ => None,
    }
}

/// Reading a number: std's `str::parse` gives the double-precision number
/// nearest to the text, `serde_json::Number::from_f64` refuses what is not
/// finite, and `serde_json::Number` is printed in the one shortest way that
/// reads back as the same number. So what comes out, read again, stays as it
/// is. A whole number of up to twenty digits is always read.
#[verifier::external_body]
fn float_text(text: &str) -> (written: Option<String>)
    ensures
        match written {
            Some(written) => float_of_text(text@) == Some(written@) && float_of_text(written@)
                == Some(written@),
            None => float_of_text(text@) is None,
        },
        is_whole(text@) ==> written is Some,
{
    text.parse().ok().and_then(serde_json::Number::from_f64).map(|number| number.to_string())
}

/// The bit pattern (IEEE 754) of the double-precision number that a text
/// writes, if it writes a finite one.
pub uninterp spec fn bits_of_text(text: Seq<char>) -> Option<u64>;

/// The bits of a number: std's `str::parse` gives the double-precision number
/// nearest to the text, `serde_json::Number::from_f64` refuses what is not
/// finite, and std's `to_bits` gives its bit pattern. What reads as a number
/// has one.
#[verifier::external_body]
fn float_bits(text: &str) -> (bits: Option<u64>)
    ensures
        bits == bits_of_text(text@),
        float_of_text(text@) is Some ==> bits is Some,
{
    let number = text.parse().ok().and_then(serde_json::Number::from_f64);
    number.and_then(|number| number.as_f64()).map(|number| number.to_bits())
}

/// A signed number as a value.
pub open spec fn signed(n: i64) -> JsonView {
    if n < 0 {
        JsonView::Negative(n)
    } else {
        JsonView::Unsigned(n as u64)
    }
}

/// What a value holds.
pub open spec fn json_view(value: Json) -> JsonView
    decreases value,
{
    match value {
        Json::Null => JsonView::Null,
        Json::Bool(b) => JsonView::Bool(b),
        Json::Unsigned(n) => JsonView::Unsigned(n),
        Json::Negative(n) => signed(n),
        Json::Float(number) => JsonView::Float(number@),
        Json::Text(text) => JsonView::Text(text@),
        Json::Array(items) => JsonView::Array(items_view(items@)),
        Json::Object(members) => JsonView::Object(members_view(members@)),
    }
}

/// What the items of an array hold.
pub open spec fn items_view(items: Seq<Json>) -> Seq<JsonView>
    decreases items,
{
    if items.len() == 0 {
        seq![]
    } else {
        items_view(items.drop_last()).push(json_view(items.last()))
    }
}

/// What the members of an object hold: a later member takes the place of an
/// earlier one with its key.
pub open spec fn members_view(members: Seq<(String, Json)>) -> Map<Seq<char>, JsonView>
    decreases members,
{
    if members.len() == 0 {
        Map::empty()
    } else {
        members_view(members.drop_last()).insert(
            members.last().0@,
            json_view(members.last().1),
        )
    }
}

impl View for Json {
    type V = JsonView;

    open spec fn view(&self) -> JsonView {
        json_view(*self)
    }
}

/// The member of an object under a key; other values have none.
pub open spec fn member(value: JsonView, key: Seq<char>) -> Option<JsonView> {
    match value {
        JsonView::Object(members) => if members.contains_key(key) {
            Some(members[key])
        } else {
            None
        },
        _ => None,
    }
}

/// The member of an object under a key, `null` where there is none.
pub open spec fn at_key(value: JsonView, key: Seq<char>) -> JsonView {
    match member(value, key) {
        Some(found) => found,
        None => JsonView::Null,
    }
}

/// The item of an array at an index, `null` where there is none.
pub open spec fn at_index(value: JsonView, index: int) -> JsonView {
    match value {
        JsonView::Array(items) => if 0 <= index < items.len() {
            items[index]
        } else {
            JsonView::Null
        },
        _ => JsonView::Null,
    }
}

/// The characters of a string value.
pub open spec fn text_in(value: JsonView) -> Option<Seq<char>> {
    match value {
        JsonView::Text(text) => Some(text),
        _ => None,
    }
}

/// The value of a whole number from zero on.
pub open spec fn unsigned_in(value: JsonView) -> Option<u64> {
    match value {
        JsonView::Unsigned(n) => Some(n),
        _ => None,
    }
}

/// The members of an object; other values have none.
pub open spec fn members_in(value: JsonView) -> Map<Seq<char>, JsonView> {
    match value {
        JsonView::Object(members) => members,
        _ => Map::empty(),
    }
}

/// The items of an array value.
pub open spec fn items_in(value: JsonView) -> Option<Seq<JsonView>> {
    match value {
        JsonView::Array(items) => Some(items),
        _ => None,
    }
}

/// The object without members.
pub open spec fn no_members() -> JsonView {
    JsonView::Object(Map::empty())
}

/// An object with a member more, if there is one to put.
pub open spec fn put_some(object: JsonView, key: Seq<char>, value: Option<JsonView>) -> JsonView {
    match value {
        Some(value) => put(object, key, value),
        None => object,
    }
}

/// An object with one member more, in place of one with its key.
pub open spec fn put(object: JsonView, key: Seq<char>, value: JsonView) -> JsonView {
    match object {
        JsonView::Object(members) => JsonView::Object(members.insert(key, value)),
        other => other,
    }
}

/// The views of items, one by one.
pub proof fn lemma_items_view(items: Seq<Json>)
    ensures
        items_view(items).len() == items.len(),
        forall|i: int| 0 <= i < items.len() ==> #[trigger] items_view(items)[i] == items[i]@,
    decreases items.len(),
{
    if items.len() > 0 {
        lemma_items_view(items.drop_last());
    }
}

/// The members of an object are finitely many.
pub proof fn lemma_members_finite(members: Seq<(String, Json)>)
    ensures
        members_view(members).dom().finite(),
    decreases members.len(),
{
    if members.len() > 0 {
        lemma_members_finite(members.drop_last());
    }
}

/// Ten to a power.
spec fn power_of_ten(k: nat) -> nat
    decreases k,
{
    if k == 0 {
        1
    } else {
        10 * power_of_ten((k - 1) as nat)
    }
}

proof fn lemma_decimal_length(n: nat, k: nat)
    requires
        k > 0,
        n < power_of_ten(k),
    ensures
        1 <= text::decimal(n).len() <= k,
        forall|i: int|
            0 <= i < text::decimal(n).len() ==> '0' <= #[trigger] text::decimal(n)[i] <= '9',
    decreases n,
{
    if n >= 10 {
        if k == 1 {
            assert(power_of_ten(1) == 10 * power_of_ten(0));
        }
        lemma_decimal_length(n / 10, (k - 1) as nat);
        let high = text::decimal(n / 10);
        assert forall|i: int| 0 <= i < text::decimal(n).len() implies '0'
            <= #[trigger] text::decimal(n)[i] <= '9' by {
            if i < high.len() {
                assert(text::decimal(n)[i] == high[i]);
            }
        }
    }
}

/// A 64-bit number has at most twenty digits.
pub proof fn lemma_decimal_digits(n: nat)
    requires
        n <= u64::MAX,
    ensures
        is_digits(text::decimal(n)),
{
    reveal_with_fuel(power_of_ten, 21);
    assert(power_of_ten(20) == 100_000_000_000_000_000_000);
    lemma_decimal_length(n, 20);
}

/// The view of an array that is one item longer.
pub proof fn lemma_items_push(items: Seq<Json>, item: Json)
    ensures
        items_view(items.push(item)) == items_view(items).push(item@),
{
    assert(items.push(item).drop_last() =~= items);
}

/// The view of an object that has one member more.
pub proof fn lemma_members_push(members: Seq<(String, Json)>, added: (String, Json))
    ensures
        members_view(members.push(added)) == members_view(members).insert(added.0@, added.1@),
{
    assert(members.push(added).drop_last() =~= members);
}

impl Json {
    /// The object without members.
    pub fn object() -> (object: Json)
        ensures
            object@ == no_members(),
    {
        Json::Object(Vec::new())
    }

    /// The object with one member more, in place of one with its key. Values
    /// other than objects stay as they are.
    pub fn with(self, key: &str, value: Json) -> (object: Json)
        ensures
            object@ == put(self@, key@, value@),
    {
        match self {
            Json::Object(members) => {
                let mut members = members;
                let key = key.to_owned();
                proof {
                    lemma_members_push(members@, (key, value));
                }
                members.push((key, value));
                Json::Object(members)
            },
            other => other,
        }
    }

    /// A string value.
    pub fn string(text: &str) -> (value: Json)
        ensures
            value@ == JsonView::Text(text@),
    {
        Json::Text(text.to_owned())
    }

    /// The member under `key`; values other than objects have none.
    pub fn get(&self, key: &str) -> (found: Option<&Json>)
        ensures
            match found {
                Some(found) => member(self@, key@) == Some(found@),
                None => member(self@, key@) is None,
            },
    {
        match self {
            Json::Object(members) => {
                let mut i: usize = members.len();
                assert(members@.take(i as int) =~= members@);
                while i > 0
                    invariant
                        i <= members@.len(),
                        member(self@, key@) == member(
                            JsonView::Object(members_view(members@.take(i as int))),
                            key@,
                        ),
                    decreases i,
                {
                    i -= 1;
                    proof {
                        let upto = members@.take(i + 1);
                        assert(upto.drop_last() =~= members@.take(i as int));
                        assert(upto.last() == members@[i as int]);
                    }
                    if text::same(members[i].0.as_str(), key) {
                        return Some(&members[i].1);
                    }
                }
                None
            },
            _ => None,
        }
    }

    /// The member under `key`, `null` where there is none.
    pub fn key(&self, key: &str) -> (found: &Json)
        ensures
            found@ == at_key(self@, key@),
    {
        match self.get(key) {
            Some(found) => found,
            None => &Json::Null,
        }
    }

    /// The item at `index`, `null` where there is none.
    pub fn index(&self, index: usize) -> (found: &Json)
        ensures
            found@ == at_index(self@, index as int),
    {
        match self {
            Json::Array(items) => {
                proof {
                    lemma_items_view(items@);
                }
                if index < items.len() {
                    &items[index]
                } else {
                    &Json::Null
                }
            },
            _ => &Json::Null,
        }
    }

    /// The characters of a string value.
    pub fn as_str(&self) -> (text: Option<&str>)
        ensures
            match text {
                Some(text) => text_in(self@) == Some(text@),
                None => text_in(self@) is None,
            },
    {
        match self {
            Json::Text(text) => Some(text.as_str()),
            _ => None,
        }
    }

    /// The value of a whole number from zero on.
    pub fn as_u64(&self) -> (n: Option<u64>)
        ensures
            n == unsigned_in(self@),
    {
        match self {
            Json::Unsigned(n) => Some(*n),
            Json::Negative(n) => if *n < 0 {
                None
            } else {
                Some(*n as u64)
            },
            _ => None,
        }
    }

    /// A number as a double-precision number; other values are none.
    pub fn as_float(&self) -> (number: Option<Real>)
        ensures
            match number {
                Some(number) => float_in(self@) == Some(number@),
                None => float_in(self@) is None,
            },
            number is Some <==> (self@ is Unsigned || self@ is Negative || self@ is Float),
    {
        match self {
            Json::Unsigned(n) => {
                proof {
                    lemma_decimal_digits(*n as nat);
                }
                Real::parse(text::decimal_text(*n).as_str())
            },
            Json::Negative(n) => {
                if *n < 0 {
                    let size: u64 = if *n == i64::MIN {
                        0x8000_0000_0000_0000
                    } else {
                        (-*n) as u64
                    };
                    let mut text = String::new();
                    text.push('-');
                    text.append(text::decimal_text(size).as_str());
                    proof {
                        lemma_decimal_digits(size as nat);
                        assert(text@ =~= seq!['-'] + text::decimal(size as nat));
                        assert(text@.skip(1) =~= text::decimal(size as nat));
                    }
                    Real::parse(text.as_str())
                } else {
                    proof {
                        lemma_decimal_digits(*n as nat);
                    }
                    Real::parse(text::decimal_text(*n as u64).as_str())
                }
            },
            Json::Float(number) => Some(number.copy()),
            _ => None,
        }
    }

    /// How many members an object has; other values have none.
    pub fn member_count(&self) -> (n: usize)
        ensures
            n == members_in(self@).dom().len(),
    {
        match self {
            Json::Object(members) => {
                let mut n: usize = 0;
                let mut i: usize = 0;
                while i < members.len()
                    invariant
                        self@ == JsonView::Object(members_view(members@)),
                        i <= members@.len(),
                        n <= i,
                        n == members_view(members@.take(i as int)).dom().len(),
                    decreases members@.len() - i,
                {
                    let ghost held = members_view(members@.take(i as int));
                    let mut seen = false;
                    let mut j: usize = 0;
                    while j < i
                        invariant
                            i < members@.len(),
                            j <= i,
                            seen == members_view(members@.take(j as int)).contains_key(
                                members@[i as int].0@,
                            ),
                        decreases i - j,
                    {
                        proof {
                            assert(members@.take(j + 1).drop_last() =~= members@.take(j as int));
                            assert(members@.take(j + 1).last() == members@[j as int]);
                        }
                        if text::same(members[j].0.as_str(), members[i].0.as_str()) {
                            seen = true;
                        }
                        j += 1;
                    }
                    proof {
                        assert(members@.take(i + 1).drop_last() =~= members@.take(i as int));
                        assert(members@.take(i + 1).last() == members@[i as int]);
                        lemma_members_finite(members@.take(i as int));
                        let next = members_view(members@.take(i + 1));
                        if seen {
                            assert(next.dom() =~= held.dom());
                        } else {
                            assert(next.dom() =~= held.dom().insert(members@[i as int].0@));
                        }
                    }
                    if !seen {
                        n += 1;
                    }
                    i += 1;
                }
                assert(members@.take(i as int) =~= members@);
                n
            },
            _ => 0,
        }
    }

    /// The keys of an object, one for each member that was put in; other
    /// values have none.
    pub fn keys(&self) -> (keys: Vec<String>)
        ensures
            forall|key: Seq<char>|
                members_in(self@).contains_key(key) <==> #[trigger] text::texts(keys@).contains(
                    key,
                ),
    {
        let mut keys: Vec<String> = Vec::new();
        match self {
            Json::Object(members) => {
                let mut i: usize = 0;
                assert(text::texts(keys@) =~= Seq::<Seq<char>>::empty());
                while i < members.len()
                    invariant
                        self@ == JsonView::Object(members_view(members@)),
                        i <= members@.len(),
                        forall|key: Seq<char>|
                            members_view(members@.take(i as int)).contains_key(key)
                                <==> #[trigger] text::texts(keys@).contains(key),
                    decreases members@.len() - i,
                {
                    let ghost before = text::texts(keys@);
                    let key = members[i].0.clone();
                    keys.push(key);
                    proof {
                        assert(members@.take(i + 1).drop_last() =~= members@.take(i as int));
                        assert(members@.take(i + 1).last() == members@[i as int]);
                        assert(text::texts(keys@) =~= before.push(key@));
                        assert forall|other: Seq<char>|
                            members_view(members@.take(i + 1)).contains_key(other)
                                <==> #[trigger] text::texts(keys@).contains(other) by {
                            assert(before.contains(other) ==> text::texts(keys@).contains(other))
                                by {
                                if before.contains(other) {
                                    let k = choose|k: int|
                                        0 <= k < before.len() && before[k] == other;
                                    assert(text::texts(keys@)[k] == other);
                                }
                            }
                            assert(text::texts(keys@)[before.len() as int] == key@);
                            if text::texts(keys@).contains(other) && other != key@ {
                                let k = choose|k: int|
                                    0 <= k < text::texts(keys@).len() && text::texts(keys@)[k]
                                        == other;
                                assert(before[k] == other);
                            }
                        }
                    }
                    i += 1;
                }
                assert(members@.take(i as int) =~= members@);
            },
            _ => {
                assert(text::texts(keys@) =~= Seq::<Seq<char>>::empty());
            },
        }
        keys
    }

    /// The items of an array value.
    pub fn as_array(&self) -> (items: Option<&Vec<Json>>)
        ensures
            match items {
                Some(items) => items_in(self@) == Some(items_view(items@)),
                None => items_in(self@) is None,
            },
    {
        match self {
            Json::Array(items) => Some(items),
            _ => None,
        }
    }

    /// Whether the value is `null`.
    pub fn is_null(&self) -> (null: bool)
        ensures
            null == (self@ is Null),
    {
        match self {
            Json::Null => true,
            _ => false,
        }
    }
}

/// A JSON value of `serde_json`.
#[verifier::external_type_specification]
#[verifier::external_body]
pub struct ExValue(serde_json::Value);

/// What a `serde_json::Value` holds.
pub uninterp spec fn value_view(value: serde_json::Value) -> JsonView;

/// What `serde_json::from_str` makes of a text: a value, or the line that says
/// what is wrong with the text.
pub uninterp spec fn parsed(text: Seq<char>) -> Result<JsonView, Seq<char>>;

/// The text that `serde_json` prints for a value.
pub uninterp spec fn printed(value: JsonView) -> Seq<char>;

/// One level of a JSON value, as `serde_json` holds it.
enum Level {
    Null,
    Bool(bool),
    Unsigned(u64),
    Negative(i64),
    Float(Real),
    Text(String),
    Items(Vec<serde_json::Value>),
    Members(Vec<(String, serde_json::Value)>),
}

/// What a list of values holds.
spec fn values_view(values: Seq<serde_json::Value>) -> Seq<JsonView> {
    values.map_values(|value: serde_json::Value| value_view(value))
}

/// What a list of members holds: a later one takes the place of an earlier
/// one with its key.
spec fn entries_view(entries: Seq<(String, serde_json::Value)>) -> Map<Seq<char>, JsonView>
    decreases entries.len(),
{
    if entries.len() == 0 {
        Map::empty()
    } else {
        entries_view(entries.drop_last()).insert(
            entries.last().0@,
            value_view(entries.last().1),
        )
    }
}

/// Whether no two members share a key.
spec fn keys_differ(entries: Seq<(String, serde_json::Value)>) -> bool {
    forall|i: int, j: int|
        0 <= i < j < entries.len() ==> (#[trigger] entries[i]).0@ != (#[trigger] entries[j]).0@
}

/// What a level holds.
spec fn level_view(level: Level) -> JsonView {
    match level {
        Level::Null => JsonView::Null,
        Level::Bool(b) => JsonView::Bool(b),
        Level::Unsigned(n) => JsonView::Unsigned(n),
        Level::Negative(n) => signed(n),
        Level::Float(number) => JsonView::Float(number@),
        Level::Text(text) => JsonView::Text(text@),
        Level::Items(values) => JsonView::Array(values_view(values@)),
        Level::Members(entries) => JsonView::Object(entries_view(entries@)),
    }
}

/// Taking a `serde_json::Value` apart, one level deep: each variant gives its
/// content. A number that is a `u64` or an `i64` comes as that, any other by
/// the text that `serde_json::Number` prints. The members of an object come
/// out of a map, so no two share a key.
#[verifier::external_body]
fn open_value(value: serde_json::Value) -> (level: Level)
    ensures
        level_view(level) == value_view(value),
        level matches Level::Members(entries) ==> keys_differ(entries@),
{
    match value {
        serde_json::Value::Null => Level::Null,
        serde_json::Value::Bool(b) => Level::Bool(b),
        serde_json::Value::Number(n) => match (n.as_u64(), n.as_i64()) {
            (Some(whole), _) => Level::Unsigned(whole),
            (None, Some(below)) => Level::Negative(below),
            (None, None) => Level::Float(Real { text: n.to_string() }),
        },
        serde_json::Value::String(text) => Level::Text(text),
        serde_json::Value::Array(values) => Level::Items(values),
        serde_json::Value::Object(map) => Level::Members(map.into_iter().collect()),
    }
}

/// Putting a `serde_json::Value` together from one level: each variant from
/// its content. The members go into a map, where a later one takes the place
/// of an earlier one with its key.
#[verifier::external_body]
fn close_value(level: Level) -> (value: serde_json::Value)
    ensures
        value_view(value) == level_view(level),
{
    match level {
        Level::Null => serde_json::Value::Null,
        Level::Bool(b) => serde_json::Value::Bool(b),
        Level::Unsigned(n) => serde_json::Value::from(n),
        Level::Negative(n) => serde_json::Value::from(n),
        Level::Float(number) => number.text.parse().ok().and_then(serde_json::Number::from_f64).map_or(
            serde_json::Value::Null,
            serde_json::Value::Number,
        ),
        Level::Text(text) => serde_json::Value::String(text),
        Level::Items(values) => serde_json::Value::Array(values),
        Level::Members(entries) => serde_json::Value::Object(entries.into_iter().collect()),
    }
}

/// Whether a value is nested at most `depth` levels deep and holds no number
/// with a fraction or an exponent.
pub open spec fn is_simple(value: JsonView, depth: nat) -> bool
    decreases depth,
{
    match value {
        JsonView::Float(_) => false,
        JsonView::Negative(n) => n < 0,
        JsonView::Array(items) => depth > 0 && forall|i: int|
            0 <= i < items.len() ==> is_simple(#[trigger] items[i], (depth - 1) as nat),
        JsonView::Object(members) => depth > 0 && forall|key: Seq<char>|
            members.contains_key(key) ==> is_simple(
                #[trigger] members[key],
                (depth - 1) as nat,
            ),
        _ => true,
    }
}

/// Reading JSON: what `serde_json::from_str` makes of `text`, its error as the
/// line that it prints.
#[verifier::external_body]
fn value_of_text(text: &str) -> (value: Result<serde_json::Value, String>)
    ensures
        match value {
            Ok(value) => parsed(text@) is Ok && parsed(text@)->Ok_0 == value_view(value),
            Err(error) => parsed(text@) is Err && parsed(text@)->Err_0 == error@,
        },
{
    serde_json::from_str(text).map_err(|error: serde_json::Error| error.to_string())
}

/// What `serde_json::from_str` finds wrong with a text that is skipped over,
/// not kept: the line that says so, or nothing where it is one JSON value.
pub uninterp spec fn skimmed(text: Seq<char>) -> Option<Seq<char>>;

/// Skimming JSON: `serde_json::from_str` into `serde::de::IgnoredAny`, which
/// takes any one JSON value, however deep and whatever the size of its
/// numbers. Its error comes as the line that it prints.
#[verifier::external_body]
pub(crate) fn skim(text: &str) -> (fault: Option<String>)
    ensures
        match fault {
            Some(fault) => skimmed(text@) == Some(fault@),
            None => skimmed(text@) is None,
        },
{
    let read: Result<serde::de::IgnoredAny, serde_json::Error> = serde_json::from_str(text);
    read.err().map(|error| error.to_string())
}

/// Writing JSON: `serde_json::Value` prints itself as compact text. The text
/// depends only on what the value holds. A value without fractions that is
/// nested no deeper than `serde_json` reads is read back as it was.
#[verifier::external_body]
fn text_of_value(value: &serde_json::Value) -> (text: String)
    ensures
        text@ == printed(value_view(*value)),
        is_simple(value_view(*value), 100) ==> parsed(text@) is Ok && parsed(text@)->Ok_0
            == value_view(*value),
{
    value.to_string()
}

/// Members with keys of their own are all found.
proof fn lemma_entries(entries: Seq<(String, serde_json::Value)>)
    requires
        keys_differ(entries),
    ensures
        entries_view(entries).dom().finite(),
        forall|i: int|
            0 <= i < entries.len() ==> entries_view(entries).contains_key(
                (#[trigger] entries[i]).0@,
            ) && entries_view(entries)[entries[i].0@] == value_view(entries[i].1),
    decreases entries.len(),
{
    if entries.len() > 0 {
        lemma_entries(entries.drop_last());
        assert forall|i: int| 0 <= i < entries.len() implies entries_view(entries).contains_key(
            (#[trigger] entries[i]).0@,
        ) && entries_view(entries)[entries[i].0@] == value_view(entries[i].1) by {
            if i < entries.len() - 1 {
                assert(entries.drop_last()[i] == entries[i]);
            }
        }
    }
}

/// The value that a `serde_json::Value` holds.
fn json_of_value(value: serde_json::Value) -> (json: Json)
    ensures
        json@ == value_view(value),
    decreases value_view(value),
{
    match open_value(value) {
        Level::Null => Json::Null,
        Level::Bool(b) => Json::Bool(b),
        Level::Unsigned(n) => Json::Unsigned(n),
        Level::Negative(n) => Json::Negative(n),
        Level::Float(number) => Json::Float(number),
        Level::Text(text) => Json::Text(text),
        Level::Items(values) => {
            let ghost all = values@;
            let mut items: Vec<Json> = Vec::new();
            for item in it: values
                invariant
                    it.seq() == all,
                    value_view(value) == JsonView::Array(values_view(all)),
                    items_view(items@) == values_view(all).take(it.index()),
            {
                let ghost i = it.index();
                proof {
                    assert(values_view(all)[i] == value_view(item));
                    let held = value_view(value)->Array_0;
                    assert(decreases_to!(value_view(value) => held));
                    assert(decreases_to!(held => held[i]));
                }
                let ghost before = items@;
                let json = json_of_value(item);
                proof {
                    lemma_items_push(before, json);
                }
                items.push(json);
                assert(values_view(all).take(i + 1) =~= values_view(all).take(i).push(
                    value_view(item),
                ));
            }
            assert(values_view(all).take(all.len() as int) =~= values_view(all));
            Json::Array(items)
        },
        Level::Members(entries) => {
            let ghost all = entries@;
            let mut members: Vec<(String, Json)> = Vec::new();
            proof {
                lemma_entries(all);
            }
            for entry in it: entries
                invariant
                    it.seq() == all,
                    keys_differ(all),
                    value_view(value) == JsonView::Object(entries_view(all)),
                    members_view(members@) == entries_view(all.take(it.index())),
            {
                let ghost i = it.index();
                proof {
                    lemma_entries(all);
                    assert(all[i] == entry);
                    assert(entries_view(all)[entry.0@] == value_view(entry.1));
                    let held = value_view(value)->Object_0;
                    assert(decreases_to!(value_view(value) => held));
                    assert(decreases_to!(held => held[entry.0@]));
                }
                let ghost before = members@;
                let (key, held) = entry;
                let json = json_of_value(held);
                proof {
                    lemma_members_push(before, (key, json));
                    assert(all.take(i + 1).drop_last() =~= all.take(i));
                    assert(all.take(i + 1).last() == entry);
                }
                members.push((key, json));
            }
            assert(all.take(all.len() as int) =~= all);
            Json::Object(members)
        },
    }
}

/// The `serde_json::Value` that holds a value.
fn value_of_json(json: &Json) -> (value: serde_json::Value)
    ensures
        value_view(value) == json@,
    decreases json,
{
    match json {
        Json::Null => close_value(Level::Null),
        Json::Bool(b) => close_value(Level::Bool(*b)),
        Json::Unsigned(n) => close_value(Level::Unsigned(*n)),
        Json::Negative(n) => close_value(Level::Negative(*n)),
        Json::Float(number) => {
            let number = number.copy();
            close_value(Level::Float(number))
        },
        Json::Text(text) => close_value(Level::Text(text.clone())),
        Json::Array(items) => {
            let mut values: Vec<serde_json::Value> = Vec::new();
            let mut i: usize = 0;
            while i < items.len()
                invariant
                    i <= items@.len(),
                    json == Json::Array(*items),
                    values_view(values@) == items_view(items@.take(i as int)),
                decreases items@.len() - i,
            {
                proof {
                    assert(decreases_to!(json => json->Array_0));
                    assert(decreases_to!(items@ => items@[i as int]));
                    assert(items@.take(i + 1).drop_last() =~= items@.take(i as int));
                }
                let ghost before = values@;
                let value = value_of_json(&items[i]);
                values.push(value);
                assert(values_view(values@) =~= values_view(before).push(value_view(value)));
                i += 1;
            }
            assert(items@.take(i as int) =~= items@);
            close_value(Level::Items(values))
        },
        Json::Object(members) => {
            let mut entries: Vec<(String, serde_json::Value)> = Vec::new();
            let mut i: usize = 0;
            while i < members.len()
                invariant
                    i <= members@.len(),
                    json == Json::Object(*members),
                    entries_view(entries@) == members_view(members@.take(i as int)),
                decreases members@.len() - i,
            {
                proof {
                    assert(decreases_to!(json => json->Object_0));
                    assert(decreases_to!(members@ => members@[i as int]));
                    assert(decreases_to!(members@[i as int] => members@[i as int].1));
                    assert(members@.take(i + 1).drop_last() =~= members@.take(i as int));
                }
                let ghost before = entries@;
                let value = value_of_json(&members[i].1);
                let key = members[i].0.clone();
                entries.push((key, value));
                assert(entries@.drop_last() =~= before);
                i += 1;
            }
            assert(members@.take(i as int) =~= members@);
            close_value(Level::Members(entries))
        },
    }
}

impl Real {
    /// The bit pattern of the number.
    pub fn bits(&self) -> (bits: u64)
        ensures
            bits_of_text(self@) == Some(bits),
    {
        proof {
            use_type_invariant(self);
        }
        match float_bits(self.text.as_str()) {
            Some(bits) => bits,
            None => 0,
        }
    }

    /// The same number once more.
    pub fn copy(&self) -> (number: Real)
        ensures
            number@ == self@,
    {
        proof {
            use_type_invariant(self);
        }
        Real { text: self.text.clone() }
    }
}

/// Read JSON text. The error is the line that says what is wrong.
pub fn parse(text: &str) -> (value: Result<Json, String>)
    ensures
        match value {
            Ok(value) => parsed(text@) is Ok && parsed(text@)->Ok_0 == value@,
            Err(error) => parsed(text@) is Err && parsed(text@)->Err_0 == error@,
        },
{
    match value_of_text(text) {
        Ok(value) => Ok(json_of_value(value)),
        Err(error) => Err(error),
    }
}

impl Json {
    /// The value as compact JSON text. A value without fractions that is not
    /// nested too deep is read back from it as it was.
    pub fn to_string(&self) -> (text: String)
        ensures
            text@ == printed(self@),
            is_simple(self@, 100) ==> parsed(text@) is Ok && parsed(text@)->Ok_0 == self@,
    {
        let value = value_of_json(self);
        text_of_value(&value)
    }
}

impl Json {
    /// The same value once more.
    pub fn copy(&self) -> (value: Json)
        ensures
            value@ == self@,
        decreases self,
    {
        match self {
            Json::Null => Json::Null,
            Json::Bool(b) => Json::Bool(*b),
            Json::Unsigned(n) => Json::Unsigned(*n),
            Json::Negative(n) => Json::Negative(*n),
            Json::Float(number) => Json::Float(number.copy()),
            Json::Text(text) => Json::Text(text.clone()),
            Json::Array(items) => {
                let mut copies: Vec<Json> = Vec::new();
                let mut i: usize = 0;
                while i < items.len()
                    invariant
                        i <= items@.len(),
                        self == Json::Array(*items),
                        items_view(copies@) == items_view(items@.take(i as int)),
                    decreases items@.len() - i,
                {
                    proof {
                        assert(decreases_to!(self => self->Array_0));
                        assert(decreases_to!(items@ => items@[i as int]));
                        assert(items@.take(i + 1).drop_last() =~= items@.take(i as int));
                    }
                    let copy = items[i].copy();
                    proof {
                        lemma_items_push(copies@, copy);
                    }
                    copies.push(copy);
                    i += 1;
                }
                assert(items@.take(i as int) =~= items@);
                Json::Array(copies)
            },
            Json::Object(members) => {
                let mut copies: Vec<(String, Json)> = Vec::new();
                let mut i: usize = 0;
                while i < members.len()
                    invariant
                        i <= members@.len(),
                        self == Json::Object(*members),
                        members_view(copies@) == members_view(members@.take(i as int)),
                    decreases members@.len() - i,
                {
                    proof {
                        assert(decreases_to!(self => self->Object_0));
                        assert(decreases_to!(members@ => members@[i as int]));
                        assert(decreases_to!(members@[i as int] => members@[i as int].1));
                        assert(members@.take(i + 1).drop_last() =~= members@.take(i as int));
                    }
                    let copy = members[i].1.copy();
                    let key = members[i].0.clone();
                    proof {
                        lemma_members_push(copies@, (key, copy));
                    }
                    copies.push((key, copy));
                    i += 1;
                }
                assert(members@.take(i as int) =~= members@);
                Json::Object(copies)
            },
        }
    }
}

/// What was put under a key stands there, and all else as before.
pub proof fn law_members_are_kept_by_key(
    object: JsonView,
    key: Seq<char>,
    value: JsonView,
    other: Seq<char>,
)
    requires
        object is Object,
    ensures
        member(put(object, key, value), key) == Some(value),
        at_key(put(object, key, value), key) == value,
        other != key ==> member(put(object, key, value), other) == member(object, other),
        put_some(object, key, Some(value)) == put(object, key, value),
        put_some(object, key, None) == object,
        member(no_members(), key) is None,
        no_members() is Object,
{
}

/// What is not there reads as null, and so does everything of a value that is
/// no object or no list.
pub proof fn law_missing_members_are_null(value: JsonView, key: Seq<char>, index: int)
    ensures
        member(value, key) is None ==> at_key(value, key) is Null,
        member(value, key) matches Some(found) ==> at_key(value, key) == found,
        !(value is Object) ==> member(value, key) is None,
        !(value is Array) ==> at_index(value, index) is Null && items_in(value) is None,
        value matches JsonView::Array(items) ==> {
            &&& items_in(value) == Some(items)
            &&& 0 <= index < items.len() ==> at_index(value, index) == items[index]
            &&& !(0 <= index < items.len()) ==> at_index(value, index) is Null
        },
{
}

/// A value is read as what it is: a text as a text, a whole number as one, and
/// any number as a number with its sign.
pub proof fn law_values_are_read_as_what_they_are(value: JsonView)
    ensures
        text_in(value) is Some <==> value is Text,
        value matches JsonView::Text(text) ==> text_in(value) == Some(text),
        unsigned_in(value) is Some <==> value is Unsigned,
        value matches JsonView::Unsigned(n) ==> unsigned_in(value) == Some(n),
        value matches JsonView::Unsigned(n) ==> float_in(value) == float_of_text(
            text::decimal(n as nat),
        ),
        value matches JsonView::Negative(n) ==> float_in(value) == float_of_text(
            seq!['-'] + text::decimal((-n) as nat),
        ),
        value matches JsonView::Float(number) ==> float_in(value) == Some(number),
        !(value is Unsigned || value is Negative || value is Float) ==> float_in(value) is None,
{
}

/// A list holds the views of its values, in their order.
pub proof fn law_items_keep_their_order(items: Seq<Json>)
    ensures
        items_view(items).len() == items.len(),
        forall|i: int|
            0 <= i < items.len() ==> #[trigger] items_view(items)[i] == json_view(items[i]),
    decreases items.len(),
{
    if items.len() > 0 {
        law_items_keep_their_order(items.drop_last());
    }
}

/// A whole number is written in one to twenty digits, with a minus in front or
/// without.
pub proof fn law_whole_numbers_are_written_in_digits(digits: Seq<char>)
    requires
        forall|i: int| 0 <= i < digits.len() ==> '0' <= #[trigger] digits[i] <= '9',
    ensures
        is_whole(digits) <==> 1 <= digits.len() <= 20,
        is_whole(seq!['-'] + digits) <==> 1 <= digits.len() <= 20,
{
    let signed = seq!['-'] + digits;
    assert(signed.skip(1) =~= digits);
    assert(signed[0] == '-');
    if digits.len() > 0 {
        assert('0' <= digits[0] <= '9');
    }
}

/// A whole number is negative exactly below zero, and keeps its value.
pub proof fn law_whole_numbers_keep_their_sign(n: i64)
    ensures
        n < 0 ==> signed(n) == JsonView::Negative(n),
        n >= 0 ==> signed(n) == JsonView::Unsigned(n as u64),
{
}

}
