//! JSON values as the library reads them, and the outside parser and printer.

use vstd::prelude::*;

verus! {

/// The outside crate's JSON value, carried opaquely.
#[verifier::external_type_specification]
#[verifier::external_body]
pub struct ExSerdeValue(serde_json::Value);

/// A JSON value: numbers keep their textual form, and objects hold their
/// fields in the order given. A value read by `JsonValue::parse` has its
/// object fields sorted by key, as `serde_json`'s map keeps them.
#[derive(Debug)]
pub enum JsonValue {
    Null,
    Bool(bool),
    Number(String),
    String(String),
    Array(Vec<JsonValue>),
    Object(Vec<JsonField>),
}

/// One member of a JSON object.
#[derive(Debug)]
pub struct JsonField {
    pub key: String,
    pub value: JsonValue,
}

/// What a JSON value means: the same tree, with strings as character sequences.
pub enum JsonModel {
    Null,
    Bool(bool),
    Number(Seq<char>),
    Str(Seq<char>),
    Array(Seq<JsonModel>),
    Object(Seq<(Seq<char>, JsonModel)>),
}

/// The meaning of a JSON value.
pub open spec fn model_of(v: JsonValue) -> JsonModel
    decreases v, 1nat,
{
    match v {
        JsonValue::Null => JsonModel::Null,
        JsonValue::Bool(b) => JsonModel::Bool(b),
        JsonValue::Number(n) => JsonModel::Number(n@),
        JsonValue::String(s) => JsonModel::Str(s@),
        JsonValue::Array(items) => JsonModel::Array(models_of_items(items@, items@.len() as int)),
        JsonValue::Object(fields) => JsonModel::Object(models_of_fields(fields@, fields@.len() as int)),
    }
}

/// The meanings of the first `n` items.
pub open spec fn models_of_items(items: Seq<JsonValue>, n: int) -> Seq<JsonModel>
    decreases items, n,
{
    if n <= 0 || n > items.len() {
        Seq::empty()
    } else {
        models_of_items(items, n - 1).push(model_of(items[n - 1]))
    }
}

/// The meanings of the first `n` fields.
pub open spec fn models_of_fields(fields: Seq<JsonField>, n: int) -> Seq<(Seq<char>, JsonModel)>
    decreases fields, n,
{
    if n <= 0 || n > fields.len() {
        Seq::empty()
    } else {
        models_of_fields(fields, n - 1).push((fields[n - 1].key@, model_of(fields[n - 1].value)))
    }
}

impl View for JsonValue {
    type V = JsonModel;

    open spec fn view(&self) -> JsonModel {
        model_of(*self)
    }
}

/// The meanings of the first `n` items depend only on those items' meanings.
pub proof fn lemma_items_prefix(a: Seq<JsonValue>, b: Seq<JsonValue>, n: int)
    requires
        0 <= n <= a.len(),
        n <= b.len(),
        forall|i: int| 0 <= i < n ==> #[trigger] model_of(a[i]) == model_of(b[i]),
    ensures
        models_of_items(a, n) == models_of_items(b, n),
    decreases n,
{
    if n > 0 {
        lemma_items_prefix(a, b, n - 1);
        assert(model_of(a[n - 1]) == model_of(b[n - 1]));
        assert(models_of_items(a, n) == models_of_items(a, n - 1).push(model_of(a[n - 1])));
        assert(models_of_items(b, n) == models_of_items(b, n - 1).push(model_of(b[n - 1])));
    }
}

/// The meanings of the first `n` fields depend only on those fields' keys and meanings.
pub proof fn lemma_fields_prefix(a: Seq<JsonField>, b: Seq<JsonField>, n: int)
    requires
        0 <= n <= a.len(),
        n <= b.len(),
        forall|i: int| 0 <= i < n ==> #[trigger] a[i].key@ == b[i].key@ && model_of(a[i].value)
            == model_of(b[i].value),
    ensures
        models_of_fields(a, n) == models_of_fields(b, n),
    decreases n,
{
    if n > 0 {
        lemma_fields_prefix(a, b, n - 1);
    }
}

/// Nesting depth: scalars and empty containers count 1, a container one more
/// than its deepest element.
pub open spec fn json_depth(v: JsonValue) -> nat
    decreases v, 0nat,
{
    match v {
        JsonValue::Array(items) => if items@.len() == 0 { 1 } else { 1 + max_depth_items(items@, items@.len() as int) },
        JsonValue::Object(fields) => if fields@.len() == 0 { 1 } else { 1 + max_depth_fields(fields@, fields@.len() as int) },
        _ => 1,
    }
}

/// Largest depth among the first `n` items.
pub open spec fn max_depth_items(items: Seq<JsonValue>, n: int) -> nat
    decreases items, n,
{
    if n <= 0 || n > items.len() {
        0
    } else {
        let d = json_depth(items[n - 1]);
        let rest = max_depth_items(items, n - 1);
        if d > rest { d } else { rest }
    }
}

/// Largest depth among the values of the first `n` fields.
pub open spec fn max_depth_fields(fields: Seq<JsonField>, n: int) -> nat
    decreases fields, n,
{
    if n <= 0 || n > fields.len() {
        0
    } else {
        let d = json_depth(fields[n - 1].value);
        let rest = max_depth_fields(fields, n - 1);
        if d > rest { d } else { rest }
    }
}

/// `n`, or `usize::MAX` when `n` is larger.
pub open spec fn cap(n: nat) -> nat {
    if n < usize::MAX { n } else { usize::MAX as nat }
}

/// The depth of `v`, capped at `usize::MAX`.
pub open spec fn capped_depth(v: JsonValue) -> nat {
    cap(json_depth(v))
}

/// The value stored under `key` in an object: the first field with that key.
pub open spec fn json_get(v: JsonValue, key: Seq<char>) -> Option<JsonValue> {
    match v {
        JsonValue::Object(fields) => field_lookup(fields@, key, 0),
        _ => None,
    }
}

/// The value of the first field with `key` at or after index `i`.
pub open spec fn field_lookup(fields: Seq<JsonField>, key: Seq<char>, i: int) -> Option<JsonValue>
    decreases fields.len() - i,
{
    if i < 0 || i >= fields.len() {
        None
    } else if fields[i].key@ == key {
        Some(fields[i].value)
    } else {
        field_lookup(fields, key, i + 1)
    }
}

/// The text of a JSON string value.
pub open spec fn json_as_str(v: JsonValue) -> Option<Seq<char>> {
    match v {
        JsonValue::String(s) => Some(s@),
        _ => None,
    }
}

/// The string stored under `key` in an object, when there is one.
pub open spec fn json_get_str(v: JsonValue, key: Seq<char>) -> Option<Seq<char>> {
    match json_get(v, key) {
        Some(x) => json_as_str(x),
        None => None,
    }
}

/// The result of parsing `text` as one JSON document, when it is valid JSON.
pub uninterp spec fn parsed_json(text: Seq<char>) -> Option<JsonModel>;

/// The compact JSON text of a value.
pub uninterp spec fn json_text(v: JsonModel) -> Seq<char>;

/// The indented JSON text of a value, as `serde_json::to_string_pretty` writes it.
pub uninterp spec fn json_pretty_text(v: JsonModel) -> Seq<char>;

/// The value of the first member with `key` at or after index `i`.
pub open spec fn member_lookup(members: Seq<(Seq<char>, JsonModel)>, key: Seq<char>, i: int) -> Option<JsonModel>
    decreases members.len() - i,
{
    if i < 0 || i >= members.len() {
        None
    } else if members[i].0 == key {
        Some(members[i].1)
    } else {
        member_lookup(members, key, i + 1)
    }
}

/// The value stored under `key` in an object: the first member with that key.
pub open spec fn model_get(m: JsonModel, key: Seq<char>) -> Option<JsonModel> {
    match m {
        JsonModel::Object(members) => member_lookup(members, key, 0),
        _ => None,
    }
}

/// The string stored under `key` in an object, when there is one.
pub open spec fn model_get_str(m: JsonModel, key: Seq<char>) -> Option<Seq<char>> {
    match model_get(m, key) {
        Some(JsonModel::Str(t)) => Some(t),
        _ => None,
    }
}

proof fn lemma_models_of_fields_index(fields: Seq<JsonField>, n: int)
    requires
        0 <= n <= fields.len(),
    ensures
        models_of_fields(fields, n).len() == n,
        forall|i: int| 0 <= i < n ==> #[trigger] models_of_fields(fields, n)[i] == (fields[i].key@, model_of(fields[i].value)),
    decreases n,
{
    if n > 0 {
        lemma_models_of_fields_index(fields, n - 1);
    }
}

proof fn lemma_lookup_models(fields: Seq<JsonField>, key: Seq<char>, i: int)
    requires
        0 <= i,
    ensures
        member_lookup(models_of_fields(fields, fields.len() as int), key, i) == match field_lookup(fields, key, i) {
            Some(x) => Some(model_of(x)),
            None => None::<JsonModel>,
        },
    decreases fields.len() - i,
{
    lemma_models_of_fields_index(fields, fields.len() as int);
    if i < fields.len() {
        lemma_lookup_models(fields, key, i + 1);
    }
}

/// Looking up a key in an object's fields agrees with looking it up in
/// the object's meaning.
pub proof fn lemma_lookup_models_pub(fields: Seq<JsonField>, key: Seq<char>)
    ensures
        member_lookup(models_of_fields(fields, fields.len() as int), key, 0) == match field_lookup(fields, key, 0) {
            Some(x) => Some(model_of(x)),
            None => None::<JsonModel>,
        },
{
    lemma_lookup_models(fields, key, 0);
}

impl JsonValue {
    /// Whether this is JSON `null`.
    pub fn is_null(&self) -> (b: bool)
        ensures
            b == (*self is Null),
    {
        match self {
            JsonValue::Null => true,
            _ => false,
        }
    }

    /// The text of a string value.
    pub fn as_str(&self) -> (r: Option<&str>)
        ensures
            match json_as_str(*self) {
                Some(t) => r matches Some(x) && x@ == t,
                None => r is None,
            },
    {
        match self {
            JsonValue::String(s) => Some(s.as_str()),
            _ => None,
        }
    }

    /// The value stored under `key`, when this is an object that has it.
    pub fn get(&self, key: &str) -> (r: Option<&JsonValue>)
        ensures
            match json_get(*self, key@) {
                Some(x) => r matches Some(y) && *y == x,
                None => r is None,
            },
            match r {
                Some(y) => model_get(self@, key@) == Some(y@),
                None => model_get(self@, key@) is None,
            },
    {
        match self {
            JsonValue::Object(fields) => {
                proof { lemma_lookup_models(fields@, key@, 0); }
                let ghost expected = match json_get(*self, key@) {
                    Some(x) => Some(model_of(x)),
                    None => None::<JsonModel>,
                };
                assert(model_get(self@, key@) == expected);
                let n = fields.len();
                let mut i: usize = 0;
                while i < n
                    invariant
                        n == fields@.len(),
                        i <= n,
                        model_get(self@, key@) == expected,
                        expected == match json_get(*self, key@) {
                            Some(x) => Some(model_of(x)),
                            None => None::<JsonModel>,
                        },
                        json_get(*self, key@) == field_lookup(fields@, key@, 0),
                        field_lookup(fields@, key@, 0) == field_lookup(fields@, key@, i as int),
                    decreases n - i,
                {
                    if str_eq(fields[i].key.as_str(), key) {
                        assert(field_lookup(fields@, key@, i as int) == Some(fields@[i as int].value));
                        return Some(&fields[i].value);
                    }
                    i = i + 1;
                }
                None
            },
            _ => None,
        }
    }

    /// The string stored under `key`, when this is an object that has one.
    pub fn get_str(&self, key: &str) -> (r: Option<&str>)
        ensures
            match json_get_str(*self, key@) {
                Some(t) => r matches Some(x) && x@ == t,
                None => r is None,
            },
            match model_get_str(self@, key@) {
                Some(t) => r matches Some(x) && x@ == t,
                None => r is None,
            },
    {
        match self.get(key) {
            Some(v) => v.as_str(),
            None => None,
        }
    }
}

/// Whether two strings hold the same characters.
pub fn str_eq(a: &str, b: &str) -> (r: bool)
    ensures
        r == (a@ == b@),
{
    let ac = crate::text::chars_of(a);
    let bc = crate::text::chars_of(b);
    if ac.len() != bc.len() {
        assert(a@.len() != b@.len());
        return false;
    }
    let n = ac.len();
    let mut i: usize = 0;
    while i < n
        invariant
            n == ac@.len(),
            n == bc@.len(),
            ac@ == a@,
            bc@ == b@,
            i <= n,
            ac@.take(i as int) == bc@.take(i as int),
        decreases n - i,
    {
        if ac[i] != bc[i] {
            assert(a@[i as int] != b@[i as int]);
            return false;
        }
        assert(ac@.take(i + 1) =~= ac@.take(i as int).push(ac@[i as int]));
        assert(bc@.take(i + 1) =~= bc@.take(i as int).push(bc@[i as int]));
        i = i + 1;
    }
    assert(ac@.take(n as int) =~= ac@);
    assert(bc@.take(n as int) =~= bc@);
    true
}

/// Parse `text` as a single JSON document.
///
/// Trusted: calls `serde_json::from_str::<serde_json::Value>` and converts the
/// parsed value member by member; the result is named by `parsed_json`. On
/// failure it hands back serde_json's error message, of which nothing is
/// stated beyond that it comes exactly when the text is not valid JSON.
#[verifier::external_body]
pub(crate) fn parse_json(text: &str) -> (r: Result<JsonValue, String>)
    ensures
        match r {
            Ok(v) => parsed_json(text@) == Some(v@),
            Err(_) => parsed_json(text@) is None,
        },
{
    match serde_json::from_str::<serde_json::Value>(text) {
        Ok(v) => Ok(from_serde(v)),
        Err(e) => Err(e.to_string()),
    }
}

impl JsonValue {
    /// The value written as `text`, when it is a single JSON document.
    pub fn parse(text: &str) -> (r: Option<JsonValue>)
        ensures
            match r {
                Some(v) => parsed_json(text@) == Some(v@),
                None => parsed_json(text@) is None,
            },
    {
        match parse_json(text) {
            Ok(v) => Some(v),
            Err(_) => None,
        }
    }

    /// The compact JSON text of this value.
    pub fn to_text(&self) -> (s: String)
        ensures
            s@ == json_text(self@),
    {
        json_to_string(self)
    }
}

/// The compact JSON text of `v`.
///
/// Trusted: converts `v` to a `serde_json::Value` and calls
/// `serde_json::to_string`, which cannot fail on such a value; the result
/// is named by `json_text`.
#[verifier::external_body]
pub(crate) fn json_to_string(v: &JsonValue) -> (s: String)
    ensures
        s@ == json_text(v@),
{
    serde_json::to_string(&to_serde(v)).unwrap_or_default()
}

/// The indented JSON text of `v`.
///
/// Trusted: converts `v` to a `serde_json::Value` and calls
/// `serde_json::to_string_pretty`, which cannot fail on such a value; the
/// result is named by `json_pretty_text`.
#[verifier::external_body]
pub(crate) fn json_to_pretty_string(v: &JsonValue) -> (s: String)
    ensures
        s@ == json_pretty_text(v@),
{
    serde_json::to_string_pretty(&to_serde(v)).unwrap_or_default()
}

/// Conversion of a parsed `serde_json::Value`, one variant to one variant.
#[verifier::external_body]
fn from_serde(v: serde_json::Value) -> JsonValue {
    match v {
        serde_json::Value::Null => JsonValue::Null,
        serde_json::Value::Bool(b) => JsonValue::Bool(b),
        serde_json::Value::Number(n) => JsonValue::Number(n.to_string()),
        serde_json::Value::String(s) => JsonValue::String(s),
        serde_json::Value::Array(a) => JsonValue::Array(a.into_iter().map(from_serde).collect()),
        serde_json::Value::Object(m) => JsonValue::Object(
            m.into_iter().map(|(key, value)| JsonField { key, value: from_serde(value) }).collect(),
        ),
    }
}

/// Conversion to a `serde_json::Value`, one variant to one variant.
#[verifier::external_body]
fn to_serde(v: &JsonValue) -> serde_json::Value {
    match v {
        JsonValue::Null => serde_json::Value::Null,
        JsonValue::Bool(b) => serde_json::Value::Bool(*b),
        JsonValue::Number(n) => serde_json::from_str(n).unwrap_or(serde_json::Value::Null),
        JsonValue::String(s) => serde_json::Value::String(s.clone()),
        JsonValue::Array(a) => serde_json::Value::Array(a.iter().map(to_serde).collect()),
        JsonValue::Object(f) => serde_json::Value::Object(
            f.iter().map(|field| (field.key.clone(), to_serde(&field.value))).collect(),
        ),
    }
}

impl JsonValue {
    /// Nesting depth of this value, capped at `usize::MAX`.
    #[verifier::loop_isolation(false)]
    pub fn depth(&self) -> (d: usize)
        ensures
            d as nat == capped_depth(*self),
        decreases self,
    {
        match self {
            JsonValue::Array(items) => {
                let n = items.len();
                if n == 0 {
                    return 1;
                }
                let mut best: usize = 0;
                let mut i: usize = 0;
                while i < n
                    invariant
                        n == items@.len(),
                        i <= n,
                        best as nat == cap(max_depth_items(items@, i as int)),
                    decreases n - i,
                {
                    proof {
                        assert(self->Array_0 == *items);
                        assert(decreases_to!(*self => self->Array_0));
                        assert(decreases_to!(*items => items@));
                        assert(decreases_to!(items@ => items@[i as int]));
                        assert(decreases_to!(*self => items@[i as int]));
                    }
                    let d = items[i].depth();
                    if d > best {
                        best = d;
                    }
                    i = i + 1;
                }
                if best == usize::MAX { best } else { best + 1 }
            },
            JsonValue::Object(fields) => {
                let n = fields.len();
                if n == 0 {
                    return 1;
                }
                let mut best: usize = 0;
                let mut i: usize = 0;
                while i < n
                    invariant
                        n == fields@.len(),
                        i <= n,
                        best as nat == cap(max_depth_fields(fields@, i as int)),
                    decreases n - i,
                {
                    proof {
                        assert(self->Object_0 == *fields);
                        assert(decreases_to!(*self => self->Object_0));
                        assert(decreases_to!(*fields => fields@));
                        assert(decreases_to!(fields@ => fields@[i as int]));
                        assert(decreases_to!(fields@[i as int] => fields@[i as int].value));
                        assert(decreases_to!(*self => fields@[i as int].value));
                    }
                    let d = fields[i].value.depth();
                    if d > best {
                        best = d;
                    }
                    i = i + 1;
                }
                if best == usize::MAX { best } else { best + 1 }
            },
            _ => 1,
        }
    }
}

impl JsonValue {
    /// A copy of this value, with the same meaning.
    #[verifier::loop_isolation(false)]
    pub fn duplicate(&self) -> (r: JsonValue)
        ensures
            r@ == self@,
        decreases self,
    {
        match self {
            JsonValue::Null => JsonValue::Null,
            JsonValue::Bool(b) => JsonValue::Bool(*b),
            JsonValue::Number(n) => JsonValue::Number(crate::text::string_clone(n)),
            JsonValue::String(t) => JsonValue::String(crate::text::string_clone(t)),
            JsonValue::Array(items) => {
                let n = items.len();
                let mut out: Vec<JsonValue> = Vec::new();
                let mut i: usize = 0;
                while i < n
                    invariant
                        n == items@.len(),
                        i <= n,
                        out@.len() == i,
                        forall|k: int| 0 <= k < i ==> #[trigger] model_of(out@[k]) == model_of(items@[k]),
                    decreases n - i,
                {
                    proof {
                        assert(self->Array_0 == *items);
                        assert(decreases_to!(*self => self->Array_0));
                        assert(decreases_to!(*items => items@));
                        assert(decreases_to!(items@ => items@[i as int]));
                        assert(decreases_to!(*self => items@[i as int]));
                    }
                    let c = items[i].duplicate();
                    out.push(c);
                    i = i + 1;
                }
                proof { lemma_items_prefix(out@, items@, n as int); }
                JsonValue::Array(out)
            },
            JsonValue::Object(fields) => {
                let n = fields.len();
                let mut out: Vec<JsonField> = Vec::new();
                let mut i: usize = 0;
                while i < n
                    invariant
                        n == fields@.len(),
                        i <= n,
                        out@.len() == i,
                        forall|k: int| 0 <= k < i ==> #[trigger] out@[k].key@ == fields@[k].key@
                            && model_of(out@[k].value) == model_of(fields@[k].value),
                    decreases n - i,
                {
                    proof {
                        assert(self->Object_0 == *fields);
                        assert(decreases_to!(*self => self->Object_0));
                        assert(decreases_to!(*fields => fields@));
                        assert(decreases_to!(fields@ => fields@[i as int]));
                        assert(decreases_to!(fields@[i as int] => fields@[i as int].value));
                        assert(decreases_to!(*self => fields@[i as int].value));
                    }
                    let v = fields[i].value.duplicate();
                    let k = crate::text::string_clone(&fields[i].key);
                    out.push(JsonField { key: k, value: v });
                    i = i + 1;
                }
                proof { lemma_fields_prefix(out@, fields@, n as int); }
                JsonValue::Object(out)
            },
        }
    }
}

impl Clone for JsonValue {
    fn clone(&self) -> (r: Self)
        ensures
            r@ == self@,
    {
        self.duplicate()
    }
}

impl Clone for JsonField {
    fn clone(&self) -> (r: Self)
        ensures
            r.key@ == self.key@,
            r.value@ == self.value@,
    {
        JsonField { key: crate::text::string_clone(&self.key), value: self.value.duplicate() }
    }
}

/// The meaning of the `i`th of the first `n` items is that item's meaning.
pub proof fn lemma_models_of_items_index(items: Seq<JsonValue>, n: int)
    requires
        0 <= n <= items.len(),
    ensures
        models_of_items(items, n).len() == n,
        forall|i: int| 0 <= i < n ==> #[trigger] models_of_items(items, n)[i] == model_of(items[i]),
    decreases n,
{
    if n > 0 {
        lemma_models_of_items_index(items, n - 1);
    }
}

impl JsonValue {
    /// The items of an array.
    pub fn as_array(&self) -> (r: Option<&Vec<JsonValue>>)
        ensures
            match self@ {
                JsonModel::Array(ms) => r matches Some(items) && items@.len() == ms.len() && forall|i: int|
                    0 <= i < ms.len() ==> #[trigger] ms[i] == items@[i]@,
                _ => r is None,
            },
    {
        match self {
            JsonValue::Array(items) => {
                proof { lemma_models_of_items_index(items@, items@.len() as int); }
                Some(items)
            },
            _ => None,
        }
    }

    /// The value of a boolean.
    pub fn as_bool(&self) -> (r: Option<bool>)
        ensures
            match self@ {
                JsonModel::Bool(b) => r == Some(b),
                _ => r is None,
            },
    {
        match self {
            JsonValue::Bool(b) => Some(*b),
            _ => None,
        }
    }

    /// The text of a string value, by meaning.
    pub fn as_text(&self) -> (r: Option<&str>)
        ensures
            match self@ {
                JsonModel::Str(t) => r matches Some(x) && x@ == t,
                _ => r is None,
            },
    {
        match self {
            JsonValue::String(s) => Some(s.as_str()),
            _ => None,
        }
    }
}

} // verus!
