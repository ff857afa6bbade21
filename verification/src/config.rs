//! Loading and saving entity records as JSON configuration text.
//!
//! The decoding rules — which fields a record requires, how a ledger table
//! is read, and when a `DeserializationError` is reported — are verified
//! logic, specified against `JsonModel`, a mathematical model of what a
//! piece of JSON text denotes. The JSON syntax itself is handled by the
//! `serde_json` crate behind the small trusted wrappers below; a ledger is
//! written as a plain key-to-integer object, not wrapped in extra structure,
//! so configuration authors can write ware-amount tables directly.

use vstd::prelude::*;

verus! {

use crate::balance::Balance;
use crate::balance::distinct_keys;
use crate::balance::nonzero_amounts;
use crate::balance::entries_map;
use crate::balance::amount_of;
use crate::balance::normalized;
use crate::balance::amounts_fit;
use crate::balance::fits_i64;
use crate::balance::key_in_prefix;
use crate::balance::lemma_entries_map_amounts;
use crate::balance::lemma_amounts_determine;
use crate::error::DeserializationError;
use crate::model::WareType;
use crate::model::BuildingType;
use crate::model::PopulationClass;
use crate::model::Recipe;
use crate::model::CycleDuration;

#[verifier::external_type_specification]
#[verifier::external_body]
pub struct ExJsonValue(serde_json::Value);

/// What a piece of JSON denotes, as a mathematical tree: an object is a map
/// of members, a string a character sequence, a number that serde_json holds
/// as an integer its value (`Num`); a non-integer number is `Other` and an
/// array `Arr` — configuration records use neither.
pub enum JsonModel {
    Null,
    Bool(bool),
    Num(int),
    Str(Seq<char>),
    Arr,
    Obj(Map<Seq<char>, JsonModel>),
    Other,
}

/// The shapes configuration text uses: no arrays, no non-integer numbers.
pub open spec fn defined(m: JsonModel) -> bool
    decreases m,
{
    match m {
        JsonModel::Arr => false,
        JsonModel::Other => false,
        JsonModel::Obj(members) => forall|k: Seq<char>|
            members.dom().contains(k) ==> defined(#[trigger] members[k]),
        _ => true,
    }
}

/// Whether a tree nests at most `d` objects deep. serde_json's printer puts
/// no bound on nesting, but its parser refuses text that nests deeper than
/// 127 containers, so parse-back claims carry this measure.
pub open spec fn depth_at_most(m: JsonModel, d: int) -> bool
    decreases m,
{
    match m {
        JsonModel::Obj(members) => d >= 1 && forall|k: Seq<char>|
            members.dom().contains(k) ==> depth_at_most(#[trigger] members[k], d - 1),
        _ => true,
    }
}

/// The member of an object under a key; None when absent or not an object.
pub open spec fn member_of(m: JsonModel, key: Seq<char>) -> Option<JsonModel> {
    match m {
        JsonModel::Obj(members) => if members.dom().contains(key) {
            Some(members[key])
        } else {
            None
        },
        _ => None,
    }
}

/// The signed 64-bit amount a member denotes, if it does.
pub open spec fn amount_member(m: JsonModel) -> Option<int> {
    match m {
        JsonModel::Num(n) => if fits_i64(n) {
            Some(n)
        } else {
            None
        },
        _ => None,
    }
}

/// The integer a member denotes, with no range applied; zero off `Num`.
pub open spec fn amount_val(m: JsonModel) -> int {
    match m {
        JsonModel::Num(n) => n,
        _ => 0,
    }
}

/// The unsigned 64-bit quantity a member denotes, if it does.
pub open spec fn quantity_member(m: JsonModel) -> Option<int> {
    match m {
        JsonModel::Num(n) => if 0 <= n <= u64::MAX {
            Some(n)
        } else {
            None
        },
        _ => None,
    }
}

/// Whether an object is a ledger table: every member a signed 64-bit amount.
pub open spec fn table_ok(m: JsonModel) -> bool {
    match m {
        JsonModel::Obj(members) => forall|k: Seq<char>|
            members.dom().contains(k) ==> amount_member(#[trigger] members[k]) is Some,
        _ => false,
    }
}

/// The mapping a ledger table denotes, explicit zeros dropped.
pub open spec fn table_val(m: JsonModel) -> Map<Seq<char>, int> {
    match m {
        JsonModel::Obj(members) => Map::new(
            |k: Seq<char>| members.dom().contains(k) && amount_val(members[k]) != 0,
            |k: Seq<char>| amount_val(members[k]),
        ),
        _ => Map::empty(),
    }
}

/// The members of a ledger table denoting a mapping.
pub open spec fn table_map(m: Map<Seq<char>, int>) -> Map<Seq<char>, JsonModel> {
    Map::new(|k: Seq<char>| m.dom().contains(k), |k: Seq<char>| JsonModel::Num(m[k]))
}

/// A mapping written as a ledger table.
pub open spec fn table_model(m: Map<Seq<char>, int>) -> JsonModel {
    JsonModel::Obj(table_map(m))
}

/// A display name written as a single-member record.
pub open spec fn name_record_model(name: Seq<char>) -> JsonModel {
    JsonModel::Obj(
        Map::<Seq<char>, JsonModel>::empty().insert("display_name"@, JsonModel::Str(name)),
    )
}

/// A cycle duration written as an object of `secs` and `nanos`.
pub open spec fn cycle_model(secs: int, nanos: int) -> JsonModel {
    JsonModel::Obj(
        Map::<Seq<char>, JsonModel>::empty().insert("secs"@, JsonModel::Num(secs)).insert(
            "nanos"@,
            JsonModel::Num(nanos),
        ),
    )
}

/// A recipe written as a record of its five members.
pub open spec fn recipe_model(
    display_name: Seq<char>,
    building: Seq<char>,
    secs: int,
    nanos: int,
    conversion: Map<Seq<char>, int>,
    labor: Map<Seq<char>, int>,
) -> JsonModel {
    JsonModel::Obj(
        Map::<Seq<char>, JsonModel>::empty().insert(
            "display_name"@,
            JsonModel::Str(display_name),
        ).insert("building"@, JsonModel::Str(building)).insert(
            "conversion"@,
            table_model(conversion),
        ).insert("cycle"@, cycle_model(secs, nanos)).insert("labor"@, table_model(labor)),
    )
}

/// The error shapes decoding can take, over character sequences.
pub enum DecodeErr {
    Syntax,
    Missing(Seq<char>),
    Invalid(Seq<char>),
}

/// The shape of a reported error.
pub open spec fn err_shape(e: DeserializationError) -> DecodeErr {
    match e {
        DeserializationError::Syntax => DecodeErr::Syntax,
        DeserializationError::MissingField(f) => DecodeErr::Missing(f@),
        DeserializationError::InvalidField(f) => DecodeErr::Invalid(f@),
    }
}

/// Decoding a required string member: absent gives `Missing`, a non-string
/// gives `Invalid`.
pub open spec fn spec_str_member(m: JsonModel, key: Seq<char>) -> Result<Seq<char>, DecodeErr> {
    match member_of(m, key) {
        None => Err(DecodeErr::Missing(key)),
        Some(v) => match v {
            JsonModel::Str(s) => Ok(s),
            _ => Err(DecodeErr::Invalid(key)),
        },
    }
}

/// Decoding a cycle object: `secs` then `nanos`, each a required unsigned
/// 64-bit quantity, the nanosecond part below one whole second.
pub open spec fn spec_cycle(m: JsonModel) -> Result<(int, int), DecodeErr> {
    match member_of(m, "secs"@) {
        None => Err(DecodeErr::Missing("secs"@)),
        Some(sv) => match quantity_member(sv) {
            None => Err(DecodeErr::Invalid("secs"@)),
            Some(secs) => match member_of(m, "nanos"@) {
                None => Err(DecodeErr::Missing("nanos"@)),
                Some(nv) => match quantity_member(nv) {
                    None => Err(DecodeErr::Invalid("nanos"@)),
                    Some(nanos) => if nanos >= 1_000_000_000 {
                        Err(DecodeErr::Invalid("nanos"@))
                    } else {
                        Ok((secs, nanos))
                    },
                },
            },
        },
    }
}

/// The error a failed ledger-table decode reports: `Syntax` when the value
/// is no object at all, else `Invalid` naming some offending member.
pub open spec fn table_decode_err(m: JsonModel, e: DeserializationError) -> bool {
    match err_shape(e) {
        DecodeErr::Syntax => !(m is Obj),
        DecodeErr::Invalid(f) => m matches JsonModel::Obj(members) && members.dom().contains(f)
            && amount_member(members[f]) is None,
        DecodeErr::Missing(_) => false,
    }
}

/// Whether a parsed recipe record has every member a recipe requires.
pub open spec fn recipe_shape_ok(m: JsonModel) -> bool {
    &&& spec_str_member(m, "display_name"@) is Ok
    &&& spec_str_member(m, "building"@) is Ok
    &&& (member_of(m, "cycle"@) matches Some(c) && spec_cycle(c) is Ok)
    &&& (member_of(m, "conversion"@) matches Some(cv) && table_ok(cv))
    &&& (member_of(m, "labor"@) matches Some(lb) && table_ok(lb))
}

/// The recipe a well-shaped record denotes.
pub open spec fn recipe_fields_ok(m: JsonModel, r: Recipe) -> bool {
    &&& spec_str_member(m, "display_name"@) == Ok::<Seq<char>, DecodeErr>(r.display_name@)
    &&& spec_str_member(m, "building"@) == Ok::<Seq<char>, DecodeErr>(r.building@)
    &&& (member_of(m, "cycle"@) matches Some(c) && spec_cycle(c) == Ok::<(int, int), DecodeErr>(
        (r.cycle.secs as int, r.cycle.nanos as int),
    ))
    &&& (member_of(m, "conversion"@) matches Some(cv) && r.conversion@ == table_val(cv))
    &&& (member_of(m, "labor"@) matches Some(lb) && r.labor@ == table_val(lb))
}

/// The error a failed recipe decode reports, member by member in the order
/// the record is read: display name, building, cycle, conversion, labor.
pub open spec fn recipe_decode_err(m: JsonModel, e: DeserializationError) -> bool {
    if spec_str_member(m, "display_name"@) is Err {
        spec_str_member(m, "display_name"@) matches Err(d) && err_shape(e) == d
    } else if spec_str_member(m, "building"@) is Err {
        spec_str_member(m, "building"@) matches Err(d) && err_shape(e) == d
    } else {
        match member_of(m, "cycle"@) {
            None => err_shape(e) == DecodeErr::Missing("cycle"@),
            Some(c) => if spec_cycle(c) is Err {
                spec_cycle(c) matches Err(d) && err_shape(e) == d
            } else {
                match member_of(m, "conversion"@) {
                    None => err_shape(e) == DecodeErr::Missing("conversion"@),
                    Some(cv) => if !table_ok(cv) {
                        table_decode_err(cv, e)
                    } else {
                        match member_of(m, "labor"@) {
                            None => err_shape(e) == DecodeErr::Missing("labor"@),
                            Some(lb) => !table_ok(lb) && table_decode_err(lb, e),
                        }
                    },
                }
            },
        }
    }
}

// ---------------------------------------------------------------------------
// The trusted boundary: names for what serde_json computes, and one wrapper
// per serde_json function the library calls.
// ---------------------------------------------------------------------------

/// What a JSON value holds, as a model: a function of the value alone.
pub uninterp spec fn json_model(v: serde_json::Value) -> JsonModel;

/// What serde_json::from_str yields for a text, as a model; None for text
/// that is not well-formed JSON or that nests deeper than the parser's
/// recursion limit. A function of the text alone.
pub uninterp spec fn json_parse(text: Seq<char>) -> Option<JsonModel>;

/// The text serde_json::to_string prints for a value of a given model; for
/// `defined` models a function of the model alone, since object members are
/// printed in sorted key order and integers print by value.
pub uninterp spec fn json_text(m: JsonModel) -> Seq<char>;

/// The JSON text that stands for a ledger's key-to-amount table: a function
/// of the mapping alone, since members are emitted in sorted key order.
pub uninterp spec fn balance_json(m: Map<Seq<char>, int>) -> Seq<char>;

/// The members a sequence of pairs builds, a later pair overriding an
/// earlier one with the same key.
pub open spec fn members_model(s: Seq<(String, serde_json::Value)>) -> Map<Seq<char>, JsonModel>
    decreases s.len(),
{
    if s.len() == 0 {
        Map::empty()
    } else {
        members_model(s.drop_last()).insert(s.last().0@, json_model(s.last().1))
    }
}

/// Relies on serde_json::to_string over a BTreeMap<&String, i64>: one member
/// per entry, keyed by the entry's key, in sorted key order; it never fails
/// for a string-keyed map of integers, and the printed table parses back to
/// the very mapping it printed.
#[verifier::external_body]
fn entries_to_json(entries: &Vec<(String, i64)>) -> (r: String)
    requires
        distinct_keys(entries@),
        nonzero_amounts(entries@),
    ensures
        r@ == balance_json(entries_map(entries@)),
        json_parse(r@) == Some(table_model(entries_map(entries@))),
{
    let table: std::collections::BTreeMap<&String, i64> = entries.iter().map(
        |entry: &(String, i64)| (&entry.0, entry.1),
    ).collect();
    serde_json::to_string(&table).unwrap_or(String::new())
}

/// Relies on serde_json::from_str::<serde_json::Value>: parses JSON text,
/// None when the text is not well-formed JSON or nests deeper than the
/// parser's recursion limit.
#[verifier::external_body]
fn parse_json(text: &str) -> (r: Option<serde_json::Value>)
    ensures
        match r {
            Some(v) => json_parse(text@) == Some(json_model(v)),
            None => json_parse(text@) is None,
        },
{
    serde_json::from_str(text).ok()
}

/// Relies on serde_json::Value::get with a string index: a member of a JSON
/// object, None when the member is absent or the value is not an object.
#[verifier::external_body]
fn json_get<'a>(value: &'a serde_json::Value, key: &str) -> (r: Option<
    &'a serde_json::Value,
>)
    ensures
        match r {
            Some(member) => member_of(json_model(*value), key@) == Some(json_model(*member)),
            None => member_of(json_model(*value), key@) is None,
        },
{
    value.get(key)
}

/// Relies on serde_json::Value::as_str: Some exactly for a JSON string.
#[verifier::external_body]
fn json_as_string(value: &serde_json::Value) -> (r: Option<String>)
    ensures
        match r {
            Some(text) => json_model(*value) == JsonModel::Str(text@),
            None => !(json_model(*value) is Str),
        },
{
    match value.as_str() {
        Some(text) => Some(text.to_string()),
        None => None,
    }
}

/// Relies on serde_json::Value::as_i64: Some exactly for an integer number
/// that fits a signed 64-bit amount.
#[verifier::external_body]
fn json_as_i64(value: &serde_json::Value) -> (r: Option<i64>)
    ensures
        match r {
            Some(amount) => json_model(*value) == JsonModel::Num(amount as int),
            None => amount_member(json_model(*value)) is None,
        },
{
    value.as_i64()
}

/// Relies on serde_json::Value::as_u64: Some exactly for a non-negative
/// integer number that fits an unsigned 64-bit quantity.
#[verifier::external_body]
fn json_as_u64(value: &serde_json::Value) -> (r: Option<u64>)
    ensures
        match r {
            Some(quantity) => json_model(*value) == JsonModel::Num(quantity as int),
            None => quantity_member(json_model(*value)) is None,
        },
{
    value.as_u64()
}

/// Relies on serde_json::Value::as_object and serde_json::Map iteration: the
/// members of a JSON object, whose keys are unique, each member carrying the
/// object's value under its key.
#[verifier::external_body]
fn json_object_entries(value: &serde_json::Value) -> (r: Option<
    Vec<(String, serde_json::Value)>,
>)
    ensures
        match r {
            Some(es) => json_model(*value) matches JsonModel::Obj(members) && (forall|
                i: int,
                j: int,
            |
                0 <= i < j < es@.len() ==> es@[i].0@ != es@[j].0@) && (forall|i: int|
                0 <= i < es@.len() ==> members.dom().contains(#[trigger] es@[i].0@)
                    && members[es@[i].0@] == json_model(es@[i].1)) && (forall|k: Seq<char>|
                #[trigger] members.dom().contains(k) ==> exists|i: int|
                    0 <= i < es@.len() && es@[i].0@ == k),
            None => !(json_model(*value) is Obj),
        },
{
    match value.as_object() {
        Some(members) => Some(
            members.iter().map(
                |member: (&String, &serde_json::Value)| (member.0.clone(), member.1.clone()),
            ).collect(),
        ),
        None => None,
    }
}

/// Relies on serde_json::Value::String: wraps text as a JSON string value.
#[verifier::external_body]
fn json_string_value(text: &str) -> (r: serde_json::Value)
    ensures
        json_model(r) == JsonModel::Str(text@),
{
    serde_json::Value::String(text.to_string())
}

/// Relies on serde_json's From<i64> for Value: wraps a signed amount as a
/// JSON number, held as an integer.
#[verifier::external_body]
fn json_i64_value(amount: i64) -> (r: serde_json::Value)
    ensures
        json_model(r) == JsonModel::Num(amount as int),
{
    serde_json::Value::from(amount)
}

/// Relies on serde_json's From<u64> for Value: wraps an unsigned quantity as
/// a JSON number, held as an integer.
#[verifier::external_body]
fn json_u64_value(quantity: u64) -> (r: serde_json::Value)
    ensures
        json_model(r) == JsonModel::Num(quantity as int),
{
    serde_json::Value::from(quantity)
}

/// Relies on serde_json::Map's FromIterator and Value::Object: a JSON object
/// with one member per entry.
#[verifier::external_body]
fn json_object_value(members: Vec<(String, serde_json::Value)>) -> (r: serde_json::Value)
    requires
        forall|i: int, j: int| 0 <= i < j < members@.len() ==> members@[i].0@ != members@[j].0@,
    ensures
        json_model(r) == JsonModel::Obj(members_model(members@)),
{
    serde_json::Value::Object(members.into_iter().collect())
}

/// Relies on serde_json::to_string over a Value, which never fails: for the
/// shapes configuration uses, the printed text is a function of the model,
/// and parses back to the same model as long as the value stays within the
/// parser's recursion limit of 127 nested containers.
#[verifier::external_body]
fn json_to_string(value: &serde_json::Value) -> (r: String)
    ensures
        defined(json_model(*value)) ==> r@ == json_text(json_model(*value)),
        defined(json_model(*value)) && depth_at_most(json_model(*value), 127) ==> json_parse(r@)
            == Some(json_model(*value)),
{
    serde_json::to_string(value).unwrap_or(String::new())
}

// ---------------------------------------------------------------------------
// Verified encoding and decoding over the model.
// ---------------------------------------------------------------------------

/// A ledger as a list of JSON object members, one per stored entry.
fn balance_members(b: &Balance) -> (members: Vec<(String, serde_json::Value)>)
    requires
        b.wf(),
    ensures
        forall|i: int, j: int| 0 <= i < j < members@.len() ==> members@[i].0@ != members@[j].0@,
        members_model(members@) == table_map(b@),
{
    let es = b.entries();
    let n = es.len();
    let mut members: Vec<(String, serde_json::Value)> = Vec::new();
    let mut i: usize = 0;
    while i < n
        invariant
            n == es@.len(),
            i <= n,
            distinct_keys(es@),
            nonzero_amounts(es@),
            members@.len() == i,
            forall|idx: int| 0 <= idx < i ==> members@[idx].0@ == es@[idx].0@,
            members_model(members@) == table_map(entries_map(es@.take(i as int))),
        decreases n - i,
    {
        let ghost old_members = members@;
        let member_value = json_i64_value(es[i].1);
        members.push((es[i].0.clone(), member_value));
        proof {
            assert(members@.drop_last() =~= old_members);
            assert(es@.take(i + 1).drop_last() =~= es@.take(i as int));
            assert(es@.take(i + 1).last() == es@[i as int]);
            assert(es@[i as int].1 != 0);
            assert(entries_map(es@.take(i + 1)) == entries_map(es@.take(i as int)).insert(
                es@[i as int].0@,
                es@[i as int].1 as int,
            ));
            assert(members_model(members@) == members_model(old_members).insert(
                es@[i as int].0@,
                JsonModel::Num(es@[i as int].1 as int),
            ));
            assert(table_map(entries_map(es@.take(i + 1))) =~= table_map(
                entries_map(es@.take(i as int)),
            ).insert(es@[i as int].0@, JsonModel::Num(es@[i as int].1 as int)));
        }
        i += 1;
    }
    proof {
        assert(es@.take(n as int) =~= es@);
    }
    members
}

/// A ledger as a JSON object value, for nesting inside a record.
fn balance_value(b: &Balance) -> (r: serde_json::Value)
    requires
        b.wf(),
    ensures
        json_model(r) == table_model(b@),
{
    json_object_value(balance_members(b))
}

/// A ledger read back from a JSON object value: exactly the objects whose
/// every member is an integer amount that fits 64 signed bits decode, to the
/// table they denote with explicit zeros normalized away.
fn balance_from_value(value: &serde_json::Value) -> (result: Result<Balance, DeserializationError>)
    ensures
        result is Ok <==> table_ok(json_model(*value)),
        result matches Ok(b) ==> b.wf() && b@ == table_val(json_model(*value)),
        result matches Err(e) ==> table_decode_err(json_model(*value), e),
{
    let ghost model = json_model(*value);
    let members = match json_object_entries(value) {
        None => {
            return Err(DeserializationError::Syntax);
        },
        Some(members) => members,
    };
    let ghost ms = model->Obj_0;
    let n = members.len();
    let mut entries: Vec<(String, i64)> = Vec::new();
    let mut i: usize = 0;
    while i < n
        invariant
            n == members@.len(),
            i <= n,
            model == json_model(*value),
            model matches JsonModel::Obj(mm) && mm == ms,
            forall|a: int, b: int| 0 <= a < b < members@.len() ==> members@[a].0@ != members@[b].0@,
            forall|a: int|
                0 <= a < members@.len() ==> ms.dom().contains(#[trigger] members@[a].0@)
                    && ms[members@[a].0@] == json_model(members@[a].1),
            forall|k: Seq<char>|
                #[trigger] ms.dom().contains(k) ==> exists|a: int|
                    0 <= a < members@.len() && members@[a].0@ == k,
            entries@.len() == i,
            forall|idx: int|
                0 <= idx < i ==> entries@[idx].0@ == members@[idx].0@ && amount_member(
                    ms[members@[idx].0@],
                ) == Some(entries@[idx].1 as int),
        decreases n - i,
    {
        let amount = match json_as_i64(&members[i].1) {
            None => {
                proof {
                    assert(amount_member(ms[members@[i as int].0@]) is None);
                }
                return Err(DeserializationError::InvalidField(members[i].0.clone()));
            },
            Some(amount) => amount,
        };
        entries.push((members[i].0.clone(), amount));
        i += 1;
    }
    proof {
        assert(distinct_keys(entries@));
        assert forall|k: Seq<char>|
            ms.dom().contains(k) implies amount_member(#[trigger] ms[k]) is Some by {
            let a = choose|a: int| 0 <= a < members@.len() && members@[a].0@ == k;
            assert(amount_member(ms[members@[a].0@]) == Some(entries@[a].1 as int));
        }
        assert(table_ok(model));
        lemma_entries_map_amounts(entries@);
        assert forall|k: Seq<char>| #[trigger] amount_of(entries_map(entries@), k) == amount_of(
            table_val(model),
            k,
        ) by {
            if entries_map(entries@).dom().contains(k) {
                assert(key_in_prefix(entries@, entries@.len() as int, k));
                let idx = choose|idx: int|
                    0 <= idx < entries@.len() && entries@[idx].0@ == k;
                assert(amount_of(entries_map(entries@), entries@[idx].0@) == entries@[idx].1
                    as int);
                assert(ms.dom().contains(k) && amount_val(ms[k]) == entries@[idx].1 as int);
            } else if ms.dom().contains(k) {
                let a = choose|a: int| 0 <= a < members@.len() && members@[a].0@ == k;
                assert(amount_of(entries_map(entries@), entries@[a].0@) == entries@[a].1 as int);
                assert(amount_val(ms[k]) == entries@[a].1 as int);
            }
        }
        assert(normalized(table_val(model)));
        lemma_amounts_determine(entries_map(entries@), table_val(model));
    }
    Ok(Balance::from_entries(entries))
}

impl Balance {
    /// This ledger as JSON configuration text: a plain key-to-amount object.
    /// Ledgers that denote the same mapping render as the same text, and the
    /// text parses back to this ledger's table.
    pub fn to_config(&self) -> (text: String)
        requires
            self.wf(),
        ensures
            text@ == balance_json(self@),
            json_parse(text@) == Some(table_model(self@)),
    {
        entries_to_json(self.entries())
    }

    /// Reads a ledger from JSON configuration text: exactly the texts that
    /// parse as a JSON object of integer amounts decode, to the table the
    /// text denotes; `Syntax` reports anything else, and `InvalidField`
    /// names an offending member whose amount is not an integer that fits 64
    /// signed bits.
    pub fn from_config(text: &str) -> (result: Result<Balance, DeserializationError>)
        ensures
            result is Ok <==> (json_parse(text@) matches Some(m) && table_ok(m)),
            result matches Ok(b) ==> b.wf() && (json_parse(text@) matches Some(m) && b@
                == table_val(m)),
            result matches Err(e) ==> match json_parse(text@) {
                None => err_shape(e) == DecodeErr::Syntax,
                Some(m) => table_decode_err(m, e),
            },
    {
        match parse_json(text) {
            None => Err(DeserializationError::Syntax),
            Some(value) => balance_from_value(&value),
        }
    }
}

/// A single-member JSON object holding a record's display name; the text
/// parses back to that record.
fn name_record_to_config(display_name: &str) -> (text: String)
    ensures
        text@ == json_text(name_record_model(display_name@)),
        json_parse(text@) == Some(name_record_model(display_name@)),
{
    let mut members: Vec<(String, serde_json::Value)> = Vec::new();
    let name_value = json_string_value(display_name);
    members.push(("display_name".to_owned(), name_value));
    let record = json_object_value(members);
    proof {
        assert(members@.drop_last() =~= Seq::<(String, serde_json::Value)>::empty());
        assert(members_model(Seq::<(String, serde_json::Value)>::empty()) == Map::<
            Seq<char>,
            JsonModel,
        >::empty());
        assert(members_model(members@) == Map::<Seq<char>, JsonModel>::empty().insert(
            "display_name"@,
            JsonModel::Str(display_name@),
        ));
        assert(json_model(record) == name_record_model(display_name@));
        assert(defined(JsonModel::Str(display_name@)));
        assert forall|k: Seq<char>|
            members_model(members@).dom().contains(k) implies defined(
            #[trigger] members_model(members@)[k],
        ) && depth_at_most(members_model(members@)[k], 126) by {
            assert(k == "display_name"@);
            assert(depth_at_most(JsonModel::Str(display_name@), 126));
        }
        assert(defined(name_record_model(display_name@)));
        assert(depth_at_most(name_record_model(display_name@), 127));
    }
    json_to_string(&record)
}

/// The display name read from a JSON object with a `display_name` member:
/// exactly the texts parsing as an object with a string under that key
/// decode; `Syntax`, `MissingField` and `InvalidField` report the others.
fn name_record_from_config(text: &str) -> (result: Result<String, DeserializationError>)
    ensures
        result is Ok <==> (json_parse(text@) matches Some(m) && spec_str_member(
            m,
            "display_name"@,
        ) is Ok),
        result matches Ok(s) ==> (json_parse(text@) matches Some(m) && spec_str_member(
            m,
            "display_name"@,
        ) == Ok::<Seq<char>, DecodeErr>(s@)),
        result matches Err(e) ==> match json_parse(text@) {
            None => err_shape(e) == DecodeErr::Syntax,
            Some(m) => spec_str_member(m, "display_name"@) matches Err(d) && err_shape(e) == d,
        },
{
    let value = match parse_json(text) {
        None => {
            return Err(DeserializationError::Syntax);
        },
        Some(value) => value,
    };
    let member = match json_get(&value, "display_name") {
        None => {
            return Err(DeserializationError::MissingField("display_name".to_owned()));
        },
        Some(member) => member,
    };
    match json_as_string(member) {
        None => Err(DeserializationError::InvalidField("display_name".to_owned())),
        Some(display_name) => Ok(display_name),
    }
}

impl WareType {
    /// This record as JSON configuration text; it parses back to the same
    /// record.
    pub fn to_config(&self) -> (text: String)
        ensures
            text@ == json_text(name_record_model(self.display_name@)),
            json_parse(text@) == Some(name_record_model(self.display_name@)),
    {
        name_record_to_config(self.display_name.as_str())
    }

    /// Reads a record from JSON configuration text: exactly the texts that
    /// parse as an object with a string `display_name` member decode, to the
    /// record holding that name.
    pub fn from_config(text: &str) -> (result: Result<WareType, DeserializationError>)
        ensures
            result is Ok <==> (json_parse(text@) matches Some(m) && spec_str_member(
                m,
                "display_name"@,
            ) is Ok),
            result matches Ok(w) ==> (json_parse(text@) matches Some(m) && spec_str_member(
                m,
                "display_name"@,
            ) == Ok::<Seq<char>, DecodeErr>(w.display_name@)),
            result matches Err(e) ==> match json_parse(text@) {
                None => err_shape(e) == DecodeErr::Syntax,
                Some(m) => spec_str_member(m, "display_name"@) matches Err(d) && err_shape(e) == d,
            },
    {
        match name_record_from_config(text) {
            Err(e) => Err(e),
            Ok(display_name) => Ok(WareType { display_name }),
        }
    }
}

impl BuildingType {
    /// This record as JSON configuration text; it parses back to the same
    /// record.
    pub fn to_config(&self) -> (text: String)
        ensures
            text@ == json_text(name_record_model(self.display_name@)),
            json_parse(text@) == Some(name_record_model(self.display_name@)),
    {
        name_record_to_config(self.display_name.as_str())
    }

    /// Reads a record from JSON configuration text: exactly the texts that
    /// parse as an object with a string `display_name` member decode, to the
    /// record holding that name.
    pub fn from_config(text: &str) -> (result: Result<BuildingType, DeserializationError>)
        ensures
            result is Ok <==> (json_parse(text@) matches Some(m) && spec_str_member(
                m,
                "display_name"@,
            ) is Ok),
            result matches Ok(b) ==> (json_parse(text@) matches Some(m) && spec_str_member(
                m,
                "display_name"@,
            ) == Ok::<Seq<char>, DecodeErr>(b.display_name@)),
            result matches Err(e) ==> match json_parse(text@) {
                None => err_shape(e) == DecodeErr::Syntax,
                Some(m) => spec_str_member(m, "display_name"@) matches Err(d) && err_shape(e) == d,
            },
    {
        match name_record_from_config(text) {
            Err(e) => Err(e),
            Ok(display_name) => Ok(BuildingType { display_name }),
        }
    }
}

impl PopulationClass {
    /// This record as JSON configuration text; it parses back to the same
    /// record.
    pub fn to_config(&self) -> (text: String)
        ensures
            text@ == json_text(name_record_model(self.display_name@)),
            json_parse(text@) == Some(name_record_model(self.display_name@)),
    {
        name_record_to_config(self.display_name.as_str())
    }

    /// Reads a record from JSON configuration text: exactly the texts that
    /// parse as an object with a string `display_name` member decode, to the
    /// record holding that name.
    pub fn from_config(text: &str) -> (result: Result<PopulationClass, DeserializationError>)
        ensures
            result is Ok <==> (json_parse(text@) matches Some(m) && spec_str_member(
                m,
                "display_name"@,
            ) is Ok),
            result matches Ok(p) ==> (json_parse(text@) matches Some(m) && spec_str_member(
                m,
                "display_name"@,
            ) == Ok::<Seq<char>, DecodeErr>(p.display_name@)),
            result matches Err(e) ==> match json_parse(text@) {
                None => err_shape(e) == DecodeErr::Syntax,
                Some(m) => spec_str_member(m, "display_name"@) matches Err(d) && err_shape(e) == d,
            },
    {
        match name_record_from_config(text) {
            Err(e) => Err(e),
            Ok(display_name) => Ok(PopulationClass { display_name }),
        }
    }
}

/// The cycle duration denoted by decoded `secs` and `nanos` quantities:
/// exactly the pairs whose nanosecond part stays below one whole second are
/// accepted.
pub fn cycle_from_quantities(secs: u64, nanos: u64) -> (result: Result<
    CycleDuration,
    DeserializationError,
>)
    ensures
        nanos < 1_000_000_000 ==> (result matches Ok(d) && d.wf() && d.secs == secs && d.nanos
            == nanos),
        nanos >= 1_000_000_000 ==> (result matches Err(e) && e matches
            DeserializationError::InvalidField(f) && f@ == "nanos"@),
{
    if nanos >= 1_000_000_000 {
        return Err(DeserializationError::InvalidField("nanos".to_owned()));
    }
    Ok(CycleDuration::new(secs, nanos as u32))
}

/// A cycle duration read back from a JSON object of `secs` and `nanos`:
/// exactly the values `spec_cycle` accepts decode, to that pair.
fn cycle_from_value(value: &serde_json::Value) -> (result: Result<
    CycleDuration,
    DeserializationError,
>)
    ensures
        result is Ok <==> spec_cycle(json_model(*value)) is Ok,
        result matches Ok(d) ==> d.wf() && spec_cycle(json_model(*value)) == Ok::<
            (int, int),
            DecodeErr,
        >((d.secs as int, d.nanos as int)),
        result matches Err(e) ==> (spec_cycle(json_model(*value)) matches Err(d) && err_shape(e)
            == d),
{
    let secs = match json_get(value, "secs") {
        None => {
            return Err(DeserializationError::MissingField("secs".to_owned()));
        },
        Some(member) => match json_as_u64(member) {
            None => {
                return Err(DeserializationError::InvalidField("secs".to_owned()));
            },
            Some(secs) => secs,
        },
    };
    let nanos = match json_get(value, "nanos") {
        None => {
            return Err(DeserializationError::MissingField("nanos".to_owned()));
        },
        Some(member) => match json_as_u64(member) {
            None => {
                return Err(DeserializationError::InvalidField("nanos".to_owned()));
            },
            Some(nanos) => nanos,
        },
    };
    cycle_from_quantities(secs, nanos)
}

impl Recipe {
    /// This recipe as JSON configuration text: an object with members
    /// `display_name`, `building`, `conversion` and `labor` (plain ledger
    /// tables), and `cycle` (an object of `secs` and `nanos`). The text is a
    /// function of those parts alone, and parses back to them.
    pub fn to_config(&self) -> (text: String)
        requires
            self.wf(),
        ensures
            text@ == json_text(
                recipe_model(
                    self.display_name@,
                    self.building@,
                    self.cycle.secs as int,
                    self.cycle.nanos as int,
                    self.conversion@,
                    self.labor@,
                ),
            ),
            json_parse(text@) == Some(
                recipe_model(
                    self.display_name@,
                    self.building@,
                    self.cycle.secs as int,
                    self.cycle.nanos as int,
                    self.conversion@,
                    self.labor@,
                ),
            ),
    {
        proof {
            reveal_strlit("secs");
            reveal_strlit("nanos");
            reveal_strlit("display_name");
            reveal_strlit("building");
            reveal_strlit("conversion");
            reveal_strlit("cycle");
            reveal_strlit("labor");
        }
        let ghost the_model = recipe_model(
            self.display_name@,
            self.building@,
            self.cycle.secs as int,
            self.cycle.nanos as int,
            self.conversion@,
            self.labor@,
        );
        let mut cycle_members: Vec<(String, serde_json::Value)> = Vec::new();
        let secs_value = json_u64_value(self.cycle.secs);
        let nanos_value = json_u64_value(self.cycle.nanos as u64);
        cycle_members.push(("secs".to_owned(), secs_value));
        let ghost cycle_one = cycle_members@;
        cycle_members.push(("nanos".to_owned(), nanos_value));
        proof {
            assert forall|i: int, j: int|
                0 <= i < j < cycle_members@.len() implies cycle_members@[i].0@
                != cycle_members@[j].0@ by {
                assert(cycle_members@[0].0@ == "secs"@);
                assert(cycle_members@[1].0@ == "nanos"@);
                assert("secs"@.len() != "nanos"@.len());
            }
            assert(cycle_one.drop_last() =~= Seq::<(String, serde_json::Value)>::empty());
            assert(cycle_members@.drop_last() =~= cycle_one);
            assert(members_model(Seq::<(String, serde_json::Value)>::empty()) == Map::<
                Seq<char>,
                JsonModel,
            >::empty());
            assert(members_model(cycle_one) == Map::<Seq<char>, JsonModel>::empty().insert(
                "secs"@,
                JsonModel::Num(self.cycle.secs as int),
            ));
            assert(members_model(cycle_members@) == Map::<Seq<char>, JsonModel>::empty().insert(
                "secs"@,
                JsonModel::Num(self.cycle.secs as int),
            ).insert("nanos"@, JsonModel::Num(self.cycle.nanos as int)));
        }
        let cycle_value = json_object_value(cycle_members);
        let conversion_value = balance_value(&self.conversion);
        let labor_value = balance_value(&self.labor);
        let display_value = json_string_value(self.display_name.as_str());
        let building_value = json_string_value(self.building.as_str());
        let mut members: Vec<(String, serde_json::Value)> = Vec::new();
        members.push(("display_name".to_owned(), display_value));
        let ghost m1 = members@;
        members.push(("building".to_owned(), building_value));
        let ghost m2 = members@;
        members.push(("conversion".to_owned(), conversion_value));
        let ghost m3 = members@;
        members.push(("cycle".to_owned(), cycle_value));
        let ghost m4 = members@;
        members.push(("labor".to_owned(), labor_value));
        proof {
            assert forall|i: int, j: int|
                0 <= i < j < members@.len() implies members@[i].0@ != members@[j].0@ by {
                assert(members@[0].0@ == "display_name"@);
                assert(members@[1].0@ == "building"@);
                assert(members@[2].0@ == "conversion"@);
                assert(members@[3].0@ == "cycle"@);
                assert(members@[4].0@ == "labor"@);
                assert("display_name"@.len() == 12);
                assert("building"@.len() == 8);
                assert("conversion"@.len() == 10);
                assert("cycle"@.len() == 5);
                assert("labor"@.len() == 5);
                assert("cycle"@[0] != "labor"@[0]);
            }
            assert(m1.drop_last() =~= Seq::<(String, serde_json::Value)>::empty());
            assert(m2.drop_last() =~= m1);
            assert(m3.drop_last() =~= m2);
            assert(m4.drop_last() =~= m3);
            assert(members@.drop_last() =~= m4);
            assert(members_model(Seq::<(String, serde_json::Value)>::empty()) == Map::<
                Seq<char>,
                JsonModel,
            >::empty());
            assert(members_model(m1) == Map::<Seq<char>, JsonModel>::empty().insert(
                "display_name"@,
                JsonModel::Str(self.display_name@),
            ));
            assert(members_model(m2) == members_model(m1).insert(
                "building"@,
                JsonModel::Str(self.building@),
            ));
            assert(members_model(m3) == members_model(m2).insert(
                "conversion"@,
                table_model(self.conversion@),
            ));
            assert(members_model(m4) == members_model(m3).insert(
                "cycle"@,
                cycle_model(self.cycle.secs as int, self.cycle.nanos as int),
            ));
            assert(members_model(members@) == members_model(m4).insert(
                "labor"@,
                table_model(self.labor@),
            ));
            assert(JsonModel::Obj(members_model(members@)) == the_model);
        }
        let record = json_object_value(members);
        proof {
            lemma_recipe_model_defined(
                self.display_name@,
                self.building@,
                self.cycle.secs as int,
                self.cycle.nanos as int,
                self.conversion@,
                self.labor@,
            );
        }
        json_to_string(&record)
    }

    /// Reads a recipe from JSON configuration text. Every member is
    /// required: exactly the texts whose parse `recipe_shape_ok` accepts
    /// decode, to the recipe the record denotes; in particular, a record
    /// missing its `cycle` does not get a default duration, it fails with
    /// `MissingField`.
    pub fn from_config(text: &str) -> (result: Result<Recipe, DeserializationError>)
        ensures
            result is Ok <==> (json_parse(text@) matches Some(m) && recipe_shape_ok(m)),
            result matches Ok(r) ==> r.wf() && (json_parse(text@) matches Some(m)
                && recipe_fields_ok(m, r)),
            result matches Err(e) ==> match json_parse(text@) {
                None => err_shape(e) == DecodeErr::Syntax,
                Some(m) => recipe_decode_err(m, e),
            },
    {
        let value = match parse_json(text) {
            None => {
                return Err(DeserializationError::Syntax);
            },
            Some(value) => value,
        };
        let display_name = match json_get(&value, "display_name") {
            None => {
                return Err(DeserializationError::MissingField("display_name".to_owned()));
            },
            Some(member) => match json_as_string(member) {
                None => {
                    return Err(DeserializationError::InvalidField("display_name".to_owned()));
                },
                Some(display_name) => display_name,
            },
        };
        let building = match json_get(&value, "building") {
            None => {
                return Err(DeserializationError::MissingField("building".to_owned()));
            },
            Some(member) => match json_as_string(member) {
                None => {
                    return Err(DeserializationError::InvalidField("building".to_owned()));
                },
                Some(building) => building,
            },
        };
        let cycle = match json_get(&value, "cycle") {
            None => {
                return Err(DeserializationError::MissingField("cycle".to_owned()));
            },
            Some(member) => match cycle_from_value(member) {
                Err(e) => {
                    return Err(e);
                },
                Ok(cycle) => cycle,
            },
        };
        let conversion = match json_get(&value, "conversion") {
            None => {
                return Err(DeserializationError::MissingField("conversion".to_owned()));
            },
            Some(member) => match balance_from_value(member) {
                Err(e) => {
                    return Err(e);
                },
                Ok(conversion) => conversion,
            },
        };
        let labor = match json_get(&value, "labor") {
            None => {
                return Err(DeserializationError::MissingField("labor".to_owned()));
            },
            Some(member) => match balance_from_value(member) {
                Err(e) => {
                    return Err(e);
                },
                Ok(labor) => labor,
            },
        };
        Ok(Recipe::new(display_name, building, conversion, cycle, labor))
    }
}

// ---------------------------------------------------------------------------
// Round-trip laws: what the library prints, its decoders accept and map back
// to the same value.
// ---------------------------------------------------------------------------

/// A mapping's ledger table is built of defined members only, and nests one
/// object deep.
proof fn lemma_table_model_defined(m: Map<Seq<char>, int>)
    ensures
        defined(table_model(m)),
        depth_at_most(table_model(m), 126),
{
    assert forall|k: Seq<char>|
        table_map(m).dom().contains(k) implies defined(#[trigger] table_map(m)[k])
        && depth_at_most(table_map(m)[k], 125) by {
        assert(table_map(m)[k] == JsonModel::Num(m[k]));
        assert(defined(JsonModel::Num(m[k])));
        assert(depth_at_most(JsonModel::Num(m[k]), 125));
    }
}

/// A recipe's record is built of defined members only, and nests well
/// within the parser's recursion limit.
proof fn lemma_recipe_model_defined(
    display_name: Seq<char>,
    building: Seq<char>,
    secs: int,
    nanos: int,
    conversion: Map<Seq<char>, int>,
    labor: Map<Seq<char>, int>,
)
    ensures
        defined(recipe_model(display_name, building, secs, nanos, conversion, labor)),
        depth_at_most(recipe_model(display_name, building, secs, nanos, conversion, labor), 127),
{
    lemma_table_model_defined(conversion);
    lemma_table_model_defined(labor);
    let cm = cycle_model(secs, nanos);
    assert forall|k: Seq<char>|
        cm->Obj_0.dom().contains(k) implies defined(#[trigger] cm->Obj_0[k]) && depth_at_most(
        cm->Obj_0[k],
        125,
    ) by {
        if k == "nanos"@ {
            assert(cm->Obj_0[k] == JsonModel::Num(nanos));
        } else {
            assert(cm->Obj_0[k] == JsonModel::Num(secs));
        }
    }
    assert(defined(cm));
    assert(depth_at_most(cm, 126));
    let rm = recipe_model(display_name, building, secs, nanos, conversion, labor);
    assert forall|k: Seq<char>|
        rm->Obj_0.dom().contains(k) implies defined(#[trigger] rm->Obj_0[k]) && depth_at_most(
        rm->Obj_0[k],
        126,
    ) by {
        assert(defined(JsonModel::Str(display_name)));
        assert(defined(JsonModel::Str(building)));
        assert(depth_at_most(JsonModel::Str(display_name), 126));
        assert(depth_at_most(JsonModel::Str(building), 126));
        if k == "labor"@ {
            assert(rm->Obj_0[k] == table_model(labor));
        } else if k == "cycle"@ {
            assert(rm->Obj_0[k] == cycle_model(secs, nanos));
        } else if k == "conversion"@ {
            assert(rm->Obj_0[k] == table_model(conversion));
        } else if k == "building"@ {
            assert(rm->Obj_0[k] == JsonModel::Str(building));
        } else {
            assert(rm->Obj_0[k] == JsonModel::Str(display_name));
        }
    }
    assert(defined(rm));
    assert(depth_at_most(rm, 127));
}

/// Law: a printed ledger table decodes back to the very mapping it printed.
pub proof fn lemma_table_round_trip(m: Map<Seq<char>, int>)
    requires
        normalized(m),
        amounts_fit(m),
    ensures
        table_ok(table_model(m)),
        table_val(table_model(m)) == m,
{
    assert forall|k: Seq<char>|
        table_map(m).dom().contains(k) implies amount_member(#[trigger] table_map(m)[k])
        is Some by {
        assert(table_map(m)[k] == JsonModel::Num(m[k]));
        assert(fits_i64(m[k]));
    }
    assert forall|k: Seq<char>|
        table_val(table_model(m)).dom().contains(k) <==> #[trigger] m.dom().contains(k) by {
        if m.dom().contains(k) {
            assert(table_map(m)[k] == JsonModel::Num(m[k]));
            assert(m[k] != 0);
        }
    }
    assert forall|k: Seq<char>|
        m.dom().contains(k) implies #[trigger] table_val(table_model(m))[k] == m[k] by {
        assert(table_map(m)[k] == JsonModel::Num(m[k]));
    }
    assert(table_val(table_model(m)) =~= m);
}

/// Law: a printed name record decodes back to the same display name.
pub proof fn lemma_name_record_round_trip(name: Seq<char>)
    ensures
        spec_str_member(name_record_model(name), "display_name"@) == Ok::<Seq<char>, DecodeErr>(
            name,
        ),
{
}

/// Law: a printed recipe record is well-shaped and decodes back to the very
/// parts it printed.
pub proof fn lemma_recipe_round_trip(
    display_name: Seq<char>,
    building: Seq<char>,
    secs: int,
    nanos: int,
    conversion: Map<Seq<char>, int>,
    labor: Map<Seq<char>, int>,
)
    requires
        0 <= secs <= u64::MAX,
        0 <= nanos < 1_000_000_000,
        normalized(conversion),
        amounts_fit(conversion),
        normalized(labor),
        amounts_fit(labor),
    ensures
        recipe_shape_ok(recipe_model(display_name, building, secs, nanos, conversion, labor)),
        spec_str_member(
            recipe_model(display_name, building, secs, nanos, conversion, labor),
            "display_name"@,
        ) == Ok::<Seq<char>, DecodeErr>(display_name),
        spec_str_member(
            recipe_model(display_name, building, secs, nanos, conversion, labor),
            "building"@,
        ) == Ok::<Seq<char>, DecodeErr>(building),
        member_of(
            recipe_model(display_name, building, secs, nanos, conversion, labor),
            "cycle"@,
        ) matches Some(c) && spec_cycle(c) == Ok::<(int, int), DecodeErr>((secs, nanos)),
        member_of(
            recipe_model(display_name, building, secs, nanos, conversion, labor),
            "conversion"@,
        ) matches Some(cv) && table_val(cv) == conversion,
        member_of(
            recipe_model(display_name, building, secs, nanos, conversion, labor),
            "labor"@,
        ) matches Some(lb) && table_val(lb) == labor,
{
    reveal_strlit("secs");
    reveal_strlit("nanos");
    reveal_strlit("display_name");
    reveal_strlit("building");
    reveal_strlit("conversion");
    reveal_strlit("cycle");
    reveal_strlit("labor");
    assert("display_name"@.len() == 12);
    assert("building"@.len() == 8);
    assert("conversion"@.len() == 10);
    assert("cycle"@.len() == 5);
    assert("labor"@.len() == 5);
    assert("secs"@.len() == 4);
    assert("cycle"@[0] != "labor"@[0]);
    lemma_table_round_trip(conversion);
    lemma_table_round_trip(labor);
}

} // verus!
