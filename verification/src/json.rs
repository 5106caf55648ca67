//! A plain JSON value model: parsed values cross the `serde_json` boundary
//! once and all logic over them is verified. Ghost views mirror the values
//! so contracts can speak about their structure.

use vstd::prelude::*;

verus! {

/// Ghost mirror of a JSON value.
pub enum JsonVal {
    Null,
    Bool(bool),
    Int(i64),
    UInt(u64),
    NumText(Seq<char>),
    Text(Seq<char>),
    Array(Seq<JsonVal>),
    Object(Seq<(Seq<char>, JsonVal)>),
}

/// A JSON value. Numbers outside `i64`/`u64` are carried as their numeral
/// text; object members keep their order.
#[derive(Debug)]
pub enum JsonValue {
    Null,
    Bool(bool),
    Int(i64),
    UInt(u64),
    NumText(String),
    Text(String),
    Array(Vec<JsonValue>),
    Object(Vec<(String, JsonValue)>),
}

impl View for JsonValue {
    type V = JsonVal;

    open spec fn view(&self) -> JsonVal
        decreases self,
    {
        match self {
            JsonValue::Null => JsonVal::Null,
            JsonValue::Bool(b) => JsonVal::Bool(*b),
            JsonValue::Int(i) => JsonVal::Int(*i),
            JsonValue::UInt(u) => JsonVal::UInt(*u),
            JsonValue::NumText(s) => JsonVal::NumText(s@),
            JsonValue::Text(s) => JsonVal::Text(s@),
            JsonValue::Array(xs) => JsonVal::Array(view_arr(xs@)),
            JsonValue::Object(ps) => JsonVal::Object(view_obj(ps@)),
        }
    }
}

/// Views of the elements of an array payload.
pub open spec fn view_arr(xs: Seq<JsonValue>) -> Seq<JsonVal>
    decreases xs,
{
    if xs.len() == 0 {
        Seq::empty()
    } else {
        view_arr(xs.drop_last()).push(xs.last()@)
    }
}

/// Views of the members of an object payload.
pub open spec fn view_obj(ps: Seq<(String, JsonValue)>) -> Seq<(Seq<char>, JsonVal)>
    decreases ps,
{
    if ps.len() == 0 {
        Seq::empty()
    } else {
        view_obj(ps.drop_last()).push((ps.last().0@, ps.last().1@))
    }
}

pub proof fn lemma_view_arr_index(xs: Seq<JsonValue>)
    ensures
        view_arr(xs).len() == xs.len(),
        forall|i: int| 0 <= i < xs.len() ==> #[trigger] view_arr(xs)[i] == xs[i]@,
    decreases xs.len(),
{
    if xs.len() > 0 {
        lemma_view_arr_index(xs.drop_last());
        assert(view_arr(xs) == view_arr(xs.drop_last()).push(xs.last()@));
        assert forall|i: int| 0 <= i < xs.len() implies #[trigger] view_arr(xs)[i] == xs[i]@ by {
            if i < xs.len() - 1 {
                assert(view_arr(xs)[i] == view_arr(xs.drop_last())[i]);
                assert(xs.drop_last()[i] == xs[i]);
            }
        }
    }
}

pub proof fn lemma_view_obj_index(ps: Seq<(String, JsonValue)>)
    ensures
        view_obj(ps).len() == ps.len(),
        forall|i: int| 0 <= i < ps.len() ==> #[trigger] view_obj(ps)[i] == (ps[i].0@, ps[i].1@),
    decreases ps.len(),
{
    if ps.len() > 0 {
        lemma_view_obj_index(ps.drop_last());
        assert(view_obj(ps) == view_obj(ps.drop_last()).push((ps.last().0@, ps.last().1@)));
        assert forall|i: int|
            0 <= i < ps.len() implies #[trigger] view_obj(ps)[i] == (ps[i].0@, ps[i].1@) by {
            if i < ps.len() - 1 {
                assert(view_obj(ps)[i] == view_obj(ps.drop_last())[i]);
                assert(ps.drop_last()[i] == ps[i]);
            }
        }
    }
}

#[verifier::external_type_specification]
#[verifier::external_body]
pub struct ExSerdeValue(serde_json::Value);

/// Relies on `serde_json::from_str` and the `serde_json::Value` accessors:
/// parses JSON text into the plain model, with numbers mapped to `i64`,
/// `u64`, or their numeral text. Errors are rendered to their display text.
#[verifier::external_body]
pub fn parse_json(s: &str) -> (r: Result<JsonValue, String>) {
    match serde_json::from_str::<serde_json::Value>(s) {
        Ok(v) => Ok(json_plain(&v)),
        Err(e) => Err(e.to_string()),
    }
}

/// Relies on the `serde_json::Value` accessors: maps each variant of the
/// parsed value onto the plain model, moving fields only.
#[verifier::external_body]
fn json_plain(v: &serde_json::Value) -> (r: JsonValue) {
    match v {
        serde_json::Value::Null => JsonValue::Null,
        serde_json::Value::Bool(b) => JsonValue::Bool(*b),
        serde_json::Value::Number(n) => match (n.as_i64(), n.as_u64()) {
            (Some(i), _) => JsonValue::Int(i),
            (None, Some(u)) => JsonValue::UInt(u),
            _ => JsonValue::NumText(n.to_string()),
        },
        serde_json::Value::String(s) => JsonValue::Text(s.clone()),
        serde_json::Value::Array(a) => JsonValue::Array(a.iter().map(json_plain).collect()),
        serde_json::Value::Object(m) => JsonValue::Object(
            m.iter().map(|(k, x)| (k.clone(), json_plain(x))).collect(),
        ),
    }
}

/// What `serde_json::to_string` produces for a value: a function of the
/// value alone (object keys are emitted in `serde_json`'s sorted map order).
pub uninterp spec fn json_text_of(v: JsonVal) -> Seq<char>;

/// Relies on `serde_json::to_string`: serializes the value; the result
/// depends on the value alone.
#[verifier::external_body]
pub fn json_to_string(v: &JsonValue) -> (r: String)
    ensures
        r@ == json_text_of(v@),
{
    match serde_json::to_string(&json_unplain(v)) {
        Ok(s) => s,
        Err(_) => String::new(),
    }
}

/// Relies on the `serde_json::Value` constructors: maps each variant of the
/// plain model back onto `serde_json::Value`, moving fields only.
#[verifier::external_body]
fn json_unplain(v: &JsonValue) -> (r: serde_json::Value) {
    match v {
        JsonValue::Null => serde_json::Value::Null,
        JsonValue::Bool(b) => serde_json::Value::Bool(*b),
        JsonValue::Int(i) => serde_json::Value::from(*i),
        JsonValue::UInt(u) => serde_json::Value::from(*u),
        JsonValue::NumText(s) => serde_json::from_str(s).unwrap_or(serde_json::Value::Null),
        JsonValue::Text(s) => serde_json::Value::String(s.clone()),
        JsonValue::Array(xs) => serde_json::Value::Array(xs.iter().map(json_unplain).collect()),
        JsonValue::Object(ps) => serde_json::Value::Object(
            ps.iter().map(|(k, x)| (k.clone(), json_unplain(x))).collect(),
        ),
    }
}

/// The first member under `key`, when the value is an object that has it.
pub open spec fn obj_field_of(v: JsonVal, key: Seq<char>) -> Option<JsonVal> {
    match v {
        JsonVal::Object(ps) => {
            let i = first_key_idx(ps, key, 0);
            if i == -1 {
                None
            } else {
                Some(ps[i].1)
            }
        },
        _ => None,
    }
}

/// The field's string payload, when it is a string.
pub open spec fn obj_str_of(v: JsonVal, key: Seq<char>) -> Option<Seq<char>> {
    match obj_field_of(v, key) {
        Some(JsonVal::Text(s)) => Some(s),
        _ => None,
    }
}

/// The field's boolean payload, when it is a boolean.
pub open spec fn obj_bool_of(v: JsonVal, key: Seq<char>) -> Option<bool> {
    match obj_field_of(v, key) {
        Some(JsonVal::Bool(b)) => Some(b),
        _ => None,
    }
}

/// The field's unsigned payload, when it is a non-negative integer.
pub open spec fn obj_u64_of(v: JsonVal, key: Seq<char>) -> Option<u64> {
    match obj_field_of(v, key) {
        Some(JsonVal::UInt(u)) => Some(u),
        Some(JsonVal::Int(i)) => if i >= 0 {
            Some(i as u64)
        } else {
            None
        },
        _ => None,
    }
}

/// The field's elements, when it is an array of strings.
pub open spec fn obj_str_list_of(v: JsonVal, key: Seq<char>) -> Option<Seq<Seq<char>>> {
    match obj_field_of(v, key) {
        Some(JsonVal::Array(xs)) => if forall|k: int| 0 <= k < xs.len() ==> (#[trigger] xs[k]) is Text {
            Some(Seq::new(xs.len(), |k: int| xs[k]->Text_0))
        } else {
            None
        },
        _ => None,
    }
}

/// First member with the given key, if the value is an object holding one.
pub fn obj_get<'a>(v: &'a JsonValue, key: &str) -> (r: Option<&'a JsonValue>)
    ensures
        match r {
            Some(x) => obj_field_of(v@, key@) == Some(x@),
            None => obj_field_of(v@, key@) is None,
        },
{
    match v {
        JsonValue::Object(ps) => {
            match member_index(ps, key) {
                Some(i) => {
                    proof {
                        lemma_view_obj_index(ps@);
                        assert(view_obj(ps@)[i as int].1 == ps@[i as int].1@);
                    }
                    Some(&ps[i].1)
                },
                None => None,
            }
        },
        _ => None,
    }
}

/// The string field, cloned, when present and a string.
pub fn obj_str_field(v: &JsonValue, key: &str) -> (r: Option<String>)
    ensures
        match r {
            Some(s) => obj_str_of(v@, key@) == Some(s@),
            None => obj_str_of(v@, key@) is None,
        },
{
    match obj_get(v, key) {
        Some(JsonValue::Text(s)) => Some(s.clone()),
        _ => None,
    }
}

/// The boolean field, when present and a boolean.
pub fn obj_bool_field(v: &JsonValue, key: &str) -> (r: Option<bool>)
    ensures
        r == obj_bool_of(v@, key@),
{
    match obj_get(v, key) {
        Some(JsonValue::Bool(b)) => Some(*b),
        _ => None,
    }
}

/// The unsigned field, when present and a non-negative integer.
pub fn obj_u64_field(v: &JsonValue, key: &str) -> (r: Option<u64>)
    ensures
        r == obj_u64_of(v@, key@),
{
    match obj_get(v, key) {
        Some(JsonValue::UInt(u)) => Some(*u),
        Some(JsonValue::Int(i)) => {
            if *i >= 0 {
                Some(*i as u64)
            } else {
                None
            }
        },
        _ => None,
    }
}

/// The string-array field, cloned, when present and an array of strings.
#[verifier::loop_isolation(false)]
pub fn obj_str_list_field(v: &JsonValue, key: &str) -> (r: Option<Vec<String>>)
    ensures
        match r {
            Some(xs) => obj_str_list_of(v@, key@) == Some(xs.deep_view()),
            None => obj_str_list_of(v@, key@) is None,
        },
{
    let arr = match obj_get(v, key) {
        Some(JsonValue::Array(xs)) => xs,
        _ => {
            return None;
        },
    };
    proof {
        lemma_view_arr_index(arr@);
    }
    let ghost gxs = view_arr(arr@);
    let mut out: Vec<String> = Vec::new();
    let mut i: usize = 0;
    while i < arr.len()
        invariant
            i <= arr@.len(),
            out@.len() == i,
            forall|k: int| 0 <= k < i ==> (#[trigger] gxs[k]) is Text,
            forall|k: int| 0 <= k < i ==> #[trigger] out.deep_view()[k] == gxs[k]->Text_0,
        decreases arr@.len() - i,
    {
        match &arr[i] {
            JsonValue::Text(s) => {
                let ghost o0 = out.deep_view();
                out.push(s.clone());
                proof {
                    assert(gxs[i as int] == arr@[i as int]@);
                    assert(out.deep_view() =~~= o0.push(s@));
                }
            },
            _ => {
                proof {
                    assert(gxs[i as int] == arr@[i as int]@);
                    assert(!((gxs[i as int]) is Text));
                }
                return None;
            },
        }
        i = i + 1;
    }
    proof {
        assert(obj_str_list_of(v@, key@) matches Some(es) && es =~= out.deep_view());
    }
    Some(out)
}

/// The member list of an object view (empty for other values); helper for
/// stating contracts without rebinding the payload.
pub open spec fn ps_at(v: JsonVal, i: int) -> (Seq<char>, JsonVal) {
    match v {
        JsonVal::Object(ps) => ps[i],
        _ => (Seq::empty(), JsonVal::Null),
    }
}

/// A JSON type tag accepted by the tool schema subset.
pub open spec fn is_supported_type_name(s: Seq<char>) -> bool {
    ||| s == "object"@
    ||| s == "array"@
    ||| s == "string"@
    ||| s == "number"@
    ||| s == "integer"@
    ||| s == "boolean"@
}

/// Index of the first member with this key, or `-1`.
pub open spec fn first_key_idx(ps: Seq<(Seq<char>, JsonVal)>, key: Seq<char>, k: int) -> int
    decreases ps.len() - k,
{
    if k < 0 || k >= ps.len() {
        -1
    } else if ps[k].0 == key {
        k
    } else {
        first_key_idx(ps, key, k + 1)
    }
}

/// The value of the first member with this key, if any.
pub open spec fn member_val(ps: Seq<(Seq<char>, JsonVal)>, key: Seq<char>) -> Option<JsonVal> {
    let i = first_key_idx(ps, key, 0);
    if i == -1 {
        None
    } else {
        Some(ps[i].1)
    }
}

/// A key whose member value is sanitized in place during the first pass.
pub open spec fn is_combinator_key(k: Seq<char>) -> bool {
    ||| k == "items"@
    ||| k == "oneOf"@
    ||| k == "anyOf"@
    ||| k == "allOf"@
    ||| k == "prefixItems"@
}

/// Pass over an object's members: nested schema holders are sanitized
/// recursively, and — when the schema's decided type is `object` — so is a
/// non-boolean `additionalProperties`; everything else is untouched.
pub open spec fn sanitize_members(ps: Seq<(Seq<char>, JsonVal)>, obj_ty: bool) -> Seq<
    (Seq<char>, JsonVal),
>
    decreases ps,
{
    if ps.len() == 0 {
        Seq::empty()
    } else {
        let (k, x) = ps.last();
        let y = if is_combinator_key(k) {
            sanitize_spec(x)
        } else if k == "properties"@ {
            match x {
                JsonVal::Object(props) => JsonVal::Object(sanitize_all_members(props)),
                _ => x,
            }
        } else if k == "additionalProperties"@ && obj_ty && !(x is Bool) {
            sanitize_spec(x)
        } else {
            x
        };
        sanitize_members(ps.drop_last(), obj_ty).push((k, y))
    }
}

/// Sanitize the value of every member (the `properties` map).
pub open spec fn sanitize_all_members(ps: Seq<(Seq<char>, JsonVal)>) -> Seq<(Seq<char>, JsonVal)>
    decreases ps,
{
    if ps.len() == 0 {
        Seq::empty()
    } else {
        sanitize_all_members(ps.drop_last()).push((ps.last().0, sanitize_spec(ps.last().1)))
    }
}

/// The first supported type name in a `type` union array, if any.
pub open spec fn first_supported(ts: Seq<JsonVal>, k: int) -> Option<Seq<char>>
    decreases ts.len() - k,
{
    if k < 0 || k >= ts.len() {
        None
    } else if ts[k] matches JsonVal::Text(t) && is_supported_type_name(t) {
        match ts[k] {
            JsonVal::Text(t) => Some(t),
            _ => None,
        }
    } else {
        first_supported(ts, k + 1)
    }
}

/// The type tag an object schema ends up with: an explicit string type; else
/// the first supported name of a union; else inferred from the members; else
/// `string`.
pub open spec fn decided_type(ps: Seq<(Seq<char>, JsonVal)>) -> Seq<char> {
    match member_val(ps, "type"@) {
        Some(JsonVal::Text(t)) => t,
        Some(JsonVal::Array(ts)) => match first_supported(ts, 0) {
            Some(t) => t,
            None => inferred_type(ps),
        },
        _ => inferred_type(ps),
    }
}

pub open spec fn inferred_type(ps: Seq<(Seq<char>, JsonVal)>) -> Seq<char> {
    if member_val(ps, "properties"@) is Some || member_val(ps, "required"@) is Some || member_val(
        ps,
        "additionalProperties"@,
    ) is Some {
        "object"@
    } else if member_val(ps, "items"@) is Some || member_val(ps, "prefixItems"@) is Some {
        "array"@
    } else if member_val(ps, "enum"@) is Some || member_val(ps, "const"@) is Some || member_val(
        ps,
        "format"@,
    ) is Some {
        "string"@
    } else if member_val(ps, "minimum"@) is Some || member_val(ps, "maximum"@) is Some
        || member_val(ps, "exclusiveMinimum"@) is Some || member_val(ps, "exclusiveMaximum"@)
        is Some || member_val(ps, "multipleOf"@) is Some {
        "number"@
    } else {
        "string"@
    }
}

/// Replace the first member with this key, or append one.
pub open spec fn obj_set(
    ps: Seq<(Seq<char>, JsonVal)>,
    key: Seq<char>,
    val: JsonVal,
) -> Seq<(Seq<char>, JsonVal)> {
    let i = first_key_idx(ps, key, 0);
    if i == -1 {
        ps.push((key, val))
    } else {
        ps.update(i, (key, val))
    }
}

pub open spec fn string_type_obj() -> JsonVal {
    JsonVal::Object(seq![("type"@, JsonVal::Text("string"@))])
}

/// Sanitized form of a schema: boolean schemas become permissive strings,
/// arrays are sanitized element-wise, and object schemas get an explicit
/// `type`, a `properties` map when they are objects, and `items` when they
/// are arrays.
pub open spec fn sanitize_spec(v: JsonVal) -> JsonVal
    decreases v,
{
    match v {
        JsonVal::Bool(_) => string_type_obj(),
        JsonVal::Array(xs) => JsonVal::Array(sanitize_arr(xs)),
        JsonVal::Object(ps) => {
            let ty = decided_type(ps);
            let ps1 = sanitize_members(ps, ty == "object"@);
            let ps2 = obj_set(ps1, "type"@, JsonVal::Text(ty));
            let ps3 = if ty == "object"@ && member_val(ps2, "properties"@) is None {
                obj_set(ps2, "properties"@, JsonVal::Object(Seq::empty()))
            } else {
                ps2
            };
            let ps4 = if ty == "array"@ && member_val(ps3, "items"@) is None {
                obj_set(ps3, "items"@, string_type_obj())
            } else {
                ps3
            };
            JsonVal::Object(ps4)
        },
        _ => v,
    }
}

pub open spec fn sanitize_arr(xs: Seq<JsonVal>) -> Seq<JsonVal>
    decreases xs,
{
    if xs.len() == 0 {
        Seq::empty()
    } else {
        sanitize_arr(xs.drop_last()).push(sanitize_spec(xs.last()))
    }
}

/// How one member is rewritten by `sanitize_members`.
pub open spec fn member_transform(k: Seq<char>, x: JsonVal, obj_ty: bool) -> JsonVal {
    if is_combinator_key(k) {
        sanitize_spec(x)
    } else if k == "properties"@ {
        match x {
            JsonVal::Object(props) => JsonVal::Object(sanitize_all_members(props)),
            _ => x,
        }
    } else if k == "additionalProperties"@ && obj_ty && !(x is Bool) {
        sanitize_spec(x)
    } else {
        x
    }
}

pub proof fn lemma_sanitize_members_index(ps: Seq<(Seq<char>, JsonVal)>, obj_ty: bool)
    ensures
        sanitize_members(ps, obj_ty).len() == ps.len(),
        forall|i: int|
            0 <= i < ps.len() ==> #[trigger] sanitize_members(ps, obj_ty)[i] == (
            ps[i].0,
            member_transform(ps[i].0, ps[i].1, obj_ty),
            ),
    decreases ps.len(),
{
    if ps.len() > 0 {
        lemma_sanitize_members_index(ps.drop_last(), obj_ty);
        assert(sanitize_members(ps, obj_ty) == sanitize_members(ps.drop_last(), obj_ty).push(
            (ps.last().0, member_transform(ps.last().0, ps.last().1, obj_ty)),
        ));
        assert forall|i: int|
            0 <= i < ps.len() implies #[trigger] sanitize_members(ps, obj_ty)[i] == (
        ps[i].0,
        member_transform(ps[i].0, ps[i].1, obj_ty),
        ) by {
            if i < ps.len() - 1 {
                assert(ps.drop_last()[i] == ps[i]);
            }
        }
    }
}

pub proof fn lemma_sanitize_all_members_index(ps: Seq<(Seq<char>, JsonVal)>)
    ensures
        sanitize_all_members(ps).len() == ps.len(),
        forall|i: int|
            0 <= i < ps.len() ==> #[trigger] sanitize_all_members(ps)[i] == (
            ps[i].0,
            sanitize_spec(ps[i].1),
            ),
    decreases ps.len(),
{
    if ps.len() > 0 {
        lemma_sanitize_all_members_index(ps.drop_last());
        assert(sanitize_all_members(ps) == sanitize_all_members(ps.drop_last()).push(
            (ps.last().0, sanitize_spec(ps.last().1)),
        ));
        assert forall|i: int|
            0 <= i < ps.len() implies #[trigger] sanitize_all_members(ps)[i] == (
        ps[i].0,
        sanitize_spec(ps[i].1),
        ) by {
            if i < ps.len() - 1 {
                assert(ps.drop_last()[i] == ps[i]);
            }
        }
    }
}

pub proof fn lemma_sanitize_arr_index(xs: Seq<JsonVal>)
    ensures
        sanitize_arr(xs).len() == xs.len(),
        forall|i: int| 0 <= i < xs.len() ==> #[trigger] sanitize_arr(xs)[i] == sanitize_spec(xs[i]),
    decreases xs.len(),
{
    if xs.len() > 0 {
        lemma_sanitize_arr_index(xs.drop_last());
        assert(sanitize_arr(xs) == sanitize_arr(xs.drop_last()).push(sanitize_spec(xs.last())));
        assert forall|i: int|
            0 <= i < xs.len() implies #[trigger] sanitize_arr(xs)[i] == sanitize_spec(xs[i]) by {
            if i < xs.len() - 1 {
                assert(xs.drop_last()[i] == xs[i]);
            }
        }
    }
}

pub proof fn lemma_first_key_idx_at(ps: Seq<(Seq<char>, JsonVal)>, key: Seq<char>, from: int, at: int)
    requires
        0 <= from <= at < ps.len(),
        forall|m: int| from <= m < at ==> (#[trigger] ps[m]).0 != key,
        ps[at].0 == key,
    ensures
        first_key_idx(ps, key, from) == at,
    decreases at - from,
{
    if from < at {
        lemma_first_key_idx_at(ps, key, from + 1, at);
    }
}

pub proof fn lemma_first_key_idx_none(ps: Seq<(Seq<char>, JsonVal)>, key: Seq<char>, from: int)
    requires
        from >= 0,
        forall|m: int| from <= m < ps.len() ==> (#[trigger] ps[m]).0 != key,
    ensures
        first_key_idx(ps, key, from) == -1,
    decreases ps.len() - from,
{
    if from < ps.len() {
        lemma_first_key_idx_none(ps, key, from + 1);
    }
}

/// Index of the first member with this key.
#[verifier::loop_isolation(false)]
fn member_index(ps: &Vec<(String, JsonValue)>, key: &str) -> (r: Option<usize>)
    ensures
        match r {
            Some(i) => i < ps@.len() && first_key_idx(view_obj(ps@), key@, 0) == i as int,
            None => first_key_idx(view_obj(ps@), key@, 0) == -1,
        },
{
    proof {
        lemma_view_obj_index(ps@);
    }
    let mut i: usize = 0;
    while i < ps.len()
        invariant
            i <= ps@.len(),
            view_obj(ps@).len() == ps@.len(),
            forall|k: int|
                0 <= k < ps@.len() ==> #[trigger] view_obj(ps@)[k] == (ps@[k].0@, ps@[k].1@),
            forall|k: int| 0 <= k < i ==> (#[trigger] view_obj(ps@)[k]).0 != key@,
        decreases ps@.len() - i,
    {
        if crate::items::string_is(&ps[i].0, key) {
            proof {
                lemma_first_key_idx_at(view_obj(ps@), key@, 0, i as int);
            }
            return Some(i);
        }
        i = i + 1;
    }
    proof {
        lemma_first_key_idx_none(view_obj(ps@), key@, 0);
    }
    None
}

/// The decided type tag of an object's members (executable mirror of
/// `decided_type`).
#[verifier::loop_isolation(false)]
fn decided_type_exec(ps: &Vec<(String, JsonValue)>) -> (r: String)
    ensures
        r@ == decided_type(view_obj(ps@)),
{
    proof {
        lemma_view_obj_index(ps@);
    }
    let ghost gps = view_obj(ps@);
    match member_index(ps, "type") {
        Some(i) => {
            proof {
                assert(member_val(gps, "type"@) == Some(gps[i as int].1));
                assert(gps[i as int].1 == ps@[i as int].1@);
            }
            match &ps[i].1 {
                JsonValue::Text(t) => {
                    proof {
                        assert(gps[i as int].1 == JsonVal::Text(t@));
                        assert(decided_type(gps) == t@);
                    }
                    return t.clone();
                },
                JsonValue::Array(ts) => {
                    proof {
                        lemma_view_arr_index(ts@);
                    }
                    let mut k: usize = 0;
                    while k < ts.len()
                        invariant
                            k <= ts@.len(),
                            view_arr(ts@).len() == ts@.len(),
                            forall|q: int|
                                0 <= q < ts@.len() ==> #[trigger] view_arr(ts@)[q] == ts@[q]@,
                            forall|q: int|
                                0 <= q < k ==> !(#[trigger] view_arr(ts@)[q]
                                    matches JsonVal::Text(t) && is_supported_type_name(t)),
                        decreases ts@.len() - k,
                    {
                        if let JsonValue::Text(t) = &ts[k] {
                            let is_sup = crate::items::string_is(t, "object")
                                || crate::items::string_is(t, "array") || crate::items::string_is(
                                t,
                                "string",
                            ) || crate::items::string_is(t, "number") || crate::items::string_is(
                                t,
                                "integer",
                            ) || crate::items::string_is(t, "boolean");
                            if is_sup {
                                proof {
                                    lemma_first_supported_at(view_arr(ts@), 0, k as int);
                                }
                                return t.clone();
                            }
                        }
                        k = k + 1;
                    }
                    proof {
                        lemma_first_supported_none(view_arr(ts@), 0);
                    }
                    inferred_type_exec(ps)
                },
                _ => inferred_type_exec(ps),
            }
        },
        None => inferred_type_exec(ps),
    }
}

proof fn lemma_first_supported_at(ts: Seq<JsonVal>, from: int, at: int)
    requires
        0 <= from <= at < ts.len(),
        forall|m: int|
            from <= m < at ==> !(#[trigger] ts[m] matches JsonVal::Text(t)
                && is_supported_type_name(t)),
        ts[at] matches JsonVal::Text(t) && is_supported_type_name(t),
    ensures
        first_supported(ts, from) == (match ts[at] {
            JsonVal::Text(t) => Some(t),
            _ => None::<Seq<char>>,
        }),
    decreases at - from,
{
    if from < at {
        lemma_first_supported_at(ts, from + 1, at);
    }
}

proof fn lemma_first_supported_none(ts: Seq<JsonVal>, from: int)
    requires
        from >= 0,
        forall|m: int|
            from <= m < ts.len() ==> !(#[trigger] ts[m] matches JsonVal::Text(t)
                && is_supported_type_name(t)),
    ensures
        first_supported(ts, from) is None,
    decreases ts.len() - from,
{
    if from < ts.len() {
        lemma_first_supported_none(ts, from + 1);
    }
}

fn inferred_type_exec(ps: &Vec<(String, JsonValue)>) -> (r: String)
    ensures
        r@ == inferred_type(view_obj(ps@)),
{
    if member_index(ps, "properties").is_some() || member_index(ps, "required").is_some()
        || member_index(ps, "additionalProperties").is_some() {
        String::from_str("object")
    } else if member_index(ps, "items").is_some() || member_index(ps, "prefixItems").is_some() {
        String::from_str("array")
    } else if member_index(ps, "enum").is_some() || member_index(ps, "const").is_some()
        || member_index(ps, "format").is_some() {
        String::from_str("string")
    } else if member_index(ps, "minimum").is_some() || member_index(ps, "maximum").is_some()
        || member_index(ps, "exclusiveMinimum").is_some() || member_index(
        ps,
        "exclusiveMaximum",
    ).is_some() || member_index(ps, "multipleOf").is_some() {
        String::from_str("number")
    } else {
        String::from_str("string")
    }
}

/// Replace the first member with this key, or append one (executable
/// `obj_set`).
fn obj_set_exec(ps: &mut Vec<(String, JsonValue)>, key: &str, val: JsonValue)
    ensures
        view_obj(final(ps)@) == obj_set(view_obj(old(ps)@), key@, val@),
{
    proof {
        lemma_view_obj_index(old(ps)@);
    }
    match member_index(ps, key) {
        Some(i) => {
            let _prev = ps.remove(i);
            ps.insert(i, (String::from_str(key), val));
            proof {
                lemma_view_obj_index(ps@);
                assert(ps@.len() == old(ps)@.len());
                assert(forall|k: int|
                    0 <= k < ps@.len() && k != i ==> #[trigger] ps@[k] == old(ps)@[k]);
                assert(view_obj(ps@) =~= view_obj(old(ps)@).update(
                    i as int,
                    (key@, val@),
                ));
            }
        },
        None => {
            ps.push((String::from_str(key), val));
            proof {
                lemma_view_obj_index(ps@);
                assert(forall|k: int|
                    0 <= k < old(ps)@.len() ==> #[trigger] ps@[k] == old(ps)@[k]);
                assert(view_obj(ps@) =~= view_obj(old(ps)@).push((key@, val@)));
            }
        },
    }
}

fn string_type_obj_exec() -> (r: JsonValue)
    ensures
        r@ == string_type_obj(),
{
    let mut ps: Vec<(String, JsonValue)> = Vec::new();
    ps.push((String::from_str("type"), JsonValue::Text(String::from_str("string"))));
    proof {
        lemma_view_obj_index(ps@);
        assert(view_obj(ps@) =~= seq![("type"@, JsonVal::Text("string"@))]);
    }
    JsonValue::Object(ps)
}

/// Sanitize a JSON schema so it fits the tool-schema subset: every object
/// schema gets an explicit `type` (inferred when missing), `integer` unions
/// collapse to their first supported member, boolean schemas become
/// permissive strings, object schemas get a `properties` map, and array
/// schemas get `items`.
#[verifier::loop_isolation(false)]
pub fn sanitize_json_schema(v: JsonValue) -> (r: JsonValue)
    ensures
        r@ == sanitize_spec(v@),
    decreases v,
{
    match v {
        JsonValue::Bool(_) => string_type_obj_exec(),
        JsonValue::Array(xs) => {
            let ghost vec0 = xs;
            let ghost xs0 = xs@;
            proof {
                lemma_view_arr_index(xs0);
                lemma_sanitize_arr_index(view_arr(xs0));
            }
            let mut rest = xs;
            let mut out: Vec<JsonValue> = Vec::new();
            let total = rest.len();
            while rest.len() > 0
                invariant
                    out@.len() + rest@.len() == total,
                    xs0.len() == total,
                    rest@ == xs0.skip(out@.len() as int),
                    view_arr(xs0).len() == total,
                    forall|q: int| 0 <= q < total ==> #[trigger] view_arr(xs0)[q] == xs0[q]@,
                    forall|q: int|
                        0 <= q < out@.len() ==> (#[trigger] out@[q])@ == sanitize_spec(xs0[q]@),
                decreases rest@.len(),
            {
                let ghost i = out@.len() as int;
                let x = rest.remove(0);
                proof {
                    assert(x == xs0[i]);
                    assert(rest@ =~= xs0.skip(i + 1));
                    assert(decreases_to!(v => vec0));
                    vstd::std_specs::vec::axiom_vec_index_decreases(vec0, i);
                    assert(decreases_to!(vec0 => x));
                }
                let y = sanitize_json_schema(x);
                out.push(y);
            }
            proof {
                lemma_view_arr_index(out@);
                lemma_sanitize_arr_index(view_arr(xs0));
                assert(view_arr(out@) =~= sanitize_arr(view_arr(xs0)));
            }
            JsonValue::Array(out)
        },
        JsonValue::Object(ps) => {
            let ghost pvec0 = ps;
            let ghost ps0 = ps@;
            let ghost gps = view_obj(ps0);
            proof {
                lemma_view_obj_index(ps0);
                lemma_sanitize_members_index(gps, decided_type(gps) == "object"@);
            }
            let ty = decided_type_exec(&ps);
            let obj_ty = crate::items::string_is(&ty, "object");
            // Rewrite the members.
            let mut rest = ps;
            let mut out: Vec<(String, JsonValue)> = Vec::new();
            let total = rest.len();
            while rest.len() > 0
                invariant
                    out@.len() + rest@.len() == total,
                    ps0.len() == total,
                    rest@ == ps0.skip(out@.len() as int),
                    gps == view_obj(ps0),
                    gps.len() == total,
                    obj_ty == (decided_type(gps) == "object"@),
                    forall|q: int| 0 <= q < total ==> #[trigger] gps[q] == (ps0[q].0@, ps0[q].1@),
                    forall|q: int|
                        0 <= q < out@.len() ==> (#[trigger] out@[q]).0@ == gps[q].0 && out@[q].1@
                            == member_transform(gps[q].0, gps[q].1, decided_type(gps) == "object"@),
                decreases rest@.len(),
            {
                let ghost i = out@.len() as int;
                let kx = rest.remove(0);
                proof {
                    assert(kx == ps0[i]);
                    assert(rest@ =~= ps0.skip(i + 1));
                    assert(decreases_to!(v => pvec0));
                    vstd::std_specs::vec::axiom_vec_index_decreases(pvec0, i);
                    assert(decreases_to!(pvec0 => kx));
                }
                let (k, x) = kx;
                let ghost gk = k@;
                let ghost gx = x@;
                proof {
                    assert(gps[i] == (gk, gx));
                    assert(decreases_to!(kx => x));
                }
                let is_comb = crate::items::string_is(&k, "items") || crate::items::string_is(
                    &k,
                    "oneOf",
                ) || crate::items::string_is(&k, "anyOf") || crate::items::string_is(&k, "allOf")
                    || crate::items::string_is(&k, "prefixItems");
                let y: JsonValue = if is_comb {
                    proof {
                        assert(decreases_to!(ps0 => ps0[i]));
                    }
                    sanitize_json_schema(x)
                } else if crate::items::string_is(&k, "properties") {
                    match x {
                        JsonValue::Object(props) => {
                            let ghost prvec0 = props;
                            let ghost pr0 = props@;
                            proof {
                                lemma_view_obj_index(pr0);
                                lemma_sanitize_all_members_index(view_obj(pr0));
                            }
                            let mut prest = props;
                            let mut pout: Vec<(String, JsonValue)> = Vec::new();
                            let ptotal = prest.len();
                            while prest.len() > 0
                                invariant
                                    pout@.len() + prest@.len() == ptotal,
                                    pr0.len() == ptotal,
                                    prest@ == pr0.skip(pout@.len() as int),
                                    forall|q: int|
                                        0 <= q < ptotal ==> #[trigger] view_obj(pr0)[q] == (
                                        pr0[q].0@,
                                        pr0[q].1@,
                                        ),
                                    view_obj(pr0).len() == ptotal,
                                    forall|q: int|
                                        0 <= q < pout@.len() ==> #[trigger] pout@[q].0@ == view_obj(
                                            pr0,
                                        )[q].0 && pout@[q].1@ == sanitize_spec(view_obj(pr0)[q].1),
                                decreases prest@.len(),
                            {
                                let ghost w = pout@.len() as int;
                                let pkx = prest.remove(0);
                                proof {
                                    assert(pkx == pr0[w]);
                                    assert(prest@ =~= pr0.skip(w + 1));
                                    assert(decreases_to!(v => pvec0));
                                    vstd::std_specs::vec::axiom_vec_index_decreases(pvec0, i);
                                    assert(decreases_to!(pvec0 => kx));
                                    assert(decreases_to!(kx => prvec0));
                                    vstd::std_specs::vec::axiom_vec_index_decreases(prvec0, w);
                                    assert(decreases_to!(prvec0 => pkx));
                                }
                                let (pk, px) = pkx;
                                proof {
                                    assert(decreases_to!(pkx => px));
                                }
                                let py = sanitize_json_schema(px);
                                pout.push((pk, py));
                            }
                            proof {
                                lemma_view_obj_index(pout@);
                                lemma_sanitize_all_members_index(view_obj(pr0));
                                assert(view_obj(pout@) =~= sanitize_all_members(view_obj(pr0)));
                            }
                            JsonValue::Object(pout)
                        },
                        other => other,
                    }
                } else if crate::items::string_is(&k, "additionalProperties") && obj_ty {
                    let is_bool = match &x {
                        JsonValue::Bool(_) => true,
                        _ => false,
                    };
                    if !is_bool {
                        proof {
                            assert(decreases_to!(v => pvec0));
                            vstd::std_specs::vec::axiom_vec_index_decreases(pvec0, i);
                            assert(decreases_to!(pvec0 => kx));
                            assert(decreases_to!(kx => x));
                        }
                        sanitize_json_schema(x)
                    } else {
                        x
                    }
                } else {
                    x
                };
                proof {
                    assert(gps[i].0 == gk && gps[i].1 == gx);
                    assert(y@ == member_transform(gk, gx, decided_type(gps) == "object"@));
                }
                out.push((k, y));
                proof {
                    assert forall|q: int|
                        0 <= q < out@.len() implies (#[trigger] out@[q]).0@ == gps[q].0
                        && out@[q].1@ == member_transform(
                        gps[q].0,
                        gps[q].1,
                        decided_type(gps) == "object"@,
                    ) by {
                        if q == out@.len() - 1 {
                            assert(out@[q] == (k, y));
                            assert(gps[q] == (gk, gx));
                        }
                    }
                }
            }
            proof {
                lemma_view_obj_index(out@);
                lemma_sanitize_members_index(gps, decided_type(gps) == "object"@);
                assert(view_obj(out@) =~= sanitize_members(gps, decided_type(gps) == "object"@));
            }
            // Pin the decided type.
            let ghost ps1 = sanitize_members(gps, decided_type(gps) == "object"@);
            obj_set_exec(&mut out, "type", JsonValue::Text(ty.clone()));
            proof {
                assert(view_obj(out@) == obj_set(ps1, "type"@, JsonVal::Text(ty@)));
            }
            // Object schemas always carry a properties map.
            if obj_ty {
                if member_index(&out, "properties").is_none() {
                    let empty_props: Vec<(String, JsonValue)> = Vec::new();
                    proof {
                        assert(view_obj(empty_props@) =~= Seq::<(Seq<char>, JsonVal)>::empty());
                        assert(member_val(view_obj(out@), "properties"@) is None);
                    }
                    obj_set_exec(&mut out, "properties", JsonValue::Object(empty_props));
                } else {
                    proof {
                        assert(member_val(view_obj(out@), "properties"@) is Some);
                    }
                }
            }
            // Array schemas always carry items.
            if crate::items::string_is(&ty, "array") {
                if member_index(&out, "items").is_none() {
                    proof {
                        assert(member_val(view_obj(out@), "items"@) is None);
                    }
                    obj_set_exec(&mut out, "items", string_type_obj_exec());
                } else {
                    proof {
                        assert(member_val(view_obj(out@), "items"@) is Some);
                    }
                }
            }
            JsonValue::Object(out)
        },
        other => other,
    }
}

} // verus!
