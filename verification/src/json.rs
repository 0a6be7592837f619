use vstd::prelude::*;
use crate::text::{opt_view, signed_decimal};

verus! {

/// Whether `serde_json::from_str::<Value>` accepts the text.
pub uninterp spec fn json_parses(text: Seq<char>) -> bool;

/// The string that `Value::pointer(ptr)` reaches in the parsed text, if the
/// text parses, the pointer reaches a value, and that value is a string.
pub uninterp spec fn json_pointer_text(text: Seq<char>, ptr: Seq<char>) -> Option<Seq<char>>;

/// The array that `Value::pointer(ptr)` reaches in the parsed text, each item
/// taken as a string where it is one.
pub uninterp spec fn json_pointer_list(text: Seq<char>, ptr: Seq<char>) -> Option<Seq<Option<Seq<char>>>>;

/// The array of rows that `Value::pointer(ptr)` reaches in the parsed text:
/// each row, where it is an array, as its items taken as strings where they are.
pub uninterp spec fn json_pointer_grid(text: Seq<char>, ptr: Seq<char>) -> Option<Seq<Option<Seq<Option<Seq<char>>>>>>;

/// The pretty-printed JSON of the parsed object with `key` set to the
/// given string.
pub uninterp spec fn json_string_set(text: Seq<char>, key: Seq<char>, value: Seq<char>) -> Seq<char>;

/// The string reached in the parsed text by `Value::get` with each part in
/// turn, as an object key, if the text parses, every step finds a value,
/// and the last is a string.
pub uninterp spec fn json_path_text(text: Seq<char>, parts: Seq<Seq<char>>) -> Option<Seq<char>>;

/// Whether the text parses and `Value::get(key)` finds a value in it.
pub uninterp spec fn json_key_present(text: Seq<char>, key: Seq<char>) -> bool;

pub open spec fn opt_list_view(v: Seq<Option<String>>) -> Seq<Option<Seq<char>>> {
    v.map_values(|o: Option<String>| opt_view(o))
}

pub open spec fn opt_row_view(r: Option<Vec<Option<String>>>) -> Option<Seq<Option<Seq<char>>>> {
    match r {
        Some(v) => Some(opt_list_view(v@)),
        None => None,
    }
}

/// `serde_json::from_str::<serde_json::Value>(text).is_ok()`. Where the
/// text does not parse, no key is found in it and no pointer reaches a
/// string (both read the parsed value).
#[verifier::external_body]
pub(crate) fn json_is_valid(text: &str) -> (r: bool)
    ensures
        r == json_parses(text@),
        !r ==> forall|k: Seq<char>| !#[trigger] json_key_present(text@, k),
        !r ==> forall|p: Seq<char>| #[trigger] json_pointer_text(text@, p) is None,
{
    serde_json::from_str::<serde_json::Value>(text).is_ok()
}

/// `serde_json::from_str::<Value>`, then `Value::get(key).is_some()`; false
/// where the text does not parse.
#[verifier::external_body]
pub(crate) fn json_has_key(text: &str, key: &str) -> (r: bool)
    ensures
        r == json_key_present(text@, key@),
{
    match serde_json::from_str::<serde_json::Value>(text) {
        Ok(v) => v.get(key).is_some(),
        Err(_) => false,
    }
}

/// `serde_json::from_str::<Value>`, then `Value::get` with each part in
/// turn, then `Value::as_str`.
#[verifier::external_body]
pub(crate) fn json_string_path(text: &str, parts: &Vec<String>) -> (r: Option<String>)
    ensures
        opt_view(r) == json_path_text(text@, parts.deep_view()),
{
    let v: serde_json::Value = serde_json::from_str(text).ok()?;
    parts.iter().try_fold(&v, |cur, p| cur.get(p.as_str()))?.as_str().map(|s| s.to_string())
}

/// `serde_json::from_str::<Value>`, then `Value::pointer`, then `Value::as_str`.
#[verifier::external_body]
pub(crate) fn json_string_at(text: &str, ptr: &str) -> (r: Option<String>)
    ensures
        opt_view(r) == json_pointer_text(text@, ptr@),
{
    let v: serde_json::Value = serde_json::from_str(text).ok()?;
    v.pointer(ptr)?.as_str().map(|s| s.to_string())
}

/// `serde_json::from_str::<Value>`, then `Value::pointer`, then
/// `Value::as_array`, each item through `Value::as_str`.
#[verifier::external_body]
pub(crate) fn json_list_at(text: &str, ptr: &str) -> (r: Option<Vec<Option<String>>>)
    ensures
        match r {
            Some(v) => json_pointer_list(text@, ptr@) == Some(opt_list_view(v@)),
            None => json_pointer_list(text@, ptr@) is None,
        },
{
    let v: serde_json::Value = serde_json::from_str(text).ok()?;
    let items = v.pointer(ptr)?.as_array()?;
    Some(items.iter().map(|x| x.as_str().map(|s| s.to_string())).collect())
}

/// `serde_json::from_str::<Value>`, then `Value::pointer`, then
/// `Value::as_array`, each row through `Value::as_array` and each item of a
/// row through `Value::as_str`.
#[verifier::external_body]
pub(crate) fn json_grid_at(text: &str, ptr: &str) -> (r: Option<Vec<Option<Vec<Option<String>>>>>)
    ensures
        match r {
            Some(v) => json_pointer_grid(text@, ptr@) == Some(
                v@.map_values(|row: Option<Vec<Option<String>>>| opt_row_view(row)),
            ),
            None => json_pointer_grid(text@, ptr@) is None,
        },
{
    let v: serde_json::Value = serde_json::from_str(text).ok()?;
    let rows = v.pointer(ptr)?.as_array()?;
    Some(rows.iter().map(|row| row.as_array().map(|cells| cells.iter().map(|c| c.as_str().map(|s| s.to_string())).collect())).collect())
}

/// `serde_json::from_str::<Value>` on a text known to be an object,
/// `Map::insert(key, Value::String(value))`, then
/// `serde_json::to_string_pretty`.
#[verifier::external_body]
pub(crate) fn json_insert_string(text: &str, key: &str, value: &str) -> (r: String)
    requires
        json_is_object(text@),
    ensures
        r@ == json_string_set(text@, key@, value@),
{
    let mut v: serde_json::Value = serde_json::from_str(text).unwrap_or_default();
    if let Some(obj) = v.as_object_mut() {
        obj.insert(key.to_string(), serde_json::Value::String(value.to_string()));
    }
    serde_json::to_string_pretty(&v).unwrap_or_default()
}

/// The JSON text of an object with the given string members, as
/// `serde_json::to_string` writes a `serde_json::Map` (sorted by key, the
/// last of equal keys kept).
pub uninterp spec fn json_object_text(pairs: Seq<(Seq<char>, Seq<char>)>) -> Seq<char>;

/// The same object as `serde_json::to_string_pretty` writes it.
pub uninterp spec fn json_object_pretty_text(pairs: Seq<(Seq<char>, Seq<char>)>) -> Seq<char>;

pub open spec fn kv_view(p: (String, String)) -> (Seq<char>, Seq<char>) {
    (p.0@, p.1@)
}

/// `serde_json::to_string` of an object of string members.
#[verifier::external_body]
pub(crate) fn json_object(pairs: &Vec<(String, String)>) -> (r: String)
    ensures
        r@ == json_object_text(pairs@.map_values(|p: (String, String)| kv_view(p))),
{
    let m: serde_json::Map<String, serde_json::Value> = pairs.iter().map(|(k, v)| (k.clone(), serde_json::Value::String(v.clone()))).collect();
    serde_json::to_string(&serde_json::Value::Object(m)).unwrap_or_default()
}

/// `serde_json::to_string_pretty` of an object of string members.
#[verifier::external_body]
pub(crate) fn json_object_pretty(pairs: &Vec<(String, String)>) -> (r: String)
    ensures
        r@ == json_object_pretty_text(pairs@.map_values(|p: (String, String)| kv_view(p))),
{
    let m: serde_json::Map<String, serde_json::Value> = pairs.iter().map(|(k, v)| (k.clone(), serde_json::Value::String(v.clone()))).collect();
    serde_json::to_string_pretty(&serde_json::Value::Object(m)).unwrap_or_default()
}

/// The values in decimal, separated by commas.
pub open spec fn ints_joined(vs: Seq<i64>) -> Seq<char>
    decreases vs.len(),
{
    if vs.len() == 0 {
        Seq::empty()
    } else if vs.len() == 1 {
        signed_decimal(vs[0] as int)
    } else {
        ints_joined(vs.drop_last()) + ","@ + signed_decimal(vs.last() as int)
    }
}

/// A JSON array of integers as `serde_json::to_string` writes it: no
/// spaces, each value in decimal.
pub open spec fn json_int_array(vs: Seq<i64>) -> Seq<char> {
    "["@ + ints_joined(vs) + "]"@
}

/// `serde_json::to_string` of a `Vec<i64>` (the compact formatter writes
/// `[`, the values separated by `,`, then `]`; `itoa` writes each value).
#[verifier::external_body]
pub(crate) fn json_ints(vs: &Vec<i64>) -> (r: String)
    ensures
        r@ == json_int_array(vs@),
{
    serde_json::to_string(vs).unwrap_or_default()
}

/// The items of a JSON array text, a string item as the string and a
/// number as `Number`'s text and any other item as its JSON text; `None`
/// where the text is not a JSON array.
pub uninterp spec fn json_array_items(text: Seq<char>) -> Option<Seq<Seq<char>>>;

/// `serde_json::from_str::<Vec<Value>>`, each item turned into text.
#[verifier::external_body]
pub(crate) fn json_array_cells(text: &str) -> (r: Option<Vec<String>>)
    ensures
        match r {
            Some(v) => json_array_items(text@) == Some(v.deep_view()),
            None => json_array_items(text@) is None,
        },
{
    let items: Vec<serde_json::Value> = serde_json::from_str(text).ok()?;
    Some(items.into_iter().map(|v| match v {
        serde_json::Value::Number(n) => n.to_string(),
        serde_json::Value::String(s) => s,
        other => other.to_string(),
    }).collect())
}

/// The numbers of a JSON array of non-negative integers that fit a
/// `usize`; `None` where the text is no such array.
pub uninterp spec fn json_usize_array(text: Seq<char>) -> Option<Seq<usize>>;

/// `serde_json::from_str::<Vec<usize>>`.
#[verifier::external_body]
pub(crate) fn json_usizes(text: &str) -> (r: Option<Vec<usize>>)
    ensures
        match r {
            Some(v) => json_usize_array(text@) == Some(v@),
            None => json_usize_array(text@) is None,
        },
{
    serde_json::from_str::<Vec<usize>>(text).ok()
}

/// The JSON text of an array of objects of string members, as
/// `serde_json::to_string` writes it (each object sorted by key, the last
/// of equal keys kept).
pub uninterp spec fn json_rows_text(rows: Seq<Seq<(Seq<char>, Seq<char>)>>) -> Seq<char>;

pub open spec fn kv_rows_view(rows: Seq<Vec<(String, String)>>) -> Seq<Seq<(Seq<char>, Seq<char>)>> {
    rows.map_values(|row: Vec<(String, String)>| row@.map_values(|p: (String, String)| kv_view(p)))
}

/// `serde_json::to_string` of an array of objects of string members.
#[verifier::external_body]
pub(crate) fn json_rows(rows: &Vec<Vec<(String, String)>>) -> (r: String)
    ensures
        r@ == json_rows_text(kv_rows_view(rows@)),
{
    let arr: Vec<serde_json::Value> = rows.iter().map(|row| serde_json::Value::Object(
        row.iter().map(|(k, v)| (k.clone(), serde_json::Value::String(v.clone()))).collect(),
    )).collect();
    serde_json::to_string(&arr).unwrap_or_default()
}

/// The pretty-printed JSON of the parsed object with `key` set to the
/// object of the given string members.
pub uninterp spec fn json_member_set(text: Seq<char>, key: Seq<char>, pairs: Seq<(Seq<char>, Seq<char>)>) -> Seq<char>;

/// The pretty-printed JSON of the parsed object without `key`.
pub uninterp spec fn json_member_removed(text: Seq<char>, key: Seq<char>) -> Seq<char>;

/// The pretty-printed JSON of an object whose one member `key` is the
/// object of the given string members.
pub uninterp spec fn json_member_new(key: Seq<char>, pairs: Seq<(Seq<char>, Seq<char>)>) -> Seq<char>;

/// The pretty-printed JSON of the parsed value.
pub uninterp spec fn json_pretty_text(text: Seq<char>) -> Seq<char>;

/// Whether the text parses to a JSON object.
pub uninterp spec fn json_is_object(text: Seq<char>) -> bool;

/// A pointer token that stands for itself: no `/` and no `~` in it.
pub open spec fn plain_token(s: Seq<char>) -> bool {
    forall|i: int| 0 <= i < s.len() ==> #[trigger] s[i] != '/' && s[i] != '~'
}

/// The value of the last pair with the given key, if any.
pub open spec fn last_value(pairs: Seq<(Seq<char>, Seq<char>)>, key: Seq<char>) -> Option<Seq<char>>
    decreases pairs.len(),
{
    if pairs.len() == 0 {
        None
    } else if pairs.last().0 == key {
        Some(pairs.last().1)
    } else {
        last_value(pairs.drop_last(), key)
    }
}

/// `serde_json::from_str::<Value>`, then `Value::is_object`. An object
/// parses; a text that is no object has no key (`Value::get` with a key
/// finds nothing outside an object); the empty object `{}` is an object in
/// which no key is found and no pointer reaches a string.
#[verifier::external_body]
pub(crate) fn json_object_check(text: &str) -> (r: bool)
    ensures
        r == json_is_object(text@),
        !json_parses(text@) ==> !r,
        forall|k: Seq<char>| #[trigger] json_key_present(text@, k) ==> r,
        text@ == "{}"@ ==> r,
{
    serde_json::from_str::<serde_json::Value>(text).map(|v| v.is_object()).unwrap_or(false)
}

/// `serde_json::from_str::<Value>` on a text that parses, then
/// `serde_json::to_string_pretty`; the value reads the same: the same keys
/// are found and every pointer reaches the same string.
#[verifier::external_body]
pub(crate) fn json_pretty(text: &str) -> (r: String)
    requires
        json_parses(text@),
    ensures
        r@ == json_pretty_text(text@),
        forall|k: Seq<char>| #[trigger] json_key_present(r@, k) == json_key_present(text@, k),
        forall|p: Seq<char>| #[trigger] json_pointer_text(r@, p) == json_pointer_text(text@, p),
{
    let v: serde_json::Value = serde_json::from_str(text).unwrap_or_default();
    serde_json::to_string_pretty(&v).unwrap_or_default()
}

/// `serde_json::from_str::<Value>` on a text known to be an object,
/// `Map::insert(key, Value::Object(pairs))`, then
/// `serde_json::to_string_pretty`. The written text reads back: it has the
/// key; where the key needs no pointer escapes, the pointer
/// `/<key>/<field>` reaches the string that the last pair with that field
/// holds (nothing where none has it), as `Map::insert` keeps the last of
/// equal keys and `Value::pointer` walks one plain token per level. The
/// other members stay: another key is present exactly where it was, and a
/// pointer that starts with another plain key reaches what it reached.
#[verifier::external_body]
pub(crate) fn json_insert_member(text: &str, key: &str, pairs: &Vec<(String, String)>) -> (r: String)
    requires
        json_is_object(text@),
    ensures
        r@ == json_member_set(text@, key@, pairs@.map_values(|p: (String, String)| kv_view(p))),
        json_key_present(r@, key@),
        plain_token(key@) ==> forall|f: Seq<char>|
            plain_token(f) ==> #[trigger] json_pointer_text(r@, seq!['/'] + key@ + seq!['/'] + f)
                == last_value(pairs@.map_values(|p: (String, String)| kv_view(p)), f),
        forall|k: Seq<char>| k != key@ ==> #[trigger] json_key_present(r@, k) == json_key_present(text@, k),
        forall|k: Seq<char>, rest: Seq<char>|
            plain_token(k) && k != key@ && (rest.len() == 0 || rest[0] == '/') ==> #[trigger] json_pointer_text(
                r@,
                seq!['/'] + k + rest,
            ) == json_pointer_text(text@, seq!['/'] + k + rest),
{
    let mut v: serde_json::Value = serde_json::from_str(text).unwrap_or_default();
    if let Some(obj) = v.as_object_mut() {
        let m: serde_json::Map<String, serde_json::Value> = pairs.iter().map(|(k, s)| (k.clone(), serde_json::Value::String(s.clone()))).collect();
        obj.insert(key.to_string(), serde_json::Value::Object(m));
    }
    serde_json::to_string_pretty(&v).unwrap_or_default()
}

/// `serde_json::to_string_pretty` of an object whose one member `key` is
/// the object of the pairs. It reads back: it has the key, `/<key>/<field>`
/// reaches the last value of that field (for plain tokens), and no other
/// key or pointer through another plain key finds anything.
#[verifier::external_body]
pub(crate) fn json_new_member(key: &str, pairs: &Vec<(String, String)>) -> (r: String)
    ensures
        r@ == json_member_new(key@, pairs@.map_values(|p: (String, String)| kv_view(p))),
        json_key_present(r@, key@),
        plain_token(key@) ==> forall|f: Seq<char>|
            plain_token(f) ==> #[trigger] json_pointer_text(r@, seq!['/'] + key@ + seq!['/'] + f)
                == last_value(pairs@.map_values(|p: (String, String)| kv_view(p)), f),
        forall|k: Seq<char>| k != key@ ==> !#[trigger] json_key_present(r@, k),
        forall|k: Seq<char>, rest: Seq<char>|
            plain_token(k) && k != key@ && (rest.len() == 0 || rest[0] == '/') ==> #[trigger] json_pointer_text(
                r@,
                seq!['/'] + k + rest,
            ) is None,
{
    let m: serde_json::Map<String, serde_json::Value> = pairs.iter().map(|(k, s)| (k.clone(), serde_json::Value::String(s.clone()))).collect();
    let mut top = serde_json::Map::new();
    top.insert(key.to_string(), serde_json::Value::Object(m));
    serde_json::to_string_pretty(&serde_json::Value::Object(top)).unwrap_or_default()
}

/// `serde_json::from_str::<Value>` on a text known to be an object,
/// `Map::remove(key)`, then `serde_json::to_string_pretty`; the written
/// text has no member `key`.
#[verifier::external_body]
pub(crate) fn json_remove_key(text: &str, key: &str) -> (r: String)
    requires
        json_is_object(text@),
    ensures
        r@ == json_member_removed(text@, key@),
        !json_key_present(r@, key@),
{
    let mut v: serde_json::Value = serde_json::from_str(text).unwrap_or_default();
    if let Some(obj) = v.as_object_mut() {
        obj.remove(key);
    }
    serde_json::to_string_pretty(&v).unwrap_or_default()
}

/// Whether a text is a JSON object, in which `set_member` and
/// `remove_member` change one member and keep the rest.
pub fn is_object(text: &str) -> (r: bool)
    ensures
        r == json_is_object(text@),
        r ==> member_settable(text@),
{
    json_object_check(text)
}

/// A text a member can be set in: an object, or no JSON (read as an empty
/// object).
pub open spec fn member_settable(text: Seq<char>) -> bool {
    json_is_object(text) || !json_parses(text)
}

/// The text with `key` set to the object of the pairs: an object gets the
/// member; a text that is no JSON is read as the empty object; any other
/// JSON value is written back as it is.
pub open spec fn member_set(text: Seq<char>, key: Seq<char>, pairs: Seq<(Seq<char>, Seq<char>)>) -> Seq<char> {
    if json_is_object(text) {
        json_member_set(text, key, pairs)
    } else if json_parses(text) {
        json_pretty_text(text)
    } else {
        json_member_new(key, pairs)
    }
}

/// The text without `key`: an object loses the member; a text that is no
/// JSON is read as the empty object; any other JSON value is written back
/// as it is.
pub open spec fn member_removed(text: Seq<char>, key: Seq<char>) -> Seq<char> {
    if json_is_object(text) {
        json_member_removed(text, key)
    } else if json_parses(text) {
        json_pretty_text(text)
    } else {
        json_member_removed("{}"@, key)
    }
}

/// Sets `key` to the object of the pairs in a JSON text (see `member_set`).
/// Where the member is set (the text is an object, `{}` among them, or no
/// JSON) and the key needs no escapes, the text reads back: it has the key,
/// `/<key>/<field>` reaches the last value of that field, and every other
/// member is as it was.
pub fn set_member(text: &str, key: &str, pairs: &Vec<(String, String)>) -> (r: String)
    ensures
        r@ == member_set(text@, key@, pairs@.map_values(|p: (String, String)| kv_view(p))),
        (text@ == "{}"@ || member_settable(text@)) && plain_token(key@) ==> {
            &&& json_key_present(r@, key@)
            &&& forall|f: Seq<char>|
                plain_token(f) ==> #[trigger] json_pointer_text(r@, seq!['/'] + key@ + seq!['/'] + f)
                    == last_value(pairs@.map_values(|p: (String, String)| kv_view(p)), f)
            &&& forall|k: Seq<char>| k != key@ ==> #[trigger] json_key_present(r@, k) == json_key_present(text@, k)
            &&& forall|k: Seq<char>, rest: Seq<char>|
                plain_token(k) && k != key@ && (rest.len() == 0 || rest[0] == '/') ==> #[trigger] json_pointer_text(
                    r@,
                    seq!['/'] + k + rest,
                ) == json_pointer_text(text@, seq!['/'] + k + rest)
        },
{
    proof {
        reveal_strlit("{}");
    }
    if json_object_check(text) {
        json_insert_member(text, key, pairs)
    } else if json_is_valid(text) {
        json_pretty(text)
    } else {
        json_new_member(key, pairs)
    }
}

/// Removes `key` from a JSON text (see `member_removed`); the result has
/// no member `key`.
pub fn remove_member(text: &str, key: &str) -> (r: String)
    ensures
        r@ == member_removed(text@, key@),
        !json_key_present(r@, key@),
{
    proof {
        reveal_strlit("{}");
    }
    if json_object_check(text) {
        json_remove_key(text, key)
    } else if json_is_valid(text) {
        json_pretty(text)
    } else {
        let empty = "{}";
        let is_object = json_object_check(empty);
        assert(is_object);
        json_remove_key(empty, key)
    }
}

/// A member of a JSON object text, read as `Value::get(key)` reads it:
/// `None` where the text does not parse; `Some(None)` where nothing is
/// found; `Some(Some(None))` where the value found is no object; else that
/// object's members (a `serde_json::Map` holds each key once), each a
/// string member as its text and any other as `None`.
pub uninterp spec fn json_field_of(text: Seq<char>, key: Seq<char>) -> Option<Option<Option<Seq<(Seq<char>, Option<Seq<char>>)>>>>;

/// The JSON text of an object whose members are objects of string
/// members, as `serde_json::to_string` writes a `Map` of `Map`s (sorted by
/// key, the last of equal keys kept).
pub uninterp spec fn json_objects_text(members: Seq<(Seq<char>, Seq<(Seq<char>, Seq<char>)>)>) -> Seq<char>;

pub open spec fn fields_view(fs: Seq<(String, Option<String>)>) -> Seq<(Seq<char>, Option<Seq<char>>)> {
    fs.map_values(|p: (String, Option<String>)| (p.0@, opt_view(p.1)))
}

pub open spec fn field_view(
    r: Option<Option<Option<Vec<(String, Option<String>)>>>>,
) -> Option<Option<Option<Seq<(Seq<char>, Option<Seq<char>>)>>>> {
    match r {
        None => None,
        Some(None) => Some(None),
        Some(Some(None)) => Some(Some(None)),
        Some(Some(Some(v))) => Some(Some(Some(fields_view(v@)))),
    }
}

pub open spec fn members_view(
    ms: Seq<(String, Vec<(String, String)>)>,
) -> Seq<(Seq<char>, Seq<(Seq<char>, Seq<char>)>)> {
    ms.map_values(|m: (String, Vec<(String, String)>)| (m.0@, m.1@.map_values(|p: (String, String)| kv_view(p))))
}

/// The members of the last object with the given key, if any.
pub open spec fn last_object(
    ms: Seq<(Seq<char>, Seq<(Seq<char>, Seq<char>)>)>,
    key: Seq<char>,
) -> Option<Seq<(Seq<char>, Seq<char>)>>
    decreases ms.len(),
{
    if ms.len() == 0 {
        None
    } else if ms.last().0 == key {
        Some(ms.last().1)
    } else {
        last_object(ms.drop_last(), key)
    }
}

/// The value found for a field among an object's members, if any.
pub open spec fn field_lookup(fs: Seq<(Seq<char>, Option<Seq<char>>)>, f: Seq<char>) -> Option<Option<Seq<char>>>
    decreases fs.len(),
{
    if fs.len() == 0 {
        None
    } else if fs.last().0 == f {
        Some(fs.last().1)
    } else {
        field_lookup(fs.drop_last(), f)
    }
}

/// No key occurs twice among an object's members.
pub open spec fn keys_distinct(fs: Seq<(Seq<char>, Option<Seq<char>>)>) -> bool {
    forall|i: int, j: int| 0 <= i < j < fs.len() ==> #[trigger] fs[i].0 != #[trigger] fs[j].0
}

/// Where an object was found, no key occurs twice among its members.
pub open spec fn distinct_found(f: Option<Option<Option<Seq<(Seq<char>, Option<Seq<char>>)>>>>) -> bool {
    match f {
        Some(Some(Some(fs))) => keys_distinct(fs),
        _ => true,
    }
}

/// What a member reads back as: a string member found as that string.
pub open spec fn found_string(v: Option<Seq<char>>) -> Option<Option<Seq<char>>> {
    match v {
        Some(s) => Some(Some(s)),
        None => None,
    }
}

/// `serde_json::from_str::<Value>`, then `Value::get(key)`, then
/// `Value::as_object`, each member through `Value::as_str`.
#[verifier::external_body]
pub(crate) fn json_field(text: &str, key: &str) -> (r: Option<Option<Option<Vec<(String, Option<String>)>>>>)
    ensures
        field_view(r) == json_field_of(text@, key@),
        distinct_found(field_view(r)),
{
    let v: serde_json::Value = serde_json::from_str(text).ok()?;
    Some(v.get(key).map(|m| m.as_object().map(|o| o.iter().map(|(k, x)| (k.clone(), x.as_str().map(String::from))).collect())))
}

/// A JSON text reads back as the object of these object members: it
/// parses, each key finds the object of its last member with that key, in
/// which each field finds the string last given for it, and no other
/// field; any other key finds nothing.
pub open spec fn objects_read_back(text: Seq<char>, ms: Seq<(Seq<char>, Seq<(Seq<char>, Seq<char>)>)>) -> bool {
    forall|k: Seq<char>| #[trigger] json_field_of(text, k) matches Some(found) && match last_object(ms, k) {
        None => found is None,
        Some(m) => found matches Some(Some(fs)) && keys_distinct(fs) && forall|f: Seq<char>|
            #[trigger] field_lookup(fs, f) == found_string(last_value(m, f)),
    }
}

/// `serde_json::to_string` of an object whose members are objects of
/// string members. It reads back: each key finds the object of its last
/// member with that key, in which each field finds the string last given
/// for it, and no other field; any other key finds nothing.
#[verifier::external_body]
pub(crate) fn json_objects(members: &Vec<(String, Vec<(String, String)>)>) -> (r: String)
    ensures
        r@ == json_objects_text(members_view(members@)),
        objects_read_back(r@, members_view(members@)),
{
    let m: serde_json::Map<String, serde_json::Value> = members.iter().map(|(k, fs)| (k.clone(), serde_json::Value::Object(
        fs.iter().map(|(f, v)| (f.clone(), serde_json::Value::String(v.clone()))).collect(),
    ))).collect();
    serde_json::to_string(&serde_json::Value::Object(m)).unwrap_or_default()
}

} // verus!
