//! JSON values carried in intent results, and their compact text form.
//!
//! Strings are escaped by `serde_json`; the library frames arrays, objects,
//! integers and literals around them the way `serde_json`'s compact writer
//! does. `serde`'s derives cannot stand on a type whose contracts the
//! verifier reads, so `JsonValue` is not handed to `serde_json` whole: the
//! framing is this module's, proved against [`json_text`], and members keep
//! the order in which they were given.
use vstd::prelude::*;

use crate::text::{decimal, decimal_chars, string_of};

verus! {

/// A JSON value as intents produce it.
#[derive(Debug, PartialEq)]
pub enum JsonValue {
    Null,
    Bool(bool),
    Int(i64),
    Str(String),
    Array(Vec<JsonValue>),
    Object(Vec<(String, JsonValue)>),
}

/// The mathematical model of a [`JsonValue`].
pub enum Json {
    Null,
    Bool(bool),
    Int(int),
    Str(Seq<char>),
    Array(Seq<Json>),
    Object(Seq<(Seq<char>, Json)>),
}

impl JsonValue {
    /// A copy of this value with the same model.
    pub fn duplicate(&self) -> (r: JsonValue)
        ensures
            model(r) == model(*self),
        decreases self,
    {
        match self {
            JsonValue::Null => JsonValue::Null,
            JsonValue::Bool(b) => JsonValue::Bool(*b),
            JsonValue::Int(n) => JsonValue::Int(*n),
            JsonValue::Str(s) => JsonValue::Str(s.clone()),
            JsonValue::Array(items) => {
                let mut out: Vec<JsonValue> = Vec::new();
                let mut i: usize = 0;
                while i < items.len()
                    invariant
                        i <= items.len(),
                        out@.len() == i,
                        forall|k: int| 0 <= k < i ==> #[trigger] model(out@[k]) == model(items@[k]),
                        *self == JsonValue::Array(*items),
                    decreases items.len() - i,
                {
                    assert((*self)->Array_0 == *items);
                    assert(decreases_to!(*self => (*self)->Array_0));
                    assert(decreases_to!(*items => items@));
                    assert(decreases_to!(items@ => items@[i as int]));
                    out.push(items[i].duplicate());
                    i = i + 1;
                }
                proof {
                    lemma_models(out@, out@.len());
                    lemma_models(items@, items@.len());
                }
                assert(models(out@, out@.len()) =~= models(items@, items@.len()));
                JsonValue::Array(out)
            },
            JsonValue::Object(entries) => {
                let mut out: Vec<(String, JsonValue)> = Vec::new();
                let mut i: usize = 0;
                while i < entries.len()
                    invariant
                        i <= entries.len(),
                        out@.len() == i,
                        forall|k: int|
                            0 <= k < i ==> #[trigger] out@[k].0@ == entries@[k].0@ && model(out@[k].1)
                                == model(entries@[k].1),
                        *self == JsonValue::Object(*entries),
                    decreases entries.len() - i,
                {
                    assert((*self)->Object_0 == *entries);
                    assert(decreases_to!(*self => (*self)->Object_0));
                    assert(decreases_to!(*entries => entries@));
                    assert(decreases_to!(entries@ => entries@[i as int]));
                    assert(decreases_to!(entries@[i as int] => entries@[i as int].1));
                    let entry = &entries[i];
                    out.push((entry.0.clone(), entry.1.duplicate()));
                    i = i + 1;
                }
                proof {
                    lemma_entry_models(out@, out@.len());
                    lemma_entry_models(entries@, entries@.len());
                }
                assert(entry_models(out@, out@.len()) =~= entry_models(entries@, entries@.len()));
                JsonValue::Object(out)
            },
        }
    }
}

impl Clone for JsonValue {
    fn clone(&self) -> (r: JsonValue)
        ensures
            model(r) == model(*self),
    {
        self.duplicate()
    }
}

/// The model of a JSON value.
pub open spec fn model(v: JsonValue) -> Json
    decreases v, 0nat,
{
    match v {
        JsonValue::Null => Json::Null,
        JsonValue::Bool(b) => Json::Bool(b),
        JsonValue::Int(n) => Json::Int(n as int),
        JsonValue::Str(s) => Json::Str(s@),
        JsonValue::Array(items) => Json::Array(models(items@, items@.len())),
        JsonValue::Object(entries) => Json::Object(entry_models(entries@, entries@.len())),
    }
}

/// The models of the first `n` items.
pub open spec fn models(items: Seq<JsonValue>, n: nat) -> Seq<Json>
    decreases items, n,
{
    if n == 0 || n > items.len() {
        Seq::empty()
    } else {
        models(items, (n - 1) as nat).push(model(items[n - 1]))
    }
}

/// The models of the first `n` entries of an object.
pub open spec fn entry_models(entries: Seq<(String, JsonValue)>, n: nat) -> Seq<(Seq<char>, Json)>
    decreases entries, n,
{
    if n == 0 || n > entries.len() {
        Seq::empty()
    } else {
        entry_models(entries, (n - 1) as nat).push((entries[n - 1].0@, model(entries[n - 1].1)))
    }
}

/// The lower-case hexadecimal digit of `n` (`n < 16`).
pub open spec fn hex_digit(n: u32) -> char {
    if n < 10 {
        (48 + n) as char
    } else {
        (87 + n) as char
    }
}

/// How `serde_json` writes one character inside a string literal.
pub open spec fn escape_char(c: char) -> Seq<char> {
    let u: u32 = c as u32;
    if c == '"' {
        seq!['\\', '"']
    } else if c == '\\' {
        seq!['\\', '\\']
    } else if u == 0x08 {
        seq!['\\', 'b']
    } else if u == 0x09 {
        seq!['\\', 't']
    } else if u == 0x0A {
        seq!['\\', 'n']
    } else if u == 0x0C {
        seq!['\\', 'f']
    } else if u == 0x0D {
        seq!['\\', 'r']
    } else if u < 0x20 {
        seq!['\\', 'u', '0', '0', hex_digit(u / 16), hex_digit(u % 16)]
    } else {
        seq![c]
    }
}

/// The escaped characters of `s`.
pub open spec fn escaped(s: Seq<char>) -> Seq<char>
    decreases s.len(),
{
    if s.len() == 0 {
        Seq::empty()
    } else {
        escaped(s.drop_last()) + escape_char(s.last())
    }
}

/// The JSON string literal for `s`.
pub open spec fn json_quoted(s: Seq<char>) -> Seq<char> {
    seq!['"'] + escaped(s) + seq!['"']
}

/// The compact JSON text of a value.
pub open spec fn json_text(j: Json) -> Seq<char>
    decreases j, 0nat,
{
    match j {
        Json::Null => seq!['n', 'u', 'l', 'l'],
        Json::Bool(b) => if b {
            seq!['t', 'r', 'u', 'e']
        } else {
            seq!['f', 'a', 'l', 's', 'e']
        },
        Json::Int(n) => if n < 0 {
            seq!['-'] + decimal((-n) as nat)
        } else {
            decimal(n as nat)
        },
        Json::Str(s) => json_quoted(s),
        Json::Array(items) => seq!['['] + items_text(items, items.len()) + seq![']'],
        Json::Object(entries) => seq!['{'] + entries_text(entries, entries.len()) + seq!['}'],
    }
}

/// The texts of the first `n` items, separated by commas.
pub open spec fn items_text(items: Seq<Json>, n: nat) -> Seq<char>
    decreases items, n,
{
    if n == 0 || n > items.len() {
        Seq::empty()
    } else if n == 1 {
        json_text(items[0])
    } else {
        items_text(items, (n - 1) as nat) + seq![','] + json_text(items[n - 1])
    }
}

/// The texts of the first `n` object members, separated by commas.
pub open spec fn entries_text(entries: Seq<(Seq<char>, Json)>, n: nat) -> Seq<char>
    decreases entries, n,
{
    if n == 0 || n > entries.len() {
        Seq::empty()
    } else if n == 1 {
        json_quoted(entries[0].0) + seq![':'] + json_text(entries[0].1)
    } else {
        entries_text(entries, (n - 1) as nat) + seq![','] + json_quoted(entries[n - 1].0) + seq![
            ':',
        ] + json_text(entries[n - 1].1)
    }
}

/// The JSON string literal for `s`.
///
/// Trusted: `serde_json::to_string` on a `str`. In the version used, its
/// writer (`format_escaped_str`) puts the string between double quotes and
/// escapes exactly `"`, `\` and the characters below U+0020, as `escape_char`
/// states; writing into a `Vec` cannot fail, so the error arm is never taken.
#[verifier::external_body]
pub fn quote(s: &str) -> (r: String)
    ensures
        r@ == json_quoted(s@),
{
    serde_json::to_string(s).unwrap_or_default()
}

/// `models(items, n)` has one model per item, in order.
pub proof fn lemma_models(items: Seq<JsonValue>, n: nat)
    requires
        n <= items.len(),
    ensures
        models(items, n).len() == n,
        forall|k: int| 0 <= k < n ==> #[trigger] models(items, n)[k] == model(items[k]),
    decreases n,
{
    if n > 0 {
        lemma_models(items, (n - 1) as nat);
    }
}

/// `entry_models(entries, n)` has one model per entry, in order.
pub proof fn lemma_entry_models(entries: Seq<(String, JsonValue)>, n: nat)
    requires
        n <= entries.len(),
    ensures
        entry_models(entries, n).len() == n,
        forall|k: int|
            0 <= k < n ==> #[trigger] entry_models(entries, n)[k] == (
                entries[k].0@,
                model(entries[k].1),
            ),
    decreases n,
{
    if n > 0 {
        lemma_entry_models(entries, (n - 1) as nat);
    }
}

/// The characters of the literals the writer emits.
proof fn lemma_literals()
    ensures
        "null"@ =~= seq!['n', 'u', 'l', 'l'],
        "true"@ =~= seq!['t', 'r', 'u', 'e'],
        "false"@ =~= seq!['f', 'a', 'l', 's', 'e'],
        "["@ =~= seq!['['],
        "]"@ =~= seq![']'],
        "{"@ =~= seq!['{'],
        "}"@ =~= seq!['}'],
        ","@ =~= seq![','],
        "-"@ =~= seq!['-'],
        ":"@ =~= seq![':'],
{
    reveal_strlit("null");
    reveal_strlit("true");
    reveal_strlit("false");
    reveal_strlit("[");
    reveal_strlit("]");
    reveal_strlit("{");
    reveal_strlit("}");
    reveal_strlit(",");
    reveal_strlit("-");
    reveal_strlit(":");
}

/// Appends the compact JSON text of `v` to `out`.
pub fn write_json(v: &JsonValue, out: &mut String)
    ensures
        final(out)@ == old(out)@ + json_text(model(*v)),
    decreases v,
{
    proof {
        lemma_literals();
    }
    match v {
        JsonValue::Null => {
            out.append("null");
        },
        JsonValue::Bool(b) => {
            if *b {
                out.append("true");
            } else {
                out.append("false");
            }
        },
        JsonValue::Int(n) => {
            let wide: i128 = *n as i128;
            if wide < 0 {
                out.append("-");
                let digits = string_of(decimal_chars((-wide) as u64).as_slice());
                out.append(digits.as_str());
            } else {
                let digits = string_of(decimal_chars(wide as u64).as_slice());
                out.append(digits.as_str());
            }
        },
        JsonValue::Str(s) => {
            let q = quote(s.as_str());
            out.append(q.as_str());
        },
        JsonValue::Array(items) => {
            let ghost start = out@;
            let ghost ms = models(items@, items@.len());
            proof {
                lemma_models(items@, items@.len());
            }
            out.append("[");
            let mut i: usize = 0;
            while i < items.len()
                invariant
                    i <= items.len(),
                    ms == models(items@, items@.len()),
                    ms.len() == items@.len(),
                    forall|k: int| 0 <= k < items@.len() ==> #[trigger] ms[k] == model(items@[k]),
                    out@ == start + seq!['['] + items_text(ms, i as nat),
                    *v == JsonValue::Array(*items),
                decreases items.len() - i,
            {
                if i > 0 {
                    out.append(",");
                }
                let ghost before = out@;
                proof {
                    lemma_literals();
                }
                let ghost comma: Seq<char> = if i > 0 {
                    seq![',']
                } else {
                    Seq::empty()
                };
                assert(before =~= start + seq!['['] + items_text(ms, i as nat) + comma);
                assert((*v)->Array_0 == *items);
                assert(decreases_to!(*v => (*v)->Array_0));
                assert(decreases_to!(*items => items@));
                assert(decreases_to!(items@ => items@[i as int]));
                write_json(&items[i], out);
                assert(out@ == before + json_text(ms[i as int]));
                assert(items_text(ms, (i + 1) as nat) == items_text(ms, i as nat) + comma + json_text(
                    ms[i as int],
                ));
                assert(out@ =~= start + seq!['['] + items_text(ms, (i + 1) as nat));
                i = i + 1;
            }
            out.append("]");
        },
        JsonValue::Object(entries) => {
            let ghost start = out@;
            let ghost ms = entry_models(entries@, entries@.len());
            proof {
                lemma_entry_models(entries@, entries@.len());
            }
            out.append("{");
            let mut i: usize = 0;
            while i < entries.len()
                invariant
                    i <= entries.len(),
                    ms == entry_models(entries@, entries@.len()),
                    ms.len() == entries@.len(),
                    forall|k: int|
                        0 <= k < entries@.len() ==> #[trigger] ms[k] == (
                            entries@[k].0@,
                            model(entries@[k].1),
                        ),
                    out@ == start + seq!['{'] + entries_text(ms, i as nat),
                    *v == JsonValue::Object(*entries),
                decreases entries.len() - i,
            {
                if i > 0 {
                    out.append(",");
                }
                let ghost before = out@;
                proof {
                    lemma_literals();
                }
                let ghost comma: Seq<char> = if i > 0 {
                    seq![',']
                } else {
                    Seq::empty()
                };
                assert(before =~= start + seq!['{'] + entries_text(ms, i as nat) + comma);
                let entry = &entries[i];
                let q = quote(entry.0.as_str());
                out.append(q.as_str());
                out.append(":");
                assert((*v)->Object_0 == *entries);
                assert(decreases_to!(*v => (*v)->Object_0));
                assert(decreases_to!(*entries => entries@));
                assert(decreases_to!(entries@ => entries@[i as int]));
                assert(decreases_to!(entries@[i as int] => entries@[i as int].1));
                write_json(&entry.1, out);
                let ghost member = json_quoted(ms[i as int].0) + seq![':'] + json_text(ms[i as int].1);
                assert(out@ =~= before + member);
                assert(entries_text(ms, (i + 1) as nat) =~= entries_text(ms, i as nat) + comma + member);
                assert(out@ =~= start + seq!['{'] + entries_text(ms, (i + 1) as nat));
                i = i + 1;
            }
            out.append("}");
        },
    }
}

/// The compact JSON text of `v`.
pub fn to_json_text(v: &JsonValue) -> (r: String)
    ensures
        r@ == json_text(model(*v)),
{
    let mut out = String::new();
    write_json(v, &mut out);
    out
}

/// The JSON string `s`.
pub fn string_value(s: &str) -> (r: JsonValue)
    ensures
        model(r) == Json::Str(s@),
{
    JsonValue::Str(s.to_owned())
}

/// A JSON array of the strings `items`, in order.
pub fn string_array(items: &Vec<String>) -> (r: JsonValue)
    ensures
        model(r) == Json::Array(items@.map_values(|s: String| Json::Str(s@))),
{
    let mut out: Vec<JsonValue> = Vec::new();
    let mut i: usize = 0;
    while i < items.len()
        invariant
            i <= items.len(),
            out@.len() == i,
            forall|k: int| 0 <= k < i ==> #[trigger] model(out@[k]) == Json::Str(items@[k]@),
        decreases items.len() - i,
    {
        out.push(JsonValue::Str(items[i].clone()));
        i = i + 1;
    }
    proof {
        lemma_models(out@, out@.len());
    }
    let r = JsonValue::Array(out);
    assert(models(out@, out@.len()) =~= items@.map_values(|s: String| Json::Str(s@)));
    r
}

/// No two members of `entries` share a name.
pub open spec fn names_distinct(entries: Seq<(String, JsonValue)>) -> bool {
    forall|i: int, j: int|
        0 <= i < j < entries.len() ==> #[trigger] entries[i].0@ != #[trigger] entries[j].0@
}

/// A JSON object of the members `entries`, in order; member names are
/// distinct, as in a JSON object.
pub fn object(entries: Vec<(String, JsonValue)>) -> (r: JsonValue)
    requires
        names_distinct(entries@),
    ensures
        model(r) == Json::Object(
            entries@.map_values(|e: (String, JsonValue)| (e.0@, model(e.1))),
        ),
{
    proof {
        lemma_entry_models(entries@, entries@.len());
    }
    let ghost es = entries@;
    let r = JsonValue::Object(entries);
    assert(entry_models(es, es.len()) =~= es.map_values(|e: (String, JsonValue)| (e.0@, model(e.1))));
    r
}

} // verus!
