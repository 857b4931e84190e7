//! The `fs.list` intent: the files and directories of a directory, each list
//! sorted. Reading the directory is left to the caller; this module decides
//! which directory and builds the answer from what was read.
use vstd::prelude::*;

use crate::json::{model, object, string_array, Json, JsonValue};
use crate::types::{ExecutionStatus, IntentInput, IntentResult};

verus! {

broadcast use vstd::seq_lib::to_multiset_insert;

/// Lexicographic order of byte strings, the order of `[u8]` and `str`.
pub open spec fn bytes_le(a: Seq<u8>, b: Seq<u8>) -> bool
    decreases a.len(),
{
    if a.len() == 0 {
        true
    } else if b.len() == 0 {
        false
    } else if a[0] < b[0] {
        true
    } else if a[0] > b[0] {
        false
    } else {
        bytes_le(a.drop_first(), b.drop_first())
    }
}

/// The order of names: that of their UTF-8 bytes, as `String`'s `Ord` has it.
pub open spec fn name_le(a: Seq<char>, b: Seq<char>) -> bool {
    bytes_le(vstd::utf8::encode_utf8(a), vstd::utf8::encode_utf8(b))
}

/// The names are in ascending order.
pub open spec fn sorted_names(s: Seq<Seq<char>>) -> bool {
    forall|i: int, j: int| 0 <= i < j < s.len() ==> name_le(#[trigger] s[i], #[trigger] s[j])
}

/// The names of the entries that are directories (`dir`) or not (`!dir`), in order.
pub open spec fn names_where(entries: Seq<(String, bool)>, dir: bool) -> Seq<Seq<char>>
    decreases entries.len(),
{
    if entries.len() == 0 {
        Seq::empty()
    } else if entries.last().1 == dir {
        names_where(entries.drop_last(), dir).push(entries.last().0@)
    } else {
        names_where(entries.drop_last(), dir)
    }
}

/// The dirs are the names of exactly the entries flagged as directories, and
/// the files those of exactly the other entries, each in entry order: what a
/// name looks like plays no part.
pub proof fn law_entries_split_by_flag(entries: Seq<(String, bool)>, dir: bool)
    ensures
        names_where(entries, dir) == entries.filter(|e: (String, bool)| e.1 == dir).map_values(
            |e: (String, bool)| e.0@,
        ),
        names_where(entries, true).len() + names_where(entries, false).len() == entries.len(),
    decreases entries.len(),
{
    broadcast use Seq::lemma_filter_push;

    let keep = |e: (String, bool)| e.1 == dir;
    let name = |e: (String, bool)| e.0@;
    if entries.len() == 0 {
        reveal(Seq::filter);
        assert(entries.filter(keep) =~= Seq::<(String, bool)>::empty());
        assert(entries.filter(keep).map_values(name) =~= Seq::<Seq<char>>::empty());
    } else {
        let init = entries.drop_last();
        law_entries_split_by_flag(init, dir);
        let e = entries.last();
        assert(entries =~= init.push(e));
        assert(entries.filter(keep) == if keep(e) { init.filter(keep).push(e) } else {
            init.filter(keep)
        });
        if keep(e) {
            assert(init.filter(keep).push(e).map_values(name) =~= init.filter(keep).map_values(
                name,
            ).push(name(e)));
        }
    }
}

/// `sorted` holds the names `names` in ascending order.
pub open spec fn is_sorted_listing(sorted: Seq<Seq<char>>, names: Seq<Seq<char>>) -> bool {
    sorted_names(sorted) && sorted.to_multiset() == names.to_multiset()
}

/// The JSON array of the names `names`.
pub open spec fn names_json(names: Seq<Seq<char>>) -> Json {
    Json::Array(names.map_values(|n: Seq<char>| Json::Str(n)))
}

/// The payload of a listing: `{"data": {"files": [...], "dirs": [...]}}`.
pub open spec fn listing_json(files: Seq<Seq<char>>, dirs: Seq<Seq<char>>) -> Json {
    Json::Object(
        seq![
            ("data"@, Json::Object(seq![("files"@, names_json(files)), ("dirs"@, names_json(dirs))])),
        ],
    )
}

/// The views of a list of strings.
pub open spec fn names_view(v: Seq<String>) -> Seq<Seq<char>> {
    v.map_values(|s: String| s@)
}

/// The directory listed for the data `data`: the data, or `"."` when there
/// is none.
pub open spec fn directory_of(data: Option<String>) -> Seq<char> {
    match data {
        Some(d) => d@,
        None => "."@,
    }
}

/// The directory listed depends on the data alone, never on the arguments:
/// two inputs with the same data list the same directory, and an input
/// without data lists the same directory as one whose data is `"."`.
pub proof fn law_directory_from_data_alone(a: IntentInput, b: IntentInput)
    ensures
        (a.data matches Some(x) && (b.data matches Some(y) && x@ == y@)) ==> directory_of(a.data)
            == directory_of(b.data),
        (a.data is None && b.data is None) ==> directory_of(a.data) == directory_of(b.data),
        (a.data is None && (b.data matches Some(y) && y@ == "."@)) ==> directory_of(a.data)
            == directory_of(b.data),
{
}

/// `bytes_le` is total.
pub proof fn lemma_bytes_le_total(a: Seq<u8>, b: Seq<u8>)
    ensures
        bytes_le(a, b) || bytes_le(b, a),
    decreases a.len(),
{
    if a.len() > 0 && b.len() > 0 && a[0] == b[0] {
        lemma_bytes_le_total(a.drop_first(), b.drop_first());
    }
}

/// `bytes_le` is transitive.
pub proof fn lemma_bytes_le_transitive(a: Seq<u8>, b: Seq<u8>, c: Seq<u8>)
    requires
        bytes_le(a, b),
        bytes_le(b, c),
    ensures
        bytes_le(a, c),
    decreases a.len(),
{
    if a.len() > 0 && b.len() > 0 && c.len() > 0 && a[0] == b[0] && b[0] == c[0] {
        lemma_bytes_le_transitive(a.drop_first(), b.drop_first(), c.drop_first());
    }
}

/// `bytes_le` is reflexive.
pub proof fn lemma_bytes_le_reflexive(a: Seq<u8>)
    ensures
        bytes_le(a, a),
    decreases a.len(),
{
    if a.len() > 0 {
        lemma_bytes_le_reflexive(a.drop_first());
    }
}

/// `bytes_le` is antisymmetric.
pub proof fn lemma_bytes_le_antisymmetric(a: Seq<u8>, b: Seq<u8>)
    requires
        bytes_le(a, b),
        bytes_le(b, a),
    ensures
        a == b,
    decreases a.len(),
{
    if a.len() > 0 {
        lemma_bytes_le_antisymmetric(a.drop_first(), b.drop_first());
        assert(a =~= seq![a[0]] + a.drop_first());
        assert(b =~= seq![b[0]] + b.drop_first());
    }
}

/// The order of names is a total order.
pub proof fn lemma_name_order_total()
    ensures
        vstd::relations::total_ordering(|a: Seq<char>, b: Seq<char>| name_le(a, b)),
{
    let leq = |a: Seq<char>, b: Seq<char>| name_le(a, b);
    assert forall|a: Seq<char>| #[trigger] leq(a, a) by {
        lemma_bytes_le_reflexive(vstd::utf8::encode_utf8(a));
    }
    assert forall|a: Seq<char>, b: Seq<char>| #[trigger] leq(a, b) && #[trigger] leq(b, a) implies a
        == b by {
        lemma_bytes_le_antisymmetric(vstd::utf8::encode_utf8(a), vstd::utf8::encode_utf8(b));
        vstd::utf8::encode_utf8_decode_utf8(a);
        vstd::utf8::encode_utf8_decode_utf8(b);
    }
    assert forall|a: Seq<char>, b: Seq<char>, c: Seq<char>| #[trigger] leq(a, b) && #[trigger] leq(
        b,
        c,
    ) implies leq(a, c) by {
        lemma_bytes_le_transitive(
            vstd::utf8::encode_utf8(a),
            vstd::utf8::encode_utf8(b),
            vstd::utf8::encode_utf8(c),
        );
    }
    assert forall|a: Seq<char>, b: Seq<char>| #[trigger] leq(a, b) || #[trigger] leq(b, a) by {
        lemma_bytes_le_total(vstd::utf8::encode_utf8(a), vstd::utf8::encode_utf8(b));
    }
}

/// A sorted listing of given names is unique: two listings that both hold
/// `names` in ascending order are the same sequence.
pub proof fn law_sorted_listing_unique(s1: Seq<Seq<char>>, s2: Seq<Seq<char>>, names: Seq<Seq<char>>)
    requires
        is_sorted_listing(s1, names),
        is_sorted_listing(s2, names),
    ensures
        s1 == s2,
{
    let leq = |a: Seq<char>, b: Seq<char>| name_le(a, b);
    lemma_name_order_total();
    assert(vstd::relations::sorted_by(s1, leq));
    assert(vstd::relations::sorted_by(s2, leq));
    vstd::seq_lib::lemma_sorted_unique(s1, s2, leq);
}

/// Whether the bytes `a` come before or equal the bytes `b`.
fn bytes_le_exec(a: &[u8], b: &[u8]) -> (r: bool)
    ensures
        r == bytes_le(a@, b@),
{
    let mut i: usize = 0;
    assert(a@.skip(0) =~= a@);
    assert(b@.skip(0) =~= b@);
    while i < a.len() && i < b.len()
        invariant
            i <= a@.len(),
            i <= b@.len(),
            bytes_le(a@, b@) == bytes_le(a@.skip(i as int), b@.skip(i as int)),
        decreases a.len() - i,
    {
        if a[i] < b[i] {
            return true;
        }
        if a[i] > b[i] {
            return false;
        }
        assert(a@.skip(i as int).drop_first() =~= a@.skip(i + 1));
        assert(b@.skip(i as int).drop_first() =~= b@.skip(i + 1));
        i = i + 1;
    }
    i == a.len()
}

/// Whether the name `a` comes before or equals the name `b`.
fn name_le_exec(a: &String, b: &String) -> (r: bool)
    ensures
        r == name_le(a@, b@),
{
    bytes_le_exec(a.as_str().as_bytes(), b.as_str().as_bytes())
}

/// The names `names` in ascending order.
pub fn sort_names(names: Vec<String>) -> (r: Vec<String>)
    ensures
        is_sorted_listing(names_view(r@), names_view(names@)),
{
    let ghost input = names_view(names@);
    let mut sorted: Vec<String> = Vec::new();
    let mut i: usize = 0;
    assert(names_view(sorted@) =~= input.take(0));
    while i < names.len()
        invariant
            i <= names.len(),
            input == names_view(names@),
            sorted_names(names_view(sorted@)),
            names_view(sorted@).to_multiset() == input.take(i as int).to_multiset(),
        decreases names.len() - i,
    {
        let x = names[i].clone();
        let mut p: usize = 0;
        while p < sorted.len() && name_le_exec(&sorted[p], &x)
            invariant
                p <= sorted.len(),
                forall|q: int| 0 <= q < p ==> name_le(#[trigger] sorted@[q]@, x@),
            decreases sorted.len() - p,
        {
            p = p + 1;
        }
        let ghost before = names_view(sorted@);
        sorted.insert(p, x);
        let ghost after = names_view(sorted@);
        assert(after =~= before.insert(p as int, x@));
        assert(sorted_names(after)) by {
            assert forall|a: int, b: int| 0 <= a < b < after.len() implies name_le(
                #[trigger] after[a],
                #[trigger] after[b],
            ) by {
                if b == p {
                    assert(after[a] == before[a]);
                } else if a == p {
                    assert(after[b] == before[b - 1]);
                    assert(!name_le(before[p as int], x@));
                    lemma_bytes_le_total(
                        vstd::utf8::encode_utf8(before[p as int]),
                        vstd::utf8::encode_utf8(x@),
                    );
                    if b - 1 > p {
                        assert(name_le(before[p as int], before[b - 1]));
                        lemma_bytes_le_transitive(
                            vstd::utf8::encode_utf8(x@),
                            vstd::utf8::encode_utf8(before[p as int]),
                            vstd::utf8::encode_utf8(before[b - 1]),
                        );
                    }
                } else if a < p && b > p {
                    assert(after[a] == before[a]);
                    assert(after[b] == before[b - 1]);
                    assert(name_le(before[a], before[b - 1]));
                } else if b < p {
                    assert(after[a] == before[a]);
                    assert(after[b] == before[b]);
                } else {
                    assert(after[a] == before[a - 1]);
                    assert(after[b] == before[b - 1]);
                }
            }
        }
        assert(input.take(i + 1) =~= input.take(i as int).push(x@));
        proof {
            vstd::seq_lib::to_multiset_build(input.take(i as int), x@);
        }
        i = i + 1;
    }
    assert(input.take(names.len() as int) =~= input);
    sorted
}

/// The `fs.list` intent.
pub struct List;

impl List {
    /// `"list"`.
    pub fn name(&self) -> (r: &'static str)
        ensures
            r@ == "list"@,
    {
        "list"
    }

    /// `"fs.list"`.
    pub fn path(&self) -> (r: &'static str)
        ensures
            r@ == "fs.list"@,
    {
        "fs.list"
    }

    /// One-line description of the intent.
    pub fn description(&self) -> (r: &'static str)
        ensures
            r@ == "List files in a directory."@,
    {
        "List files in a directory."
    }

    /// The directory to list: the data, or `"."` when there is none.
    pub fn directory(input: &IntentInput) -> (r: String)
        ensures
            r@ == directory_of(input.data),
    {
        match &input.data {
            Some(d) => d.clone(),
            None => ".".to_owned(),
        }
    }

    /// The answer for the directory entries `entries`, each a name and whether
    /// it is a directory: the files and the directories, each sorted.
    pub fn listing(entries: Vec<(String, bool)>) -> (r: IntentResult)
        ensures
            r.status == ExecutionStatus::Success,
            r.error is None,
            r.well_formed(),
            r.result matches Some(v) && exists|files: Seq<Seq<char>>, dirs: Seq<Seq<char>>|
                {
                    &&& is_sorted_listing(files, names_where(entries@, false))
                    &&& is_sorted_listing(dirs, names_where(entries@, true))
                    &&& model(v) == listing_json(files, dirs)
                },
    {
        let mut files: Vec<String> = Vec::new();
        let mut dirs: Vec<String> = Vec::new();
        let mut i: usize = 0;
        while i < entries.len()
            invariant
                i <= entries.len(),
                names_view(files@) == names_where(entries@.take(i as int), false),
                names_view(dirs@) == names_where(entries@.take(i as int), true),
            decreases entries.len() - i,
        {
            assert(entries@.take(i + 1).drop_last() =~= entries@.take(i as int));
            let name = entries[i].0.clone();
            if entries[i].1 {
                let ghost before = dirs@;
                dirs.push(name);
                assert(names_view(dirs@) =~= names_view(before).push(entries@[i as int].0@));
            } else {
                let ghost before = files@;
                files.push(name);
                assert(names_view(files@) =~= names_view(before).push(entries@[i as int].0@));
            }
            i = i + 1;
        }
        assert(entries@.take(entries.len() as int) =~= entries@);
        let files = sort_names(files);
        let dirs = sort_names(dirs);
        let files_json = string_array(&files);
        let dirs_json = string_array(&dirs);
        let ghost fj = model(files_json);
        let ghost dj = model(dirs_json);
        assert(fj == names_json(names_view(files@))) by {
            assert(files@.map_values(|s: String| Json::Str(s@)) =~= names_view(files@).map_values(
                |n: Seq<char>| Json::Str(n),
            ));
        }
        assert(dj == names_json(names_view(dirs@))) by {
            assert(dirs@.map_values(|s: String| Json::Str(s@)) =~= names_view(dirs@).map_values(
                |n: Seq<char>| Json::Str(n),
            ));
        }
        let inner_entries = vec![("files".to_owned(), files_json), ("dirs".to_owned(), dirs_json)];
        assert(inner_entries@.map_values(|e: (String, JsonValue)| (e.0@, model(e.1))) =~= seq![
            ("files"@, fj),
            ("dirs"@, dj),
        ]);
        proof {
            reveal_strlit("files");
            reveal_strlit("dirs");
            assert(inner_entries@[0].0@.len() != inner_entries@[1].0@.len());
        }
        let inner = object(inner_entries);
        let ghost ij = model(inner);
        let outer_entries = vec![("data".to_owned(), inner)];
        assert(outer_entries@.map_values(|e: (String, JsonValue)| (e.0@, model(e.1))) =~= seq![
            ("data"@, ij),
        ]);
        let v = object(outer_entries);
        assert(model(v) == listing_json(names_view(files@), names_view(dirs@)));
        IntentResult::success(v)
    }

    /// The answer when the directory cannot be read, for the reason `detail`.
    pub fn read_failure(detail: &str) -> (r: IntentResult)
        ensures
            r.status == ExecutionStatus::Error,
            r.result is None,
            r.error matches Some(m) && m@ == "Failed to read directory: "@ + detail@,
            r.well_formed(),
    {
        let mut message = String::new();
        message.append("Failed to read directory: ");
        message.append(detail);
        IntentResult::failure(message)
    }
}

} // verus!
