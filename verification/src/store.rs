//! The stored pairs, and the commands on them.

use vstd::prelude::*;
use vstd::relations::sorted_by;

use crate::json::{
    json_outcome, outcome_view, parse_document, string_member, JsonDocument, MembersView,
};
use crate::keyed::{distinct_keys, entries_map, entries_map_len, entry_in_map, has_key, KeyedMap};
use crate::message::Command;
use crate::text::{
    concat2, concat3, concat4, join, joined, joined_holds_each, joined_len, sort, text_le,
    text_order, texts, total_len,
};

verus! {

/// The stored pairs.
pub type Pairs = Map<Seq<char>, Seq<char>>;

/// How a pair is listed.
pub open spec fn pair_line(key: Seq<char>, value: Seq<char>) -> Seq<char> {
    key + ": "@ + value
}

/// The lines of all pairs, sorted by byte value.
pub open spec fn pair_lines(data: Pairs) -> Seq<Seq<char>> {
    data.dom().to_seq().map_values(|key: Seq<char>| pair_line(key, data[key])).sort_by(text_order())
}

/// The answer to `List`.
pub open spec fn list_answer(data: Pairs) -> Seq<char> {
    if data.dom().len() == 0 {
        "No key-value pairs stored"@
    } else {
        "Stored key-value pairs:\n"@ + joined(pair_lines(data), "\n"@)
    }
}

/// The answer to `Get` and `Delete` for a key that is not there.
pub open spec fn not_found(key: Seq<char>) -> Seq<char> {
    "Key "@ + key + " not found"@
}

/// The answer to `Get`.
pub open spec fn get_answer(data: Pairs, key: Seq<char>) -> Seq<char> {
    if data.contains_key(key) {
        "Value for key "@ + key + ": "@ + data[key]
    } else {
        not_found(key)
    }
}

/// The answer to `Exists`.
pub open spec fn exists_answer(data: Pairs, key: Seq<char>) -> Seq<char> {
    "Key "@ + key + " exists: "@ + if data.contains_key(key) {
        "true"@
    } else {
        "false"@
    }
}

/// The answer to `Delete`.
pub open spec fn delete_answer(data: Pairs, key: Seq<char>) -> Seq<char> {
    if data.contains_key(key) {
        "Deleted key "@ + key
    } else {
        not_found(key)
    }
}

/// The answer to a `Put` that stored a pair.
pub open spec fn stored(key: Seq<char>, value: Seq<char>) -> Seq<char> {
    "Stored key "@ + key + " with value "@ + value
}

/// The key and the value that a `Put` names: the string members `key` and `value`.
pub open spec fn put_pair(document: Option<MembersView>) -> Option<(Seq<char>, Seq<char>)> {
    match (string_member(document, "key"@), string_member(document, "value"@)) {
        (Some(key), Some(value)) => Some((key, value)),
        _ => None,
    }
}

/// The pairs after a `Put` with a content that was read as `outcome`.
pub open spec fn put_effect(
    data: Pairs,
    outcome: Result<Option<MembersView>, Seq<char>>,
) -> Pairs {
    match outcome {
        Ok(document) => match put_pair(document) {
            Some(pair) => data.insert(pair.0, pair.1),
            None => data,
        },
        Err(_) => data,
    }
}

/// The answer to a `Put` with a content that was read as `outcome`.
pub open spec fn put_answer(outcome: Result<Option<MembersView>, Seq<char>>) -> Seq<char> {
    match outcome {
        Ok(document) => match put_pair(document) {
            Some(pair) => stored(pair.0, pair.1),
            None => "Invalid JSON format. Expected {\"key\": \"...\", \"value\": \"...\"}"@,
        },
        Err(error) => "Failed to parse JSON content: "@ + error,
    }
}

/// The pairs after a command.
pub open spec fn command_effect(command: Command, data: Pairs, content: Seq<char>) -> Pairs {
    match command {
        Command::Put => put_effect(data, json_outcome(content)),
        Command::Delete => data.remove(content),
        _ => data,
    }
}

/// The answer to a command.
pub open spec fn command_answer(command: Command, data: Pairs, content: Seq<char>) -> Seq<char> {
    match command {
        Command::List => list_answer(data),
        Command::Get => get_answer(data, content),
        Command::Exists => exists_answer(data, content),
        Command::Put => put_answer(json_outcome(content)),
        Command::Delete => delete_answer(data, content),
    }
}

/// What a node stores.
pub struct ServerState {
    data: KeyedMap<String>,
}

impl View for ServerState {
    type V = Pairs;

    closed spec fn view(&self) -> Pairs {
        self.data@
    }
}

/// Two arrangements of the same keys give the same lines, up to their order.
proof fn lines_of_arrangements(
    a: Seq<Seq<char>>,
    b: Seq<Seq<char>>,
    line: spec_fn(Seq<char>) -> Seq<char>,
)
    requires
        a.no_duplicates(),
        b.no_duplicates(),
        a.to_set() == b.to_set(),
    ensures
        a.map_values(line).to_multiset() == b.map_values(line).to_multiset(),
    decreases a.len(),
{
    a.unique_seq_to_set();
    b.unique_seq_to_set();
    if a.len() == 0 {
        assert(a.map_values(line) =~= b.map_values(line));
    } else {
        let x = a.last();
        assert(a.to_set().contains(x));
        let j = b.index_of(x);
        assert(b.contains(x));
        let ra = a.drop_last();
        let rb = b.remove(j);
        assert forall|k: Seq<char>| ra.to_set().contains(k) <==> rb.to_set().contains(k) by {
            if ra.contains(k) {
                let i = choose|i: int| 0 <= i < ra.len() && ra[i] == k;
                assert(a[i] == k && a[i] != x);
                assert(a.to_set().contains(k));
                assert(b.contains(k));
                let i2 = choose|i2: int| 0 <= i2 < b.len() && b[i2] == k;
                assert(rb[if i2 < j { i2 } else { i2 - 1 }] == k);
            }
            if rb.contains(k) {
                let i = choose|i: int| 0 <= i < rb.len() && rb[i] == k;
                let i2 = if i < j { i } else { i + 1 };
                assert(b[i2] == k && i2 != j);
                assert(k != x);
                assert(b.to_set().contains(k));
                assert(a.contains(k));
                let i3 = choose|i3: int| 0 <= i3 < a.len() && a[i3] == k;
                assert(ra[i3] == k);
            }
        }
        assert(ra.to_set() =~= rb.to_set());
        assert(rb.no_duplicates());
        lines_of_arrangements(ra, rb, line);
        vstd::seq_lib::to_multiset_build(ra.map_values(line), line(x));
        assert(a.map_values(line) =~= ra.map_values(line).push(line(x)));
        vstd::seq_lib::to_multiset_insert(rb.map_values(line), j, line(x));
        assert(b.map_values(line) =~= rb.map_values(line).insert(j, line(x)));
    }
}

/// The set of keys in a sequence without duplicates.
proof fn to_seq_no_duplicates(s: Set<Seq<char>>)
    requires
        s.finite(),
    ensures
        s.to_seq().no_duplicates(),
        s.to_seq().to_set() == s,
    decreases s.len(),
{
    s.lemma_to_seq_to_set_id();
    if s.len() > 0 {
        let x = s.choose();
        let rest = s.remove(x);
        to_seq_no_duplicates(rest);
        assert(s.to_seq() =~= seq![x] + rest.to_seq());
        assert(!rest.to_seq().contains(x)) by {
            if rest.to_seq().contains(x) {
                assert(rest.to_seq().to_set().contains(x));
            }
        }
    }
}

/// The lines of a list of pairs, sorted, are the lines of the map that it stands for.
proof fn lines_of_entries(entries: Seq<(String, String)>)
    requires
        distinct_keys(entries),
    ensures
        entries.map_values(|e: (String, String)| pair_line(e.0@, e.1@)).sort_by(text_order())
            == pair_lines(entries_map(entries)),
{
    let data = entries_map(entries);
    let line = |key: Seq<char>| pair_line(key, data[key]);
    let keys = entries.map_values(|e: (String, String)| e.0@);
    let lines = entries.map_values(|e: (String, String)| pair_line(e.0@, e.1@));
    entries_map_len(entries);
    to_seq_no_duplicates(data.dom());
    assert(keys.no_duplicates()) by {
        assert forall|i: int, j: int|
            0 <= i < keys.len() && 0 <= j < keys.len() && i != j implies keys[i] != keys[j] by {
            if i < j {
                assert(entries[i].0@ != entries[j].0@);
            } else {
                assert(entries[j].0@ != entries[i].0@);
            }
        }
    }
    assert forall|k: Seq<char>| keys.to_set().contains(k) <==> data.dom().contains(k) by {
        if keys.contains(k) {
            let i = choose|i: int| 0 <= i < keys.len() && keys[i] == k;
            assert(entries[i].0@ == k);
        }
        if has_key(entries, k) {
            let i = choose|i: int| 0 <= i < entries.len() && #[trigger] entries[i].0@ == k;
            assert(keys[i] == k);
        }
    }
    assert(keys.to_set() =~= data.dom());
    assert forall|i: int| 0 <= i < entries.len() implies lines[i] == #[trigger] keys.map_values(
        line,
    )[i] by {
        entry_in_map(entries, i);
    }
    assert(lines =~= keys.map_values(line));
    let other = data.dom().to_seq().map_values(line);
    lines_of_arrangements(keys, data.dom().to_seq(), line);
    crate::text::text_order_total();
    lines.lemma_sort_by_ensures(text_order());
    other.lemma_sort_by_ensures(text_order());
    vstd::seq_lib::lemma_sorted_unique(
        lines.sort_by(text_order()),
        other.sort_by(text_order()),
        text_order(),
    );
    assert(other =~= data.dom().to_seq().map_values(
        |key: Seq<char>| pair_line(key, data[key]),
    ));
}

impl ServerState {
    /// No pairs.
    pub fn new() -> (r: Self)
        ensures
            r@ == Pairs::empty(),
    {
        ServerState { data: KeyedMap::new() }
    }

    /// The given pairs.
    pub fn from_pairs(data: KeyedMap<String>) -> (r: Self)
        ensures
            r@ == data@,
    {
        ServerState { data }
    }

    /// The stored pairs.
    pub fn data(&self) -> (r: &KeyedMap<String>)
        ensures
            r@ == self@,
    {
        &self.data
    }

    /// The answer to `List`.
    fn list(&self) -> (r: String)
        ensures
            r@ == list_answer(self@),
    {
        let entries = self.data.entries();
        let mut lines: Vec<String> = Vec::new();
        let mut i: usize = 0;
        let ghost all = entries@.map_values(|e: (String, String)| pair_line(e.0@, e.1@));
        while i < entries.len()
            invariant
                i <= entries.len(),
                all == entries@.map_values(|e: (String, String)| pair_line(e.0@, e.1@)),
                texts(lines@) == all.take(i as int),
            decreases entries.len() - i,
        {
            let ghost before = texts(lines@);
            let line = concat3(entries[i].0.as_str(), ": ", entries[i].1.as_str());
            assert(line@ == all[i as int]);
            lines.push(line);
            assert(texts(lines@) =~= before.push(all[i as int]));
            assert(texts(lines@) =~= all.take(i + 1));
            i += 1;
        }
        proof {
            assert(all.take(i as int) =~= all);
            lines_of_entries(entries@);
            entries_map_len(entries@);
        }
        let lines = sort(lines);
        if entries.len() == 0 {
            "No key-value pairs stored".to_owned()
        } else {
            let body = join(&lines, "\n");
            concat2("Stored key-value pairs:\n", body.as_str())
        }
    }

    /// Carries out a `Put` whose content was read as `outcome`, and answers it.
    pub fn put(&mut self, outcome: Result<JsonDocument, String>) -> (r: String)
        ensures
            final(self)@ == put_effect(old(self)@, outcome_view(outcome)),
            r@ == put_answer(outcome_view(outcome)),
    {
        match outcome {
            Ok(document) => {
                match (document.string_member("key"), document.string_member("value")) {
                    (Some(key), Some(value)) => {
                        self.data.insert(key.clone(), value.clone());
                        concat4("Stored key ", key.as_str(), " with value ", value.as_str())
                    },
                    _ => "Invalid JSON format. Expected {\"key\": \"...\", \"value\": \"...\"}".to_owned(),
                }
            },
            Err(error) => concat2("Failed to parse JSON content: ", error.as_str()),
        }
    }
}

/// Carries out a command on the stored pairs, and answers it.
pub fn handle_command(cmd: &Command, state: &mut ServerState, content: &str) -> (r: String)
    ensures
        final(state)@ == command_effect(*cmd, old(state)@, content@),
        r@ == command_answer(*cmd, old(state)@, content@),
{
    match cmd {
        Command::List => state.list(),
        Command::Get => match state.data.get(content) {
            Some(value) => concat4("Value for key ", content, ": ", value.as_str()),
            None => concat3("Key ", content, " not found"),
        },
        Command::Exists => {
            let found = if state.data.contains_key(content) {
                "true"
            } else {
                "false"
            };
            concat4("Key ", content, " exists: ", found)
        },
        Command::Put => state.put(parse_document(content)),
        Command::Delete => match state.data.remove(content) {
            Some(_) => concat2("Deleted key ", content),
            None => {
                assert(old(state)@.remove(content@) =~= old(state)@);
                concat3("Key ", content, " not found")
            },
        },
    }
}

/// A content that names a pair: a `Put` with it stores the pair, a `Get` of the key then gives
/// the value back, `Exists` says that the key is there, and what is stored under other keys
/// stays.
pub proof fn put_then_get(
    data: Pairs,
    content: Seq<char>,
    key: Seq<char>,
    value: Seq<char>,
    other: Seq<char>,
)
    requires
        json_outcome(content) is Ok,
        put_pair(json_outcome(content)->Ok_0) == Some((key, value)),
        other != key,
    ensures
        command_answer(Command::Put, data, content) == stored(key, value),
        ({
            let after = command_effect(Command::Put, data, content);
            &&& after == data.insert(key, value)
            &&& command_answer(Command::Get, after, key) == "Value for key "@ + key + ": "@ + value
            &&& command_answer(Command::Exists, after, key) == "Key "@ + key + " exists: "@ + "true"@
            &&& command_answer(Command::Get, after, other) == command_answer(
                Command::Get,
                data,
                other,
            )
        }),
{
}

/// A `Put` whose content is no JSON, or names no pair, stores nothing.
pub proof fn refused_put_stores_nothing(data: Pairs, content: Seq<char>)
    requires
        json_outcome(content) is Err || put_pair(json_outcome(content)->Ok_0) is None,
    ensures
        command_effect(Command::Put, data, content) == data,
        forall|key: Seq<char>, value: Seq<char>|
            command_answer(Command::Put, data, content) != #[trigger] stored(key, value),
{
    reveal_strlit("Stored key ");
    reveal_strlit("Failed to parse JSON content: ");
    reveal_strlit("Invalid JSON format. Expected {\"key\": \"...\", \"value\": \"...\"}");
    let answer = command_answer(Command::Put, data, content);
    assert forall|key: Seq<char>, value: Seq<char>| answer != #[trigger] stored(key, value) by {
        assert(stored(key, value)[0] == 'S');
        assert(answer[0] != 'S');
    }
}

/// After a `Delete`, `Get` and `Exists` do not find the key, a second `Delete` finds nothing
/// and changes nothing, and what is stored under other keys stays.
pub proof fn delete_then_get(data: Pairs, key: Seq<char>, other: Seq<char>)
    requires
        other != key,
    ensures
        ({
            let after = command_effect(Command::Delete, data, key);
            &&& command_answer(Command::Get, after, key) == not_found(key)
            &&& command_answer(Command::Exists, after, key) == "Key "@ + key + " exists: "@
                + "false"@
            &&& command_answer(Command::Delete, after, key) == not_found(key)
            &&& command_effect(Command::Delete, after, key) == after
            &&& command_answer(Command::Get, after, other) == command_answer(
                Command::Get,
                data,
                other,
            )
        }),
{
    let after = data.remove(key);
    assert(after.remove(key) =~= after);
}

/// `Get`, `Exists` and `List` change nothing.
pub proof fn reads_change_nothing(command: Command, data: Pairs, content: Seq<char>)
    requires
        command == Command::Get || command == Command::Exists || command == Command::List,
    ensures
        command_effect(command, data, content) == data,
{
}

/// A command that is carried out twice leaves the pairs as after the first time, and gets the
/// same answer again unless it is `Delete`.
pub proof fn repeated_command_agrees(command: Command, data: Pairs, content: Seq<char>)
    ensures
        ({
            let after = command_effect(command, data, content);
            &&& command_effect(command, after, content) == after
            &&& command != Command::Delete ==> command_answer(command, after, content)
                == command_answer(command, data, content)
        }),
{
    let after = command_effect(command, data, content);
    assert(command_effect(command, after, content) =~= after);
}

/// `List` shows one line for each pair and nothing else, sorted by byte value.
pub proof fn list_is_sorted_and_complete(data: Pairs)
    requires
        data.dom().finite(),
    ensures
        sorted_by(pair_lines(data), text_order()),
        pair_lines(data).len() == data.dom().len(),
        forall|key: Seq<char>| #[trigger]
            data.contains_key(key) ==> pair_lines(data).contains(pair_line(key, data[key])),
        forall|line: Seq<char>| #[trigger]
            pair_lines(data).contains(line) ==> exists|key: Seq<char>| #[trigger]
                data.contains_key(key) && line == pair_line(key, data[key]),
{
    broadcast use vstd::seq_lib::group_to_multiset_ensures;

    let keys = data.dom().to_seq();
    let line = |key: Seq<char>| pair_line(key, data[key]);
    let lines = keys.map_values(line);
    crate::text::text_order_total();
    lines.lemma_sort_by_ensures(text_order());
    to_seq_no_duplicates(data.dom());
    keys.unique_seq_to_set();
    let listed = pair_lines(data);
    assert(listed == lines.sort_by(text_order()));
    assert(listed.to_multiset() == lines.to_multiset());
    assert(listed.len() == listed.to_multiset().len());
    assert(lines.len() == lines.to_multiset().len());
    assert forall|key: Seq<char>| #[trigger] data.contains_key(key) implies listed.contains(
        pair_line(key, data[key]),
    ) by {
        assert(keys.to_set().contains(key));
        let i = choose|i: int| 0 <= i < keys.len() && keys[i] == key;
        assert(lines[i] == line(key));
        assert(lines.contains(line(key)));
        assert(lines.to_multiset().count(line(key)) > 0);
    }
    assert forall|l: Seq<char>| #[trigger] listed.contains(l) implies exists|key: Seq<char>|
        #[trigger] data.contains_key(key) && l == pair_line(key, data[key]) by {
        assert(lines.to_multiset().count(l) > 0);
        assert(lines.contains(l));
        let i = choose|i: int| 0 <= i < lines.len() && lines[i] == l;
        assert(keys.to_set().contains(keys[i]));
        assert(data.contains_key(keys[i]));
    }
}

/// What `Get`, `Exists` and `Delete` answer to any key: the stored value or that the key is
/// not there; whether it is there; that it was deleted or that it was not there. Afterwards
/// all pairs are as before, but for a deleted key.
pub proof fn answers_to_a_key(data: Pairs, key: Seq<char>, other: Seq<char>)
    ensures
        data.contains_key(key) ==> {
            &&& command_answer(Command::Get, data, key) == "Value for key "@ + key + ": "@
                + data[key]
            &&& command_answer(Command::Exists, data, key) == "Key "@ + key + " exists: "@
                + "true"@
            &&& command_answer(Command::Delete, data, key) == "Deleted key "@ + key
        },
        !data.contains_key(key) ==> {
            &&& command_answer(Command::Get, data, key) == "Key "@ + key + " not found"@
            &&& command_answer(Command::Exists, data, key) == "Key "@ + key + " exists: "@
                + "false"@
            &&& command_answer(Command::Delete, data, key) == "Key "@ + key + " not found"@
        },
        command_effect(Command::Get, data, key) == data,
        command_effect(Command::Exists, data, key) == data,
        command_effect(Command::List, data, key) == data,
        !command_effect(Command::Delete, data, key).contains_key(key),
        other != key ==> (command_effect(Command::Delete, data, key).contains_key(other)
            <==> data.contains_key(other)),
        other != key && data.contains_key(other) ==> command_effect(
            Command::Delete,
            data,
            key,
        )[other] == data[other],
{
}

/// A `Put` whose content is an object with a string under `key` and a string under `value`
/// stores that value under that key, whatever else the object holds and whatever was stored
/// before; all other pairs stay. The answer names key and value.
pub proof fn put_stores_the_named_pair(
    data: Pairs,
    content: Seq<char>,
    members: MembersView,
    key: Seq<char>,
    value: Seq<char>,
    other: Seq<char>,
)
    requires
        json_outcome(content) is Ok,
        json_outcome(content)->Ok_0 == Some(members),
        members.contains_key("key"@),
        members["key"@] == Some(key),
        members.contains_key("value"@),
        members["value"@] == Some(value),
    ensures
        command_answer(Command::Put, data, content) == "Stored key "@ + key + " with value "@
            + value,
        command_effect(Command::Put, data, content).contains_key(key),
        command_effect(Command::Put, data, content)[key] == value,
        other != key ==> (command_effect(Command::Put, data, content).contains_key(other)
            <==> data.contains_key(other)),
        other != key && data.contains_key(other) ==> command_effect(
            Command::Put,
            data,
            content,
        )[other] == data[other],
{
}

/// A `Put` whose content is no JSON is answered with the reader's description of the error,
/// and one whose content is no object, or lacks a string under `key` or under `value`, with
/// what is expected. Neither changes a pair.
pub proof fn put_refuses_the_rest(data: Pairs, content: Seq<char>)
    ensures
        json_outcome(content) is Err ==> {
            &&& command_answer(Command::Put, data, content) == "Failed to parse JSON content: "@
                + json_outcome(content)->Err_0
            &&& command_effect(Command::Put, data, content) == data
        },
        json_outcome(content) is Ok && (json_outcome(content)->Ok_0 is None || ({
            let members = json_outcome(content)->Ok_0->0;
            ||| !members.contains_key("key"@)
            ||| !members.contains_key("value"@)
            ||| members["key"@] is None
            ||| members["value"@] is None
        })) ==> {
            &&& command_answer(Command::Put, data, content)
                == "Invalid JSON format. Expected {\"key\": \"...\", \"value\": \"...\"}"@
            &&& command_effect(Command::Put, data, content) == data
        },
{
}

/// A rearranged list of lines comes from a rearranged list of keys.
proof fn rearranged_keys(
    keys: Seq<Seq<char>>,
    line: spec_fn(Seq<char>) -> Seq<char>,
    lines: Seq<Seq<char>>,
) -> (r: Seq<Seq<char>>)
    requires
        keys.no_duplicates(),
        lines.to_multiset() == keys.map_values(line).to_multiset(),
    ensures
        r.no_duplicates(),
        r.to_set() == keys.to_set(),
        r.len() == lines.len(),
        forall|i: int| 0 <= i < lines.len() ==> #[trigger] lines[i] == line(r[i]),
    decreases lines.len(),
{
    broadcast use vstd::seq_lib::group_to_multiset_ensures;

    let all = keys.map_values(line);
    assert(all.len() == all.to_multiset().len());
    assert(lines.len() == lines.to_multiset().len());
    if lines.len() == 0 {
        assert(keys =~= Seq::<Seq<char>>::empty());
        keys
    } else {
        let front = lines.drop_last();
        let last = lines.last();
        assert(lines =~= front.push(last));
        vstd::seq_lib::to_multiset_build(front, last);
        assert(lines.to_multiset().count(last) > 0);
        assert(all.contains(last));
        let j = choose|j: int| 0 <= j < all.len() && all[j] == last;
        let rest = keys.remove(j);
        vstd::seq_lib::to_multiset_remove(all, j);
        assert(rest.map_values(line) =~= all.remove(j));
        assert(front.to_multiset() =~= rest.map_values(line).to_multiset());
        assert(rest.no_duplicates());
        let part = rearranged_keys(rest, line, front);
        let r = part.push(keys[j]);
        assert forall|k: Seq<char>| r.to_set().contains(k) <==> keys.to_set().contains(k) by {
            if keys.contains(k) && k != keys[j] {
                let i = choose|i: int| 0 <= i < keys.len() && keys[i] == k;
                assert(rest[if i < j { i } else { i - 1 }] == k);
                assert(rest.to_set().contains(k));
                assert(part.to_set().contains(k));
                let i2 = choose|i2: int| 0 <= i2 < part.len() && part[i2] == k;
                assert(r[i2] == k);
            }
            if k == keys[j] {
                assert(r[part.len() as int] == k);
            }
            if r.contains(k) && k != keys[j] {
                let i = choose|i: int| 0 <= i < r.len() && r[i] == k;
                assert(part[i] == k);
                assert(part.to_set().contains(k));
                assert(rest.contains(k));
                let i2 = choose|i2: int| 0 <= i2 < rest.len() && rest[i2] == k;
                assert(keys[if i2 < j { i2 } else { i2 + 1 }] == k);
            }
        }
        assert(r.to_set() =~= keys.to_set());
        assert(!part.contains(keys[j])) by {
            if part.contains(keys[j]) {
                assert(part.to_set().contains(keys[j]));
                assert(rest.contains(keys[j]));
                let i2 = choose|i2: int| 0 <= i2 < rest.len() && rest[i2] == keys[j];
                assert(keys[if i2 < j { i2 } else { i2 + 1 }] == keys[j]);
            }
        }
        assert forall|i: int| 0 <= i < lines.len() implies #[trigger] lines[i] == line(r[i]) by {
            if i < front.len() {
                assert(front[i] == line(part[i]));
            }
        }
        r
    }
}

/// The answer to `List`: the heading, and then for each stored key, once, a line with the key
/// and its value; the lines are separated by line breaks and sorted by byte value.
pub proof fn list_shows_each_pair_once(data: Pairs, content: Seq<char>)
    requires
        data.dom().finite(),
    ensures
        data.dom().len() == 0 ==> command_answer(Command::List, data, content)
            == "No key-value pairs stored"@,
        data.dom().len() > 0 ==> exists|keys: Seq<Seq<char>>, lines: Seq<Seq<char>>|
            {
                &&& keys.no_duplicates()
                &&& keys.to_set() == data.dom()
                &&& lines.len() == keys.len()
                &&& forall|i: int|
                    0 <= i < lines.len() ==> #[trigger] lines[i] == keys[i] + ": "@ + data[keys[i]]
                &&& forall|i: int, j: int|
                    0 <= i < j < lines.len() ==> text_le(#[trigger] lines[i], #[trigger] lines[j])
                &&& command_answer(Command::List, data, content) == "Stored key-value pairs:\n"@
                    + #[trigger] joined(lines, "\n"@)
                &&& #[trigger] keys.no_duplicates()
            },
{
    if data.dom().len() > 0 {
        let keys = data.dom().to_seq();
        let line = |key: Seq<char>| pair_line(key, data[key]);
        to_seq_no_duplicates(data.dom());
        crate::text::text_order_total();
        keys.map_values(line).lemma_sort_by_ensures(text_order());
        let lines = pair_lines(data);
        assert(lines == keys.map_values(line).sort_by(text_order()));
        let order = rearranged_keys(keys, line, lines);
        assert forall|i: int| 0 <= i < lines.len() implies #[trigger] lines[i] == order[i] + ": "@
            + data[order[i]] by {
            assert(lines[i] == line(order[i]));
        }
        assert forall|i: int, j: int| 0 <= i < j < lines.len() implies text_le(
            #[trigger] lines[i],
            #[trigger] lines[j],
        ) by {
            assert((text_order())(lines[i], lines[j]));
        }
        assert(order.no_duplicates());
        assert(command_answer(Command::List, data, content) == "Stored key-value pairs:\n"@
            + joined(lines, "\n"@));
    }
}

/// The answer to `List` shows every stored pair on a line of its own: what stands before it is
/// the heading or ends with a line break, and what stands after it is nothing or begins with
/// one.
pub proof fn list_shows_the_pair(data: Pairs, content: Seq<char>, key: Seq<char>)
    requires
        data.dom().finite(),
        data.contains_key(key),
    ensures
        exists|before: Seq<char>, after: Seq<char>|
            {
                &&& command_answer(Command::List, data, content) == #[trigger] (
                "Stored key-value pairs:\n"@ + before + (key + ": "@ + data[key]) + after)
                &&& before.len() == 0 || before.last() == '\n'
                &&& after.len() == 0 || after[0] == '\n'
            },
{
    reveal_strlit("\n");
    list_shows_each_pair_once(data, content);
    assert(data.dom().len() > 0) by {
        if data.dom().len() == 0 {
            assert(data.dom() =~= Set::<Seq<char>>::empty());
        }
    }
    let lines = pair_lines(data);
    list_is_sorted_and_complete(data);
    let line = key + ": "@ + data[key];
    assert(lines.contains(line));
    let i = choose|i: int| 0 <= i < lines.len() && lines[i] == line;
    joined_holds_each(lines, "\n"@, i);
    let before = if i == 0 {
        Seq::empty()
    } else {
        joined(lines.take(i), "\n"@) + "\n"@
    };
    let after = if i + 1 == lines.len() {
        Seq::empty()
    } else {
        "\n"@ + joined(lines.skip(i + 1), "\n"@)
    };
    assert(command_answer(Command::List, data, content) =~= "Stored key-value pairs:\n"@ + before
        + (key + ": "@ + data[key]) + after);
}

/// Rearranged texts are as long together as before.
proof fn rearranged_len(a: Seq<Seq<char>>, b: Seq<Seq<char>>)
    requires
        a.to_multiset() == b.to_multiset(),
    ensures
        total_len(a) == total_len(b),
        a.len() == b.len(),
    decreases a.len(),
{
    broadcast use vstd::seq_lib::group_to_multiset_ensures;

    assert(a.len() == a.to_multiset().len());
    assert(b.len() == b.to_multiset().len());
    if a.len() > 0 {
        let front = a.drop_last();
        let last = a.last();
        assert(a =~= front.push(last));
        vstd::seq_lib::to_multiset_build(front, last);
        assert(b.to_multiset().count(last) > 0);
        assert(b.contains(last));
        let j = choose|j: int| 0 <= j < b.len() && b[j] == last;
        vstd::seq_lib::to_multiset_remove(b, j);
        assert(front.to_multiset() =~= b.remove(j).to_multiset());
        rearranged_len(front, b.remove(j));
        total_len_without(b, j);
    }
}

/// Taking a text out of a list takes its length off the total.
proof fn total_len_without(list: Seq<Seq<char>>, j: int)
    requires
        0 <= j < list.len(),
    ensures
        total_len(list) == total_len(list.remove(j)) + list[j].len(),
    decreases list.len(),
{
    if j + 1 == list.len() {
        assert(list.remove(j) =~= list.drop_last());
    } else {
        let rest = list.remove(j);
        assert(rest.drop_last() =~= list.drop_last().remove(j));
        assert(rest.last() == list.last());
        total_len_without(list.drop_last(), j);
    }
}

/// The answer to `List` is as long as its heading, all pairs with the colon and the space in
/// each, and the line breaks between them: nothing is cut off.
pub proof fn list_is_as_long_as_all_pairs(
    data: Pairs,
    content: Seq<char>,
    keys: Seq<Seq<char>>,
    lines: Seq<Seq<char>>,
)
    requires
        data.dom().len() > 0,
        data.dom().finite(),
        keys.no_duplicates(),
        keys.to_set() == data.dom(),
        lines.len() == keys.len(),
        forall|i: int|
            0 <= i < lines.len() ==> #[trigger] lines[i] == keys[i] + ": "@ + data[keys[i]],
    ensures
        command_answer(Command::List, data, content).len() == "Stored key-value pairs:\n"@.len()
            + total_len(lines) + data.dom().len() - 1,
{
    reveal_strlit("\n");
    let line = |key: Seq<char>| pair_line(key, data[key]);
    let others = data.dom().to_seq();
    to_seq_no_duplicates(data.dom());
    keys.unique_seq_to_set();
    others.unique_seq_to_set();
    lines_of_arrangements(keys, others, line);
    assert(lines =~= keys.map_values(line));
    crate::text::text_order_total();
    others.map_values(line).lemma_sort_by_ensures(text_order());
    let shown = pair_lines(data);
    assert(shown == others.map_values(line).sort_by(text_order()));
    rearranged_len(shown, lines);
    joined_len(shown, "\n"@);
    assert((shown.len() - 1) * "\n"@.len() == shown.len() - 1) by (nonlinear_arith)
        requires
            "\n"@.len() == 1,
    ;
}

} // verus!
