//! JSON documents and what they say.
use vstd::prelude::*;

verus! {

/// A JSON number: an integer or a floating-point number.
#[verifier::external_type_specification]
#[verifier::external_body]
pub struct ExNumber(serde_json::Number);

/// The number is a floating-point number, not an integer.
pub uninterp spec fn floating(number: serde_json::Number) -> bool;

/// `serde_json::Number::is_f64` tells floating-point numbers from integers.
pub assume_specification[ serde_json::Number::is_f64 ](number: &serde_json::Number) -> (float: bool)
    ensures
        float == floating(*number),
;

/// A JSON document.
///
/// Where an object lists a key twice, the later entry counts.
#[derive(Debug, PartialEq)]
pub enum Json {
    Null,
    Bool(bool),
    Number(serde_json::Number),
    String(String),
    Array(Vec<Json>),
    Object(Vec<(String, Json)>),
}

/// What a JSON document says: objects are finite maps, without an order.
#[verifier::ext_equal]
pub enum JsonView {
    Null,
    Bool(bool),
    Number(serde_json::Number),
    Text(Seq<char>),
    Array(Seq<JsonView>),
    Object(Map<Seq<char>, JsonView>),
}

impl Json {
    /// The document that this tree stands for.
    pub open spec fn model(self) -> JsonView
        decreases self,
    {
        match self {
            Json::Null => JsonView::Null,
            Json::Bool(b) => JsonView::Bool(b),
            Json::Number(n) => JsonView::Number(n),
            Json::String(s) => JsonView::Text(s@),
            Json::Array(items) => JsonView::Array(items_model(items@)),
            Json::Object(entries) => JsonView::Object(entries_model(entries@)),
        }
    }
}

impl View for Json {
    type V = JsonView;

    open spec fn view(&self) -> JsonView {
        self.model()
    }
}

/// The documents of a list, in order.
pub open spec fn items_model(items: Seq<Json>) -> Seq<JsonView>
    decreases items,
{
    Seq::new(
        items.len(),
        |i: int|
            if 0 <= i < items.len() {
                items[i].model()
            } else {
                JsonView::Null
            },
    )
}

/// The members of an object: each key with the last value listed under it.
pub open spec fn entries_model(entries: Seq<(String, Json)>) -> Map<Seq<char>, JsonView>
    decreases entries,
{
    if entries.len() == 0 {
        Map::empty()
    } else {
        entries_model(entries.drop_last()).insert(entries.last().0@, entries.last().1.model())
    }
}

impl JsonView {
    /// The member of an object under a key; nothing has members but an object.
    pub open spec fn get(self, key: Seq<char>) -> Option<JsonView> {
        match self {
            JsonView::Object(members) => if members.dom().contains(key) {
                Some(members[key])
            } else {
                None
            },
            _ => None,
        }
    }

    /// The same object with one member set.
    pub open spec fn with(self, key: Seq<char>, value: JsonView) -> JsonView {
        match self {
            JsonView::Object(members) => JsonView::Object(members.insert(key, value)),
            _ => self,
        }
    }

    /// The same document, up to the digits of its floating-point numbers:
    /// wherever one has an integer, the other has that integer, and wherever
    /// one has a floating-point number, the other has some floating-point
    /// number.
    pub open spec fn agrees(self, other: JsonView) -> bool
        decreases self,
    {
        match (self, other) {
            (JsonView::Null, JsonView::Null) => true,
            (JsonView::Bool(a), JsonView::Bool(b)) => a == b,
            (JsonView::Number(a), JsonView::Number(b)) => if floating(a) {
                floating(b)
            } else {
                a == b
            },
            (JsonView::Text(a), JsonView::Text(b)) => a == b,
            (JsonView::Array(a), JsonView::Array(b)) => {
                &&& a.len() == b.len()
                &&& forall|i: int| 0 <= i < a.len() ==> (#[trigger] a[i]).agrees(b[i])
            },
            (JsonView::Object(a), JsonView::Object(b)) => {
                &&& a.dom() == b.dom()
                &&& forall|key: Seq<char>|
                    a.dom().contains(key) ==> (#[trigger] a[key]).agrees(b[key])
            },
            _ => false,
        }
    }

    /// There is no floating-point number in the document.
    pub open spec fn exact(self) -> bool
        decreases self,
    {
        match self {
            JsonView::Number(number) => !floating(number),
            JsonView::Array(items) => forall|i: int|
                0 <= i < items.len() ==> (#[trigger] items[i]).exact(),
            JsonView::Object(members) => forall|key: Seq<char>|
                members.dom().contains(key) ==> (#[trigger] members[key]).exact(),
            _ => true,
        }
    }

    /// Arrays and objects stand in each other at most `levels` deep, and no
    /// object has a member under the key `reserved`.
    pub open spec fn within(self, levels: nat, reserved: Seq<char>) -> bool
        decreases levels,
    {
        match self {
            JsonView::Array(items) => {
                &&& levels > 0
                &&& forall|i: int|
                    0 <= i < items.len() ==> (#[trigger] items[i]).within(
                        (levels - 1) as nat,
                        reserved,
                    )
            },
            JsonView::Object(members) => {
                &&& levels > 0
                &&& !members.dom().contains(reserved)
                &&& forall|key: Seq<char>|
                    members.dom().contains(key) ==> (#[trigger] members[key]).within(
                        (levels - 1) as nat,
                        reserved,
                    )
            },
            _ => true,
        }
    }
}

/// The key is listed at `i` and not after it.
spec fn last_at(entries: Seq<(String, Json)>, key: Seq<char>, i: int) -> bool {
    &&& 0 <= i < entries.len()
    &&& entries[i].0@ == key
    &&& forall|j: int| i < j < entries.len() ==> (#[trigger] entries[j]).0@ != key
}

proof fn lemma_last_counts(entries: Seq<(String, Json)>, key: Seq<char>, i: int)
    requires
        last_at(entries, key, i),
    ensures
        entries_model(entries).dom().contains(key),
        entries_model(entries)[key] == entries[i].1.model(),
    decreases entries.len(),
{
    if i < entries.len() - 1 {
        assert(last_at(entries.drop_last(), key, i));
        lemma_last_counts(entries.drop_last(), key, i);
        assert(entries.last().0@ != key);
    }
}

proof fn lemma_unlisted(entries: Seq<(String, Json)>, key: Seq<char>)
    requires
        forall|j: int| 0 <= j < entries.len() ==> (#[trigger] entries[j]).0@ != key,
    ensures
        !entries_model(entries).dom().contains(key),
    decreases entries.len(),
{
    if entries.len() > 0 {
        assert forall|j: int| 0 <= j < entries.drop_last().len() implies (
        #[trigger] entries.drop_last()[j]).0@ != key by {
            assert(entries.drop_last()[j] == entries[j]);
        }
        lemma_unlisted(entries.drop_last(), key);
        assert(entries.last().0@ != key);
    }
}

proof fn lemma_last_replaced(entries: Seq<(String, Json)>, i: int, entry: (String, Json))
    requires
        last_at(entries, entry.0@, i),
    ensures
        entries_model(entries.update(i, entry)) == entries_model(entries).insert(
            entry.0@,
            entry.1.model(),
        ),
    decreases entries.len(),
{
    let rest = entries.drop_last();
    let updated = entries.update(i, entry);
    if i == entries.len() - 1 {
        assert(updated.drop_last() =~= rest);
    } else {
        assert(last_at(rest, entry.0@, i));
        lemma_last_replaced(rest, i, entry);
        assert(updated.drop_last() =~= rest.update(i, entry));
        assert(updated.last() == entries.last());
        assert(entries.last().0@ != entry.0@);
    }
    assert(entries_model(updated) =~= entries_model(entries).insert(entry.0@, entry.1.model()));
}

proof fn lemma_listed(entries: Seq<(String, Json)>, key: Seq<char>) -> (i: int)
    requires
        entries_model(entries).dom().contains(key),
    ensures
        last_at(entries, key, i),
    decreases entries.len(),
{
    if entries.last().0@ == key {
        entries.len() - 1
    } else {
        let i = lemma_listed(entries.drop_last(), key);
        assert forall|j: int| i < j < entries.len() implies (#[trigger] entries[j]).0@ != key by {
            if j < entries.len() - 1 {
                assert(entries.drop_last()[j] == entries[j]);
            }
        }
        i
    }
}

/// Where a key is listed last.
fn last_index(entries: &Vec<(String, Json)>, key: &str) -> (found: Option<usize>)
    ensures
        match found {
            Some(i) => last_at(entries@, key@, i as int),
            None => forall|j: int| 0 <= j < entries@.len() ==> (#[trigger] entries@[j]).0@ != key@,
        },
{
    let wanted: String = key.to_owned();
    let mut i: usize = entries.len();
    while i > 0
        invariant
            i <= entries@.len(),
            wanted@ == key@,
            forall|j: int| i <= j < entries@.len() ==> (#[trigger] entries@[j]).0@ != key@,
        decreases i,
    {
        i = i - 1;
        if entries[i].0 == wanted {
            return Some(i);
        }
    }
    None
}

/// Sets a member of an object.
pub(crate) fn put_member(entries: &mut Vec<(String, Json)>, key: &str, value: Json)
    ensures
        entries_model(final(entries)@) == entries_model(old(entries)@).insert(key@, value@),
{
    let ghost before = entries@;
    match last_index(entries, key) {
        Some(i) => {
            let entry = (key.to_owned(), value);
            proof {
                lemma_last_replaced(before, i as int, entry);
            }
            entries[i] = entry;
        },
        None => {
            entries.push((key.to_owned(), value));
            assert(entries@.drop_last() =~= before);
        },
    }
}

/// Takes a member out of an object and leaves `null` in its place.
pub(crate) fn take_member(entries: &mut Vec<(String, Json)>, key: &str) -> (taken: Option<Json>)
    ensures
        match taken {
            Some(value) => {
                &&& entries_model(old(entries)@).dom().contains(key@)
                &&& value@ == entries_model(old(entries)@)[key@]
                &&& entries_model(final(entries)@) == entries_model(old(entries)@).insert(
                    key@,
                    JsonView::Null,
                )
            },
            None => {
                &&& !entries_model(old(entries)@).dom().contains(key@)
                &&& final(entries)@ == old(entries)@
            },
        },
{
    let ghost before = entries@;
    match last_index(entries, key) {
        Some(i) => {
            let (listed, value) = entries.remove(i);
            let entry = (listed, Json::Null);
            proof {
                lemma_last_counts(before, key@, i as int);
                lemma_last_replaced(before, i as int, entry);
            }
            entries.insert(i, entry);
            assert(entries@ =~= before.update(i as int, entry));
            Some(value)
        },
        None => {
            proof {
                lemma_unlisted(before, key@);
            }
            None
        },
    }
}

impl Json {
    /// The member of an object under a key; nothing has members but an object.
    pub fn get(&self, key: &str) -> (found: Option<&Json>)
        ensures
            match found {
                Some(value) => self@.get(key@) == Some(value@),
                None => self@.get(key@) is None,
            },
    {
        match self {
            Json::Object(entries) => match last_index(entries, key) {
                Some(i) => {
                    proof {
                        lemma_last_counts(entries@, key@, i as int);
                    }
                    Some(&entries[i].1)
                },
                None => {
                    proof {
                        lemma_unlisted(entries@, key@);
                    }
                    None
                },
            },
            _ => None,
        }
    }
}

/// Whether the entry at an index counts: its key is not listed after it.
fn counts(entries: &Vec<(String, Json)>, i: usize) -> (last: bool)
    requires
        i < entries@.len(),
    ensures
        last == last_at(entries@, entries@[i as int].0@, i as int),
{
    match last_index(entries, entries[i].0.as_str()) {
        Some(j) => i == j,
        None => false,
    }
}

impl Json {
    /// Whether there is no floating-point number in the document.
    pub fn is_exact(&self) -> (exact: bool)
        ensures
            exact == self@.exact(),
        decreases self,
    {
        match self {
            Json::Number(number) => !number.is_f64(),
            Json::Array(items) => {
                let mut i: usize = 0;
                while i < items.len()
                    invariant
                        self == Json::Array(*items),
                        i <= items@.len(),
                        forall|j: int| 0 <= j < i ==> (#[trigger] items@[j])@.exact(),
                    decreases items@.len() - i,
                {
                    proof {
                        assert(decreases_to!(self => self->Array_0));
                        assert(decreases_to!(items => items@[i as int]));
                    }
                    if !items[i].is_exact() {
                        assert(!self@->Array_0[i as int].exact());
                        return false;
                    }
                    i = i + 1;
                }
                true
            },
            Json::Object(entries) => {
                let mut i: usize = 0;
                while i < entries.len()
                    invariant
                        self == Json::Object(*entries),
                        i <= entries@.len(),
                        forall|j: int|
                            0 <= j < i && last_at(entries@, (#[trigger] entries@[j]).0@, j)
                                ==> entries@[j].1@.exact(),
                    decreases entries@.len() - i,
                {
                    if counts(entries, i) {
                        proof {
                            lemma_last_counts(entries@, entries@[i as int].0@, i as int);
                            assert(decreases_to!(self => self->Object_0));
                            assert(decreases_to!(entries => entries@[i as int]));
                            assert(decreases_to!(entries@[i as int] => entries@[i as int].1));
                        }
                        if !entries[i].1.is_exact() {
                            assert(!self@->Object_0[entries@[i as int].0@].exact());
                            return false;
                        }
                    }
                    i = i + 1;
                }
                proof {
                    assert forall|key: Seq<char>| entries_model(entries@).dom().contains(key) implies (
                    #[trigger] entries_model(entries@)[key]).exact() by {
                        let j = lemma_listed(entries@, key);
                        lemma_last_counts(entries@, key, j);
                        assert(entries@[j].0@ == key);
                    }
                }
                true
            },
            _ => true,
        }
    }

    /// Whether arrays and objects stand in each other at most `levels` deep,
    /// and no object has a member under the key `reserved`.
    pub(crate) fn is_within(&self, levels: u8, reserved: &str) -> (fits: bool)
        ensures
            fits == self@.within(levels as nat, reserved@),
        decreases levels,
    {
        match self {
            Json::Array(items) => {
                if levels == 0 {
                    return false;
                }
                let mut i: usize = 0;
                while i < items.len()
                    invariant
                        self == Json::Array(*items),
                        levels > 0,
                        i <= items@.len(),
                        forall|j: int|
                            0 <= j < i ==> (#[trigger] items@[j])@.within(
                                (levels - 1) as nat,
                                reserved@,
                            ),
                    decreases items@.len() - i,
                {
                    if !items[i].is_within(levels - 1, reserved) {
                        assert(!self@->Array_0[i as int].within(
                            (levels - 1) as nat,
                            reserved@,
                        ));
                        return false;
                    }
                    i = i + 1;
                }
                true
            },
            Json::Object(entries) => {
                if levels == 0 {
                    return false;
                }
                if let Some(i) = last_index(entries, reserved) {
                    proof {
                        lemma_last_counts(entries@, reserved@, i as int);
                    }
                    return false;
                }
                proof {
                    lemma_unlisted(entries@, reserved@);
                }
                let mut i: usize = 0;
                while i < entries.len()
                    invariant
                        self == Json::Object(*entries),
                        levels > 0,
                        i <= entries@.len(),
                        forall|j: int|
                            0 <= j < i && last_at(entries@, (#[trigger] entries@[j]).0@, j)
                                ==> entries@[j].1@.within((levels - 1) as nat, reserved@),
                    decreases entries@.len() - i,
                {
                    if counts(entries, i) {
                        proof {
                            lemma_last_counts(entries@, entries@[i as int].0@, i as int);
                        }
                        if !entries[i].1.is_within(levels - 1, reserved) {
                            assert(!self@->Object_0[entries@[i as int].0@].within(
                                (levels - 1) as nat,
                                reserved@,
                            ));
                            return false;
                        }
                    }
                    i = i + 1;
                }
                proof {
                    assert forall|key: Seq<char>| entries_model(entries@).dom().contains(key) implies (
                    #[trigger] entries_model(entries@)[key]).within(
                        (levels - 1) as nat,
                        reserved@,
                    ) by {
                        let j = lemma_listed(entries@, key);
                        lemma_last_counts(entries@, key, j);
                        assert(entries@[j].0@ == key);
                    }
                }
                true
            },
            _ => true,
        }
    }
}

/// A document agrees with itself.
pub proof fn law_agrees_with_itself(document: JsonView)
    ensures
        document.agrees(document),
    decreases document,
{
    match document {
        JsonView::Array(items) => {
            assert forall|i: int| 0 <= i < items.len() implies (#[trigger] items[i]).agrees(
                items[i],
            ) by {
                law_agrees_with_itself(items[i]);
            }
        },
        JsonView::Object(members) => {
            assert forall|key: Seq<char>| members.dom().contains(key) implies (
            #[trigger] members[key]).agrees(members[key]) by {
                law_agrees_with_itself(members[key]);
            }
        },
        _ => {},
    }
}

/// A document that agrees with one that has no floating-point numbers is that
/// document.
pub proof fn law_exact_agreement_is_equality(document: JsonView, other: JsonView)
    requires
        document.exact(),
        document.agrees(other),
    ensures
        other == document,
    decreases document,
{
    match document {
        JsonView::Array(items) => {
            let others = other->Array_0;
            assert forall|i: int| 0 <= i < items.len() implies #[trigger] items[i] == others[i] by {
                law_exact_agreement_is_equality(items[i], others[i]);
            }
            assert(items =~= others);
        },
        JsonView::Object(members) => {
            let others = other->Object_0;
            assert forall|key: Seq<char>| members.dom().contains(key) implies #[trigger] members[key]
                == others[key] by {
                law_exact_agreement_is_equality(members[key], others[key]);
            }
            assert(members =~= others);
        },
        _ => {},
    }
}

/// A tree says what it is built of: the leaves as they are, the elements of an
/// array in their order, and of an object each listed key with the value that
/// is listed last under it.
pub proof fn law_trees_say_what_they_are_built_of(json: Json)
    ensures
        match json {
            Json::Null => json@ is Null,
            Json::Bool(b) => json@ matches JsonView::Bool(said) && said == b,
            Json::Number(n) => json@ matches JsonView::Number(said) && said == n,
            Json::String(s) => json@ matches JsonView::Text(said) && said == s@,
            Json::Array(items) => {
                &&& json@ matches JsonView::Array(said)
                &&& said.len() == items@.len()
                &&& forall|i: int| 0 <= i < said.len() ==> #[trigger] said[i] == items@[i]@
            },
            Json::Object(entries) => {
                &&& json@ matches JsonView::Object(said)
                &&& forall|key: Seq<char>| #[trigger]
                    said.dom().contains(key) <==> exists|i: int|
                        0 <= i < entries@.len() && (#[trigger] entries@[i]).0@ == key
                &&& forall|i: int|
                    0 <= i < entries@.len() && (forall|j: int|
                        i < j < entries@.len() ==> (#[trigger] entries@[j]).0@
                            != entries@[i].0@) ==> said[(#[trigger] entries@[i]).0@]
                        == entries@[i].1@
            },
        },
{
    if let Json::Object(entries) = json {
        let said = entries_model(entries@);
        assert forall|key: Seq<char>| #[trigger] said.dom().contains(key) <==> exists|i: int|
            0 <= i < entries@.len() && (#[trigger] entries@[i]).0@ == key by {
            if said.dom().contains(key) {
                let i = lemma_listed(entries@, key);
                assert(entries@[i].0@ == key);
            } else if exists|i: int| 0 <= i < entries@.len() && (#[trigger] entries@[i]).0@ == key {
                let i = choose|i: int| 0 <= i < entries@.len() && (#[trigger] entries@[i]).0@ == key;
                lemma_entry_listed(entries@, i);
            }
        }
        assert forall|i: int|
            0 <= i < entries@.len() && (forall|j: int|
                i < j < entries@.len() ==> (#[trigger] entries@[j]).0@
                    != entries@[i].0@) implies said[(#[trigger] entries@[i]).0@]
            == entries@[i].1@ by {
            lemma_last_counts(entries@, entries@[i].0@, i);
        }
    }
}

proof fn lemma_entry_listed(entries: Seq<(String, Json)>, i: int)
    requires
        0 <= i < entries.len(),
    ensures
        entries_model(entries).dom().contains(entries[i].0@),
    decreases entries.len(),
{
    if i < entries.len() - 1 {
        assert(entries.drop_last()[i] == entries[i]);
        lemma_entry_listed(entries.drop_last(), i);
    }
}

/// A list of trees says what its elements say, in their order.
pub proof fn law_lists_say_what_their_elements_say(items: Seq<Json>)
    ensures
        items_model(items).len() == items.len(),
        forall|i: int| 0 <= i < items.len() ==> #[trigger] items_model(items)[i] == items[i]@,
{
}

/// Looking a key up finds the member of an object, and nothing in anything
/// else. A member that is set is found, and the others stay as they are.
pub proof fn law_members_are_found_by_their_keys(
    document: JsonView,
    key: Seq<char>,
    value: JsonView,
    other: Seq<char>,
)
    ensures
        document !is Object ==> document.get(key) is None && document.with(key, value) == document,
        document matches JsonView::Object(members) ==> {
            &&& document.get(key) is Some <==> members.dom().contains(key)
            &&& document.get(key) matches Some(found) ==> found == members[key]
            &&& document.with(key, value).get(key) == Some(value)
            &&& other != key ==> document.with(key, value).get(other) == document.get(other)
        },
{
}

/// Documents that agree are of one kind and agree part by part; texts, truth
/// values and integers are the same.
pub proof fn law_agreement_is_part_by_part(document: JsonView, other: JsonView)
    requires
        document.agrees(other),
    ensures
        match document {
            JsonView::Null => other is Null,
            JsonView::Bool(b) => other matches JsonView::Bool(seen) && seen == b,
            JsonView::Number(n) => {
                &&& other matches JsonView::Number(seen)
                &&& !floating(n) ==> seen == n
                &&& floating(n) ==> floating(seen)
            },
            JsonView::Text(text) => other matches JsonView::Text(seen) && seen == text,
            JsonView::Array(items) => {
                &&& other matches JsonView::Array(seen)
                &&& seen.len() == items.len()
                &&& forall|i: int| 0 <= i < items.len() ==> (#[trigger] items[i]).agrees(seen[i])
            },
            JsonView::Object(members) => {
                &&& other matches JsonView::Object(seen)
                &&& forall|key: Seq<char>| #[trigger]
                    members.dom().contains(key) <==> seen.dom().contains(key)
                &&& forall|key: Seq<char>|
                    members.dom().contains(key) ==> (#[trigger] members[key]).agrees(seen[key])
            },
        },
{
}

/// A document is exact if all of its parts are, and a number if it is no
/// floating-point number.
pub proof fn law_exactness_is_that_of_the_parts(document: JsonView)
    ensures
        match document {
            JsonView::Number(n) => document.exact() <==> !floating(n),
            JsonView::Array(items) => document.exact() <==> forall|i: int|
                0 <= i < items.len() ==> (#[trigger] items[i]).exact(),
            JsonView::Object(members) => document.exact() <==> forall|key: Seq<char>|
                members.dom().contains(key) ==> (#[trigger] members[key]).exact(),
            _ => document.exact(),
        },
{
}

/// A document stays within some levels exactly if it needs no level, or one
/// and its parts stay within the rest; no object has the reserved key.
pub proof fn law_levels_are_those_of_the_parts(document: JsonView, levels: nat, reserved: Seq<char>)
    ensures
        match document {
            JsonView::Array(items) => {
                &&& !document.within(0, reserved)
                &&& document.within(levels + 1, reserved) <==> forall|i: int|
                    0 <= i < items.len() ==> (#[trigger] items[i]).within(levels, reserved)
            },
            JsonView::Object(members) => {
                &&& !document.within(0, reserved)
                &&& document.within(levels + 1, reserved) <==> {
                    &&& !members.dom().contains(reserved)
                    &&& forall|key: Seq<char>|
                        members.dom().contains(key) ==> (#[trigger] members[key]).within(
                            levels,
                            reserved,
                        )
                }
            },
            _ => document.within(levels, reserved),
        },
{
}

} // verus!
