//! Maps whose keys are texts, kept in the order of their keys.
use crate::text::{characters, same_text};
use vstd::prelude::*;

verus! {

/// The order of texts: character by character, a prefix before what extends it.
pub open spec fn text_less(left: Seq<char>, right: Seq<char>) -> bool
    decreases left.len(),
{
    if right.len() == 0 {
        false
    } else if left.len() == 0 {
        true
    } else if left[0] != right[0] {
        left[0] < right[0]
    } else {
        text_less(left.drop_first(), right.drop_first())
    }
}

pub proof fn lemma_text_less_irreflexive(text: Seq<char>)
    ensures
        !text_less(text, text),
    decreases text.len(),
{
    if text.len() > 0 {
        lemma_text_less_irreflexive(text.drop_first());
    }
}

pub proof fn lemma_text_less_transitive(a: Seq<char>, b: Seq<char>, c: Seq<char>)
    requires
        text_less(a, b),
        text_less(b, c),
    ensures
        text_less(a, c),
    decreases a.len(),
{
    if a.len() > 0 && a[0] == b[0] && b[0] == c[0] {
        lemma_text_less_transitive(a.drop_first(), b.drop_first(), c.drop_first());
    }
}

pub proof fn lemma_text_less_total(a: Seq<char>, b: Seq<char>)
    ensures
        text_less(a, b) || a == b || text_less(b, a),
    decreases a.len(),
{
    if a.len() == 0 || b.len() == 0 {
        assert(a.len() == 0 && b.len() == 0 ==> a =~= b);
    } else if a[0] == b[0] {
        lemma_text_less_total(a.drop_first(), b.drop_first());
        if a.drop_first() == b.drop_first() {
            assert(a =~= seq![a[0]] + a.drop_first());
            assert(b =~= seq![b[0]] + b.drop_first());
        }
    }
}

/// Whether a text comes before another one.
pub fn text_before(left: &str, right: &str) -> (before: bool)
    ensures
        before == text_less(left@, right@),
{
    let left_chars = characters(left);
    let right_chars = characters(right);
    let mut index: usize = 0;
    proof {
        assert(left@.skip(0) =~= left@);
        assert(right@.skip(0) =~= right@);
    }
    while index < left_chars.len() && index < right_chars.len() && left_chars[index]
        == right_chars[index]
        invariant
            index <= left_chars.len(),
            index <= right_chars.len(),
            left_chars@ == left@,
            right_chars@ == right@,
            text_less(left@, right@) == text_less(
                left@.skip(index as int),
                right@.skip(index as int),
            ),
        decreases left_chars.len() - index,
    {
        proof {
            assert(left@.skip(index as int).drop_first() =~= left@.skip(index + 1));
            assert(right@.skip(index as int).drop_first() =~= right@.skip(index + 1));
        }
        index = index + 1;
    }
    if index >= right_chars.len() {
        false
    } else if index >= left_chars.len() {
        true
    } else {
        left_chars[index] < right_chars[index]
    }
}

/// A map from texts to values.
#[derive(Clone, Debug, PartialEq, Eq)]
pub struct TextMap<V> {
    entries: Vec<(String, V)>,
}

/// A position holds a key.
spec fn holds<V>(entries: Seq<(String, V)>, index: int, key: Seq<char>) -> bool {
    0 <= index < entries.len() && entries[index].0@ == key
}

impl<V> View for TextMap<V> {
    type V = Map<Seq<char>, V>;

    closed spec fn view(&self) -> Map<Seq<char>, V> {
        Map::new(
            |key: Seq<char>| exists|index: int| holds(self.entries@, index, key),
            |key: Seq<char>|
                self.entries@[choose|index: int| holds(self.entries@, index, key)].1,
        )
    }
}

/// Keys in ascending order.
pub open spec fn ascending(keys: Seq<Seq<char>>) -> bool {
    forall|i: int, j: int|
        0 <= i < j < keys.len() ==> text_less(#[trigger] keys[i], #[trigger] keys[j])
}

/// The texts of several strings.
pub open spec fn texts(strings: Seq<String>) -> Seq<Seq<char>> {
    Seq::new(strings.len(), |i: int| strings[i]@)
}

impl<V> TextMap<V> {
    /// The entries are in ascending order of their keys, so each key has one entry.
    pub closed spec fn well_formed(&self) -> bool {
        forall|i: int, j: int|
            0 <= i < j < self.entries@.len() ==> text_less(
                (#[trigger] self.entries@[i]).0@,
                (#[trigger] self.entries@[j]).0@,
            )
    }

    /// The keys in ascending order.
    pub closed spec fn key_texts(&self) -> Seq<Seq<char>> {
        Seq::new(self.entries@.len(), |i: int| self.entries@[i].0@)
    }

    proof fn lemma_entry(&self, index: int)
        requires
            self.well_formed(),
            0 <= index < self.entries@.len(),
        ensures
            self@.contains_key(self.entries@[index].0@),
            self@[self.entries@[index].0@] == self.entries@[index].1,
    {
        let key = self.entries@[index].0@;
        assert(holds(self.entries@, index, key));
        let chosen = choose|other: int| holds(self.entries@, other, key);
        lemma_text_less_irreflexive(key);
        if chosen < index {
            assert(text_less(self.entries@[chosen].0@, self.entries@[index].0@));
        } else if index < chosen {
            assert(text_less(self.entries@[index].0@, self.entries@[chosen].0@));
        }
    }

    /// A map without entries.
    pub fn new() -> (map: Self)
        ensures
            map@ == Map::<Seq<char>, V>::empty(),
            map.well_formed(),
    {
        let map = TextMap { entries: Vec::new() };
        proof {
            assert(map@ =~= Map::empty());
        }
        map
    }

    /// How many entries there are.
    pub fn len(&self) -> (length: usize)
        ensures
            length == self.key_texts().len(),
    {
        self.entries.len()
    }

    /// The key and the value of an entry, counted in ascending order of the keys.
    pub fn entry(&self, index: usize) -> (entry: (&String, &V))
        requires
            self.well_formed(),
            index < self.key_texts().len(),
        ensures
            entry.0@ == self.key_texts()[index as int],
            self@.contains_key(entry.0@),
            *entry.1 == self@[entry.0@],
    {
        proof {
            self.lemma_entry(index as int);
        }
        let entry = &self.entries[index];
        (&entry.0, &entry.1)
    }

    /// The keys in ascending order.
    pub fn keys(&self) -> (keys: Vec<String>)
        requires
            self.well_formed(),
        ensures
            texts(keys@) == self.key_texts(),
    {
        let mut keys: Vec<String> = Vec::new();
        let mut index: usize = 0;
        while index < self.entries.len()
            invariant
                index <= self.entries.len(),
                texts(keys@) == self.key_texts().take(index as int),
            decreases self.entries.len() - index,
        {
            let ghost before = keys@;
            keys.push(self.entries[index].0.clone());
            proof {
                assert(texts(keys@) =~= texts(before).push(self.entries@[index as int].0@));
                assert(self.key_texts().take(index + 1) =~= self.key_texts().take(
                    index as int,
                ).push(self.entries@[index as int].0@));
            }
            index = index + 1;
        }
        proof {
            assert(self.key_texts().take(index as int) =~= self.key_texts());
        }
        keys
    }

    /// The keys are ascending, and are those of the map.
    pub proof fn lemma_keys(&self)
        requires
            self.well_formed(),
        ensures
            ascending(self.key_texts()),
            forall|key: Seq<char>| #[trigger]
                self.key_texts().contains(key) <==> self@.contains_key(key),
    {
        assert forall|key: Seq<char>| #[trigger] self.key_texts().contains(key) implies
            self@.contains_key(key) by {
            let index = choose|index: int|
                0 <= index < self.key_texts().len() && self.key_texts()[index] == key;
            self.lemma_entry(index);
        }
        assert forall|key: Seq<char>| self@.contains_key(key) implies #[trigger]
            self.key_texts().contains(key) by {
            let index = choose|index: int| holds(self.entries@, index, key);
            assert(self.key_texts()[index] == key);
        }
    }

    /// The first position whose key does not come before the given one.
    fn position(&self, key: &str) -> (position: usize)
        requires
            self.well_formed(),
        ensures
            position <= self.entries@.len(),
            forall|i: int|
                0 <= i < position ==> text_less((#[trigger] self.entries@[i]).0@, key@),
            position < self.entries@.len() ==> !text_less(
                self.entries@[position as int].0@,
                key@,
            ),
    {
        let mut position: usize = 0;
        while position < self.entries.len() && text_before(
            self.entries[position].0.as_str(),
            key,
        )
            invariant
                position <= self.entries@.len(),
                forall|i: int|
                    0 <= i < position ==> text_less((#[trigger] self.entries@[i]).0@, key@),
            decreases self.entries.len() - position,
        {
            position = position + 1;
        }
        position
    }

    /// The position alone decides whether a key has an entry.
    proof fn lemma_position(&self, key: Seq<char>, position: int)
        requires
            self.well_formed(),
            0 <= position <= self.entries@.len(),
            forall|i: int| 0 <= i < position ==> text_less((#[trigger] self.entries@[i]).0@, key),
            position < self.entries@.len() ==> !text_less(self.entries@[position].0@, key),
        ensures
            self@.contains_key(key) <==> holds(self.entries@, position, key),
    {
        lemma_text_less_irreflexive(key);
        if holds(self.entries@, position, key) {
            self.lemma_entry(position);
        } else if self@.contains_key(key) {
            let index = choose|index: int| holds(self.entries@, index, key);
            if index >= position {
                lemma_text_less_total(self.entries@[position].0@, key);
                assert(text_less(key, self.entries@[position].0@));
                if index > position {
                    lemma_text_less_transitive(
                        key,
                        self.entries@[position].0@,
                        self.entries@[index].0@,
                    );
                }
            }
        }
    }

    /// The value of a key.
    pub fn get(&self, key: &str) -> (value: Option<&V>)
        requires
            self.well_formed(),
        ensures
            match value {
                Some(value) => self@.contains_key(key@) && *value == self@[key@],
                None => !self@.contains_key(key@),
            },
    {
        let position: usize = self.position(key);
        proof {
            self.lemma_position(key@, position as int);
        }
        if position < self.entries.len() && same_text(self.entries[position].0.as_str(), key) {
            proof {
                self.lemma_entry(position as int);
            }
            Some(&self.entries[position].1)
        } else {
            None
        }
    }

    /// Gives a key a value, in place of the one it had.
    pub fn insert(&mut self, key: String, value: V)
        requires
            old(self).well_formed(),
        ensures
            final(self).well_formed(),
            final(self)@ == old(self)@.insert(key@, value),
    {
        let position: usize = self.position(key.as_str());
        proof {
            self.lemma_position(key@, position as int);
        }
        if position < self.entries.len() && same_text(
            self.entries[position].0.as_str(),
            key.as_str(),
        ) {
            self.entries.remove(position);
        }
        let ghost rest = self.entries@;
        self.entries.insert(position, (key, value));
        proof {
            let before = old(self).entries@;
            let after = self.entries@;
            let held = holds(before, position as int, key@);
            let shift: int = if held {
                0
            } else {
                1
            };
            assert forall|i: int| position < i < after.len() implies #[trigger] after[i] == before[i
                - shift] by {}
            assert forall|i: int| 0 <= i < position implies #[trigger] after[i] == before[i] by {}
            assert forall|i: int, j: int| 0 <= i < j < after.len() implies text_less(
                (#[trigger] after[i]).0@,
                (#[trigger] after[j]).0@,
            ) by {
                if i == position {
                    let next = before[j - shift].0@;
                    let at = before[position as int].0@;
                    lemma_text_less_total(at, key@);
                    if j - shift > position {
                        assert(text_less(at, next));
                        if at != key@ {
                            lemma_text_less_transitive(key@, at, next);
                        }
                    }
                } else if j == position {
                    assert(text_less(before[i].0@, key@));
                } else if j < position {
                    assert(text_less(before[i].0@, before[j].0@));
                } else if i < position {
                    assert(text_less(before[i].0@, before[j - shift].0@));
                } else {
                    assert(text_less(before[i - shift].0@, before[j - shift].0@));
                }
            }
            assert(self.well_formed());
            assert forall|other: Seq<char>|
                self@.contains_key(other) <==> #[trigger] old(self)@.insert(
                    key@,
                    value,
                ).contains_key(other) by {
                if self@.contains_key(other) && other != key@ {
                    let index = choose|index: int| holds(after, index, other);
                    let origin = if index < position {
                        index
                    } else {
                        index - shift
                    };
                    assert(holds(before, origin, other));
                }
                if old(self)@.contains_key(other) && other != key@ {
                    let index = choose|index: int| holds(before, index, other);
                    let target = if index < position {
                        index
                    } else {
                        index + shift
                    };
                    assert(holds(after, target, other));
                }
                self.lemma_entry(position as int);
            }
            assert forall|other: Seq<char>| #[trigger] self@.contains_key(other) implies self@[other]
                == old(self)@.insert(key@, value)[other] by {
                let index = choose|index: int| holds(after, index, other);
                self.lemma_entry(index);
                if index == position {
                    assert(other == key@);
                } else {
                    let origin = if index < position {
                        index
                    } else {
                        index - shift
                    };
                    old(self).lemma_entry(origin);
                    self.lemma_entry(position as int);
                    if other == key@ {
                        lemma_text_less_irreflexive(key@);
                        if index < position {
                            assert(text_less(after[index].0@, after[position as int].0@));
                        } else {
                            assert(text_less(after[position as int].0@, after[index].0@));
                        }
                    }
                }
            }
            assert(self@ =~= old(self)@.insert(key@, value));
        }
    }
}

/// Texts are ordered by the first character in which they differ, and a text comes
/// before every longer one that begins with it.
pub proof fn texts_are_ordered_by_their_first_difference(
    left: Seq<char>,
    right: Seq<char>,
    place: int,
)
    requires
        0 <= place <= left.len(),
        place < right.len(),
        forall|i: int| 0 <= i < place ==> #[trigger] left[i] == right[i],
        place < left.len() ==> left[place] as int != right[place] as int,
    ensures
        text_less(left, right) <==> place == left.len() || (left[place] as int) < (
        right[place] as int),
    decreases place,
{
    if place > 0 {
        let rest = left.drop_first();
        let other = right.drop_first();
        assert(left[0] == right[0]);
        assert forall|i: int| 0 <= i < place - 1 implies #[trigger] rest[i] == other[i] by {
            assert(left[i + 1] == right[i + 1]);
        }
        texts_are_ordered_by_their_first_difference(rest, other, place - 1);
    }
}

/// The texts of strings stand in the order of the strings.
pub proof fn texts_stand_in_order(strings: Seq<String>, index: int)
    requires
        0 <= index < strings.len(),
    ensures
        texts(strings).len() == strings.len(),
        texts(strings)[index] == strings[index]@,
{
}

} // verus!
