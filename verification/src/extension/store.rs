//! The mathematics of an extension store: a list of names, each with the
//! values that were captured under it, in which no name stands twice.

use crate::event::{AttributeModel, EventModel};
use vstd::prelude::*;

verus! {

/// What one captured element holds.
pub struct ExtensionModel {
    /// The name of the element as written, prefix included.
    pub name: Seq<char>,
    /// The text that lies directly in the element, if there is any.
    pub value: Option<Seq<char>>,
    /// The attributes, each name once, in the order of their first occurrence.
    pub attrs: Seq<(Seq<char>, Seq<char>)>,
    /// The child elements, captured in the same way.
    pub children: Seq<(Seq<char>, Seq<ExtensionModel>)>,
}

impl ExtensionModel {
    /// The attributes of the start tag that stands for this element.
    pub open spec fn attributes(self) -> Seq<AttributeModel> {
        Seq::new(
            self.attrs.len(),
            |i: int| AttributeModel { name: self.attrs[i].0, value: Some(self.attrs[i].1) },
        )
    }

    /// The events that stand for the text of this element: one piece where
    /// it has a text, none where it has not.
    pub open spec fn text_events(self) -> Seq<EventModel> {
        match self.value {
            Some(text) => seq![EventModel::Text { text: text }],
            None => Seq::empty(),
        }
    }

    /// The events that stand for this element: its start tag with its
    /// attributes, its text, its children name by name and each in the order
    /// in which they were captured, and its end tag.
    pub open spec fn events(self) -> Seq<EventModel>
        decreases self, 1nat,
    {
        seq![EventModel::Start { name: self.name, attributes: self.attributes() }]
            + self.text_events() + events_of_children(self.children) + seq![
            EventModel::End { name: self.name },
        ]
    }
}

/// The events that stand for the captured children of an element.
pub open spec fn events_of_children(entries: Seq<(Seq<char>, Seq<ExtensionModel>)>) -> Seq<
    EventModel,
>
    decreases entries, 0nat,
{
    if entries.len() == 0 {
        Seq::empty()
    } else {
        events_of_values(entries[0].1) + events_of_children(entries.skip(1))
    }
}

/// The events that stand for captured elements, one behind the other.
pub open spec fn events_of_values(values: Seq<ExtensionModel>) -> Seq<EventModel>
    decreases values, 0nat,
{
    if values.len() == 0 {
        Seq::empty()
    } else {
        values[0].events() + events_of_values(values.skip(1))
    }
}

/// Whether no name stands twice in `entries`.
pub open spec fn names_distinct<V>(entries: Seq<(Seq<char>, V)>) -> bool {
    forall|i: int, j: int|
        0 <= i < j < entries.len() ==> (#[trigger] entries[i]).0 != (#[trigger] entries[j]).0
}

/// Where in `entries` the name stands first.
pub open spec fn position_of<V>(entries: Seq<(Seq<char>, V)>, name: Seq<char>) -> Option<int>
    decreases entries.len(),
{
    if entries.len() == 0 {
        None
    } else if entries[0].0 == name {
        Some(0)
    } else {
        match position_of(entries.skip(1), name) {
            Some(i) => Some(i + 1),
            None => None,
        }
    }
}

/// What is held under `name`.
pub open spec fn value_of<V>(entries: Seq<(Seq<char>, V)>, name: Seq<char>) -> Option<V> {
    match position_of(entries, name) {
        Some(i) => Some(entries[i].1),
        None => None,
    }
}

/// The entries as a map from each name to what is held under it.
pub open spec fn as_map<V>(entries: Seq<(Seq<char>, V)>) -> Map<Seq<char>, V> {
    Map::new(
        |name: Seq<char>| value_of(entries, name) is Some,
        |name: Seq<char>| value_of(entries, name)->Some_0,
    )
}

/// The entries with one more value behind those held under `name`, which
/// gets an entry of its own, behind all others, where it had none.
pub open spec fn with_value<T>(
    entries: Seq<(Seq<char>, Seq<T>)>,
    name: Seq<char>,
    value: T,
) -> Seq<(Seq<char>, Seq<T>)> {
    match position_of(entries, name) {
        Some(i) => entries.update(i, (name, entries[i].1.push(value))),
        None => entries.push((name, seq![value])),
    }
}

/// The entries without the one for `name`.
pub open spec fn without<V>(entries: Seq<(Seq<char>, V)>, name: Seq<char>) -> Seq<
    (Seq<char>, V),
> {
    match position_of(entries, name) {
        Some(i) => entries.remove(i),
        None => entries,
    }
}

/// The position that is found is the first at which the name stands, and
/// none is found only where the name stands nowhere.
pub proof fn lemma_position_of<V>(entries: Seq<(Seq<char>, V)>, name: Seq<char>)
    ensures
        match position_of(entries, name) {
            Some(i) => 0 <= i < entries.len() && entries[i].0 == name && forall|j: int|
                0 <= j < i ==> (#[trigger] entries[j]).0 != name,
            None => forall|j: int| 0 <= j < entries.len() ==> (#[trigger] entries[j]).0 != name,
        },
    decreases entries.len(),
{
    if entries.len() > 0 && entries[0].0 != name {
        let tail = entries.skip(1);
        lemma_position_of(tail, name);
        match position_of(tail, name) {
            Some(i) => {
                assert forall|j: int| 0 <= j < i + 1 implies (#[trigger] entries[j]).0 != name by {
                    if j > 0 {
                        assert(tail[j - 1] == entries[j]);
                    }
                }
            },
            None => {
                assert forall|j: int| 0 <= j < entries.len() implies (#[trigger] entries[j]).0
                    != name by {
                    if j > 0 {
                        assert(tail[j - 1] == entries[j]);
                    }
                }
            },
        }
    }
}

/// A position at which the name stands, with no earlier one, is the one that
/// is found.
pub proof fn lemma_position_is<V>(entries: Seq<(Seq<char>, V)>, name: Seq<char>, i: int)
    requires
        0 <= i < entries.len(),
        entries[i].0 == name,
        forall|j: int| 0 <= j < i ==> (#[trigger] entries[j]).0 != name,
    ensures
        position_of(entries, name) == Some(i),
{
    lemma_position_of(entries, name);
}

/// A name that stands nowhere is not found.
pub proof fn lemma_position_none<V>(entries: Seq<(Seq<char>, V)>, name: Seq<char>)
    requires
        forall|j: int| 0 <= j < entries.len() ==> (#[trigger] entries[j]).0 != name,
    ensures
        position_of(entries, name) is None,
{
    lemma_position_of(entries, name);
}

/// Adding a value keeps the names distinct, puts the value behind those held
/// under its name, and leaves what is held under every other name.
pub proof fn lemma_with_value<T>(entries: Seq<(Seq<char>, Seq<T>)>, name: Seq<char>, value: T)
    requires
        names_distinct(entries),
    ensures
        names_distinct(with_value(entries, name, value)),
        as_map(with_value(entries, name, value)) == as_map(entries).insert(
            name,
            match value_of(entries, name) {
                Some(values) => values.push(value),
                None => seq![value],
            },
        ),
{
    let after = with_value(entries, name, value);
    lemma_position_of(entries, name);
    assert forall|other: Seq<char>| #[trigger] value_of(after, other) == (if other == name {
        Some(
            match value_of(entries, name) {
                Some(values) => values.push(value),
                None => seq![value],
            },
        )
    } else {
        value_of(entries, other)
    }) by {
        lemma_position_of(entries, other);
        match position_of(entries, name) {
            Some(i) => {
                if other == name {
                    lemma_position_is(after, other, i);
                } else {
                    match position_of(entries, other) {
                        Some(k) => {
                            lemma_position_is(after, other, k);
                        },
                        None => {
                            lemma_position_none(after, other);
                        },
                    }
                }
            },
            None => {
                if other == name {
                    lemma_position_is(after, other, entries.len() as int);
                } else {
                    match position_of(entries, other) {
                        Some(k) => {
                            lemma_position_is(after, other, k);
                        },
                        None => {
                            lemma_position_none(after, other);
                        },
                    }
                }
            },
        }
    }
    assert(as_map(after) =~= as_map(entries).insert(
        name,
        match value_of(entries, name) {
            Some(values) => values.push(value),
            None => seq![value],
        },
    ));
}

/// Taking a name out keeps the names distinct, leaves nothing under that
/// name, and leaves what is held under every other name.
pub proof fn lemma_without<V>(entries: Seq<(Seq<char>, V)>, name: Seq<char>)
    requires
        names_distinct(entries),
    ensures
        names_distinct(without(entries, name)),
        as_map(without(entries, name)) == as_map(entries).remove(name),
{
    let after = without(entries, name);
    lemma_position_of(entries, name);
    assert forall|other: Seq<char>| #[trigger] value_of(after, other) == (if other == name {
        None
    } else {
        value_of(entries, other)
    }) by {
        lemma_position_of(entries, other);
        match position_of(entries, name) {
            Some(i) => {
                if other == name {
                    lemma_position_none(after, other);
                } else {
                    match position_of(entries, other) {
                        Some(k) => {
                            if k < i {
                                lemma_position_is(after, other, k);
                            } else {
                                lemma_position_is(after, other, k - 1);
                            }
                        },
                        None => {
                            lemma_position_none(after, other);
                        },
                    }
                }
            },
            None => {},
        }
    }
    assert(as_map(after) =~= as_map(entries).remove(name));
}

/// The entries with each of `values` put behind those held under `name`,
/// one after the other.
pub open spec fn with_values<T>(
    entries: Seq<(Seq<char>, Seq<T>)>,
    name: Seq<char>,
    values: Seq<T>,
) -> Seq<(Seq<char>, Seq<T>)>
    decreases values.len(),
{
    if values.len() == 0 {
        entries
    } else {
        with_values(with_value(entries, name, values[0]), name, values.skip(1))
    }
}

/// Adding values keeps the names distinct, puts the values behind those held
/// under their name, and leaves what is held under every other name. Without
/// a value, nothing changes.
pub proof fn lemma_with_values<T>(
    entries: Seq<(Seq<char>, Seq<T>)>,
    name: Seq<char>,
    values: Seq<T>,
)
    requires
        names_distinct(entries),
    ensures
        names_distinct(with_values(entries, name, values)),
        as_map(with_values(entries, name, values)) == (if values.len() == 0 {
            as_map(entries)
        } else {
            as_map(entries).insert(
                name,
                match value_of(entries, name) {
                    Some(held) => held + values,
                    None => values,
                },
            )
        }),
    decreases values.len(),
{
    if values.len() > 0 {
        let next = with_value(entries, name, values[0]);
        let rest = values.skip(1);
        lemma_with_value(entries, name, values[0]);
        lemma_with_values(next, name, rest);
        let held = match value_of(entries, name) {
            Some(held) => held,
            None => Seq::empty(),
        };
        let added = match value_of(entries, name) {
            Some(values_held) => values_held.push(values[0]),
            None => seq![values[0]],
        };
        assert(added =~= held.push(values[0]));
        assert(as_map(next).contains_key(name));
        assert(as_map(next)[name] == added);
        assert(value_of(next, name) is Some);
        assert(value_of(next, name)->Some_0 == as_map(next)[name]);
        assert(value_of(next, name) == Some(held.push(values[0])));
        assert(held.push(values[0]) + rest =~= held + values);
        assert(Seq::<T>::empty() + values =~= values);
        if rest.len() == 0 {
            assert(held.push(values[0]) =~= held + values);
        }
        assert(as_map(with_values(entries, name, values)) =~= as_map(entries).insert(
            name,
            held + values,
        ));
    }
}

/// Putting values in one after the other, the last goes in last.
pub proof fn lemma_with_values_push<T>(
    entries: Seq<(Seq<char>, Seq<T>)>,
    name: Seq<char>,
    values: Seq<T>,
    value: T,
)
    ensures
        with_values(entries, name, values.push(value)) == with_value(
            with_values(entries, name, values),
            name,
            value,
        ),
    decreases values.len(),
{
    let all = values.push(value);
    if values.len() == 0 {
        let next = with_value(entries, name, value);
        assert(all.skip(1) =~= Seq::<T>::empty());
        assert(all[0] == value);
        assert(with_values(next, name, all.skip(1)) == next);
        assert(with_values(entries, name, all) == with_values(next, name, all.skip(1)));
    } else {
        let next = with_value(entries, name, values[0]);
        assert(all[0] == values[0]);
        assert(all.skip(1) =~= values.skip(1).push(value));
        lemma_with_values_push(next, name, values.skip(1), value);
        assert(with_values(entries, name, all) == with_values(next, name, all.skip(1)));
        assert(with_values(entries, name, values) == with_values(next, name, values.skip(1)));
    }
}

/// The entries without those for `names`, taken out one after the other.
pub open spec fn without_all<V>(entries: Seq<(Seq<char>, V)>, names: Seq<Seq<char>>) -> Seq<
    (Seq<char>, V),
>
    decreases names.len(),
{
    if names.len() == 0 {
        entries
    } else {
        without_all(without(entries, names[0]), names.skip(1))
    }
}

/// Taking names out one after the other, the last goes out last.
pub proof fn lemma_without_all_push<V>(
    entries: Seq<(Seq<char>, V)>,
    names: Seq<Seq<char>>,
    name: Seq<char>,
)
    ensures
        without_all(entries, names.push(name)) == without(without_all(entries, names), name),
    decreases names.len(),
{
    let all = names.push(name);
    if names.len() == 0 {
        let next = without(entries, name);
        assert(all.skip(1) =~= Seq::<Seq<char>>::empty());
        assert(all[0] == name);
        assert(without_all(next, all.skip(1)) == next);
        assert(without_all(entries, all) == without_all(next, all.skip(1)));
    } else {
        let next = without(entries, names[0]);
        assert(all[0] == names[0]);
        assert(all.skip(1) =~= names.skip(1).push(name));
        lemma_without_all_push(next, names.skip(1), name);
        assert(without_all(entries, all) == without_all(next, all.skip(1)));
        assert(without_all(entries, names) == without_all(next, names.skip(1)));
    }
}

} // verus!
