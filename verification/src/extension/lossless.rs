//! Nothing is lost: a captured element that is written and captured again
//! is the same element.

use crate::error::ErrorModel;
use crate::event::{AttributeModel, EventModel};
use crate::extension::captured_attributes;
use crate::extension::store::{
    events_of_children, events_of_values, lemma_position_is, lemma_position_none,
    lemma_position_of, lemma_with_value, names_distinct, position_of, with_value, with_values,
    ExtensionModel,
};
use crate::util::joined;
use crate::text::local_part;
use vstd::prelude::*;

verus! {

/// Whether a captured element is as capturing makes it: no attribute stands
/// twice, and its children are kept as capturing keeps them.
pub open spec fn faithful(extension: ExtensionModel) -> bool
    decreases extension, 1nat,
{
    names_distinct(extension.attrs) && faithful_children(extension.children)
}

/// Whether captured children are kept as capturing keeps them: no name
/// stands twice, and under each name stands at least one value, each of
/// which has that name as the local part of its own and is faithful itself.
pub open spec fn faithful_children(entries: Seq<(Seq<char>, Seq<ExtensionModel>)>) -> bool
    decreases entries, 0nat,
{
    names_distinct(entries) && forall|i: int|
        0 <= i < entries.len() ==> (#[trigger] entries[i]).1.len() > 0 && faithful_values(
            entries[i].0,
            entries[i].1,
        )
}

/// Whether each of `values` has `key` as the local part of its name and is
/// faithful itself.
pub open spec fn faithful_values(key: Seq<char>, values: Seq<ExtensionModel>) -> bool
    decreases values, 0nat,
{
    forall|j: int|
        0 <= j < values.len() ==> local_part((#[trigger] values[j]).name) == key && faithful(
            values[j],
        )
}

/// The attributes of a start tag that carries `attrs`.
pub open spec fn attributes_for(attrs: Seq<(Seq<char>, Seq<char>)>) -> Seq<AttributeModel> {
    Seq::new(attrs.len(), |i: int| AttributeModel { name: attrs[i].0, value: Some(attrs[i].1) })
}

/// Attributes that are written, no name twice, are captured as they were.
proof fn lemma_attributes_captured(attrs: Seq<(Seq<char>, Seq<char>)>)
    requires
        names_distinct(attrs),
    ensures
        captured_attributes(attributes_for(attrs)) == Ok::<
            Seq<(Seq<char>, Seq<char>)>,
            ErrorModel,
        >(attrs),
    decreases attrs.len(),
{
    if attrs.len() == 0 {
        assert(attrs =~= Seq::<(Seq<char>, Seq<char>)>::empty());
    } else {
        let before = attrs.drop_last();
        assert(attributes_for(attrs).drop_last() =~= attributes_for(before));
        assert forall|i: int, j: int| 0 <= i < j < before.len() implies (#[trigger] before[i]).0
            != (#[trigger] before[j]).0 by {
            assert(before[i] == attrs[i]);
            assert(before[j] == attrs[j]);
        }
        lemma_attributes_captured(before);
        assert forall|j: int| 0 <= j < before.len() implies (#[trigger] before[j]).0
            != attrs.last().0 by {
            assert(before[j] == attrs[j]);
        }
        lemma_position_none(before, attrs.last().0);
        assert(before.push(attrs.last()) =~= attrs);
    }
}

/// Values that are put, one after the other, behind those held under the
/// last name stay under that name.
proof fn lemma_with_values_behind<T>(
    entries: Seq<(Seq<char>, Seq<T>)>,
    key: Seq<char>,
    held: Seq<T>,
    values: Seq<T>,
)
    requires
        position_of(entries, key) is None,
    ensures
        with_values(entries.push((key, held)), key, values) == entries.push((key, held + values)),
    decreases values.len(),
{
    let all = entries.push((key, held));
    if values.len() == 0 {
        assert(held + values =~= held);
    } else {
        lemma_position_of(entries, key);
        assert forall|j: int| 0 <= j < entries.len() implies (#[trigger] all[j]).0 != key by {
            assert(all[j] == entries[j]);
        }
        lemma_position_is(all, key, entries.len() as int);
        let next = with_value(all, key, values[0]);
        assert(next =~= entries.push((key, held.push(values[0]))));
        lemma_with_values_behind(entries, key, held.push(values[0]), values.skip(1));
        assert(held.push(values[0]) + values.skip(1) =~= held + values);
    }
}

/// Values that are put under a name that stood nowhere make a new entry,
/// behind all others.
proof fn lemma_with_values_new<T>(
    entries: Seq<(Seq<char>, Seq<T>)>,
    key: Seq<char>,
    values: Seq<T>,
)
    requires
        position_of(entries, key) is None,
        values.len() > 0,
    ensures
        with_values(entries, key, values) == entries.push((key, values)),
{
    lemma_with_values_behind(entries, key, seq![values[0]], values.skip(1));
    assert(seq![values[0]] + values.skip(1) =~= values);
}

/// The entries with all that `more` holds put in, entry by entry.
pub open spec fn with_entries<T>(
    entries: Seq<(Seq<char>, Seq<T>)>,
    more: Seq<(Seq<char>, Seq<T>)>,
) -> Seq<(Seq<char>, Seq<T>)>
    decreases more.len(),
{
    if more.len() == 0 {
        entries
    } else {
        with_entries(with_values(entries, more[0].0, more[0].1), more.skip(1))
    }
}

/// Entries that are put in behind others whose names they do not share come
/// to stand behind them as they are.
proof fn lemma_with_entries<T>(entries: Seq<(Seq<char>, Seq<T>)>, more: Seq<(Seq<char>, Seq<T>)>)
    requires
        names_distinct(entries + more),
        forall|i: int| 0 <= i < more.len() ==> (#[trigger] more[i]).1.len() > 0,
    ensures
        with_entries(entries, more) == entries + more,
    decreases more.len(),
{
    let all = entries + more;
    if more.len() == 0 {
        assert(all =~= entries);
    } else {
        let first = more[0];
        assert forall|j: int| 0 <= j < entries.len() implies (#[trigger] entries[j]).0
            != first.0 by {
            assert(all[j] == entries[j]);
            assert(all[entries.len() as int] == first);
        }
        lemma_position_none(entries, first.0);
        lemma_with_values_new(entries, first.0, first.1);
        let next = entries.push(first);
        let rest = more.skip(1);
        assert(next + rest =~= all);
        assert forall|i: int| 0 <= i < rest.len() implies (#[trigger] rest[i]).1.len() > 0 by {
            assert(rest[i] == more[i + 1]);
        }
        lemma_with_entries(next, rest);
    }
}

/// A faithful element that is written among the children of an element is
/// captured as it was, under the local part of its name, and reading goes
/// on behind it.
pub proof fn lemma_extension_captured(
    extension: ExtensionModel,
    rest: Seq<EventModel>,
    outer: Seq<ExtensionModel>,
    current: ExtensionModel,
)
    requires
        faithful(extension),
    ensures
        ExtensionModel::decoded_with(extension.events() + rest, outer, current)
            == ExtensionModel::decoded_with(
            rest,
            outer,
            ExtensionModel {
                children: with_value(current.children, local_part(extension.name), extension),
                ..current
            },
        ),
    decreases extension, 1nat,
{
    let around = outer.push(current);
    let events = extension.events() + rest;
    let body = extension.text_events() + events_of_children(extension.children) + seq![
        EventModel::End { name: extension.name },
    ] + rest;
    assert(events[0] == EventModel::Start {
        name: extension.name,
        attributes: extension.attributes(),
    });
    assert(events.skip(1) =~= body);
    assert(extension.attributes() =~= attributes_for(extension.attrs));
    lemma_attributes_captured(extension.attrs);
    lemma_extension_body(extension, rest, around);
    assert(around.drop_last() =~= outer);
    assert(around.last() == current);
}

/// What stands behind the start tag of a faithful element closes the
/// element as it was.
proof fn lemma_extension_body(
    extension: ExtensionModel,
    rest: Seq<EventModel>,
    outer: Seq<ExtensionModel>,
)
    requires
        faithful(extension),
    ensures
        ExtensionModel::decoded_with(
            extension.text_events() + events_of_children(extension.children) + seq![
                EventModel::End { name: extension.name },
            ] + rest,
            outer,
            ExtensionModel::opened(extension.attrs),
        ) == (if outer.len() == 0 {
            Ok::<(ExtensionModel, Seq<EventModel>), ErrorModel>((extension, rest))
        } else {
            ExtensionModel::decoded_with(
                rest,
                outer.drop_last(),
                ExtensionModel {
                    children: with_value(
                        outer.last().children,
                        local_part(extension.name),
                        extension,
                    ),
                    ..outer.last()
                },
            )
        }),
    decreases extension, 0nat,
{
    let opened = ExtensionModel::opened(extension.attrs);
    let with_text = ExtensionModel { value: extension.value, ..opened };
    let end = seq![EventModel::End { name: extension.name }];
    let tail = end + rest;
    let inner = events_of_children(extension.children) + tail;
    let body = extension.text_events() + events_of_children(extension.children) + end + rest;
    assert(body =~= extension.text_events() + inner);
    assert(ExtensionModel::decoded_with(body, outer, opened) == ExtensionModel::decoded_with(
        inner,
        outer,
        with_text,
    )) by {
        match extension.value {
            Some(text) => {
                assert(body[0] == EventModel::Text { text: text });
                assert(body.skip(1) =~= inner);
            },
            None => {
                assert(body =~= inner);
            },
        }
    }
    lemma_children_captured(extension.children, tail, outer, with_text);
    let none: Seq<(Seq<char>, Seq<ExtensionModel>)> = Seq::empty();
    assert(none + extension.children =~= extension.children);
    lemma_with_entries(none, extension.children);
    let filled = ExtensionModel { children: extension.children, ..with_text };
    assert(tail[0] == EventModel::End { name: extension.name });
    assert(tail.skip(1) =~= rest);
    assert((ExtensionModel { name: extension.name, ..filled }) == extension);
}

/// Faithful children that are written are captured entry by entry, and
/// reading goes on behind them.
proof fn lemma_children_captured(
    entries: Seq<(Seq<char>, Seq<ExtensionModel>)>,
    rest: Seq<EventModel>,
    outer: Seq<ExtensionModel>,
    current: ExtensionModel,
)
    requires
        forall|i: int|
            0 <= i < entries.len() ==> faithful_values(
                (#[trigger] entries[i]).0,
                entries[i].1,
            ),
    ensures
        ExtensionModel::decoded_with(events_of_children(entries) + rest, outer, current)
            == ExtensionModel::decoded_with(
            rest,
            outer,
            ExtensionModel { children: with_entries(current.children, entries), ..current },
        ),
    decreases entries, 0nat,
{
    if entries.len() == 0 {
        assert(events_of_children(entries) + rest =~= rest);
    } else {
        let first = entries[0];
        let others = entries.skip(1);
        let behind = events_of_children(others) + rest;
        assert(events_of_children(entries) + rest =~= events_of_values(first.1) + behind);
        lemma_values_captured(first.0, first.1, behind, outer, current);
        let next = ExtensionModel {
            children: with_values(current.children, first.0, first.1),
            ..current
        };
        assert forall|i: int| 0 <= i < others.len() implies faithful_values(
            (#[trigger] others[i]).0,
            others[i].1,
        ) by {
            assert(others[i] == entries[i + 1]);
        }
        lemma_children_captured(others, rest, outer, next);
    }
}

/// Faithful values that are written are captured one by one under their
/// name, and reading goes on behind them.
proof fn lemma_values_captured(
    key: Seq<char>,
    values: Seq<ExtensionModel>,
    rest: Seq<EventModel>,
    outer: Seq<ExtensionModel>,
    current: ExtensionModel,
)
    requires
        faithful_values(key, values),
    ensures
        ExtensionModel::decoded_with(events_of_values(values) + rest, outer, current)
            == ExtensionModel::decoded_with(
            rest,
            outer,
            ExtensionModel { children: with_values(current.children, key, values), ..current },
        ),
    decreases values, 0nat,
{
    if values.len() == 0 {
        assert(events_of_values(values) + rest =~= rest);
    } else {
        let first = values[0];
        let others = values.skip(1);
        let behind = events_of_values(others) + rest;
        assert(events_of_values(values) + rest =~= first.events() + behind);
        lemma_extension_captured(first, behind, outer, current);
        let next = ExtensionModel {
            children: with_value(current.children, key, first),
            ..current
        };
        assert forall|j: int| 0 <= j < others.len() implies local_part(
            (#[trigger] others[j]).name,
        ) == key && faithful(others[j]) by {
            assert(others[j] == values[j + 1]);
        }
        lemma_values_captured(key, others, rest, outer, next);
    }
}

/// Capturing keeps each attribute name once.
proof fn lemma_captured_attributes_distinct(attributes: Seq<AttributeModel>)
    ensures
        captured_attributes(attributes) matches Ok(attrs) ==> names_distinct(attrs),
    decreases attributes.len(),
{
    if attributes.len() > 0 {
        lemma_captured_attributes_distinct(attributes.drop_last());
        if let Ok(before) = captured_attributes(attributes.drop_last()) {
            let last = attributes.last();
            lemma_position_of(before, last.name);
            if position_of(before, last.name) is None && last.value is Some {
                let after = before.push((last.name, last.value->Some_0));
                assert forall|i: int, j: int| 0 <= i < j < after.len() implies (
                #[trigger] after[i]).0 != (#[trigger] after[j]).0 by {
                    if j < before.len() {
                        assert(after[i] == before[i]);
                        assert(after[j] == before[j]);
                    } else {
                        assert(after[i] == before[i]);
                    }
                }
            }
        }
    }
}

/// Children stay faithful when a faithful value is put in under the local
/// part of its name.
proof fn lemma_with_value_faithful(
    entries: Seq<(Seq<char>, Seq<ExtensionModel>)>,
    value: ExtensionModel,
)
    requires
        faithful_children(entries),
        faithful(value),
    ensures
        faithful_children(with_value(entries, local_part(value.name), value)),
{
    let key = local_part(value.name);
    let after = with_value(entries, key, value);
    lemma_with_value(entries, key, value);
    lemma_position_of(entries, key);
    assert forall|i: int| 0 <= i < after.len() implies (#[trigger] after[i]).1.len() > 0
        && faithful_values(after[i].0, after[i].1) by {
        match position_of(entries, key) {
            Some(at) => {
                if i == at {
                    let held = entries[at].1;
                    assert(after[i].1 == held.push(value));
                    assert(faithful_values(entries[at].0, held));
                    assert forall|j: int| 0 <= j < after[i].1.len() implies local_part(
                        (#[trigger] after[i].1[j]).name,
                    ) == after[i].0 && faithful(after[i].1[j]) by {
                        if j < held.len() {
                            assert(after[i].1[j] == held[j]);
                        }
                    }
                } else {
                    assert(after[i] == entries[i]);
                }
            },
            None => {
                if i < entries.len() {
                    assert(after[i] == entries[i]);
                } else {
                    assert(after[i].1 =~= seq![value]);
                }
            },
        }
    }
}

/// Whatever capturing makes of the events is faithful, where the elements
/// that were open were.
proof fn lemma_decoded_with_is_faithful(
    events: Seq<EventModel>,
    outer: Seq<ExtensionModel>,
    current: ExtensionModel,
)
    requires
        faithful(current),
        forall|i: int| 0 <= i < outer.len() ==> faithful(#[trigger] outer[i]),
    ensures
        ExtensionModel::decoded_with(events, outer, current) matches Ok((extension, _))
            ==> faithful(extension),
    decreases events.len(),
{
    if events.len() > 0 {
        let tail = events.skip(1);
        match events[0] {
            EventModel::Other => {
                lemma_decoded_with_is_faithful(tail, outer, current);
            },
            EventModel::Text { text } => {
                lemma_decoded_with_is_faithful(
                    tail,
                    outer,
                    ExtensionModel {
                        value: Some(joined(current.value, text)),
                        ..current
                    },
                );
            },
            EventModel::Start { attributes, .. } => {
                lemma_captured_attributes_distinct(attributes);
                if let Ok(attrs) = captured_attributes(attributes) {
                    let around = outer.push(current);
                    assert forall|i: int| 0 <= i < around.len() implies faithful(
                        #[trigger] around[i],
                    ) by {
                        if i < outer.len() {
                            assert(around[i] == outer[i]);
                        }
                    }
                    lemma_decoded_with_is_faithful(tail, around, ExtensionModel::opened(attrs));
                }
            },
            EventModel::End { name } => {
                let closed = ExtensionModel { name: name, ..current };
                if outer.len() > 0 {
                    let parent = outer.last();
                    let inside = outer.drop_last();
                    lemma_with_value_faithful(parent.children, closed);
                    assert forall|i: int| 0 <= i < inside.len() implies faithful(
                        #[trigger] inside[i],
                    ) by {
                        assert(inside[i] == outer[i]);
                    }
                    lemma_decoded_with_is_faithful(
                        tail,
                        inside,
                        ExtensionModel {
                            children: with_value(parent.children, local_part(name), closed),
                            ..parent
                        },
                    );
                }
            },
            _ => {},
        }
    }
}

/// Whatever is captured is faithful: it can be written and captured again
/// without loss.
pub proof fn lemma_decoded_is_faithful(attributes: Seq<AttributeModel>, events: Seq<EventModel>)
    ensures
        ExtensionModel::decoded(attributes, events) matches Ok((extension, _)) ==> faithful(
            extension,
        ),
{
    lemma_captured_attributes_distinct(attributes);
    if let Ok(attrs) = captured_attributes(attributes) {
        lemma_decoded_with_is_faithful(events, Seq::empty(), ExtensionModel::opened(attrs));
    }
}

/// Reading back what was written gives the element again: for every
/// faithful element, the attributes of the start tag that stands for it, and
/// the events behind that tag, are captured as the same element, with its
/// text, its attributes and all its children, and the reader is left behind
/// the element.
pub proof fn lemma_extension_round_trip(extension: ExtensionModel, rest: Seq<EventModel>)
    requires
        faithful(extension),
    ensures
        extension.events()[0] == (EventModel::Start {
            name: extension.name,
            attributes: extension.attributes(),
        }),
        ExtensionModel::decoded(extension.attributes(), extension.events().skip(1) + rest) == Ok::<
            (ExtensionModel, Seq<EventModel>),
            ErrorModel,
        >((extension, rest)),
{
    let body = extension.text_events() + events_of_children(extension.children) + seq![
        EventModel::End { name: extension.name },
    ] + rest;
    assert(extension.events().skip(1) + rest =~= body);
    assert(extension.attributes() =~= attributes_for(extension.attrs));
    lemma_attributes_captured(extension.attrs);
    lemma_extension_body(extension, rest, Seq::empty());
}

} // verus!
