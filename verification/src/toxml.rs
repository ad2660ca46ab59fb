//! Writing the elements that hold nothing but text.

use crate::event::{Attribute, AttributeModel, EventModel, XmlEvent, XmlWriter};
use vstd::prelude::*;

verus! {

/// The events of an element called `name` that holds `text` and has no
/// attributes. The piece of text is there even where `text` is empty.
pub open spec fn text_element(name: Seq<char>, text: Seq<char>) -> Seq<EventModel> {
    seq![
        EventModel::Start { name: name, attributes: Seq::empty() },
        EventModel::Text { text: text },
        EventModel::End { name: name },
    ]
}

/// The events of an optional element: those of the text element where there
/// is a text, none where there is not.
pub open spec fn optional_text_element(name: Seq<char>, text: Option<Seq<char>>) -> Seq<
    EventModel,
> {
    match text {
        Some(text) => text_element(name, text),
        None => Seq::empty(),
    }
}

/// The events of one element called `name` for each of `texts`, in order.
pub open spec fn text_elements(name: Seq<char>, texts: Seq<Seq<char>>) -> Seq<EventModel>
    decreases texts.len(),
{
    if texts.len() == 0 {
        Seq::empty()
    } else {
        text_elements(name, texts.drop_last()) + text_element(name, texts.last())
    }
}

/// The elements of a run of texts are the element of the first, then the
/// elements of the others.
pub proof fn lemma_text_elements_front(name: Seq<char>, texts: Seq<Seq<char>>)
    requires
        texts.len() > 0,
    ensures
        text_elements(name, texts) == text_element(name, texts[0]) + text_elements(
            name,
            texts.skip(1),
        ),
    decreases texts.len(),
{
    if texts.len() == 1 {
        assert(texts.drop_last() =~= Seq::<Seq<char>>::empty());
        assert(texts.skip(1) =~= Seq::<Seq<char>>::empty());
        assert(text_elements(name, texts) =~= text_element(name, texts[0]) + text_elements(
            name,
            texts.skip(1),
        ));
    } else {
        let front = texts.drop_last();
        lemma_text_elements_front(name, front);
        assert(front.skip(1) =~= texts.skip(1).drop_last());
        assert(front[0] == texts[0]);
        assert(texts.skip(1).last() == texts.last());
        assert(text_elements(name, texts) =~= text_element(name, texts[0]) + text_elements(
            name,
            texts.skip(1),
        ));
    }
}

impl XmlWriter {
    /// Writes an element called `name` that holds `text`.
    pub fn write_text_element(&mut self, name: &str, text: &str)
        ensures
            final(self)@ == old(self)@ + text_element(name@, text@),
    {
        let attributes: Vec<Attribute> = Vec::new();
        assert(attributes.deep_view() =~= Seq::<AttributeModel>::empty());
        self.write_event(XmlEvent::Start { name: name.to_owned(), attributes });
        self.write_event(XmlEvent::Text(text.to_owned()));
        self.write_event(XmlEvent::End { name: name.to_owned() });
        assert(self@ =~= old(self)@ + text_element(name@, text@));
    }

    /// Writes an element called `name` that holds `text`, if there is one.
    pub fn write_optional_text_element(&mut self, name: &str, text: &Option<String>)
        ensures
            final(self)@ == old(self)@ + optional_text_element(name@, text.deep_view()),
    {
        match text {
            Some(text) => {
                self.write_text_element(name, text.as_str());
            },
            None => {
                assert(self@ =~= old(self)@ + Seq::<EventModel>::empty());
            },
        }
    }

    /// Writes one element called `name` for each of `texts`, in order.
    pub fn write_text_elements(&mut self, name: &str, texts: &Vec<String>)
        ensures
            final(self)@ == old(self)@ + text_elements(name@, texts.deep_view()),
    {
        let ghost all = texts.deep_view();
        let mut i: usize = 0;
        assert(self@ =~= old(self)@ + text_elements(name@, all.take(0)));
        while i < texts.len()
            invariant
                i <= texts.len(),
                all == texts.deep_view(),
                self@ == old(self)@ + text_elements(name@, all.take(i as int)),
            decreases texts.len() - i,
        {
            let ghost before = self@;
            self.write_text_element(name, texts[i].as_str());
            proof {
                let next = all.take(i + 1);
                assert(next.drop_last() =~= all.take(i as int));
                assert(next.last() == texts[i as int]@);
                assert(self@ =~= old(self)@ + text_elements(name@, next));
            }
            i += 1;
        }
        assert(all.take(i as int) =~= all);
    }
}

} // verus!
