//! The Dublin Core extension: fifteen fields of texts, each read from and
//! written to child elements of the Dublin Core namespace.

use crate::error::{Error, ErrorModel};
use crate::event::{EventModel, XmlWriter};
use crate::extension::store::{
    as_map, lemma_with_values, names_distinct, value_of, with_values, without, ExtensionModel,
};
use crate::extension::{
    lemma_text_elements_captured, lower, remove_extension_values, text_values, texts_of,
    texts_under, with_texts, ExtensionMap,
};
use crate::toxml::text_elements;
use crate::text::{behind_colon, local_part};
use vstd::prelude::*;

verus! {

/// The Dublin Core XML namespace.
pub const NAMESPACE: &'static str = "http://purl.org/dc/elements/1.1/";

/// A Dublin Core element extension.
#[derive(Debug, Clone, PartialEq, Eq)]
pub struct DublinCoreExtension {
    /// An entity responsible for making contributions to the resource.
    contributors: Vec<String>,
    /// The spatial or temporal topic of the resource, the spatial applicability of the resource,
    /// or the jurisdiction under which the resource is relevant.
    coverages: Vec<String>,
    /// An entity primarily responsible for making the resource.
    creators: Vec<String>,
    /// A point or period of time associated with an event in the lifecycle of the resource.
    dates: Vec<String>,
    /// An account of the resource.
    descriptions: Vec<String>,
    /// The file format, physical medium, or dimensions of the resource.
    formats: Vec<String>,
    /// An unambiguous reference to the resource within a given context.
    identifiers: Vec<String>,
    /// A language of the resource.
    languages: Vec<String>,
    /// An entity responsible for making the resource available.
    publishers: Vec<String>,
    /// A related resource.
    relations: Vec<String>,
    /// Information about rights held in and over the resource.
    rights: Vec<String>,
    /// A related resource from which the described resource is derived.
    sources: Vec<String>,
    /// The topic of the resource.
    subjects: Vec<String>,
    /// A name given to the resource.
    titles: Vec<String>,
    /// The nature or genre of the resource.
    resource_types: Vec<String>,
}

/// What a [`DublinCoreExtension`] holds: for each of the fifteen fields, its
/// texts in order.
pub struct DublinCoreModel {
    pub contributors: Seq<Seq<char>>,
    pub coverages: Seq<Seq<char>>,
    pub creators: Seq<Seq<char>>,
    pub dates: Seq<Seq<char>>,
    pub descriptions: Seq<Seq<char>>,
    pub formats: Seq<Seq<char>>,
    pub identifiers: Seq<Seq<char>>,
    pub languages: Seq<Seq<char>>,
    pub publishers: Seq<Seq<char>>,
    pub relations: Seq<Seq<char>>,
    pub rights: Seq<Seq<char>>,
    pub sources: Seq<Seq<char>>,
    pub subjects: Seq<Seq<char>>,
    pub titles: Seq<Seq<char>>,
    pub resource_types: Seq<Seq<char>>,
}

impl View for DublinCoreExtension {
    type V = DublinCoreModel;

    closed spec fn view(&self) -> DublinCoreModel {
        DublinCoreModel {
            contributors: self.contributors.deep_view(),
            coverages: self.coverages.deep_view(),
            creators: self.creators.deep_view(),
            dates: self.dates.deep_view(),
            descriptions: self.descriptions.deep_view(),
            formats: self.formats.deep_view(),
            identifiers: self.identifiers.deep_view(),
            languages: self.languages.deep_view(),
            publishers: self.publishers.deep_view(),
            relations: self.relations.deep_view(),
            rights: self.rights.deep_view(),
            sources: self.sources.deep_view(),
            subjects: self.subjects.deep_view(),
            titles: self.titles.deep_view(),
            resource_types: self.resource_types.deep_view(),
        }
    }
}

/// The entries without those of the fifteen fields.
pub open spec fn without_fields(
    entries: Seq<(Seq<char>, Seq<ExtensionModel>)>,
) -> Seq<(Seq<char>, Seq<ExtensionModel>)> {
    let e0 = without(entries, "contributor"@);
    let e1 = without(e0, "coverage"@);
    let e2 = without(e1, "creator"@);
    let e3 = without(e2, "date"@);
    let e4 = without(e3, "description"@);
    let e5 = without(e4, "format"@);
    let e6 = without(e5, "identifier"@);
    let e7 = without(e6, "language"@);
    let e8 = without(e7, "publisher"@);
    let e9 = without(e8, "relation"@);
    let e10 = without(e9, "rights"@);
    let e11 = without(e10, "source"@);
    let e12 = without(e11, "subject"@);
    let e13 = without(e12, "title"@);
    let e14 = without(e13, "type"@);
    e14
}

/// The local names of the fifteen fields.
pub open spec fn field_names() -> Set<Seq<char>> {
    set![
        "contributor"@,
        "coverage"@,
        "creator"@,
        "date"@,
        "description"@,
        "format"@,
        "identifier"@,
        "language"@,
        "publisher"@,
        "relation"@,
        "rights"@,
        "source"@,
        "subject"@,
        "title"@,
        "type"@,
    ]
}

impl DublinCoreModel {
    /// The extension without any text.
    pub open spec fn empty() -> DublinCoreModel {
        DublinCoreModel {
            contributors: Seq::empty(),
            coverages: Seq::empty(),
            creators: Seq::empty(),
            dates: Seq::empty(),
            descriptions: Seq::empty(),
            formats: Seq::empty(),
            identifiers: Seq::empty(),
            languages: Seq::empty(),
            publishers: Seq::empty(),
            relations: Seq::empty(),
            rights: Seq::empty(),
            sources: Seq::empty(),
            subjects: Seq::empty(),
            titles: Seq::empty(),
            resource_types: Seq::empty(),
        }
    }

    /// The extension that a store gives: each field holds the texts of what
    /// the store holds under the field's name.
    pub open spec fn lifted(store: Map<Seq<char>, Seq<ExtensionModel>>) -> DublinCoreModel {
        DublinCoreModel {
            contributors: texts_under(store, "contributor"@),
            coverages: texts_under(store, "coverage"@),
            creators: texts_under(store, "creator"@),
            dates: texts_under(store, "date"@),
            descriptions: texts_under(store, "description"@),
            formats: texts_under(store, "format"@),
            identifiers: texts_under(store, "identifier"@),
            languages: texts_under(store, "language"@),
            publishers: texts_under(store, "publisher"@),
            relations: texts_under(store, "relation"@),
            rights: texts_under(store, "rights"@),
            sources: texts_under(store, "source"@),
            subjects: texts_under(store, "subject"@),
            titles: texts_under(store, "title"@),
            resource_types: texts_under(store, "type"@),
        }
    }

    /// The store that holds this extension on top of `store`: for each field
    /// with a text, one element for each text, under the field's name.
    pub open spec fn lowered(self, store: Map<Seq<char>, Seq<ExtensionModel>>) -> Map<
        Seq<char>,
        Seq<ExtensionModel>,
    > {
        let s0 = with_texts(store, "contributor"@, "dc:contributor"@, self.contributors);
        let s1 = with_texts(s0, "coverage"@, "dc:coverage"@, self.coverages);
        let s2 = with_texts(s1, "creator"@, "dc:creator"@, self.creators);
        let s3 = with_texts(s2, "date"@, "dc:date"@, self.dates);
        let s4 = with_texts(s3, "description"@, "dc:description"@, self.descriptions);
        let s5 = with_texts(s4, "format"@, "dc:format"@, self.formats);
        let s6 = with_texts(s5, "identifier"@, "dc:identifier"@, self.identifiers);
        let s7 = with_texts(s6, "language"@, "dc:language"@, self.languages);
        let s8 = with_texts(s7, "publisher"@, "dc:publisher"@, self.publishers);
        let s9 = with_texts(s8, "relation"@, "dc:relation"@, self.relations);
        let s10 = with_texts(s9, "rights"@, "dc:rights"@, self.rights);
        let s11 = with_texts(s10, "source"@, "dc:source"@, self.sources);
        let s12 = with_texts(s11, "subject"@, "dc:subject"@, self.subjects);
        let s13 = with_texts(s12, "title"@, "dc:title"@, self.titles);
        let s14 = with_texts(s13, "type"@, "dc:type"@, self.resource_types);
        s14
    }

    /// The events that stand for this extension: one element for each text,
    /// field by field in their fixed order.
    pub open spec fn events(self) -> Seq<EventModel> {
        text_elements("dc:contributor"@, self.contributors)
            + text_elements("dc:coverage"@, self.coverages)
            + text_elements("dc:creator"@, self.creators)
            + text_elements("dc:date"@, self.dates)
            + text_elements("dc:description"@, self.descriptions)
            + text_elements("dc:format"@, self.formats)
            + text_elements("dc:identifier"@, self.identifiers)
            + text_elements("dc:language"@, self.languages)
            + text_elements("dc:publisher"@, self.publishers)
            + text_elements("dc:relation"@, self.relations)
            + text_elements("dc:rights"@, self.rights)
            + text_elements("dc:source"@, self.sources)
            + text_elements("dc:subject"@, self.subjects)
            + text_elements("dc:title"@, self.titles)
            + text_elements("dc:type"@, self.resource_types)
    }
}

fn no_texts() -> (list: Vec<String>)
    ensures
        list.deep_view() == Seq::<Seq<char>>::empty(),
{
    let list: Vec<String> = Vec::new();
    assert(list.deep_view() =~= Seq::<Seq<char>>::empty());
    list
}

impl Default for DublinCoreExtension {
    fn default() -> (extension: DublinCoreExtension)
        ensures
            extension@ == DublinCoreModel::empty(),
    {
        DublinCoreExtension {
            contributors: no_texts(),
            coverages: no_texts(),
            creators: no_texts(),
            dates: no_texts(),
            descriptions: no_texts(),
            formats: no_texts(),
            identifiers: no_texts(),
            languages: no_texts(),
            publishers: no_texts(),
            relations: no_texts(),
            rights: no_texts(),
            sources: no_texts(),
            subjects: no_texts(),
            titles: no_texts(),
            resource_types: no_texts(),
        }
    }
}

fn texts_or_none(texts: Option<Vec<String>>) -> (list: Vec<String>)
    ensures
        list.deep_view() == match texts.deep_view() {
            Some(found) => found,
            None => Seq::empty(),
        },
{
    match texts {
        Some(list) => list,
        None => no_texts(),
    }
}

/// Taking out one more name: what is held under it is what the store held,
/// and the store is then without it as well.
proof fn lemma_take_step(
    store: Map<Seq<char>, Seq<ExtensionModel>>,
    done: Set<Seq<char>>,
    key: Seq<char>,
)
    requires
        !done.contains(key),
    ensures
        texts_under(store.remove_keys(done), key) == texts_under(store, key),
        store.remove_keys(done).remove(key) == store.remove_keys(done.insert(key)),
{
    assert(store.remove_keys(done).remove(key) =~= store.remove_keys(done.insert(key)));
}

/// Takes out of `map` what it holds under `name` and hands over the texts.
fn take_texts(map: &mut ExtensionMap, name: &str) -> (texts: Vec<String>)
    ensures
        texts.deep_view() == texts_under(as_map(old(map)@), name@),
        final(map)@ == without(old(map)@, name@),
        as_map(final(map)@) == as_map(old(map)@).remove(name@),
{
    let found = remove_extension_values(map, name);
    texts_or_none(found)
}

impl DublinCoreExtension {
    /// Get the contributors that exists under `DublinCoreExtension`.
    pub fn contributors(&self) -> (contributors: &[String])
        ensures
            contributors.deep_view() == self@.contributors,
    {
        let list = self.contributors.as_slice();
        assert(list.deep_view() =~= self.contributors.deep_view());
        list
    }

    /// Get the coverages that exists under `DublinCoreExtension`.
    pub fn coverages(&self) -> (coverages: &[String])
        ensures
            coverages.deep_view() == self@.coverages,
    {
        let list = self.coverages.as_slice();
        assert(list.deep_view() =~= self.coverages.deep_view());
        list
    }

    /// Get the creators that exists under `DublinCoreExtension`.
    pub fn creators(&self) -> (creators: &[String])
        ensures
            creators.deep_view() == self@.creators,
    {
        let list = self.creators.as_slice();
        assert(list.deep_view() =~= self.creators.deep_view());
        list
    }

    /// Get the dates that exists under `DublinCoreExtension`.
    pub fn dates(&self) -> (dates: &[String])
        ensures
            dates.deep_view() == self@.dates,
    {
        let list = self.dates.as_slice();
        assert(list.deep_view() =~= self.dates.deep_view());
        list
    }

    /// Get the descriptions that exists under `DublinCoreExtension`.
    pub fn descriptions(&self) -> (descriptions: &[String])
        ensures
            descriptions.deep_view() == self@.descriptions,
    {
        let list = self.descriptions.as_slice();
        assert(list.deep_view() =~= self.descriptions.deep_view());
        list
    }

    /// Get the formats that exists under `DublinCoreExtension`.
    pub fn formats(&self) -> (formats: &[String])
        ensures
            formats.deep_view() == self@.formats,
    {
        let list = self.formats.as_slice();
        assert(list.deep_view() =~= self.formats.deep_view());
        list
    }

    /// Get the identifiers that exists under `DublinCoreExtension`.
    pub fn identifiers(&self) -> (identifiers: &[String])
        ensures
            identifiers.deep_view() == self@.identifiers,
    {
        let list = self.identifiers.as_slice();
        assert(list.deep_view() =~= self.identifiers.deep_view());
        list
    }

    /// Get the languages that exists under `DublinCoreExtension`.
    pub fn languages(&self) -> (languages: &[String])
        ensures
            languages.deep_view() == self@.languages,
    {
        let list = self.languages.as_slice();
        assert(list.deep_view() =~= self.languages.deep_view());
        list
    }

    /// Get the publishers that exists under `DublinCoreExtension`.
    pub fn publishers(&self) -> (publishers: &[String])
        ensures
            publishers.deep_view() == self@.publishers,
    {
        let list = self.publishers.as_slice();
        assert(list.deep_view() =~= self.publishers.deep_view());
        list
    }

    /// Get the relations that exists under `DublinCoreExtension`.
    pub fn relations(&self) -> (relations: &[String])
        ensures
            relations.deep_view() == self@.relations,
    {
        let list = self.relations.as_slice();
        assert(list.deep_view() =~= self.relations.deep_view());
        list
    }

    /// Get the rights that exists under `DublinCoreExtension`.
    pub fn rights(&self) -> (rights: &[String])
        ensures
            rights.deep_view() == self@.rights,
    {
        let list = self.rights.as_slice();
        assert(list.deep_view() =~= self.rights.deep_view());
        list
    }

    /// Get the sources that exists under `DublinCoreExtension`.
    pub fn sources(&self) -> (sources: &[String])
        ensures
            sources.deep_view() == self@.sources,
    {
        let list = self.sources.as_slice();
        assert(list.deep_view() =~= self.sources.deep_view());
        list
    }

    /// Get the subjects that exists under `DublinCoreExtension`.
    pub fn subjects(&self) -> (subjects: &[String])
        ensures
            subjects.deep_view() == self@.subjects,
    {
        let list = self.subjects.as_slice();
        assert(list.deep_view() =~= self.subjects.deep_view());
        list
    }

    /// Get the titles that exists under `DublinCoreExtension`.
    pub fn titles(&self) -> (titles: &[String])
        ensures
            titles.deep_view() == self@.titles,
    {
        let list = self.titles.as_slice();
        assert(list.deep_view() =~= self.titles.deep_view());
        list
    }

    /// Get the resource_types that exists under `DublinCoreExtension`.
    pub fn resource_types(&self) -> (resource_types: &[String])
        ensures
            resource_types.deep_view() == self@.resource_types,
    {
        let list = self.resource_types.as_slice();
        assert(list.deep_view() =~= self.resource_types.deep_view());
        list
    }

    /// Creates a `DublinCoreExtension` out of the store: each field takes the
    /// texts of what the store holds under its name, and the store keeps
    /// what no field has claimed.
    pub fn from_map(map: &mut ExtensionMap) -> (extension: DublinCoreExtension)
        ensures
            extension@ == DublinCoreModel::lifted(as_map(old(map)@)),
            final(map)@ == without_fields(old(map)@),
            as_map(final(map)@) == as_map(old(map)@).remove_keys(field_names()),
    {
        let ghost store = as_map(map@);
        let ghost d: Set<Seq<char>> = Set::empty();
        assert(as_map(map@) =~= store.remove_keys(d));
        let contributors = take_texts(map, "contributor");
        let ghost d0 = d.insert("contributor"@);
        proof {
            assert(!d.contains("contributor"@)) by {
                lemma_field_names();
            }
            lemma_take_step(store, d, "contributor"@);
        }
        let coverages = take_texts(map, "coverage");
        let ghost d1 = d0.insert("coverage"@);
        proof {
            assert(!d0.contains("coverage"@)) by {
                lemma_field_names();
            }
            lemma_take_step(store, d0, "coverage"@);
        }
        let creators = take_texts(map, "creator");
        let ghost d2 = d1.insert("creator"@);
        proof {
            assert(!d1.contains("creator"@)) by {
                lemma_field_names();
            }
            lemma_take_step(store, d1, "creator"@);
        }
        let dates = take_texts(map, "date");
        let ghost d3 = d2.insert("date"@);
        proof {
            assert(!d2.contains("date"@)) by {
                lemma_field_names();
            }
            lemma_take_step(store, d2, "date"@);
        }
        let descriptions = take_texts(map, "description");
        let ghost d4 = d3.insert("description"@);
        proof {
            assert(!d3.contains("description"@)) by {
                lemma_field_names();
            }
            lemma_take_step(store, d3, "description"@);
        }
        let formats = take_texts(map, "format");
        let ghost d5 = d4.insert("format"@);
        proof {
            assert(!d4.contains("format"@)) by {
                lemma_field_names();
            }
            lemma_take_step(store, d4, "format"@);
        }
        let identifiers = take_texts(map, "identifier");
        let ghost d6 = d5.insert("identifier"@);
        proof {
            assert(!d5.contains("identifier"@)) by {
                lemma_field_names();
            }
            lemma_take_step(store, d5, "identifier"@);
        }
        let languages = take_texts(map, "language");
        let ghost d7 = d6.insert("language"@);
        proof {
            assert(!d6.contains("language"@)) by {
                lemma_field_names();
            }
            lemma_take_step(store, d6, "language"@);
        }
        let publishers = take_texts(map, "publisher");
        let ghost d8 = d7.insert("publisher"@);
        proof {
            assert(!d7.contains("publisher"@)) by {
                lemma_field_names();
            }
            lemma_take_step(store, d7, "publisher"@);
        }
        let relations = take_texts(map, "relation");
        let ghost d9 = d8.insert("relation"@);
        proof {
            assert(!d8.contains("relation"@)) by {
                lemma_field_names();
            }
            lemma_take_step(store, d8, "relation"@);
        }
        let rights = take_texts(map, "rights");
        let ghost d10 = d9.insert("rights"@);
        proof {
            assert(!d9.contains("rights"@)) by {
                lemma_field_names();
            }
            lemma_take_step(store, d9, "rights"@);
        }
        let sources = take_texts(map, "source");
        let ghost d11 = d10.insert("source"@);
        proof {
            assert(!d10.contains("source"@)) by {
                lemma_field_names();
            }
            lemma_take_step(store, d10, "source"@);
        }
        let subjects = take_texts(map, "subject");
        let ghost d12 = d11.insert("subject"@);
        proof {
            assert(!d11.contains("subject"@)) by {
                lemma_field_names();
            }
            lemma_take_step(store, d11, "subject"@);
        }
        let titles = take_texts(map, "title");
        let ghost d13 = d12.insert("title"@);
        proof {
            assert(!d12.contains("title"@)) by {
                lemma_field_names();
            }
            lemma_take_step(store, d12, "title"@);
        }
        let resource_types = take_texts(map, "type");
        let ghost d14 = d13.insert("type"@);
        proof {
            assert(!d13.contains("type"@)) by {
                lemma_field_names();
            }
            lemma_take_step(store, d13, "type"@);
        }
        assert(d14 =~= field_names());
        DublinCoreExtension {
            contributors,
            coverages,
            creators,
            dates,
            descriptions,
            formats,
            identifiers,
            languages,
            publishers,
            relations,
            rights,
            sources,
            subjects,
            titles,
            resource_types,
        }
    }

    /// Writes this extension as child elements of the element that is
    /// being written.
    pub fn to_xml(&self, writer: &mut XmlWriter)
        ensures
            final(writer)@ == old(writer)@ + self@.events(),
    {
        let ghost before = writer@;
        let ghost value = self@;
        writer.write_text_elements("dc:contributor", &self.contributors);
        let ghost e0 = text_elements("dc:contributor"@, value.contributors);
        writer.write_text_elements("dc:coverage", &self.coverages);
        let ghost e1 = e0 + text_elements("dc:coverage"@, value.coverages);
        assert(writer@ =~= before + e1);
        writer.write_text_elements("dc:creator", &self.creators);
        let ghost e2 = e1 + text_elements("dc:creator"@, value.creators);
        assert(writer@ =~= before + e2);
        writer.write_text_elements("dc:date", &self.dates);
        let ghost e3 = e2 + text_elements("dc:date"@, value.dates);
        assert(writer@ =~= before + e3);
        writer.write_text_elements("dc:description", &self.descriptions);
        let ghost e4 = e3 + text_elements("dc:description"@, value.descriptions);
        assert(writer@ =~= before + e4);
        writer.write_text_elements("dc:format", &self.formats);
        let ghost e5 = e4 + text_elements("dc:format"@, value.formats);
        assert(writer@ =~= before + e5);
        writer.write_text_elements("dc:identifier", &self.identifiers);
        let ghost e6 = e5 + text_elements("dc:identifier"@, value.identifiers);
        assert(writer@ =~= before + e6);
        writer.write_text_elements("dc:language", &self.languages);
        let ghost e7 = e6 + text_elements("dc:language"@, value.languages);
        assert(writer@ =~= before + e7);
        writer.write_text_elements("dc:publisher", &self.publishers);
        let ghost e8 = e7 + text_elements("dc:publisher"@, value.publishers);
        assert(writer@ =~= before + e8);
        writer.write_text_elements("dc:relation", &self.relations);
        let ghost e9 = e8 + text_elements("dc:relation"@, value.relations);
        assert(writer@ =~= before + e9);
        writer.write_text_elements("dc:rights", &self.rights);
        let ghost e10 = e9 + text_elements("dc:rights"@, value.rights);
        assert(writer@ =~= before + e10);
        writer.write_text_elements("dc:source", &self.sources);
        let ghost e11 = e10 + text_elements("dc:source"@, value.sources);
        assert(writer@ =~= before + e11);
        writer.write_text_elements("dc:subject", &self.subjects);
        let ghost e12 = e11 + text_elements("dc:subject"@, value.subjects);
        assert(writer@ =~= before + e12);
        writer.write_text_elements("dc:title", &self.titles);
        let ghost e13 = e12 + text_elements("dc:title"@, value.titles);
        assert(writer@ =~= before + e13);
        writer.write_text_elements("dc:type", &self.resource_types);
        let ghost e14 = e13 + text_elements("dc:type"@, value.resource_types);
        assert(writer@ =~= before + e14);
    }

    /// Puts this extension into the store: for each field with a text, one
    /// element for each text, behind whatever the store holds under the
    /// field's name.
    pub fn to_map(&self, map: &mut ExtensionMap)
        ensures
            final(map)@ == self@.captured(old(map)@),
            as_map(final(map)@) == self@.lowered(as_map(old(map)@)),
    {
        lower(map, "contributor", "dc:contributor", &self.contributors);
        lower(map, "coverage", "dc:coverage", &self.coverages);
        lower(map, "creator", "dc:creator", &self.creators);
        lower(map, "date", "dc:date", &self.dates);
        lower(map, "description", "dc:description", &self.descriptions);
        lower(map, "format", "dc:format", &self.formats);
        lower(map, "identifier", "dc:identifier", &self.identifiers);
        lower(map, "language", "dc:language", &self.languages);
        lower(map, "publisher", "dc:publisher", &self.publishers);
        lower(map, "relation", "dc:relation", &self.relations);
        lower(map, "rights", "dc:rights", &self.rights);
        lower(map, "source", "dc:source", &self.sources);
        lower(map, "subject", "dc:subject", &self.subjects);
        lower(map, "title", "dc:title", &self.titles);
        lower(map, "type", "dc:type", &self.resource_types);
    }
}

/// This `DublinCoreExtensionBuilder` struct creates the `DublinCoreExtension`.
#[derive(Debug, Clone)]
pub struct DublinCoreExtensionBuilder {
    contributors: Vec<String>,
    coverages: Vec<String>,
    creators: Vec<String>,
    dates: Vec<String>,
    descriptions: Vec<String>,
    formats: Vec<String>,
    identifiers: Vec<String>,
    languages: Vec<String>,
    publishers: Vec<String>,
    relations: Vec<String>,
    rights: Vec<String>,
    sources: Vec<String>,
    subjects: Vec<String>,
    titles: Vec<String>,
    resource_types: Vec<String>,
}

impl View for DublinCoreExtensionBuilder {
    type V = DublinCoreModel;

    /// The extension that `finalize` would make.
    closed spec fn view(&self) -> DublinCoreModel {
        DublinCoreModel {
            contributors: self.contributors.deep_view(),
            coverages: self.coverages.deep_view(),
            creators: self.creators.deep_view(),
            dates: self.dates.deep_view(),
            descriptions: self.descriptions.deep_view(),
            formats: self.formats.deep_view(),
            identifiers: self.identifiers.deep_view(),
            languages: self.languages.deep_view(),
            publishers: self.publishers.deep_view(),
            relations: self.relations.deep_view(),
            rights: self.rights.deep_view(),
            sources: self.sources.deep_view(),
            subjects: self.subjects.deep_view(),
            titles: self.titles.deep_view(),
            resource_types: self.resource_types.deep_view(),
        }
    }
}

impl Default for DublinCoreExtensionBuilder {
    fn default() -> (builder: DublinCoreExtensionBuilder)
        ensures
            builder@ == DublinCoreModel::empty(),
    {
        DublinCoreExtensionBuilder::new()
    }
}

impl DublinCoreExtensionBuilder {
    /// Construct a new `DublinCoreExtensionBuilder` that holds no text.
    pub fn new() -> (builder: DublinCoreExtensionBuilder)
        ensures
            builder@ == DublinCoreModel::empty(),
    {
        DublinCoreExtensionBuilder {
            contributors: no_texts(),
            coverages: no_texts(),
            creators: no_texts(),
            dates: no_texts(),
            descriptions: no_texts(),
            formats: no_texts(),
            identifiers: no_texts(),
            languages: no_texts(),
            publishers: no_texts(),
            relations: no_texts(),
            rights: no_texts(),
            sources: no_texts(),
            subjects: no_texts(),
            titles: no_texts(),
            resource_types: no_texts(),
        }
    }

    /// Set the contributors that exists under `DublinCoreExtension`.
    pub fn contributors(self, contributors: Vec<String>) -> (builder: DublinCoreExtensionBuilder)
        ensures
            builder@ == (DublinCoreModel { contributors: contributors.deep_view(), ..self@ }),
    {
        let mut builder = self;
        builder.contributors = contributors;
        builder
    }

    /// Set the coverages that exists under `DublinCoreExtension`.
    pub fn coverages(self, coverages: Vec<String>) -> (builder: DublinCoreExtensionBuilder)
        ensures
            builder@ == (DublinCoreModel { coverages: coverages.deep_view(), ..self@ }),
    {
        let mut builder = self;
        builder.coverages = coverages;
        builder
    }

    /// Set the creators that exists under `DublinCoreExtension`.
    pub fn creators(self, creators: Vec<String>) -> (builder: DublinCoreExtensionBuilder)
        ensures
            builder@ == (DublinCoreModel { creators: creators.deep_view(), ..self@ }),
    {
        let mut builder = self;
        builder.creators = creators;
        builder
    }

    /// Set the dates that exists under `DublinCoreExtension`.
    pub fn dates(self, dates: Vec<String>) -> (builder: DublinCoreExtensionBuilder)
        ensures
            builder@ == (DublinCoreModel { dates: dates.deep_view(), ..self@ }),
    {
        let mut builder = self;
        builder.dates = dates;
        builder
    }

    /// Set the descriptions that exists under `DublinCoreExtension`.
    pub fn descriptions(self, descriptions: Vec<String>) -> (builder: DublinCoreExtensionBuilder)
        ensures
            builder@ == (DublinCoreModel { descriptions: descriptions.deep_view(), ..self@ }),
    {
        let mut builder = self;
        builder.descriptions = descriptions;
        builder
    }

    /// Set the formats that exists under `DublinCoreExtension`.
    pub fn formats(self, formats: Vec<String>) -> (builder: DublinCoreExtensionBuilder)
        ensures
            builder@ == (DublinCoreModel { formats: formats.deep_view(), ..self@ }),
    {
        let mut builder = self;
        builder.formats = formats;
        builder
    }

    /// Set the identifiers that exists under `DublinCoreExtension`.
    pub fn identifiers(self, identifiers: Vec<String>) -> (builder: DublinCoreExtensionBuilder)
        ensures
            builder@ == (DublinCoreModel { identifiers: identifiers.deep_view(), ..self@ }),
    {
        let mut builder = self;
        builder.identifiers = identifiers;
        builder
    }

    /// Set the languages that exists under `DublinCoreExtension`.
    pub fn languages(self, languages: Vec<String>) -> (builder: DublinCoreExtensionBuilder)
        ensures
            builder@ == (DublinCoreModel { languages: languages.deep_view(), ..self@ }),
    {
        let mut builder = self;
        builder.languages = languages;
        builder
    }

    /// Set the publishers that exists under `DublinCoreExtension`.
    pub fn publishers(self, publishers: Vec<String>) -> (builder: DublinCoreExtensionBuilder)
        ensures
            builder@ == (DublinCoreModel { publishers: publishers.deep_view(), ..self@ }),
    {
        let mut builder = self;
        builder.publishers = publishers;
        builder
    }

    /// Set the relations that exists under `DublinCoreExtension`.
    pub fn relations(self, relations: Vec<String>) -> (builder: DublinCoreExtensionBuilder)
        ensures
            builder@ == (DublinCoreModel { relations: relations.deep_view(), ..self@ }),
    {
        let mut builder = self;
        builder.relations = relations;
        builder
    }

    /// Set the rights that exists under `DublinCoreExtension`.
    pub fn rights(self, rights: Vec<String>) -> (builder: DublinCoreExtensionBuilder)
        ensures
            builder@ == (DublinCoreModel { rights: rights.deep_view(), ..self@ }),
    {
        let mut builder = self;
        builder.rights = rights;
        builder
    }

    /// Set the sources that exists under `DublinCoreExtension`.
    pub fn sources(self, sources: Vec<String>) -> (builder: DublinCoreExtensionBuilder)
        ensures
            builder@ == (DublinCoreModel { sources: sources.deep_view(), ..self@ }),
    {
        let mut builder = self;
        builder.sources = sources;
        builder
    }

    /// Set the subjects that exists under `DublinCoreExtension`.
    pub fn subjects(self, subjects: Vec<String>) -> (builder: DublinCoreExtensionBuilder)
        ensures
            builder@ == (DublinCoreModel { subjects: subjects.deep_view(), ..self@ }),
    {
        let mut builder = self;
        builder.subjects = subjects;
        builder
    }

    /// Set the titles that exists under `DublinCoreExtension`.
    pub fn titles(self, titles: Vec<String>) -> (builder: DublinCoreExtensionBuilder)
        ensures
            builder@ == (DublinCoreModel { titles: titles.deep_view(), ..self@ }),
    {
        let mut builder = self;
        builder.titles = titles;
        builder
    }

    /// Set the resource_types that exists under `DublinCoreExtension`.
    pub fn resource_types(self, resource_types: Vec<String>) -> (builder: DublinCoreExtensionBuilder)
        ensures
            builder@ == (DublinCoreModel { resource_types: resource_types.deep_view(), ..self@ }),
    {
        let mut builder = self;
        builder.resource_types = resource_types;
        builder
    }

    /// Construct the `DublinCoreExtension` from the `DublinCoreExtensionBuilder`.
    /// Every text is accepted, so this never fails.
    pub fn finalize(self) -> (extension: Result<DublinCoreExtension, Error>)
        ensures
            extension matches Ok(made) && made@ == self@,
    {
        Ok(
            DublinCoreExtension {
                contributors: self.contributors,
                coverages: self.coverages,
                creators: self.creators,
                dates: self.dates,
                descriptions: self.descriptions,
                formats: self.formats,
                identifiers: self.identifiers,
                languages: self.languages,
                publishers: self.publishers,
                relations: self.relations,
                rights: self.rights,
                sources: self.sources,
                subjects: self.subjects,
                titles: self.titles,
                resource_types: self.resource_types,
            },
        )
    }
}

/// The name under which the field called `key` is written: the key behind
/// the prefix of the namespace.
pub open spec fn written_name(key: Seq<char>) -> Seq<char> {
    "dc:"@ + key
}

/// Each field is written under its name behind the prefix.
proof fn lemma_written_names()
    ensures
        "dc:contributor"@ == written_name("contributor"@),
        "dc:coverage"@ == written_name("coverage"@),
        "dc:creator"@ == written_name("creator"@),
        "dc:date"@ == written_name("date"@),
        "dc:description"@ == written_name("description"@),
        "dc:format"@ == written_name("format"@),
        "dc:identifier"@ == written_name("identifier"@),
        "dc:language"@ == written_name("language"@),
        "dc:publisher"@ == written_name("publisher"@),
        "dc:relation"@ == written_name("relation"@),
        "dc:rights"@ == written_name("rights"@),
        "dc:source"@ == written_name("source"@),
        "dc:subject"@ == written_name("subject"@),
        "dc:title"@ == written_name("title"@),
        "dc:type"@ == written_name("type"@),
{
    reveal_strlit("dc:");
    reveal_strlit("contributor");
    reveal_strlit("dc:contributor");
    assert("dc:contributor"@ =~= "dc:"@ + "contributor"@);
    reveal_strlit("coverage");
    reveal_strlit("dc:coverage");
    assert("dc:coverage"@ =~= "dc:"@ + "coverage"@);
    reveal_strlit("creator");
    reveal_strlit("dc:creator");
    assert("dc:creator"@ =~= "dc:"@ + "creator"@);
    reveal_strlit("date");
    reveal_strlit("dc:date");
    assert("dc:date"@ =~= "dc:"@ + "date"@);
    reveal_strlit("description");
    reveal_strlit("dc:description");
    assert("dc:description"@ =~= "dc:"@ + "description"@);
    reveal_strlit("format");
    reveal_strlit("dc:format");
    assert("dc:format"@ =~= "dc:"@ + "format"@);
    reveal_strlit("identifier");
    reveal_strlit("dc:identifier");
    assert("dc:identifier"@ =~= "dc:"@ + "identifier"@);
    reveal_strlit("language");
    reveal_strlit("dc:language");
    assert("dc:language"@ =~= "dc:"@ + "language"@);
    reveal_strlit("publisher");
    reveal_strlit("dc:publisher");
    assert("dc:publisher"@ =~= "dc:"@ + "publisher"@);
    reveal_strlit("relation");
    reveal_strlit("dc:relation");
    assert("dc:relation"@ =~= "dc:"@ + "relation"@);
    reveal_strlit("rights");
    reveal_strlit("dc:rights");
    assert("dc:rights"@ =~= "dc:"@ + "rights"@);
    reveal_strlit("source");
    reveal_strlit("dc:source");
    assert("dc:source"@ =~= "dc:"@ + "source"@);
    reveal_strlit("subject");
    reveal_strlit("dc:subject");
    assert("dc:subject"@ =~= "dc:"@ + "subject"@);
    reveal_strlit("title");
    reveal_strlit("dc:title");
    assert("dc:title"@ =~= "dc:"@ + "title"@);
    reveal_strlit("type");
    reveal_strlit("dc:type");
    assert("dc:type"@ =~= "dc:"@ + "type"@);
}

/// What lifting and lowering keep of a store: under a field name, one
/// element for each value that was held, with the value's text and nothing
/// else, and no entry at all where no value was held; under any other name,
/// what was held.
pub open spec fn normalized(store: Map<Seq<char>, Seq<ExtensionModel>>) -> Map<
    Seq<char>,
    Seq<ExtensionModel>,
> {
    Map::new(
        |key: Seq<char>|
            store.contains_key(key) && (field_names().contains(key) ==> store[key].len() > 0),
        |key: Seq<char>|
            if field_names().contains(key) {
                text_values(written_name(key), texts_of(store[key]))
            } else {
                store[key]
            },
    )
}

/// What lowering has made of a store once the fields in `done` are lowered:
/// as [`normalized`], with nothing yet under the names of the other fields.
spec fn lowered_so_far(store: Map<Seq<char>, Seq<ExtensionModel>>, done: Set<Seq<char>>) -> Map<
    Seq<char>,
    Seq<ExtensionModel>,
> {
    Map::new(
        |key: Seq<char>|
            store.contains_key(key) && (field_names().contains(key) ==> done.contains(key)
                && store[key].len() > 0),
        |key: Seq<char>|
            if field_names().contains(key) {
                text_values(written_name(key), texts_of(store[key]))
            } else {
                store[key]
            },
    )
}

/// Lowering one more field.
proof fn lemma_lower_step(
    store: Map<Seq<char>, Seq<ExtensionModel>>,
    done: Set<Seq<char>>,
    key: Seq<char>,
    name: Seq<char>,
)
    requires
        field_names().contains(key),
        !done.contains(key),
        name == written_name(key),
    ensures
        with_texts(lowered_so_far(store, done), key, name, texts_under(store, key))
            == lowered_so_far(store, done.insert(key)),
{
    let before = lowered_so_far(store, done);
    let after = lowered_so_far(store, done.insert(key));
    let texts = texts_under(store, key);
    assert(!before.contains_key(key));
    if texts.len() == 0 {
        assert(before =~= after);
    } else {
        assert(before.insert(key, text_values(name, texts)) =~= after);
    }
}

/// Lifting the fields out of a store and lowering them into what the store
/// has kept gives the store again, but for what lifting does not keep: the
/// attributes and children of a lifted value, the difference between a value
/// without text and one with an empty text, and an entry without values.
pub proof fn lemma_lift_then_lower(store: Map<Seq<char>, Seq<ExtensionModel>>)
    ensures
        DublinCoreModel::lifted(store).lowered(store.remove_keys(field_names())) == normalized(
            store,
        ),
{
    lemma_field_names();
    lemma_written_names();
    let d: Set<Seq<char>> = Set::empty();
    assert(store.remove_keys(field_names()) =~= lowered_so_far(store, d));
    lemma_lower_step(store, d, "contributor"@, "dc:contributor"@);
    let d0 = d.insert("contributor"@);
    lemma_lower_step(store, d0, "coverage"@, "dc:coverage"@);
    let d1 = d0.insert("coverage"@);
    lemma_lower_step(store, d1, "creator"@, "dc:creator"@);
    let d2 = d1.insert("creator"@);
    lemma_lower_step(store, d2, "date"@, "dc:date"@);
    let d3 = d2.insert("date"@);
    lemma_lower_step(store, d3, "description"@, "dc:description"@);
    let d4 = d3.insert("description"@);
    lemma_lower_step(store, d4, "format"@, "dc:format"@);
    let d5 = d4.insert("format"@);
    lemma_lower_step(store, d5, "identifier"@, "dc:identifier"@);
    let d6 = d5.insert("identifier"@);
    lemma_lower_step(store, d6, "language"@, "dc:language"@);
    let d7 = d6.insert("language"@);
    lemma_lower_step(store, d7, "publisher"@, "dc:publisher"@);
    let d8 = d7.insert("publisher"@);
    lemma_lower_step(store, d8, "relation"@, "dc:relation"@);
    let d9 = d8.insert("relation"@);
    lemma_lower_step(store, d9, "rights"@, "dc:rights"@);
    let d10 = d9.insert("rights"@);
    lemma_lower_step(store, d10, "source"@, "dc:source"@);
    let d11 = d10.insert("source"@);
    lemma_lower_step(store, d11, "subject"@, "dc:subject"@);
    let d12 = d11.insert("subject"@);
    lemma_lower_step(store, d12, "title"@, "dc:title"@);
    let d13 = d12.insert("title"@);
    lemma_lower_step(store, d13, "type"@, "dc:type"@);
    let d14 = d13.insert("type"@);
    assert(d14 =~= field_names());
    assert(lowered_so_far(store, field_names()) =~= normalized(store));
}

/// Where the store holds, under each field name, nothing or else values
/// that hold a text and nothing else and are called as the field is written,
/// lifting and lowering give the very same store.
pub proof fn lemma_lift_then_lower_is_exact(store: Map<Seq<char>, Seq<ExtensionModel>>)
    requires
        forall|key: Seq<char>|
            store.contains_key(key) && field_names().contains(key) ==> #[trigger] store[key].len()
                > 0 && store[key] == text_values(written_name(key), texts_of(store[key])),
    ensures
        DublinCoreModel::lifted(store).lowered(store.remove_keys(field_names())) == store,
{
    lemma_lift_then_lower(store);
    assert(normalized(store) =~= store);
}

impl DublinCoreModel {
    /// The texts of the field called `key`, and none for a name that is no
    /// field.
    pub open spec fn field(self, key: Seq<char>) -> Seq<Seq<char>> {
        if key == "contributor"@ {
            self.contributors
        } else if key == "coverage"@ {
            self.coverages
        } else if key == "creator"@ {
            self.creators
        } else if key == "date"@ {
            self.dates
        } else if key == "description"@ {
            self.descriptions
        } else if key == "format"@ {
            self.formats
        } else if key == "identifier"@ {
            self.identifiers
        } else if key == "language"@ {
            self.languages
        } else if key == "publisher"@ {
            self.publishers
        } else if key == "relation"@ {
            self.relations
        } else if key == "rights"@ {
            self.rights
        } else if key == "source"@ {
            self.sources
        } else if key == "subject"@ {
            self.subjects
        } else if key == "title"@ {
            self.titles
        } else if key == "type"@ {
            self.resource_types
        } else {
            Seq::empty()
        }
    }

    /// The entries of an element once the elements that stand for this
    /// extension have been captured among its children.
    pub open spec fn captured(
        self,
        entries: Seq<(Seq<char>, Seq<ExtensionModel>)>,
    ) -> Seq<(Seq<char>, Seq<ExtensionModel>)> {
        let e0 = with_values(entries, "contributor"@, text_values("dc:contributor"@, self.contributors));
        let e1 = with_values(e0, "coverage"@, text_values("dc:coverage"@, self.coverages));
        let e2 = with_values(e1, "creator"@, text_values("dc:creator"@, self.creators));
        let e3 = with_values(e2, "date"@, text_values("dc:date"@, self.dates));
        let e4 = with_values(e3, "description"@, text_values("dc:description"@, self.descriptions));
        let e5 = with_values(e4, "format"@, text_values("dc:format"@, self.formats));
        let e6 = with_values(e5, "identifier"@, text_values("dc:identifier"@, self.identifiers));
        let e7 = with_values(e6, "language"@, text_values("dc:language"@, self.languages));
        let e8 = with_values(e7, "publisher"@, text_values("dc:publisher"@, self.publishers));
        let e9 = with_values(e8, "relation"@, text_values("dc:relation"@, self.relations));
        let e10 = with_values(e9, "rights"@, text_values("dc:rights"@, self.rights));
        let e11 = with_values(e10, "source"@, text_values("dc:source"@, self.sources));
        let e12 = with_values(e11, "subject"@, text_values("dc:subject"@, self.subjects));
        let e13 = with_values(e12, "title"@, text_values("dc:title"@, self.titles));
        let e14 = with_values(e13, "type"@, text_values("dc:type"@, self.resource_types));
        e14
    }
}

/// The local part of the name under which a field is written is the name of
/// the field.
proof fn lemma_local_names()
    ensures
        local_part("dc:contributor"@) == "contributor"@,
        local_part("dc:coverage"@) == "coverage"@,
        local_part("dc:creator"@) == "creator"@,
        local_part("dc:date"@) == "date"@,
        local_part("dc:description"@) == "description"@,
        local_part("dc:format"@) == "format"@,
        local_part("dc:identifier"@) == "identifier"@,
        local_part("dc:language"@) == "language"@,
        local_part("dc:publisher"@) == "publisher"@,
        local_part("dc:relation"@) == "relation"@,
        local_part("dc:rights"@) == "rights"@,
        local_part("dc:source"@) == "source"@,
        local_part("dc:subject"@) == "subject"@,
        local_part("dc:title"@) == "title"@,
        local_part("dc:type"@) == "type"@,
{
    reveal_with_fuel(behind_colon, 4);
    assert(local_part("dc:contributor"@) == "contributor"@) by {
        reveal_strlit("contributor");
        reveal_strlit("dc:contributor");
        let name = "dc:contributor"@;
        assert(name[0] == 'd' && name[1] == 'c' && name[2] == ':');
        assert(name.skip(1)[0] == 'c');
        assert(name.skip(1).skip(1)[0] == ':');
        assert(name.skip(1).skip(1).skip(1) =~= "contributor"@);
    }
    assert(local_part("dc:coverage"@) == "coverage"@) by {
        reveal_strlit("coverage");
        reveal_strlit("dc:coverage");
        let name = "dc:coverage"@;
        assert(name[0] == 'd' && name[1] == 'c' && name[2] == ':');
        assert(name.skip(1)[0] == 'c');
        assert(name.skip(1).skip(1)[0] == ':');
        assert(name.skip(1).skip(1).skip(1) =~= "coverage"@);
    }
    assert(local_part("dc:creator"@) == "creator"@) by {
        reveal_strlit("creator");
        reveal_strlit("dc:creator");
        let name = "dc:creator"@;
        assert(name[0] == 'd' && name[1] == 'c' && name[2] == ':');
        assert(name.skip(1)[0] == 'c');
        assert(name.skip(1).skip(1)[0] == ':');
        assert(name.skip(1).skip(1).skip(1) =~= "creator"@);
    }
    assert(local_part("dc:date"@) == "date"@) by {
        reveal_strlit("date");
        reveal_strlit("dc:date");
        let name = "dc:date"@;
        assert(name[0] == 'd' && name[1] == 'c' && name[2] == ':');
        assert(name.skip(1)[0] == 'c');
        assert(name.skip(1).skip(1)[0] == ':');
        assert(name.skip(1).skip(1).skip(1) =~= "date"@);
    }
    assert(local_part("dc:description"@) == "description"@) by {
        reveal_strlit("description");
        reveal_strlit("dc:description");
        let name = "dc:description"@;
        assert(name[0] == 'd' && name[1] == 'c' && name[2] == ':');
        assert(name.skip(1)[0] == 'c');
        assert(name.skip(1).skip(1)[0] == ':');
        assert(name.skip(1).skip(1).skip(1) =~= "description"@);
    }
    assert(local_part("dc:format"@) == "format"@) by {
        reveal_strlit("format");
        reveal_strlit("dc:format");
        let name = "dc:format"@;
        assert(name[0] == 'd' && name[1] == 'c' && name[2] == ':');
        assert(name.skip(1)[0] == 'c');
        assert(name.skip(1).skip(1)[0] == ':');
        assert(name.skip(1).skip(1).skip(1) =~= "format"@);
    }
    assert(local_part("dc:identifier"@) == "identifier"@) by {
        reveal_strlit("identifier");
        reveal_strlit("dc:identifier");
        let name = "dc:identifier"@;
        assert(name[0] == 'd' && name[1] == 'c' && name[2] == ':');
        assert(name.skip(1)[0] == 'c');
        assert(name.skip(1).skip(1)[0] == ':');
        assert(name.skip(1).skip(1).skip(1) =~= "identifier"@);
    }
    assert(local_part("dc:language"@) == "language"@) by {
        reveal_strlit("language");
        reveal_strlit("dc:language");
        let name = "dc:language"@;
        assert(name[0] == 'd' && name[1] == 'c' && name[2] == ':');
        assert(name.skip(1)[0] == 'c');
        assert(name.skip(1).skip(1)[0] == ':');
        assert(name.skip(1).skip(1).skip(1) =~= "language"@);
    }
    assert(local_part("dc:publisher"@) == "publisher"@) by {
        reveal_strlit("publisher");
        reveal_strlit("dc:publisher");
        let name = "dc:publisher"@;
        assert(name[0] == 'd' && name[1] == 'c' && name[2] == ':');
        assert(name.skip(1)[0] == 'c');
        assert(name.skip(1).skip(1)[0] == ':');
        assert(name.skip(1).skip(1).skip(1) =~= "publisher"@);
    }
    assert(local_part("dc:relation"@) == "relation"@) by {
        reveal_strlit("relation");
        reveal_strlit("dc:relation");
        let name = "dc:relation"@;
        assert(name[0] == 'd' && name[1] == 'c' && name[2] == ':');
        assert(name.skip(1)[0] == 'c');
        assert(name.skip(1).skip(1)[0] == ':');
        assert(name.skip(1).skip(1).skip(1) =~= "relation"@);
    }
    assert(local_part("dc:rights"@) == "rights"@) by {
        reveal_strlit("rights");
        reveal_strlit("dc:rights");
        let name = "dc:rights"@;
        assert(name[0] == 'd' && name[1] == 'c' && name[2] == ':');
        assert(name.skip(1)[0] == 'c');
        assert(name.skip(1).skip(1)[0] == ':');
        assert(name.skip(1).skip(1).skip(1) =~= "rights"@);
    }
    assert(local_part("dc:source"@) == "source"@) by {
        reveal_strlit("source");
        reveal_strlit("dc:source");
        let name = "dc:source"@;
        assert(name[0] == 'd' && name[1] == 'c' && name[2] == ':');
        assert(name.skip(1)[0] == 'c');
        assert(name.skip(1).skip(1)[0] == ':');
        assert(name.skip(1).skip(1).skip(1) =~= "source"@);
    }
    assert(local_part("dc:subject"@) == "subject"@) by {
        reveal_strlit("subject");
        reveal_strlit("dc:subject");
        let name = "dc:subject"@;
        assert(name[0] == 'd' && name[1] == 'c' && name[2] == ':');
        assert(name.skip(1)[0] == 'c');
        assert(name.skip(1).skip(1)[0] == ':');
        assert(name.skip(1).skip(1).skip(1) =~= "subject"@);
    }
    assert(local_part("dc:title"@) == "title"@) by {
        reveal_strlit("title");
        reveal_strlit("dc:title");
        let name = "dc:title"@;
        assert(name[0] == 'd' && name[1] == 'c' && name[2] == ':');
        assert(name.skip(1)[0] == 'c');
        assert(name.skip(1).skip(1)[0] == ':');
        assert(name.skip(1).skip(1).skip(1) =~= "title"@);
    }
    assert(local_part("dc:type"@) == "type"@) by {
        reveal_strlit("type");
        reveal_strlit("dc:type");
        let name = "dc:type"@;
        assert(name[0] == 'd' && name[1] == 'c' && name[2] == ':');
        assert(name.skip(1)[0] == 'c');
        assert(name.skip(1).skip(1)[0] == ':');
        assert(name.skip(1).skip(1).skip(1) =~= "type"@);
    }
}

/// What capturing makes of the entries is what lowering makes of the store
/// they stand for.
proof fn lemma_captured_is_lowered(
    dc: DublinCoreModel,
    entries: Seq<(Seq<char>, Seq<ExtensionModel>)>,
)
    requires
        names_distinct(entries),
    ensures
        names_distinct(dc.captured(entries)),
        as_map(dc.captured(entries)) == dc.lowered(as_map(entries)),
{
    lemma_with_values(entries, "contributor"@, text_values("dc:contributor"@, dc.contributors));
    let e0 = with_values(entries, "contributor"@, text_values("dc:contributor"@, dc.contributors));
    assert(as_map(e0) == with_texts(as_map(entries), "contributor"@, "dc:contributor"@, dc.contributors)) by {
        assert(as_map(entries).contains_key("contributor"@) == (value_of(entries, "contributor"@) is Some));
        assert(text_values("dc:contributor"@, dc.contributors).len() == dc.contributors.len());
    }
    lemma_with_values(e0, "coverage"@, text_values("dc:coverage"@, dc.coverages));
    let e1 = with_values(e0, "coverage"@, text_values("dc:coverage"@, dc.coverages));
    assert(as_map(e1) == with_texts(as_map(e0), "coverage"@, "dc:coverage"@, dc.coverages)) by {
        assert(as_map(e0).contains_key("coverage"@) == (value_of(e0, "coverage"@) is Some));
        assert(text_values("dc:coverage"@, dc.coverages).len() == dc.coverages.len());
    }
    lemma_with_values(e1, "creator"@, text_values("dc:creator"@, dc.creators));
    let e2 = with_values(e1, "creator"@, text_values("dc:creator"@, dc.creators));
    assert(as_map(e2) == with_texts(as_map(e1), "creator"@, "dc:creator"@, dc.creators)) by {
        assert(as_map(e1).contains_key("creator"@) == (value_of(e1, "creator"@) is Some));
        assert(text_values("dc:creator"@, dc.creators).len() == dc.creators.len());
    }
    lemma_with_values(e2, "date"@, text_values("dc:date"@, dc.dates));
    let e3 = with_values(e2, "date"@, text_values("dc:date"@, dc.dates));
    assert(as_map(e3) == with_texts(as_map(e2), "date"@, "dc:date"@, dc.dates)) by {
        assert(as_map(e2).contains_key("date"@) == (value_of(e2, "date"@) is Some));
        assert(text_values("dc:date"@, dc.dates).len() == dc.dates.len());
    }
    lemma_with_values(e3, "description"@, text_values("dc:description"@, dc.descriptions));
    let e4 = with_values(e3, "description"@, text_values("dc:description"@, dc.descriptions));
    assert(as_map(e4) == with_texts(as_map(e3), "description"@, "dc:description"@, dc.descriptions)) by {
        assert(as_map(e3).contains_key("description"@) == (value_of(e3, "description"@) is Some));
        assert(text_values("dc:description"@, dc.descriptions).len() == dc.descriptions.len());
    }
    lemma_with_values(e4, "format"@, text_values("dc:format"@, dc.formats));
    let e5 = with_values(e4, "format"@, text_values("dc:format"@, dc.formats));
    assert(as_map(e5) == with_texts(as_map(e4), "format"@, "dc:format"@, dc.formats)) by {
        assert(as_map(e4).contains_key("format"@) == (value_of(e4, "format"@) is Some));
        assert(text_values("dc:format"@, dc.formats).len() == dc.formats.len());
    }
    lemma_with_values(e5, "identifier"@, text_values("dc:identifier"@, dc.identifiers));
    let e6 = with_values(e5, "identifier"@, text_values("dc:identifier"@, dc.identifiers));
    assert(as_map(e6) == with_texts(as_map(e5), "identifier"@, "dc:identifier"@, dc.identifiers)) by {
        assert(as_map(e5).contains_key("identifier"@) == (value_of(e5, "identifier"@) is Some));
        assert(text_values("dc:identifier"@, dc.identifiers).len() == dc.identifiers.len());
    }
    lemma_with_values(e6, "language"@, text_values("dc:language"@, dc.languages));
    let e7 = with_values(e6, "language"@, text_values("dc:language"@, dc.languages));
    assert(as_map(e7) == with_texts(as_map(e6), "language"@, "dc:language"@, dc.languages)) by {
        assert(as_map(e6).contains_key("language"@) == (value_of(e6, "language"@) is Some));
        assert(text_values("dc:language"@, dc.languages).len() == dc.languages.len());
    }
    lemma_with_values(e7, "publisher"@, text_values("dc:publisher"@, dc.publishers));
    let e8 = with_values(e7, "publisher"@, text_values("dc:publisher"@, dc.publishers));
    assert(as_map(e8) == with_texts(as_map(e7), "publisher"@, "dc:publisher"@, dc.publishers)) by {
        assert(as_map(e7).contains_key("publisher"@) == (value_of(e7, "publisher"@) is Some));
        assert(text_values("dc:publisher"@, dc.publishers).len() == dc.publishers.len());
    }
    lemma_with_values(e8, "relation"@, text_values("dc:relation"@, dc.relations));
    let e9 = with_values(e8, "relation"@, text_values("dc:relation"@, dc.relations));
    assert(as_map(e9) == with_texts(as_map(e8), "relation"@, "dc:relation"@, dc.relations)) by {
        assert(as_map(e8).contains_key("relation"@) == (value_of(e8, "relation"@) is Some));
        assert(text_values("dc:relation"@, dc.relations).len() == dc.relations.len());
    }
    lemma_with_values(e9, "rights"@, text_values("dc:rights"@, dc.rights));
    let e10 = with_values(e9, "rights"@, text_values("dc:rights"@, dc.rights));
    assert(as_map(e10) == with_texts(as_map(e9), "rights"@, "dc:rights"@, dc.rights)) by {
        assert(as_map(e9).contains_key("rights"@) == (value_of(e9, "rights"@) is Some));
        assert(text_values("dc:rights"@, dc.rights).len() == dc.rights.len());
    }
    lemma_with_values(e10, "source"@, text_values("dc:source"@, dc.sources));
    let e11 = with_values(e10, "source"@, text_values("dc:source"@, dc.sources));
    assert(as_map(e11) == with_texts(as_map(e10), "source"@, "dc:source"@, dc.sources)) by {
        assert(as_map(e10).contains_key("source"@) == (value_of(e10, "source"@) is Some));
        assert(text_values("dc:source"@, dc.sources).len() == dc.sources.len());
    }
    lemma_with_values(e11, "subject"@, text_values("dc:subject"@, dc.subjects));
    let e12 = with_values(e11, "subject"@, text_values("dc:subject"@, dc.subjects));
    assert(as_map(e12) == with_texts(as_map(e11), "subject"@, "dc:subject"@, dc.subjects)) by {
        assert(as_map(e11).contains_key("subject"@) == (value_of(e11, "subject"@) is Some));
        assert(text_values("dc:subject"@, dc.subjects).len() == dc.subjects.len());
    }
    lemma_with_values(e12, "title"@, text_values("dc:title"@, dc.titles));
    let e13 = with_values(e12, "title"@, text_values("dc:title"@, dc.titles));
    assert(as_map(e13) == with_texts(as_map(e12), "title"@, "dc:title"@, dc.titles)) by {
        assert(as_map(e12).contains_key("title"@) == (value_of(e12, "title"@) is Some));
        assert(text_values("dc:title"@, dc.titles).len() == dc.titles.len());
    }
    lemma_with_values(e13, "type"@, text_values("dc:type"@, dc.resource_types));
    let e14 = with_values(e13, "type"@, text_values("dc:type"@, dc.resource_types));
    assert(as_map(e14) == with_texts(as_map(e13), "type"@, "dc:type"@, dc.resource_types)) by {
        assert(as_map(e13).contains_key("type"@) == (value_of(e13, "type"@) is Some));
        assert(text_values("dc:type"@, dc.resource_types).len() == dc.resource_types.len());
    }
}

/// Events in a row can be grouped from the left or from the right.
proof fn lemma_grouping(a: Seq<EventModel>, b: Seq<EventModel>, c: Seq<EventModel>)
    ensures
        (a + b) + c == a + (b + c),
{
    assert((a + b) + c =~= a + (b + c));
}

impl DublinCoreModel {
    /// The events of this extension with `rest` behind them, grouped from
    /// the right, as reading takes them.
    spec fn events_before(self, rest: Seq<EventModel>) -> Seq<EventModel> {
        text_elements("dc:contributor"@, self.contributors) + (text_elements("dc:coverage"@, self.coverages) + (text_elements("dc:creator"@, self.creators) + (text_elements("dc:date"@, self.dates) + (text_elements("dc:description"@, self.descriptions) + (text_elements("dc:format"@, self.formats) + (text_elements("dc:identifier"@, self.identifiers) + (text_elements("dc:language"@, self.languages) + (text_elements("dc:publisher"@, self.publishers) + (text_elements("dc:relation"@, self.relations) + (text_elements("dc:rights"@, self.rights) + (text_elements("dc:source"@, self.sources) + (text_elements("dc:subject"@, self.subjects) + (text_elements("dc:title"@, self.titles) + (text_elements("dc:type"@, self.resource_types) + (rest)))))))))))))))
    }
}

proof fn lemma_events_before(dc: DublinCoreModel, rest: Seq<EventModel>)
    ensures
        dc.events() + rest == dc.events_before(rest),
{
    let t0 = text_elements("dc:contributor"@, dc.contributors);
    let t1 = text_elements("dc:coverage"@, dc.coverages);
    let t2 = text_elements("dc:creator"@, dc.creators);
    let t3 = text_elements("dc:date"@, dc.dates);
    let t4 = text_elements("dc:description"@, dc.descriptions);
    let t5 = text_elements("dc:format"@, dc.formats);
    let t6 = text_elements("dc:identifier"@, dc.identifiers);
    let t7 = text_elements("dc:language"@, dc.languages);
    let t8 = text_elements("dc:publisher"@, dc.publishers);
    let t9 = text_elements("dc:relation"@, dc.relations);
    let t10 = text_elements("dc:rights"@, dc.rights);
    let t11 = text_elements("dc:source"@, dc.sources);
    let t12 = text_elements("dc:subject"@, dc.subjects);
    let t13 = text_elements("dc:title"@, dc.titles);
    let t14 = text_elements("dc:type"@, dc.resource_types);
    let s15 = rest;
    let s14 = t14 + s15;
    let s13 = t13 + s14;
    let s12 = t12 + s13;
    let s11 = t11 + s12;
    let s10 = t10 + s11;
    let s9 = t9 + s10;
    let s8 = t8 + s9;
    let s7 = t7 + s8;
    let s6 = t6 + s7;
    let s5 = t5 + s6;
    let s4 = t4 + s5;
    let s3 = t3 + s4;
    let s2 = t2 + s3;
    let s1 = t1 + s2;
    let s0 = t0 + s1;
    let head0 = t0;
    let head1 = head0 + t1;
    let head2 = head1 + t2;
    let head3 = head2 + t3;
    let head4 = head3 + t4;
    let head5 = head4 + t5;
    let head6 = head5 + t6;
    let head7 = head6 + t7;
    let head8 = head7 + t8;
    let head9 = head8 + t9;
    let head10 = head9 + t10;
    let head11 = head10 + t11;
    let head12 = head11 + t12;
    let head13 = head12 + t13;
    let head14 = head13 + t14;
    lemma_grouping(head13, t14, s15);
    lemma_grouping(head12, t13, s14);
    lemma_grouping(head11, t12, s13);
    lemma_grouping(head10, t11, s12);
    lemma_grouping(head9, t10, s11);
    lemma_grouping(head8, t9, s10);
    lemma_grouping(head7, t8, s9);
    lemma_grouping(head6, t7, s8);
    lemma_grouping(head5, t6, s7);
    lemma_grouping(head4, t5, s6);
    lemma_grouping(head3, t4, s5);
    lemma_grouping(head2, t3, s4);
    lemma_grouping(head1, t2, s3);
    lemma_grouping(head0, t1, s2);
}

/// The elements that stand for an extension are captured, among the
/// children of the element that holds them, as the extension is lowered.
proof fn lemma_dublin_core_captured(
    dc: DublinCoreModel,
    rest: Seq<EventModel>,
    outer: Seq<ExtensionModel>,
    current: ExtensionModel,
)
    ensures
        ExtensionModel::decoded_with(dc.events() + rest, outer, current)
            == ExtensionModel::decoded_with(
            rest,
            outer,
            ExtensionModel { children: dc.captured(current.children), ..current },
        ),
{
    lemma_local_names();
    lemma_events_before(dc, rest);
    let s15 = rest;
    let s14 = text_elements("dc:type"@, dc.resource_types) + s15;
    let s13 = text_elements("dc:title"@, dc.titles) + s14;
    let s12 = text_elements("dc:subject"@, dc.subjects) + s13;
    let s11 = text_elements("dc:source"@, dc.sources) + s12;
    let s10 = text_elements("dc:rights"@, dc.rights) + s11;
    let s9 = text_elements("dc:relation"@, dc.relations) + s10;
    let s8 = text_elements("dc:publisher"@, dc.publishers) + s9;
    let s7 = text_elements("dc:language"@, dc.languages) + s8;
    let s6 = text_elements("dc:identifier"@, dc.identifiers) + s7;
    let s5 = text_elements("dc:format"@, dc.formats) + s6;
    let s4 = text_elements("dc:description"@, dc.descriptions) + s5;
    let s3 = text_elements("dc:date"@, dc.dates) + s4;
    let s2 = text_elements("dc:creator"@, dc.creators) + s3;
    let s1 = text_elements("dc:coverage"@, dc.coverages) + s2;
    let s0 = text_elements("dc:contributor"@, dc.contributors) + s1;
    let c0 = ExtensionModel {
        children: with_values(current.children, "contributor"@, text_values("dc:contributor"@, dc.contributors)),
        ..current
    };
    assert(ExtensionModel::decoded_with(s0, outer, current) == ExtensionModel::decoded_with(s1, outer, c0)) by {
        lemma_text_elements_captured("dc:contributor"@, dc.contributors, s1, outer, current);
    }
    let c1 = ExtensionModel {
        children: with_values(c0.children, "coverage"@, text_values("dc:coverage"@, dc.coverages)),
        ..c0
    };
    assert(ExtensionModel::decoded_with(s1, outer, c0) == ExtensionModel::decoded_with(s2, outer, c1)) by {
        lemma_text_elements_captured("dc:coverage"@, dc.coverages, s2, outer, c0);
    }
    let c2 = ExtensionModel {
        children: with_values(c1.children, "creator"@, text_values("dc:creator"@, dc.creators)),
        ..c1
    };
    assert(ExtensionModel::decoded_with(s2, outer, c1) == ExtensionModel::decoded_with(s3, outer, c2)) by {
        lemma_text_elements_captured("dc:creator"@, dc.creators, s3, outer, c1);
    }
    let c3 = ExtensionModel {
        children: with_values(c2.children, "date"@, text_values("dc:date"@, dc.dates)),
        ..c2
    };
    assert(ExtensionModel::decoded_with(s3, outer, c2) == ExtensionModel::decoded_with(s4, outer, c3)) by {
        lemma_text_elements_captured("dc:date"@, dc.dates, s4, outer, c2);
    }
    let c4 = ExtensionModel {
        children: with_values(c3.children, "description"@, text_values("dc:description"@, dc.descriptions)),
        ..c3
    };
    assert(ExtensionModel::decoded_with(s4, outer, c3) == ExtensionModel::decoded_with(s5, outer, c4)) by {
        lemma_text_elements_captured("dc:description"@, dc.descriptions, s5, outer, c3);
    }
    let c5 = ExtensionModel {
        children: with_values(c4.children, "format"@, text_values("dc:format"@, dc.formats)),
        ..c4
    };
    assert(ExtensionModel::decoded_with(s5, outer, c4) == ExtensionModel::decoded_with(s6, outer, c5)) by {
        lemma_text_elements_captured("dc:format"@, dc.formats, s6, outer, c4);
    }
    let c6 = ExtensionModel {
        children: with_values(c5.children, "identifier"@, text_values("dc:identifier"@, dc.identifiers)),
        ..c5
    };
    assert(ExtensionModel::decoded_with(s6, outer, c5) == ExtensionModel::decoded_with(s7, outer, c6)) by {
        lemma_text_elements_captured("dc:identifier"@, dc.identifiers, s7, outer, c5);
    }
    let c7 = ExtensionModel {
        children: with_values(c6.children, "language"@, text_values("dc:language"@, dc.languages)),
        ..c6
    };
    assert(ExtensionModel::decoded_with(s7, outer, c6) == ExtensionModel::decoded_with(s8, outer, c7)) by {
        lemma_text_elements_captured("dc:language"@, dc.languages, s8, outer, c6);
    }
    let c8 = ExtensionModel {
        children: with_values(c7.children, "publisher"@, text_values("dc:publisher"@, dc.publishers)),
        ..c7
    };
    assert(ExtensionModel::decoded_with(s8, outer, c7) == ExtensionModel::decoded_with(s9, outer, c8)) by {
        lemma_text_elements_captured("dc:publisher"@, dc.publishers, s9, outer, c7);
    }
    let c9 = ExtensionModel {
        children: with_values(c8.children, "relation"@, text_values("dc:relation"@, dc.relations)),
        ..c8
    };
    assert(ExtensionModel::decoded_with(s9, outer, c8) == ExtensionModel::decoded_with(s10, outer, c9)) by {
        lemma_text_elements_captured("dc:relation"@, dc.relations, s10, outer, c8);
    }
    let c10 = ExtensionModel {
        children: with_values(c9.children, "rights"@, text_values("dc:rights"@, dc.rights)),
        ..c9
    };
    assert(ExtensionModel::decoded_with(s10, outer, c9) == ExtensionModel::decoded_with(s11, outer, c10)) by {
        lemma_text_elements_captured("dc:rights"@, dc.rights, s11, outer, c9);
    }
    let c11 = ExtensionModel {
        children: with_values(c10.children, "source"@, text_values("dc:source"@, dc.sources)),
        ..c10
    };
    assert(ExtensionModel::decoded_with(s11, outer, c10) == ExtensionModel::decoded_with(s12, outer, c11)) by {
        lemma_text_elements_captured("dc:source"@, dc.sources, s12, outer, c10);
    }
    let c12 = ExtensionModel {
        children: with_values(c11.children, "subject"@, text_values("dc:subject"@, dc.subjects)),
        ..c11
    };
    assert(ExtensionModel::decoded_with(s12, outer, c11) == ExtensionModel::decoded_with(s13, outer, c12)) by {
        lemma_text_elements_captured("dc:subject"@, dc.subjects, s13, outer, c11);
    }
    let c13 = ExtensionModel {
        children: with_values(c12.children, "title"@, text_values("dc:title"@, dc.titles)),
        ..c12
    };
    assert(ExtensionModel::decoded_with(s13, outer, c12) == ExtensionModel::decoded_with(s14, outer, c13)) by {
        lemma_text_elements_captured("dc:title"@, dc.titles, s14, outer, c12);
    }
    let c14 = ExtensionModel {
        children: with_values(c13.children, "type"@, text_values("dc:type"@, dc.resource_types)),
        ..c13
    };
    assert(ExtensionModel::decoded_with(s14, outer, c13) == ExtensionModel::decoded_with(s15, outer, c14)) by {
        lemma_text_elements_captured("dc:type"@, dc.resource_types, s15, outer, c13);
    }
    assert(c14.children == dc.captured(current.children));
}

/// Whether lowering has made the fields in `done` what the extension holds,
/// and has put nothing under the name of any other field.
spec fn lowered_agrees(
    store: Map<Seq<char>, Seq<ExtensionModel>>,
    dc: DublinCoreModel,
    done: Set<Seq<char>>,
) -> bool {
    forall|key: Seq<char>| #[trigger]
        field_names().contains(key) ==> if done.contains(key) {
            texts_under(store, key) == dc.field(key)
        } else {
            !store.contains_key(key)
        }
}

/// Lowering one more field, which is then what the extension holds.
proof fn lemma_lowered_agrees_step(
    store: Map<Seq<char>, Seq<ExtensionModel>>,
    dc: DublinCoreModel,
    done: Set<Seq<char>>,
    key: Seq<char>,
    name: Seq<char>,
)
    requires
        lowered_agrees(store, dc, done),
        field_names().contains(key),
        !done.contains(key),
    ensures
        lowered_agrees(with_texts(store, key, name, dc.field(key)), dc, done.insert(key)),
{
    let texts = dc.field(key);
    let after = with_texts(store, key, name, texts);
    assert(!store.contains_key(key));
    assert(texts_of(text_values(name, texts)) =~= texts);
    assert forall|other: Seq<char>| #[trigger]
        field_names().contains(other) implies if done.insert(key).contains(other) {
        texts_under(after, other) == dc.field(other)
    } else {
        !after.contains_key(other)
    } by {
        if other == key {
            if texts.len() == 0 {
                assert(texts_under(after, other) =~= dc.field(other));
            }
        }
    }
}

/// Lowering an extension and lifting it again gives the extension, where
/// the store held nothing under the name of a field.
pub proof fn lemma_lower_then_lift(dc: DublinCoreModel, store: Map<Seq<char>, Seq<ExtensionModel>>)
    requires
        forall|key: Seq<char>| field_names().contains(key) ==> !store.contains_key(key),
    ensures
        DublinCoreModel::lifted(dc.lowered(store)) == dc,
{
    lemma_field_names();
    let d: Set<Seq<char>> = Set::empty();
    assert(lowered_agrees(store, dc, d));
    assert(dc.field("contributor"@) == dc.contributors);
    lemma_lowered_agrees_step(store, dc, d, "contributor"@, "dc:contributor"@);
    let s0 = with_texts(store, "contributor"@, "dc:contributor"@, dc.contributors);
    let d0 = d.insert("contributor"@);
    assert(dc.field("coverage"@) == dc.coverages);
    lemma_lowered_agrees_step(s0, dc, d0, "coverage"@, "dc:coverage"@);
    let s1 = with_texts(s0, "coverage"@, "dc:coverage"@, dc.coverages);
    let d1 = d0.insert("coverage"@);
    assert(dc.field("creator"@) == dc.creators);
    lemma_lowered_agrees_step(s1, dc, d1, "creator"@, "dc:creator"@);
    let s2 = with_texts(s1, "creator"@, "dc:creator"@, dc.creators);
    let d2 = d1.insert("creator"@);
    assert(dc.field("date"@) == dc.dates);
    lemma_lowered_agrees_step(s2, dc, d2, "date"@, "dc:date"@);
    let s3 = with_texts(s2, "date"@, "dc:date"@, dc.dates);
    let d3 = d2.insert("date"@);
    assert(dc.field("description"@) == dc.descriptions);
    lemma_lowered_agrees_step(s3, dc, d3, "description"@, "dc:description"@);
    let s4 = with_texts(s3, "description"@, "dc:description"@, dc.descriptions);
    let d4 = d3.insert("description"@);
    assert(dc.field("format"@) == dc.formats);
    lemma_lowered_agrees_step(s4, dc, d4, "format"@, "dc:format"@);
    let s5 = with_texts(s4, "format"@, "dc:format"@, dc.formats);
    let d5 = d4.insert("format"@);
    assert(dc.field("identifier"@) == dc.identifiers);
    lemma_lowered_agrees_step(s5, dc, d5, "identifier"@, "dc:identifier"@);
    let s6 = with_texts(s5, "identifier"@, "dc:identifier"@, dc.identifiers);
    let d6 = d5.insert("identifier"@);
    assert(dc.field("language"@) == dc.languages);
    lemma_lowered_agrees_step(s6, dc, d6, "language"@, "dc:language"@);
    let s7 = with_texts(s6, "language"@, "dc:language"@, dc.languages);
    let d7 = d6.insert("language"@);
    assert(dc.field("publisher"@) == dc.publishers);
    lemma_lowered_agrees_step(s7, dc, d7, "publisher"@, "dc:publisher"@);
    let s8 = with_texts(s7, "publisher"@, "dc:publisher"@, dc.publishers);
    let d8 = d7.insert("publisher"@);
    assert(dc.field("relation"@) == dc.relations);
    lemma_lowered_agrees_step(s8, dc, d8, "relation"@, "dc:relation"@);
    let s9 = with_texts(s8, "relation"@, "dc:relation"@, dc.relations);
    let d9 = d8.insert("relation"@);
    assert(dc.field("rights"@) == dc.rights);
    lemma_lowered_agrees_step(s9, dc, d9, "rights"@, "dc:rights"@);
    let s10 = with_texts(s9, "rights"@, "dc:rights"@, dc.rights);
    let d10 = d9.insert("rights"@);
    assert(dc.field("source"@) == dc.sources);
    lemma_lowered_agrees_step(s10, dc, d10, "source"@, "dc:source"@);
    let s11 = with_texts(s10, "source"@, "dc:source"@, dc.sources);
    let d11 = d10.insert("source"@);
    assert(dc.field("subject"@) == dc.subjects);
    lemma_lowered_agrees_step(s11, dc, d11, "subject"@, "dc:subject"@);
    let s12 = with_texts(s11, "subject"@, "dc:subject"@, dc.subjects);
    let d12 = d11.insert("subject"@);
    assert(dc.field("title"@) == dc.titles);
    lemma_lowered_agrees_step(s12, dc, d12, "title"@, "dc:title"@);
    let s13 = with_texts(s12, "title"@, "dc:title"@, dc.titles);
    let d13 = d12.insert("title"@);
    assert(dc.field("type"@) == dc.resource_types);
    lemma_lowered_agrees_step(s13, dc, d13, "type"@, "dc:type"@);
    let s14 = with_texts(s13, "type"@, "dc:type"@, dc.resource_types);
    let d14 = d13.insert("type"@);
    let lifted = DublinCoreModel::lifted(s14);
    assert(lifted.contributors == dc.contributors) by {
        assert(field_names().contains("contributor"@));
        assert(d14.contains("contributor"@));
    }
    assert(lifted.coverages == dc.coverages) by {
        assert(field_names().contains("coverage"@));
        assert(d14.contains("coverage"@));
    }
    assert(lifted.creators == dc.creators) by {
        assert(field_names().contains("creator"@));
        assert(d14.contains("creator"@));
    }
    assert(lifted.dates == dc.dates) by {
        assert(field_names().contains("date"@));
        assert(d14.contains("date"@));
    }
    assert(lifted.descriptions == dc.descriptions) by {
        assert(field_names().contains("description"@));
        assert(d14.contains("description"@));
    }
    assert(lifted.formats == dc.formats) by {
        assert(field_names().contains("format"@));
        assert(d14.contains("format"@));
    }
    assert(lifted.identifiers == dc.identifiers) by {
        assert(field_names().contains("identifier"@));
        assert(d14.contains("identifier"@));
    }
    assert(lifted.languages == dc.languages) by {
        assert(field_names().contains("language"@));
        assert(d14.contains("language"@));
    }
    assert(lifted.publishers == dc.publishers) by {
        assert(field_names().contains("publisher"@));
        assert(d14.contains("publisher"@));
    }
    assert(lifted.relations == dc.relations) by {
        assert(field_names().contains("relation"@));
        assert(d14.contains("relation"@));
    }
    assert(lifted.rights == dc.rights) by {
        assert(field_names().contains("rights"@));
        assert(d14.contains("rights"@));
    }
    assert(lifted.sources == dc.sources) by {
        assert(field_names().contains("source"@));
        assert(d14.contains("source"@));
    }
    assert(lifted.subjects == dc.subjects) by {
        assert(field_names().contains("subject"@));
        assert(d14.contains("subject"@));
    }
    assert(lifted.titles == dc.titles) by {
        assert(field_names().contains("title"@));
        assert(d14.contains("title"@));
    }
    assert(lifted.resource_types == dc.resource_types) by {
        assert(field_names().contains("type"@));
        assert(d14.contains("type"@));
    }
}

/// Reading back what was written gives the extension again: the elements
/// that stand for it, read as the children of an element that is captured,
/// are found among the captured children, and what is lifted out of those is
/// the extension.
pub proof fn lemma_dublin_core_round_trip(
    dc: DublinCoreModel,
    name: Seq<char>,
    rest: Seq<EventModel>,
)
    ensures
        ExtensionModel::decoded(
            Seq::empty(),
            dc.events() + seq![EventModel::End { name: name }] + rest,
        ) == Ok::<(ExtensionModel, Seq<EventModel>), ErrorModel>(
            (
                ExtensionModel {
                    name: name,
                    value: None,
                    attrs: Seq::empty(),
                    children: dc.captured(Seq::empty()),
                },
                rest,
            ),
        ),
        names_distinct(dc.captured(Seq::empty())),
        DublinCoreModel::lifted(as_map(dc.captured(Seq::empty()))) == dc,
{
    let none: Seq<(Seq<char>, Seq<ExtensionModel>)> = Seq::empty();
    let opened = ExtensionModel::opened(Seq::empty());
    let tail = seq![EventModel::End { name: name }] + rest;
    assert(dc.events() + seq![EventModel::End { name: name }] + rest =~= dc.events() + tail);
    lemma_dublin_core_captured(dc, tail, Seq::empty(), opened);
    assert(tail[0] == EventModel::End { name: name });
    assert(tail.skip(1) =~= rest);
    lemma_captured_is_lowered(dc, none);
    assert(as_map(none) =~= Map::<Seq<char>, Seq<ExtensionModel>>::empty());
    lemma_lower_then_lift(dc, Map::empty());
}

/// The fifteen field names are fifteen different texts.
pub proof fn lemma_field_names()
    ensures
        "contributor"@ != "coverage"@,
        "contributor"@ != "creator"@,
        "contributor"@ != "date"@,
        "contributor"@ != "description"@,
        "contributor"@ != "format"@,
        "contributor"@ != "identifier"@,
        "contributor"@ != "language"@,
        "contributor"@ != "publisher"@,
        "contributor"@ != "relation"@,
        "contributor"@ != "rights"@,
        "contributor"@ != "source"@,
        "contributor"@ != "subject"@,
        "contributor"@ != "title"@,
        "contributor"@ != "type"@,
        "coverage"@ != "creator"@,
        "coverage"@ != "date"@,
        "coverage"@ != "description"@,
        "coverage"@ != "format"@,
        "coverage"@ != "identifier"@,
        "coverage"@ != "language"@,
        "coverage"@ != "publisher"@,
        "coverage"@ != "relation"@,
        "coverage"@ != "rights"@,
        "coverage"@ != "source"@,
        "coverage"@ != "subject"@,
        "coverage"@ != "title"@,
        "coverage"@ != "type"@,
        "creator"@ != "date"@,
        "creator"@ != "description"@,
        "creator"@ != "format"@,
        "creator"@ != "identifier"@,
        "creator"@ != "language"@,
        "creator"@ != "publisher"@,
        "creator"@ != "relation"@,
        "creator"@ != "rights"@,
        "creator"@ != "source"@,
        "creator"@ != "subject"@,
        "creator"@ != "title"@,
        "creator"@ != "type"@,
        "date"@ != "description"@,
        "date"@ != "format"@,
        "date"@ != "identifier"@,
        "date"@ != "language"@,
        "date"@ != "publisher"@,
        "date"@ != "relation"@,
        "date"@ != "rights"@,
        "date"@ != "source"@,
        "date"@ != "subject"@,
        "date"@ != "title"@,
        "date"@ != "type"@,
        "description"@ != "format"@,
        "description"@ != "identifier"@,
        "description"@ != "language"@,
        "description"@ != "publisher"@,
        "description"@ != "relation"@,
        "description"@ != "rights"@,
        "description"@ != "source"@,
        "description"@ != "subject"@,
        "description"@ != "title"@,
        "description"@ != "type"@,
        "format"@ != "identifier"@,
        "format"@ != "language"@,
        "format"@ != "publisher"@,
        "format"@ != "relation"@,
        "format"@ != "rights"@,
        "format"@ != "source"@,
        "format"@ != "subject"@,
        "format"@ != "title"@,
        "format"@ != "type"@,
        "identifier"@ != "language"@,
        "identifier"@ != "publisher"@,
        "identifier"@ != "relation"@,
        "identifier"@ != "rights"@,
        "identifier"@ != "source"@,
        "identifier"@ != "subject"@,
        "identifier"@ != "title"@,
        "identifier"@ != "type"@,
        "language"@ != "publisher"@,
        "language"@ != "relation"@,
        "language"@ != "rights"@,
        "language"@ != "source"@,
        "language"@ != "subject"@,
        "language"@ != "title"@,
        "language"@ != "type"@,
        "publisher"@ != "relation"@,
        "publisher"@ != "rights"@,
        "publisher"@ != "source"@,
        "publisher"@ != "subject"@,
        "publisher"@ != "title"@,
        "publisher"@ != "type"@,
        "relation"@ != "rights"@,
        "relation"@ != "source"@,
        "relation"@ != "subject"@,
        "relation"@ != "title"@,
        "relation"@ != "type"@,
        "rights"@ != "source"@,
        "rights"@ != "subject"@,
        "rights"@ != "title"@,
        "rights"@ != "type"@,
        "source"@ != "subject"@,
        "source"@ != "title"@,
        "source"@ != "type"@,
        "subject"@ != "title"@,
        "subject"@ != "type"@,
        "title"@ != "type"@,
{
    reveal_strlit("contributor");
    reveal_strlit("coverage");
    reveal_strlit("creator");
    reveal_strlit("date");
    reveal_strlit("description");
    reveal_strlit("format");
    reveal_strlit("identifier");
    reveal_strlit("language");
    reveal_strlit("publisher");
    reveal_strlit("relation");
    reveal_strlit("rights");
    reveal_strlit("source");
    reveal_strlit("subject");
    reveal_strlit("title");
    reveal_strlit("type");
    assert("contributor"@.len() == 11);
    assert("coverage"@.len() == 8);
    assert("creator"@.len() == 7);
    assert("date"@.len() == 4);
    assert("description"@.len() == 11);
    assert("format"@.len() == 6);
    assert("identifier"@.len() == 10);
    assert("language"@.len() == 8);
    assert("publisher"@.len() == 9);
    assert("relation"@.len() == 8);
    assert("rights"@.len() == 6);
    assert("source"@.len() == 6);
    assert("subject"@.len() == 7);
    assert("title"@.len() == 5);
    assert("type"@.len() == 4);
    assert("contributor"@[0] != "description"@[0]);
    assert("coverage"@[0] != "language"@[0]);
    assert("coverage"@[0] != "relation"@[0]);
    assert("creator"@[0] != "subject"@[0]);
    assert("date"@[0] != "type"@[0]);
    assert("format"@[0] != "rights"@[0]);
    assert("format"@[0] != "source"@[0]);
    assert("language"@[0] != "relation"@[0]);
    assert("rights"@[0] != "source"@[0]);
}

} // verus!
