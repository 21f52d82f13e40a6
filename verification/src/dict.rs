//! The assembled dictionary: the aggregate root that owns every entity
//! collection and answers lookups by tag, by name, and by wire msg-type code.
//!
//! A dictionary is produced by the import pipeline and is immutable
//! afterwards; cross-references between entities are indices into the
//! collections owned here, so every lookup stays consistent.

use vstd::prelude::*;
use crate::types::{
    Abbreviation, AbbreviationV, Category, CategoryV, Component, ComponentV, Datatype, DatatypeV,
    Field, FieldV, ItemV, LayoutItem, LayoutItemKind, Message, MessageV, components_v, fields_v,
    item_v, messages_v,
};
use crate::util::{first_index, lemma_first_index, lemma_first_index_is, names_unique, str_eq};

verus! {

/// Looks up whether a field holds raw data (as opposed to a plain value).
pub trait DataFieldLookup<F> {
    fn field_is_data(&self, field: F) -> bool;
}

/// Looks up whether a field counts the entries of a repeating group.
pub trait NumInGroupLookup<F> {
    fn field_is_num_in_group(&self, field: F) -> bool;
}

/// Specifies business semantics for application-level entities within the
/// protocol: the mapping of field names to tags, which fields are mandatory,
/// the data type of every field, and what to expect in headers.
///
/// A dictionary is assembled once by the import pipeline and is meant to be
/// read-only afterwards; the well-formedness predicate [`dict_wf`] describes
/// the invariants that import establishes.
pub struct Dictionary {
    pub version: String,
    pub doc_type: String,
    pub major: String,
    pub minor: String,
    pub servicepack: String,
    pub abbreviations: Vec<Abbreviation>,
    pub datatypes: Vec<Datatype>,
    pub fields: Vec<Field>,
    pub components: Vec<Component>,
    pub messages: Vec<Message>,
    pub categories: Vec<Category>,
}

#[verifier::ext_equal]
pub struct DictV {
    pub version: Seq<char>,
    pub doc_type: Seq<char>,
    pub major: Seq<char>,
    pub minor: Seq<char>,
    pub servicepack: Seq<char>,
    pub abbreviations: Seq<AbbreviationV>,
    pub datatypes: Seq<DatatypeV>,
    pub fields: Seq<FieldV>,
    pub components: Seq<ComponentV>,
    pub messages: Seq<MessageV>,
    pub categories: Seq<CategoryV>,
}

impl View for Dictionary {
    type V = DictV;

    open spec fn view(&self) -> DictV {
        DictV {
            version: self.version@,
            doc_type: self.doc_type@,
            major: self.major@,
            minor: self.minor@,
            servicepack: self.servicepack@,
            abbreviations: self.abbreviations@.map_values(|a: Abbreviation| a@),
            datatypes: self.datatypes@.map_values(|d: Datatype| d@),
            fields: fields_v(self.fields@),
            components: components_v(self.components@),
            messages: messages_v(self.messages@),
            categories: self.categories@.map_values(|c: Category| c@),
        }
    }
}

// ---------------------------------------------------------------------------
// Derived name and tag sequences
// ---------------------------------------------------------------------------

pub open spec fn field_names(fields: Seq<FieldV>) -> Seq<Seq<char>> {
    fields.map_values(|f: FieldV| f.name)
}

pub open spec fn field_tags(fields: Seq<FieldV>) -> Seq<u32> {
    fields.map_values(|f: FieldV| f.tag)
}

pub open spec fn datatype_names(datatypes: Seq<DatatypeV>) -> Seq<Seq<char>> {
    datatypes.map_values(|d: DatatypeV| d.name)
}

pub open spec fn component_names(components: Seq<ComponentV>) -> Seq<Seq<char>> {
    components.map_values(|c: ComponentV| c.name)
}

pub open spec fn message_names(messages: Seq<MessageV>) -> Seq<Seq<char>> {
    messages.map_values(|m: MessageV| m.name)
}

pub open spec fn message_types(messages: Seq<MessageV>) -> Seq<Seq<char>> {
    messages.map_values(|m: MessageV| m.msg_type)
}

pub open spec fn abbreviation_names(abbreviations: Seq<AbbreviationV>) -> Seq<Seq<char>> {
    abbreviations.map_values(|a: AbbreviationV| a.abbreviation)
}

// ---------------------------------------------------------------------------
// Well-formedness
// ---------------------------------------------------------------------------

/// Every reference of `item` is a live entity: field indices lie below
/// `nfields` and component indices below `ncomps`.
pub open spec fn item_wf(item: ItemV, nfields: int, ncomps: int) -> bool
    decreases item,
{
    match item {
        ItemV::Field { field, .. } => 0 <= field < nfields,
        ItemV::Group { first_field, contents, .. } => {
            &&& 0 <= first_field < nfields
            &&& items_wf(contents, nfields, ncomps)
        },
        ItemV::Component { component, .. } => 0 <= component < ncomps,
    }
}

pub open spec fn items_wf(items: Seq<ItemV>, nfields: int, ncomps: int) -> bool
    decreases items,
{
    forall|i: int| 0 <= i < items.len() ==> item_wf(#[trigger] items[i], nfields, ncomps)
}

/// The invariant of an assembled dictionary: keys are unique within their
/// collections, every field's datatype is live, and every layout reference
/// resolves to a live entity. A component's layout may only reference
/// components registered strictly before it, which makes the component graph
/// a DAG by construction.
pub open spec fn dict_wf(d: DictV) -> bool {
    &&& forall|i: int| 0 <= i < d.fields.len() ==> (#[trigger] d.fields[i]).tag >= 1
    &&& forall|i: int|
        0 <= i < d.fields.len() ==> 0 <= (#[trigger] d.fields[i]).datatype_index
            < d.datatypes.len()
    &&& names_unique(field_tags(d.fields))
    &&& names_unique(field_names(d.fields))
    &&& names_unique(datatype_names(d.datatypes))
    &&& names_unique(component_names(d.components))
    &&& names_unique(message_names(d.messages))
    &&& names_unique(message_types(d.messages))
    &&& forall|ci: int|
        0 <= ci < d.components.len() ==> items_wf(
            (#[trigger] d.components[ci]).layout_items,
            d.fields.len() as int,
            ci,
        )
    &&& forall|mi: int|
        0 <= mi < d.messages.len() ==> items_wf(
            (#[trigger] d.messages[mi]).layout_items,
            d.fields.len() as int,
            d.components.len() as int,
        )
}

impl Dictionary {
    pub open spec fn wf(&self) -> bool {
        dict_wf(self@)
    }

    /// The version string associated with this dictionary (e.g. `FIX.4.4`).
    pub fn version(&self) -> (r: &str)
        ensures
            r@ == self@.version,
    {
        self.version.as_str()
    }

    /// The field whose tag is `tag`, if any. Tags are positive; no field
    /// answers to `0`.
    pub fn field_by_tag(&self, tag: u32) -> (r: Option<&Field>)
        ensures
            match r {
                Some(f) => {
                    let i = first_index(field_tags(self@.fields), tag);
                    &&& tag >= 1
                    &&& 0 <= i < self@.fields.len()
                    &&& f@ == self@.fields[i]
                    &&& f@.tag == tag
                },
                None => tag == 0 || !field_tags(self@.fields).contains(tag),
            },
            r is Some <==> tag >= 1 && field_tags(self@.fields).contains(tag),
    {
        if tag == 0 {
            return None;
        }
        let ghost tags = field_tags(self@.fields);
        proof {
            lemma_first_index(tags, tag);
        }
        let mut i: usize = 0;
        while i < self.fields.len()
            invariant
                tag >= 1,
                tags == field_tags(self@.fields),
                tags.len() == self.fields.len(),
                i <= self.fields.len(),
                forall|j: int| 0 <= j < i ==> tags[j] != tag,
                forall|j: int|
                    0 <= j < self.fields.len() ==> tags[j] == (#[trigger] self.fields@[j])@.tag,
            decreases self.fields.len() - i,
        {
            if self.fields[i].tag == tag {
                proof {
                    assert(tags[i as int] == tag);
                    lemma_first_index_is(tags, tag, i as int);
                    assert(tags.contains(tag));
                    assert(self@.fields[i as int] == self.fields@[i as int]@);
                    assert(self@.fields[i as int].tag == tags[i as int]);
                }
                return Some(&self.fields[i]);
            }
            i += 1;
        }
        proof {
            if tags.contains(tag) {
                let k = choose|k: int| 0 <= k < tags.len() && tags[k] == tag;
                assert(tags[k] != tag);
            }
        }
        None
    }

    /// The field named `name`, if any.
    pub fn field_by_name(&self, name: &str) -> (r: Option<&Field>)
        ensures
            match r {
                Some(f) => {
                    let i = first_index(field_names(self@.fields), name@);
                    &&& 0 <= i < self@.fields.len()
                    &&& f@ == self@.fields[i]
                    &&& f@.name == name@
                },
                None => !field_names(self@.fields).contains(name@),
            },
            r is Some <==> field_names(self@.fields).contains(name@),
    {
        let ghost names = field_names(self@.fields);
        proof {
            lemma_first_index(names, name@);
        }
        let mut i: usize = 0;
        while i < self.fields.len()
            invariant
                names == field_names(self@.fields),
                names.len() == self.fields.len(),
                i <= self.fields.len(),
                forall|j: int| 0 <= j < i ==> names[j] != name@,
                forall|j: int|
                    0 <= j < self.fields.len() ==> names[j] == (#[trigger] self.fields@[j])@.name,
            decreases self.fields.len() - i,
        {
            if str_eq(self.fields[i].name.as_str(), name) {
                proof {
                    assert(names[i as int] == name@);
                    lemma_first_index_is(names, name@, i as int);
                    assert(names.contains(name@));
                }
                return Some(&self.fields[i]);
            }
            i += 1;
        }
        proof {
            if names.contains(name@) {
                let k = choose|k: int| 0 <= k < names.len() && names[k] == name@;
                assert(names[k] != name@);
            }
        }
        None
    }

    /// The message named `name`, if any.
    pub fn message_by_name(&self, name: &str) -> (r: Option<&Message>)
        ensures
            match r {
                Some(m) => {
                    let i = first_index(message_names(self@.messages), name@);
                    &&& 0 <= i < self@.messages.len()
                    &&& m@ == self@.messages[i]
                    &&& m@.name == name@
                },
                None => !message_names(self@.messages).contains(name@),
            },
            r is Some <==> message_names(self@.messages).contains(name@),
    {
        let ghost names = message_names(self@.messages);
        proof {
            lemma_first_index(names, name@);
        }
        let mut i: usize = 0;
        while i < self.messages.len()
            invariant
                names == message_names(self@.messages),
                names.len() == self.messages.len(),
                i <= self.messages.len(),
                forall|j: int| 0 <= j < i ==> names[j] != name@,
                forall|j: int|
                    0 <= j < self.messages.len() ==> names[j] == (#[trigger] self.messages@[j])@.name,
            decreases self.messages.len() - i,
        {
            if str_eq(self.messages[i].name.as_str(), name) {
                proof {
                    assert(names[i as int] == name@);
                    lemma_first_index_is(names, name@, i as int);
                    assert(names.contains(name@));
                }
                return Some(&self.messages[i]);
            }
            i += 1;
        }
        proof {
            if names.contains(name@) {
                let k = choose|k: int| 0 <= k < names.len() && names[k] == name@;
                assert(names[k] != name@);
            }
        }
        None
    }

    /// The message whose wire msg-type code is `msgtype`, if any.
    pub fn message_by_msgtype(&self, msgtype: &str) -> (r: Option<&Message>)
        ensures
            match r {
                Some(m) => {
                    let i = first_index(message_types(self@.messages), msgtype@);
                    &&& 0 <= i < self@.messages.len()
                    &&& m@ == self@.messages[i]
                    &&& m@.msg_type == msgtype@
                },
                None => !message_types(self@.messages).contains(msgtype@),
            },
            r is Some <==> message_types(self@.messages).contains(msgtype@),
    {
        let ghost names = message_types(self@.messages);
        proof {
            lemma_first_index(names, msgtype@);
        }
        let mut i: usize = 0;
        while i < self.messages.len()
            invariant
                names == message_types(self@.messages),
                names.len() == self.messages.len(),
                i <= self.messages.len(),
                forall|j: int| 0 <= j < i ==> names[j] != msgtype@,
                forall|j: int|
                    0 <= j < self.messages.len() ==> names[j] == (
                    #[trigger] self.messages@[j])@.msg_type,
            decreases self.messages.len() - i,
        {
            if str_eq(self.messages[i].msg_type.as_str(), msgtype) {
                proof {
                    assert(names[i as int] == msgtype@);
                    lemma_first_index_is(names, msgtype@, i as int);
                    assert(names.contains(msgtype@));
                }
                return Some(&self.messages[i]);
            }
            i += 1;
        }
        proof {
            if names.contains(msgtype@) {
                let k = choose|k: int| 0 <= k < names.len() && names[k] == msgtype@;
                assert(names[k] != msgtype@);
            }
        }
        None
    }

    /// The component named `name`, if any.
    pub fn component_by_name(&self, name: &str) -> (r: Option<&Component>)
        ensures
            match r {
                Some(c) => {
                    let i = first_index(component_names(self@.components), name@);
                    &&& 0 <= i < self@.components.len()
                    &&& c@ == self@.components[i]
                    &&& c@.name == name@
                },
                None => !component_names(self@.components).contains(name@),
            },
            r is Some <==> component_names(self@.components).contains(name@),
    {
        let ghost names = component_names(self@.components);
        proof {
            lemma_first_index(names, name@);
        }
        let mut i: usize = 0;
        while i < self.components.len()
            invariant
                names == component_names(self@.components),
                names.len() == self.components.len(),
                i <= self.components.len(),
                forall|j: int| 0 <= j < i ==> names[j] != name@,
                forall|j: int|
                    0 <= j < self.components.len() ==> names[j] == (
                    #[trigger] self.components@[j])@.name,
            decreases self.components.len() - i,
        {
            if str_eq(self.components[i].name.as_str(), name) {
                proof {
                    assert(names[i as int] == name@);
                    lemma_first_index_is(names, name@, i as int);
                    assert(names.contains(name@));
                }
                return Some(&self.components[i]);
            }
            i += 1;
        }
        proof {
            if names.contains(name@) {
                let k = choose|k: int| 0 <= k < names.len() && names[k] == name@;
                assert(names[k] != name@);
            }
        }
        None
    }

    /// The datatype named `name`, if any.
    pub fn datatype_by_name(&self, name: &str) -> (r: Option<&Datatype>)
        ensures
            match r {
                Some(d) => {
                    let i = first_index(datatype_names(self@.datatypes), name@);
                    &&& 0 <= i < self@.datatypes.len()
                    &&& d@ == self@.datatypes[i]
                    &&& d@.name == name@
                },
                None => !datatype_names(self@.datatypes).contains(name@),
            },
            r is Some <==> datatype_names(self@.datatypes).contains(name@),
    {
        let ghost names = datatype_names(self@.datatypes);
        proof {
            lemma_first_index(names, name@);
        }
        let mut i: usize = 0;
        while i < self.datatypes.len()
            invariant
                names == datatype_names(self@.datatypes),
                names.len() == self.datatypes.len(),
                i <= self.datatypes.len(),
                forall|j: int| 0 <= j < i ==> names[j] != name@,
                forall|j: int|
                    0 <= j < self.datatypes.len() ==> names[j] == (
                    #[trigger] self.datatypes@[j])@.name,
            decreases self.datatypes.len() - i,
        {
            if str_eq(self.datatypes[i].name.as_str(), name) {
                proof {
                    assert(names[i as int] == name@);
                    lemma_first_index_is(names, name@, i as int);
                    assert(names.contains(name@));
                }
                return Some(&self.datatypes[i]);
            }
            i += 1;
        }
        proof {
            if names.contains(name@) {
                let k = choose|k: int| 0 <= k < names.len() && names[k] == name@;
                assert(names[k] != name@);
            }
        }
        None
    }

    /// The known abbreviation entry for `term`, if any, according to the
    /// documentation of this dictionary.
    pub fn abbreviation_for(&self, term: &str) -> (r: Option<&Abbreviation>)
        ensures
            match r {
                Some(a) => {
                    let i = first_index(abbreviation_names(self@.abbreviations), term@);
                    &&& 0 <= i < self@.abbreviations.len()
                    &&& a@ == self@.abbreviations[i]
                    &&& a@.abbreviation == term@
                },
                None => !abbreviation_names(self@.abbreviations).contains(term@),
            },
            r is Some <==> abbreviation_names(self@.abbreviations).contains(term@),
    {
        let ghost names = abbreviation_names(self@.abbreviations);
        proof {
            lemma_first_index(names, term@);
        }
        let mut i: usize = 0;
        while i < self.abbreviations.len()
            invariant
                names == abbreviation_names(self@.abbreviations),
                names.len() == self.abbreviations.len(),
                i <= self.abbreviations.len(),
                forall|j: int| 0 <= j < i ==> names[j] != term@,
                forall|j: int|
                    0 <= j < self.abbreviations.len() ==> names[j] == (
                    #[trigger] self.abbreviations@[j])@.abbreviation,
            decreases self.abbreviations.len() - i,
        {
            if str_eq(self.abbreviations[i].abbreviation.as_str(), term) {
                proof {
                    assert(names[i as int] == term@);
                    lemma_first_index_is(names, term@, i as int);
                    assert(names.contains(term@));
                }
                return Some(&self.abbreviations[i]);
            }
            i += 1;
        }
        proof {
            if names.contains(term@) {
                let k = choose|k: int| 0 <= k < names.len() && names[k] == term@;
                assert(names[k] != term@);
            }
        }
        None
    }

    /// All datatypes, in registration order (source order of first use).
    pub fn iter_datatypes(&self) -> (r: &Vec<Datatype>)
        ensures
            r@.map_values(|d: Datatype| d@) == self@.datatypes,
    {
        &self.datatypes
    }

    /// All messages, in source order.
    pub fn iter_messages(&self) -> (r: &Vec<Message>)
        ensures
            messages_v(r@) == self@.messages,
    {
        &self.messages
    }

    /// All categories, in registration order.
    pub fn iter_categories(&self) -> (r: &Vec<Category>)
        ensures
            r@.map_values(|c: Category| c@) == self@.categories,
    {
        &self.categories
    }

    /// All fields, in source order.
    pub fn iter_fields(&self) -> (r: &Vec<Field>)
        ensures
            fields_v(r@) == self@.fields,
    {
        &self.fields
    }

    /// All components, in registration (dependency) order, the synthetic
    /// `StandardHeader` and `StandardTrailer` last.
    pub fn iter_components(&self) -> (r: &Vec<Component>)
        ensures
            components_v(r@) == self@.components,
    {
        &self.components
    }

    /// Registers a field, indexed by name and by tag.
    pub fn add_field(&mut self, field: Field)
        ensures
            final(self)@ == (DictV { fields: old(self)@.fields.push(field@), ..old(self)@ }),
    {
        self.fields.push(field);
        proof {
            assert(fields_v(self.fields@) =~= old(self)@.fields.push(field@));
            assert(self@ =~= (DictV { fields: old(self)@.fields.push(field@), ..old(self)@ }));
        }
    }

    /// Registers a message, indexed by name and by msg-type code.
    pub fn add_message(&mut self, message: Message)
        ensures
            final(self)@ == (DictV { messages: old(self)@.messages.push(message@), ..old(self)@ }),
    {
        self.messages.push(message);
        proof {
            assert(messages_v(self.messages@) =~= old(self)@.messages.push(message@));
            assert(self@ =~= (DictV { messages: old(self)@.messages.push(message@), ..old(self)@ }));
        }
    }

    /// Registers a datatype, indexed by name.
    pub fn add_datatype(&mut self, dt: Datatype)
        ensures
            final(self)@ == (DictV { datatypes: old(self)@.datatypes.push(dt@), ..old(self)@ }),
    {
        self.datatypes.push(dt);
        proof {
            assert(self.datatypes@.map_values(|d: Datatype| d@) =~= old(self)@.datatypes.push(dt@));
            assert(self@ =~= (DictV { datatypes: old(self)@.datatypes.push(dt@), ..old(self)@ }));
        }
    }

    /// Registers a component, indexed by name.
    pub fn add_component(&mut self, component: Component)
        ensures
            final(self)@ == (DictV {
                components: old(self)@.components.push(component@),
                ..old(self)@
            }),
    {
        self.components.push(component);
        proof {
            assert(components_v(self.components@) =~= old(self)@.components.push(component@));
            assert(self@ =~= (DictV {
                components: old(self)@.components.push(component@),
                ..old(self)@
            }));
        }
    }
}

/// The display name of a layout item: the name of the referenced field,
/// component, or group counter field.
pub open spec fn spec_item_name(item: ItemV, d: DictV) -> Seq<char> {
    match item {
        ItemV::Component { component, .. } => d.components[component].name,
        ItemV::Group { first_field, .. } => d.fields[first_field].name,
        ItemV::Field { field, .. } => d.fields[field].name,
    }
}

impl LayoutItem {
    /// The name of the entity this item references inside `dict`.
    pub fn name<'a>(&self, dict: &'a Dictionary) -> (r: &'a str)
        requires
            item_wf(item_v(*self), dict@.fields.len() as int, dict@.components.len() as int),
        ensures
            r@ == spec_item_name(item_v(*self), dict@),
    {
        match &self.kind {
            LayoutItemKind::Component(c) => dict.components[*c].name.as_str(),
            LayoutItemKind::Group { first_field, .. } => dict.fields[*first_field].name.as_str(),
            LayoutItemKind::Field(f) => dict.fields[*f].name.as_str(),
        }
    }
}

} // verus!
