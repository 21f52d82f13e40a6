//! An incremental collector of dictionary raw material: fields, messages,
//! datatypes, and sections are appended one at a time, each registration
//! returning the entry's stable identifier.

use vstd::prelude::*;

verus! {

/// A stable identifier handed out at registration.
pub type Id = u32;

/// A datatype record under construction.
#[verifier::ext_equal]
pub struct Datatype {
    /// **Primary key.** Identifier of the datatype.
    pub name: String,
    /// Human readable description of this datatype.
    pub description: String,
    /// Example values for the datatype.
    pub examples: Vec<String>,
}

impl Datatype {
    pub fn new(name: &str) -> (r: Self)
        ensures
            r.name@ == name@,
            r.description@ == Seq::<char>::empty(),
            r.examples@.len() == 0,
    {
        Datatype { name: name.to_owned(), description: String::new(), examples: Vec::new() }
    }
}

/// A field record under construction: a unique tag, a name, and the
/// identifier of its datatype.
pub struct Field {
    /// A human readable string representing the name of the field.
    pub name: String,
    /// **Primary key.** A positive integer uniquely identifying this field.
    pub tag: u32,
    /// The identifier of the field's datatype.
    pub data_type_id: Id,
    /// The associated data field, if this field represents the length of
    /// another field.
    pub associated_data_tag: Option<usize>,
    pub value_restrictions: Vec<FieldEnum>,
    /// Abbreviated form of the name, for XML contexts.
    pub abbr_name: Option<String>,
    /// The base message category, when the field is used in an XML message.
    pub base_category_id: Option<Id>,
    /// XML element identifier overriding `abbr_name` when a base category is
    /// given.
    pub base_category_abbr_name: Option<String>,
    /// Whether the field is required in an XML message.
    pub required: bool,
    pub description: Option<String>,
}

/// A permitted value of a field under construction.
pub struct FieldEnum {
    pub value: String,
    pub description: String,
}

impl FieldEnum {
    pub fn new(value: String) -> (r: Self)
        ensures
            r.value@ == value@,
            r.description@ == Seq::<char>::empty(),
    {
        Self { value, description: String::new() }
    }
}

/// A message record under construction.
pub struct Message {
    /// The identifier of the component this message is shaped after.
    pub component_id: Id,
    /// **Primary key.** The unique character identifier of this message
    /// type; used literally in messages on the wire.
    pub msg_type: String,
    /// The name of this message type.
    pub name: String,
    /// The identifier of the category to which this message belongs.
    pub category_id: Id,
    /// The identifier of the section to which this message belongs.
    pub section_id: String,
    pub layout_items: Vec<crate::types::LayoutItem>,
    /// The abbreviated name of this message, when used in an XML context.
    pub abbr_name: Option<String>,
    /// Whether the message is to be generated as part of FIXML.
    pub required: bool,
    pub description: String,
    pub elaboration: Option<String>,
}

/// A component record under construction.
pub struct Component {
    /// **Primary key.** The unique integer identifier of this component
    /// type.
    pub id: usize,
    pub component_type: crate::types::FixmlComponentAttributes,
    pub layout_items: Vec<crate::types::LayoutItem>,
    pub category_id: Id,
    /// The human readable name of the component.
    pub name: String,
    /// The name for this component when used in an XML context.
    pub abbr_name: Option<String>,
}

/// A section record under construction; documentation-only.
pub struct Section {}

/// Collects dictionary raw material entry by entry. Each `add_*` method
/// appends its record and returns the position it was registered at.
pub struct DictionaryBuilder {
    pub version: String,
    pub messages: Vec<Message>,
    pub fields: Vec<Field>,
    pub data_types: Vec<Datatype>,
    pub sections: Vec<Section>,
}

impl DictionaryBuilder {
    pub fn new(version: &str) -> (r: Self)
        ensures
            r.version@ == version@,
            r.messages@.len() == 0,
            r.fields@.len() == 0,
            r.data_types@.len() == 0,
            r.sections@.len() == 0,
    {
        DictionaryBuilder {
            version: version.to_owned(),
            messages: Vec::new(),
            fields: Vec::new(),
            data_types: Vec::new(),
            sections: Vec::new(),
        }
    }

    pub fn add_field(&mut self, field: Field) -> (id: Id)
        requires
            old(self).fields@.len() < u32::MAX,
        ensures
            id == old(self).fields@.len(),
            final(self).fields@ == old(self).fields@.push(field),
            final(self).version == old(self).version,
            final(self).messages == old(self).messages,
            final(self).data_types == old(self).data_types,
            final(self).sections == old(self).sections,
    {
        let id = self.fields.len() as Id;
        self.fields.push(field);
        id
    }

    pub fn add_message(&mut self, message: Message) -> (id: Id)
        requires
            old(self).messages@.len() < u32::MAX,
        ensures
            id == old(self).messages@.len(),
            final(self).messages@ == old(self).messages@.push(message),
            final(self).version == old(self).version,
            final(self).fields == old(self).fields,
            final(self).data_types == old(self).data_types,
            final(self).sections == old(self).sections,
    {
        let id = self.messages.len() as Id;
        self.messages.push(message);
        id
    }

    pub fn add_datatype(&mut self, datatype: Datatype) -> (id: Id)
        requires
            old(self).data_types@.len() < u32::MAX,
        ensures
            id == old(self).data_types@.len(),
            final(self).data_types@ == old(self).data_types@.push(datatype),
            final(self).version == old(self).version,
            final(self).fields == old(self).fields,
            final(self).messages == old(self).messages,
            final(self).sections == old(self).sections,
    {
        let id = self.data_types.len() as Id;
        self.data_types.push(datatype);
        id
    }

    pub fn add_section(&mut self, section: Section) -> (id: Id)
        requires
            old(self).sections@.len() < u32::MAX,
        ensures
            id == old(self).sections@.len(),
            final(self).sections@ == old(self).sections@.push(section),
            final(self).version == old(self).version,
            final(self).fields == old(self).fields,
            final(self).messages == old(self).messages,
            final(self).data_types == old(self).data_types,
    {
        let id = self.sections.len() as Id;
        self.sections.push(section);
        id
    }
}

} // verus!
