//! The entities owned by a dictionary: datatypes, fields, components,
//! messages, layout items, and the documentation-only records.
//!
//! Cross-references between entities are stable indices into the owning
//! dictionary's collections, so the whole object graph is plain data.

use vstd::prelude::*;
use crate::raw::RawEnumV;
use crate::util::{dec_seq, str_eq};

verus! {

/// A stable internal identifier.
pub type InternalId = u32;

/// A standardized abbreviated form for a specific word, pattern, or name.
/// Abbreviation data is mostly meant for documentation purposes.
#[derive(Clone, Debug)]
pub struct Abbreviation {
    pub abbreviation: String,
    pub is_last: bool,
}

#[verifier::ext_equal]
pub struct AbbreviationV {
    pub abbreviation: Seq<char>,
    pub is_last: bool,
}

impl View for Abbreviation {
    type V = AbbreviationV;

    open spec fn view(&self) -> AbbreviationV {
        AbbreviationV { abbreviation: self.abbreviation@, is_last: self.is_last }
    }
}

impl Abbreviation {
    pub fn new(abbreviation: String) -> (r: Self)
        ensures
            r@ == (AbbreviationV { abbreviation: abbreviation@, is_last: false }),
    {
        Self { abbreviation, is_last: false }
    }
}

/// A collection of loosely related messages or components, all belonging to
/// the same section of the specification.
#[derive(Clone, Debug)]
pub struct Category {
    /// **Primary key.** A string uniquely identifying this category.
    pub name: String,
    /// The FIXML file name for a category.
    pub fixml_filename: String,
}

#[verifier::ext_equal]
pub struct CategoryV {
    pub name: Seq<char>,
    pub fixml_filename: Seq<char>,
}

impl View for Category {
    type V = CategoryV;

    open spec fn view(&self) -> CategoryV {
        CategoryV { name: self.name@, fixml_filename: self.fixml_filename@ }
    }
}

/// A collection of many components; documentation-only.
#[derive(Clone, Debug)]
pub struct Section {}

/// Component type (FIXML-specific information).
#[derive(Clone, Debug, PartialEq, Eq, Structural)]
pub enum FixmlComponentAttributes {
    Xml,
    Block { is_repeating: bool, is_implicit: bool, is_optimized: bool },
    Message,
}

/// The expected location of a field within a message.
#[derive(Clone, Copy, Debug, PartialEq, Eq, Structural)]
pub enum FieldLocation {
    /// The field is located inside the standard header.
    Header,
    /// The field is located inside the body of the message.
    Body,
    /// The field is located inside the standard trailer.
    Trailer,
}

/// A primitive data domain of fields, defined as part of a dictionary.
#[derive(Clone, Debug)]
pub struct Datatype {
    /// **Primary key.** Identifier of the datatype.
    pub name: String,
    /// Human readable description of this datatype.
    pub description: String,
    /// Example values for the datatype.
    pub examples: Vec<String>,
}

#[verifier::ext_equal]
pub struct DatatypeV {
    pub name: Seq<char>,
    pub description: Seq<char>,
    pub examples: Seq<Seq<char>>,
}

impl View for Datatype {
    type V = DatatypeV;

    open spec fn view(&self) -> DatatypeV {
        DatatypeV {
            name: self.name@,
            description: self.description@,
            examples: self.examples@.map_values(|e: String| e@),
        }
    }
}

impl Datatype {
    pub fn new(name: String) -> (r: Self)
        ensures
            r@.name == name@,
            r@.description == Seq::<char>::empty(),
            r@.examples == Seq::<Seq<char>>::empty(),
    {
        let r = Self { name, description: String::new(), examples: Vec::new() };
        proof {
            assert(r@.examples =~= Seq::<Seq<char>>::empty());
        }
        r
    }
}

/// A limitation imposed on the value of a specific field; also known as a
/// "code set". The shape is the one the source document carries, so its view
/// is shared with the raw value record.
#[derive(Clone, Debug)]
pub struct FieldEnum {
    /// The string representation of this field variant.
    pub value: String,
    /// A documentation description for the variant.
    pub description: String,
}

impl View for FieldEnum {
    type V = RawEnumV;

    open spec fn view(&self) -> RawEnumV {
        RawEnumV { value: self.value@, description: self.description@ }
    }
}

pub open spec fn field_enums_v(s: Seq<FieldEnum>) -> Seq<RawEnumV> {
    s.map_values(|e: FieldEnum| e@)
}

/// The most granular message structure abstraction: a named, uniquely tagged
/// atomic data element with a datatype and an optional value restriction.
#[derive(Clone, Debug)]
pub struct Field {
    /// A human readable string representing the name of the field.
    pub name: String,
    /// **Primary key.** A positive integer uniquely identifying this field.
    pub tag: u32,
    /// Index of the field's datatype in the owning dictionary.
    pub datatype_index: usize,
    /// Index of the associated data field, if this field represents the
    /// length of another field.
    pub associated_data_tag: Option<usize>,
    /// The ordered permitted values, or `None` when the field is
    /// unrestricted.
    pub value_restrictions: Option<Vec<FieldEnum>>,
    /// Whether the field is used as the counter of a repeating group.
    pub is_group: bool,
    /// Abbreviated form of the name, for XML contexts.
    pub abbr_name: Option<String>,
    /// The base message category, when the field is used in an XML message.
    pub base_category_id: Option<usize>,
    /// XML element identifier overriding `abbr_name` when a base category is
    /// given.
    pub base_category_abbr_name: Option<String>,
    /// Whether the field is required in an XML message.
    pub required: bool,
    pub description: Option<String>,
}

#[verifier::ext_equal]
pub struct FieldV {
    pub name: Seq<char>,
    pub tag: u32,
    pub datatype_index: int,
    pub associated_data_tag: Option<int>,
    pub value_restrictions: Option<Seq<RawEnumV>>,
    pub is_group: bool,
    pub abbr_name: Option<Seq<char>>,
    pub base_category_id: Option<int>,
    pub base_category_abbr_name: Option<Seq<char>>,
    pub required: bool,
    pub description: Option<Seq<char>>,
}

impl View for Field {
    type V = FieldV;

    open spec fn view(&self) -> FieldV {
        FieldV {
            name: self.name@,
            tag: self.tag,
            datatype_index: self.datatype_index as int,
            associated_data_tag: match self.associated_data_tag {
                Some(t) => Some(t as int),
                None => None,
            },
            value_restrictions: match self.value_restrictions {
                Some(vs) => Some(field_enums_v(vs@)),
                None => None,
            },
            is_group: self.is_group,
            abbr_name: match self.abbr_name {
                Some(a) => Some(a@),
                None => None,
            },
            base_category_id: match self.base_category_id {
                Some(b) => Some(b as int),
                None => None,
            },
            base_category_abbr_name: match self.base_category_abbr_name {
                Some(b) => Some(b@),
                None => None,
            },
            required: self.required,
            description: match self.description {
                Some(d) => Some(d@),
                None => None,
            },
        }
    }
}

pub open spec fn fields_v(s: Seq<Field>) -> Seq<FieldV> {
    s.map_values(|f: Field| f@)
}

impl Field {
    pub fn new(name: String, tag: u32, datatype_index: usize) -> (r: Self)
        ensures
            r@ == (FieldV {
                name: name@,
                tag,
                datatype_index: datatype_index as int,
                associated_data_tag: None,
                value_restrictions: None,
                is_group: false,
                abbr_name: None,
                base_category_id: None,
                base_category_abbr_name: None,
                required: false,
                description: None,
            }),
    {
        Self {
            name,
            tag,
            datatype_index,
            associated_data_tag: None,
            value_restrictions: None,
            is_group: false,
            abbr_name: None,
            base_category_id: None,
            base_category_abbr_name: None,
            required: false,
            description: None,
        }
    }

    /// Whether the field looks like a repeating-group counter by its name:
    /// the name reads `NumInGroup` case-insensitively, or it reads `int` and
    /// either ends in `Len` or starts with `No` followed by an uppercase
    /// letter.
    pub fn is_num_in_group(&self) -> (r: bool)
        ensures
            r == is_num_in_group_spec(self@.name),
    {
        proof {
            reveal_strlit("numingroup");
            reveal_strlit("int");
            reveal_strlit("Len");
            reveal_strlit("No");
        }
        let name = self.name.as_str();
        if ascii_lower_eq(name, "numingroup") {
            return true;
        }
        if !ascii_lower_eq(name, "int") {
            return false;
        }
        let len = name.unicode_len();
        // ends with "Len"
        if len >= 3 {
            if name.get_char(len - 3) == 'L' && name.get_char(len - 2) == 'e' && name.get_char(
                len - 1,
            ) == 'n' {
                proof {
                    assert(name@.subrange(name@.len() - 3, name@.len() as int) =~= "Len"@);
                    assert(seq_ends_with(name@, "Len"@));
                }
                return true;
            }
            proof {
                if seq_ends_with(name@, "Len"@) {
                    assert(name@.subrange(name@.len() - 3, name@.len() as int)[0] == name@[
                        name@.len() - 3]);
                    assert(name@.subrange(name@.len() - 3, name@.len() as int)[1] == name@[
                        name@.len() - 2]);
                    assert(name@.subrange(name@.len() - 3, name@.len() as int)[2] == name@[
                        name@.len() - 1]);
                }
            }
        } else {
            proof {
                assert(!seq_ends_with(name@, "Len"@));
            }
        }
        // starts with "No" followed by an uppercase letter
        if len > 2 {
            if name.get_char(0) == 'N' && name.get_char(1) == 'o' {
                let c2 = name.get_char(2);
                if 'A' <= c2 && c2 <= 'Z' {
                    proof {
                        assert(name@.subrange(0, 2) =~= "No"@);
                        assert(seq_starts_with(name@, "No"@));
                    }
                    return true;
                }
                proof {
                    assert(!is_ascii_upper(name@[2]));
                }
                return false;
            }
            proof {
                if seq_starts_with(name@, "No"@) {
                    assert(name@.subrange(0, 2)[0] == name@[0]);
                    assert(name@.subrange(0, 2)[1] == name@[1]);
                }
            }
            return false;
        }
        proof {
            assert(!(seq_starts_with(name@, "No"@) && name@.len() > 2 && is_ascii_upper(
                name@[2],
            )));
        }
        false
    }

    /// The tag's documentation address in the OnixS reference for the given
    /// dictionary version.
    pub fn doc_url_onixs(&self, version: &str) -> (r: String)
        ensures
            r@ == doc_url_spec(self@.tag, version@),
    {
        let v: &str = if str_eq(version, "FIX.4.0") {
            "4.0"
        } else if str_eq(version, "FIX.4.1") {
            "4.1"
        } else if str_eq(version, "FIX.4.2") {
            "4.2"
        } else if str_eq(version, "FIX.4.3") {
            "4.3"
        } else if str_eq(version, "FIX.4.4") {
            "4.4"
        } else if str_eq(version, "FIX.5.0") {
            "5.0"
        } else if str_eq(version, "FIX.5.0SP1") {
            "5.0.SP1"
        } else if str_eq(version, "FIX.5.0SP2") {
            "5.0.SP2"
        } else if str_eq(version, "FIXT.1.1") {
            "FIXT.1.1"
        } else {
            version
        };
        proof {
            assert(v@ == onixs_version_seq(version@));
        }
        let mut s = String::new();
        s.append("https://www.onixs.biz/fix-dictionary/");
        s.append(v);
        s.append("/tagNum_");
        let tag_digits = crate::util::u32_to_string(self.tag);
        s.append(tag_digits.as_str());
        s.append(".html");
        proof {
            assert(s@ =~= doc_url_spec(self@.tag, version@));
        }
        s
    }

    /// When this field allows any value, returns `None`; otherwise the
    /// ordered list of all allowed values.
    pub fn enums(&self) -> (r: Option<&Vec<FieldEnum>>)
        ensures
            match r {
                Some(vs) => self@.value_restrictions == Some(field_enums_v(vs@)),
                None => self@.value_restrictions is None,
            },
    {
        match &self.value_restrictions {
            Some(vs) => Some(vs),
            None => None,
        }
    }
}

/// ASCII lowercase folding of one character.
pub open spec fn ascii_lower_char(c: char) -> char {
    if 'A' <= c && c <= 'Z' {
        ((c as u32) + 32) as char
    } else {
        c
    }
}

/// ASCII lowercase folding of a character sequence.
pub open spec fn ascii_lower(s: Seq<char>) -> Seq<char> {
    s.map_values(|c: char| ascii_lower_char(c))
}

pub open spec fn seq_starts_with(s: Seq<char>, prefix: Seq<char>) -> bool {
    s.len() >= prefix.len() && s.subrange(0, prefix.len() as int) == prefix
}

pub open spec fn seq_ends_with(s: Seq<char>, suffix: Seq<char>) -> bool {
    s.len() >= suffix.len() && s.subrange(
        s.len() - suffix.len(),
        s.len() as int,
    ) == suffix
}

pub open spec fn is_ascii_upper(c: char) -> bool {
    'A' <= c && c <= 'Z'
}

/// The repeating-group counter heuristic over a field name: the name reads
/// `NumInGroup` (case-insensitively), or it reads `int` and either ends in
/// `Len` or starts with `No` followed by an uppercase letter.
pub open spec fn is_num_in_group_spec(name: Seq<char>) -> bool {
    ||| ascii_lower(name) == "numingroup"@
    ||| (ascii_lower(name) == "int"@ && (seq_ends_with(name, "Len"@) || (seq_starts_with(
        name,
        "No"@,
    ) && name.len() > 2 && is_ascii_upper(name[2]))))
}

fn lower_char(c: char) -> (r: char)
    ensures
        r == ascii_lower_char(c),
{
    if 'A' <= c && c <= 'Z' {
        (((c as u8) + 32) as char)
    } else {
        c
    }
}

/// Whether `s`, folded to ASCII lowercase, reads exactly `t`.
fn ascii_lower_eq(s: &str, t: &str) -> (r: bool)
    ensures
        r == (ascii_lower(s@) == t@),
{
    let slen = s.unicode_len();
    let tlen = t.unicode_len();
    if slen != tlen {
        proof {
            assert(ascii_lower(s@).len() == s@.len());
            assert(ascii_lower(s@) != t@) by {
                assert(ascii_lower(s@).len() != t@.len());
            }
        }
        return false;
    }
    let mut i: usize = 0;
    while i < slen
        invariant
            s@.len() == slen,
            t@.len() == tlen,
            slen == tlen,
            i <= slen,
            forall|j: int| 0 <= j < i ==> ascii_lower(s@)[j] == t@[j],
        decreases slen - i,
    {
        if lower_char(s.get_char(i)) != t.get_char(i) {
            proof {
                assert(ascii_lower(s@)[i as int] == ascii_lower_char(s@[i as int]));
            }
            return false;
        }
        proof {
            assert(ascii_lower(s@)[i as int] == ascii_lower_char(s@[i as int]));
        }
        i += 1;
    }
    proof {
        assert(ascii_lower(s@) =~= t@);
    }
    true
}

/// The mapped version segment of the OnixS documentation address.
pub open spec fn onixs_version_seq(version: Seq<char>) -> Seq<char> {
    if version == "FIX.4.0"@ { "4.0"@ }
    else if version == "FIX.4.1"@ { "4.1"@ }
    else if version == "FIX.4.2"@ { "4.2"@ }
    else if version == "FIX.4.3"@ { "4.3"@ }
    else if version == "FIX.4.4"@ { "4.4"@ }
    else if version == "FIX.5.0"@ { "5.0"@ }
    else if version == "FIX.5.0SP1"@ { "5.0.SP1"@ }
    else if version == "FIX.5.0SP2"@ { "5.0.SP2"@ }
    else if version == "FIXT.1.1"@ { "FIXT.1.1"@ }
    else { version }
}

/// The OnixS documentation address of a tag for a dictionary version.
pub open spec fn doc_url_spec(tag: u32, version: Seq<char>) -> Seq<char> {
    "https://www.onixs.biz/fix-dictionary/"@ + onixs_version_seq(version) + "/tagNum_"@
        + dec_seq(tag as nat) + ".html"@
}

/// A node in an ordered layout: a `required` flag together with a field
/// reference, a component reference, or a repeating group.
pub struct LayoutItem {
    pub required: bool,
    pub kind: LayoutItemKind,
}

/// The payload of a layout item. Indices refer to the owning dictionary's
/// field and component collections; a group's nested items are owned by the
/// group itself.
pub enum LayoutItemKind {
    Component(usize),
    Group { first_field: usize, contents: Vec<LayoutItem> },
    Field(usize),
}

#[verifier::ext_equal]
pub enum ItemV {
    Component { required: bool, component: int },
    Group { required: bool, first_field: int, contents: Seq<ItemV> },
    Field { required: bool, field: int },
}

pub open spec fn item_v(item: LayoutItem) -> ItemV
    decreases item,
{
    match item.kind {
        LayoutItemKind::Component(c) => ItemV::Component {
            required: item.required,
            component: c as int,
        },
        LayoutItemKind::Group { first_field, contents } => ItemV::Group {
            required: item.required,
            first_field: first_field as int,
            contents: items_v(contents@),
        },
        LayoutItemKind::Field(f) => ItemV::Field { required: item.required, field: f as int },
    }
}

pub open spec fn items_v(s: Seq<LayoutItem>) -> Seq<ItemV>
    decreases s,
{
    if s.len() == 0 {
        Seq::empty()
    } else {
        seq![item_v(s[0])] + items_v(s.drop_first())
    }
}

/// `items_v` maps the view over the elements.
pub proof fn lemma_items_v_props(s: Seq<LayoutItem>)
    ensures
        items_v(s).len() == s.len(),
        forall|i: int| 0 <= i < s.len() ==> items_v(s)[i] == item_v(#[trigger] s[i]),
    decreases s,
{
    if s.len() > 0 {
        lemma_items_v_props(s.drop_first());
        assert forall|i: int| 0 <= i < s.len() implies items_v(s)[i] == item_v(
            #[trigger] s[i],
        ) by {
            if i > 0 {
                assert(items_v(s)[i] == items_v(s.drop_first())[i - 1]);
                assert(s.drop_first()[i - 1] == s[i]);
            }
        }
    }
}

pub proof fn lemma_items_v_push(s: Seq<LayoutItem>, x: LayoutItem)
    ensures
        items_v(s.push(x)) == items_v(s).push(item_v(x)),
{
    lemma_items_v_props(s.push(x));
    lemma_items_v_props(s);
    assert forall|i: int| 0 <= i < s.len() + 1 implies items_v(s.push(x))[i] == items_v(s).push(
        item_v(x),
    )[i] by {
        if i < s.len() {
            assert(s.push(x)[i] == s[i]);
            assert(items_v(s.push(x))[i] == item_v(s[i]));
        } else {
            assert(s.push(x)[i] == x);
            assert(items_v(s.push(x))[i] == item_v(x));
        }
    }
    assert(items_v(s.push(x)) =~= items_v(s).push(item_v(x)));
}

/// A named, reusable ordered block of layout items. The two synthetic
/// components `StandardHeader` and `StandardTrailer` carry the header and
/// trailer sections of the source document.
pub struct Component {
    /// The integer identifier of this component type.
    pub id: usize,
    pub component_type: FixmlComponentAttributes,
    pub layout_items: Vec<LayoutItem>,
    pub category_iid: InternalId,
    /// **Primary key.** The human readable name of the component.
    pub name: String,
    /// The name for this component when used in an XML context.
    pub abbr_name: Option<String>,
}

#[verifier::ext_equal]
pub struct ComponentV {
    pub id: int,
    pub component_type: FixmlComponentAttributes,
    pub layout_items: Seq<ItemV>,
    pub category_iid: InternalId,
    pub name: Seq<char>,
    pub abbr_name: Option<Seq<char>>,
}

impl View for Component {
    type V = ComponentV;

    open spec fn view(&self) -> ComponentV {
        ComponentV {
            id: self.id as int,
            component_type: self.component_type,
            layout_items: items_v(self.layout_items@),
            category_iid: self.category_iid,
            name: self.name@,
            abbr_name: match self.abbr_name {
                Some(a) => Some(a@),
                None => None,
            },
        }
    }
}

pub open spec fn components_v(s: Seq<Component>) -> Seq<ComponentV> {
    s.map_values(|c: Component| c@)
}

impl Component {
    pub fn new(id: usize, name: String, category_iid: InternalId) -> (r: Self)
        ensures
            r@ == (ComponentV {
                id: id as int,
                component_type: FixmlComponentAttributes::Message,
                layout_items: Seq::<ItemV>::empty(),
                category_iid,
                name: name@,
                abbr_name: None,
            }),
    {
        let r = Self {
            id,
            component_type: FixmlComponentAttributes::Message,
            layout_items: Vec::new(),
            category_iid,
            name,
            abbr_name: None,
        };
        proof {
            assert(items_v(r.layout_items@) =~= Seq::<ItemV>::empty());
        }
        r
    }
}

/// A unit of information sent on the wire between counterparties, composed
/// of fields, groups, and components.
pub struct Message {
    /// **Primary key.** The unique character identifier of this message
    /// type; used literally in messages on the wire.
    pub msg_type: String,
    /// The name of this message type; also unique within a dictionary.
    pub name: String,
    /// Index of the component this message is shaped after, if any.
    pub component: Option<usize>,
    /// Index of the category to which this message belongs, if any.
    pub category: Option<usize>,
    /// The section to which this message belongs, if any.
    pub section: Option<Section>,
    pub layout_items: Vec<LayoutItem>,
    /// The abbreviated name of this message, when used in an XML context.
    pub abbr_name: Option<String>,
    /// Whether the message is to be generated as part of FIXML.
    pub required: bool,
    pub description: String,
    pub elaboration: Option<String>,
}

#[verifier::ext_equal]
pub struct MessageV {
    pub msg_type: Seq<char>,
    pub name: Seq<char>,
    pub component: Option<int>,
    pub category: Option<int>,
    pub layout_items: Seq<ItemV>,
    pub abbr_name: Option<Seq<char>>,
    pub required: bool,
    pub description: Seq<char>,
    pub elaboration: Option<Seq<char>>,
}

impl View for Message {
    type V = MessageV;

    open spec fn view(&self) -> MessageV {
        MessageV {
            msg_type: self.msg_type@,
            name: self.name@,
            component: match self.component {
                Some(c) => Some(c as int),
                None => None,
            },
            category: match self.category {
                Some(c) => Some(c as int),
                None => None,
            },
            layout_items: items_v(self.layout_items@),
            abbr_name: match self.abbr_name {
                Some(a) => Some(a@),
                None => None,
            },
            required: self.required,
            description: self.description@,
            elaboration: match self.elaboration {
                Some(e) => Some(e@),
                None => None,
            },
        }
    }
}

pub open spec fn messages_v(s: Seq<Message>) -> Seq<MessageV> {
    s.map_values(|m: Message| m@)
}

impl Message {
    pub fn new(msg_type: String, name: String) -> (r: Self)
        ensures
            r@ == (MessageV {
                msg_type: msg_type@,
                name: name@,
                component: None,
                category: None,
                layout_items: Seq::<ItemV>::empty(),
                abbr_name: None,
                required: false,
                description: Seq::<char>::empty(),
                elaboration: None,
            }),
    {
        let r = Self {
            msg_type,
            name,
            component: None,
            category: None,
            section: None,
            layout_items: Vec::new(),
            abbr_name: None,
            required: false,
            description: String::new(),
            elaboration: None,
        };
        proof {
            assert(items_v(r.layout_items@) =~= Seq::<ItemV>::empty());
        }
        r
    }
}

/// A definition that associates a tag, a name, and a location with a field.
pub trait IsFieldDefinition {
    /// Returns the tag associated with `self`.
    fn tag(&self) -> u32;

    /// Returns the official, ASCII, human-readable name associated with
    /// `self`.
    fn name(&self) -> &str;

    /// Returns the field location of `self`.
    fn location(&self) -> FieldLocation;
}

} // verus!
