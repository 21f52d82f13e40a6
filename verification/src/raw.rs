//! The raw schema tree: the order-preserving representation of a source
//! document, as handed in by an external deserializer. The import pipeline
//! consumes these records and produces a normalized dictionary.
//!
//! Each executable type has a ghost counterpart (`...V`) whose strings are
//! character sequences; contracts are stated over those views.

use vstd::prelude::*;

verus! {

/// One permitted value of a field, together with its documentation text.
#[derive(Clone, Debug)]
pub struct RawFieldEnum {
    pub value: String,
    pub description: String,
}

/// A field record: tag number, name, datatype name, and the optional ordered
/// list of permitted values.
#[derive(Clone, Debug)]
pub struct RawField {
    pub number: u32,
    pub name: String,
    pub datatype: String,
    pub values: Option<Vec<RawFieldEnum>>,
}

/// One entry of a layout definition: a field reference, a repeating group
/// (counter field name plus nested entries), or a component reference.
/// The `required` marker is the source's single-character flag; `'Y'` means
/// required.
pub enum RawItem {
    Field { name: String, required: char },
    Group { name: String, required: char, items: Vec<RawItem> },
    Component { name: String, required: char },
}

/// A component record: name plus its ordered layout entries.
pub struct RawComponent {
    pub name: String,
    pub items: Vec<RawItem>,
}

/// A message record: human name, wire msg-type code, optional category hint,
/// and the ordered layout entries.
pub struct RawMessage {
    pub name: String,
    pub msgtype: String,
    pub msgcat: Option<String>,
    pub items: Vec<RawItem>,
}

/// A whole source document. Each section is optional here so that a missing
/// section can be reported as malformed input by the importer itself.
pub struct RawDocument {
    pub doc_type: String,
    pub major: String,
    pub minor: String,
    pub servicepack: String,
    pub header: Option<Vec<RawItem>>,
    pub trailer: Option<Vec<RawItem>>,
    pub messages: Option<Vec<RawMessage>>,
    pub components: Option<Vec<RawComponent>>,
    pub fields: Option<Vec<RawField>>,
}

// ---------------------------------------------------------------------------
// Ghost views
// ---------------------------------------------------------------------------

#[verifier::ext_equal]
pub struct RawEnumV {
    pub value: Seq<char>,
    pub description: Seq<char>,
}

#[verifier::ext_equal]
pub enum RawItemV {
    Field { name: Seq<char>, required: char },
    Group { name: Seq<char>, required: char, items: Seq<RawItemV> },
    Component { name: Seq<char>, required: char },
}

#[verifier::ext_equal]
pub struct RawFieldV {
    pub number: u32,
    pub name: Seq<char>,
    pub datatype: Seq<char>,
    pub values: Option<Seq<RawEnumV>>,
}

#[verifier::ext_equal]
pub struct RawComponentV {
    pub name: Seq<char>,
    pub items: Seq<RawItemV>,
}

#[verifier::ext_equal]
pub struct RawMessageV {
    pub name: Seq<char>,
    pub msgtype: Seq<char>,
    pub msgcat: Option<Seq<char>>,
    pub items: Seq<RawItemV>,
}

#[verifier::ext_equal]
pub struct RawDocV {
    pub doc_type: Seq<char>,
    pub major: Seq<char>,
    pub minor: Seq<char>,
    pub servicepack: Seq<char>,
    pub header: Option<Seq<RawItemV>>,
    pub trailer: Option<Seq<RawItemV>>,
    pub messages: Option<Seq<RawMessageV>>,
    pub components: Option<Seq<RawComponentV>>,
    pub fields: Option<Seq<RawFieldV>>,
}

pub open spec fn raw_item_v(it: RawItem) -> RawItemV
    decreases it,
{
    match it {
        RawItem::Field { name, required } => RawItemV::Field { name: name@, required },
        RawItem::Group { name, required, items } => RawItemV::Group {
            name: name@,
            required,
            items: raw_items_v(items@),
        },
        RawItem::Component { name, required } => RawItemV::Component { name: name@, required },
    }
}

pub open spec fn raw_items_v(s: Seq<RawItem>) -> Seq<RawItemV>
    decreases s,
{
    if s.len() == 0 {
        Seq::empty()
    } else {
        seq![raw_item_v(s[0])] + raw_items_v(s.drop_first())
    }
}

impl View for RawFieldEnum {
    type V = RawEnumV;

    open spec fn view(&self) -> RawEnumV {
        RawEnumV { value: self.value@, description: self.description@ }
    }
}

pub open spec fn raw_enums_v(s: Seq<RawFieldEnum>) -> Seq<RawEnumV> {
    s.map_values(|e: RawFieldEnum| e@)
}

impl View for RawField {
    type V = RawFieldV;

    open spec fn view(&self) -> RawFieldV {
        RawFieldV {
            number: self.number,
            name: self.name@,
            datatype: self.datatype@,
            values: match self.values {
                Some(vs) => Some(raw_enums_v(vs@)),
                None => None,
            },
        }
    }
}

pub open spec fn raw_fields_v(s: Seq<RawField>) -> Seq<RawFieldV> {
    s.map_values(|f: RawField| f@)
}

impl View for RawComponent {
    type V = RawComponentV;

    open spec fn view(&self) -> RawComponentV {
        RawComponentV { name: self.name@, items: raw_items_v(self.items@) }
    }
}

pub open spec fn raw_components_v(s: Seq<RawComponent>) -> Seq<RawComponentV> {
    s.map_values(|c: RawComponent| c@)
}

impl View for RawMessage {
    type V = RawMessageV;

    open spec fn view(&self) -> RawMessageV {
        RawMessageV {
            name: self.name@,
            msgtype: self.msgtype@,
            msgcat: match self.msgcat {
                Some(c) => Some(c@),
                None => None,
            },
            items: raw_items_v(self.items@),
        }
    }
}

pub open spec fn raw_messages_v(s: Seq<RawMessage>) -> Seq<RawMessageV> {
    s.map_values(|m: RawMessage| m@)
}

impl View for RawDocument {
    type V = RawDocV;

    open spec fn view(&self) -> RawDocV {
        RawDocV {
            doc_type: self.doc_type@,
            major: self.major@,
            minor: self.minor@,
            servicepack: self.servicepack@,
            header: match self.header {
                Some(h) => Some(raw_items_v(h@)),
                None => None,
            },
            trailer: match self.trailer {
                Some(t) => Some(raw_items_v(t@)),
                None => None,
            },
            messages: match self.messages {
                Some(m) => Some(raw_messages_v(m@)),
                None => None,
            },
            components: match self.components {
                Some(c) => Some(raw_components_v(c@)),
                None => None,
            },
            fields: match self.fields {
                Some(f) => Some(raw_fields_v(f@)),
                None => None,
            },
        }
    }
}

// ---------------------------------------------------------------------------
// Spec functions over the views
// ---------------------------------------------------------------------------

/// The names of the components that `item` directly references: the name of a
/// component entry, and, inside a group, the references of its nested entries.
pub open spec fn item_component_refs(item: RawItemV) -> Seq<Seq<char>>
    decreases item,
{
    match item {
        RawItemV::Field { .. } => Seq::empty(),
        RawItemV::Group { items, .. } => items_component_refs(items),
        RawItemV::Component { name, .. } => seq![name],
    }
}

/// The component names referenced anywhere in `items`, in order of appearance.
pub open spec fn items_component_refs(items: Seq<RawItemV>) -> Seq<Seq<char>>
    decreases items,
{
    if items.len() == 0 {
        Seq::empty()
    } else {
        item_component_refs(items[0]) + items_component_refs(items.drop_first())
    }
}

/// The names of the fields that `item` references: the name of a field entry
/// or of a group's counter field, and, inside a group, the references of its
/// nested entries.
pub open spec fn item_field_refs(item: RawItemV) -> Seq<Seq<char>>
    decreases item,
{
    match item {
        RawItemV::Field { name, .. } => seq![name],
        RawItemV::Group { name, items, .. } => seq![name] + items_field_refs(items),
        RawItemV::Component { .. } => Seq::empty(),
    }
}

/// The field names referenced anywhere in `items`, in order of appearance.
pub open spec fn items_field_refs(items: Seq<RawItemV>) -> Seq<Seq<char>>
    decreases items,
{
    if items.len() == 0 {
        Seq::empty()
    } else {
        item_field_refs(items[0]) + items_field_refs(items.drop_first())
    }
}

/// The names of the fields that introduce a group in `item`, at any depth.
pub open spec fn item_group_starters(item: RawItemV) -> Seq<Seq<char>>
    decreases item,
{
    match item {
        RawItemV::Field { .. } => Seq::empty(),
        RawItemV::Group { name, items, .. } => seq![name] + items_group_starters(items),
        RawItemV::Component { .. } => Seq::empty(),
    }
}

/// The group-introducing field names anywhere in `items`.
pub open spec fn items_group_starters(items: Seq<RawItemV>) -> Seq<Seq<char>>
    decreases items,
{
    if items.len() == 0 {
        Seq::empty()
    } else {
        item_group_starters(items[0]) + items_group_starters(items.drop_first())
    }
}

/// `raw_items_v` maps the view over the elements.
pub proof fn lemma_raw_items_v_props(s: Seq<RawItem>)
    ensures
        raw_items_v(s).len() == s.len(),
        forall|i: int| 0 <= i < s.len() ==> raw_items_v(s)[i] == raw_item_v(#[trigger] s[i]),
    decreases s,
{
    if s.len() > 0 {
        lemma_raw_items_v_props(s.drop_first());
        assert forall|i: int| 0 <= i < s.len() implies raw_items_v(s)[i] == raw_item_v(
            #[trigger] s[i],
        ) by {
            if i > 0 {
                assert(raw_items_v(s)[i] == raw_items_v(s.drop_first())[i - 1]);
                assert(s.drop_first()[i - 1] == s[i]);
            }
        }
    }
}

pub proof fn lemma_group_starters_singleton(x: RawItemV)
    ensures
        items_group_starters(seq![x]) == item_group_starters(x),
{
    assert(seq![x].drop_first() =~= Seq::<RawItemV>::empty());
    assert(seq![x][0] == x);
    assert(items_group_starters(Seq::<RawItemV>::empty()) =~= Seq::<Seq<char>>::empty());
    assert(items_group_starters(seq![x]) =~= item_group_starters(x));
}

pub proof fn lemma_component_refs_singleton(x: RawItemV)
    ensures
        items_component_refs(seq![x]) == item_component_refs(x),
{
    assert(seq![x].drop_first() =~= Seq::<RawItemV>::empty());
    assert(seq![x][0] == x);
    assert(items_component_refs(Seq::<RawItemV>::empty()) =~= Seq::<Seq<char>>::empty());
    assert(items_component_refs(seq![x]) =~= item_component_refs(x));
}

pub proof fn lemma_field_refs_singleton(x: RawItemV)
    ensures
        items_field_refs(seq![x]) == item_field_refs(x),
{
    assert(seq![x].drop_first() =~= Seq::<RawItemV>::empty());
    assert(seq![x][0] == x);
    assert(items_field_refs(Seq::<RawItemV>::empty()) =~= Seq::<Seq<char>>::empty());
    assert(items_field_refs(seq![x]) =~= item_field_refs(x));
}

pub proof fn lemma_raw_items_v_push(s: Seq<RawItem>, x: RawItem)
    ensures
        raw_items_v(s.push(x)) == raw_items_v(s).push(raw_item_v(x)),
{
    lemma_raw_items_v_props(s.push(x));
    lemma_raw_items_v_props(s);
    assert forall|i: int| 0 <= i < s.len() + 1 implies raw_items_v(s.push(x))[i] == raw_items_v(
        s,
    ).push(raw_item_v(x))[i] by {
        if i < s.len() {
            assert(s.push(x)[i] == s[i]);
            assert(raw_items_v(s.push(x))[i] == raw_item_v(s[i]));
        } else {
            assert(s.push(x)[i] == x);
            assert(raw_items_v(s.push(x))[i] == raw_item_v(x));
        }
    }
    assert(raw_items_v(s.push(x)) =~= raw_items_v(s).push(raw_item_v(x)));
}

/// The collectors distribute over concatenation.
pub proof fn lemma_component_refs_concat(a: Seq<RawItemV>, b: Seq<RawItemV>)
    ensures
        items_component_refs(a + b) == items_component_refs(a) + items_component_refs(b),
    decreases a,
{
    if a.len() == 0 {
        assert(a + b =~= b);
        assert(items_component_refs(a) + items_component_refs(b) =~= items_component_refs(b));
    } else {
        lemma_component_refs_concat(a.drop_first(), b);
        assert((a + b).drop_first() =~= a.drop_first() + b);
        assert((a + b)[0] == a[0]);
        assert(items_component_refs(a + b) =~= items_component_refs(a) + items_component_refs(b));
    }
}

pub proof fn lemma_field_refs_concat(a: Seq<RawItemV>, b: Seq<RawItemV>)
    ensures
        items_field_refs(a + b) == items_field_refs(a) + items_field_refs(b),
    decreases a,
{
    if a.len() == 0 {
        assert(a + b =~= b);
        assert(items_field_refs(a) + items_field_refs(b) =~= items_field_refs(b));
    } else {
        lemma_field_refs_concat(a.drop_first(), b);
        assert((a + b).drop_first() =~= a.drop_first() + b);
        assert((a + b)[0] == a[0]);
        assert(items_field_refs(a + b) =~= items_field_refs(a) + items_field_refs(b));
    }
}

pub proof fn lemma_group_starters_concat(a: Seq<RawItemV>, b: Seq<RawItemV>)
    ensures
        items_group_starters(a + b) == items_group_starters(a) + items_group_starters(b),
    decreases a,
{
    if a.len() == 0 {
        assert(a + b =~= b);
        assert(items_group_starters(a) + items_group_starters(b) =~= items_group_starters(b));
    } else {
        lemma_group_starters_concat(a.drop_first(), b);
        assert((a + b).drop_first() =~= a.drop_first() + b);
        assert((a + b)[0] == a[0]);
        assert(items_group_starters(a + b) =~= items_group_starters(a) + items_group_starters(b));
    }
}

} // verus!
