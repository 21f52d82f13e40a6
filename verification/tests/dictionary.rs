use fefix::assemble::build_dictionary;
use fefix::dict::Dictionary;
use fefix::errors::DictError;
use fefix::export::export_document;
use fefix::raw::{RawComponent, RawDocument, RawField, RawFieldEnum, RawItem, RawMessage};
use fefix::types::LayoutItemKind;

fn build_err(doc: RawDocument) -> DictError {
    match build_dictionary(doc) {
        Ok(_) => panic!("expected the import to fail"),
        Err(e) => e,
    }
}

fn empty_doc() -> RawDocument {
    RawDocument {
        doc_type: "FIX".to_string(),
        major: "4".to_string(),
        minor: "4".to_string(),
        servicepack: "0".to_string(),
        header: Some(Vec::new()),
        trailer: Some(Vec::new()),
        messages: Some(Vec::new()),
        components: Some(Vec::new()),
        fields: Some(Vec::new()),
    }
}

fn raw_field(tag: u32, name: &str, datatype: &str) -> RawField {
    RawField {
        number: tag,
        name: name.to_string(),
        datatype: datatype.to_string(),
        values: None,
    }
}

fn field_ref(name: &str, required: char) -> RawItem {
    RawItem::Field { name: name.to_string(), required }
}

fn component_ref(name: &str, required: char) -> RawItem {
    RawItem::Component { name: name.to_string(), required }
}

fn group_item(name: &str, required: char, items: Vec<RawItem>) -> RawItem {
    RawItem::Group { name: name.to_string(), required, items }
}

fn small_doc() -> RawDocument {
    let mut doc = empty_doc();
    doc.fields = Some(vec![
        raw_field(112, "TestReqID", "STRING"),
        raw_field(34, "MsgSeqNum", "SEQNUM"),
        raw_field(8, "BeginString", "STRING"),
    ]);
    doc.messages = Some(vec![RawMessage {
        name: "Heartbeat".to_string(),
        msgtype: "0".to_string(),
        msgcat: Some("admin".to_string()),
        items: vec![field_ref("TestReqID", 'N')],
    }]);
    doc.header = Some(vec![field_ref("BeginString", 'Y'), field_ref("MsgSeqNum", 'Y')]);
    doc
}

#[test]
fn version_without_servicepack() {
    let mut doc = empty_doc();
    doc.doc_type = "FIX".to_string();
    doc.major = "5".to_string();
    doc.minor = "0".to_string();
    doc.servicepack = "0".to_string();
    let dict = build_dictionary(doc).unwrap();
    assert_eq!(dict.version(), "FIX.5.0");
}

#[test]
fn version_with_servicepack() {
    let mut doc = empty_doc();
    doc.doc_type = "FIX".to_string();
    doc.major = "5".to_string();
    doc.minor = "0".to_string();
    doc.servicepack = "1".to_string();
    let dict = build_dictionary(doc).unwrap();
    assert_eq!(dict.version(), "FIX.5.0-SP1");
}

#[test]
fn field_lookup_by_tag_and_name() {
    let dict = build_dictionary(small_doc()).unwrap();
    let by_tag = dict.field_by_tag(112).unwrap();
    assert_eq!(by_tag.name, "TestReqID");
    let by_name = dict.field_by_name("TestReqID").unwrap();
    assert_eq!(by_name.tag, 112);
    assert!(dict.field_by_tag(999).is_none());
    assert!(dict.field_by_tag(0).is_none());
    assert!(dict.field_by_name("NoSuchField").is_none());
}

#[test]
fn message_lookup_and_layout() {
    let dict = build_dictionary(small_doc()).unwrap();
    let msg = dict.message_by_name("Heartbeat").unwrap();
    assert_eq!(msg.msg_type, "0");
    let same = dict.message_by_msgtype("0").unwrap();
    assert_eq!(same.name, "Heartbeat");
    let msg = dict.message_by_name("Heartbeat").unwrap();
    let mut found = false;
    for item in msg.layout_items.iter() {
        if let LayoutItemKind::Field(fi) = item.kind {
            if dict.fields[fi].name == "TestReqID" {
                found = true;
            }
        }
    }
    assert!(found);
}

#[test]
fn field_enums_present_and_absent() {
    let mut doc = empty_doc();
    let mut ioi = raw_field(28, "IOITransType", "CHAR");
    ioi.values = Some(vec![
        RawFieldEnum { value: "N".to_string(), description: "NEW".to_string() },
        RawFieldEnum { value: "C".to_string(), description: "CANCEL".to_string() },
        RawFieldEnum { value: "R".to_string(), description: "REPLACE".to_string() },
    ]);
    doc.fields = Some(vec![ioi, raw_field(36, "NewSeqNo", "SEQNUM")]);
    let dict = build_dictionary(doc).unwrap();
    let f28 = dict.field_by_tag(28).unwrap();
    assert_eq!(f28.name, "IOITransType");
    let enums = f28.enums().unwrap();
    assert_eq!(enums.len(), 3);
    assert!(enums.iter().any(|e| e.value == "R"));
    let f36 = dict.field_by_tag(36).unwrap();
    assert_eq!(f36.name, "NewSeqNo");
    assert!(f36.enums().is_none());
}

#[test]
fn missing_sections_are_malformed() {
    let mut doc = small_doc();
    doc.messages = None;
    assert_eq!(build_err(doc), DictError::MalformedInput);
    let mut doc = small_doc();
    doc.fields = None;
    assert_eq!(build_err(doc), DictError::MalformedInput);
    let mut doc = small_doc();
    doc.components = None;
    assert_eq!(build_err(doc), DictError::MalformedInput);
    let mut doc = small_doc();
    doc.header = None;
    assert_eq!(build_err(doc), DictError::MalformedInput);
    let mut doc = small_doc();
    doc.trailer = None;
    assert_eq!(build_err(doc), DictError::MalformedInput);
}

#[test]
fn zero_tag_is_malformed() {
    let mut doc = empty_doc();
    doc.fields = Some(vec![raw_field(0, "BadField", "STRING")]);
    assert_eq!(build_err(doc), DictError::MalformedInput);
}

#[test]
fn cyclic_components_are_rejected() {
    let mut doc = empty_doc();
    doc.components = Some(vec![
        RawComponent {
            name: "Alpha".to_string(),
            items: vec![component_ref("Beta", 'N')],
        },
        RawComponent {
            name: "Beta".to_string(),
            items: vec![component_ref("Alpha", 'N')],
        },
    ]);
    assert_eq!(build_err(doc), DictError::CyclicDefinition);
}

#[test]
fn unresolved_field_reference_is_rejected() {
    let mut doc = small_doc();
    doc.messages = Some(vec![RawMessage {
        name: "Quote".to_string(),
        msgtype: "S".to_string(),
        msgcat: None,
        items: vec![field_ref("NoSuchField", 'Y')],
    }]);
    assert_eq!(build_err(doc), DictError::UnresolvedReference);
}

#[test]
fn unresolved_component_reference_is_rejected() {
    let mut doc = small_doc();
    doc.components = Some(vec![RawComponent {
        name: "Alpha".to_string(),
        items: vec![component_ref("NoSuchComponent", 'N')],
    }]);
    assert_eq!(build_err(doc), DictError::UnresolvedReference);
}

#[test]
fn duplicate_keys_are_rejected() {
    let mut doc = empty_doc();
    doc.fields = Some(vec![
        raw_field(1, "Account", "STRING"),
        raw_field(1, "AdvId", "STRING"),
    ]);
    assert_eq!(build_err(doc), DictError::DuplicateKey);
    let mut doc = empty_doc();
    doc.fields = Some(vec![
        raw_field(1, "Account", "STRING"),
        raw_field(2, "Account", "STRING"),
    ]);
    assert_eq!(build_err(doc), DictError::DuplicateKey);
    let mut doc = empty_doc();
    doc.components = Some(vec![RawComponent {
        name: "StandardHeader".to_string(),
        items: Vec::new(),
    }]);
    assert_eq!(build_err(doc), DictError::DuplicateKey);
}

#[test]
fn components_are_registered_in_dependency_order() {
    let mut doc = small_doc();
    doc.components = Some(vec![
        RawComponent {
            name: "Outer".to_string(),
            items: vec![component_ref("Inner", 'N')],
        },
        RawComponent {
            name: "Inner".to_string(),
            items: vec![field_ref("TestReqID", 'N')],
        },
    ]);
    let dict = build_dictionary(doc).unwrap();
    let comps = dict.iter_components();
    let inner_pos = comps.iter().position(|c| c.name == "Inner").unwrap();
    let outer_pos = comps.iter().position(|c| c.name == "Outer").unwrap();
    assert!(inner_pos < outer_pos);
    // the outer component's reference resolves to the inner one
    let outer = dict.component_by_name("Outer").unwrap();
    let mut resolved = false;
    for item in outer.layout_items.iter() {
        if let LayoutItemKind::Component(ci) = item.kind {
            assert_eq!(dict.components[ci].name, "Inner");
            resolved = true;
        }
    }
    assert!(resolved);
}

#[test]
fn standard_header_and_trailer_are_synthesized() {
    let dict = build_dictionary(small_doc()).unwrap();
    let hdr = dict.component_by_name("StandardHeader").unwrap();
    assert_eq!(hdr.layout_items.len(), 2);
    assert!(dict.component_by_name("StandardTrailer").is_some());
    let n = dict.components.len();
    assert_eq!(dict.components[n - 2].name, "StandardHeader");
    assert_eq!(dict.components[n - 1].name, "StandardTrailer");
}

#[test]
fn group_layouts_nest() {
    let mut doc = empty_doc();
    doc.fields = Some(vec![
        raw_field(453, "NoPartyIDs", "NUMINGROUP"),
        raw_field(448, "PartyID", "STRING"),
    ]);
    doc.messages = Some(vec![RawMessage {
        name: "Order".to_string(),
        msgtype: "D".to_string(),
        msgcat: None,
        items: vec![group_item("NoPartyIDs", 'Y', vec![field_ref("PartyID", 'Y')])],
    }]);
    let dict = build_dictionary(doc).unwrap();
    let msg = dict.message_by_name("Order").unwrap();
    assert_eq!(msg.layout_items.len(), 1);
    match &msg.layout_items[0].kind {
        LayoutItemKind::Group { first_field, contents } => {
            assert_eq!(dict.fields[*first_field].name, "NoPartyIDs");
            assert_eq!(contents.len(), 1);
            match &contents[0].kind {
                LayoutItemKind::Field(fi) => {
                    assert_eq!(dict.fields[*fi].name, "PartyID");
                }
                _ => panic!("expected a field entry"),
            }
        }
        _ => panic!("expected a group entry"),
    }
    // the counter field is flagged as a group counter
    assert!(dict.field_by_tag(453).unwrap().is_group);
    assert!(!dict.field_by_tag(448).unwrap().is_group);
}

#[test]
fn datatypes_deduplicate_in_first_seen_order() {
    let dict = build_dictionary(small_doc()).unwrap();
    let dts = dict.iter_datatypes();
    assert_eq!(dts.len(), 2);
    assert_eq!(dts[0].name, "STRING");
    assert_eq!(dts[1].name, "SEQNUM");
    assert!(dict.datatype_by_name("STRING").is_some());
    assert!(dict.datatype_by_name("MONTHYEAR").is_none());
}

#[test]
fn layout_item_names_resolve(){
    let dict = build_dictionary(small_doc()).unwrap();
    let hdr = dict.component_by_name("StandardHeader").unwrap();
    assert_eq!(hdr.layout_items[0].name(&dict), "BeginString");
    assert_eq!(hdr.layout_items[1].name(&dict), "MsgSeqNum");
}

fn rich_doc() -> RawDocument {
    let mut doc = empty_doc();
    doc.servicepack = "2".to_string();
    let mut side = raw_field(54, "Side", "CHAR");
    side.values = Some(vec![
        RawFieldEnum { value: "1".to_string(), description: "BUY".to_string() },
        RawFieldEnum { value: "2".to_string(), description: "SELL".to_string() },
    ]);
    doc.fields = Some(vec![
        raw_field(8, "BeginString", "STRING"),
        raw_field(10, "CheckSum", "STRING"),
        raw_field(453, "NoPartyIDs", "NUMINGROUP"),
        raw_field(448, "PartyID", "STRING"),
        side,
    ]);
    doc.components = Some(vec![
        RawComponent {
            name: "Instrument".to_string(),
            items: vec![component_ref("Parties", 'N'), field_ref("Side", 'N')],
        },
        RawComponent {
            name: "Parties".to_string(),
            items: vec![group_item("NoPartyIDs", 'N', vec![field_ref("PartyID", 'Y')])],
        },
    ]);
    doc.messages = Some(vec![RawMessage {
        name: "NewOrderSingle".to_string(),
        msgtype: "D".to_string(),
        msgcat: None,
        items: vec![component_ref("Instrument", 'Y'), field_ref("Side", 'Y')],
    }]);
    doc.header = Some(vec![field_ref("BeginString", 'Y')]);
    doc.trailer = Some(vec![field_ref("CheckSum", 'Y')]);
    doc
}

fn layout_shape(dict: &Dictionary, items: &Vec<fefix::types::LayoutItem>) -> Vec<String> {
    let mut out = Vec::new();
    for item in items.iter() {
        match &item.kind {
            LayoutItemKind::Field(fi) => {
                out.push(format!("field {} {}", dict.fields[*fi].name, item.required));
            }
            LayoutItemKind::Group { first_field, contents } => {
                out.push(format!(
                    "group {} {} [{}]",
                    dict.fields[*first_field].name,
                    item.required,
                    layout_shape(dict, contents).join(", ")
                ));
            }
            LayoutItemKind::Component(ci) => {
                out.push(format!(
                    "component {} {}",
                    dict.components[*ci].name, item.required
                ));
            }
        }
    }
    out
}

#[test]
fn import_export_import_preserves_structure() {
    let dict = build_dictionary(rich_doc()).unwrap();
    let exported = export_document(&dict);
    let dict2 = build_dictionary(exported).unwrap();
    // fields: same tags and names, in order
    assert_eq!(dict.fields.len(), dict2.fields.len());
    for (f1, f2) in dict.fields.iter().zip(dict2.fields.iter()) {
        assert_eq!(f1.tag, f2.tag);
        assert_eq!(f1.name, f2.name);
    }
    // messages: same names and msg-type codes
    assert_eq!(dict.messages.len(), dict2.messages.len());
    for (m1, m2) in dict.messages.iter().zip(dict2.messages.iter()) {
        assert_eq!(m1.name, m2.name);
        assert_eq!(m1.msg_type, m2.msg_type);
        assert_eq!(layout_shape(&dict, &m1.layout_items), layout_shape(&dict2, &m2.layout_items));
    }
    // components: same names and layout shapes, in the same order
    assert_eq!(dict.components.len(), dict2.components.len());
    for (c1, c2) in dict.components.iter().zip(dict2.components.iter()) {
        assert_eq!(c1.name, c2.name);
        assert_eq!(layout_shape(&dict, &c1.layout_items), layout_shape(&dict2, &c2.layout_items));
    }
    assert_eq!(dict.version(), dict2.version());
}

#[test]
fn export_reproduces_the_source_sections() {
    let dict = build_dictionary(rich_doc()).unwrap();
    let exported = export_document(&dict);
    let fields = exported.fields.as_ref().unwrap();
    assert_eq!(fields.len(), 5);
    assert_eq!(fields[2].number, 453);
    assert_eq!(fields[2].name, "NoPartyIDs");
    let comps = exported.components.as_ref().unwrap();
    // dependency order puts Parties before Instrument
    assert_eq!(comps.len(), 2);
    assert_eq!(comps[0].name, "Parties");
    assert_eq!(comps[1].name, "Instrument");
    let header = exported.header.as_ref().unwrap();
    assert_eq!(header.len(), 1);
    let values = fields[4].values.as_ref().unwrap();
    assert_eq!(values.len(), 2);
    assert_eq!(values[0].value, "1");
}

#[test]
fn abbreviation_lookup_is_empty_after_import() {
    let dict = build_dictionary(small_doc()).unwrap();
    assert!(dict.abbreviation_for("Acct").is_none());
    assert_eq!(dict.iter_categories().len(), 0);
}
