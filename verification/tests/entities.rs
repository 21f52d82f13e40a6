use fefix::builder::{Datatype as BuilderDatatype, DictionaryBuilder, Field as BuilderField,
    FieldEnum as BuilderFieldEnum};
use fefix::errors::DictError;
use fefix::types::{Abbreviation, Component, Datatype, Field, Message};
use fefix::util::u32_to_string;

fn named_field(name: &str, tag: u32) -> Field {
    Field::new(name.to_string(), tag, 0)
}

#[test]
fn num_in_group_heuristic() {
    assert!(named_field("NumInGroup", 1).is_num_in_group());
    assert!(named_field("numingroup", 2).is_num_in_group());
    assert!(!named_field("Price", 3).is_num_in_group());
    assert!(!named_field("NoPartyIDs", 4).is_num_in_group());
    assert!(named_field("int", 5).is_num_in_group() == false);
}

#[test]
fn doc_url_formats_the_tag() {
    let f = named_field("TestReqID", 112);
    assert_eq!(
        f.doc_url_onixs("FIX.4.4"),
        "https://www.onixs.biz/fix-dictionary/4.4/tagNum_112.html"
    );
    assert_eq!(
        f.doc_url_onixs("FIX.5.0SP2"),
        "https://www.onixs.biz/fix-dictionary/5.0.SP2/tagNum_112.html"
    );
    assert_eq!(
        f.doc_url_onixs("CUSTOM.1.0"),
        "https://www.onixs.biz/fix-dictionary/CUSTOM.1.0/tagNum_112.html"
    );
}

#[test]
fn decimal_rendering() {
    assert_eq!(u32_to_string(0), "0");
    assert_eq!(u32_to_string(7), "7");
    assert_eq!(u32_to_string(112), "112");
    assert_eq!(u32_to_string(4294967295), "4294967295");
}

#[test]
fn entity_constructors_use_defaults() {
    let dt = Datatype::new("STRING".to_string());
    assert_eq!(dt.name, "STRING");
    assert_eq!(dt.description, "");
    assert!(dt.examples.is_empty());
    let f = Field::new("Account".to_string(), 1, 0);
    assert_eq!(f.tag, 1);
    assert!(!f.is_group);
    assert!(f.value_restrictions.is_none());
    let m = Message::new("0".to_string(), "Heartbeat".to_string());
    assert_eq!(m.msg_type, "0");
    assert!(m.layout_items.is_empty());
    let c = Component::new(0, "Parties".to_string(), 0);
    assert_eq!(c.name, "Parties");
    assert!(c.layout_items.is_empty());
    let a = Abbreviation::new("Acct".to_string());
    assert_eq!(a.abbreviation, "Acct");
    assert!(!a.is_last);
}

#[test]
fn error_names() {
    assert_eq!(DictError::MalformedInput.as_str(), "malformed input");
    assert_eq!(DictError::UnresolvedReference.as_str(), "unresolved reference");
    assert_eq!(DictError::CyclicDefinition.as_str(), "cyclic definition");
    assert_eq!(DictError::DuplicateKey.as_str(), "duplicate key");
}

#[test]
fn builder_hands_out_sequential_ids() {
    let mut b = DictionaryBuilder::new("FIX.4.4");
    assert_eq!(b.version, "FIX.4.4");
    let d0 = b.add_datatype(BuilderDatatype::new("STRING"));
    let d1 = b.add_datatype(BuilderDatatype::new("INT"));
    assert_eq!(d0, 0);
    assert_eq!(d1, 1);
    let f0 = b.add_field(BuilderField {
        name: "Account".to_string(),
        tag: 1,
        data_type_id: d0,
        associated_data_tag: None,
        value_restrictions: vec![BuilderFieldEnum::new("A".to_string())],
        abbr_name: None,
        base_category_id: None,
        base_category_abbr_name: None,
        required: false,
        description: None,
    });
    assert_eq!(f0, 0);
    assert_eq!(b.fields.len(), 1);
    assert_eq!(b.fields[0].value_restrictions[0].value, "A");
    assert_eq!(b.data_types[1].name, "INT");
}
