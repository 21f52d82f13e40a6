//! The dictionary assembler: runs the import passes in order — datatypes,
//! fields, dependency-sorted components, messages, and the synthetic header
//! and trailer components — and owns the fail-fast error policy.

use vstd::prelude::*;
use crate::dict::{
    DictV, Dictionary, component_names, datatype_names, dict_wf, field_names, field_tags,
    items_wf, message_names, message_types,
};
use crate::errors::DictError;
use crate::import::{
    acyclic, all_in, built_fields, collect_datatypes, collect_group_starters, convert_items,
    datatype_name_list, doc_group_starters, find_name, identity_order, is_topo_order,
    lemma_built_names, lemma_convert_total, lemma_convert_wf, lemma_datatype_name_list,
    lemma_items_wf_mono,
    no_duplicate_keys, opt_items, raw_component_names, raw_field_names, raw_field_tags,
    raw_message_names, raw_message_types, refs_defined, sections_present, spec_convert_items,
    strings_v, version_of, version_spec, build_field_entities,
};
use crate::raw::{
    RawComponent, RawDocV, RawDocument, RawField, RawMessage, items_component_refs,
    items_field_refs, raw_components_v, raw_fields_v, raw_messages_v,
};
use crate::topo::topo_sort;
use crate::types::{
    Component, ComponentV, Datatype, DatatypeV, FixmlComponentAttributes, Message,
    MessageV, components_v, fields_v, messages_v,
};
use crate::util::{
    first_index, lemma_first_index, lemma_map_values_push, names_unique, str_eq,
};

verus! {

/// Every field record carries a positive tag.
pub open spec fn tags_positive(doc: RawDocV) -> bool {
    let fs = doc.fields.unwrap();
    forall|i: int| 0 <= i < fs.len() ==> (#[trigger] fs[i]).number >= 1
}

/// The inputs on which import succeeds: all sections present, positive and
/// unique keys, an acyclic component graph, and no dangling references.
pub open spec fn build_ok(doc: RawDocV) -> bool {
    &&& sections_present(doc)
    &&& tags_positive(doc)
    &&& no_duplicate_keys(doc)
    &&& acyclic(doc.components.unwrap())
    &&& refs_defined(doc)
}

/// The shape that import gives a dictionary beyond `dict_wf`: the synthetic
/// header and trailer components stand last under their reserved names, and
/// message layouts reference only the ordinary components before them.
pub open spec fn built_form(d: DictV) -> bool {
    let nc = d.components.len() as int;
    &&& nc >= 2
    &&& d.components[nc - 2].name == "StandardHeader"@
    &&& d.components[nc - 1].name == "StandardTrailer"@
    &&& forall|ci: int|
        0 <= ci < nc - 2 ==> (#[trigger] d.components[ci]).name != "StandardHeader"@
            && d.components[ci].name != "StandardTrailer"@
    &&& forall|mi: int|
        0 <= mi < d.messages.len() ==> items_wf(
            (#[trigger] d.messages[mi]).layout_items,
            d.fields.len() as int,
            nc - 2,
        )
}

/// The ordinary components of the dictionary are the document's components
/// in the registration order `order`, each layout resolved against the
/// components registered before it; the synthetic header and trailer follow.
pub open spec fn components_match(d: DictV, doc: RawDocV, order: Seq<int>) -> bool {
    let cs = doc.components.unwrap();
    let n = cs.len() as int;
    let fnames = field_names(d.fields);
    let cnames = component_names(d.components);
    &&& d.components.len() == n + 2
    &&& forall|k: int|
        0 <= k < n ==> #[trigger] d.components[k] == (ComponentV {
            id: 0,
            component_type: FixmlComponentAttributes::Message,
            layout_items: spec_convert_items(
                cs[order[k]].items,
                fnames,
                cnames.take(k),
            ).unwrap(),
            category_iid: 0,
            name: cs[order[k]].name,
            abbr_name: None,
        })
    &&& d.components[n] == (ComponentV {
        id: 0,
        component_type: FixmlComponentAttributes::Message,
        layout_items: spec_convert_items(opt_items(doc.header), fnames, cnames.take(n)).unwrap(),
        category_iid: 0,
        name: "StandardHeader"@,
        abbr_name: None,
    })
    &&& d.components[n + 1] == (ComponentV {
        id: 0,
        component_type: FixmlComponentAttributes::Message,
        layout_items: spec_convert_items(
            opt_items(doc.trailer),
            fnames,
            cnames.take(n + 1),
        ).unwrap(),
        category_iid: 0,
        name: "StandardTrailer"@,
        abbr_name: None,
    })
}

/// The messages of the dictionary are the document's messages in source
/// order, each layout resolved against the ordinary components.
pub open spec fn messages_match(d: DictV, doc: RawDocV) -> bool {
    let ms = doc.messages.unwrap();
    let general = component_names(d.components).take(d.components.len() - 2);
    let fnames = field_names(d.fields);
    &&& d.messages.len() == ms.len()
    &&& forall|i: int|
        0 <= i < ms.len() ==> #[trigger] d.messages[i] == (MessageV {
            msg_type: ms[i].msgtype,
            name: ms[i].name,
            component: None,
            category: None,
            layout_items: spec_convert_items(ms[i].items, fnames, general).unwrap(),
            abbr_name: None,
            required: false,
            description: Seq::<char>::empty(),
            elaboration: None,
        })
}

// ---------------------------------------------------------------------------
// Key checks
// ---------------------------------------------------------------------------

/// Whether the string list holds no entry twice.
pub fn strings_dup_free(names: &Vec<String>) -> (r: bool)
    ensures
        r == names_unique(strings_v(names@)),
{
    let ghost ns = strings_v(names@);
    let mut i: usize = 0;
    while i < names.len()
        invariant
            i <= names.len(),
            ns == strings_v(names@),
            ns.len() == names.len(),
            forall|t: int| 0 <= t < names.len() ==> ns[t] == (#[trigger] names@[t])@,
            forall|a: int, b: int| 0 <= a < b < names.len() && a < i ==> ns[a] != ns[b],
        decreases names.len() - i,
    {
        let mut j: usize = i + 1;
        while j < names.len()
            invariant
                i < j,
                j <= names.len(),
                i < names.len(),
                ns == strings_v(names@),
                ns.len() == names.len(),
                forall|t: int| 0 <= t < names.len() ==> ns[t] == (#[trigger] names@[t])@,
                forall|b: int| i < b < j ==> ns[i as int] != ns[b],
            decreases names.len() - j,
        {
            if str_eq(names[i].as_str(), names[j].as_str()) {
                proof {
                    assert(ns[i as int] == ns[j as int]);
                }
                return false;
            }
            j += 1;
        }
        i += 1;
    }
    true
}

/// Whether any two field records share a tag.
pub fn tags_dup_free(fields: &Vec<RawField>) -> (r: bool)
    ensures
        r == names_unique(raw_field_tags(raw_fields_v(fields@))),
{
    let ghost ts = raw_field_tags(raw_fields_v(fields@));
    let mut i: usize = 0;
    while i < fields.len()
        invariant
            i <= fields.len(),
            ts == raw_field_tags(raw_fields_v(fields@)),
            ts.len() == fields.len(),
            forall|t: int| 0 <= t < fields.len() ==> ts[t] == (#[trigger] fields@[t])@.number,
            forall|a: int, b: int| 0 <= a < b < fields.len() && a < i ==> ts[a] != ts[b],
        decreases fields.len() - i,
    {
        let mut j: usize = i + 1;
        while j < fields.len()
            invariant
                i < j,
                j <= fields.len(),
                i < fields.len(),
                ts == raw_field_tags(raw_fields_v(fields@)),
                ts.len() == fields.len(),
                forall|t: int| 0 <= t < fields.len() ==> ts[t] == (#[trigger] fields@[t])@.number,
                forall|b: int| i < b < j ==> ts[i as int] != ts[b],
            decreases fields.len() - j,
        {
            if fields[i].number == fields[j].number {
                proof {
                    assert(ts[i as int] == ts[j as int]);
                }
                return false;
            }
            j += 1;
        }
        i += 1;
    }
    true
}

/// Whether every field record carries a positive tag.
pub fn tags_all_positive(fields: &Vec<RawField>) -> (r: bool)
    ensures
        r == (forall|i: int|
            0 <= i < raw_fields_v(fields@).len() ==> (#[trigger] raw_fields_v(fields@)[i]).number
                >= 1),
{
    let mut i: usize = 0;
    while i < fields.len()
        invariant
            i <= fields.len(),
            raw_fields_v(fields@).len() == fields.len(),
            forall|t: int|
                0 <= t < fields.len() ==> (#[trigger] raw_fields_v(fields@)[t]).number
                    == fields@[t].number,
            forall|t: int| 0 <= t < i ==> raw_fields_v(fields@)[t].number >= 1,
        decreases fields.len() - i,
    {
        if fields[i].number == 0 {
            proof {
                assert(raw_fields_v(fields@)[i as int].number == 0);
            }
            return false;
        }
        i += 1;
    }
    true
}

/// The names of the field records, in source order.
pub fn collect_field_names(fields: &Vec<RawField>) -> (r: Vec<String>)
    ensures
        strings_v(r@) == raw_field_names(raw_fields_v(fields@)),
{
    let ghost ns = raw_field_names(raw_fields_v(fields@));
    let mut r: Vec<String> = Vec::new();
    let mut i: usize = 0;
    proof {
        assert(strings_v(r@) =~= ns.take(0));
    }
    while i < fields.len()
        invariant
            i <= fields.len(),
            ns == raw_field_names(raw_fields_v(fields@)),
            ns.len() == fields.len(),
            strings_v(r@) == ns.take(i as int),
        decreases fields.len() - i,
    {
        r.push(fields[i].name.clone());
        proof {
            lemma_map_values_push(r@.drop_last(), r@.last(), |t: String| t@);
            assert(r@.drop_last().push(r@.last()) =~= r@);
            assert(raw_fields_v(fields@)[i as int] == fields@[i as int]@);
            assert(ns[i as int] == fields@[i as int]@.name);
            assert(ns.take(i as int + 1) =~= ns.take(i as int).push(ns[i as int]));
            assert(strings_v(r@) =~= ns.take(i as int + 1));
        }
        i += 1;
    }
    proof {
        assert(ns.take(fields.len() as int) =~= ns);
    }
    r
}

/// The names of the component records, in source order.
pub fn collect_component_name_list(comps: &Vec<RawComponent>) -> (r: Vec<String>)
    ensures
        strings_v(r@) == raw_component_names(raw_components_v(comps@)),
{
    let ghost ns = raw_component_names(raw_components_v(comps@));
    let mut r: Vec<String> = Vec::new();
    let mut i: usize = 0;
    proof {
        assert(strings_v(r@) =~= ns.take(0));
    }
    while i < comps.len()
        invariant
            i <= comps.len(),
            ns == raw_component_names(raw_components_v(comps@)),
            ns.len() == comps.len(),
            strings_v(r@) == ns.take(i as int),
        decreases comps.len() - i,
    {
        r.push(comps[i].name.clone());
        proof {
            lemma_map_values_push(r@.drop_last(), r@.last(), |t: String| t@);
            assert(r@.drop_last().push(r@.last()) =~= r@);
            assert(raw_components_v(comps@)[i as int] == comps@[i as int]@);
            assert(ns[i as int] == comps@[i as int]@.name);
            assert(ns.take(i as int + 1) =~= ns.take(i as int).push(ns[i as int]));
            assert(strings_v(r@) =~= ns.take(i as int + 1));
        }
        i += 1;
    }
    proof {
        assert(ns.take(comps.len() as int) =~= ns);
    }
    r
}

/// The names of the message records, in source order.
pub fn collect_message_names(msgs: &Vec<RawMessage>) -> (r: Vec<String>)
    ensures
        strings_v(r@) == raw_message_names(raw_messages_v(msgs@)),
{
    let ghost ns = raw_message_names(raw_messages_v(msgs@));
    let mut r: Vec<String> = Vec::new();
    let mut i: usize = 0;
    proof {
        assert(strings_v(r@) =~= ns.take(0));
    }
    while i < msgs.len()
        invariant
            i <= msgs.len(),
            ns == raw_message_names(raw_messages_v(msgs@)),
            ns.len() == msgs.len(),
            strings_v(r@) == ns.take(i as int),
        decreases msgs.len() - i,
    {
        r.push(msgs[i].name.clone());
        proof {
            lemma_map_values_push(r@.drop_last(), r@.last(), |t: String| t@);
            assert(r@.drop_last().push(r@.last()) =~= r@);
            assert(raw_messages_v(msgs@)[i as int] == msgs@[i as int]@);
            assert(ns[i as int] == msgs@[i as int]@.name);
            assert(ns.take(i as int + 1) =~= ns.take(i as int).push(ns[i as int]));
            assert(strings_v(r@) =~= ns.take(i as int + 1));
        }
        i += 1;
    }
    proof {
        assert(ns.take(msgs.len() as int) =~= ns);
    }
    r
}

/// The wire msg-type codes of the message records, in source order.
pub fn collect_message_types(msgs: &Vec<RawMessage>) -> (r: Vec<String>)
    ensures
        strings_v(r@) == raw_message_types(raw_messages_v(msgs@)),
{
    let ghost ns = raw_message_types(raw_messages_v(msgs@));
    let mut r: Vec<String> = Vec::new();
    let mut i: usize = 0;
    proof {
        assert(strings_v(r@) =~= ns.take(0));
    }
    while i < msgs.len()
        invariant
            i <= msgs.len(),
            ns == raw_message_types(raw_messages_v(msgs@)),
            ns.len() == msgs.len(),
            strings_v(r@) == ns.take(i as int),
        decreases msgs.len() - i,
    {
        r.push(msgs[i].msgtype.clone());
        proof {
            lemma_map_values_push(r@.drop_last(), r@.last(), |t: String| t@);
            assert(r@.drop_last().push(r@.last()) =~= r@);
            assert(raw_messages_v(msgs@)[i as int] == msgs@[i as int]@);
            assert(ns[i as int] == msgs@[i as int]@.msgtype);
            assert(ns.take(i as int + 1) =~= ns.take(i as int).push(ns[i as int]));
            assert(strings_v(r@) =~= ns.take(i as int + 1));
        }
        i += 1;
    }
    proof {
        assert(ns.take(msgs.len() as int) =~= ns);
    }
    r
}

/// From the per-pass descriptions of an assembled dictionary, concludes the
/// dictionary invariants, the built shape, and that every reference the
/// document makes is defined.
#[verifier::rlimit(100)]
proof fn lemma_build_result(d: DictV, doc: RawDocV, order: Seq<int>)
    requires
        sections_present(doc),
        tags_positive(doc),
        no_duplicate_keys(doc),
        is_topo_order(order, doc.components.unwrap()),
        d.fields == built_fields(
            doc.fields.unwrap(),
            datatype_name_list(doc.fields.unwrap()),
            doc_group_starters(doc),
        ),
        d.datatypes == datatype_name_list(doc.fields.unwrap()).map_values(
            |nm: Seq<char>| DatatypeV {
                name: nm,
                description: Seq::empty(),
                examples: Seq::empty(),
            },
        ),
        components_match(d, doc, order),
        messages_match(d, doc),
        forall|k: int|
            0 <= k < doc.components.unwrap().len() ==> spec_convert_items(
                doc.components.unwrap()[#[trigger] order[k]].items,
                field_names(d.fields),
                component_names(d.components).take(k),
            ) is Some,
        spec_convert_items(
            opt_items(doc.header),
            field_names(d.fields),
            component_names(d.components).take(doc.components.unwrap().len() as int),
        ) is Some,
        spec_convert_items(
            opt_items(doc.trailer),
            field_names(d.fields),
            component_names(d.components).take(doc.components.unwrap().len() + 1int),
        ) is Some,
        forall|i: int|
            0 <= i < doc.messages.unwrap().len() ==> spec_convert_items(
                (#[trigger] doc.messages.unwrap()[i]).items,
                field_names(d.fields),
                component_names(d.components).take(doc.components.unwrap().len() as int),
            ) is Some,
    ensures
        dict_wf(d),
        built_form(d),
        refs_defined(doc),
{
    let fs = doc.fields.unwrap();
    let cs = doc.components.unwrap();
    let ms = doc.messages.unwrap();
    let n = cs.len() as int;
    let fnames = field_names(d.fields);
    let cn = component_names(d.components);
    let dtn = datatype_name_list(fs);
    let cnames_raw = raw_component_names(cs);
    lemma_built_names(fs, dtn, doc_group_starters(doc));
    lemma_datatype_name_list(fs);
    reveal_strlit("StandardHeader");
    reveal_strlit("StandardTrailer");
    assert("StandardHeader"@ != "StandardTrailer"@) by {
        assert("StandardHeader"@.len() != "StandardTrailer"@.len());
    }
    assert(d.fields.len() == fs.len());
    assert(d.datatypes.len() == dtn.len());
    assert(cn.len() == n + 2);
    // field invariants
    assert forall|i: int| 0 <= i < d.fields.len() implies (#[trigger] d.fields[i]).tag >= 1 by {
        assert(d.fields[i] == crate::import::built_field(fs[i], dtn, doc_group_starters(doc)));
        assert(fs[i].number >= 1);
    }
    assert forall|i: int| 0 <= i < d.fields.len() implies 0 <= (
    #[trigger] d.fields[i]).datatype_index < d.datatypes.len() by {
        assert(d.fields[i] == crate::import::built_field(fs[i], dtn, doc_group_starters(doc)));
        assert(dtn.contains(fs[i].datatype));
        lemma_first_index(dtn, fs[i].datatype);
    }
    assert(field_tags(d.fields) == raw_field_tags(fs));
    assert(field_names(d.fields) == raw_field_names(fs));
    assert(names_unique(field_tags(d.fields)));
    assert(names_unique(field_names(d.fields)));
    assert(datatype_names(d.datatypes) =~= dtn);
    assert(names_unique(datatype_names(d.datatypes)));
    // component names: ordinary names come from distinct records, the two
    // synthetic names are reserved
    assert forall|k: int| 0 <= k < n implies #[trigger] cn[k] == cnames_raw[order[k]] by {
        assert(d.components[k].name == cs[order[k]].name);
    }
    assert forall|k1: int, k2: int| 0 <= k1 < k2 < cn.len() implies cn[k1] != cn[k2] by {
        if k2 < n {
            assert(cn[k1] == cnames_raw[order[k1]]);
            assert(cn[k2] == cnames_raw[order[k2]]);
            assert(order[k1] != order[k2]);
        } else if k2 == n {
            assert(cn[k2] == "StandardHeader"@);
            assert(cn[k1] == cnames_raw[order[k1]]);
            if cn[k1] == "StandardHeader"@ {
                assert(cnames_raw.contains("StandardHeader"@)) by {
                    assert(cnames_raw[order[k1]] == "StandardHeader"@);
                }
            }
        } else {
            assert(cn[k2] == "StandardTrailer"@);
            if k1 < n {
                assert(cn[k1] == cnames_raw[order[k1]]);
                if cn[k1] == "StandardTrailer"@ {
                    assert(cnames_raw.contains("StandardTrailer"@)) by {
                        assert(cnames_raw[order[k1]] == "StandardTrailer"@);
                    }
                }
            } else {
                assert(cn[k1] == "StandardHeader"@);
            }
        }
    }
    assert(names_unique(component_names(d.components)));
    // message keys
    assert(message_names(d.messages) =~= raw_message_names(ms));
    assert(message_types(d.messages) =~= raw_message_types(ms));
    assert(names_unique(message_names(d.messages)));
    assert(names_unique(message_types(d.messages)));
    // layout references stay inside the dictionary
    assert forall|ci: int| 0 <= ci < d.components.len() implies items_wf(
        (#[trigger] d.components[ci]).layout_items,
        d.fields.len() as int,
        ci,
    ) by {
        if ci < n {
            assert(d.components[ci].layout_items == spec_convert_items(
                cs[order[ci]].items,
                fnames,
                cn.take(ci),
            ).unwrap());
            lemma_convert_wf(cs[order[ci]].items, fnames, cn.take(ci));
            assert(cn.take(ci).len() == ci);
        } else if ci == n {
            lemma_convert_wf(opt_items(doc.header), fnames, cn.take(n));
        } else {
            lemma_convert_wf(opt_items(doc.trailer), fnames, cn.take(n + 1));
        }
    }
    assert forall|i: int| 0 <= i < d.messages.len() implies items_wf(
        (#[trigger] d.messages[i]).layout_items,
        d.fields.len() as int,
        n,
    ) by {
        assert(d.messages[i].layout_items == spec_convert_items(
            ms[i].items,
            fnames,
            cn.take(n),
        ).unwrap());
        lemma_convert_wf(ms[i].items, fnames, cn.take(n));
    }
    assert forall|i: int| 0 <= i < d.messages.len() implies items_wf(
        (#[trigger] d.messages[i]).layout_items,
        d.fields.len() as int,
        d.components.len() as int,
    ) by {
        lemma_items_wf_mono(
            d.messages[i].layout_items,
            d.fields.len() as int,
            n,
            d.components.len() as int,
        );
    }
    assert(dict_wf(d));
    assert forall|ci: int| 0 <= ci < n implies (#[trigger] d.components[ci]).name
        != "StandardHeader"@ && d.components[ci].name != "StandardTrailer"@ by {
        assert(d.components[ci].name == cnames_raw[order[ci]]);
        if d.components[ci].name == "StandardHeader"@ {
            assert(cnames_raw.contains("StandardHeader"@)) by {
                assert(cnames_raw[order[ci]] == "StandardHeader"@);
            }
        }
        if d.components[ci].name == "StandardTrailer"@ {
            assert(cnames_raw.contains("StandardTrailer"@)) by {
                assert(cnames_raw[order[ci]] == "StandardTrailer"@);
            }
        }
    }
    assert(built_form(d));
    // every reference the document makes is defined
    assert forall|i: int| 0 <= i < cs.len() implies all_in(
        items_field_refs((#[trigger] cs[i]).items),
        raw_field_names(fs),
    ) && all_in(items_component_refs(cs[i].items), cnames_raw) by {
        let k = first_index(order, i);
        assert(first_index(order, i) >= 0);
        lemma_first_index(order, i);
        assert(order[k] == i);
        assert(spec_convert_items(cs[i].items, fnames, cn.take(k)) is Some);
        crate::import::lemma_convert_refs(cs[i].items, fnames, cn.take(k));
        assert forall|di: int|
            0 <= di < items_component_refs(cs[i].items).len() implies cnames_raw.contains(
            #[trigger] items_component_refs(cs[i].items)[di],
        ) by {
            let dnm = items_component_refs(cs[i].items)[di];
            assert(cn.take(k).contains(dnm));
            let p = choose|p: int| 0 <= p < cn.take(k).len() && #[trigger] cn.take(k)[p] == dnm;
            assert(cn[p] == dnm);
            assert(cn[p] == cnames_raw[order[p]]);
            assert(cnames_raw.contains(dnm)) by {
                assert(cnames_raw[order[p]] == dnm);
            }
        }
    }
    assert forall|i: int| 0 <= i < ms.len() implies all_in(
        items_field_refs((#[trigger] ms[i]).items),
        raw_field_names(fs),
    ) && all_in(items_component_refs(ms[i].items), cnames_raw) by {
        assert(spec_convert_items(ms[i].items, fnames, cn.take(n)) is Some);
        crate::import::lemma_convert_refs(ms[i].items, fnames, cn.take(n));
        assert forall|di: int|
            0 <= di < items_component_refs(ms[i].items).len() implies cnames_raw.contains(
            #[trigger] items_component_refs(ms[i].items)[di],
        ) by {
            let dnm = items_component_refs(ms[i].items)[di];
            assert(cn.take(n).contains(dnm));
            let p = choose|p: int| 0 <= p < cn.take(n).len() && #[trigger] cn.take(n)[p] == dnm;
            assert(cn[p] == dnm);
            assert(cn[p] == cnames_raw[order[p]]);
            assert(cnames_raw.contains(dnm)) by {
                assert(cnames_raw[order[p]] == dnm);
            }
        }
    }
    crate::import::lemma_convert_refs(opt_items(doc.header), fnames, cn.take(n));
    assert forall|di: int|
        0 <= di < items_component_refs(opt_items(doc.header)).len() implies cnames_raw.contains(
        #[trigger] items_component_refs(opt_items(doc.header))[di],
    ) by {
        let dnm = items_component_refs(opt_items(doc.header))[di];
        assert(cn.take(n).contains(dnm));
        let p = choose|p: int| 0 <= p < cn.take(n).len() && #[trigger] cn.take(n)[p] == dnm;
        assert(cn[p] == dnm);
        assert(cn[p] == cnames_raw[order[p]]);
        assert(cnames_raw.contains(dnm)) by {
            assert(cnames_raw[order[p]] == dnm);
        }
    }
    crate::import::lemma_convert_refs(opt_items(doc.trailer), fnames, cn.take(n + 1));
    assert forall|di: int|
        0 <= di < items_component_refs(opt_items(doc.trailer)).len() implies ({
        let dnm = #[trigger] items_component_refs(opt_items(doc.trailer))[di];
        cnames_raw.contains(dnm) || dnm == "StandardHeader"@
    }) by {
        let dnm = items_component_refs(opt_items(doc.trailer))[di];
        assert(cn.take(n + 1).contains(dnm));
        let p = choose|p: int| 0 <= p < cn.take(n + 1).len() && #[trigger] cn.take(n + 1)[p] == dnm;
        assert(cn[p] == dnm);
        if p < n {
            assert(cn[p] == cnames_raw[order[p]]);
            assert(cnames_raw.contains(dnm)) by {
                assert(cnames_raw[order[p]] == dnm);
            }
        } else {
            assert(cn[p] == "StandardHeader"@);
        }
    }
    assert(refs_defined(doc));
}

/// Imports a raw schema document into a dictionary.
///
/// The passes run in order: collect datatypes, materialize fields, sort the
/// components by dependency, convert each layout against what is registered,
/// materialize messages, and finally synthesize the `StandardHeader` and
/// `StandardTrailer` components from the header and trailer sections. The
/// first error aborts the import; no partial dictionary is returned.
#[verifier::rlimit(100)]
pub fn build_dictionary(doc: RawDocument) -> (r: Result<Dictionary, DictError>)
    ensures
        r is Ok <==> build_ok(doc@),
        match r {
            Ok(d) => {
                &&& d.wf()
                &&& built_form(d@)
                &&& d@.version == version_spec(
                    doc@.doc_type,
                    doc@.major,
                    doc@.minor,
                    doc@.servicepack,
                )
                &&& d@.doc_type == doc@.doc_type
                &&& d@.major == doc@.major
                &&& d@.minor == doc@.minor
                &&& d@.servicepack == doc@.servicepack
                &&& d@.datatypes == datatype_name_list(doc@.fields.unwrap()).map_values(
                    |n: Seq<char>| DatatypeV {
                        name: n,
                        description: Seq::empty(),
                        examples: Seq::empty(),
                    },
                )
                &&& d@.fields == built_fields(
                    doc@.fields.unwrap(),
                    datatype_name_list(doc@.fields.unwrap()),
                    doc_group_starters(doc@),
                )
                &&& d@.abbreviations.len() == 0
                &&& d@.categories.len() == 0
                &&& exists|order: Seq<int>|
                    #[trigger] is_topo_order(order, doc@.components.unwrap())
                        && components_match(d@, doc@, order)
                &&& is_topo_order(
                    identity_order(doc@.components.unwrap().len() as int),
                    doc@.components.unwrap(),
                ) ==> components_match(
                    d@,
                    doc@,
                    identity_order(doc@.components.unwrap().len() as int),
                )
                &&& messages_match(d@, doc@)
            },
            Err(e) => {
                &&& (e == DictError::MalformedInput <==> !(sections_present(doc@)
                    && tags_positive(doc@)))
                &&& (e == DictError::DuplicateKey <==> sections_present(doc@) && tags_positive(
                    doc@,
                ) && !no_duplicate_keys(doc@))
                &&& (e == DictError::CyclicDefinition <==> sections_present(doc@)
                    && tags_positive(doc@) && no_duplicate_keys(doc@) && !acyclic(
                    doc@.components.unwrap(),
                ))
                &&& (e == DictError::UnresolvedReference <==> sections_present(doc@)
                    && tags_positive(doc@) && no_duplicate_keys(doc@) && acyclic(
                    doc@.components.unwrap(),
                ) && !refs_defined(doc@))
            },
        },
{
    let ghost dv = doc@;
    let RawDocument { doc_type, major, minor, servicepack, header, trailer, messages, components, fields } =
        doc;
    // Mandatory sections.
    let fields = match fields {
        Some(f) => f,
        None => {
            proof {
                assert(!sections_present(dv));
            }
            return Err(DictError::MalformedInput);
        },
    };
    let msgs = match messages {
        Some(m) => m,
        None => {
            proof {
                assert(!sections_present(dv));
            }
            return Err(DictError::MalformedInput);
        },
    };
    let comps = match components {
        Some(c) => c,
        None => {
            proof {
                assert(!sections_present(dv));
            }
            return Err(DictError::MalformedInput);
        },
    };
    let header = match header {
        Some(h) => h,
        None => {
            proof {
                assert(!sections_present(dv));
            }
            return Err(DictError::MalformedInput);
        },
    };
    let trailer = match trailer {
        Some(t) => t,
        None => {
            proof {
                assert(!sections_present(dv));
            }
            return Err(DictError::MalformedInput);
        },
    };
    let ghost fs_v = raw_fields_v(fields@);
    let ghost cs_v = raw_components_v(comps@);
    let ghost ms_v = raw_messages_v(msgs@);
    proof {
        assert(sections_present(dv));
        assert(dv.fields.unwrap() == fs_v);
        assert(dv.components.unwrap() == cs_v);
        assert(dv.messages.unwrap() == ms_v);
        assert(opt_items(dv.header) == crate::raw::raw_items_v(header@));
        assert(opt_items(dv.trailer) == crate::raw::raw_items_v(trailer@));
    }
    // Positive tags.
    if !tags_all_positive(&fields) {
        proof {
            assert(!tags_positive(dv));
        }
        return Err(DictError::MalformedInput);
    }
    proof {
        assert(tags_positive(dv));
    }
    // Unique keys, and no component under a reserved name.
    let field_name_list = collect_field_names(&fields);
    let comp_name_list = collect_component_name_list(&comps);
    let msg_name_list = collect_message_names(&msgs);
    let msg_type_list = collect_message_types(&msgs);
    let dup_ok = tags_dup_free(&fields) && strings_dup_free(&field_name_list)
        && strings_dup_free(&comp_name_list) && strings_dup_free(&msg_name_list)
        && strings_dup_free(&msg_type_list) && find_name(
        &comp_name_list,
        "StandardHeader",
    ).is_none() && find_name(&comp_name_list, "StandardTrailer").is_none();
    if !dup_ok {
        proof {
            assert(!no_duplicate_keys(dv));
        }
        return Err(DictError::DuplicateKey);
    }
    proof {
        assert(no_duplicate_keys(dv));
    }
    // Pass 1: datatypes.
    let datatypes = collect_datatypes(&fields);
    let ghost dtnames = datatype_name_list(fs_v);
    proof {
        lemma_datatype_name_list(fs_v);
        assert(datatype_names(datatypes@.map_values(|d: Datatype| d@)) =~= dtnames);
    }
    // Pass 2: fields, with group counters detected across all layouts.
    let starters = collect_group_starters(&header, &trailer, &comps, &msgs);
    proof {
        assert(strings_v(starters@) == doc_group_starters(dv));
    }
    proof {
        assert forall|i: int| 0 <= i < fields@.len() implies datatype_names(
            datatypes@.map_values(|d: Datatype| d@),
        ).contains((#[trigger] fields@[i])@.datatype) by {
            assert(fs_v[i] == fields@[i]@);
            assert(dtnames.contains(fs_v[i].datatype));
        }
    }
    let field_entities = build_field_entities(&fields, &datatypes, &starters);
    let ghost built = built_fields(fs_v, dtnames, doc_group_starters(dv));
    let ghost fnames = field_names(built);
    proof {
        assert(fields_v(field_entities@) == built);
        lemma_built_names(fs_v, dtnames, doc_group_starters(dv));
        assert(fnames == raw_field_names(fs_v));
    }
    // Pass 3: dependency order over the components.
    let ghost cnames_raw = raw_component_names(cs_v);
    let n = comps.len();
    let order = match topo_sort(&comps) {
        Ok(o) => o,
        Err(e) => {
            proof {
                assert(!acyclic(cs_v));
            }
            return Err(e);
        },
    };
    let ghost ov = crate::topo::order_ints(order@);
    proof {
        assert(is_topo_order(ov, cs_v));
        assert(acyclic(cs_v)) by {
            assert(is_topo_order(ov, cs_v));
        }
    }
    // Pass 4: convert each component in dependency order.
    let mut comp_entities: Vec<Component> = Vec::new();
    let mut k: usize = 0;
    proof {
        assert(ov.len() == n);
    }
    while k < n
        invariant
            k <= n,
            n == comps.len(),
            cs_v == raw_components_v(comps@),
            cnames_raw == raw_component_names(cs_v),
            cnames_raw.len() == n,
            names_unique(cnames_raw),
            ov == crate::topo::order_ints(order@),
            order@.len() == n,
            is_topo_order(ov, cs_v),
            fnames == field_names(fields_v(field_entities@)),
            dv == doc@,
            sections_present(dv),
            tags_positive(dv),
            no_duplicate_keys(dv),
            acyclic(cs_v),
            dv.fields.unwrap() == raw_fields_v(fields@),
            dv.components.unwrap() == cs_v,
            fnames == raw_field_names(dv.fields.unwrap()),
            comp_entities@.len() == k,
            forall|k2: int|
                0 <= k2 < k ==> component_names(components_v(comp_entities@))[k2]
                    == cs_v[ov[k2]].name,
            forall|k2: int|
                0 <= k2 < k ==> #[trigger] components_v(comp_entities@)[k2] == (ComponentV {
                    id: 0,
                    component_type: FixmlComponentAttributes::Message,
                    layout_items: spec_convert_items(
                        cs_v[ov[k2]].items,
                        fnames,
                        component_names(components_v(comp_entities@)).take(k2),
                    ).unwrap(),
                    category_iid: 0,
                    name: cs_v[ov[k2]].name,
                    abbr_name: None,
                }),
            forall|k2: int|
                0 <= k2 < k ==> spec_convert_items(
                    cs_v[#[trigger] ov[k2]].items,
                    fnames,
                    component_names(components_v(comp_entities@)).take(k2),
                ) is Some,
        decreases n - k,
    {
        let ci = order[k];
        proof {
            assert(ov[k as int] == order@[k as int] as int);
            assert(0 <= ov[k as int] < n);
        }
        let ghost cv0 = components_v(comp_entities@);
        let ghost cn_built = component_names(cv0);
        proof {
            assert(cn_built.len() == k);
            // Every defined reference of this component is already registered.
            if refs_defined(dv) {
                let ds = items_component_refs(cs_v[ov[k as int]].items);
                assert forall|di: int| 0 <= di < ds.len() implies cn_built.contains(
                    #[trigger] ds[di],
                ) by {
                    assert(cnames_raw.contains(ds[di]));
                    let xd = first_index(cnames_raw, ds[di]);
                    lemma_first_index(cnames_raw, ds[di]);
                    assert(0 <= first_index(ov, xd) < k);
                    let p = first_index(ov, xd);
                    lemma_first_index(ov, xd);
                    assert(ov[p] == xd);
                    assert(cn_built[p] == cs_v[xd].name);
                    assert(cs_v[xd].name == cnames_raw[xd]);
                    assert(cn_built[p] == ds[di]);
                }
                let dsf = items_field_refs(cs_v[ov[k as int]].items);
                assert forall|di: int| 0 <= di < dsf.len() implies fnames.contains(
                    #[trigger] dsf[di],
                ) by {}
                lemma_convert_total(cs_v[ov[k as int]].items, fnames, cn_built);
            }
        }
        let lis = match convert_items(&comps[ci].items, &field_entities, &comp_entities) {
            Ok(lis) => lis,
            Err(e) => {
                proof {
                    if refs_defined(dv) {
                        assert(false);
                    }
                }
                return Err(e);
            },
        };
        let mut c = Component::new(0, comps[ci].name.clone(), 0);
        c.layout_items = lis;
        proof {
            assert(cs_v[ov[k as int]] == comps@[ci as int]@);
            assert(c@ =~= (ComponentV {
                id: 0,
                component_type: FixmlComponentAttributes::Message,
                layout_items: spec_convert_items(
                    cs_v[ov[k as int]].items,
                    fnames,
                    cn_built,
                ).unwrap(),
                category_iid: 0,
                name: cs_v[ov[k as int]].name,
                abbr_name: None,
            }));
        }
        let ghost cvv = c@;
        comp_entities.push(c);
        proof {
            lemma_map_values_push(
                comp_entities@.drop_last(),
                comp_entities@.last(),
                |x: Component| x@,
            );
            assert(comp_entities@.drop_last().push(comp_entities@.last()) =~= comp_entities@);
            let cv_new = components_v(comp_entities@);
            assert(comp_entities@.drop_last() =~= comp_entities@.take(
                comp_entities@.len() - 1,
            ));
            assert(cv_new =~= cv0.push(cvv));
            let cn_new = component_names(cv_new);
            assert(cn_new =~= cn_built.push(cs_v[ov[k as int]].name));
            assert forall|k2: int| 0 <= k2 < k + 1 implies #[trigger] cv_new[k2] == (ComponentV {
                id: 0,
                component_type: FixmlComponentAttributes::Message,
                layout_items: spec_convert_items(
                    cs_v[ov[k2]].items,
                    fnames,
                    cn_new.take(k2),
                ).unwrap(),
                category_iid: 0,
                name: cs_v[ov[k2]].name,
                abbr_name: None,
            }) by {
                assert(cn_new.take(k2) =~= cn_built.take(k2));
                if k2 < k {
                    assert(cv_new[k2] == cv0[k2]);
                } else {
                    assert(cv_new[k2] == cvv);
                    assert(cn_new.take(k2) =~= cn_built);
                }
            }
            assert forall|k2: int| 0 <= k2 < k + 1 implies spec_convert_items(
                cs_v[#[trigger] ov[k2]].items,
                fnames,
                cn_new.take(k2),
            ) is Some by {
                assert(cn_new.take(k2) =~= cn_built.take(k2));
                if k2 == k {
                    assert(cn_new.take(k2) =~= cn_built);
                } else {
                    assert(spec_convert_items(
                        cs_v[ov[k2]].items,
                        fnames,
                        cn_built.take(k2),
                    ) is Some);
                }
            }
        }
        k += 1;
    }
    // Pass 5: messages, before the synthetic components exist.
    let ghost cn_general = component_names(components_v(comp_entities@));
    let mut msg_entities: Vec<Message> = Vec::new();
    let mut mi: usize = 0;
    while mi < msgs.len()
        invariant
            mi <= msgs.len(),
            ms_v == raw_messages_v(msgs@),
            ms_v.len() == msgs.len(),
            cn_general == component_names(components_v(comp_entities@)),
            fnames == field_names(fields_v(field_entities@)),
            dv == doc@,
            sections_present(dv),
            tags_positive(dv),
            no_duplicate_keys(dv),
            acyclic(cs_v),
            dv.messages.unwrap() == ms_v,
            dv.components.unwrap() == cs_v,
            fnames == raw_field_names(dv.fields.unwrap()),
            cnames_raw == raw_component_names(cs_v),
            names_unique(cnames_raw),
            cnames_raw.len() == comps.len(),
            is_topo_order(crate::topo::order_ints(order@), cs_v),
            order@.len() == comps.len(),
            cn_general.len() == comps.len(),
            forall|k2: int|
                0 <= k2 < comps.len() ==> cn_general[k2] == cs_v[
                    crate::topo::order_ints(order@)[k2]].name,
            msg_entities@.len() == mi,
            forall|i: int|
                0 <= i < mi ==> #[trigger] messages_v(msg_entities@)[i] == (MessageV {
                    msg_type: ms_v[i].msgtype,
                    name: ms_v[i].name,
                    component: None,
                    category: None,
                    layout_items: spec_convert_items(
                        ms_v[i].items,
                        fnames,
                        cn_general,
                    ).unwrap(),
                    abbr_name: None,
                    required: false,
                    description: Seq::<char>::empty(),
                    elaboration: None,
                }),
            forall|i: int|
                0 <= i < mi ==> spec_convert_items(
                    (#[trigger] ms_v[i]).items,
                    fnames,
                    cn_general,
                ) is Some,
        decreases msgs.len() - mi,
    {
        let ghost ovv = crate::topo::order_ints(order@);
        proof {
            if refs_defined(dv) {
                let ds = items_component_refs(ms_v[mi as int].items);
                assert forall|di: int| 0 <= di < ds.len() implies cn_general.contains(
                    #[trigger] ds[di],
                ) by {
                    assert(cnames_raw.contains(ds[di]));
                    let xd = first_index(cnames_raw, ds[di]);
                    lemma_first_index(cnames_raw, ds[di]);
                    assert(first_index(ovv, xd) >= 0);
                    let p = first_index(ovv, xd);
                    lemma_first_index(ovv, xd);
                    assert(ovv[p] == xd);
                    assert(cn_general[p] == cs_v[xd].name);
                    assert(cn_general[p] == ds[di]);
                }
                let dsf = items_field_refs(ms_v[mi as int].items);
                assert forall|di: int| 0 <= di < dsf.len() implies fnames.contains(
                    #[trigger] dsf[di],
                ) by {}
                lemma_convert_total(ms_v[mi as int].items, fnames, cn_general);
            }
            assert(ms_v[mi as int] == msgs@[mi as int]@);
        }
        let lis = match convert_items(&msgs[mi].items, &field_entities, &comp_entities) {
            Ok(lis) => lis,
            Err(e) => {
                proof {
                    if refs_defined(dv) {
                        assert(false);
                    }
                }
                return Err(e);
            },
        };
        let mut m = Message::new(msgs[mi].msgtype.clone(), msgs[mi].name.clone());
        m.layout_items = lis;
        proof {
            assert(m@ =~= (MessageV {
                msg_type: ms_v[mi as int].msgtype,
                name: ms_v[mi as int].name,
                component: None,
                category: None,
                layout_items: spec_convert_items(
                    ms_v[mi as int].items,
                    fnames,
                    cn_general,
                ).unwrap(),
                abbr_name: None,
                required: false,
                description: Seq::<char>::empty(),
                elaboration: None,
            }));
        }
        let ghost mv0 = messages_v(msg_entities@);
        let ghost mvv = m@;
        msg_entities.push(m);
        proof {
            lemma_map_values_push(
                msg_entities@.drop_last(),
                msg_entities@.last(),
                |x: Message| x@,
            );
            assert(msg_entities@.drop_last().push(msg_entities@.last()) =~= msg_entities@);
            assert(messages_v(msg_entities@) =~= mv0.push(mvv));
            assert forall|i: int| 0 <= i < mi + 1 implies #[trigger] messages_v(
                msg_entities@,
            )[i] == (MessageV {
                msg_type: ms_v[i].msgtype,
                name: ms_v[i].name,
                component: None,
                category: None,
                layout_items: spec_convert_items(ms_v[i].items, fnames, cn_general).unwrap(),
                abbr_name: None,
                required: false,
                description: Seq::<char>::empty(),
                elaboration: None,
            }) by {
                if i < mi {
                    assert(messages_v(msg_entities@)[i] == mv0[i]);
                } else {
                    assert(messages_v(msg_entities@)[i] == mvv);
                }
            }
        }
        mi += 1;
    }
    // Pass 6: the synthetic header component.
    let ghost comps_gen = components_v(comp_entities@);
    proof {
        assert(cn_general == component_names(comps_gen));
    }
    proof {
        if refs_defined(dv) {
            let ds = items_component_refs(opt_items(dv.header));
            let ovv = crate::topo::order_ints(order@);
            assert forall|di: int| 0 <= di < ds.len() implies cn_general.contains(
                #[trigger] ds[di],
            ) by {
                assert(cnames_raw.contains(ds[di]));
                let xd = first_index(cnames_raw, ds[di]);
                lemma_first_index(cnames_raw, ds[di]);
                assert(first_index(ovv, xd) >= 0);
                let p = first_index(ovv, xd);
                lemma_first_index(ovv, xd);
                assert(ovv[p] == xd);
                assert(cn_general[p] == cs_v[xd].name);
            }
            assert forall|di: int|
                0 <= di < items_field_refs(opt_items(dv.header)).len() implies fnames.contains(
                #[trigger] items_field_refs(opt_items(dv.header))[di],
            ) by {}
            lemma_convert_total(opt_items(dv.header), fnames, cn_general);
        }
    }
    let hdr_items = match convert_items(&header, &field_entities, &comp_entities) {
        Ok(lis) => lis,
        Err(e) => {
            proof {
                if refs_defined(dv) {
                    assert(false);
                }
            }
            return Err(e);
        },
    };
    let mut hdr = Component::new(0, String::from_str("StandardHeader"), 0);
    hdr.layout_items = hdr_items;
    proof {
        assert(hdr@ =~= (ComponentV {
            id: 0,
            component_type: FixmlComponentAttributes::Message,
            layout_items: spec_convert_items(opt_items(dv.header), fnames, cn_general).unwrap(),
            category_iid: 0,
            name: "StandardHeader"@,
            abbr_name: None,
        }));
    }
    let ghost hdrv = hdr@;
    comp_entities.push(hdr);
    let ghost cn_with_hdr = component_names(components_v(comp_entities@));
    proof {
        lemma_map_values_push(
            comp_entities@.drop_last(),
            comp_entities@.last(),
            |x: Component| x@,
        );
        assert(comp_entities@.drop_last().push(comp_entities@.last()) =~= comp_entities@);
        assert(components_v(comp_entities@) =~= comps_gen.push(hdrv));
        assert(cn_with_hdr =~= cn_general.push("StandardHeader"@));
    }
    // Pass 7: the synthetic trailer component, which may reference the
    // standard header.
    proof {
        if refs_defined(dv) {
            let ds = items_component_refs(opt_items(dv.trailer));
            let ovv = crate::topo::order_ints(order@);
            assert forall|di: int| 0 <= di < ds.len() implies cn_with_hdr.contains(
                #[trigger] ds[di],
            ) by {
                if cnames_raw.contains(ds[di]) {
                    let xd = first_index(cnames_raw, ds[di]);
                    lemma_first_index(cnames_raw, ds[di]);
                    assert(first_index(ovv, xd) >= 0);
                    let p = first_index(ovv, xd);
                    lemma_first_index(ovv, xd);
                    assert(ovv[p] == xd);
                    assert(cn_general[p] == cs_v[xd].name);
                    assert(cn_with_hdr[p] == cn_general[p]);
                } else {
                    assert(ds[di] == "StandardHeader"@);
                    assert(cn_with_hdr[cn_with_hdr.len() - 1] == "StandardHeader"@);
                }
            }
            assert forall|di: int|
                0 <= di < items_field_refs(opt_items(dv.trailer)).len() implies fnames.contains(
                #[trigger] items_field_refs(opt_items(dv.trailer))[di],
            ) by {}
            lemma_convert_total(opt_items(dv.trailer), fnames, cn_with_hdr);
        }
    }
    let trl_items = match convert_items(&trailer, &field_entities, &comp_entities) {
        Ok(lis) => lis,
        Err(e) => {
            proof {
                if refs_defined(dv) {
                    assert(false);
                }
            }
            return Err(e);
        },
    };
    let mut trl = Component::new(0, String::from_str("StandardTrailer"), 0);
    trl.layout_items = trl_items;
    proof {
        assert(trl@ =~= (ComponentV {
            id: 0,
            component_type: FixmlComponentAttributes::Message,
            layout_items: spec_convert_items(
                opt_items(dv.trailer),
                fnames,
                cn_with_hdr,
            ).unwrap(),
            category_iid: 0,
            name: "StandardTrailer"@,
            abbr_name: None,
        }));
    }
    let ghost trlv = trl@;
    comp_entities.push(trl);
    proof {
        lemma_map_values_push(
            comp_entities@.drop_last(),
            comp_entities@.last(),
            |x: Component| x@,
        );
        assert(comp_entities@.drop_last().push(comp_entities@.last()) =~= comp_entities@);
        assert(components_v(comp_entities@) =~= comps_gen.push(hdrv).push(trlv));
    }
    // Assembly.
    let version = version_of(
        doc_type.as_str(),
        major.as_str(),
        minor.as_str(),
        servicepack.as_str(),
    );
    let d = Dictionary {
        version,
        doc_type,
        major,
        minor,
        servicepack,
        abbreviations: Vec::new(),
        datatypes,
        fields: field_entities,
        components: comp_entities,
        messages: msg_entities,
        categories: Vec::new(),
    };
    proof {
        let dd = d@;
        let ddc = dd.components;
        let cnf = component_names(ddc);
        assert(ddc == comps_gen.push(hdrv).push(trlv));
        assert(ddc.len() == n + 2);
        assert(dd.fields == built);
        assert(field_names(dd.fields) == fnames);
        // the final name list restricted to each stage
        assert forall|k2: int| 0 <= k2 <= n implies cnf.take(k2) =~= component_names(
            comps_gen,
        ).take(k2) by {
            assert forall|t: int| 0 <= t < k2 implies cnf[t] == component_names(comps_gen)[t]
                by {
                assert(ddc[t] == comps_gen[t]);
            }
        }
        assert(cnf.take(n as int) =~= cn_general);
        assert(cnf.take(n + 1) =~= cn_with_hdr);
        // ordinary components
        assert forall|k2: int| 0 <= k2 < n implies #[trigger] ddc[k2] == (ComponentV {
            id: 0,
            component_type: FixmlComponentAttributes::Message,
            layout_items: spec_convert_items(
                cs_v[ov[k2]].items,
                fnames,
                cnf.take(k2),
            ).unwrap(),
            category_iid: 0,
            name: cs_v[ov[k2]].name,
            abbr_name: None,
        }) && spec_convert_items(cs_v[#[trigger] ov[k2]].items, fnames, cnf.take(k2))
            is Some by {
            assert(ddc[k2] == comps_gen[k2]);
            assert(cnf.take(k2) =~= component_names(comps_gen).take(k2));
        }
        assert(ddc[n as int] == hdrv);
        assert(ddc[n + 1] == trlv);
        assert(components_match(dd, dv, ov));
        // messages
        assert(dd.messages == messages_v(msg_entities@));
        assert(cnf.take(ddc.len() - 2) =~= cn_general);
        assert(messages_match(dd, dv));
        // datatypes
        assert(dd.datatypes == datatype_name_list(dv.fields.unwrap()).map_values(
            |nm: Seq<char>| DatatypeV {
                name: nm,
                description: Seq::empty(),
                examples: Seq::empty(),
            },
        ));
        lemma_build_result(dd, dv, ov);
        // success conditions
        assert(acyclic(cs_v)) by {
            assert(is_topo_order(ov, cs_v));
        }
        assert(build_ok(dv));
        assert(is_topo_order(ov, cs_v) && components_match(dd, dv, ov));
        if is_topo_order(identity_order(n as int), cs_v) {
            assert(ov == identity_order(n as int));
        }
        // the remaining shape of the dictionary
        assert(dd.version == version_spec(dv.doc_type, dv.major, dv.minor, dv.servicepack));
        assert(dd.abbreviations =~= Seq::<crate::types::AbbreviationV>::empty());
        assert(dd.categories =~= Seq::<crate::types::CategoryV>::empty());
    }
    Ok(d)
}

} // verus!
