//! The schema-import pipeline: version synthesis, datatype collection,
//! group-counter detection, field materialization, layout conversion, and the
//! final assembly of a dictionary from a raw document.
//!
//! Every pass has a specification-level mirror; the executable pass is proved
//! to compute exactly what the mirror says.

use vstd::prelude::*;
use crate::errors::DictError;
use crate::raw::{
    RawComponent, RawComponentV, RawDocV, RawField, RawFieldV, RawItem, RawItemV,
    RawMessage, RawMessageV, item_component_refs, item_field_refs, item_group_starters, items_component_refs,
    items_field_refs, items_group_starters, lemma_component_refs_concat,
    lemma_component_refs_singleton, lemma_field_refs_concat, lemma_field_refs_singleton,
    lemma_group_starters_concat, lemma_group_starters_singleton, lemma_raw_items_v_props, raw_components_v, raw_fields_v,
    raw_enums_v, raw_item_v, raw_items_v, raw_messages_v,
};
use crate::dict::{component_names, datatype_names, field_names};
use crate::types::{Component, Datatype, DatatypeV, Field, FieldEnum, FieldV, ItemV, LayoutItem,
    LayoutItemKind, components_v, field_enums_v, fields_v, item_v, items_v, lemma_items_v_push};
use crate::util::{
    first_index, lemma_first_index, lemma_first_index_is, lemma_map_values_push, names_unique,
    str_eq,
};

verus! {

// ---------------------------------------------------------------------------
// Specification mirrors
// ---------------------------------------------------------------------------

/// The version string synthesized from the root element: `{type}.{major}.{minor}`,
/// with a `-SP{n}` suffix appended only when the service-pack number is not
/// the literal `0`.
pub open spec fn version_spec(
    doc_type: Seq<char>,
    major: Seq<char>,
    minor: Seq<char>,
    servicepack: Seq<char>,
) -> Seq<char> {
    doc_type + seq!['.'] + major + seq!['.'] + minor + (
    if servicepack != seq!['0'] {
        seq!['-', 'S', 'P'] + servicepack
    } else {
        Seq::empty()
    })
}

/// The distinct datatype names referenced by the field records, in first-seen
/// order.
pub open spec fn datatype_name_list(fields: Seq<RawFieldV>) -> Seq<Seq<char>>
    decreases fields,
{
    if fields.len() == 0 {
        Seq::empty()
    } else {
        let pre = datatype_name_list(fields.drop_last());
        if pre.contains(fields.last().datatype) {
            pre
        } else {
            pre.push(fields.last().datatype)
        }
    }
}

pub proof fn lemma_datatype_name_list(fields: Seq<RawFieldV>)
    ensures
        crate::util::names_unique(datatype_name_list(fields)),
        forall|i: int|
            0 <= i < fields.len() ==> datatype_name_list(fields).contains(
                (#[trigger] fields[i]).datatype,
            ),
    decreases fields,
{
    if fields.len() > 0 {
        lemma_datatype_name_list(fields.drop_last());
        let pre = datatype_name_list(fields.drop_last());
        let all = datatype_name_list(fields);
        assert forall|i: int| 0 <= i < fields.len() implies all.contains(
            (#[trigger] fields[i]).datatype,
        ) by {
            if i < fields.len() - 1 {
                assert(fields.drop_last()[i] == fields[i]);
                assert(pre.contains(fields[i].datatype));
                let j = choose|j: int| 0 <= j < pre.len() && pre[j] == fields[i].datatype;
                assert(all[j] == fields[i].datatype);
            } else {
                if pre.contains(fields.last().datatype) {
                    let j = choose|j: int|
                        0 <= j < pre.len() && pre[j] == fields.last().datatype;
                    assert(all[j] == fields[i].datatype);
                } else {
                    assert(all.last() == fields[i].datatype);
                }
            }
        }
        if !pre.contains(fields.last().datatype) {
            assert forall|i: int, j: int| 0 <= i < j < all.len() implies all[i] != all[j] by {
                if j < all.len() - 1 {
                    assert(all[i] == pre[i] && all[j] == pre[j]);
                } else {
                    assert(all[j] == fields.last().datatype);
                    assert(all[i] == pre[i]);
                    assert(pre.contains(pre[i]));
                }
            }
        }
    }
}

/// Names of the raw records, in source order.
pub open spec fn raw_field_names(fields: Seq<RawFieldV>) -> Seq<Seq<char>> {
    fields.map_values(|f: RawFieldV| f.name)
}

pub open spec fn raw_field_tags(fields: Seq<RawFieldV>) -> Seq<u32> {
    fields.map_values(|f: RawFieldV| f.number)
}

pub open spec fn raw_component_names(comps: Seq<RawComponentV>) -> Seq<Seq<char>> {
    comps.map_values(|c: RawComponentV| c.name)
}

pub open spec fn raw_message_names(msgs: Seq<RawMessageV>) -> Seq<Seq<char>> {
    msgs.map_values(|m: RawMessageV| m.name)
}

pub open spec fn raw_message_types(msgs: Seq<RawMessageV>) -> Seq<Seq<char>> {
    msgs.map_values(|m: RawMessageV| m.msgtype)
}

/// An absent section read as an empty item list.
pub open spec fn opt_items(o: Option<Seq<RawItemV>>) -> Seq<RawItemV> {
    match o {
        Some(s) => s,
        None => Seq::empty(),
    }
}

/// The group-introducing field names of a component list.
pub open spec fn comps_group_starters(comps: Seq<RawComponentV>) -> Seq<Seq<char>>
    decreases comps,
{
    if comps.len() == 0 {
        Seq::empty()
    } else {
        items_group_starters(comps[0].items) + comps_group_starters(comps.drop_first())
    }
}

/// The group-introducing field names of a message list.
pub open spec fn msgs_group_starters(msgs: Seq<RawMessageV>) -> Seq<Seq<char>>
    decreases msgs,
{
    if msgs.len() == 0 {
        Seq::empty()
    } else {
        items_group_starters(msgs[0].items) + msgs_group_starters(msgs.drop_first())
    }
}

/// Every field name used to introduce a group anywhere in the document:
/// header, trailer, any component, or any message.
pub open spec fn doc_group_starters(doc: RawDocV) -> Seq<Seq<char>> {
    items_group_starters(opt_items(doc.header)) + items_group_starters(opt_items(doc.trailer))
        + comps_group_starters(match doc.components {
        Some(cs) => cs,
        None => Seq::empty(),
    }) + msgs_group_starters(match doc.messages {
        Some(ms) => ms,
        None => Seq::empty(),
    })
}

/// The field entity materialized from one raw record: the datatype reference
/// becomes the index of the datatype's name in the registration order, and
/// the group-counter flag records whether any layout introduces a group with
/// this field.
pub open spec fn built_field(
    rf: RawFieldV,
    dtnames: Seq<Seq<char>>,
    starters: Seq<Seq<char>>,
) -> FieldV {
    FieldV {
        name: rf.name,
        tag: rf.number,
        datatype_index: first_index(dtnames, rf.datatype),
        associated_data_tag: None,
        value_restrictions: rf.values,
        is_group: starters.contains(rf.name),
        abbr_name: None,
        base_category_id: None,
        base_category_abbr_name: None,
        required: false,
        description: None,
    }
}

pub open spec fn built_fields(
    rfs: Seq<RawFieldV>,
    dtnames: Seq<Seq<char>>,
    starters: Seq<Seq<char>>,
) -> Seq<FieldV> {
    rfs.map_values(|rf: RawFieldV| built_field(rf, dtnames, starters))
}

/// Resolution of one raw layout entry against the field names and the
/// component names registered so far. `None` marks an unresolved reference.
pub open spec fn spec_convert_item(
    it: RawItemV,
    fnames: Seq<Seq<char>>,
    cnames: Seq<Seq<char>>,
) -> Option<ItemV>
    decreases it,
{
    match it {
        RawItemV::Field { name, required } => {
            let i = first_index(fnames, name);
            if i < 0 {
                None
            } else {
                Some(ItemV::Field { required: required == 'Y', field: i })
            }
        },
        RawItemV::Group { name, required, items } => {
            let i = first_index(fnames, name);
            if i < 0 {
                None
            } else {
                match spec_convert_items(items, fnames, cnames) {
                    None => None,
                    Some(cs) => Some(ItemV::Group {
                        required: required == 'Y',
                        first_field: i,
                        contents: cs,
                    }),
                }
            }
        },
        RawItemV::Component { name, required } => {
            let i = first_index(cnames, name);
            if i < 0 {
                None
            } else {
                Some(ItemV::Component { required: required == 'Y', component: i })
            }
        },
    }
}

pub open spec fn spec_convert_items(
    items: Seq<RawItemV>,
    fnames: Seq<Seq<char>>,
    cnames: Seq<Seq<char>>,
) -> Option<Seq<ItemV>>
    decreases items,
{
    if items.len() == 0 {
        Some(Seq::empty())
    } else {
        match spec_convert_item(items[0], fnames, cnames) {
            None => None,
            Some(h) => match spec_convert_items(items.drop_first(), fnames, cnames) {
                None => None,
                Some(t) => Some(seq![h] + t),
            },
        }
    }
}

// ---------------------------------------------------------------------------
// Success conditions
// ---------------------------------------------------------------------------

/// All five mandatory sections are present.
pub open spec fn sections_present(doc: RawDocV) -> bool {
    &&& doc.fields is Some
    &&& doc.messages is Some
    &&& doc.components is Some
    &&& doc.header is Some
    &&& doc.trailer is Some
}

/// The primary keys of the document are unique, and no component claims a
/// name reserved for the synthetic header and trailer components.
pub open spec fn no_duplicate_keys(doc: RawDocV) -> bool {
    let fs = doc.fields.unwrap();
    let cs = doc.components.unwrap();
    let ms = doc.messages.unwrap();
    &&& names_unique(raw_field_tags(fs))
    &&& names_unique(raw_field_names(fs))
    &&& names_unique(raw_component_names(cs))
    &&& names_unique(raw_message_names(ms))
    &&& names_unique(raw_message_types(ms))
    &&& !raw_component_names(cs).contains("StandardHeader"@)
    &&& !raw_component_names(cs).contains("StandardTrailer"@)
}

/// Every name in `refs` occurs in `names`.
pub open spec fn all_in(refs: Seq<Seq<char>>, names: Seq<Seq<char>>) -> bool {
    forall|k: int| 0 <= k < refs.len() ==> names.contains(#[trigger] refs[k])
}

/// Every layout reference of the document names a defined entity: field and
/// group-counter references name defined fields, component references name
/// defined components. The trailer is converted after the synthetic
/// `StandardHeader` is registered, so it may reference that name as well.
pub open spec fn refs_defined(doc: RawDocV) -> bool {
    let fnames = raw_field_names(doc.fields.unwrap());
    let cnames = raw_component_names(doc.components.unwrap());
    let cs = doc.components.unwrap();
    let ms = doc.messages.unwrap();
    &&& forall|i: int|
        0 <= i < cs.len() ==> all_in(items_field_refs((#[trigger] cs[i]).items), fnames)
    &&& forall|i: int|
        0 <= i < cs.len() ==> all_in(items_component_refs((#[trigger] cs[i]).items), cnames)
    &&& forall|i: int|
        0 <= i < ms.len() ==> all_in(items_field_refs((#[trigger] ms[i]).items), fnames)
    &&& forall|i: int|
        0 <= i < ms.len() ==> all_in(items_component_refs((#[trigger] ms[i]).items), cnames)
    &&& all_in(items_field_refs(doc.header.unwrap()), fnames)
    &&& all_in(items_component_refs(doc.header.unwrap()), cnames)
    &&& all_in(items_field_refs(doc.trailer.unwrap()), fnames)
    &&& forall|k: int|
        0 <= k < items_component_refs(doc.trailer.unwrap()).len() ==> {
            let d = #[trigger] items_component_refs(doc.trailer.unwrap())[k];
            cnames.contains(d) || d == "StandardHeader"@
        }
}

/// `order` lists positions into `comps` so that every component is listed
/// exactly once and each component follows all defined components that its
/// layout references.
pub open spec fn is_topo_order(order: Seq<int>, comps: Seq<RawComponentV>) -> bool {
    &&& order.len() == comps.len()
    &&& forall|k: int| 0 <= k < order.len() ==> 0 <= #[trigger] order[k] < comps.len()
    &&& forall|k1: int, k2: int| 0 <= k1 < k2 < order.len() ==> order[k1] != order[k2]
    &&& forall|x: int| 0 <= x < comps.len() ==> first_index(order, x) >= 0
    &&& forall|k: int, di: int|
        #![trigger items_component_refs(comps[order[k]].items)[di]]
        0 <= k < order.len() && 0 <= di < items_component_refs(
            comps[order[k]].items,
        ).len() ==> {
            let d = items_component_refs(comps[order[k]].items)[di];
            raw_component_names(comps).contains(d) ==> 0 <= first_index(
                order,
                first_index(raw_component_names(comps), d),
            ) < k
        }
}

/// The identity order on `comps`.
pub open spec fn identity_order(n: int) -> Seq<int> {
    Seq::new(n as nat, |i: int| i)
}

/// A component list is acyclic when some dependency order exists.
pub open spec fn acyclic(comps: Seq<RawComponentV>) -> bool {
    exists|order: Seq<int>| is_topo_order(order, comps)
}

// ---------------------------------------------------------------------------
// Executable passes: version synthesis and datatype collection
// ---------------------------------------------------------------------------

/// Synthesizes the dictionary version string from the root element's
/// attributes.
pub fn version_of(doc_type: &str, major: &str, minor: &str, servicepack: &str) -> (r: String)
    ensures
        r@ == version_spec(doc_type@, major@, minor@, servicepack@),
{
    proof {
        reveal_strlit(".");
        reveal_strlit("-SP");
        reveal_strlit("0");
    }
    let mut s = String::new();
    s.append(doc_type);
    s.append(".");
    s.append(major);
    s.append(".");
    s.append(minor);
    if !str_eq(servicepack, "0") {
        s.append("-SP");
        s.append(servicepack);
    }
    proof {
        assert("."@ =~= seq!['.']);
        assert("-SP"@ =~= seq!['-', 'S', 'P']);
        assert("0"@ =~= seq!['0']);
        assert(s@ =~= version_spec(doc_type@, major@, minor@, servicepack@));
    }
    s
}

/// First pass over the field records: collect the distinct datatype names,
/// in first-seen order, each as a fresh datatype with empty documentation.
pub fn collect_datatypes(fields: &Vec<RawField>) -> (r: Vec<Datatype>)
    ensures
        r@.map_values(|d: Datatype| d@) == datatype_name_list(raw_fields_v(fields@)).map_values(
            |n: Seq<char>| DatatypeV { name: n, description: Seq::empty(), examples: Seq::empty() },
        ),
{
    let mut r: Vec<Datatype> = Vec::new();
    let ghost rfs = raw_fields_v(fields@);
    let mut i: usize = 0;
    proof {
        assert(raw_fields_v(fields@.take(0)) =~= rfs.take(0));
        assert(r@.map_values(|d: Datatype| d@) =~= datatype_name_list(rfs.take(0)).map_values(
            |n: Seq<char>| DatatypeV { name: n, description: Seq::empty(), examples: Seq::empty() },
        ));
    }
    while i < fields.len()
        invariant
            i <= fields.len(),
            rfs == raw_fields_v(fields@),
            rfs.len() == fields.len(),
            r@.map_values(|d: Datatype| d@) == datatype_name_list(rfs.take(i as int)).map_values(
                |n: Seq<char>| DatatypeV {
                    name: n,
                    description: Seq::empty(),
                    examples: Seq::empty(),
                },
            ),
        decreases fields.len() - i,
    {
        let ghost pre = datatype_name_list(rfs.take(i as int));
        let dt_name: &String = &fields[i].datatype;
        proof {
            assert(rfs[i as int] == fields@[i as int]@);
            assert(rfs.take(i as int + 1).drop_last() =~= rfs.take(i as int));
            assert(rfs.take(i as int + 1).last() == rfs[i as int]);
        }
        // Is the name already registered?
        let mut seen = false;
        let mut j: usize = 0;
        proof {
            assert(r@.map_values(|d: Datatype| d@).len() == r@.len());
            assert(pre.map_values(
                |n: Seq<char>| DatatypeV {
                    name: n,
                    description: Seq::empty(),
                    examples: Seq::empty(),
                },
            ).len() == pre.len());
            assert forall|t: int| 0 <= t < r@.len() implies (#[trigger] r@[t])@.name == pre[t] by {
                assert(r@.map_values(|d: Datatype| d@)[t] == pre.map_values(
                    |n: Seq<char>| DatatypeV {
                        name: n,
                        description: Seq::empty(),
                        examples: Seq::empty(),
                    },
                )[t]);
            }
        }
        while j < r.len() && !seen
            invariant
                j <= r.len(),
                r@.len() == pre.len(),
                r@.map_values(|d: Datatype| d@) == pre.map_values(
                    |n: Seq<char>| DatatypeV {
                        name: n,
                        description: Seq::empty(),
                        examples: Seq::empty(),
                    },
                ),
                forall|t: int| 0 <= t < r@.len() ==> (#[trigger] r@[t])@.name == pre[t],
                seen ==> pre.contains(dt_name@),
                !seen ==> forall|t: int| 0 <= t < j ==> pre[t] != dt_name@,
            decreases (if seen { 0int } else { 1int }) + r.len() - j,
        {
            if str_eq(r[j].name.as_str(), dt_name.as_str()) {
                proof {
                    assert(pre[j as int] == dt_name@);
                }
                seen = true;
            } else {
                j += 1;
            }
        }
        if !seen {
            proof {
                assert(j == r.len());
                if pre.contains(dt_name@) {
                    let t = choose|t: int| 0 <= t < pre.len() && pre[t] == dt_name@;
                    assert(pre[t] != dt_name@);
                }
            }
            let dt = Datatype::new(dt_name.clone());
            proof {
                assert(dt@ =~= (DatatypeV {
                    name: dt_name@,
                    description: Seq::empty(),
                    examples: Seq::empty(),
                }));
            }
            r.push(dt);
        }
        proof {
            let f = |n: Seq<char>| DatatypeV {
                name: n,
                description: Seq::empty(),
                examples: Seq::empty(),
            };
            let post = datatype_name_list(rfs.take(i as int + 1));
            assert(rfs.take(i as int + 1).last().datatype == dt_name@);
            if seen {
                assert(post == pre);
            } else {
                assert(post == pre.push(dt_name@));
                assert(post.map_values(f).len() == pre.len() + 1);
                assert forall|t: int| 0 <= t < post.len() implies post.map_values(f)[t]
                    == r@.map_values(|d: Datatype| d@)[t] by {
                    if t < pre.len() {
                        assert(post[t] == pre[t]);
                        assert(pre.map_values(f)[t] == f(pre[t]));
                    } else {
                        assert(post[t] == dt_name@);
                    }
                }
            }
            assert(r@.map_values(|d: Datatype| d@) =~= post.map_values(f));
        }
        i += 1;
    }
    proof {
        assert(rfs.take(fields.len() as int) =~= rfs);
    }
    r
}

// ---------------------------------------------------------------------------
// Collectors over the raw layout trees
// ---------------------------------------------------------------------------

pub open spec fn strings_v(s: Seq<String>) -> Seq<Seq<char>> {
    s.map_values(|t: String| t@)
}

/// Appends to `out` every group-introducing field name of `items`, at any
/// depth, in order of appearance.
fn collect_group_starters_items(items: &Vec<RawItem>, out: &mut Vec<String>)
    ensures
        strings_v(final(out)@) == strings_v(old(out)@) + items_group_starters(
            raw_items_v(items@),
        ),
    decreases items,
{
    let ghost rv = raw_items_v(items@);
    proof {
        lemma_raw_items_v_props(items@);
        assert(rv.take(0) =~= Seq::empty());
        assert(strings_v(out@) =~= strings_v(old(out)@) + items_group_starters(rv.take(0)));
    }
    let mut i: usize = 0;
    while i < items.len()
        invariant
            i <= items.len(),
            rv == raw_items_v(items@),
            rv.len() == items.len(),
            forall|t: int| 0 <= t < items.len() ==> rv[t] == raw_item_v(#[trigger] items@[t]),
            strings_v(out@) == strings_v(old(out)@) + items_group_starters(rv.take(i as int)),
        decreases items.len() - i,
    {
        let ghost pre = items_group_starters(rv.take(i as int));
        match &items[i] {
            RawItem::Field { .. } => {
                proof {
                    assert(item_group_starters(rv[i as int]) =~= Seq::empty());
                }
            },
            RawItem::Group { name, items: gitems, .. } => {
                out.push(name.clone());
                proof {
                    lemma_map_values_push(out@.drop_last(), out@.last(), |t: String| t@);
                    assert(out@.drop_last().push(out@.last()) =~= out@);
                    assert(strings_v(out@) =~= strings_v(old(out)@) + pre + seq![name@]);
                }
                collect_group_starters_items(gitems, out);
                proof {
                    assert(item_group_starters(rv[i as int]) == seq![name@]
                        + items_group_starters(raw_items_v(gitems@)));
                    assert(strings_v(out@) =~= strings_v(old(out)@) + pre + item_group_starters(
                        rv[i as int],
                    ));
                }
            },
            RawItem::Component { .. } => {
                proof {
                    assert(item_group_starters(rv[i as int]) =~= Seq::empty());
                }
            },
        }
        proof {
            assert(rv.take(i as int + 1) =~= rv.take(i as int) + seq![rv[i as int]]);
            lemma_group_starters_concat(rv.take(i as int), seq![rv[i as int]]);
            lemma_group_starters_singleton(rv[i as int]);
            assert(strings_v(out@) =~= strings_v(old(out)@) + items_group_starters(
                rv.take(i as int + 1),
            ));
        }
        i += 1;
    }
    proof {
        assert(rv.take(items.len() as int) =~= rv);
    }
}

/// The concatenation laws for the per-record collectors.
pub proof fn lemma_comps_starters_concat(a: Seq<RawComponentV>, b: Seq<RawComponentV>)
    ensures
        comps_group_starters(a + b) == comps_group_starters(a) + comps_group_starters(b),
    decreases a,
{
    if a.len() == 0 {
        assert(a + b =~= b);
        assert(comps_group_starters(a) + comps_group_starters(b) =~= comps_group_starters(b));
    } else {
        lemma_comps_starters_concat(a.drop_first(), b);
        assert((a + b).drop_first() =~= a.drop_first() + b);
        assert((a + b)[0] == a[0]);
        assert(comps_group_starters(a + b) =~= comps_group_starters(a) + comps_group_starters(b));
    }
}

pub proof fn lemma_msgs_starters_concat(a: Seq<RawMessageV>, b: Seq<RawMessageV>)
    ensures
        msgs_group_starters(a + b) == msgs_group_starters(a) + msgs_group_starters(b),
    decreases a,
{
    if a.len() == 0 {
        assert(a + b =~= b);
        assert(msgs_group_starters(a) + msgs_group_starters(b) =~= msgs_group_starters(b));
    } else {
        lemma_msgs_starters_concat(a.drop_first(), b);
        assert((a + b).drop_first() =~= a.drop_first() + b);
        assert((a + b)[0] == a[0]);
        assert(msgs_group_starters(a + b) =~= msgs_group_starters(a) + msgs_group_starters(b));
    }
}

/// Pre-pass over all layout definitions: every field name used to introduce
/// a group in the header, the trailer, any component, or any message.
pub fn collect_group_starters(
    header: &Vec<RawItem>,
    trailer: &Vec<RawItem>,
    comps: &Vec<RawComponent>,
    msgs: &Vec<RawMessage>,
) -> (r: Vec<String>)
    ensures
        strings_v(r@) == items_group_starters(raw_items_v(header@)) + items_group_starters(
            raw_items_v(trailer@),
        ) + comps_group_starters(raw_components_v(comps@)) + msgs_group_starters(
            raw_messages_v(msgs@),
        ),
{
    let mut out: Vec<String> = Vec::new();
    proof {
        assert(strings_v(out@) =~= Seq::empty());
    }
    collect_group_starters_items(header, &mut out);
    collect_group_starters_items(trailer, &mut out);
    let ghost base = items_group_starters(raw_items_v(header@)) + items_group_starters(
        raw_items_v(trailer@),
    );
    proof {
        assert(strings_v(out@) =~= base);
    }
    let ghost cv = raw_components_v(comps@);
    let mut i: usize = 0;
    proof {
        assert(cv.take(0) =~= Seq::empty());
        assert(strings_v(out@) =~= base + comps_group_starters(cv.take(0)));
    }
    while i < comps.len()
        invariant
            i <= comps.len(),
            cv == raw_components_v(comps@),
            cv.len() == comps.len(),
            base == items_group_starters(raw_items_v(header@)) + items_group_starters(
                raw_items_v(trailer@),
            ),
            strings_v(out@) == base + comps_group_starters(cv.take(i as int)),
        decreases comps.len() - i,
    {
        collect_group_starters_items(&comps[i].items, &mut out);
        proof {
            assert(cv[i as int] == comps@[i as int]@);
            assert(cv.take(i as int + 1) =~= cv.take(i as int) + seq![cv[i as int]]);
            lemma_comps_starters_concat(cv.take(i as int), seq![cv[i as int]]);
            assert(seq![cv[i as int]].drop_first() =~= Seq::<RawComponentV>::empty());
            assert(comps_group_starters(Seq::<RawComponentV>::empty()) =~= Seq::<Seq<char>>::empty());
            assert(comps_group_starters(seq![cv[i as int]]) =~= items_group_starters(
                cv[i as int].items,
            ));
            assert(strings_v(out@) =~= base + comps_group_starters(cv.take(i as int + 1)));
        }
        i += 1;
    }
    proof {
        assert(cv.take(comps.len() as int) =~= cv);
    }
    let ghost base2 = base + comps_group_starters(cv);
    let ghost mv = raw_messages_v(msgs@);
    let mut k: usize = 0;
    proof {
        assert(mv.take(0) =~= Seq::empty());
        assert(strings_v(out@) =~= base2 + msgs_group_starters(mv.take(0)));
    }
    while k < msgs.len()
        invariant
            k <= msgs.len(),
            mv == raw_messages_v(msgs@),
            mv.len() == msgs.len(),
            base2 == items_group_starters(raw_items_v(header@)) + items_group_starters(
                raw_items_v(trailer@),
            ) + comps_group_starters(raw_components_v(comps@)),
            strings_v(out@) == base2 + msgs_group_starters(mv.take(k as int)),
        decreases msgs.len() - k,
    {
        collect_group_starters_items(&msgs[k].items, &mut out);
        proof {
            assert(mv[k as int] == msgs@[k as int]@);
            assert(mv.take(k as int + 1) =~= mv.take(k as int) + seq![mv[k as int]]);
            lemma_msgs_starters_concat(mv.take(k as int), seq![mv[k as int]]);
            assert(seq![mv[k as int]].drop_first() =~= Seq::<RawMessageV>::empty());
            assert(msgs_group_starters(Seq::<RawMessageV>::empty()) =~= Seq::<Seq<char>>::empty());
            assert(msgs_group_starters(seq![mv[k as int]]) =~= items_group_starters(
                mv[k as int].items,
            ));
            assert(strings_v(out@) =~= base2 + msgs_group_starters(mv.take(k as int + 1)));
        }
        k += 1;
    }
    proof {
        assert(mv.take(msgs.len() as int) =~= mv);
    }
    out
}

/// Appends to `out` every component name referenced by `items`, at any
/// depth, in order of appearance.
fn collect_component_refs_items(items: &Vec<RawItem>, out: &mut Vec<String>)
    ensures
        strings_v(final(out)@) == strings_v(old(out)@) + items_component_refs(
            raw_items_v(items@),
        ),
    decreases items,
{
    let ghost rv = raw_items_v(items@);
    proof {
        lemma_raw_items_v_props(items@);
        assert(rv.take(0) =~= Seq::empty());
        assert(strings_v(out@) =~= strings_v(old(out)@) + items_component_refs(rv.take(0)));
    }
    let mut i: usize = 0;
    while i < items.len()
        invariant
            i <= items.len(),
            rv == raw_items_v(items@),
            rv.len() == items.len(),
            forall|t: int| 0 <= t < items.len() ==> rv[t] == raw_item_v(#[trigger] items@[t]),
            strings_v(out@) == strings_v(old(out)@) + items_component_refs(rv.take(i as int)),
        decreases items.len() - i,
    {
        let ghost pre = items_component_refs(rv.take(i as int));
        match &items[i] {
            RawItem::Field { .. } => {
                proof {
                    assert(item_component_refs(rv[i as int]) =~= Seq::empty());
                }
            },
            RawItem::Group { items: gitems, .. } => {
                collect_component_refs_items(gitems, out);
                proof {
                    assert(item_component_refs(rv[i as int]) == items_component_refs(
                        raw_items_v(gitems@),
                    ));
                }
            },
            RawItem::Component { name, .. } => {
                out.push(name.clone());
                proof {
                    lemma_map_values_push(out@.drop_last(), out@.last(), |t: String| t@);
                    assert(out@.drop_last().push(out@.last()) =~= out@);
                    assert(item_component_refs(rv[i as int]) =~= seq![name@]);
                    assert(strings_v(out@) =~= strings_v(old(out)@) + pre + item_component_refs(
                        rv[i as int],
                    ));
                }
            },
        }
        proof {
            assert(rv.take(i as int + 1) =~= rv.take(i as int) + seq![rv[i as int]]);
            lemma_component_refs_concat(rv.take(i as int), seq![rv[i as int]]);
            lemma_component_refs_singleton(rv[i as int]);
            assert(strings_v(out@) =~= strings_v(old(out)@) + items_component_refs(
                rv.take(i as int + 1),
            ));
        }
        i += 1;
    }
    proof {
        assert(rv.take(items.len() as int) =~= rv);
    }
}

/// The component names that one component's layout references.
pub fn component_refs_of(comp: &RawComponent) -> (r: Vec<String>)
    ensures
        strings_v(r@) == items_component_refs(comp@.items),
{
    let mut out: Vec<String> = Vec::new();
    proof {
        assert(strings_v(out@) =~= Seq::empty());
    }
    collect_component_refs_items(&comp.items, &mut out);
    proof {
        assert(strings_v(out@) =~= items_component_refs(raw_items_v(comp.items@)));
    }
    out
}

/// The first position of `name` among `names`, if it occurs.
pub fn find_name(names: &Vec<String>, name: &str) -> (r: Option<usize>)
    ensures
        match r {
            Some(i) => i == first_index(strings_v(names@), name@) && i < names.len()
                && strings_v(names@)[i as int] == name@,
            None => !strings_v(names@).contains(name@),
        },
        r is Some <==> strings_v(names@).contains(name@),
{
    let ghost ns = strings_v(names@);
    let mut i: usize = 0;
    while i < names.len()
        invariant
            i <= names.len(),
            ns == strings_v(names@),
            ns.len() == names.len(),
            forall|t: int| 0 <= t < names.len() ==> ns[t] == (#[trigger] names@[t])@,
            forall|t: int| 0 <= t < i ==> ns[t] != name@,
        decreases names.len() - i,
    {
        if str_eq(names[i].as_str(), name) {
            proof {
                assert(ns[i as int] == name@);
                lemma_first_index_is(ns, name@, i as int);
                assert(ns.contains(name@));
            }
            return Some(i);
        }
        i += 1;
    }
    proof {
        if ns.contains(name@) {
            let t = choose|t: int| 0 <= t < ns.len() && ns[t] == name@;
            assert(ns[t] != name@);
        }
    }
    None
}

/// The first position of `name` among the datatype names, if it occurs.
pub fn find_datatype(datatypes: &Vec<Datatype>, name: &str) -> (r: Option<usize>)
    ensures
        ({
            let ns = datatype_names(datatypes@.map_values(|d: Datatype| d@));
            match r {
                Some(i) => i == first_index(ns, name@) && i < datatypes.len() && ns[i as int]
                    == name@,
                None => !ns.contains(name@),
            }
        }),
        r is Some <==> datatype_names(datatypes@.map_values(|d: Datatype| d@)).contains(name@),
{
    let ghost ns = datatype_names(datatypes@.map_values(|d: Datatype| d@));
    let mut i: usize = 0;
    while i < datatypes.len()
        invariant
            i <= datatypes.len(),
            ns == datatype_names(datatypes@.map_values(|d: Datatype| d@)),
            ns.len() == datatypes.len(),
            forall|t: int| 0 <= t < datatypes.len() ==> ns[t] == (#[trigger] datatypes@[t])@.name,
            forall|t: int| 0 <= t < i ==> ns[t] != name@,
        decreases datatypes.len() - i,
    {
        if str_eq(datatypes[i].name.as_str(), name) {
            proof {
                assert(ns[i as int] == name@);
                lemma_first_index_is(ns, name@, i as int);
                assert(ns.contains(name@));
            }
            return Some(i);
        }
        i += 1;
    }
    proof {
        if ns.contains(name@) {
            let t = choose|t: int| 0 <= t < ns.len() && ns[t] == name@;
            assert(ns[t] != name@);
        }
    }
    None
}

/// The first position of `name` among the field names, if it occurs.
pub fn find_field(fields: &Vec<Field>, name: &str) -> (r: Option<usize>)
    ensures
        ({
            let ns = field_names(fields_v(fields@));
            match r {
                Some(i) => i == first_index(ns, name@) && i < fields.len() && ns[i as int]
                    == name@,
                None => !ns.contains(name@),
            }
        }),
        r is Some <==> field_names(fields_v(fields@)).contains(name@),
{
    let ghost ns = field_names(fields_v(fields@));
    let mut i: usize = 0;
    while i < fields.len()
        invariant
            i <= fields.len(),
            ns == field_names(fields_v(fields@)),
            ns.len() == fields.len(),
            forall|t: int| 0 <= t < fields.len() ==> ns[t] == (#[trigger] fields@[t])@.name,
            forall|t: int| 0 <= t < i ==> ns[t] != name@,
        decreases fields.len() - i,
    {
        if str_eq(fields[i].name.as_str(), name) {
            proof {
                assert(ns[i as int] == name@);
                lemma_first_index_is(ns, name@, i as int);
                assert(ns.contains(name@));
            }
            return Some(i);
        }
        i += 1;
    }
    proof {
        if ns.contains(name@) {
            let t = choose|t: int| 0 <= t < ns.len() && ns[t] == name@;
            assert(ns[t] != name@);
        }
    }
    None
}

/// The first position of `name` among the component names, if it occurs.
pub fn find_component(comps: &Vec<Component>, name: &str) -> (r: Option<usize>)
    ensures
        ({
            let ns = component_names(components_v(comps@));
            match r {
                Some(i) => i == first_index(ns, name@) && i < comps.len() && ns[i as int]
                    == name@,
                None => !ns.contains(name@),
            }
        }),
        r is Some <==> component_names(components_v(comps@)).contains(name@),
{
    let ghost ns = component_names(components_v(comps@));
    let mut i: usize = 0;
    while i < comps.len()
        invariant
            i <= comps.len(),
            ns == component_names(components_v(comps@)),
            ns.len() == comps.len(),
            forall|t: int| 0 <= t < comps.len() ==> ns[t] == (#[trigger] comps@[t])@.name,
            forall|t: int| 0 <= t < i ==> ns[t] != name@,
        decreases comps.len() - i,
    {
        if str_eq(comps[i].name.as_str(), name) {
            proof {
                assert(ns[i as int] == name@);
                lemma_first_index_is(ns, name@, i as int);
                assert(ns.contains(name@));
            }
            return Some(i);
        }
        i += 1;
    }
    proof {
        if ns.contains(name@) {
            let t = choose|t: int| 0 <= t < ns.len() && ns[t] == name@;
            assert(ns[t] != name@);
        }
    }
    None
}

// ---------------------------------------------------------------------------
// Field materialization
// ---------------------------------------------------------------------------

/// Second pass over the field records: one field entity per record, in
/// source order, typed by the registered datatypes and flagged as a group
/// counter when some layout introduces a group with its name.
pub fn build_field_entities(
    fields: &Vec<RawField>,
    datatypes: &Vec<Datatype>,
    starters: &Vec<String>,
) -> (r: Vec<Field>)
    requires
        forall|i: int|
            0 <= i < fields@.len() ==> datatype_names(
                datatypes@.map_values(|d: Datatype| d@),
            ).contains((#[trigger] fields@[i])@.datatype),
    ensures
        fields_v(r@) == built_fields(
            raw_fields_v(fields@),
            datatype_names(datatypes@.map_values(|d: Datatype| d@)),
            strings_v(starters@),
        ),
{
    let ghost rfs = raw_fields_v(fields@);
    let ghost dtnames = datatype_names(datatypes@.map_values(|d: Datatype| d@));
    let ghost stv = strings_v(starters@);
    let mut r: Vec<Field> = Vec::new();
    let mut i: usize = 0;
    proof {
        assert(fields_v(r@) =~= built_fields(rfs.take(0), dtnames, stv));
    }
    while i < fields.len()
        invariant
            i <= fields.len(),
            rfs == raw_fields_v(fields@),
            rfs.len() == fields.len(),
            dtnames == datatype_names(datatypes@.map_values(|d: Datatype| d@)),
            stv == strings_v(starters@),
            forall|t: int|
                0 <= t < fields@.len() ==> dtnames.contains((#[trigger] fields@[t])@.datatype),
            r@.len() == i,
            fields_v(r@) == built_fields(rfs.take(i as int), dtnames, stv),
        decreases fields.len() - i,
    {
        let rf = &fields[i];
        proof {
            assert(rfs[i as int] == fields@[i as int]@);
            assert(dtnames.contains(rf@.datatype));
        }
        let di = match find_datatype(datatypes, rf.datatype.as_str()) {
            Some(di) => di,
            None => {
                proof {
                    assert(false);
                }
                0
            },
        };
        let mut field = Field::new(rf.name.clone(), rf.number, di);
        field.is_group = find_name(starters, rf.name.as_str()).is_some();
        field.value_restrictions = match &rf.values {
            Some(vs) => {
                let mut out: Vec<FieldEnum> = Vec::new();
                let mut k: usize = 0;
                proof {
                    assert(field_enums_v(out@) =~= raw_enums_v(vs@.take(0)));
                }
                while k < vs.len()
                    invariant
                        k <= vs.len(),
                        field_enums_v(out@) == raw_enums_v(vs@.take(k as int)),
                    decreases vs.len() - k,
                {
                    out.push(
                        FieldEnum {
                            value: vs[k].value.clone(),
                            description: vs[k].description.clone(),
                        },
                    );
                    proof {
                        lemma_map_values_push(out@.drop_last(), out@.last(), |e: FieldEnum| e@);
                        assert(out@.drop_last().push(out@.last()) =~= out@);
                        lemma_map_values_push(
                            vs@.take(k as int),
                            vs@[k as int],
                            |e: crate::raw::RawFieldEnum| e@,
                        );
                        assert(vs@.take(k as int + 1) =~= vs@.take(k as int).push(vs@[k as int]));
                        assert(out@.last()@ =~= vs@[k as int]@);
                        assert(field_enums_v(out@) =~= raw_enums_v(vs@.take(k as int + 1)));
                    }
                    k += 1;
                }
                proof {
                    assert(vs@.take(vs.len() as int) =~= vs@);
                }
                Some(out)
            },
            None => None,
        };
        proof {
            assert(field@ =~= built_field(rfs[i as int], dtnames, stv));
        }
        r.push(field);
        proof {
            assert(rfs.take(i as int + 1) =~= rfs.take(i as int).push(rfs[i as int]));
            lemma_map_values_push(
                rfs.take(i as int),
                rfs[i as int],
                |rf2: RawFieldV| built_field(rf2, dtnames, stv),
            );
            assert(fields_v(r@) =~= built_fields(rfs.take(i as int + 1), dtnames, stv));
        }
        i += 1;
    }
    proof {
        assert(rfs.take(fields.len() as int) =~= rfs);
    }
    r
}

// ---------------------------------------------------------------------------
// Layout conversion
// ---------------------------------------------------------------------------

/// Conversion distributes over appending one entry.
pub proof fn lemma_spec_convert_push(
    a: Seq<RawItemV>,
    x: RawItemV,
    fnames: Seq<Seq<char>>,
    cnames: Seq<Seq<char>>,
)
    ensures
        spec_convert_items(a.push(x), fnames, cnames) == match (
            spec_convert_items(a, fnames, cnames),
            spec_convert_item(x, fnames, cnames),
        ) {
            (Some(av), Some(xv)) => Some(av.push(xv)),
            _ => None::<Seq<ItemV>>,
        },
    decreases a,
{
    if a.len() == 0 {
        assert(a.push(x).drop_first() =~= Seq::<RawItemV>::empty());
        assert(a.push(x)[0] == x);
        assert(a =~= Seq::<RawItemV>::empty());
        match spec_convert_item(x, fnames, cnames) {
            Some(xv) => {
                assert(spec_convert_items(a.push(x), fnames, cnames) == Some(
                    seq![xv] + Seq::<ItemV>::empty(),
                ));
                assert(seq![xv] + Seq::<ItemV>::empty() =~= Seq::<ItemV>::empty().push(xv));
            },
            None => {},
        }
    } else {
        lemma_spec_convert_push(a.drop_first(), x, fnames, cnames);
        assert(a.push(x).drop_first() =~= a.drop_first().push(x));
        assert(a.push(x)[0] == a[0]);
        match spec_convert_item(a[0], fnames, cnames) {
            None => {},
            Some(h) => {
                match (
                    spec_convert_items(a.drop_first(), fnames, cnames),
                    spec_convert_item(x, fnames, cnames),
                ) {
                    (Some(t), Some(xv)) => {
                        assert(spec_convert_items(a, fnames, cnames) == Some(seq![h] + t));
                        assert(spec_convert_items(a.drop_first().push(x), fnames, cnames)
                            == Some(t.push(xv)));
                        assert(seq![h] + t.push(xv) =~= (seq![h] + t).push(xv));
                    },
                    _ => {},
                }
            },
        }
    }
}

/// One unresolved entry makes the whole list unresolved.
pub proof fn lemma_spec_convert_fail(
    s: Seq<RawItemV>,
    i: int,
    fnames: Seq<Seq<char>>,
    cnames: Seq<Seq<char>>,
)
    requires
        0 <= i < s.len(),
        spec_convert_item(s[i], fnames, cnames) is None,
    ensures
        spec_convert_items(s, fnames, cnames) is None,
    decreases s,
{
    if i > 0 {
        lemma_spec_convert_fail(s.drop_first(), i - 1, fnames, cnames);
        assert(s.drop_first()[i - 1] == s[i]);
    }
}

/// Conversion succeeds whenever every referenced name is present in the
/// respective list.
pub proof fn lemma_convert_total(items: Seq<RawItemV>, fnames: Seq<Seq<char>>, cnames: Seq<Seq<char>>)
    requires
        all_in(items_field_refs(items), fnames),
        all_in(items_component_refs(items), cnames),
    ensures
        spec_convert_items(items, fnames, cnames) is Some,
    decreases items,
{
    if items.len() > 0 {
        let head = items[0];
        let tail = items.drop_first();
        assert(items =~= seq![head] + tail);
        lemma_field_refs_concat(seq![head], tail);
        lemma_component_refs_concat(seq![head], tail);
        lemma_field_refs_singleton(head);
        lemma_component_refs_singleton(head);
        let hf = item_field_refs(head);
        let hc = item_component_refs(head);
        assert forall|k: int| 0 <= k < hf.len() implies fnames.contains(#[trigger] hf[k]) by {
            assert(items_field_refs(items)[k] == hf[k]);
        }
        assert forall|k: int| 0 <= k < hc.len() implies cnames.contains(#[trigger] hc[k]) by {
            assert(items_component_refs(items)[k] == hc[k]);
        }
        assert forall|k: int| 0 <= k < items_field_refs(tail).len() implies fnames.contains(
            #[trigger] items_field_refs(tail)[k],
        ) by {
            assert(items_field_refs(items)[hf.len() + k] == items_field_refs(tail)[k]);
        }
        assert forall|k: int| 0 <= k < items_component_refs(tail).len() implies cnames.contains(
            #[trigger] items_component_refs(tail)[k],
        ) by {
            assert(items_component_refs(items)[hc.len() + k] == items_component_refs(tail)[k]);
        }
        lemma_convert_total(tail, fnames, cnames);
        match head {
            RawItemV::Field { name, .. } => {
                assert(hf[0] == name);
                assert(fnames.contains(name));
                lemma_first_index(fnames, name);
            },
            RawItemV::Group { name, items: gitems, .. } => {
                assert(hf[0] == name);
                assert(fnames.contains(name));
                lemma_first_index(fnames, name);
                assert forall|k: int| 0 <= k < items_field_refs(gitems).len() implies
                    fnames.contains(#[trigger] items_field_refs(gitems)[k]) by {
                    assert(hf[1 + k] == items_field_refs(gitems)[k]);
                }
                assert forall|k: int| 0 <= k < items_component_refs(gitems).len() implies
                    cnames.contains(#[trigger] items_component_refs(gitems)[k]) by {
                    assert(hc[k] == items_component_refs(gitems)[k]);
                }
                lemma_convert_total(gitems, fnames, cnames);
            },
            RawItemV::Component { name, .. } => {
                assert(hc[0] == name);
                assert(cnames.contains(name));
                lemma_first_index(cnames, name);
            },
        }
        assert(spec_convert_item(head, fnames, cnames) is Some);
        assert(spec_convert_items(tail, fnames, cnames) is Some);
        assert(spec_convert_items(items, fnames, cnames) is Some);
    }
}

/// A successfully converted layout references only live entities.
pub proof fn lemma_convert_wf(
    items: Seq<RawItemV>,
    fnames: Seq<Seq<char>>,
    cnames: Seq<Seq<char>>,
)
    requires
        spec_convert_items(items, fnames, cnames) is Some,
    ensures
        crate::dict::items_wf(
            spec_convert_items(items, fnames, cnames).unwrap(),
            fnames.len() as int,
            cnames.len() as int,
        ),
    decreases items,
{
    if items.len() > 0 {
        let h = spec_convert_item(items[0], fnames, cnames);
        let t = spec_convert_items(items.drop_first(), fnames, cnames);
        lemma_convert_wf(items.drop_first(), fnames, cnames);
        let whole = spec_convert_items(items, fnames, cnames).unwrap();
        assert(whole =~= seq![h.unwrap()] + t.unwrap());
        assert(crate::dict::item_wf(h.unwrap(), fnames.len() as int, cnames.len() as int)) by {
            match items[0] {
                RawItemV::Field { name, .. } => {
                    lemma_first_index(fnames, name);
                },
                RawItemV::Group { name, items: gitems, .. } => {
                    lemma_first_index(fnames, name);
                    lemma_convert_wf(gitems, fnames, cnames);
                },
                RawItemV::Component { name, .. } => {
                    lemma_first_index(cnames, name);
                },
            }
        }
        assert forall|k: int| 0 <= k < whole.len() implies crate::dict::item_wf(
            #[trigger] whole[k],
            fnames.len() as int,
            cnames.len() as int,
        ) by {
            if k == 0 {
                assert(whole[0] == h.unwrap());
            } else {
                assert(whole[k] == t.unwrap()[k - 1]);
            }
        }
    }
}

/// Reference validity survives growing the component list.
pub proof fn lemma_items_wf_mono(items: Seq<ItemV>, nfields: int, nc1: int, nc2: int)
    requires
        crate::dict::items_wf(items, nfields, nc1),
        nc1 <= nc2,
    ensures
        crate::dict::items_wf(items, nfields, nc2),
    decreases items,
{
    assert forall|i: int| 0 <= i < items.len() implies crate::dict::item_wf(
        #[trigger] items[i],
        nfields,
        nc2,
    ) by {
        assert(crate::dict::item_wf(items[i], nfields, nc1));
        lemma_item_wf_mono(items[i], nfields, nc1, nc2);
    }
}

proof fn lemma_item_wf_mono(item: ItemV, nfields: int, nc1: int, nc2: int)
    requires
        crate::dict::item_wf(item, nfields, nc1),
        nc1 <= nc2,
    ensures
        crate::dict::item_wf(item, nfields, nc2),
    decreases item,
{
    match item {
        ItemV::Group { contents, .. } => {
            lemma_items_wf_mono(contents, nfields, nc1, nc2);
        },
        _ => {},
    }
}

/// A successfully converted layout had every referenced name present.
pub proof fn lemma_convert_refs(
    items: Seq<RawItemV>,
    fnames: Seq<Seq<char>>,
    cnames: Seq<Seq<char>>,
)
    requires
        spec_convert_items(items, fnames, cnames) is Some,
    ensures
        all_in(items_field_refs(items), fnames),
        all_in(items_component_refs(items), cnames),
    decreases items,
{
    if items.len() > 0 {
        let head = items[0];
        let tail = items.drop_first();
        assert(items =~= seq![head] + tail);
        lemma_field_refs_concat(seq![head], tail);
        lemma_component_refs_concat(seq![head], tail);
        lemma_field_refs_singleton(head);
        lemma_component_refs_singleton(head);
        assert(spec_convert_item(head, fnames, cnames) is Some);
        assert(spec_convert_items(tail, fnames, cnames) is Some);
        lemma_convert_refs(tail, fnames, cnames);
        let hf = item_field_refs(head);
        let hc = item_component_refs(head);
        assert(items_field_refs(items) == hf + items_field_refs(tail));
        assert(items_component_refs(items) == hc + items_component_refs(tail));
        match head {
            RawItemV::Field { name, .. } => {
                lemma_first_index(fnames, name);
            },
            RawItemV::Group { name, items: gitems, .. } => {
                lemma_first_index(fnames, name);
                assert(spec_convert_items(gitems, fnames, cnames) is Some);
                lemma_convert_refs(gitems, fnames, cnames);
            },
            RawItemV::Component { name, .. } => {
                lemma_first_index(cnames, name);
            },
        }
        assert forall|k: int| 0 <= k < items_field_refs(items).len() implies fnames.contains(
            #[trigger] items_field_refs(items)[k],
        ) by {
            if k < hf.len() {
                assert(items_field_refs(items)[k] == hf[k]);
                match head {
                    RawItemV::Field { name, .. } => {
                        assert(hf[k] == name);
                    },
                    RawItemV::Group { name, items: gitems, .. } => {
                        if k == 0 {
                            assert(hf[0] == name);
                        } else {
                            assert(hf[k] == items_field_refs(gitems)[k - 1]);
                        }
                    },
                    RawItemV::Component { .. } => {
                        assert(false);
                    },
                }
            } else {
                assert(items_field_refs(items)[k] == items_field_refs(tail)[k - hf.len()]);
            }
        }
        assert forall|k: int| 0 <= k < items_component_refs(items).len() implies cnames.contains(
            #[trigger] items_component_refs(items)[k],
        ) by {
            if k < hc.len() {
                assert(items_component_refs(items)[k] == hc[k]);
                match head {
                    RawItemV::Field { .. } => {
                        assert(false);
                    },
                    RawItemV::Group { items: gitems, .. } => {
                        assert(hc[k] == items_component_refs(gitems)[k]);
                    },
                    RawItemV::Component { name, .. } => {
                        assert(hc[k] == name);
                    },
                }
            } else {
                assert(items_component_refs(items)[k] == items_component_refs(tail)[k
                    - hc.len()]);
            }
        }
    }
}

/// Materialization keeps the field names and tags of the records.
pub proof fn lemma_built_names(
    rfs: Seq<RawFieldV>,
    dtnames: Seq<Seq<char>>,
    starters: Seq<Seq<char>>,
)
    ensures
        crate::dict::field_names(built_fields(rfs, dtnames, starters)) == raw_field_names(rfs),
        crate::dict::field_tags(built_fields(rfs, dtnames, starters)) == raw_field_tags(rfs),
{
    assert(crate::dict::field_names(built_fields(rfs, dtnames, starters)) =~= raw_field_names(
        rfs,
    ));
    assert(crate::dict::field_tags(built_fields(rfs, dtnames, starters)) =~= raw_field_tags(
        rfs,
    ));
}

/// Translates a raw item list into a resolved layout, against the materialized
/// fields and the components registered so far. Fails with an
/// `UnresolvedReference` exactly when some entry names an unknown field or an
/// unregistered component.
pub fn convert_items(
    items: &Vec<RawItem>,
    fields: &Vec<Field>,
    comps: &Vec<Component>,
) -> (r: Result<Vec<LayoutItem>, DictError>)
    ensures
        ({
            let sc = spec_convert_items(
                raw_items_v(items@),
                field_names(fields_v(fields@)),
                component_names(components_v(comps@)),
            );
            match r {
                Ok(lis) => sc == Some(items_v(lis@)),
                Err(e) => e == DictError::UnresolvedReference && sc is None,
            }
        }),
    decreases items,
{
    let ghost rv = raw_items_v(items@);
    let ghost fnames = field_names(fields_v(fields@));
    let ghost cnames = component_names(components_v(comps@));
    proof {
        lemma_raw_items_v_props(items@);
    }
    let mut out: Vec<LayoutItem> = Vec::new();
    proof {
        assert(rv.take(0) =~= Seq::<RawItemV>::empty());
        assert(items_v(out@) =~= Seq::<ItemV>::empty());
    }
    let mut i: usize = 0;
    while i < items.len()
        invariant
            i <= items.len(),
            rv == raw_items_v(items@),
            rv.len() == items.len(),
            forall|t: int| 0 <= t < items.len() ==> rv[t] == raw_item_v(#[trigger] items@[t]),
            fnames == field_names(fields_v(fields@)),
            cnames == component_names(components_v(comps@)),
            spec_convert_items(rv.take(i as int), fnames, cnames) == Some(items_v(out@)),
        decreases items.len() - i,
    {
        let li: LayoutItem = match &items[i] {
            RawItem::Field { name, required } => {
                match find_field(fields, name.as_str()) {
                    Some(fi) => {
                        let li = LayoutItem {
                            required: *required == 'Y',
                            kind: LayoutItemKind::Field(fi),
                        };
                        proof {
                            assert(item_v(li) == spec_convert_item(
                                rv[i as int],
                                fnames,
                                cnames,
                            ).unwrap());
                        }
                        li
                    },
                    None => {
                        proof {
                            lemma_first_index(fnames, name@);
                            assert(spec_convert_item(rv[i as int], fnames, cnames) is None);
                            lemma_spec_convert_fail(rv, i as int, fnames, cnames);
                        }
                        return Err(DictError::UnresolvedReference);
                    },
                }
            },
            RawItem::Group { name, required, items: gitems } => {
                match find_field(fields, name.as_str()) {
                    Some(fi) => {
                        match convert_items(gitems, fields, comps) {
                            Ok(contents) => {
                                let li = LayoutItem {
                                    required: *required == 'Y',
                                    kind: LayoutItemKind::Group { first_field: fi, contents },
                                };
                                proof {
                                    assert(item_v(li) == spec_convert_item(
                                        rv[i as int],
                                        fnames,
                                        cnames,
                                    ).unwrap());
                                }
                                li
                            },
                            Err(e) => {
                                proof {
                                    assert(spec_convert_item(
                                        rv[i as int],
                                        fnames,
                                        cnames,
                                    ) is None);
                                    lemma_spec_convert_fail(rv, i as int, fnames, cnames);
                                }
                                return Err(e);
                            },
                        }
                    },
                    None => {
                        proof {
                            lemma_first_index(fnames, name@);
                            assert(spec_convert_item(rv[i as int], fnames, cnames) is None);
                            lemma_spec_convert_fail(rv, i as int, fnames, cnames);
                        }
                        return Err(DictError::UnresolvedReference);
                    },
                }
            },
            RawItem::Component { name, required } => {
                match find_component(comps, name.as_str()) {
                    Some(ci) => {
                        let li = LayoutItem {
                            required: *required == 'Y',
                            kind: LayoutItemKind::Component(ci),
                        };
                        proof {
                            assert(item_v(li) == spec_convert_item(
                                rv[i as int],
                                fnames,
                                cnames,
                            ).unwrap());
                        }
                        li
                    },
                    None => {
                        proof {
                            lemma_first_index(cnames, name@);
                            assert(spec_convert_item(rv[i as int], fnames, cnames) is None);
                            lemma_spec_convert_fail(rv, i as int, fnames, cnames);
                        }
                        return Err(DictError::UnresolvedReference);
                    },
                }
            },
        };
        proof {
            assert(rv.take(i as int + 1) =~= rv.take(i as int).push(rv[i as int]));
            lemma_spec_convert_push(rv.take(i as int), rv[i as int], fnames, cnames);
            lemma_items_v_push(out@, li);
        }
        out.push(li);
        i += 1;
    }
    proof {
        assert(rv.take(items.len() as int) =~= rv);
    }
    Ok(out)
}

} // verus!
