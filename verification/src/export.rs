//! The symmetric exporter: writes an assembled dictionary back into a raw
//! schema document of the same shape as the input format. Names, required
//! flags, and nesting structure round-trip; documentation-only attributes
//! are not preserved.

use vstd::prelude::*;
use crate::assemble::built_form;
use crate::dict::{Dictionary, DictV, dict_wf, item_wf, items_wf};
use crate::import::lemma_items_wf_mono;
use crate::raw::{
    RawComponent, RawComponentV, RawDocV, RawDocument, RawField, RawFieldEnum, RawFieldV,
    RawItem, RawItemV, RawMessage, RawMessageV, lemma_raw_items_v_push, raw_components_v,
    raw_fields_v, raw_items_v, raw_messages_v,
};
use crate::types::{
    ComponentV, Field, FieldEnum, FieldV, ItemV, LayoutItem, LayoutItemKind, MessageV,
    field_enums_v, item_v, items_v, lemma_items_v_props,
};
use crate::util::lemma_map_values_push;

verus! {

/// One layout entry written back as a raw entry: names come from the
/// referenced entities, the required flag becomes the source's character
/// marker.
pub open spec fn export_item(it: ItemV, fields: Seq<FieldV>, comps: Seq<ComponentV>) -> RawItemV
    decreases it,
{
    match it {
        ItemV::Field { required, field } => RawItemV::Field {
            name: fields[field].name,
            required: if required {
                'Y'
            } else {
                'N'
            },
        },
        ItemV::Group { required, first_field, contents } => RawItemV::Group {
            name: fields[first_field].name,
            required: if required {
                'Y'
            } else {
                'N'
            },
            items: export_items(contents, fields, comps),
        },
        ItemV::Component { required, component } => RawItemV::Component {
            name: comps[component].name,
            required: if required {
                'Y'
            } else {
                'N'
            },
        },
    }
}

pub open spec fn export_items(
    items: Seq<ItemV>,
    fields: Seq<FieldV>,
    comps: Seq<ComponentV>,
) -> Seq<RawItemV>
    decreases items,
{
    if items.len() == 0 {
        Seq::empty()
    } else {
        seq![export_item(items[0], fields, comps)] + export_items(
            items.drop_first(),
            fields,
            comps,
        )
    }
}

pub proof fn lemma_export_items_props(items: Seq<ItemV>, fields: Seq<FieldV>, comps: Seq<ComponentV>)
    ensures
        export_items(items, fields, comps).len() == items.len(),
        forall|i: int|
            0 <= i < items.len() ==> export_items(items, fields, comps)[i] == export_item(
                #[trigger] items[i],
                fields,
                comps,
            ),
    decreases items,
{
    if items.len() > 0 {
        lemma_export_items_props(items.drop_first(), fields, comps);
        assert forall|i: int| 0 <= i < items.len() implies export_items(items, fields, comps)[i]
            == export_item(#[trigger] items[i], fields, comps) by {
            if i > 0 {
                assert(export_items(items, fields, comps)[i] == export_items(
                    items.drop_first(),
                    fields,
                    comps,
                )[i - 1]);
                assert(items.drop_first()[i - 1] == items[i]);
            }
        }
    }
}

pub proof fn lemma_export_items_push(
    s: Seq<ItemV>,
    x: ItemV,
    fields: Seq<FieldV>,
    comps: Seq<ComponentV>,
)
    ensures
        export_items(s.push(x), fields, comps) == export_items(s, fields, comps).push(
            export_item(x, fields, comps),
        ),
{
    lemma_export_items_props(s.push(x), fields, comps);
    lemma_export_items_props(s, fields, comps);
    assert forall|i: int| 0 <= i < s.len() + 1 implies export_items(s.push(x), fields, comps)[i]
        == export_items(s, fields, comps).push(export_item(x, fields, comps))[i] by {
        if i < s.len() {
            assert(s.push(x)[i] == s[i]);
            assert(export_items(s.push(x), fields, comps)[i] == export_item(s[i], fields, comps));
        } else {
            assert(s.push(x)[i] == x);
            assert(export_items(s.push(x), fields, comps)[i] == export_item(x, fields, comps));
        }
    }
    assert(export_items(s.push(x), fields, comps) =~= export_items(s, fields, comps).push(
        export_item(x, fields, comps),
    ));
}

/// The whole document written back from a dictionary: fields, ordinary
/// components, messages, and the header and trailer sections taken from the
/// two synthetic components.
pub open spec fn export_spec(d: DictV) -> RawDocV {
    let nc = d.components.len() as int;
    RawDocV {
        doc_type: d.doc_type,
        major: d.major,
        minor: d.minor,
        servicepack: d.servicepack,
        header: Some(export_items(d.components[nc - 2].layout_items, d.fields, d.components)),
        trailer: Some(export_items(d.components[nc - 1].layout_items, d.fields, d.components)),
        messages: Some(
            d.messages.map_values(
                |m: MessageV| RawMessageV {
                    name: m.name,
                    msgtype: m.msg_type,
                    msgcat: None,
                    items: export_items(m.layout_items, d.fields, d.components),
                },
            ),
        ),
        components: Some(
            Seq::new(
                (nc - 2) as nat,
                |k: int| RawComponentV {
                    name: d.components[k].name,
                    items: export_items(d.components[k].layout_items, d.fields, d.components),
                },
            ),
        ),
        fields: Some(
            d.fields.map_values(
                |f: FieldV| RawFieldV {
                    number: f.tag,
                    name: f.name,
                    datatype: d.datatypes[f.datatype_index].name,
                    values: f.value_restrictions,
                },
            ),
        ),
    }
}

/// Writes one resolved layout back as raw entries.
fn export_layout(
    items: &Vec<LayoutItem>,
    dict: &Dictionary,
) -> (r: Vec<RawItem>)
    requires
        items_wf(items_v(items@), dict@.fields.len() as int, dict@.components.len() as int),
    ensures
        raw_items_v(r@) == export_items(items_v(items@), dict@.fields, dict@.components),
    decreases items,
{
    let ghost iv = items_v(items@);
    proof {
        lemma_items_v_props(items@);
    }
    let mut out: Vec<RawItem> = Vec::new();
    let mut i: usize = 0;
    proof {
        assert(iv.take(0) =~= Seq::<ItemV>::empty());
        assert(raw_items_v(out@) =~= Seq::<RawItemV>::empty());
        assert(export_items(iv.take(0), dict@.fields, dict@.components) =~= Seq::<
            RawItemV,
        >::empty());
    }
    while i < items.len()
        invariant
            i <= items.len(),
            iv == items_v(items@),
            iv.len() == items.len(),
            forall|t: int| 0 <= t < items.len() ==> iv[t] == item_v(#[trigger] items@[t]),
            items_wf(iv, dict@.fields.len() as int, dict@.components.len() as int),
            raw_items_v(out@) == export_items(iv.take(i as int), dict@.fields, dict@.components),
        decreases items.len() - i,
    {
        proof {
            assert(item_wf(iv[i as int], dict@.fields.len() as int, dict@.components.len() as int));
            assert(dict@.fields.len() == dict.fields@.len());
            assert(dict@.components.len() == dict.components@.len());
        }
        let it = &items[i];
        let required_char: char = if it.required {
            'Y'
        } else {
            'N'
        };
        let ri: RawItem = match &it.kind {
            LayoutItemKind::Field(fi) => {
                let ri = RawItem::Field {
                    name: dict.fields[*fi].name.clone(),
                    required: required_char,
                };
                proof {
                    assert(dict@.fields[*fi as int] == dict.fields@[*fi as int]@);
                    assert(crate::raw::raw_item_v(ri) == export_item(
                        iv[i as int],
                        dict@.fields,
                        dict@.components,
                    ));
                }
                ri
            },
            LayoutItemKind::Group { first_field, contents } => {
                let sub = export_layout(contents, dict);
                let ri = RawItem::Group {
                    name: dict.fields[*first_field].name.clone(),
                    required: required_char,
                    items: sub,
                };
                proof {
                    assert(dict@.fields[*first_field as int] == dict.fields@[
                        *first_field as int]@);
                    assert(crate::raw::raw_item_v(ri) == export_item(
                        iv[i as int],
                        dict@.fields,
                        dict@.components,
                    ));
                }
                ri
            },
            LayoutItemKind::Component(ci) => {
                let ri = RawItem::Component {
                    name: dict.components[*ci].name.clone(),
                    required: required_char,
                };
                proof {
                    assert(dict@.components[*ci as int] == dict.components@[*ci as int]@);
                    assert(crate::raw::raw_item_v(ri) == export_item(
                        iv[i as int],
                        dict@.fields,
                        dict@.components,
                    ));
                }
                ri
            },
        };
        let ghost out0 = out@;
        out.push(ri);
        proof {
            lemma_raw_items_v_push(out0, ri);
            assert(out@ =~= out0.push(ri));
            assert(iv.take(i as int + 1) =~= iv.take(i as int).push(iv[i as int]));
            lemma_export_items_push(
                iv.take(i as int),
                iv[i as int],
                dict@.fields,
                dict@.components,
            );
            assert(raw_items_v(out@) =~= export_items(
                iv.take(i as int + 1),
                dict@.fields,
                dict@.components,
            ));
        }
        i += 1;
    }
    proof {
        assert(iv.take(items.len() as int) =~= iv);
    }
    out
}

/// Converting an exported layout back, against the same names, yields the
/// layout it came from.
pub proof fn lemma_convert_export_id(
    items: Seq<ItemV>,
    fields: Seq<FieldV>,
    comps: Seq<ComponentV>,
    bound: int,
)
    requires
        crate::util::names_unique(crate::dict::field_names(fields)),
        crate::util::names_unique(crate::dict::component_names(comps)),
        items_wf(items, fields.len() as int, bound),
        0 <= bound <= comps.len(),
    ensures
        crate::import::spec_convert_items(
            export_items(items, fields, comps),
            crate::dict::field_names(fields),
            crate::dict::component_names(comps).take(bound),
        ) == Some(items),
    decreases items,
{
    let fnames = crate::dict::field_names(fields);
    let cnames = crate::dict::component_names(comps);
    let cn = cnames.take(bound);
    let ex = export_items(items, fields, comps);
    if items.len() == 0 {
        assert(ex =~= Seq::<RawItemV>::empty());
        assert(crate::import::spec_convert_items(ex, fnames, cn) == Some(
            Seq::<ItemV>::empty(),
        ));
        assert(Seq::<ItemV>::empty() =~= items);
    } else {
        let head = items[0];
        let tail = items.drop_first();
        assert(item_wf(head, fields.len() as int, bound));
        assert forall|t: int| 0 <= t < tail.len() implies item_wf(
            #[trigger] tail[t],
            fields.len() as int,
            bound,
        ) by {
            assert(tail[t] == items[t + 1]);
        }
        lemma_convert_export_id(tail, fields, comps, bound);
        assert(ex[0] == export_item(head, fields, comps));
        assert(ex.drop_first() =~= export_items(tail, fields, comps));
        let hconv = crate::import::spec_convert_item(export_item(head, fields, comps), fnames, cn);
        match head {
            ItemV::Field { required, field } => {
                assert(fnames[field] == fields[field].name);
                crate::util::lemma_first_index_unique(fnames, field);
                assert(hconv == Some(head));
            },
            ItemV::Group { required, first_field, contents } => {
                assert(fnames[first_field] == fields[first_field].name);
                crate::util::lemma_first_index_unique(fnames, first_field);
                lemma_convert_export_id(contents, fields, comps, bound);
                assert(hconv == Some(head));
            },
            ItemV::Component { required, component } => {
                assert(cnames[component] == comps[component].name);
                assert(cn[component] == comps[component].name);
                assert forall|j: int| 0 <= j < component implies cn[j] != comps[
                    component].name by {
                    assert(cn[j] == cnames[j]);
                }
                crate::util::lemma_first_index_is(cn, comps[component].name, component);
                assert(hconv == Some(head));
            },
        }
        assert(crate::import::spec_convert_items(ex, fnames, cn) == Some(seq![head] + tail));
        assert(seq![head] + tail =~= items);
    }
}

/// The component references of an exported layout point below the layout's
/// reference bound.
pub proof fn lemma_export_refs_bounded(
    items: Seq<ItemV>,
    fields: Seq<FieldV>,
    comps: Seq<ComponentV>,
    bound: int,
)
    requires
        crate::util::names_unique(crate::dict::component_names(comps)),
        crate::util::names_unique(crate::dict::field_names(fields)),
        items_wf(items, fields.len() as int, bound),
        0 <= bound <= comps.len(),
    ensures
        forall|t: int|
            0 <= t < crate::raw::items_component_refs(export_items(items, fields, comps)).len()
                ==> 0 <= crate::util::first_index(
                crate::dict::component_names(comps),
                #[trigger] crate::raw::items_component_refs(
                    export_items(items, fields, comps),
                )[t],
            ) < bound,
        forall|t: int|
            0 <= t < crate::raw::items_field_refs(export_items(items, fields, comps)).len()
                ==> 0 <= crate::util::first_index(
                crate::dict::field_names(fields),
                #[trigger] crate::raw::items_field_refs(export_items(items, fields, comps))[t],
            ) < fields.len(),
    decreases items,
{
    let cnames = crate::dict::component_names(comps);
    let fnames = crate::dict::field_names(fields);
    let ex = export_items(items, fields, comps);
    if items.len() > 0 {
        let head = items[0];
        let tail = items.drop_first();
        assert(item_wf(head, fields.len() as int, bound));
        assert forall|t: int| 0 <= t < tail.len() implies item_wf(
            #[trigger] tail[t],
            fields.len() as int,
            bound,
        ) by {
            assert(tail[t] == items[t + 1]);
        }
        lemma_export_refs_bounded(tail, fields, comps, bound);
        let exh = export_item(head, fields, comps);
        let ext = export_items(tail, fields, comps);
        assert(ex =~= seq![exh] + ext);
        crate::raw::lemma_component_refs_concat(seq![exh], ext);
        crate::raw::lemma_component_refs_singleton(exh);
        crate::raw::lemma_field_refs_concat(seq![exh], ext);
        crate::raw::lemma_field_refs_singleton(exh);
        let hc = crate::raw::item_component_refs(exh);
        let hf = crate::raw::item_field_refs(exh);
        match head {
            ItemV::Field { field, .. } => {
                assert(fnames[field] == fields[field].name);
                crate::util::lemma_first_index_unique(fnames, field);
            },
            ItemV::Group { first_field, contents, .. } => {
                assert(fnames[first_field] == fields[first_field].name);
                crate::util::lemma_first_index_unique(fnames, first_field);
                lemma_export_refs_bounded(contents, fields, comps, bound);
            },
            ItemV::Component { component, .. } => {
                assert(cnames[component] == comps[component].name);
                crate::util::lemma_first_index_unique(cnames, component);
            },
        }
        assert forall|t: int|
            0 <= t < crate::raw::items_component_refs(ex).len() implies 0
            <= crate::util::first_index(
            cnames,
            #[trigger] crate::raw::items_component_refs(ex)[t],
        ) < bound by {
            if t < hc.len() {
                assert(crate::raw::items_component_refs(ex)[t] == hc[t]);
                match head {
                    ItemV::Component { component, .. } => {
                        assert(hc[t] == comps[component].name);
                    },
                    ItemV::Group { contents, .. } => {
                        assert(hc[t] == crate::raw::items_component_refs(
                            export_items(contents, fields, comps),
                        )[t]);
                    },
                    ItemV::Field { .. } => {
                        assert(false);
                    },
                }
            } else {
                assert(crate::raw::items_component_refs(ex)[t]
                    == crate::raw::items_component_refs(ext)[t - hc.len()]);
            }
        }
        assert forall|t: int|
            0 <= t < crate::raw::items_field_refs(ex).len() implies 0
            <= crate::util::first_index(
            fnames,
            #[trigger] crate::raw::items_field_refs(ex)[t],
        ) < fields.len() by {
            if t < hf.len() {
                assert(crate::raw::items_field_refs(ex)[t] == hf[t]);
                match head {
                    ItemV::Field { field, .. } => {
                        assert(hf[t] == fields[field].name);
                    },
                    ItemV::Group { first_field, contents, .. } => {
                        if t == 0 {
                            assert(hf[0] == fields[first_field].name);
                        } else {
                            assert(hf[t] == crate::raw::items_field_refs(
                                export_items(contents, fields, comps),
                            )[t - 1]);
                        }
                    },
                    ItemV::Component { .. } => {
                        assert(false);
                    },
                }
            } else {
                assert(crate::raw::items_field_refs(ex)[t] == crate::raw::items_field_refs(
                    ext,
                )[t - hf.len()]);
            }
        }
    }
}

/// An exported document imports successfully: all sections are present, its
/// keys are the dictionary's unique keys, its components are already in
/// dependency order, and every reference names an exported entity.
#[verifier::rlimit(100)]
pub proof fn lemma_export_build_ok(d: DictV)
    requires
        dict_wf(d),
        crate::assemble::built_form(d),
    ensures
        crate::assemble::build_ok(export_spec(d)),
        crate::import::is_topo_order(
            crate::import::identity_order(d.components.len() - 2),
            export_spec(d).components.unwrap(),
        ),
{
    let sp = export_spec(d);
    let nc = d.components.len() as int;
    let n2 = nc - 2;
    let cs2 = sp.components.unwrap();
    let fs2 = sp.fields.unwrap();
    let ms2 = sp.messages.unwrap();
    let cn_d = crate::dict::component_names(d.components);
    let fnames_d = crate::dict::field_names(d.fields);
    let cnames2 = crate::import::raw_component_names(cs2);
    assert(cs2.len() == n2);
    assert(fs2.len() == d.fields.len());
    assert(ms2.len() == d.messages.len());
    assert(cnames2 =~= cn_d.take(n2));
    assert(crate::import::raw_field_names(fs2) =~= fnames_d);
    assert(crate::import::raw_field_tags(fs2) =~= crate::dict::field_tags(d.fields));
    assert(crate::import::raw_message_names(ms2) =~= crate::dict::message_names(d.messages));
    assert(crate::import::raw_message_types(ms2) =~= crate::dict::message_types(d.messages));
    // positive and unique keys
    assert forall|i: int| 0 <= i < fs2.len() implies (#[trigger] fs2[i]).number >= 1 by {
        assert(fs2[i].number == d.fields[i].tag);
    }
    assert forall|a: int, b: int| 0 <= a < b < cnames2.len() implies cnames2[a] != cnames2[b]
        by {
        assert(cnames2[a] == cn_d[a]);
        assert(cnames2[b] == cn_d[b]);
    }
    if cnames2.contains("StandardHeader"@) {
        let j = choose|j: int| 0 <= j < cnames2.len() && cnames2[j] == "StandardHeader"@;
        assert(d.components[j].name == "StandardHeader"@);
    }
    if cnames2.contains("StandardTrailer"@) {
        let j = choose|j: int| 0 <= j < cnames2.len() && cnames2[j] == "StandardTrailer"@;
        assert(d.components[j].name == "StandardTrailer"@);
    }
    assert(crate::import::no_duplicate_keys(sp));
    // the identity order is a dependency order
    let idn = crate::import::identity_order(n2);
    assert(idn.len() == n2);
    assert forall|x: int| 0 <= x < n2 implies crate::util::first_index(idn, x) >= 0 by {
        crate::topo::lemma_first_index_identity(n2, x);
    }
    assert forall|k1: int, k2: int| 0 <= k1 < k2 < idn.len() implies idn[k1] != idn[k2] by {
        assert(idn[k1] == k1);
        assert(idn[k2] == k2);
    }
    assert forall|k: int, di: int|
        #![trigger crate::raw::items_component_refs(cs2[idn[k]].items)[di]]
        0 <= k < idn.len() && 0 <= di < crate::raw::items_component_refs(
            cs2[idn[k]].items,
        ).len() implies ({
        let dref = crate::raw::items_component_refs(cs2[idn[k]].items)[di];
        cnames2.contains(dref) ==> 0 <= crate::util::first_index(
            idn,
            crate::util::first_index(cnames2, dref),
        ) < k
    }) by {
        assert(idn[k] == k);
        assert(cs2[k].items == export_items(d.components[k].layout_items, d.fields, d.components));
        assert(items_wf(d.components[k].layout_items, d.fields.len() as int, k));
        lemma_export_refs_bounded(d.components[k].layout_items, d.fields, d.components, k);
        let dref = crate::raw::items_component_refs(cs2[k].items)[di];
        if cnames2.contains(dref) {
            let x = crate::util::first_index(cn_d, dref);
            assert(0 <= x < k);
            crate::util::lemma_first_index(cn_d, dref);
            assert(cn_d[x] == dref);
            assert(cnames2[x] == dref);
            assert forall|j: int| 0 <= j < x implies cnames2[j] != dref by {
                assert(cnames2[j] == cn_d[j]);
            }
            crate::util::lemma_first_index_is(cnames2, dref, x);
            crate::topo::lemma_first_index_identity(n2, x);
        }
    }
    assert(crate::import::is_topo_order(idn, cs2));
    assert(crate::import::acyclic(cs2)) by {
        assert(crate::import::is_topo_order(idn, cs2));
    }
    // every reference is defined
    assert forall|i: int| 0 <= i < cs2.len() implies crate::import::all_in(
        crate::raw::items_field_refs((#[trigger] cs2[i]).items),
        crate::import::raw_field_names(fs2),
    ) && crate::import::all_in(
        crate::raw::items_component_refs(cs2[i].items),
        cnames2,
    ) by {
        assert(cs2[i].items == export_items(d.components[i].layout_items, d.fields, d.components));
        assert(items_wf(d.components[i].layout_items, d.fields.len() as int, i));
        lemma_export_refs_bounded(d.components[i].layout_items, d.fields, d.components, i);
        assert forall|t: int|
            0 <= t < crate::raw::items_field_refs(cs2[i].items).len() implies
            crate::import::raw_field_names(fs2).contains(
            #[trigger] crate::raw::items_field_refs(cs2[i].items)[t],
        ) by {
            let fref = crate::raw::items_field_refs(cs2[i].items)[t];
            let x = crate::util::first_index(fnames_d, fref);
            crate::util::lemma_first_index(fnames_d, fref);
            assert(fnames_d.contains(fref));
        }
        assert forall|t: int|
            0 <= t < crate::raw::items_component_refs(cs2[i].items).len() implies
            cnames2.contains(#[trigger] crate::raw::items_component_refs(cs2[i].items)[t]) by {
            let cref = crate::raw::items_component_refs(cs2[i].items)[t];
            let x = crate::util::first_index(cn_d, cref);
            assert(0 <= x < i);
            crate::util::lemma_first_index(cn_d, cref);
            assert(cnames2[x] == cref);
            assert(cnames2.contains(cref)) by {
                assert(cnames2[x] == cref);
            }
        }
    }
    assert forall|i: int| 0 <= i < ms2.len() implies crate::import::all_in(
        crate::raw::items_field_refs((#[trigger] ms2[i]).items),
        crate::import::raw_field_names(fs2),
    ) && crate::import::all_in(
        crate::raw::items_component_refs(ms2[i].items),
        cnames2,
    ) by {
        assert(ms2[i].items == export_items(d.messages[i].layout_items, d.fields, d.components));
        assert(items_wf(d.messages[i].layout_items, d.fields.len() as int, n2));
        lemma_export_refs_bounded(d.messages[i].layout_items, d.fields, d.components, n2);
        assert forall|t: int|
            0 <= t < crate::raw::items_field_refs(ms2[i].items).len() implies
            crate::import::raw_field_names(fs2).contains(
            #[trigger] crate::raw::items_field_refs(ms2[i].items)[t],
        ) by {
            let fref = crate::raw::items_field_refs(ms2[i].items)[t];
            crate::util::lemma_first_index(fnames_d, fref);
        }
        assert forall|t: int|
            0 <= t < crate::raw::items_component_refs(ms2[i].items).len() implies
            cnames2.contains(#[trigger] crate::raw::items_component_refs(ms2[i].items)[t]) by {
            let cref = crate::raw::items_component_refs(ms2[i].items)[t];
            let x = crate::util::first_index(cn_d, cref);
            assert(0 <= x < n2);
            crate::util::lemma_first_index(cn_d, cref);
            assert(cnames2.contains(cref)) by {
                assert(cnames2[x] == cref);
            }
        }
    }
    // header
    assert(opt_items_sp(sp.header) == export_items(
        d.components[nc - 2].layout_items,
        d.fields,
        d.components,
    ));
    assert(items_wf(d.components[nc - 2].layout_items, d.fields.len() as int, n2));
    lemma_export_refs_bounded(d.components[nc - 2].layout_items, d.fields, d.components, n2);
    assert forall|t: int|
        0 <= t < crate::raw::items_field_refs(sp.header.unwrap()).len() implies
        crate::import::raw_field_names(fs2).contains(
        #[trigger] crate::raw::items_field_refs(sp.header.unwrap())[t],
    ) by {
        let fref = crate::raw::items_field_refs(sp.header.unwrap())[t];
        crate::util::lemma_first_index(fnames_d, fref);
    }
    assert forall|t: int|
        0 <= t < crate::raw::items_component_refs(sp.header.unwrap()).len() implies
        cnames2.contains(
        #[trigger] crate::raw::items_component_refs(sp.header.unwrap())[t],
    ) by {
        let cref = crate::raw::items_component_refs(sp.header.unwrap())[t];
        let x = crate::util::first_index(cn_d, cref);
        assert(0 <= x < n2);
        crate::util::lemma_first_index(cn_d, cref);
        assert(cnames2.contains(cref)) by {
            assert(cnames2[x] == cref);
        }
    }
    // trailer: references may also name the standard header
    assert(items_wf(d.components[nc - 1].layout_items, d.fields.len() as int, n2 + 1));
    lemma_export_refs_bounded(d.components[nc - 1].layout_items, d.fields, d.components, n2 + 1);
    assert forall|t: int|
        0 <= t < crate::raw::items_field_refs(sp.trailer.unwrap()).len() implies
        crate::import::raw_field_names(fs2).contains(
        #[trigger] crate::raw::items_field_refs(sp.trailer.unwrap())[t],
    ) by {
        let fref = crate::raw::items_field_refs(sp.trailer.unwrap())[t];
        crate::util::lemma_first_index(fnames_d, fref);
    }
    assert forall|t: int|
        0 <= t < crate::raw::items_component_refs(sp.trailer.unwrap()).len() implies ({
        let cref = #[trigger] crate::raw::items_component_refs(sp.trailer.unwrap())[t];
        cnames2.contains(cref) || cref == "StandardHeader"@
    }) by {
        let cref = crate::raw::items_component_refs(sp.trailer.unwrap())[t];
        let x = crate::util::first_index(cn_d, cref);
        assert(0 <= x < n2 + 1);
        crate::util::lemma_first_index(cn_d, cref);
        if x < n2 {
            assert(cnames2.contains(cref)) by {
                assert(cnames2[x] == cref);
            }
        } else {
            assert(cn_d[n2] == "StandardHeader"@);
            assert(cref == "StandardHeader"@);
        }
    }
    assert(crate::import::refs_defined(sp));
    assert(crate::assemble::tags_positive(sp));
    assert(crate::assemble::build_ok(sp));
}

/// A helper to spell out an optional section.
pub open spec fn opt_items_sp(o: Option<Seq<RawItemV>>) -> Seq<RawItemV> {
    crate::import::opt_items(o)
}

/// Re-importing an exported document reproduces the dictionary's structure:
/// the same field tags and names, the same message names and msg-type codes,
/// and the same component names with the same resolved layouts.
#[verifier::rlimit(100)]
pub proof fn lemma_reimport_preserves(d: DictV, d2: DictV)
    requires
        dict_wf(d),
        crate::assemble::built_form(d),
        d2.fields == crate::import::built_fields(
            export_spec(d).fields.unwrap(),
            crate::import::datatype_name_list(export_spec(d).fields.unwrap()),
            crate::import::doc_group_starters(export_spec(d)),
        ),
        crate::assemble::components_match(
            d2,
            export_spec(d),
            crate::import::identity_order(d.components.len() - 2),
        ),
        crate::assemble::messages_match(d2, export_spec(d)),
    ensures
        crate::dict::field_names(d2.fields) == crate::dict::field_names(d.fields),
        crate::dict::field_tags(d2.fields) == crate::dict::field_tags(d.fields),
        crate::dict::message_names(d2.messages) == crate::dict::message_names(d.messages),
        crate::dict::message_types(d2.messages) == crate::dict::message_types(d.messages),
        crate::dict::component_names(d2.components) == crate::dict::component_names(d.components),
        d2.components.len() == d.components.len(),
        d2.messages.len() == d.messages.len(),
        forall|k: int|
            0 <= k < d.components.len() ==> (#[trigger] d2.components[k]).layout_items
                == d.components[k].layout_items,
        forall|i: int|
            0 <= i < d.messages.len() ==> (#[trigger] d2.messages[i]).layout_items
                == d.messages[i].layout_items,
{
    let sp = export_spec(d);
    let nc = d.components.len() as int;
    let n2 = nc - 2;
    let cs2 = sp.components.unwrap();
    let fs2 = sp.fields.unwrap();
    let ms2 = sp.messages.unwrap();
    let idn = crate::import::identity_order(n2);
    let cn_d = crate::dict::component_names(d.components);
    let fnames_d = crate::dict::field_names(d.fields);
    crate::import::lemma_built_names(
        fs2,
        crate::import::datatype_name_list(fs2),
        crate::import::doc_group_starters(sp),
    );
    assert(crate::import::raw_field_names(fs2) =~= fnames_d);
    assert(crate::import::raw_field_tags(fs2) =~= crate::dict::field_tags(d.fields));
    assert(crate::dict::field_names(d2.fields) == fnames_d);
    // names coincide position by position
    let fnames2 = crate::dict::field_names(d2.fields);
    let cn2 = crate::dict::component_names(d2.components);
    assert(d2.components.len() == n2 + 2);
    assert forall|k: int| 0 <= k < nc implies #[trigger] cn2[k] == cn_d[k] by {
        if k < n2 {
            assert(idn[k] == k);
            assert(d2.components[k].name == cs2[k].name);
            assert(cs2[k].name == d.components[k].name);
        } else if k == n2 {
            assert(d2.components[k].name == "StandardHeader"@);
            assert(d.components[k].name == "StandardHeader"@);
        } else {
            assert(d2.components[k].name == "StandardTrailer"@);
            assert(d.components[k].name == "StandardTrailer"@);
        }
    }
    assert(cn2 =~= cn_d);
    assert(crate::dict::message_names(d2.messages) =~= crate::dict::message_names(d.messages));
    assert(crate::dict::message_types(d2.messages) =~= crate::dict::message_types(d.messages));
    // layouts reproduce
    assert forall|k: int| 0 <= k < nc implies (#[trigger] d2.components[k]).layout_items
        == d.components[k].layout_items by {
        if k < n2 {
            assert(idn[k] == k);
            assert(d2.components[k].layout_items == crate::import::spec_convert_items(
                cs2[k].items,
                fnames2,
                cn2.take(k),
            ).unwrap());
            assert(cs2[k].items == export_items(
                d.components[k].layout_items,
                d.fields,
                d.components,
            ));
            assert(items_wf(d.components[k].layout_items, d.fields.len() as int, k));
            assert(cn2.take(k) =~= cn_d.take(k));
            lemma_convert_export_id(d.components[k].layout_items, d.fields, d.components, k);
        } else if k == n2 {
            assert(d2.components[k].layout_items == crate::import::spec_convert_items(
                opt_items_sp(sp.header),
                fnames2,
                cn2.take(n2),
            ).unwrap());
            assert(opt_items_sp(sp.header) == export_items(
                d.components[nc - 2].layout_items,
                d.fields,
                d.components,
            ));
            assert(items_wf(d.components[nc - 2].layout_items, d.fields.len() as int, n2));
            assert(cn2.take(n2) =~= cn_d.take(n2));
            lemma_convert_export_id(d.components[nc - 2].layout_items, d.fields, d.components, n2);
        } else {
            assert(d2.components[k].layout_items == crate::import::spec_convert_items(
                opt_items_sp(sp.trailer),
                fnames2,
                cn2.take(n2 + 1),
            ).unwrap());
            assert(opt_items_sp(sp.trailer) == export_items(
                d.components[nc - 1].layout_items,
                d.fields,
                d.components,
            ));
            assert(items_wf(d.components[nc - 1].layout_items, d.fields.len() as int, n2 + 1));
            assert(cn2.take(n2 + 1) =~= cn_d.take(n2 + 1));
            lemma_convert_export_id(
                d.components[nc - 1].layout_items,
                d.fields,
                d.components,
                n2 + 1,
            );
        }
    }
    assert forall|i: int| 0 <= i < d.messages.len() implies (
    #[trigger] d2.messages[i]).layout_items == d.messages[i].layout_items by {
        assert(d2.messages[i].layout_items == crate::import::spec_convert_items(
            ms2[i].items,
            fnames2,
            cn2.take(d2.components.len() - 2),
        ).unwrap());
        assert(ms2[i].items == export_items(d.messages[i].layout_items, d.fields, d.components));
        assert(items_wf(d.messages[i].layout_items, d.fields.len() as int, n2));
        assert(cn2.take(d2.components.len() - 2) =~= cn_d.take(n2));
        lemma_convert_export_id(d.messages[i].layout_items, d.fields, d.components, n2);
    }
}

/// Writes the dictionary back as a raw schema document of the input shape.
/// The header and trailer sections are taken from the synthetic
/// `StandardHeader` and `StandardTrailer` components, which are not listed
/// in the components section again.
pub fn export_document(dict: &Dictionary) -> (r: RawDocument)
    requires
        dict.wf(),
        built_form(dict@),
    ensures
        r@ == export_spec(dict@),
{
    let dv = dict;
    let ghost sp = export_spec(dict@);
    let nc = dict.components.len();
    proof {
        assert(dict@.components.len() == nc);
        assert(nc >= 2);
    }
    // fields
    let ghost fspec = sp.fields.unwrap();
    let mut rfs: Vec<RawField> = Vec::new();
    let mut i: usize = 0;
    proof {
        assert(raw_fields_v(rfs@) =~= fspec.take(0));
        assert(fspec.len() == dict@.fields.len());
    }
    while i < dict.fields.len()
        invariant
            i <= dict.fields.len(),
            dict.wf(),
            fspec == export_spec(dict@).fields.unwrap(),
            fspec.len() == dict.fields.len(),
            dict@.fields.len() == dict.fields.len(),
            raw_fields_v(rfs@) == fspec.take(i as int),
        decreases dict.fields.len() - i,
    {
        let f = &dict.fields[i];
        proof {
            assert(dict@.fields[i as int] == dict.fields@[i as int]@);
            assert(0 <= dict@.fields[i as int].datatype_index < dict@.datatypes.len());
            assert(dict@.datatypes.len() == dict.datatypes@.len());
        }
        let values: Option<Vec<RawFieldEnum>> = match &f.value_restrictions {
            Some(vs) => {
                let mut out: Vec<RawFieldEnum> = Vec::new();
                let mut k: usize = 0;
                proof {
                    assert(crate::raw::raw_enums_v(out@) =~= field_enums_v(vs@.take(0)));
                }
                while k < vs.len()
                    invariant
                        k <= vs.len(),
                        crate::raw::raw_enums_v(out@) == field_enums_v(vs@.take(k as int)),
                    decreases vs.len() - k,
                {
                    let ghost out0 = out@;
                    out.push(
                        RawFieldEnum {
                            value: vs[k].value.clone(),
                            description: vs[k].description.clone(),
                        },
                    );
                    proof {
                        lemma_map_values_push(out0, out@.last(), |e: RawFieldEnum| e@);
                        assert(out@ =~= out0.push(out@.last()));
                        lemma_map_values_push(
                            vs@.take(k as int),
                            vs@[k as int],
                            |e: FieldEnum| e@,
                        );
                        assert(vs@.take(k as int + 1) =~= vs@.take(k as int).push(vs@[k as int]));
                        assert(out@.last()@ =~= vs@[k as int]@);
                        assert(crate::raw::raw_enums_v(out@) =~= field_enums_v(
                            vs@.take(k as int + 1),
                        ));
                    }
                    k += 1;
                }
                proof {
                    assert(vs@.take(vs.len() as int) =~= vs@);
                }
                Some(out)
            },
            None => None,
        };
        let rf = RawField {
            number: f.tag,
            name: f.name.clone(),
            datatype: dict.datatypes[f.datatype_index].name.clone(),
            values,
        };
        proof {
            assert(dict@.datatypes[f.datatype_index as int] == dict.datatypes@[
                f.datatype_index as int]@);
            assert(rf@ =~= fspec[i as int]);
        }
        let ghost rfs0 = rfs@;
        rfs.push(rf);
        proof {
            lemma_map_values_push(rfs0, rfs@.last(), |x: RawField| x@);
            assert(rfs@ =~= rfs0.push(rfs@.last()));
            assert(fspec.take(i as int + 1) =~= fspec.take(i as int).push(fspec[i as int]));
            assert(raw_fields_v(rfs@) =~= fspec.take(i as int + 1));
        }
        i += 1;
    }
    proof {
        assert(fspec.take(dict.fields.len() as int) =~= fspec);
    }
    // ordinary components
    let ghost cspec = sp.components.unwrap();
    let mut rcs: Vec<RawComponent> = Vec::new();
    let mut k2: usize = 0;
    proof {
        assert(raw_components_v(rcs@) =~= cspec.take(0));
        assert(cspec.len() == nc - 2);
    }
    while k2 < nc - 2
        invariant
            k2 <= nc - 2,
            nc == dict.components.len(),
            nc >= 2,
            dict.wf(),
            built_form(dict@),
            cspec == export_spec(dict@).components.unwrap(),
            cspec.len() == nc - 2,
            dict@.components.len() == nc,
            raw_components_v(rcs@) == cspec.take(k2 as int),
        decreases nc - 2 - k2,
    {
        let c = &dict.components[k2];
        proof {
            assert(dict@.components[k2 as int] == dict.components@[k2 as int]@);
            assert(items_wf(
                dict@.components[k2 as int].layout_items,
                dict@.fields.len() as int,
                k2 as int,
            ));
            lemma_items_wf_mono(
                dict@.components[k2 as int].layout_items,
                dict@.fields.len() as int,
                k2 as int,
                dict@.components.len() as int,
            );
        }
        let ritems = export_layout(&c.layout_items, dict);
        let rc = RawComponent { name: c.name.clone(), items: ritems };
        proof {
            assert(rc@ =~= cspec[k2 as int]);
        }
        let ghost rcs0 = rcs@;
        rcs.push(rc);
        proof {
            lemma_map_values_push(rcs0, rcs@.last(), |x: RawComponent| x@);
            assert(rcs@ =~= rcs0.push(rcs@.last()));
            assert(cspec.take(k2 as int + 1) =~= cspec.take(k2 as int).push(cspec[k2 as int]));
            assert(raw_components_v(rcs@) =~= cspec.take(k2 as int + 1));
        }
        k2 += 1;
    }
    proof {
        assert(cspec.take((nc - 2) as int) =~= cspec);
    }
    // messages
    let ghost mspec = sp.messages.unwrap();
    let mut rms: Vec<RawMessage> = Vec::new();
    let mut mi: usize = 0;
    proof {
        assert(raw_messages_v(rms@) =~= mspec.take(0));
        assert(mspec.len() == dict@.messages.len());
    }
    while mi < dict.messages.len()
        invariant
            mi <= dict.messages.len(),
            dict.wf(),
            mspec == export_spec(dict@).messages.unwrap(),
            mspec.len() == dict.messages.len(),
            dict@.messages.len() == dict.messages.len(),
            raw_messages_v(rms@) == mspec.take(mi as int),
        decreases dict.messages.len() - mi,
    {
        let m = &dict.messages[mi];
        proof {
            assert(dict@.messages[mi as int] == dict.messages@[mi as int]@);
            assert(items_wf(
                dict@.messages[mi as int].layout_items,
                dict@.fields.len() as int,
                dict@.components.len() as int,
            ));
        }
        let ritems = export_layout(&m.layout_items, dict);
        let rm = RawMessage {
            name: m.name.clone(),
            msgtype: m.msg_type.clone(),
            msgcat: None,
            items: ritems,
        };
        proof {
            assert(rm@ =~= mspec[mi as int]);
        }
        let ghost rms0 = rms@;
        rms.push(rm);
        proof {
            lemma_map_values_push(rms0, rms@.last(), |x: RawMessage| x@);
            assert(rms@ =~= rms0.push(rms@.last()));
            assert(mspec.take(mi as int + 1) =~= mspec.take(mi as int).push(mspec[mi as int]));
            assert(raw_messages_v(rms@) =~= mspec.take(mi as int + 1));
        }
        mi += 1;
    }
    proof {
        assert(mspec.take(dict.messages.len() as int) =~= mspec);
    }
    // header and trailer from the synthetic components
    proof {
        assert(dict@.components[nc - 2] == dict.components@[nc - 2]@);
        assert(items_wf(
            dict@.components[nc - 2].layout_items,
            dict@.fields.len() as int,
            nc - 2,
        ));
        lemma_items_wf_mono(
            dict@.components[nc - 2].layout_items,
            dict@.fields.len() as int,
            nc - 2,
            dict@.components.len() as int,
        );
        assert(dict@.components[nc - 1] == dict.components@[nc - 1]@);
        assert(items_wf(
            dict@.components[nc - 1].layout_items,
            dict@.fields.len() as int,
            nc - 1,
        ));
        lemma_items_wf_mono(
            dict@.components[nc - 1].layout_items,
            dict@.fields.len() as int,
            nc - 1,
            dict@.components.len() as int,
        );
    }
    let hdr_items = export_layout(&dict.components[nc - 2].layout_items, dict);
    let trl_items = export_layout(&dict.components[nc - 1].layout_items, dict);
    let r = RawDocument {
        doc_type: dict.doc_type.clone(),
        major: dict.major.clone(),
        minor: dict.minor.clone(),
        servicepack: dict.servicepack.clone(),
        header: Some(hdr_items),
        trailer: Some(trl_items),
        messages: Some(rms),
        components: Some(rcs),
        fields: Some(rfs),
    };
    proof {
        assert(r@ =~= sp);
    }
    r
}

} // verus!
