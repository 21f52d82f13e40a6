//! The structural guarantees of an assembled dictionary, stated on their own:
//! no dangling datatype references, no dangling layout references, and
//! dependency-ordered component registration.
//!
//! The round-trip guarantee — exporting a dictionary yields a document that
//! imports again, reproducing the field tags and names, the message names and
//! msg-type codes, and the component names with their resolved layouts — is
//! stated beside the exporter, as [`crate::export::lemma_export_build_ok`]
//! and [`crate::export::lemma_reimport_preserves`].

use vstd::prelude::*;
use crate::dict::{DictV, datatype_names, dict_wf, item_wf, items_wf};
use crate::import::lemma_items_wf_mono;
use crate::types::ItemV;

verus! {

/// Every field's datatype lookup succeeds: for each field, the name of its
/// datatype is found among the dictionary's datatypes, at the very index the
/// field references.
pub proof fn lemma_datatype_lookup_total(d: DictV)
    requires
        dict_wf(d),
    ensures
        forall|i: int|
            0 <= i < d.fields.len() ==> datatype_names(d.datatypes).contains(
                d.datatypes[(#[trigger] d.fields[i]).datatype_index].name,
            ),
{
    assert forall|i: int| 0 <= i < d.fields.len() implies datatype_names(d.datatypes).contains(
        d.datatypes[(#[trigger] d.fields[i]).datatype_index].name,
    ) by {
        let di = d.fields[i].datatype_index;
        assert(datatype_names(d.datatypes)[di] == d.datatypes[di].name);
    }
}

/// The component positions referenced by a layout, at any depth.
pub open spec fn item_component_indices(item: ItemV) -> Seq<int>
    decreases item,
{
    match item {
        ItemV::Field { .. } => Seq::empty(),
        ItemV::Group { contents, .. } => items_component_indices(contents),
        ItemV::Component { component, .. } => seq![component],
    }
}

pub open spec fn items_component_indices(items: Seq<ItemV>) -> Seq<int>
    decreases items,
{
    if items.len() == 0 {
        Seq::empty()
    } else {
        item_component_indices(items[0]) + items_component_indices(items.drop_first())
    }
}

/// A reference-valid layout only mentions component positions below the
/// bound.
proof fn lemma_component_indices_bounded(items: Seq<ItemV>, nfields: int, ncomps: int)
    requires
        items_wf(items, nfields, ncomps),
    ensures
        forall|t: int|
            0 <= t < items_component_indices(items).len() ==> 0 <= #[trigger]
            items_component_indices(items)[t] < ncomps,
    decreases items,
{
    if items.len() > 0 {
        let head = items[0];
        let tail = items.drop_first();
        assert(item_wf(head, nfields, ncomps));
        assert forall|t: int| 0 <= t < tail.len() implies item_wf(
            #[trigger] tail[t],
            nfields,
            ncomps,
        ) by {
            assert(tail[t] == items[t + 1]);
        }
        lemma_component_indices_bounded(tail, nfields, ncomps);
        match head {
            ItemV::Group { contents, .. } => {
                lemma_component_indices_bounded(contents, nfields, ncomps);
            },
            _ => {},
        }
        assert forall|t: int|
            0 <= t < items_component_indices(items).len() implies 0 <= #[trigger]
            items_component_indices(items)[t] < ncomps by {
            let hc = item_component_indices(head);
            if t < hc.len() {
                assert(items_component_indices(items)[t] == hc[t]);
                match head {
                    ItemV::Component { component, .. } => {
                        assert(hc[t] == component);
                    },
                    ItemV::Group { contents, .. } => {
                        assert(hc[t] == items_component_indices(contents)[t]);
                    },
                    ItemV::Field { .. } => {
                        assert(false);
                    },
                }
            } else {
                assert(items_component_indices(items)[t] == items_component_indices(tail)[t
                    - hc.len()]);
            }
        }
    }
}

/// No dangling references are reachable by traversal: every layout entry of
/// every component and every message resolves to a live field or component
/// of the dictionary.
pub proof fn lemma_layout_references_live(d: DictV)
    requires
        dict_wf(d),
    ensures
        forall|ci: int|
            0 <= ci < d.components.len() ==> items_wf(
                (#[trigger] d.components[ci]).layout_items,
                d.fields.len() as int,
                d.components.len() as int,
            ),
        forall|mi: int|
            0 <= mi < d.messages.len() ==> items_wf(
                (#[trigger] d.messages[mi]).layout_items,
                d.fields.len() as int,
                d.components.len() as int,
            ),
{
    assert forall|ci: int| 0 <= ci < d.components.len() implies items_wf(
        (#[trigger] d.components[ci]).layout_items,
        d.fields.len() as int,
        d.components.len() as int,
    ) by {
        assert(items_wf(d.components[ci].layout_items, d.fields.len() as int, ci));
        lemma_items_wf_mono(
            d.components[ci].layout_items,
            d.fields.len() as int,
            ci,
            d.components.len() as int,
        );
    }
}

/// Dependency order: whenever component `C` references component `D` in its
/// layout, `D` stands strictly before `C` in the registration order.
pub proof fn lemma_component_dependency_order(d: DictV)
    requires
        dict_wf(d),
    ensures
        forall|ci: int, t: int|
            #![trigger items_component_indices(d.components[ci].layout_items)[t]]
            0 <= ci < d.components.len() && 0 <= t < items_component_indices(
                d.components[ci].layout_items,
            ).len() ==> 0 <= items_component_indices(d.components[ci].layout_items)[t] < ci,
{
    assert forall|ci: int, t: int|
        #![trigger items_component_indices(d.components[ci].layout_items)[t]]
        0 <= ci < d.components.len() && 0 <= t < items_component_indices(
            d.components[ci].layout_items,
        ).len() implies 0 <= items_component_indices(d.components[ci].layout_items)[t]
        < ci by {
        assert(items_wf(d.components[ci].layout_items, d.fields.len() as int, ci));
        lemma_component_indices_bounded(d.components[ci].layout_items, d.fields.len() as int, ci);
    }
}

} // verus!
