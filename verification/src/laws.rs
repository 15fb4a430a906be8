//! The engine's guarantees, stated and proved over the board model: layer
//! contiguity, monotonic stack growth, the drag cap, and the ban on painting
//! the same column twice in a row within one stroke.

use vstd::prelude::*;

use crate::board::{is_placed_at, is_selector_at, occ_wf, slot_filled, BoardModel, Occupancy};
use crate::events::{
    lemma_step_dom, records_fresh, spec_emits, spec_outcome, spec_run, spec_step, EngineError,
    EventRecord, SpawnCommand, TileEvent,
};
use crate::hex::HexCoordinate;
use vstd::relations::injective_on;
use vstd::set_lib::{lemma_int_range, lemma_map_size, set_int_range};

verus! {

broadcast use vstd::set::group_set_axioms;

/// The entities tracked on the column of hex `h`: the ground selector and the
/// placed tiles.
pub open spec fn column(tiles: Map<u64, Occupancy>, h: HexCoordinate) -> Set<u64> {
    tiles.dom().filter(|e: u64| tiles[e].hex == h)
}

/// The set of layer values recorded on the column of hex `h`.
pub open spec fn column_layers(tiles: Map<u64, Occupancy>, h: HexCoordinate) -> Set<u32> {
    column(tiles, h).map(|e: u64| tiles[e].layer)
}

/// Layer contiguity: on a well-formed board, the layer values of the `n`
/// entities tracked on any hex are pairwise distinct and form exactly the
/// contiguous range `0, 1, ..., n - 1`; because they are distinct, their
/// multiset equals that range as well.
pub proof fn lemma_layer_contiguity(tiles: Map<u64, Occupancy>, h: HexCoordinate)
    requires
        occ_wf(tiles),
    ensures
        column(tiles, h).finite(),
        forall|e1: u64, e2: u64|
            column(tiles, h).contains(e1) && column(tiles, h).contains(e2) && e1 != e2
                ==> (#[trigger] tiles[e1]).layer != (#[trigger] tiles[e2]).layer,
        column_layers(tiles, h) =~= Set::new(
            |l: u32| (l as nat) < column(tiles, h).len(),
        ),
        forall|s: u64|
            is_selector_at(tiles, s, h) ==> (#[trigger] tiles[s]).layer + 1 == column(
                tiles,
                h,
            ).len(),
{
    let col = column(tiles, h);
    let layer_of = |e: u64| tiles[e].layer;
    let layers = column_layers(tiles, h);
    tiles.dom().lemma_len_filter(|e: u64| tiles[e].hex == h);

    // pairwise distinct layers within the column
    assert forall|e1: u64, e2: u64|
        col.contains(e1) && col.contains(e2) && e1 != e2 implies (#[trigger] tiles[e1]).layer
        != (#[trigger] tiles[e2]).layer by {
        if tiles[e1].is_selector && tiles[e2].is_selector {
            assert(is_selector_at(tiles, e1, h) && is_selector_at(tiles, e2, h));
        } else if tiles[e1].is_selector {
            assert(is_selector_at(tiles, e1, tiles[e2].hex));
        } else if tiles[e2].is_selector {
            assert(is_selector_at(tiles, e2, tiles[e1].hex));
        } else {
            if tiles[e1].layer == tiles[e2].layer {
                assert(is_placed_at(tiles, e1, h, tiles[e1].layer));
                assert(is_placed_at(tiles, e2, h, tiles[e1].layer));
            }
        }
    }

    if col.len() == 0 {
        assert(col =~= Set::<u64>::empty()) by {
            vstd::set_lib::lemma_set_empty_equivalency_len(col);
        }
        assert(layers =~= Set::new(|l: u32| (l as nat) < col.len())) by {
            assert(forall|l: u32| !(#[trigger] layers.contains(l)));
        }
        assert forall|s: u64| is_selector_at(tiles, s, h) implies (#[trigger] tiles[s]).layer + 1
            == col.len() by {
            assert(col.contains(s));
        }
    } else {
        // the column has a ground selector; call its layer top
        let e0 = col.choose();
        assert(col.contains(e0));
        assert(exists|s: u64| is_selector_at(tiles, s, tiles[e0].hex));
        let s = choose|s: u64| is_selector_at(tiles, s, tiles[e0].hex);
        assert(col.contains(s));
        let top = tiles[s].layer;

        // the recorded layers are exactly 0 ..= top
        assert forall|l: u32| #[trigger] layers.contains(l) implies l <= top by {
            let e = choose|e: u64| col.contains(e) && layer_of(e) == l;
            if tiles[e].is_selector {
                assert(is_selector_at(tiles, e, h));
            } else {
                assert(is_selector_at(tiles, s, tiles[e].hex));
            }
        }
        assert forall|l: u32| l <= top implies #[trigger] layers.contains(l) by {
            if l == top {
                assert(col.contains(s) && layer_of(s) == l);
            } else {
                assert(slot_filled(tiles, tiles[s].hex, l));
                let e = choose|e: u64| is_placed_at(tiles, e, tiles[s].hex, l);
                assert(col.contains(e) && layer_of(e) == l);
            }
        }

        // counting: the column and its layer range have the same size
        assert(injective_on(layer_of, col));
        assert(col.map(layer_of) == layers);
        lemma_map_size(col, layers, layer_of);
        let as_int = |l: u32| l as int;
        assert(injective_on(as_int, layers));
        assert(layers.map(as_int) =~= set_int_range(0, top + 1)) by {
            assert forall|i: int| 0 <= i < top + 1 implies #[trigger] layers.map(
                as_int,
            ).contains(i) by {
                let l = i as u32;
                assert(layers.contains(l) && as_int(l) == i);
            }
        }
        lemma_map_size(layers, set_int_range(0, top + 1), as_int);
        lemma_int_range(0, top + 1);
        assert(col.len() == top + 1);

        assert(layers =~= Set::new(|l: u32| (l as nat) < col.len()));
        assert forall|s2: u64| is_selector_at(tiles, s2, h) implies (#[trigger] tiles[s2]).layer
            + 1 == col.len() by {
            assert(is_selector_at(tiles, s, h));
            assert(s2 == s);
        }
    }
}

/// Monotonic growth: across any batch of events (with properly allocated
/// fresh entity identifiers), every hex keeps all the entities it had, so no
/// stack ever shrinks: the column of any hex after the batch contains the
/// column before it, and its height is at least the old height.
pub proof fn lemma_monotonic_growth(m: BoardModel, records: Seq<EventRecord>, h: HexCoordinate)
    requires
        m.tiles.dom().finite(),
        records_fresh(m, records),
    ensures
        spec_run(m, records).tiles.dom().finite(),
        column(m.tiles, h).subset_of(column(spec_run(m, records).tiles, h)),
        column(m.tiles, h).len() <= column(spec_run(m, records).tiles, h).len(),
    decreases records.len(),
{
    let end = spec_run(m, records);
    m.tiles.dom().lemma_len_filter(|e: u64| m.tiles[e].hex == h);
    if records.len() == 0 {
        end.tiles.dom().lemma_len_filter(|e: u64| end.tiles[e].hex == h);
        vstd::set_lib::lemma_len_subset(column(m.tiles, h), column(end.tiles, h));
    } else {
        let r = records[0];
        let m1 = spec_step(m, r.event, r.button_held, r.fresh_entity);
        lemma_step_dom(m, r.event, r.button_held, r.fresh_entity);
        assert forall|e: u64| column(m.tiles, h).contains(e) implies column(
            m1.tiles,
            h,
        ).contains(e) by {
            assert(m.tiles.dom().contains(e));
            assert(e != r.fresh_entity);
            assert(m1.tiles.dom().contains(e));
            assert(m1.tiles[e].hex == m.tiles[e].hex);
        }
        assert(records_fresh(m1, records.drop_first())) by {
            assert forall|i: int|
                0 <= i < records.drop_first().len() implies !m1.tiles.dom().contains(
                (#[trigger] records.drop_first()[i]).fresh_entity,
            ) by {
                assert(records.drop_first()[i] == records[i + 1]);
                assert(!m.tiles.dom().contains(records[i + 1].fresh_entity));
                assert(records[i + 1].fresh_entity != r.fresh_entity);
            }
            assert forall|i: int, j: int|
                0 <= i < j < records.drop_first().len() implies records.drop_first()[i].fresh_entity
                != records.drop_first()[j].fresh_entity by {
                assert(records.drop_first()[i] == records[i + 1]);
                assert(records.drop_first()[j] == records[j + 1]);
            }
        }
        lemma_monotonic_growth(m1, records.drop_first(), h);
        assert(spec_run(m1, records.drop_first()) == end);
        vstd::set_lib::lemma_len_subset(column(m.tiles, h), column(end.tiles, h));
    }
}

/// Every successful placement uses the next free slot of its column: on a
/// well-formed board, the layer an emitted spawn command carries is exactly
/// the number of entities already tracked on that hex minus the column's
/// ground selector, so stacks grow one contiguous layer at a time.
pub proof fn lemma_placement_uses_next_slot(
    m: BoardModel,
    event: TileEvent,
    button_held: bool,
    c: SpawnCommand,
)
    requires
        occ_wf(m.tiles),
        spec_emits(m, event, button_held) == Some(c),
    ensures
        c.layer + 1 == column(m.tiles, c.hex).len(),
{
    let t = event.target();
    lemma_layer_contiguity(m.tiles, c.hex);
    assert(is_selector_at(m.tiles, t, c.hex));
}

/// The drag cap: an enter event on a cell whose current layer exceeds the
/// drag's base layer mutates nothing and emits nothing, whatever the button
/// state.
pub proof fn lemma_drag_cap(m: BoardModel, target: u64, button_held: bool, fresh: u64)
    requires
        m.tiles.dom().contains(target),
        m.tiles[target].layer > m.drag_base_layer,
    ensures
        spec_step(m, TileEvent::Enter(target), button_held, fresh) == m,
        spec_emits(m, TileEvent::Enter(target), button_held) is None,
        spec_outcome(m, TileEvent::Enter(target), button_held) == Ok::<
            Option<SpawnCommand>,
            EngineError,
        >(None),
{
}

/// No same-column re-paint: two consecutive enter events whose targets sit on
/// the same hex, with no press in between, place at most one layer; after the
/// first placement the column is the most recently painted hex, so the second
/// enter cannot paint it again.
pub proof fn lemma_no_same_column_repaint(
    m: BoardModel,
    t1: u64,
    t2: u64,
    held1: bool,
    held2: bool,
    f1: u64,
    f2: u64,
)
    requires
        m.tiles.dom().contains(t1),
        m.tiles.dom().contains(t2),
        m.tiles[t1].hex == m.tiles[t2].hex,
        !m.tiles.dom().contains(f1),
    ensures
        !((spec_emits(m, TileEvent::Enter(t1), held1) is Some) && (spec_emits(
            spec_step(m, TileEvent::Enter(t1), held1, f1),
            TileEvent::Enter(t2),
            held2,
        ) is Some)),
{
    if spec_emits(m, TileEvent::Enter(t1), held1) is Some {
        let m1 = spec_step(m, TileEvent::Enter(t1), held1, f1);
        assert(m1.last_painted_hex == m.tiles[t1].hex);
        assert(t2 != f1);
        assert(m1.tiles[t2].hex == m.tiles[t2].hex);
        assert(!crate::events::spec_paints(m1, TileEvent::Enter(t2), held2));
    }
}

} // verus!
