//! The pointer-driven stacking state machine: it consumes per-cell pointer
//! events, decides which of them place a new tile layer, mutates the board
//! accordingly, and emits spawn commands for the rendering layer.

use vstd::prelude::*;

use crate::board::{
    is_placed_at, is_selector_at, occ_wf, slot_filled, BoardModel, BoardState, Occupancy,
    TileVariant,
};
use crate::hex::HexCoordinate;

verus! {

broadcast use vstd::std_specs::hash::group_hash_axioms, vstd::set::group_set_axioms;

/// One raw pointer event, targeting one tracked cell entity.
#[derive(Clone, Copy, Debug, PartialEq, Eq, Structural)]
pub enum TileEvent {
    /// The pointer moved onto the cell.
    Enter(u64),
    /// The pointer moved off the cell.
    Leave(u64),
    /// The primary button was pressed on the cell.
    Press(u64),
    /// The primary button was released on the cell.
    Release(u64),
}

impl TileEvent {
    /// The entity the event targets.
    pub open spec fn target(self) -> u64 {
        match self {
            TileEvent::Enter(t) => t,
            TileEvent::Leave(t) => t,
            TileEvent::Press(t) => t,
            TileEvent::Release(t) => t,
        }
    }
}

/// An instruction to the rendering layer: materialize one tile of `variant`
/// at height `layer` on the column of `hex`.
#[derive(Clone, Copy, Debug, PartialEq, Eq, Structural)]
pub struct SpawnCommand {
    pub hex: HexCoordinate,
    pub layer: u32,
    pub variant: TileVariant,
}

/// A programming-contract violation surfaced by event handling. Either kind
/// is fatal to the offending event and leaves the board untouched; later
/// events are still processed.
#[derive(Clone, Copy, Debug, PartialEq, Eq, Structural)]
pub enum EngineError {
    /// The event references an entity absent from the occupancy table: the
    /// spawn layer produced an entity never registered with the board.
    UnknownEntity,
    /// The internal consistency check of the place-layer procedure failed:
    /// the paint target is not a ground selector, so placing at its stored
    /// layer would break the contiguous-layer invariant.
    InvariantViolation,
}

/// Whether the event is a paint trigger on board `m`: a press on a tracked
/// entity always is; an enter while the button is held is one exactly when
/// the target's hex differs from the most recently painted hex and the
/// target's layer does not exceed the drag's base layer. Leaves, releases and
/// unheld enters never paint.
pub open spec fn spec_paints(m: BoardModel, event: TileEvent, button_held: bool) -> bool {
    match event {
        TileEvent::Press(t) => m.tiles.dom().contains(t),
        TileEvent::Enter(t) => m.tiles.dom().contains(t) && button_held && m.tiles[t].hex
            != m.last_painted_hex && m.tiles[t].layer <= m.drag_base_layer,
        _ => false,
    }
}

/// Whether the place-layer procedure's internal consistency check rejects the
/// event: it would paint, but its target is not a ground selector.
pub open spec fn spec_faults(m: BoardModel, event: TileEvent, button_held: bool) -> bool {
    spec_paints(m, event, button_held) && !m.tiles[event.target()].is_selector
}

/// The board after reseeding the drag base: a press records its target's
/// current layer as the base of the new drag gesture; other events leave it.
pub open spec fn spec_reseed(m: BoardModel, event: TileEvent) -> BoardModel {
    match event {
        TileEvent::Press(t) => BoardModel { drag_base_layer: m.tiles[t].layer, ..m },
        _ => m,
    }
}

/// The place-layer procedure on the model: the fresh entity becomes a placed
/// tile at the target selector's pre-increment layer, the selector's layer
/// advances to the column's next free slot, and the target's hex is recorded
/// as the most recently painted hex.
pub open spec fn spec_place_layer(m: BoardModel, t: u64, fresh: u64) -> BoardModel {
    let occ = m.tiles[t];
    BoardModel {
        tiles: m.tiles.insert(
            fresh,
            Occupancy { hex: occ.hex, layer: occ.layer, is_selector: false },
        ).insert(t, Occupancy { hex: occ.hex, layer: (occ.layer + 1) as u32, is_selector: true }),
        last_painted_hex: occ.hex,
        ..m
    }
}

/// The board after one event: unchanged unless the event paints and passes
/// the consistency check, in which case the drag base is reseeded (for a
/// press) and a layer is placed on the target's column.
pub open spec fn spec_step(m: BoardModel, event: TileEvent, button_held: bool, fresh: u64) -> BoardModel {
    if spec_paints(m, event, button_held) && !spec_faults(m, event, button_held) {
        spec_place_layer(spec_reseed(m, event), event.target(), fresh)
    } else {
        m
    }
}

/// The spawn command one event emits: for a successful paint, the target's
/// hex and pre-increment layer with the currently selected variant; `None`
/// otherwise.
pub open spec fn spec_emits(m: BoardModel, event: TileEvent, button_held: bool) -> Option<
    SpawnCommand,
> {
    if spec_paints(m, event, button_held) && !spec_faults(m, event, button_held) {
        let occ = m.tiles[event.target()];
        Some(SpawnCommand { hex: occ.hex, layer: occ.layer, variant: m.current_variant })
    } else {
        None
    }
}

/// The full outcome of one event: an error for an unknown target or a failed
/// consistency check, otherwise the emitted spawn command, if any.
pub open spec fn spec_outcome(m: BoardModel, event: TileEvent, button_held: bool) -> Result<
    Option<SpawnCommand>,
    EngineError,
> {
    if !m.tiles.dom().contains(event.target()) {
        Err(EngineError::UnknownEntity)
    } else if spec_faults(m, event, button_held) {
        Err(EngineError::InvariantViolation)
    } else {
        Ok(spec_emits(m, event, button_held))
    }
}

/// One entry of a per-tick event batch: the event, whether the primary
/// button is held as the event arrives, and the entity identifier the caller
/// has allocated for the tile this event would place.
#[derive(Clone, Copy, Debug, PartialEq, Eq, Structural)]
pub struct EventRecord {
    pub event: TileEvent,
    pub button_held: bool,
    pub fresh_entity: u64,
}

/// The board after a batch of events, processed strictly in arrival order.
pub open spec fn spec_run(m: BoardModel, records: Seq<EventRecord>) -> BoardModel
    decreases records.len(),
{
    if records.len() == 0 {
        m
    } else {
        spec_run(
            spec_step(m, records[0].event, records[0].button_held, records[0].fresh_entity),
            records.drop_first(),
        )
    }
}

/// The spawn commands a batch emits, in arrival order; events that do not
/// paint, and events that fail, emit nothing.
pub open spec fn spec_run_commands(m: BoardModel, records: Seq<EventRecord>) -> Seq<SpawnCommand>
    decreases records.len(),
{
    if records.len() == 0 {
        Seq::empty()
    } else {
        let rest = spec_run_commands(
            spec_step(m, records[0].event, records[0].button_held, records[0].fresh_entity),
            records.drop_first(),
        );
        match spec_emits(m, records[0].event, records[0].button_held) {
            Some(c) => seq![c] + rest,
            None => rest,
        }
    }
}

/// The freshness contract of a batch: every allocated entity identifier is
/// untracked on the starting board, and no two records share one.
pub open spec fn records_fresh(m: BoardModel, records: Seq<EventRecord>) -> bool {
    &&& forall|i: int|
        0 <= i < records.len() ==> !m.tiles.dom().contains(
            (#[trigger] records[i]).fresh_entity,
        )
    &&& forall|i: int, j: int|
        0 <= i < j < records.len() ==> records[i].fresh_entity != records[j].fresh_entity
}

/// One step adds at most the fresh entity to the occupancy table and removes
/// nothing from it.
pub proof fn lemma_step_dom(m: BoardModel, event: TileEvent, button_held: bool, fresh: u64)
    ensures
        spec_step(m, event, button_held, fresh).tiles.dom().subset_of(
            m.tiles.dom().insert(fresh),
        ),
        m.tiles.dom().subset_of(spec_step(m, event, button_held, fresh).tiles.dom()),
        m.tiles.dom().finite() ==> spec_step(m, event, button_held, fresh).tiles.dom().finite(),
        m.tiles.dom().finite() ==> spec_step(m, event, button_held, fresh).tiles.dom().len()
            <= m.tiles.dom().len() + 1,
{
    if spec_paints(m, event, button_held) && !spec_faults(m, event, button_held) {
        assert(spec_step(m, event, button_held, fresh).tiles.dom() =~= m.tiles.dom().insert(
            fresh,
        ));
    }
}

/// Extending a batch by one record at its end runs the batch and then steps
/// once more.
pub proof fn lemma_run_snoc(m: BoardModel, records: Seq<EventRecord>, r: EventRecord)
    ensures
        spec_run(m, records.push(r)) == spec_step(
            spec_run(m, records),
            r.event,
            r.button_held,
            r.fresh_entity,
        ),
        spec_run_commands(m, records.push(r)) == spec_run_commands(m, records) + match spec_emits(
            spec_run(m, records),
            r.event,
            r.button_held,
        ) {
            Some(c) => seq![c],
            None => Seq::<SpawnCommand>::empty(),
        },
    decreases records.len(),
{
    let snoc = records.push(r);
    let stepped = spec_step(m, r.event, r.button_held, r.fresh_entity);
    let tail_commands = (match spec_emits(spec_run(m, records), r.event, r.button_held) {
        Some(c) => seq![c],
        None => Seq::<SpawnCommand>::empty(),
    });
    if records.len() == 0 {
        assert(snoc[0] == r);
        assert(snoc.drop_first() =~= records);
        assert(spec_run(m, records) == m);
        assert(spec_run_commands(m, records) == Seq::<SpawnCommand>::empty());
        assert(spec_run(m, snoc) == spec_run(stepped, records));
        assert(spec_run(stepped, records) == stepped);
        assert(spec_run_commands(m, snoc) == (match spec_emits(m, r.event, r.button_held) {
            Some(c) => seq![c] + spec_run_commands(stepped, records),
            None => spec_run_commands(stepped, records),
        }));
        assert(spec_run_commands(stepped, records) == Seq::<SpawnCommand>::empty());
        assert(spec_run_commands(m, snoc) =~= spec_run_commands(m, records) + tail_commands);
    } else {
        let m1 = spec_step(m, records[0].event, records[0].button_held, records[0].fresh_entity);
        assert(snoc[0] == records[0]);
        assert(snoc.drop_first() =~= records.drop_first().push(r));
        lemma_run_snoc(m1, records.drop_first(), r);
        assert(spec_run(m, snoc) == spec_run(m1, records.drop_first().push(r)));
        assert(spec_run(m, records) == spec_run(m1, records.drop_first()));
        assert(spec_run_commands(m, snoc) == (match spec_emits(m, records[0].event, records[0].button_held) {
            Some(c) => seq![c] + spec_run_commands(m1, records.drop_first().push(r)),
            None => spec_run_commands(m1, records.drop_first().push(r)),
        }));
        assert(spec_run_commands(m, records) == (match spec_emits(m, records[0].event, records[0].button_held) {
            Some(c) => seq![c] + spec_run_commands(m1, records.drop_first()),
            None => spec_run_commands(m1, records.drop_first()),
        }));
        assert(spec_run_commands(m, snoc) =~= spec_run_commands(m, records) + tail_commands);
    }
}

/// Placing a layer on a ground selector preserves the board invariant.
proof fn lemma_place_layer_preserves_wf(tiles: Map<u64, Occupancy>, t: u64, fresh: u64)
    requires
        occ_wf(tiles),
        tiles.dom().contains(t),
        tiles[t].is_selector,
        !tiles.dom().contains(fresh),
        tiles.dom().len() <= u32::MAX,
    ensures
        occ_wf(
            tiles.insert(
                fresh,
                Occupancy { hex: tiles[t].hex, layer: tiles[t].layer, is_selector: false },
            ).insert(
                t,
                Occupancy {
                    hex: tiles[t].hex,
                    layer: (tiles[t].layer + 1) as u32,
                    is_selector: true,
                },
            ),
        ),
{
    let h0 = tiles[t].hex;
    let base = tiles[t].layer;
    let fresh_occ = Occupancy { hex: h0, layer: base, is_selector: false };
    let sel_occ = Occupancy { hex: h0, layer: (base + 1) as u32, is_selector: true };
    let next = tiles.insert(fresh, fresh_occ).insert(t, sel_occ);
    assert(base < tiles.dom().len());
    assert(next.dom() =~= tiles.dom().insert(fresh));
    assert(next.dom().len() == tiles.dom().len() + 1);
    assert(forall|e: u64|
        tiles.dom().contains(e) && e != t && e != fresh ==> next[e] == tiles[e]);

    // every stored layer stays below the (grown) table size
    assert forall|e: u64| #[trigger] next.dom().contains(e) implies (next[e].layer as nat)
        < next.dom().len() by {
        if e != t && e != fresh {
            assert(tiles.dom().contains(e));
        }
    }
    // the target is still the unique selector of its column, and no other
    // column's selectors changed
    assert forall|s1: u64, s2: u64, h: HexCoordinate|
        is_selector_at(next, s1, h) && is_selector_at(next, s2, h) implies s1 == s2 by {
        assert(s1 != fresh && s2 != fresh);
        assert(is_selector_at(tiles, if s1 == t { t } else { s1 }, h));
        assert(is_selector_at(tiles, if s2 == t { t } else { s2 }, h));
    }
    // every tracked entity's column still has a selector
    assert forall|e: u64| #[trigger] next.dom().contains(e) implies exists|s: u64|
        is_selector_at(next, s, next[e].hex) by {
        if e == t || e == fresh {
            assert(next[e].hex == h0);
            assert(is_selector_at(next, t, next[e].hex));
        } else {
            assert(tiles.dom().contains(e));
            assert(exists|s: u64| is_selector_at(tiles, s, tiles[e].hex));
            let s = choose|s: u64| is_selector_at(tiles, s, tiles[e].hex);
            assert(next[e] == tiles[e]);
            if s == t {
                assert(tiles[t].hex == h0);
                assert(next[e].hex == h0);
                assert(is_selector_at(next, t, next[e].hex));
            } else {
                assert(s != fresh);
                assert(next[s] == tiles[s]);
                assert(is_selector_at(next, s, next[e].hex));
            }
        }
    }
    // placed tiles still sit strictly below their column's selector
    assert forall|e: u64, s: u64|
        next.dom().contains(e) && !next[e].is_selector && #[trigger] is_selector_at(
            next,
            s,
            next[e].hex,
        ) implies next[e].layer < next[s].layer by {
        if e == fresh {
            assert(is_selector_at(tiles, t, h0));
            assert(s == t) by {
                if s != t {
                    assert(is_selector_at(tiles, s, h0));
                }
            }
        } else {
            assert(tiles.dom().contains(e) && !tiles[e].is_selector);
            if s == t {
                assert(is_selector_at(tiles, t, tiles[e].hex));
            } else {
                assert(is_selector_at(tiles, s, tiles[e].hex));
            }
        }
    }
    // no two placed tiles share a slot: the fresh tile takes the previously
    // free slot at the top of its column
    assert forall|e1: u64, e2: u64, h: HexCoordinate, l: u32|
        is_placed_at(next, e1, h, l) && is_placed_at(next, e2, h, l) implies e1 == e2 by {
        assert(e1 != t && e2 != t);
        if e1 == fresh && e2 != fresh {
            assert(is_placed_at(tiles, e2, h0, base));
            assert(is_selector_at(tiles, t, h0));
        } else if e2 == fresh && e1 != fresh {
            assert(is_placed_at(tiles, e1, h0, base));
            assert(is_selector_at(tiles, t, h0));
        } else if e1 != fresh && e2 != fresh {
            assert(is_placed_at(tiles, e1, h, l) && is_placed_at(tiles, e2, h, l));
        }
    }
    // every height below a selector's layer is still filled
    assert forall|s: u64, l: u32|
        next.dom().contains(s) && next[s].is_selector && l < next[s].layer implies #[trigger] slot_filled(
        next,
        next[s].hex,
        l,
    ) by {
        if s == t {
            if l == base {
                assert(is_placed_at(next, fresh, h0, base));
            } else {
                assert(l < base);
                assert(slot_filled(tiles, h0, l));
                let e = choose|e: u64| is_placed_at(tiles, e, h0, l);
                assert(is_placed_at(next, e, h0, l));
            }
        } else {
            assert(tiles.dom().contains(s) && tiles[s].is_selector);
            assert(slot_filled(tiles, tiles[s].hex, l));
            let e = choose|e: u64| is_placed_at(tiles, e, tiles[s].hex, l);
            assert(is_placed_at(next, e, next[s].hex, l));
        }
    }
}

impl BoardState {
    /// The shared place-layer procedure: registers `fresh` as a placed tile
    /// at the target selector's pre-increment layer, advances the selector's
    /// layer, records the column as the most recently painted hex, and
    /// returns the spawn command for the rendering layer.
    fn place_layer_on(&mut self, target: u64, fresh: u64) -> (command: SpawnCommand)
        requires
            old(self).wf(),
            old(self)@.tiles.dom().contains(target),
            old(self)@.tiles[target].is_selector,
            !old(self)@.tiles.dom().contains(fresh),
            old(self)@.tiles.dom().len() <= u32::MAX,
        ensures
            final(self).wf(),
            final(self)@ == spec_place_layer(old(self)@, target, fresh),
            command == (SpawnCommand {
                hex: old(self)@.tiles[target].hex,
                layer: old(self)@.tiles[target].layer,
                variant: old(self)@.current_variant,
            }),
    {
        let occ = match self.occupancy_of(target) {
            Some(occ) => occ,
            None => unreached(),
        };
        assert(occ.layer < u32::MAX);
        self.tiles_insert(fresh, Occupancy { hex: occ.hex, layer: occ.layer, is_selector: false });
        self.tiles_insert(
            target,
            Occupancy { hex: occ.hex, layer: occ.layer + 1, is_selector: true },
        );
        self.set_last_painted(occ.hex);
        proof {
            lemma_place_layer_preserves_wf(old(self)@.tiles, target, fresh);
        }
        SpawnCommand { hex: occ.hex, layer: occ.layer, variant: self.current_variant() }
    }

    /// Processes one pointer event against the board, in arrival order.
    ///
    /// A press on a tracked entity reseeds the drag base layer and always
    /// paints; an enter paints only while the button is held, on a column
    /// other than the last painted one, and at a layer no higher than the
    /// drag base; leaves and releases never mutate the board. A successful
    /// paint registers `fresh` (a caller-allocated, previously untracked
    /// entity identifier) as the placed tile and returns the spawn command
    /// for the rendering layer. An event targeting an unknown entity, or a
    /// paint whose target fails the internal consistency check, returns an
    /// error and leaves the board unchanged.
    pub fn handle_event(&mut self, event: TileEvent, button_held: bool, fresh: u64) -> (outcome:
        Result<Option<SpawnCommand>, EngineError>)
        requires
            old(self).wf(),
            !old(self)@.tiles.dom().contains(fresh),
            old(self)@.tiles.dom().len() <= u32::MAX,
        ensures
            final(self).wf(),
            final(self)@ == spec_step(old(self)@, event, button_held, fresh),
            outcome == spec_outcome(old(self)@, event, button_held),
    {
        let target = match event {
            TileEvent::Enter(t) => t,
            TileEvent::Leave(t) => t,
            TileEvent::Press(t) => t,
            TileEvent::Release(t) => t,
        };
        let occ = match self.occupancy_of(target) {
            Some(occ) => occ,
            None => {
                return Err(EngineError::UnknownEntity);
            },
        };
        match event {
            TileEvent::Press(_) => {
                if !occ.is_selector {
                    return Err(EngineError::InvariantViolation);
                }
                self.set_drag_base(occ.layer);
                let command = self.place_layer_on(target, fresh);
                Ok(Some(command))
            },
            TileEvent::Enter(_) => {
                let last = self.last_painted_hex();
                let base = self.drag_base_layer();
                if button_held && occ.hex != last && occ.layer <= base {
                    if !occ.is_selector {
                        return Err(EngineError::InvariantViolation);
                    }
                    let command = self.place_layer_on(target, fresh);
                    Ok(Some(command))
                } else {
                    Ok(None)
                }
            },
            TileEvent::Leave(_) | TileEvent::Release(_) => Ok(None),
        }
    }

    /// Drains one tick's worth of accumulated pointer events, strictly in
    /// arrival order, and returns the spawn commands the tick emits for the
    /// rendering layer. Events that fail their consistency checks leave the
    /// board untouched and emit nothing; later events are still processed.
    /// Each record must carry a distinct, untracked fresh entity identifier,
    /// and the table must have room for one entity per record.
    pub fn handle_batch(&mut self, records: &Vec<EventRecord>) -> (commands: Vec<SpawnCommand>)
        requires
            old(self).wf(),
            records_fresh(old(self)@, records@),
            old(self)@.tiles.dom().len() + records@.len() <= u32::MAX,
        ensures
            final(self).wf(),
            final(self)@ == spec_run(old(self)@, records@),
            commands@ == spec_run_commands(old(self)@, records@),
    {
        let ghost m0 = self@;
        let mut commands: Vec<SpawnCommand> = Vec::new();
        let mut i: usize = 0;
        while i < records.len()
            invariant
                i <= records@.len(),
                self.wf(),
                records_fresh(old(self)@, records@),
                old(self)@.tiles.dom().len() + records@.len() <= u32::MAX,
                m0 == old(self)@,
                self@ == spec_run(m0, records@.take(i as int)),
                commands@ == spec_run_commands(m0, records@.take(i as int)),
                self@.tiles.dom().subset_of(
                    m0.tiles.dom() + Set::new(
                        |e: u64| exists|j: int| 0 <= j < i && (#[trigger] records@[j]).fresh_entity == e,
                    ),
                ),
                self@.tiles.dom().len() + (records@.len() - i) <= u32::MAX,
            decreases records@.len() - i,
        {
            let record = records[i];
            proof {
                assert(!self@.tiles.dom().contains(record.fresh_entity));
            }
            let outcome = self.handle_event(record.event, record.button_held, record.fresh_entity);
            if let Ok(Some(command)) = outcome {
                commands.push(command);
            }
            proof {
                lemma_step_dom(
                    spec_run(m0, records@.take(i as int)),
                    record.event,
                    record.button_held,
                    record.fresh_entity,
                );
                assert(records@.take(i as int + 1) =~= records@.take(i as int).push(record));
                lemma_run_snoc(m0, records@.take(i as int), record);
                assert(self@ == spec_run(m0, records@.take(i as int + 1)));
                assert(commands@ == spec_run_commands(m0, records@.take(i as int + 1)));
            }
            i = i + 1;
        }
        proof {
            assert(records@.take(records@.len() as int) =~= records@);
        }
        commands
    }

    /// Whether a pointer event should be forwarded to the hover-highlight
    /// layer: presses and releases always are; enters and leaves only while
    /// the primary button is not held, so that hover feedback never fires in
    /// the middle of a drag stroke.
    pub fn updates_highlight(event: TileEvent, button_held: bool) -> (forward: bool)
        ensures
            forward == match event {
                TileEvent::Enter(_) | TileEvent::Leave(_) => !button_held,
                TileEvent::Press(_) | TileEvent::Release(_) => true,
            },
    {
        match event {
            TileEvent::Enter(_) | TileEvent::Leave(_) => !button_held,
            TileEvent::Press(_) | TileEvent::Release(_) => true,
        }
    }
}

} // verus!

