//! Scenario and property tests for the tile-stacking engine, driven through
//! its public surface.

use hexstack::board::{BoardState, Occupancy, TileVariant};
use hexstack::events::{EngineError, EventRecord, SpawnCommand, TileEvent};
use hexstack::hex::HexCoordinate;

/// The entity currently tracked as the ground selector of `(q, r)`.
fn selector_at(board: &BoardState, q: i32, r: i32) -> u64 {
    let hex = HexCoordinate { q, r };
    for e in 0..board.entity_count() as u64 {
        if let Some(occ) = board.occupancy_of(e) {
            if occ.hex == hex && occ.is_selector {
                return e;
            }
        }
    }
    panic!("no selector tracked at ({}, {})", q, r);
}

/// All occupancies tracked for entities `0 .. limit`.
fn occupancies(board: &BoardState, limit: u64) -> Vec<(u64, Occupancy)> {
    let mut out = Vec::new();
    for e in 0..limit {
        if let Some(occ) = board.occupancy_of(e) {
            out.push((e, occ));
        }
    }
    out
}

/// The number of entities tracked on the column of `(q, r)`.
fn column_height(board: &BoardState, q: i32, r: i32, limit: u64) -> usize {
    occupancies(board, limit)
        .iter()
        .filter(|(_, occ)| occ.hex == (HexCoordinate { q, r }))
        .count()
}

#[test]
fn setup_radius_two_matches_formula() {
    let board = BoardState::initialize(2);
    assert_eq!(board.entity_count(), 19);
    for e in 0..19u64 {
        let occ = board.occupancy_of(e).expect("selector entity must be tracked");
        assert_eq!(occ.layer, 0);
        assert!(occ.is_selector);
    }
    assert!(board.occupancy_of(19).is_none());
}

#[test]
fn setup_radius_two_covers_each_cell_once() {
    let board = BoardState::initialize(2);
    let mut seen: Vec<HexCoordinate> = Vec::new();
    for e in 0..19u64 {
        let occ = board.occupancy_of(e).unwrap();
        assert!(!seen.contains(&occ.hex), "hex tracked twice");
        seen.push(occ.hex);
    }
    let expected: Vec<hexx::Hex> = hexx::shapes::hexagon(hexx::Hex::ZERO, 2).collect();
    assert_eq!(expected.len(), 19);
    for hex in expected {
        let c = HexCoordinate { q: hex.x, r: hex.y };
        assert!(seen.contains(&c), "cell of the radius-2 hexagon missing");
    }
}

#[test]
fn setup_radius_one_cells_are_the_seven_expected() {
    let board = BoardState::initialize(1);
    assert_eq!(board.entity_count(), 7);
    let expected = [(0, 0), (1, 0), (0, 1), (-1, 1), (-1, 0), (0, -1), (1, -1)];
    for (q, r) in expected {
        selector_at(&board, q, r);
    }
}

#[test]
fn setup_defaults() {
    let board = BoardState::initialize(1);
    assert_eq!(board.current_variant(), TileVariant::Purple);
    assert_eq!(board.last_painted_hex(), HexCoordinate { q: 0, r: 0 });
    assert_eq!(board.drag_base_layer(), 0);
    assert_eq!(TileVariant::default(), TileVariant::Purple);
}

#[test]
fn scenario_press_places_first_layer() {
    let mut board = BoardState::initialize(1);
    let e0 = selector_at(&board, 0, 0);
    let outcome = board.handle_event(TileEvent::Press(e0), false, 7);
    assert_eq!(
        outcome,
        Ok(Some(SpawnCommand {
            hex: HexCoordinate { q: 0, r: 0 },
            layer: 0,
            variant: TileVariant::Purple,
        }))
    );
    let placed = board.occupancy_of(7).expect("placed tile must be tracked");
    assert_eq!(placed.hex, HexCoordinate { q: 0, r: 0 });
    assert_eq!(placed.layer, 0);
    assert!(!placed.is_selector);
    let sel = board.occupancy_of(e0).unwrap();
    assert_eq!(sel.layer, 1);
    assert!(sel.is_selector);
    assert_eq!(board.drag_base_layer(), 0);
    assert_eq!(board.last_painted_hex(), HexCoordinate { q: 0, r: 0 });
}

#[test]
fn scenario_drag_enter_paints_other_column() {
    let mut board = BoardState::initialize(1);
    let e0 = selector_at(&board, 0, 0);
    let e2 = selector_at(&board, 1, 0);
    board.handle_event(TileEvent::Press(e0), true, 7).unwrap();
    let outcome = board.handle_event(TileEvent::Enter(e2), true, 8);
    assert_eq!(
        outcome,
        Ok(Some(SpawnCommand {
            hex: HexCoordinate { q: 1, r: 0 },
            layer: 0,
            variant: TileVariant::Purple,
        }))
    );
    assert_eq!(board.last_painted_hex(), HexCoordinate { q: 1, r: 0 });
    assert_eq!(board.occupancy_of(e2).unwrap().layer, 1);
}

#[test]
fn scenario_drag_cap_blocks_grown_column() {
    let mut board = BoardState::initialize(1);
    let e0 = selector_at(&board, 0, 0);
    let e2 = selector_at(&board, 1, 0);
    board.handle_event(TileEvent::Press(e0), true, 7).unwrap();
    board.handle_event(TileEvent::Enter(e2), true, 8).unwrap();
    // e0's column has grown past the stroke's starting height
    let before = occupancies(&board, 16);
    let outcome = board.handle_event(TileEvent::Enter(e0), true, 9);
    assert_eq!(outcome, Ok(None));
    assert_eq!(occupancies(&board, 16), before);
    assert_eq!(board.last_painted_hex(), HexCoordinate { q: 1, r: 0 });
}

#[test]
fn scenario_release_and_new_press_reseed_drag_base() {
    let mut board = BoardState::initialize(1);
    let e0 = selector_at(&board, 0, 0);
    let e2 = selector_at(&board, 1, 0);
    board.handle_event(TileEvent::Press(e0), true, 7).unwrap();
    board.handle_event(TileEvent::Enter(e2), true, 8).unwrap();
    assert_eq!(board.handle_event(TileEvent::Release(e2), false, 9), Ok(None));
    let outcome = board.handle_event(TileEvent::Press(e0), true, 9);
    assert_eq!(
        outcome,
        Ok(Some(SpawnCommand {
            hex: HexCoordinate { q: 0, r: 0 },
            layer: 1,
            variant: TileVariant::Purple,
        }))
    );
    assert_eq!(board.drag_base_layer(), 1);
    // a column at layer 1 is now within the drag cap again
    let outcome = board.handle_event(TileEvent::Enter(e2), true, 10);
    assert_eq!(
        outcome,
        Ok(Some(SpawnCommand {
            hex: HexCoordinate { q: 1, r: 0 },
            layer: 1,
            variant: TileVariant::Purple,
        }))
    );
}

#[test]
fn layers_stay_contiguous_after_paints() {
    let mut board = BoardState::initialize(1);
    let e0 = selector_at(&board, 0, 0);
    let e2 = selector_at(&board, 1, 0);
    let mut fresh = 7u64;
    for _ in 0..3 {
        board.handle_event(TileEvent::Press(e0), true, fresh).unwrap();
        fresh += 1;
        board.handle_event(TileEvent::Enter(e2), true, fresh).unwrap();
        fresh += 1;
    }
    for (q, r) in [(0, 0), (1, 0), (0, 1)] {
        let hex = HexCoordinate { q, r };
        let mut layers: Vec<u32> = occupancies(&board, fresh)
            .iter()
            .filter(|(_, occ)| occ.hex == hex)
            .map(|(_, occ)| occ.layer)
            .collect();
        layers.sort();
        let expected: Vec<u32> = (0..layers.len() as u32).collect();
        assert_eq!(layers, expected, "layers on ({}, {}) not contiguous", q, r);
    }
}

#[test]
fn stack_heights_never_decrease() {
    let mut board = BoardState::initialize(1);
    let e0 = selector_at(&board, 0, 0);
    let e2 = selector_at(&board, 1, 0);
    let events = [
        (TileEvent::Press(e0), true),
        (TileEvent::Enter(e2), true),
        (TileEvent::Enter(e0), true),
        (TileEvent::Leave(e0), true),
        (TileEvent::Release(e0), false),
        (TileEvent::Press(e2), true),
        (TileEvent::Enter(999), true),
    ];
    let mut fresh = 7u64;
    for (event, held) in events {
        let h00 = column_height(&board, 0, 0, 32);
        let h10 = column_height(&board, 1, 0, 32);
        let _ = board.handle_event(event, held, fresh);
        fresh += 1;
        assert!(column_height(&board, 0, 0, 32) >= h00);
        assert!(column_height(&board, 1, 0, 32) >= h10);
    }
}

#[test]
fn consecutive_enters_on_same_column_paint_at_most_once() {
    let mut board = BoardState::initialize(1);
    let e0 = selector_at(&board, 0, 0);
    let e2 = selector_at(&board, 1, 0);
    board.handle_event(TileEvent::Press(e0), true, 7).unwrap();
    let first = board.handle_event(TileEvent::Enter(e2), true, 8).unwrap();
    let second = board.handle_event(TileEvent::Enter(e2), true, 9).unwrap();
    assert!(first.is_some());
    assert!(second.is_none(), "same column painted twice in a row");
}

#[test]
fn unknown_entity_is_rejected_and_board_unchanged() {
    let mut board = BoardState::initialize(1);
    let before = occupancies(&board, 16);
    let outcome = board.handle_event(TileEvent::Press(42), true, 7);
    assert_eq!(outcome, Err(EngineError::UnknownEntity));
    assert_eq!(occupancies(&board, 16), before);
    assert_eq!(
        board.handle_event(TileEvent::Leave(42), false, 7),
        Err(EngineError::UnknownEntity)
    );
}

#[test]
fn press_on_placed_tile_is_an_invariant_violation() {
    let mut board = BoardState::initialize(1);
    let e0 = selector_at(&board, 0, 0);
    board.handle_event(TileEvent::Press(e0), true, 7).unwrap();
    let before = occupancies(&board, 16);
    let base = board.drag_base_layer();
    // entity 7 is the placed tile, not a ground selector
    let outcome = board.handle_event(TileEvent::Press(7), true, 8);
    assert_eq!(outcome, Err(EngineError::InvariantViolation));
    assert_eq!(occupancies(&board, 16), before);
    assert_eq!(board.drag_base_layer(), base);
}

#[test]
fn selected_variant_colors_the_spawn_command() {
    let mut board = BoardState::initialize(1);
    let e0 = selector_at(&board, 0, 0);
    board.set_current_variant(TileVariant::Orange);
    let outcome = board.handle_event(TileEvent::Press(e0), false, 7).unwrap();
    assert_eq!(outcome.unwrap().variant, TileVariant::Orange);
}

#[test]
fn all_variants_lists_the_palette() {
    assert_eq!(
        TileVariant::all_variants(),
        vec![TileVariant::Cyan, TileVariant::Purple, TileVariant::Orange]
    );
}

#[test]
fn hover_feedback_forwarding() {
    assert!(BoardState::updates_highlight(TileEvent::Enter(1), false));
    assert!(!BoardState::updates_highlight(TileEvent::Enter(1), true));
    assert!(BoardState::updates_highlight(TileEvent::Leave(1), false));
    assert!(!BoardState::updates_highlight(TileEvent::Leave(1), true));
    assert!(BoardState::updates_highlight(TileEvent::Press(1), true));
    assert!(BoardState::updates_highlight(TileEvent::Release(1), false));
}

#[test]
fn batch_is_drained_in_order_and_survives_errors() {
    let mut board = BoardState::initialize(1);
    let e0 = selector_at(&board, 0, 0);
    let e2 = selector_at(&board, 1, 0);
    let records = vec![
        EventRecord { event: TileEvent::Press(e0), button_held: true, fresh_entity: 7 },
        EventRecord { event: TileEvent::Enter(777), button_held: true, fresh_entity: 8 },
        EventRecord { event: TileEvent::Enter(e2), button_held: true, fresh_entity: 9 },
        EventRecord { event: TileEvent::Enter(e0), button_held: true, fresh_entity: 10 },
        EventRecord { event: TileEvent::Release(e2), button_held: false, fresh_entity: 11 },
    ];
    let commands = board.handle_batch(&records);
    assert_eq!(
        commands,
        vec![
            SpawnCommand {
                hex: HexCoordinate { q: 0, r: 0 },
                layer: 0,
                variant: TileVariant::Purple,
            },
            SpawnCommand {
                hex: HexCoordinate { q: 1, r: 0 },
                layer: 0,
                variant: TileVariant::Purple,
            },
        ]
    );
    assert_eq!(board.occupancy_of(e0).unwrap().layer, 1);
    assert_eq!(board.occupancy_of(e2).unwrap().layer, 1);
    assert!(board.occupancy_of(8).is_none());
    assert!(board.occupancy_of(10).is_none());
}

#[test]
fn origin_is_zero_zero() {
    assert_eq!(HexCoordinate::origin(), HexCoordinate { q: 0, r: 0 });
}
