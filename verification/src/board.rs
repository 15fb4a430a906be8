//! The authoritative board state: the occupancy table mapping each cell
//! entity to its hex coordinate and stack height, the currently selected
//! tile variant, and the drag-session fields that gate multi-cell painting.

use vstd::prelude::*;

use crate::hex::{hex_count, hex_dist, HexCoordinate};
use std::collections::HashMap;

verus! {

broadcast use vstd::std_specs::hash::group_hash_axioms, vstd::set::group_set_axioms;

/// A paint color the user can select before painting. Each variant is
/// associated with a visual material owned by the rendering layer.
#[derive(Clone, Copy, Debug, PartialEq, Eq, Structural)]
pub enum TileVariant {
    Cyan,
    Purple,
    Orange,
}

impl TileVariant {
    /// Every variant, in declaration order, for palette construction.
    pub fn all_variants() -> (variants: Vec<TileVariant>)
        ensures
            variants@ =~= seq![TileVariant::Cyan, TileVariant::Purple, TileVariant::Orange],
    {
        let mut variants: Vec<TileVariant> = Vec::new();
        variants.push(TileVariant::Cyan);
        variants.push(TileVariant::Purple);
        variants.push(TileVariant::Orange);
        variants
    }
}

impl Default for TileVariant {
    /// The variant selected before the user picks one.
    fn default() -> (variant: TileVariant)
        ensures
            variant == TileVariant::Purple,
    {
        TileVariant::Purple
    }
}

/// What the board knows of one tracked cell entity: the hex column it sits
/// on, its zero-based height in that column, and whether it is the column's
/// ground selector (the entity that receives pointer events and whose stored
/// layer is the column's next free slot) rather than a placed tile layer.
#[derive(Clone, Copy, Debug, PartialEq, Eq, Structural)]
pub struct Occupancy {
    pub hex: HexCoordinate,
    pub layer: u32,
    pub is_selector: bool,
}

/// The mathematical model of a board: the occupancy table as a map from
/// entity identifier to occupancy, plus the selection and drag-session state.
#[verifier::ext_equal]
pub ghost struct BoardModel {
    pub tiles: Map<u64, Occupancy>,
    pub current_variant: TileVariant,
    pub last_painted_hex: HexCoordinate,
    pub drag_base_layer: u32,
}

/// Entity `s` is tracked, is a ground selector, and sits on hex `h`.
pub open spec fn is_selector_at(tiles: Map<u64, Occupancy>, s: u64, h: HexCoordinate) -> bool {
    tiles.dom().contains(s) && tiles[s].is_selector && tiles[s].hex == h
}

/// Entity `e` is tracked as a placed (non-selector) tile at height `l` on hex `h`.
pub open spec fn is_placed_at(tiles: Map<u64, Occupancy>, e: u64, h: HexCoordinate, l: u32) -> bool {
    tiles.dom().contains(e) && !tiles[e].is_selector && tiles[e].hex == h && tiles[e].layer == l
}

/// Some placed tile occupies height `l` of hex `h`.
pub open spec fn slot_filled(tiles: Map<u64, Occupancy>, h: HexCoordinate, l: u32) -> bool {
    exists|e: u64| is_placed_at(tiles, e, h, l)
}

/// Well-formedness of an occupancy table. Together the clauses say that the
/// layers recorded for each hex column form a contiguous range: every column
/// with a tracked entity has exactly one ground selector; the placed tiles of
/// a column occupy the heights strictly below the selector's stored layer,
/// one tile per height, with no height missing. Every stored layer is also
/// bounded by the table's size, which keeps layer arithmetic in `u32`.
pub open spec fn occ_wf(tiles: Map<u64, Occupancy>) -> bool {
    &&& tiles.dom().finite()
    &&& forall|e: u64|
        #[trigger] tiles.dom().contains(e) ==> (tiles[e].layer as nat) < tiles.dom().len()
    &&& forall|s1: u64, s2: u64, h: HexCoordinate|
        is_selector_at(tiles, s1, h) && is_selector_at(tiles, s2, h) ==> s1 == s2
    &&& forall|e: u64|
        #[trigger] tiles.dom().contains(e) ==> exists|s: u64| is_selector_at(tiles, s, tiles[e].hex)
    &&& forall|e: u64, s: u64|
        tiles.dom().contains(e) && !tiles[e].is_selector && #[trigger] is_selector_at(
            tiles,
            s,
            tiles[e].hex,
        ) ==> tiles[e].layer < tiles[s].layer
    &&& forall|e1: u64, e2: u64, h: HexCoordinate, l: u32|
        is_placed_at(tiles, e1, h, l) && is_placed_at(tiles, e2, h, l) ==> e1 == e2
    &&& forall|s: u64, l: u32|
        tiles.dom().contains(s) && tiles[s].is_selector && l < tiles[s].layer
            ==> #[trigger] slot_filled(tiles, tiles[s].hex, l)
}

/// The authoritative mapping of cell entities to their occupancy, plus the
/// selected variant, the most recently painted hex, and the stack height
/// recorded at the start of the current drag gesture.
pub struct BoardState {
    tiles: HashMap<u64, Occupancy>,
    current_variant: TileVariant,
    last_painted_hex: HexCoordinate,
    drag_base_layer: u32,
}

impl View for BoardState {
    type V = BoardModel;

    closed spec fn view(&self) -> BoardModel {
        BoardModel {
            tiles: self.tiles@,
            current_variant: self.current_variant,
            last_painted_hex: self.last_painted_hex,
            drag_base_layer: self.drag_base_layer,
        }
    }
}

impl BoardState {
    /// The board's invariant: its occupancy table is well formed.
    pub open spec fn wf(&self) -> bool {
        occ_wf(self@.tiles)
    }

    /// Lays out a fresh board: one ground selector entity, with layer 0, for
    /// every hex within `radius` of the origin. Selector entities receive the
    /// identifiers `0, 1, ..., n - 1` where `n` is the cell count of the
    /// board; the caller allocates identifiers `>= n` for placed tiles.
    pub fn initialize(radius: u32) -> (board: BoardState)
        requires
            radius <= 10_000,
        ensures
            board.wf(),
            board@.tiles.dom() =~= Set::new(|e: u64| (e as int) < hex_count(radius as int)),
            board@.tiles.dom().len() == hex_count(radius as int),
            forall|e: u64|
                #[trigger] board@.tiles.dom().contains(e) ==> board@.tiles[e].layer == 0
                    && board@.tiles[e].is_selector,
            forall|e1: u64, e2: u64|
                board@.tiles.dom().contains(e1) && board@.tiles.dom().contains(e2) && e1 != e2
                    ==> (#[trigger] board@.tiles[e1]).hex != (#[trigger] board@.tiles[e2]).hex,
            forall|e: u64|
                #[trigger] board@.tiles.dom().contains(e) ==> hex_dist(
                    board@.tiles[e].hex,
                    HexCoordinate::spec_origin(),
                ) <= radius,
            forall|c: HexCoordinate|
                hex_dist(c, HexCoordinate::spec_origin()) <= radius ==> exists|e: u64|
                    board@.tiles.dom().contains(e) && (#[trigger] board@.tiles[e]).hex == c,
            board@.current_variant == TileVariant::Purple,
            board@.last_painted_hex == HexCoordinate::spec_origin(),
            board@.drag_base_layer == 0,
    {
        let cells = crate::hex::cells_in_radius(HexCoordinate::origin(), radius);
        let ghost cell_seq = cells@;
        let mut tiles: HashMap<u64, Occupancy> = HashMap::new();
        let n = cells.len();
        let mut i: usize = 0;
        while i < n
            invariant
                n == cell_seq.len(),
                cells@ == cell_seq,
                n == hex_count(radius as int),
                i <= n,
                forall|a: int, b: int| 0 <= a < b < n ==> cell_seq[a] != cell_seq[b],
                tiles@.dom() =~= Set::new(|e: u64| (e as int) < i),
                tiles@.dom().finite(),
                tiles@.dom().len() == i,
                forall|e: u64|
                    #[trigger] tiles@.dom().contains(e) ==> tiles@[e] == (Occupancy {
                        hex: cell_seq[e as int],
                        layer: 0,
                        is_selector: true,
                    }),
            decreases n - i,
        {
            let occ = Occupancy { hex: cells[i], layer: 0, is_selector: true };
            tiles.insert(i as u64, occ);
            proof {
                assert(tiles@.dom() =~= Set::new(|e: u64| (e as int) < i + 1));
            }
            i = i + 1;
        }
        let board = BoardState {
            tiles,
            current_variant: TileVariant::Purple,
            last_painted_hex: HexCoordinate::origin(),
            drag_base_layer: 0,
        };
        proof {
            assert(hex_count(radius as int) >= 1) by (nonlinear_arith)
                requires radius >= 0;
            assert forall|e: u64| #[trigger] board@.tiles.dom().contains(e) implies exists|s: u64|
                is_selector_at(board@.tiles, s, board@.tiles[e].hex) by {
                assert(is_selector_at(board@.tiles, e, board@.tiles[e].hex));
            }
            assert forall|c: HexCoordinate|
                hex_dist(c, HexCoordinate::spec_origin()) <= radius implies exists|e: u64|
                board@.tiles.dom().contains(e) && (#[trigger] board@.tiles[e]).hex == c by {
                assert(cell_seq.contains(c));
                let k = choose|k: int| 0 <= k < cell_seq.len() && cell_seq[k] == c;
                assert(board@.tiles.dom().contains(k as u64));
                assert(board@.tiles[k as u64].hex == c);
            }
        }
        board
    }

    /// What the board tracks of `entity`, or `None` for an unknown entity.
    pub fn occupancy_of(&self, entity: u64) -> (r: Option<Occupancy>)
        ensures
            r == if self@.tiles.dom().contains(entity) {
                Some(self@.tiles[entity])
            } else {
                None::<Occupancy>
            },
    {
        match self.tiles.get(&entity) {
            Some(occ) => Some(*occ),
            None => None,
        }
    }

    /// The number of tracked entities, selectors and placed tiles together.
    pub fn entity_count(&self) -> (n: usize)
        ensures
            n == self@.tiles.dom().len(),
    {
        self.tiles.len()
    }

    /// The variant that the next placed layer will be painted with.
    pub fn current_variant(&self) -> (v: TileVariant)
        ensures
            v == self@.current_variant,
    {
        self.current_variant
    }

    /// The hex of the most recently created stack.
    pub fn last_painted_hex(&self) -> (h: HexCoordinate)
        ensures
            h == self@.last_painted_hex,
    {
        self.last_painted_hex
    }

    /// The stack height recorded at the start of the current drag gesture.
    pub fn drag_base_layer(&self) -> (l: u32)
        ensures
            l == self@.drag_base_layer,
    {
        self.drag_base_layer
    }

    /// Registers or overwrites one occupancy entry. The building block of the
    /// place-layer procedure; not part of the public surface.
    pub(crate) fn tiles_insert(&mut self, entity: u64, occ: Occupancy)
        ensures
            final(self)@ == (BoardModel { tiles: old(self)@.tiles.insert(entity, occ), ..old(self)@ }),
    {
        self.tiles.insert(entity, occ);
    }

    /// Records the base layer of a new drag gesture.
    pub(crate) fn set_drag_base(&mut self, layer: u32)
        ensures
            final(self)@ == (BoardModel { drag_base_layer: layer, ..old(self)@ }),
    {
        self.drag_base_layer = layer;
    }

    /// Records the hex of the most recently created stack.
    pub(crate) fn set_last_painted(&mut self, hex: HexCoordinate)
        ensures
            final(self)@ == (BoardModel { last_painted_hex: hex, ..old(self)@ }),
    {
        self.last_painted_hex = hex;
    }

    /// Selects the paint variant for subsequent placements; called by the
    /// palette UI and by nothing else. Touches no other board state.
    pub fn set_current_variant(&mut self, variant: TileVariant)
        ensures
            final(self)@ == (BoardModel { current_variant: variant, ..old(self)@ }),
            old(self).wf() ==> final(self).wf(),
    {
        self.current_variant = variant;
    }
}

} // verus!
