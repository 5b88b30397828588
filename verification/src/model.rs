//! The hierarchical cell-timing model, held in the library's own types.
//!
//! Table values and measured moments are exact fixed-point integers: a value
//! `v` stands for the rational `v / 10^FRAC_DIGITS` in the corner's scaled
//! unit. Conditions are kept in the normal text form that the external
//! condition parser produces, so equality of conditions is equality of
//! strings.

use vstd::prelude::*;

verus! {

/// Number of fractional decimal digits a fixed-point value carries.
pub const FRAC_DIGITS: u32 = 12;

/// Largest magnitude of a nominal table value or of a scaled moment.
pub const VALUE_LIMIT: i64 = 1_000_000_000_000_000_000;

/// Largest magnitude of a variation table value. A mean shift is the
/// difference of two values bounded by `VALUE_LIMIT`, so this is twice it.
pub const VARIATION_LIMIT: i64 = 2_000_000_000_000_000_000;

/// Which side of a timing arc a specification addresses.
#[derive(Clone, Copy, Debug, PartialEq, Eq, Structural)]
pub enum Edge {
    Rise,
    Fall,
}

/// Signal sense of a timing arc.
#[derive(Clone, Copy, Debug, PartialEq, Eq, Structural)]
pub enum TimingSense {
    PositiveUnate,
    NegativeUnate,
    NonUnate,
}

/// An ordered lookup table: the two grid axes, the flat value array over
/// their product grid, and the provenance notes attached to the table.
#[derive(Clone, Debug, PartialEq)]
pub struct LookupTable {
    pub index_1: Vec<i64>,
    pub index_2: Vec<i64>,
    pub values: Vec<i64>,
    pub notes: Vec<String>,
}

/// Mathematical value of a [`LookupTable`].
#[verifier::ext_equal]
pub ghost struct TableView {
    pub index_1: Seq<i64>,
    pub index_2: Seq<i64>,
    pub values: Seq<i64>,
    pub notes: Seq<Seq<char>>,
}

impl View for LookupTable {
    type V = TableView;

    open spec fn view(&self) -> TableView {
        TableView {
            index_1: self.index_1@,
            index_2: self.index_2@,
            values: self.values@,
            notes: self.notes@.map_values(|n: String| n@),
        }
    }
}

/// One timing relationship of a pin: its identity (related pins, sense, type,
/// condition), up to four nominal tables and up to twelve variation tables.
#[derive(Clone, Debug, PartialEq)]
pub struct TimingArc {
    pub related_pins: Vec<String>,
    pub sense: TimingSense,
    pub combinational: bool,
    /// Normal text form of the `when` condition; `None` means unconditioned.
    pub condition: Option<String>,
    pub cell_rise: Option<LookupTable>,
    pub cell_fall: Option<LookupTable>,
    pub rise_transition: Option<LookupTable>,
    pub fall_transition: Option<LookupTable>,
    pub mean_shift_cell_rise: Option<LookupTable>,
    pub mean_shift_cell_fall: Option<LookupTable>,
    pub mean_shift_rise_transition: Option<LookupTable>,
    pub mean_shift_fall_transition: Option<LookupTable>,
    pub std_dev_cell_rise: Option<LookupTable>,
    pub std_dev_cell_fall: Option<LookupTable>,
    pub std_dev_rise_transition: Option<LookupTable>,
    pub std_dev_fall_transition: Option<LookupTable>,
    pub skewness_cell_rise: Option<LookupTable>,
    pub skewness_cell_fall: Option<LookupTable>,
    pub skewness_rise_transition: Option<LookupTable>,
    pub skewness_fall_transition: Option<LookupTable>,
    pub notes: Vec<String>,
}

/// Mathematical value of a [`TimingArc`].
#[verifier::ext_equal]
pub ghost struct ArcView {
    pub related_pins: Seq<Seq<char>>,
    pub sense: TimingSense,
    pub combinational: bool,
    pub condition: Option<Seq<char>>,
    pub cell_rise: Option<TableView>,
    pub cell_fall: Option<TableView>,
    pub rise_transition: Option<TableView>,
    pub fall_transition: Option<TableView>,
    pub mean_shift_cell_rise: Option<TableView>,
    pub mean_shift_cell_fall: Option<TableView>,
    pub mean_shift_rise_transition: Option<TableView>,
    pub mean_shift_fall_transition: Option<TableView>,
    pub std_dev_cell_rise: Option<TableView>,
    pub std_dev_cell_fall: Option<TableView>,
    pub std_dev_rise_transition: Option<TableView>,
    pub std_dev_fall_transition: Option<TableView>,
    pub skewness_cell_rise: Option<TableView>,
    pub skewness_cell_fall: Option<TableView>,
    pub skewness_rise_transition: Option<TableView>,
    pub skewness_fall_transition: Option<TableView>,
    pub notes: Seq<Seq<char>>,
}

pub open spec fn table_opt_view(t: Option<LookupTable>) -> Option<TableView> {
    match t {
        Some(tab) => Some(tab@),
        None => None,
    }
}

pub open spec fn cond_opt_view(c: Option<String>) -> Option<Seq<char>> {
    match c {
        Some(s) => Some(s@),
        None => None,
    }
}

impl View for TimingArc {
    type V = ArcView;

    open spec fn view(&self) -> ArcView {
        ArcView {
            related_pins: self.related_pins@.map_values(|p: String| p@),
            sense: self.sense,
            combinational: self.combinational,
            condition: cond_opt_view(self.condition),
            cell_rise: table_opt_view(self.cell_rise),
            cell_fall: table_opt_view(self.cell_fall),
            rise_transition: table_opt_view(self.rise_transition),
            fall_transition: table_opt_view(self.fall_transition),
            mean_shift_cell_rise: table_opt_view(self.mean_shift_cell_rise),
            mean_shift_cell_fall: table_opt_view(self.mean_shift_cell_fall),
            mean_shift_rise_transition: table_opt_view(self.mean_shift_rise_transition),
            mean_shift_fall_transition: table_opt_view(self.mean_shift_fall_transition),
            std_dev_cell_rise: table_opt_view(self.std_dev_cell_rise),
            std_dev_cell_fall: table_opt_view(self.std_dev_cell_fall),
            std_dev_rise_transition: table_opt_view(self.std_dev_rise_transition),
            std_dev_fall_transition: table_opt_view(self.std_dev_fall_transition),
            skewness_cell_rise: table_opt_view(self.skewness_cell_rise),
            skewness_cell_fall: table_opt_view(self.skewness_cell_fall),
            skewness_rise_transition: table_opt_view(self.skewness_rise_transition),
            skewness_fall_transition: table_opt_view(self.skewness_fall_transition),
            notes: self.notes@.map_values(|n: String| n@),
        }
    }
}

/// A pin of a cell and its timing arcs.
#[derive(Clone, Debug, PartialEq)]
pub struct Pin {
    pub name: String,
    pub arcs: Vec<TimingArc>,
}

/// Mathematical value of a [`Pin`].
#[verifier::ext_equal]
pub ghost struct PinView {
    pub name: Seq<char>,
    pub arcs: Seq<ArcView>,
}

impl View for Pin {
    type V = PinView;

    open spec fn view(&self) -> PinView {
        PinView {
            name: self.name@,
            arcs: self.arcs@.map_values(|a: TimingArc| a@),
        }
    }
}

/// A cell and its pins.
#[derive(Clone, Debug, PartialEq)]
pub struct Cell {
    pub name: String,
    pub pins: Vec<Pin>,
}

/// Mathematical value of a [`Cell`].
#[verifier::ext_equal]
pub ghost struct CellView {
    pub name: Seq<char>,
    pub pins: Seq<PinView>,
}

impl View for Cell {
    type V = CellView;

    open spec fn view(&self) -> CellView {
        CellView {
            name: self.name@,
            pins: self.pins@.map_values(|p: Pin| p@),
        }
    }
}

/// The whole hierarchical model: the cells of one loaded timing library.
#[derive(Clone, Debug, PartialEq)]
pub struct LibraryModel {
    pub cells: Vec<Cell>,
}

impl View for LibraryModel {
    type V = Seq<CellView>;

    open spec fn view(&self) -> Seq<CellView> {
        self.cells@.map_values(|c: Cell| c@)
    }
}

/// Location of one resolved timing arc inside the model. Valid only against
/// the model it was resolved from, until that arc is patched.
#[derive(Clone, Copy, Debug, PartialEq, Eq, Structural)]
pub struct ArcHandle {
    pub cell: usize,
    pub pin: usize,
    pub arc: usize,
}

pub open spec fn handle_in_bounds(m: Seq<CellView>, h: ArcHandle) -> bool {
    &&& h.cell < m.len()
    &&& h.pin < m[h.cell as int].pins.len()
    &&& h.arc < m[h.cell as int].pins[h.pin as int].arcs.len()
}

pub open spec fn table_values_bounded(t: Option<TableView>, limit: int) -> bool {
    match t {
        Some(tab) => forall|i: int|
            0 <= i < tab.values.len() ==> -limit <= #[trigger] tab.values[i] <= limit,
        None => true,
    }
}

/// The value array covers exactly the product grid of the two axes.
pub open spec fn table_grid_wf(t: Option<TableView>) -> bool {
    match t {
        Some(tab) => tab.values.len() == tab.index_1.len() * tab.index_2.len(),
        None => true,
    }
}

/// Well-formedness of one arc: every table's value array covers exactly its
/// product grid, nominal values lie within `VALUE_LIMIT`, and variation
/// values within `VARIATION_LIMIT`.
pub open spec fn arc_wf(a: ArcView) -> bool {
    &&& table_grid_wf(a.cell_rise)
    &&& table_grid_wf(a.cell_fall)
    &&& table_grid_wf(a.rise_transition)
    &&& table_grid_wf(a.fall_transition)
    &&& table_grid_wf(a.mean_shift_cell_rise)
    &&& table_grid_wf(a.mean_shift_cell_fall)
    &&& table_grid_wf(a.mean_shift_rise_transition)
    &&& table_grid_wf(a.mean_shift_fall_transition)
    &&& table_grid_wf(a.std_dev_cell_rise)
    &&& table_grid_wf(a.std_dev_cell_fall)
    &&& table_grid_wf(a.std_dev_rise_transition)
    &&& table_grid_wf(a.std_dev_fall_transition)
    &&& table_grid_wf(a.skewness_cell_rise)
    &&& table_grid_wf(a.skewness_cell_fall)
    &&& table_grid_wf(a.skewness_rise_transition)
    &&& table_grid_wf(a.skewness_fall_transition)
    &&& table_values_bounded(a.cell_rise, VALUE_LIMIT as int)
    &&& table_values_bounded(a.cell_fall, VALUE_LIMIT as int)
    &&& table_values_bounded(a.rise_transition, VALUE_LIMIT as int)
    &&& table_values_bounded(a.fall_transition, VALUE_LIMIT as int)
    &&& table_values_bounded(a.mean_shift_cell_rise, VARIATION_LIMIT as int)
    &&& table_values_bounded(a.mean_shift_cell_fall, VARIATION_LIMIT as int)
    &&& table_values_bounded(a.mean_shift_rise_transition, VARIATION_LIMIT as int)
    &&& table_values_bounded(a.mean_shift_fall_transition, VARIATION_LIMIT as int)
    &&& table_values_bounded(a.std_dev_cell_rise, VARIATION_LIMIT as int)
    &&& table_values_bounded(a.std_dev_cell_fall, VARIATION_LIMIT as int)
    &&& table_values_bounded(a.std_dev_rise_transition, VARIATION_LIMIT as int)
    &&& table_values_bounded(a.std_dev_fall_transition, VARIATION_LIMIT as int)
    &&& table_values_bounded(a.skewness_cell_rise, VARIATION_LIMIT as int)
    &&& table_values_bounded(a.skewness_cell_fall, VARIATION_LIMIT as int)
    &&& table_values_bounded(a.skewness_rise_transition, VARIATION_LIMIT as int)
    &&& table_values_bounded(a.skewness_fall_transition, VARIATION_LIMIT as int)
}

/// Well-formedness of the model: cell names are unique, pin names are unique
/// within each cell, and every arc is well formed.
pub open spec fn model_wf(m: Seq<CellView>) -> bool {
    &&& forall|i: int, j: int|
        0 <= i < j < m.len() ==> (#[trigger] m[i]).name != (#[trigger] m[j]).name
    &&& forall|c: int, i: int, j: int|
        0 <= c < m.len() && 0 <= i < j < m[c].pins.len()
            ==> (#[trigger] m[c].pins[i]).name != (#[trigger] m[c].pins[j]).name
    &&& forall|c: int, p: int, a: int|
        0 <= c < m.len() && 0 <= p < m[c].pins.len() && 0 <= a < m[c].pins[p].arcs.len()
            ==> arc_wf(#[trigger] m[c].pins[p].arcs[a])
}

} // verus!
