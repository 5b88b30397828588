//! The table patcher: merges per-index moment samples into the six variation
//! tables of one edge of a resolved arc.
//!
//! The defining contract is the relative encoding of the mean shift: at every
//! patched index `i`, `mean_shift[i] == moment_mean[i] - nominal[i]` exactly.
//! Standard deviation and skewness are written as absolute values. Indices
//! without a sample keep their prior value. Every touched variation table and
//! the arc itself receive a provenance note.

use vstd::prelude::*;

use crate::model::ArcHandle;
use crate::model::ArcView;
use crate::model::CellView;
use crate::model::Edge;
use crate::model::LibraryModel;
use crate::model::LookupTable;
use crate::model::PinView;
use crate::model::TableView;
use crate::model::TimingArc;
use crate::model::VALUE_LIMIT;
use crate::model::VARIATION_LIMIT;
use crate::model::arc_wf;
use crate::model::handle_in_bounds;
use crate::model::table_values_bounded;
use crate::model::model_wf;
use crate::model::table_opt_view;
use crate::moments::MomentSample;
use crate::moments::samples_bounded;

verus! {

/// Why one arc could not be patched. All of these are scoped to the arc: the
/// model is left untouched and other arcs can still be processed.
#[derive(Clone, Copy, Debug, PartialEq, Eq, Structural)]
pub enum PatchError {
    /// A nominal table of the requested edge is absent.
    NominalAbsent,
    /// A variation table of the requested edge is absent.
    VariationAbsent,
    /// Table lengths disagree, or the sample list does not cover the grid.
    GridMismatch,
}

/// The nominal delay table of the requested edge.
pub open spec fn nominal_delay(a: ArcView, edge: Edge) -> Option<TableView> {
    match edge {
        Edge::Rise => a.cell_rise,
        Edge::Fall => a.cell_fall,
    }
}

/// The nominal transition table of the requested edge.
pub open spec fn nominal_transition(a: ArcView, edge: Edge) -> Option<TableView> {
    match edge {
        Edge::Rise => a.rise_transition,
        Edge::Fall => a.fall_transition,
    }
}

/// Both nominal tables of the edge are present.
pub open spec fn nominals_present(a: ArcView, edge: Edge) -> bool {
    nominal_delay(a, edge) is Some && nominal_transition(a, edge) is Some
}

/// All six variation tables of the edge are present.
pub open spec fn variations_present(a: ArcView, edge: Edge) -> bool {
    match edge {
        Edge::Rise => {
            &&& a.mean_shift_cell_rise is Some
            &&& a.std_dev_cell_rise is Some
            &&& a.skewness_cell_rise is Some
            &&& a.mean_shift_rise_transition is Some
            &&& a.std_dev_rise_transition is Some
            &&& a.skewness_rise_transition is Some
        },
        Edge::Fall => {
            &&& a.mean_shift_cell_fall is Some
            &&& a.std_dev_cell_fall is Some
            &&& a.skewness_cell_fall is Some
            &&& a.mean_shift_fall_transition is Some
            &&& a.std_dev_fall_transition is Some
            &&& a.skewness_fall_transition is Some
        },
    }
}

/// The grid size of the edge: the length of its nominal delay table.
pub open spec fn grid_size(a: ArcView, edge: Edge) -> int {
    nominal_delay(a, edge)->0.values.len() as int
}

/// Every table of the edge covers exactly the grid of its nominal delay
/// table: no interpolation across mismatched grids.
pub open spec fn grids_consistent(a: ArcView, edge: Edge) -> bool {
    let n = grid_size(a, edge);
    match edge {
        Edge::Rise => {
            &&& a.rise_transition->0.values.len() == n
            &&& a.mean_shift_cell_rise->0.values.len() == n
            &&& a.std_dev_cell_rise->0.values.len() == n
            &&& a.skewness_cell_rise->0.values.len() == n
            &&& a.mean_shift_rise_transition->0.values.len() == n
            &&& a.std_dev_rise_transition->0.values.len() == n
            &&& a.skewness_rise_transition->0.values.len() == n
        },
        Edge::Fall => {
            &&& a.fall_transition->0.values.len() == n
            &&& a.mean_shift_cell_fall->0.values.len() == n
            &&& a.std_dev_cell_fall->0.values.len() == n
            &&& a.skewness_cell_fall->0.values.len() == n
            &&& a.mean_shift_fall_transition->0.values.len() == n
            &&& a.std_dev_fall_transition->0.values.len() == n
            &&& a.skewness_fall_transition->0.values.len() == n
        },
    }
}

/// The edge of the arc can be patched with `moms`.
pub open spec fn patch_accepted(
    a: ArcView,
    edge: Edge,
    moms: Seq<Option<MomentSample>>,
) -> bool {
    &&& nominals_present(a, edge)
    &&& variations_present(a, edge)
    &&& grids_consistent(a, edge)
    &&& moms.len() == grid_size(a, edge)
}

/// The mean of a sample, for the delay or the transition side.
pub open spec fn sample_mean(s: MomentSample, delay: bool) -> i64 {
    if delay {
        s.delay_mean
    } else {
        s.transition_mean
    }
}

/// The standard deviation or the skewness of a sample, for the delay or the
/// transition side.
pub open spec fn sample_spread(s: MomentSample, delay: bool, skew: bool) -> i64 {
    if delay {
        if skew {
            s.delay_skewness
        } else {
            s.delay_std_dev
        }
    } else {
        if skew {
            s.transition_skewness
        } else {
            s.transition_std_dev
        }
    }
}

/// Mean-shift values after the patch: the relative encoding. At an index
/// with a sample the new value is the scaled mean minus the nominal value;
/// an index without a sample keeps its prior value.
pub open spec fn patched_mean_shift(
    old_vals: Seq<i64>,
    nom: Seq<i64>,
    moms: Seq<Option<MomentSample>>,
    delay: bool,
) -> Seq<i64> {
    Seq::new(
        old_vals.len(),
        |i: int|
            if 0 <= i < moms.len() && moms[i] is Some {
                (sample_mean(moms[i]->0, delay) - nom[i]) as i64
            } else {
                old_vals[i]
            },
    )
}

/// Standard-deviation or skewness values after the patch: absolute values.
/// An index without a sample keeps its prior value.
pub open spec fn patched_spread(
    old_vals: Seq<i64>,
    moms: Seq<Option<MomentSample>>,
    delay: bool,
    skew: bool,
) -> Seq<i64> {
    Seq::new(
        old_vals.len(),
        |i: int|
            if 0 <= i < moms.len() && moms[i] is Some {
                sample_spread(moms[i]->0, delay, skew)
            } else {
                old_vals[i]
            },
    )
}

/// A table after the patch: its axes kept, new values, and the provenance
/// note appended.
pub open spec fn patched_table(t: TableView, vals: Seq<i64>, note: Seq<char>) -> TableView {
    TableView {
        index_1: t.index_1,
        index_2: t.index_2,
        values: vals,
        notes: t.notes.push(note),
    }
}

/// The arc after the patch: the six variation tables of the edge rewritten,
/// the note appended to each of them and to the arc, everything else as it
/// was.
pub open spec fn patched_arc_view(
    a: ArcView,
    edge: Edge,
    moms: Seq<Option<MomentSample>>,
    note: Seq<char>,
) -> ArcView {
    let nd = nominal_delay(a, edge)->0.values;
    let nt = nominal_transition(a, edge)->0.values;
    match edge {
        Edge::Rise => (ArcView {
            mean_shift_cell_rise: Some(
                patched_table(
                    a.mean_shift_cell_rise->0,
                    patched_mean_shift(a.mean_shift_cell_rise->0.values, nd, moms, true),
                    note,
                ),
            ),
            std_dev_cell_rise: Some(
                patched_table(
                    a.std_dev_cell_rise->0,
                    patched_spread(a.std_dev_cell_rise->0.values, moms, true, false),
                    note,
                ),
            ),
            skewness_cell_rise: Some(
                patched_table(
                    a.skewness_cell_rise->0,
                    patched_spread(a.skewness_cell_rise->0.values, moms, true, true),
                    note,
                ),
            ),
            mean_shift_rise_transition: Some(
                patched_table(
                    a.mean_shift_rise_transition->0,
                    patched_mean_shift(
                        a.mean_shift_rise_transition->0.values,
                        nt,
                        moms,
                        false,
                    ),
                    note,
                ),
            ),
            std_dev_rise_transition: Some(
                patched_table(
                    a.std_dev_rise_transition->0,
                    patched_spread(a.std_dev_rise_transition->0.values, moms, false, false),
                    note,
                ),
            ),
            skewness_rise_transition: Some(
                patched_table(
                    a.skewness_rise_transition->0,
                    patched_spread(a.skewness_rise_transition->0.values, moms, false, true),
                    note,
                ),
            ),
            notes: a.notes.push(note),
            ..a
        }),
        Edge::Fall => (ArcView {
            mean_shift_cell_fall: Some(
                patched_table(
                    a.mean_shift_cell_fall->0,
                    patched_mean_shift(a.mean_shift_cell_fall->0.values, nd, moms, true),
                    note,
                ),
            ),
            std_dev_cell_fall: Some(
                patched_table(
                    a.std_dev_cell_fall->0,
                    patched_spread(a.std_dev_cell_fall->0.values, moms, true, false),
                    note,
                ),
            ),
            skewness_cell_fall: Some(
                patched_table(
                    a.skewness_cell_fall->0,
                    patched_spread(a.skewness_cell_fall->0.values, moms, true, true),
                    note,
                ),
            ),
            mean_shift_fall_transition: Some(
                patched_table(
                    a.mean_shift_fall_transition->0,
                    patched_mean_shift(
                        a.mean_shift_fall_transition->0.values,
                        nt,
                        moms,
                        false,
                    ),
                    note,
                ),
            ),
            std_dev_fall_transition: Some(
                patched_table(
                    a.std_dev_fall_transition->0,
                    patched_spread(a.std_dev_fall_transition->0.values, moms, false, false),
                    note,
                ),
            ),
            skewness_fall_transition: Some(
                patched_table(
                    a.skewness_fall_transition->0,
                    patched_spread(a.skewness_fall_transition->0.values, moms, false, true),
                    note,
                ),
            ),
            notes: a.notes.push(note),
            ..a
        }),
    }
}

/// The model after the patch: only the addressed arc changes.
pub open spec fn patched_model_view(
    m: Seq<CellView>,
    h: ArcHandle,
    edge: Edge,
    moms: Seq<Option<MomentSample>>,
    note: Seq<char>,
) -> Seq<CellView> {
    let c = m[h.cell as int];
    let p = c.pins[h.pin as int];
    let a = p.arcs[h.arc as int];
    m.update(
        h.cell as int,
        (CellView {
            name: c.name,
            pins: c.pins.update(
                h.pin as int,
                (PinView {
                    name: p.name,
                    arcs: p.arcs.update(h.arc as int, patched_arc_view(a, edge, moms, note)),
                }),
            ),
        }),
    )
}

/// The mean-shift variation table of the edge's delay side.
pub open spec fn mean_shift_delay(a: ArcView, edge: Edge) -> Option<TableView> {
    match edge {
        Edge::Rise => a.mean_shift_cell_rise,
        Edge::Fall => a.mean_shift_cell_fall,
    }
}

/// The mean-shift variation table of the edge's transition side.
pub open spec fn mean_shift_transition(a: ArcView, edge: Edge) -> Option<TableView> {
    match edge {
        Edge::Rise => a.mean_shift_rise_transition,
        Edge::Fall => a.mean_shift_fall_transition,
    }
}

/// The standard-deviation variation table of the edge's delay side.
pub open spec fn std_dev_delay(a: ArcView, edge: Edge) -> Option<TableView> {
    match edge {
        Edge::Rise => a.std_dev_cell_rise,
        Edge::Fall => a.std_dev_cell_fall,
    }
}

/// The standard-deviation variation table of the edge's transition side.
pub open spec fn std_dev_transition(a: ArcView, edge: Edge) -> Option<TableView> {
    match edge {
        Edge::Rise => a.std_dev_rise_transition,
        Edge::Fall => a.std_dev_fall_transition,
    }
}

/// The skewness variation table of the edge's delay side.
pub open spec fn skewness_delay(a: ArcView, edge: Edge) -> Option<TableView> {
    match edge {
        Edge::Rise => a.skewness_cell_rise,
        Edge::Fall => a.skewness_cell_fall,
    }
}

/// The skewness variation table of the edge's transition side.
pub open spec fn skewness_transition(a: ArcView, edge: Edge) -> Option<TableView> {
    match edge {
        Edge::Rise => a.skewness_rise_transition,
        Edge::Fall => a.skewness_fall_transition,
    }
}

/// Patching is deterministic: the patched model is a function of the prior
/// model, the handle, the edge, the samples and the note alone, so two runs
/// against equal freshly loaded models produce equal models — and equal
/// serialized output, since the external writer sees only the model.
pub proof fn lemma_patch_deterministic(
    m1: Seq<CellView>,
    m2: Seq<CellView>,
    h: ArcHandle,
    edge: Edge,
    moms: Seq<Option<MomentSample>>,
    note: Seq<char>,
)
    requires
        m1 == m2,
    ensures
        patched_model_view(m1, h, edge, moms, note) == patched_model_view(m2, h, edge, moms, note),
{
}

/// The relative encoding, index by index: at every patched index the new
/// mean shift is exactly the scaled moment mean minus the nominal value, on
/// the delay and on the transition side.
pub proof fn lemma_mean_shift_delta(
    a: ArcView,
    edge: Edge,
    moms: Seq<Option<MomentSample>>,
    note: Seq<char>,
    i: int,
)
    requires
        arc_wf(a),
        samples_bounded(moms),
        patch_accepted(a, edge, moms),
        0 <= i < moms.len(),
        moms[i] is Some,
    ensures
        mean_shift_delay(patched_arc_view(a, edge, moms, note), edge)->0.values[i]
            == moms[i]->0.delay_mean - nominal_delay(a, edge)->0.values[i],
        mean_shift_transition(patched_arc_view(a, edge, moms, note), edge)->0.values[i]
            == moms[i]->0.transition_mean - nominal_transition(a, edge)->0.values[i],
{
    match edge {
        Edge::Rise => {
            assert(table_values_bounded(a.cell_rise, VALUE_LIMIT as int));
            assert(-VALUE_LIMIT <= a.cell_rise->0.values[i] <= VALUE_LIMIT);
            assert(-VALUE_LIMIT <= a.rise_transition->0.values[i] <= VALUE_LIMIT);
        },
        Edge::Fall => {
            assert(table_values_bounded(a.cell_fall, VALUE_LIMIT as int));
            assert(-VALUE_LIMIT <= a.cell_fall->0.values[i] <= VALUE_LIMIT);
            assert(-VALUE_LIMIT <= a.fall_transition->0.values[i] <= VALUE_LIMIT);
        },
    }
}

/// An index without a sample is left alone: all six variation values of that
/// index keep their prior value.
pub proof fn lemma_missing_sample_retains(
    a: ArcView,
    edge: Edge,
    moms: Seq<Option<MomentSample>>,
    note: Seq<char>,
    i: int,
)
    requires
        patch_accepted(a, edge, moms),
        0 <= i < moms.len(),
        moms[i] is None,
    ensures
        mean_shift_delay(patched_arc_view(a, edge, moms, note), edge)->0.values[i]
            == mean_shift_delay(a, edge)->0.values[i],
        std_dev_delay(patched_arc_view(a, edge, moms, note), edge)->0.values[i] == std_dev_delay(
            a,
            edge,
        )->0.values[i],
        skewness_delay(patched_arc_view(a, edge, moms, note), edge)->0.values[i]
            == skewness_delay(a, edge)->0.values[i],
        mean_shift_transition(patched_arc_view(a, edge, moms, note), edge)->0.values[i]
            == mean_shift_transition(a, edge)->0.values[i],
        std_dev_transition(patched_arc_view(a, edge, moms, note), edge)->0.values[i]
            == std_dev_transition(a, edge)->0.values[i],
        skewness_transition(patched_arc_view(a, edge, moms, note), edge)->0.values[i]
            == skewness_transition(a, edge)->0.values[i],
{
}

/// Mean-shift values stay within the variation bound.
proof fn lemma_mean_shift_bounded(
    old_vals: Seq<i64>,
    nom: Seq<i64>,
    moms: Seq<Option<MomentSample>>,
    delay: bool,
)
    requires
        samples_bounded(moms),
        forall|i: int|
            0 <= i < nom.len() ==> -VALUE_LIMIT <= #[trigger] nom[i] <= VALUE_LIMIT,
        forall|i: int|
            0 <= i < old_vals.len() ==> -VARIATION_LIMIT <= #[trigger] old_vals[i]
                <= VARIATION_LIMIT,
        moms.len() == nom.len(),
        old_vals.len() == nom.len(),
    ensures
        forall|i: int|
            0 <= i < patched_mean_shift(old_vals, nom, moms, delay).len() ==> -VARIATION_LIMIT
                <= #[trigger] patched_mean_shift(old_vals, nom, moms, delay)[i]
                <= VARIATION_LIMIT,
{
}

/// Spread values stay within the variation bound.
proof fn lemma_spread_bounded(
    old_vals: Seq<i64>,
    moms: Seq<Option<MomentSample>>,
    delay: bool,
    skew: bool,
)
    requires
        samples_bounded(moms),
        forall|i: int|
            0 <= i < old_vals.len() ==> -VARIATION_LIMIT <= #[trigger] old_vals[i]
                <= VARIATION_LIMIT,
    ensures
        forall|i: int|
            0 <= i < patched_spread(old_vals, moms, delay, skew).len() ==> -VARIATION_LIMIT
                <= #[trigger] patched_spread(old_vals, moms, delay, skew)[i]
                <= VARIATION_LIMIT,
{
}

/// The patched arc is well formed: axes and grids are kept, and every
/// rewritten value stays within the variation bound.
proof fn lemma_patched_arc_wf(
    a: ArcView,
    edge: Edge,
    moms: Seq<Option<MomentSample>>,
    note: Seq<char>,
)
    requires
        arc_wf(a),
        samples_bounded(moms),
        patch_accepted(a, edge, moms),
    ensures
        arc_wf(patched_arc_view(a, edge, moms, note)),
{
    let nd = nominal_delay(a, edge)->0.values;
    let nt = nominal_transition(a, edge)->0.values;
    match edge {
        Edge::Rise => {
            lemma_mean_shift_bounded(a.mean_shift_cell_rise->0.values, nd, moms, true);
            lemma_mean_shift_bounded(a.mean_shift_rise_transition->0.values, nt, moms, false);
            lemma_spread_bounded(a.std_dev_cell_rise->0.values, moms, true, false);
            lemma_spread_bounded(a.skewness_cell_rise->0.values, moms, true, true);
            lemma_spread_bounded(a.std_dev_rise_transition->0.values, moms, false, false);
            lemma_spread_bounded(a.skewness_rise_transition->0.values, moms, false, true);
        },
        Edge::Fall => {
            lemma_mean_shift_bounded(a.mean_shift_cell_fall->0.values, nd, moms, true);
            lemma_mean_shift_bounded(a.mean_shift_fall_transition->0.values, nt, moms, false);
            lemma_spread_bounded(a.std_dev_cell_fall->0.values, moms, true, false);
            lemma_spread_bounded(a.skewness_cell_fall->0.values, moms, true, true);
            lemma_spread_bounded(a.std_dev_fall_transition->0.values, moms, false, false);
            lemma_spread_bounded(a.skewness_fall_transition->0.values, moms, false, true);
        },
    }
}

/// The patch preserves well-formedness of the whole model: no name changes,
/// no axis changes, and every rewritten value stays in bounds.
pub proof fn lemma_patch_preserves_wf(
    m: Seq<CellView>,
    h: ArcHandle,
    edge: Edge,
    moms: Seq<Option<MomentSample>>,
    note: Seq<char>,
)
    requires
        model_wf(m),
        handle_in_bounds(m, h),
        samples_bounded(moms),
        patch_accepted(m[h.cell as int].pins[h.pin as int].arcs[h.arc as int], edge, moms),
    ensures
        model_wf(patched_model_view(m, h, edge, moms, note)),
{
    let pm = patched_model_view(m, h, edge, moms, note);
    let a0 = m[h.cell as int].pins[h.pin as int].arcs[h.arc as int];
    assert(pm.len() == m.len());
    assert(forall|i: int| 0 <= i < m.len() ==> (#[trigger] pm[i]).name == m[i].name);
    assert(forall|c: int|
        0 <= c < m.len() ==> (#[trigger] pm[c]).pins.len() == m[c].pins.len());
    assert(forall|c: int, i: int|
        0 <= c < m.len() && 0 <= i < m[c].pins.len() ==> (#[trigger] pm[c].pins[i]).name
            == m[c].pins[i].name);
    assert forall|c: int, p: int, a: int|
        0 <= c < pm.len() && 0 <= p < pm[c].pins.len() && 0 <= a
            < pm[c].pins[p].arcs.len() implies arc_wf(#[trigger] pm[c].pins[p].arcs[a]) by {
        if c == h.cell as int && p == h.pin as int && a == h.arc as int {
            lemma_patched_arc_wf(a0, edge, moms, note);
        } else {
            assert(pm[c].pins[p].arcs[a] == m[c].pins[p].arcs[a]);
            assert(arc_wf(m[c].pins[p].arcs[a]));
        }
    }
}

/// Clone of an integer value array.
fn clone_values(v: &Vec<i64>) -> (r: Vec<i64>)
    ensures
        r@ == v@,
{
    let r = v.clone();
    proof {
        assert(r@ =~= v@);
    }
    r
}

/// Clone of a list of note strings, value for value.
fn clone_strings(v: &Vec<String>) -> (r: Vec<String>)
    ensures
        r@ == v@,
{
    let r = v.clone();
    proof {
        assert(r@ =~= v@);
    }
    r
}

/// Clone of an optional lookup table.
fn clone_table_opt(t: &Option<LookupTable>) -> (r: Option<LookupTable>)
    ensures
        table_opt_view(r) == table_opt_view(*t),
{
    match t {
        Some(tab) => {
            let c = LookupTable {
                index_1: clone_values(&tab.index_1),
                index_2: clone_values(&tab.index_2),
                values: clone_values(&tab.values),
                notes: clone_strings(&tab.notes),
            };
            proof {
                assert(c@ =~= tab@);
            }
            Some(c)
        },
        None => None,
    }
}

/// Clone of an optional condition string.
fn clone_cond(c: &Option<String>) -> (r: Option<String>)
    ensures
        r == *c,
{
    match c {
        Some(s) => Some(s.clone()),
        None => None,
    }
}

/// The note list with the provenance note appended.
fn notes_with(notes: &Vec<String>, note: &str) -> (r: Vec<String>)
    ensures
        r@.map_values(|n: String| n@) == notes@.map_values(|n: String| n@).push(note@),
{
    let mut r = clone_strings(notes);
    r.push(note.to_owned());
    proof {
        assert(r@.map_values(|n: String| n@) =~= notes@.map_values(|n: String| n@).push(
            note@,
        ));
    }
    r
}

/// Mean-shift values: moment mean minus nominal at each sampled index,
/// prior value elsewhere.
fn mean_shift_values(
    old_vals: &Vec<i64>,
    nom: &Vec<i64>,
    moms: &Vec<Option<MomentSample>>,
    delay: bool,
) -> (r: Vec<i64>)
    requires
        old_vals@.len() == nom@.len(),
        moms@.len() == nom@.len(),
        samples_bounded(moms@),
        forall|i: int|
            0 <= i < nom@.len() ==> -VALUE_LIMIT <= #[trigger] nom@[i] <= VALUE_LIMIT,
    ensures
        r@ == patched_mean_shift(old_vals@, nom@, moms@, delay),
{
    let n = old_vals.len();
    let mut r: Vec<i64> = Vec::new();
    for idx in 0..n
        invariant
            old_vals@.len() == n,
            moms@.len() == n,
            nom@.len() == n,
            samples_bounded(moms@),
            forall|i: int|
                0 <= i < nom@.len() ==> -VALUE_LIMIT <= #[trigger] nom@[i] <= VALUE_LIMIT,
            r@.len() == idx,
            forall|j: int|
                0 <= j < idx ==> r@[j] == patched_mean_shift(old_vals@, nom@, moms@, delay)[j],
    {
        match moms[idx] {
            Some(m) => {
                let mean = if delay {
                    m.delay_mean
                } else {
                    m.transition_mean
                };
                r.push(mean - nom[idx]);
            },
            None => {
                r.push(old_vals[idx]);
            },
        }
    }
    proof {
        assert(r@ =~= patched_mean_shift(old_vals@, nom@, moms@, delay));
    }
    r
}

/// Standard-deviation or skewness values: the moment statistic at each
/// sampled index, prior value elsewhere.
fn spread_values(
    old_vals: &Vec<i64>,
    moms: &Vec<Option<MomentSample>>,
    delay: bool,
    skew: bool,
) -> (r: Vec<i64>)
    requires
        moms@.len() == old_vals@.len(),
    ensures
        r@ == patched_spread(old_vals@, moms@, delay, skew),
{
    let n = old_vals.len();
    let mut r: Vec<i64> = Vec::new();
    for idx in 0..n
        invariant
            old_vals@.len() == n,
            moms@.len() == n,
            r@.len() == idx,
            forall|j: int|
                0 <= j < idx ==> r@[j] == patched_spread(old_vals@, moms@, delay, skew)[j],
    {
        match moms[idx] {
            Some(m) => {
                let v = if delay {
                    if skew {
                        m.delay_skewness
                    } else {
                        m.delay_std_dev
                    }
                } else {
                    if skew {
                        m.transition_skewness
                    } else {
                        m.transition_std_dev
                    }
                };
                r.push(v);
            },
            None => {
                r.push(old_vals[idx]);
            },
        }
    }
    proof {
        assert(r@ =~= patched_spread(old_vals@, moms@, delay, skew));
    }
    r
}

/// Patches the six variation tables of `edge` of the arc at `h` from the
/// per-index samples, and stamps the provenance note on each touched table
/// and on the arc. The patch overwrites the prior content of the six slots
/// outright; indices without a sample keep their prior value. On any error
/// the model is left exactly as it was.
pub fn patch_arc(
    model: &mut LibraryModel,
    h: &ArcHandle,
    edge: Edge,
    moms: &Vec<Option<MomentSample>>,
    note: &str,
) -> (r: Result<(), PatchError>)
    requires
        model_wf(old(model)@),
        handle_in_bounds(old(model)@, *h),
        samples_bounded(moms@),
    ensures
        ({
            let a0 = old(model)@[h.cell as int].pins[h.pin as int].arcs[h.arc as int];
            match r {
                Ok(_) => {
                    &&& patch_accepted(a0, edge, moms@)
                    &&& final(model)@ == patched_model_view(old(model)@, *h, edge, moms@, note@)
                    &&& model_wf(final(model)@)
                },
                Err(e) => {
                    &&& final(model)@ == old(model)@
                    &&& match e {
                        PatchError::NominalAbsent => !nominals_present(a0, edge),
                        PatchError::VariationAbsent => {
                            &&& nominals_present(a0, edge)
                            &&& !variations_present(a0, edge)
                        },
                        PatchError::GridMismatch => {
                            &&& nominals_present(a0, edge)
                            &&& variations_present(a0, edge)
                            &&& !(grids_consistent(a0, edge) && moms@.len() == grid_size(
                                a0,
                                edge,
                            ))
                        },
                    }
                },
            }
        }),
{
    let ghost m0 = model@;
    let a = &model.cells[h.cell].pins[h.pin].arcs[h.arc];
    let ghost a0 = m0[h.cell as int].pins[h.pin as int].arcs[h.arc as int];
    proof {
        assert(a@ == a0);
        assert(arc_wf(a0));
    }
    let (nom_d_o, nom_t_o, ms_d_o, sd_d_o, sk_d_o, ms_t_o, sd_t_o, sk_t_o) = match edge {
        Edge::Rise => (
            &a.cell_rise,
            &a.rise_transition,
            &a.mean_shift_cell_rise,
            &a.std_dev_cell_rise,
            &a.skewness_cell_rise,
            &a.mean_shift_rise_transition,
            &a.std_dev_rise_transition,
            &a.skewness_rise_transition,
        ),
        Edge::Fall => (
            &a.cell_fall,
            &a.fall_transition,
            &a.mean_shift_cell_fall,
            &a.std_dev_cell_fall,
            &a.skewness_cell_fall,
            &a.mean_shift_fall_transition,
            &a.std_dev_fall_transition,
            &a.skewness_fall_transition,
        ),
    };
    proof {
        assert(table_opt_view(*nom_d_o) == nominal_delay(a0, edge));
        assert(table_opt_view(*nom_t_o) == nominal_transition(a0, edge));
    }
    let nd = match nom_d_o {
        Some(t) => t,
        None => {
            return Err(PatchError::NominalAbsent);
        },
    };
    let nt = match nom_t_o {
        Some(t) => t,
        None => {
            return Err(PatchError::NominalAbsent);
        },
    };
    let msd = match ms_d_o {
        Some(t) => t,
        None => {
            return Err(PatchError::VariationAbsent);
        },
    };
    let sdd = match sd_d_o {
        Some(t) => t,
        None => {
            return Err(PatchError::VariationAbsent);
        },
    };
    let skd = match sk_d_o {
        Some(t) => t,
        None => {
            return Err(PatchError::VariationAbsent);
        },
    };
    let mst = match ms_t_o {
        Some(t) => t,
        None => {
            return Err(PatchError::VariationAbsent);
        },
    };
    let sdt = match sd_t_o {
        Some(t) => t,
        None => {
            return Err(PatchError::VariationAbsent);
        },
    };
    let skt = match sk_t_o {
        Some(t) => t,
        None => {
            return Err(PatchError::VariationAbsent);
        },
    };
    let n = nd.values.len();
    if nt.values.len() != n || msd.values.len() != n || sdd.values.len() != n
        || skd.values.len() != n || mst.values.len() != n || sdt.values.len() != n
        || skt.values.len() != n || moms.len() != n {
        return Err(PatchError::GridMismatch);
    }
    let new_ms_d = LookupTable {
        index_1: clone_values(&msd.index_1),
        index_2: clone_values(&msd.index_2),
        values: mean_shift_values(&msd.values, &nd.values, moms, true),
        notes: notes_with(&msd.notes, note),
    };
    let new_sd_d = LookupTable {
        index_1: clone_values(&sdd.index_1),
        index_2: clone_values(&sdd.index_2),
        values: spread_values(&sdd.values, moms, true, false),
        notes: notes_with(&sdd.notes, note),
    };
    let new_sk_d = LookupTable {
        index_1: clone_values(&skd.index_1),
        index_2: clone_values(&skd.index_2),
        values: spread_values(&skd.values, moms, true, true),
        notes: notes_with(&skd.notes, note),
    };
    let new_ms_t = LookupTable {
        index_1: clone_values(&mst.index_1),
        index_2: clone_values(&mst.index_2),
        values: mean_shift_values(&mst.values, &nt.values, moms, false),
        notes: notes_with(&mst.notes, note),
    };
    let new_sd_t = LookupTable {
        index_1: clone_values(&sdt.index_1),
        index_2: clone_values(&sdt.index_2),
        values: spread_values(&sdt.values, moms, false, false),
        notes: notes_with(&sdt.notes, note),
    };
    let new_sk_t = LookupTable {
        index_1: clone_values(&skt.index_1),
        index_2: clone_values(&skt.index_2),
        values: spread_values(&skt.values, moms, false, true),
        notes: notes_with(&skt.notes, note),
    };
    let new_arc = match edge {
        Edge::Rise => TimingArc {
            related_pins: clone_strings(&a.related_pins),
            sense: a.sense,
            combinational: a.combinational,
            condition: clone_cond(&a.condition),
            cell_rise: clone_table_opt(&a.cell_rise),
            cell_fall: clone_table_opt(&a.cell_fall),
            rise_transition: clone_table_opt(&a.rise_transition),
            fall_transition: clone_table_opt(&a.fall_transition),
            mean_shift_cell_rise: Some(new_ms_d),
            mean_shift_cell_fall: clone_table_opt(&a.mean_shift_cell_fall),
            mean_shift_rise_transition: Some(new_ms_t),
            mean_shift_fall_transition: clone_table_opt(&a.mean_shift_fall_transition),
            std_dev_cell_rise: Some(new_sd_d),
            std_dev_cell_fall: clone_table_opt(&a.std_dev_cell_fall),
            std_dev_rise_transition: Some(new_sd_t),
            std_dev_fall_transition: clone_table_opt(&a.std_dev_fall_transition),
            skewness_cell_rise: Some(new_sk_d),
            skewness_cell_fall: clone_table_opt(&a.skewness_cell_fall),
            skewness_rise_transition: Some(new_sk_t),
            skewness_fall_transition: clone_table_opt(&a.skewness_fall_transition),
            notes: notes_with(&a.notes, note),
        },
        Edge::Fall => TimingArc {
            related_pins: clone_strings(&a.related_pins),
            sense: a.sense,
            combinational: a.combinational,
            condition: clone_cond(&a.condition),
            cell_rise: clone_table_opt(&a.cell_rise),
            cell_fall: clone_table_opt(&a.cell_fall),
            rise_transition: clone_table_opt(&a.rise_transition),
            fall_transition: clone_table_opt(&a.fall_transition),
            mean_shift_cell_rise: clone_table_opt(&a.mean_shift_cell_rise),
            mean_shift_cell_fall: Some(new_ms_d),
            mean_shift_rise_transition: clone_table_opt(&a.mean_shift_rise_transition),
            mean_shift_fall_transition: Some(new_ms_t),
            std_dev_cell_rise: clone_table_opt(&a.std_dev_cell_rise),
            std_dev_cell_fall: Some(new_sd_d),
            std_dev_rise_transition: clone_table_opt(&a.std_dev_rise_transition),
            std_dev_fall_transition: Some(new_sd_t),
            skewness_cell_rise: clone_table_opt(&a.skewness_cell_rise),
            skewness_cell_fall: Some(new_sk_d),
            skewness_rise_transition: clone_table_opt(&a.skewness_rise_transition),
            skewness_fall_transition: Some(new_sk_t),
            notes: notes_with(&a.notes, note),
        },
    };
    proof {
        assert(new_arc@ =~~= patched_arc_view(a0, edge, moms@, note@));
    }
    model.cells[h.cell].pins[h.pin].arcs[h.arc] = new_arc;
    proof {
        assert(model@ =~~= patched_model_view(m0, *h, edge, moms@, note@));
        lemma_patch_preserves_wf(m0, *h, edge, moms@, note@);
    }
    Ok(())
}

} // verus!
