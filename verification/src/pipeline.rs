//! The per-arc pipeline: resolve the arc a specification addresses, then
//! patch its variation tables from the collected samples, stamping the
//! provenance note built from the cell name and the arc ordinal.

use vstd::prelude::*;
use vstd::string::StringExecFns;

use crate::model::ArcHandle;
use crate::model::Edge;
use crate::model::LibraryModel;
use crate::model::handle_in_bounds;
use crate::model::model_wf;
use crate::moments::MomentSample;
use crate::moments::samples_bounded;
use crate::patch::PatchError;
use crate::patch::grid_size;
use crate::patch::nominal_delay;
use crate::patch::nominals_present;
use crate::patch::patch_accepted;
use crate::patch::patch_arc;
use crate::patch::patched_model_view;
use crate::patch::variations_present;
use crate::patch::grids_consistent;
use crate::resolve::ArcSpec;
use crate::resolve::ResolveError;
use crate::resolve::resolve_arc;
use crate::resolve::resolve_post;

verus! {

/// Why one arc was left unpatched. Either kind is scoped to the arc: the
/// model is untouched and other arcs can still be processed.
#[derive(Clone, Copy, Debug, PartialEq, Eq, Structural)]
pub enum ArcPatchError {
    Resolve(ResolveError),
    Patch(PatchError),
}

/// The provenance note: the cell name and the arc ordinal.
pub fn provenance_note(cell: &str, ordinal: &str) -> (r: String)
    ensures
        r@ == cell@ + " "@ + ordinal@,
{
    let mut out = cell.to_owned();
    out.append(" ");
    out.append(ordinal);
    out
}

/// The grid size the specification's edge asks for: the length of the
/// resolved arc's nominal delay table, if that table is present. This is the
/// number of per-index moment files to read.
pub fn nominal_grid_size(model: &LibraryModel, h: &ArcHandle, edge: Edge) -> (r: Option<
    usize,
>)
    requires
        handle_in_bounds(model@, *h),
    ensures
        ({
            let a = model@[h.cell as int].pins[h.pin as int].arcs[h.arc as int];
            match r {
                Some(n) => nominal_delay(a, edge) is Some && n as int == grid_size(a, edge),
                None => nominal_delay(a, edge) is None,
            }
        }),
{
    let arc = &model.cells[h.cell].pins[h.pin].arcs[h.arc];
    proof {
        assert(arc@ == model@[h.cell as int].pins[h.pin as int].arcs[h.arc as int]);
    }
    let t = match edge {
        Edge::Rise => &arc.cell_rise,
        Edge::Fall => &arc.cell_fall,
    };
    match t {
        Some(tab) => Some(tab.values.len()),
        None => None,
    }
}

/// Resolves the arc the specification addresses and patches the six
/// variation tables of its edge from the per-index samples. On any error
/// the model is exactly as it was; on success it is exactly the prior model
/// with that one arc patched.
pub fn apply_arc_patch(
    model: &mut LibraryModel,
    s: &ArcSpec,
    moms: &Vec<Option<MomentSample>>,
) -> (r: Result<ArcHandle, ArcPatchError>)
    requires
        model_wf(old(model)@),
        samples_bounded(moms@),
    ensures
        match r {
            Ok(h) => {
                &&& resolve_post(*s, old(model)@, Ok(h))
                &&& patch_accepted(
                    old(model)@[h.cell as int].pins[h.pin as int].arcs[h.arc as int],
                    s.edge,
                    moms@,
                )
                &&& final(model)@ == patched_model_view(
                    old(model)@,
                    h,
                    s.edge,
                    moms@,
                    s.cell_name@ + " "@ + s.arc_ordinal@,
                )
                &&& model_wf(final(model)@)
            },
            Err(e) => {
                &&& final(model)@ == old(model)@
                &&& match e {
                    ArcPatchError::Resolve(re) => resolve_post(*s, old(model)@, Err(re)),
                    ArcPatchError::Patch(pe) => exists|h: ArcHandle|
                        {
                            let a =
                                old(model)@[h.cell as int].pins[h.pin as int].arcs[h.arc as int];
                            &&& #[trigger] resolve_post(*s, old(model)@, Ok(h))
                            &&& match pe {
                                PatchError::NominalAbsent => !nominals_present(a, s.edge),
                                PatchError::VariationAbsent => {
                                    &&& nominals_present(a, s.edge)
                                    &&& !variations_present(a, s.edge)
                                },
                                PatchError::GridMismatch => {
                                    &&& nominals_present(a, s.edge)
                                    &&& variations_present(a, s.edge)
                                    &&& !(grids_consistent(a, s.edge) && moms@.len()
                                        == grid_size(a, s.edge))
                                },
                            }
                        },
                }
            },
        },
{
    let h = match resolve_arc(s, model) {
        Ok(h) => h,
        Err(e) => {
            return Err(ArcPatchError::Resolve(e));
        },
    };
    let note = provenance_note(s.cell_name.as_str(), s.arc_ordinal.as_str());
    match patch_arc(model, &h, s.edge, moms, note.as_str()) {
        Ok(_) => Ok(h),
        Err(e) => {
            proof {
                assert(resolve_post(*s, old(model)@, Ok(h)));
            }
            Err(ArcPatchError::Patch(e))
        },
    }
}

} // verus!
