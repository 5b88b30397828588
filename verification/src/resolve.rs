//! The arc resolver: locates the unique timing arc of the model that an
//! [`ArcSpec`] addresses.
//!
//! A `when` condition is held in the normal text form that the external
//! condition parser produces, so two condition texts address the same arc
//! exactly when their normal forms are equal. An empty condition text means
//! "no condition" and matches only arcs without one.

use vstd::prelude::*;

use crate::model::ArcHandle;
use crate::model::ArcView;
use crate::model::Cell;
use crate::model::CellView;
use crate::model::Edge;
use crate::model::LibraryModel;
use crate::model::TimingArc;
use crate::model::TimingSense;
use crate::model::cond_opt_view;
use crate::model::handle_in_bounds;
use crate::model::model_wf;

verus! {

/// One entry of the arc specification table: the composite key of the arc to
/// patch and where its moment files live.
#[derive(Clone, Debug, PartialEq)]
pub struct ArcSpec {
    pub cell_group: String,
    pub cell_name: String,
    pub output_pin: String,
    pub related_pin: String,
    pub arc_ordinal: String,
    /// Raw `when` condition text; empty means unconditioned.
    pub when_text: String,
    pub edge: Edge,
    pub sense: TimingSense,
}

/// Why a specification did not resolve to exactly one arc. Structural
/// failures are scoped to the one arc and do not abort a run over others.
#[derive(Clone, Copy, Debug, PartialEq, Eq, Structural)]
pub enum ResolveError {
    /// The `when` text does not parse as a boolean expression.
    ConditionSyntax,
    /// No cell of that name.
    CellNotFound,
    /// The cell has no pin of that name.
    PinNotFound,
    /// No arc of the pin matches the key.
    ArcNotFound,
    /// More than one arc of the pin matches the key.
    DuplicateMatch,
}

/// Normal form of a condition text, as the external boolean-expression
/// parser defines it: `None` where the text does not parse. A function of
/// the text alone.
pub uninterp spec fn cond_normal(text: Seq<char>) -> Option<Seq<char>>;

/// Relies on `liberty_db::expression::BooleanExpression`: `from_str` parses
/// the text (a pure function of it), and `Display` renders the parse tree
/// back in normal form.
#[verifier::external_body]
fn normalize_condition(text: &str) -> (r: Option<String>)
    ensures
        r is Some <==> cond_normal(text@) is Some,
        r is Some ==> r->0@ == cond_normal(text@)->0,
{
    match <liberty_db::expression::BooleanExpression as core::str::FromStr>::from_str(text) {
        Ok(e) => Some(format!("{e}")),
        Err(_) => None,
    }
}

/// The condition a specification asks for: `Some(None)` for "no condition",
/// `Some(Some(c))` for a condition with normal form `c`, `None` where the
/// text does not parse.
pub open spec fn spec_cond(when: Seq<char>) -> Option<Option<Seq<char>>> {
    if when.len() == 0 {
        Some(None)
    } else {
        match cond_normal(when) {
            Some(c) => Some(Some(c)),
            None => None,
        }
    }
}

/// An arc matches the key: combinational, same sense, its related-pin set is
/// exactly the one related pin, and its condition equals the asked one.
pub open spec fn arc_matches(
    a: ArcView,
    sense: TimingSense,
    related: Seq<char>,
    cond: Option<Seq<char>>,
) -> bool {
    &&& a.combinational
    &&& a.sense == sense
    &&& a.related_pins.len() == 1
    &&& a.related_pins[0] == related
    &&& a.condition == cond
}

/// Some cell of the model carries the name.
pub open spec fn model_has_cell(m: Seq<CellView>, name: Seq<char>) -> bool {
    exists|i: int| 0 <= i < m.len() && (#[trigger] m[i]).name == name
}

/// Some pin of the cell carries the name.
pub open spec fn cell_has_pin(c: CellView, name: Seq<char>) -> bool {
    exists|i: int| 0 <= i < c.pins.len() && (#[trigger] c.pins[i]).name == name
}

/// How many arcs of the pin match the key.
pub open spec fn match_count(
    arcs: Seq<ArcView>,
    sense: TimingSense,
    related: Seq<char>,
    cond: Option<Seq<char>>,
) -> int
    decreases arcs.len(),
{
    if arcs.len() == 0 {
        0
    } else {
        match_count(arcs.drop_last(), sense, related, cond) + if arc_matches(
            arcs.last(),
            sense,
            related,
            cond,
        ) {
            1int
        } else {
            0int
        }
    }
}

/// Everything resolution promises, for every outcome. Under a well-formed
/// model this pins the outcome: resolution is deterministic.
pub open spec fn resolve_post(
    s: ArcSpec,
    m: Seq<CellView>,
    r: Result<ArcHandle, ResolveError>,
) -> bool {
    match r {
        Ok(h) => {
            &&& spec_cond(s.when_text@) is Some
            &&& handle_in_bounds(m, h)
            &&& m[h.cell as int].name == s.cell_name@
            &&& m[h.cell as int].pins[h.pin as int].name == s.output_pin@
            &&& arc_matches(
                m[h.cell as int].pins[h.pin as int].arcs[h.arc as int],
                s.sense,
                s.related_pin@,
                spec_cond(s.when_text@)->0,
            )
            &&& forall|k: int|
                0 <= k < m[h.cell as int].pins[h.pin as int].arcs.len() && k != h.arc
                    ==> !arc_matches(
                    #[trigger] m[h.cell as int].pins[h.pin as int].arcs[k],
                    s.sense,
                    s.related_pin@,
                    spec_cond(s.when_text@)->0,
                )
        },
        Err(e) => match e {
            ResolveError::ConditionSyntax => spec_cond(s.when_text@) is None,
            ResolveError::CellNotFound => {
                &&& spec_cond(s.when_text@) is Some
                &&& !model_has_cell(m, s.cell_name@)
            },
            ResolveError::PinNotFound => {
                &&& spec_cond(s.when_text@) is Some
                &&& model_has_cell(m, s.cell_name@)
                &&& forall|i: int|
                    0 <= i < m.len() && (#[trigger] m[i]).name == s.cell_name@
                        ==> !cell_has_pin(m[i], s.output_pin@)
            },
            ResolveError::ArcNotFound => {
                &&& spec_cond(s.when_text@) is Some
                &&& model_has_cell(m, s.cell_name@)
                &&& forall|i: int, j: int|
                    0 <= i < m.len() && (#[trigger] m[i]).name == s.cell_name@ && 0 <= j
                        < m[i].pins.len() && (#[trigger] m[i].pins[j]).name == s.output_pin@
                        ==> match_count(
                        m[i].pins[j].arcs,
                        s.sense,
                        s.related_pin@,
                        spec_cond(s.when_text@)->0,
                    ) == 0
                &&& exists|i: int|
                    0 <= i < m.len() && (#[trigger] m[i]).name == s.cell_name@ && cell_has_pin(
                        m[i],
                        s.output_pin@,
                    )
            },
            ResolveError::DuplicateMatch => {
                &&& spec_cond(s.when_text@) is Some
                &&& exists|i: int, j: int|
                    0 <= i < m.len() && (#[trigger] m[i]).name == s.cell_name@ && 0 <= j
                        < m[i].pins.len() && (#[trigger] m[i].pins[j]).name == s.output_pin@
                        && match_count(
                        m[i].pins[j].arcs,
                        s.sense,
                        s.related_pin@,
                        spec_cond(s.when_text@)->0,
                    ) >= 2
            },
        },
    }
}

/// Whether the arc matches the key, executably.
fn arc_matches_exec(
    a: &TimingArc,
    sense: TimingSense,
    related: &String,
    cond: &Option<String>,
) -> (b: bool)
    ensures
        b == arc_matches(a@, sense, related@, cond_opt_view(*cond)),
{
    if !a.combinational {
        return false;
    }
    if a.sense != sense {
        return false;
    }
    if a.related_pins.len() != 1 {
        return false;
    }
    proof {
        assert(a@.related_pins[0] == a.related_pins@[0]@);
    }
    if !(a.related_pins[0] == *related) {
        return false;
    }
    match (&a.condition, cond) {
        (None, None) => true,
        (Some(ac), Some(sc)) => *ac == *sc,
        _ => false,
    }
}

/// Index of the cell with the name, if any.
fn find_cell(model: &LibraryModel, name: &String) -> (r: Option<usize>)
    ensures
        match r {
            Some(i) => i < model@.len() && model@[i as int].name == name@,
            None => !model_has_cell(model@, name@),
        },
{
    let n = model.cells.len();
    for i in 0..n
        invariant
            n == model.cells@.len(),
            forall|j: int| 0 <= j < i ==> (#[trigger] model@[j]).name != name@,
    {
        proof {
            assert(model@[i as int] == model.cells@[i as int]@);
        }
        if model.cells[i].name == *name {
            return Some(i);
        }
    }
    None
}

/// Index of the pin with the name within the cell, if any.
fn find_pin(cell: &Cell, name: &String) -> (r: Option<usize>)
    ensures
        match r {
            Some(i) => i < cell@.pins.len() && cell@.pins[i as int].name == name@,
            None => !cell_has_pin(cell@, name@),
        },
{
    let n = cell.pins.len();
    for i in 0..n
        invariant
            n == cell.pins@.len(),
            forall|j: int| 0 <= j < i ==> (#[trigger] cell@.pins[j]).name != name@,
    {
        proof {
            assert(cell@.pins[i as int] == cell.pins@[i as int]@);
        }
        if cell.pins[i].name == *name {
            return Some(i);
        }
    }
    None
}

/// Resolves the unique arc the specification addresses, or says exactly why
/// there is none. Resolution never mutates the model, and under a
/// well-formed model it is deterministic.
pub fn resolve_arc(s: &ArcSpec, model: &LibraryModel) -> (r: Result<ArcHandle, ResolveError>)
    requires
        model_wf(model@),
    ensures
        resolve_post(*s, model@, r),
{
    let ncond: Option<String> = if s.when_text.as_str().is_empty() {
        None
    } else {
        match normalize_condition(s.when_text.as_str()) {
            Some(c) => Some(c),
            None => {
                return Err(ResolveError::ConditionSyntax);
            },
        }
    };
    proof {
        assert(spec_cond(s.when_text@) == Some(cond_opt_view(ncond)));
    }
    let ghost cond = cond_opt_view(ncond);
    let ci = match find_cell(model, &s.cell_name) {
        Some(i) => i,
        None => {
            return Err(ResolveError::CellNotFound);
        },
    };
    let cell = &model.cells[ci];
    proof {
        assert(cell@ == model@[ci as int]);
    }
    let pi = match find_pin(cell, &s.output_pin) {
        Some(i) => i,
        None => {
            proof {
                assert(model_has_cell(model@, s.cell_name@));
                assert forall|i: int|
                    0 <= i < model@.len() && (#[trigger] model@[i]).name
                        == s.cell_name@ implies !cell_has_pin(model@[i], s.output_pin@) by {
                    if i < ci as int {
                        assert(model@[i].name != model@[ci as int].name);
                    } else if (ci as int) < i {
                        assert(model@[ci as int].name != model@[i].name);
                    }
                }
            }
            return Err(ResolveError::PinNotFound);
        },
    };
    let pin = &cell.pins[pi];
    proof {
        assert(model@[ci as int].pins[pi as int] == pin@);
        assert(pin@.name == s.output_pin@);
    }
    let n_arcs = pin.arcs.len();
    let mut ai: usize = 0;
    let mut found: Option<usize> = None;
    while ai < n_arcs
        invariant
            n_arcs == pin.arcs@.len(),
            0 <= ai <= n_arcs,
            pin@ == model@[ci as int].pins[pi as int],
            pin@.name == s.output_pin@,
            ci < model@.len(),
            pi < model@[ci as int].pins.len(),
            model@[ci as int].name == s.cell_name@,
            spec_cond(s.when_text@) == Some(cond),
            cond == cond_opt_view(ncond),
            match found {
                Some(k) => {
                    &&& k < ai
                    &&& arc_matches(pin@.arcs[k as int], s.sense, s.related_pin@, cond)
                    &&& match_count(pin@.arcs.take(ai as int), s.sense, s.related_pin@, cond)
                        == 1
                },
                None => match_count(pin@.arcs.take(ai as int), s.sense, s.related_pin@, cond)
                    == 0,
            },
        decreases n_arcs - ai,
    {
        proof {
            assert(pin@.arcs.take(ai + 1).drop_last() =~= pin@.arcs.take(ai as int));
            assert(pin@.arcs.take(ai + 1).last() == pin@.arcs[ai as int]);
            assert(pin@.arcs[ai as int] == pin.arcs@[ai as int]@);
        }
        if arc_matches_exec(&pin.arcs[ai], s.sense, &s.related_pin, &ncond) {
            match found {
                Some(_) => {
                    proof {
                        lemma_match_count_mono(
                            pin@.arcs,
                            ai + 1,
                            s.sense,
                            s.related_pin@,
                            cond,
                        );
                        assert(match_count(pin@.arcs, s.sense, s.related_pin@, cond) >= 2);
                        assert(0 <= (ci as int) < model@.len() && model@[ci as int].name
                            == s.cell_name@ && 0 <= (pi as int) < model@[ci as int].pins.len()
                            && model@[ci as int].pins[pi as int].name == s.output_pin@
                            && match_count(
                            model@[ci as int].pins[pi as int].arcs,
                            s.sense,
                            s.related_pin@,
                            cond,
                        ) >= 2);
                    }
                    return Err(ResolveError::DuplicateMatch);
                },
                None => {
                    found = Some(ai);
                },
            }
        }
        ai += 1;
    }
    proof {
        assert(pin@.arcs.take(n_arcs as int) =~= pin@.arcs);
    }
    match found {
        Some(k) => {
            proof {
                lemma_match_count_unique(pin@.arcs, k as int, s.sense, s.related_pin@, cond);
            }
            Ok(ArcHandle { cell: ci, pin: pi, arc: k })
        },
        None => {
            proof {
                assert(model_has_cell(model@, s.cell_name@));
                assert(cell_has_pin(model@[ci as int], s.output_pin@));
                assert forall|i: int, j: int|
                    0 <= i < model@.len() && (#[trigger] model@[i]).name == s.cell_name@ && 0
                        <= j < model@[i].pins.len() && (#[trigger] model@[i].pins[j]).name
                        == s.output_pin@ implies match_count(
                    model@[i].pins[j].arcs,
                    s.sense,
                    s.related_pin@,
                    cond,
                ) == 0 by {
                    if i != ci {
                        assert(false);
                    }
                    if j != pi {
                        assert(false);
                    }
                }
            }
            Err(ResolveError::ArcNotFound)
        },
    }
}

/// A sequence with a match at `k` has a positive match count once the prefix
/// reaches past `k`.
proof fn lemma_match_count_mono(
    arcs: Seq<ArcView>,
    upto: int,
    sense: TimingSense,
    related: Seq<char>,
    cond: Option<Seq<char>>,
)
    requires
        0 <= upto <= arcs.len(),
    ensures
        match_count(arcs, sense, related, cond) >= match_count(
            arcs.take(upto),
            sense,
            related,
            cond,
        ),
    decreases arcs.len() - upto,
{
    if upto < arcs.len() {
        assert(arcs.take(upto + 1).drop_last() =~= arcs.take(upto));
        assert(arcs.take(upto + 1).last() == arcs[upto]);
        lemma_match_count_mono(arcs, upto + 1, sense, related, cond);
    } else {
        assert(arcs.take(upto) =~= arcs);
    }
}

/// A match count of one means: the one match, nothing else matches.
proof fn lemma_match_count_unique(
    arcs: Seq<ArcView>,
    k: int,
    sense: TimingSense,
    related: Seq<char>,
    cond: Option<Seq<char>>,
)
    requires
        match_count(arcs, sense, related, cond) == 1,
        0 <= k < arcs.len(),
        arc_matches(arcs[k], sense, related, cond),
    ensures
        forall|j: int|
            0 <= j < arcs.len() && j != k ==> !arc_matches(
                #[trigger] arcs[j],
                sense,
                related,
                cond,
            ),
    decreases arcs.len(),
{
    lemma_match_count_split(arcs, sense, related, cond);
}

/// The match count counts exactly the matching indexes: if two distinct
/// indexes match, the count is at least two; if some index matches, it is at
/// least one.
proof fn lemma_match_count_split(
    arcs: Seq<ArcView>,
    sense: TimingSense,
    related: Seq<char>,
    cond: Option<Seq<char>>,
)
    ensures
        forall|j1: int, j2: int|
            0 <= j1 < j2 < arcs.len() && arc_matches(#[trigger] arcs[j1], sense, related, cond)
                && arc_matches(#[trigger] arcs[j2], sense, related, cond) ==> match_count(
                arcs,
                sense,
                related,
                cond,
            ) >= 2,
    decreases arcs.len(),
{
    if arcs.len() > 0 {
        lemma_match_count_split(arcs.drop_last(), sense, related, cond);
        lemma_match_count_nonneg(arcs.drop_last(), sense, related, cond);
        assert forall|j1: int, j2: int|
            0 <= j1 < j2 < arcs.len() && arc_matches(#[trigger] arcs[j1], sense, related, cond)
                && arc_matches(#[trigger] arcs[j2], sense, related, cond) implies match_count(
            arcs,
            sense,
            related,
            cond,
        ) >= 2 by {
            if j2 == arcs.len() - 1 {
                assert(arcs.drop_last()[j1] == arcs[j1]);
                lemma_match_count_at(arcs.drop_last(), j1, sense, related, cond);
            } else {
                assert(arcs.drop_last()[j1] == arcs[j1]);
                assert(arcs.drop_last()[j2] == arcs[j2]);
            }
        }
    }
}

/// A matching index gives a match count of at least one.
proof fn lemma_match_count_at(
    arcs: Seq<ArcView>,
    j: int,
    sense: TimingSense,
    related: Seq<char>,
    cond: Option<Seq<char>>,
)
    requires
        0 <= j < arcs.len(),
        arc_matches(arcs[j], sense, related, cond),
    ensures
        match_count(arcs, sense, related, cond) >= 1,
    decreases arcs.len(),
{
    lemma_match_count_nonneg(arcs.drop_last(), sense, related, cond);
    if j < arcs.len() - 1 {
        assert(arcs.drop_last()[j] == arcs[j]);
        lemma_match_count_at(arcs.drop_last(), j, sense, related, cond);
    }
}

/// A sequence without a matching index has match count zero.
proof fn lemma_match_count_zero(
    arcs: Seq<ArcView>,
    sense: TimingSense,
    related: Seq<char>,
    cond: Option<Seq<char>>,
)
    requires
        forall|j: int|
            0 <= j < arcs.len() ==> !arc_matches(#[trigger] arcs[j], sense, related, cond),
    ensures
        match_count(arcs, sense, related, cond) == 0,
    decreases arcs.len(),
{
    if arcs.len() > 0 {
        assert(forall|j: int|
            0 <= j < arcs.len() - 1 ==> arcs.drop_last()[j] == #[trigger] arcs[j]);
        lemma_match_count_zero(arcs.drop_last(), sense, related, cond);
    }
}

/// If no index but one can match, the match count is at most one.
proof fn lemma_match_count_le_one(
    arcs: Seq<ArcView>,
    k0: int,
    sense: TimingSense,
    related: Seq<char>,
    cond: Option<Seq<char>>,
)
    requires
        forall|j: int|
            0 <= j < arcs.len() && j != k0 ==> !arc_matches(
                #[trigger] arcs[j],
                sense,
                related,
                cond,
            ),
    ensures
        match_count(arcs, sense, related, cond) <= 1,
    decreases arcs.len(),
{
    if arcs.len() > 0 {
        assert(forall|j: int|
            0 <= j < arcs.len() - 1 ==> arcs.drop_last()[j] == #[trigger] arcs[j]);
        if k0 == arcs.len() - 1 {
            lemma_match_count_zero(arcs.drop_last(), sense, related, cond);
        } else {
            lemma_match_count_le_one(arcs.drop_last(), k0, sense, related, cond);
        }
    }
}

/// Two cells with the same name are the same cell, in a well-formed model.
proof fn lemma_same_name_same_cell(m: Seq<CellView>, i: int, j: int)
    requires
        model_wf(m),
        0 <= i < m.len(),
        0 <= j < m.len(),
        m[i].name == m[j].name,
    ensures
        i == j,
{
    if i < j {
        assert(m[i].name != m[j].name);
    } else if j < i {
        assert(m[j].name != m[i].name);
    }
}

/// Two pins of one cell with the same name are the same pin, in a
/// well-formed model.
proof fn lemma_same_name_same_pin(m: Seq<CellView>, c: int, i: int, j: int)
    requires
        model_wf(m),
        0 <= c < m.len(),
        0 <= i < m[c].pins.len(),
        0 <= j < m[c].pins.len(),
        m[c].pins[i].name == m[c].pins[j].name,
    ensures
        i == j,
{
    if i < j {
        assert(m[c].pins[i].name != m[c].pins[j].name);
    } else if j < i {
        assert(m[c].pins[j].name != m[c].pins[i].name);
    }
}

/// Resolution is deterministic: the promises of [`resolve_post`] pin the
/// outcome, so any two outcomes for the same specification against the same
/// well-formed model are equal.
pub proof fn lemma_resolve_deterministic(
    s: ArcSpec,
    m: Seq<CellView>,
    r1: Result<ArcHandle, ResolveError>,
    r2: Result<ArcHandle, ResolveError>,
)
    requires
        model_wf(m),
        resolve_post(s, m, r1),
        resolve_post(s, m, r2),
    ensures
        r1 == r2,
{
    match (r1, r2) {
        (Ok(h1), Ok(h2)) => {
            lemma_same_name_same_cell(m, h1.cell as int, h2.cell as int);
            lemma_same_name_same_pin(m, h1.cell as int, h1.pin as int, h2.pin as int);
            if h1.arc != h2.arc {
                assert(!arc_matches(
                    m[h1.cell as int].pins[h1.pin as int].arcs[h1.arc as int],
                    s.sense,
                    s.related_pin@,
                    spec_cond(s.when_text@)->0,
                ));
            }
        },
        (Ok(h1), Err(e2)) => {
            lemma_ok_excludes_err(s, m, h1, e2);
        },
        (Err(e1), Ok(h2)) => {
            lemma_ok_excludes_err(s, m, h2, e1);
        },
        (Err(e1), Err(e2)) => {
            if e1 != e2 {
                lemma_errs_exclusive(s, m, e1, e2);
            }
        },
    }
}

/// Helper for determinism: a resolved arc contradicts every error outcome.
proof fn lemma_ok_excludes_err(s: ArcSpec, m: Seq<CellView>, h1: ArcHandle, e: ResolveError)
    requires
        model_wf(m),
        resolve_post(s, m, Ok(h1)),
    ensures
        !resolve_post(s, m, Err(e)),
{
    if !resolve_post(s, m, Err(e)) {
        return;
    }
    let cond = spec_cond(s.when_text@)->0;
    assert(m[h1.cell as int].name == s.cell_name@);
    assert(model_has_cell(m, s.cell_name@));
    assert(cell_has_pin(m[h1.cell as int], s.output_pin@));
    match e {
        ResolveError::ConditionSyntax => {},
        ResolveError::CellNotFound => {},
        ResolveError::PinNotFound => {
            assert(!cell_has_pin(m[h1.cell as int], s.output_pin@));
        },
        ResolveError::ArcNotFound => {
            assert(match_count(
                m[h1.cell as int].pins[h1.pin as int].arcs,
                s.sense,
                s.related_pin@,
                cond,
            ) == 0);
            lemma_match_count_at(
                m[h1.cell as int].pins[h1.pin as int].arcs,
                h1.arc as int,
                s.sense,
                s.related_pin@,
                cond,
            );
        },
        ResolveError::DuplicateMatch => {
            let (i, j) = choose|i: int, j: int|
                0 <= i < m.len() && (#[trigger] m[i]).name == s.cell_name@ && 0 <= j
                    < m[i].pins.len() && (#[trigger] m[i].pins[j]).name == s.output_pin@
                    && match_count(m[i].pins[j].arcs, s.sense, s.related_pin@, cond) >= 2;
            lemma_same_name_same_cell(m, i, h1.cell as int);
            lemma_same_name_same_pin(m, i, j, h1.pin as int);
            lemma_match_count_le_one(
                m[h1.cell as int].pins[h1.pin as int].arcs,
                h1.arc as int,
                s.sense,
                s.related_pin@,
                cond,
            );
        },
    }
}

/// Helper for determinism: no two different errors can both be promised.
proof fn lemma_errs_exclusive(s: ArcSpec, m: Seq<CellView>, e1: ResolveError, e2: ResolveError)
    requires
        model_wf(m),
        resolve_post(s, m, Err(e1)),
        e1 != e2,
    ensures
        !resolve_post(s, m, Err(e2)),
{
    if !resolve_post(s, m, Err(e2)) {
        return;
    }
    let cond = spec_cond(s.when_text@)->0;
    match (e1, e2) {
        (ResolveError::PinNotFound, ResolveError::ArcNotFound)
        | (ResolveError::ArcNotFound, ResolveError::PinNotFound) => {
            let i = choose|i: int|
                0 <= i < m.len() && (#[trigger] m[i]).name == s.cell_name@ && cell_has_pin(
                    m[i],
                    s.output_pin@,
                );
            assert(!cell_has_pin(m[i], s.output_pin@));
        },
        (ResolveError::PinNotFound, ResolveError::DuplicateMatch)
        | (ResolveError::DuplicateMatch, ResolveError::PinNotFound) => {
            let (i, j) = choose|i: int, j: int|
                0 <= i < m.len() && (#[trigger] m[i]).name == s.cell_name@ && 0 <= j
                    < m[i].pins.len() && (#[trigger] m[i].pins[j]).name == s.output_pin@
                    && match_count(m[i].pins[j].arcs, s.sense, s.related_pin@, cond) >= 2;
            assert(cell_has_pin(m[i], s.output_pin@));
            assert(!cell_has_pin(m[i], s.output_pin@));
        },
        (ResolveError::ArcNotFound, ResolveError::DuplicateMatch)
        | (ResolveError::DuplicateMatch, ResolveError::ArcNotFound) => {
            let (i, j) = choose|i: int, j: int|
                0 <= i < m.len() && (#[trigger] m[i]).name == s.cell_name@ && 0 <= j
                    < m[i].pins.len() && (#[trigger] m[i].pins[j]).name == s.output_pin@
                    && match_count(m[i].pins[j].arcs, s.sense, s.related_pin@, cond) >= 2;
            assert(match_count(m[i].pins[j].arcs, s.sense, s.related_pin@, cond) == 0);
        },
        (ResolveError::CellNotFound, ResolveError::DuplicateMatch)
        | (ResolveError::DuplicateMatch, ResolveError::CellNotFound) => {
            let (i, j) = choose|i: int, j: int|
                0 <= i < m.len() && (#[trigger] m[i]).name == s.cell_name@ && 0 <= j
                    < m[i].pins.len() && (#[trigger] m[i].pins[j]).name == s.output_pin@
                    && match_count(m[i].pins[j].arcs, s.sense, s.related_pin@, cond) >= 2;
            assert(model_has_cell(m, s.cell_name@));
        },
        _ => {},
    }
}

/// Match counts are never negative.
proof fn lemma_match_count_nonneg(
    arcs: Seq<ArcView>,
    sense: TimingSense,
    related: Seq<char>,
    cond: Option<Seq<char>>,
)
    ensures
        match_count(arcs, sense, related, cond) >= 0,
    decreases arcs.len(),
{
    if arcs.len() > 0 {
        lemma_match_count_nonneg(arcs.drop_last(), sense, related, cond);
    }
}

} // verus!
