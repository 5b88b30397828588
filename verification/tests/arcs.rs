use ocv_patch::model::{Cell, Edge, LibraryModel, LookupTable, Pin, TimingArc, TimingSense};
use ocv_patch::moments::MomentSample;
use ocv_patch::patch::{patch_arc, PatchError};
use ocv_patch::pipeline::{apply_arc_patch, nominal_grid_size, ArcPatchError};
use ocv_patch::resolve::{resolve_arc, ArcSpec, ResolveError};

const FIXED_ONE: i64 = 1_000_000_000_000;

fn table(values: Vec<i64>) -> Option<LookupTable> {
    Some(LookupTable {
        index_1: values.clone(),
        index_2: vec![0],
        values,
        notes: Vec::new(),
    })
}

fn arc(related: &str, condition: Option<&str>, n: usize) -> TimingArc {
    TimingArc {
        related_pins: vec![related.to_string()],
        sense: TimingSense::PositiveUnate,
        combinational: true,
        condition: condition.map(|c| c.to_string()),
        cell_rise: table(vec![FIXED_ONE; n]),
        cell_fall: table(vec![FIXED_ONE; n]),
        rise_transition: table(vec![2 * FIXED_ONE; n]),
        fall_transition: table(vec![2 * FIXED_ONE; n]),
        mean_shift_cell_rise: table(vec![7; n]),
        mean_shift_cell_fall: table(vec![7; n]),
        mean_shift_rise_transition: table(vec![7; n]),
        mean_shift_fall_transition: table(vec![7; n]),
        std_dev_cell_rise: table(vec![8; n]),
        std_dev_cell_fall: table(vec![8; n]),
        std_dev_rise_transition: table(vec![8; n]),
        std_dev_fall_transition: table(vec![8; n]),
        skewness_cell_rise: table(vec![9; n]),
        skewness_cell_fall: table(vec![9; n]),
        skewness_rise_transition: table(vec![9; n]),
        skewness_fall_transition: table(vec![9; n]),
        notes: Vec::new(),
    }
}

fn model(arcs: Vec<TimingArc>) -> LibraryModel {
    LibraryModel {
        cells: vec![Cell {
            name: "AN2D1".to_string(),
            pins: vec![Pin { name: "Z".to_string(), arcs }],
        }],
    }
}

fn spec(related: &str, when: &str) -> ArcSpec {
    ArcSpec {
        cell_group: "AN2".to_string(),
        cell_name: "AN2D1".to_string(),
        output_pin: "Z".to_string(),
        related_pin: related.to_string(),
        arc_ordinal: "002".to_string(),
        when_text: when.to_string(),
        edge: Edge::Rise,
        sense: TimingSense::PositiveUnate,
    }
}

fn sample(delay_mean: i64) -> MomentSample {
    MomentSample {
        delay_mean,
        delay_std_dev: 2,
        delay_skewness: 3,
        transition_mean: 4,
        transition_std_dev: 5,
        transition_skewness: 6,
    }
}

#[test]
fn scenario_rise_delta() {
    // nominal cell_rise[0] is 1.00; the scaled moment mean is 1.23, so the
    // patched mean shift at index 0 is exactly 0.23.
    let mut m = model(vec![arc("A1", None, 1)]);
    let s = spec("A1", "");
    let raw = b"header\n1.23e-9,2e-9,3e-9,4e-9,5e-9,6e-9\n".to_vec();
    let sm = ocv_patch::moments::parse_moment_file(&raw, 9).unwrap();
    let moms = vec![Some(sm)];
    let h = apply_arc_patch(&mut m, &s, &moms).unwrap();
    assert_eq!((h.cell, h.pin, h.arc), (0, 0, 0));
    let a = &m.cells[0].pins[0].arcs[0];
    assert_eq!(a.mean_shift_cell_rise.as_ref().unwrap().values[0], 230_000_000_000);
    assert_eq!(a.std_dev_cell_rise.as_ref().unwrap().values[0], 2 * FIXED_ONE);
    assert_eq!(a.skewness_cell_rise.as_ref().unwrap().values[0], 3 * FIXED_ONE);
    // transition mean shift: 4.00 - 2.00 = 2.00
    assert_eq!(
        a.mean_shift_rise_transition.as_ref().unwrap().values[0],
        2 * FIXED_ONE
    );
    assert_eq!(a.notes, vec!["AN2D1 002".to_string()]);
    assert_eq!(
        a.mean_shift_cell_rise.as_ref().unwrap().notes,
        vec!["AN2D1 002".to_string()]
    );
    // the fall side is untouched
    assert_eq!(a.mean_shift_cell_fall.as_ref().unwrap().values[0], 7);
}

#[test]
fn missing_sample_retains_prior_values() {
    let mut m = model(vec![arc("A1", None, 2)]);
    let s = spec("A1", "");
    let moms = vec![Some(sample(FIXED_ONE + 5)), None];
    apply_arc_patch(&mut m, &s, &moms).unwrap();
    let a = &m.cells[0].pins[0].arcs[0];
    let ms = a.mean_shift_cell_rise.as_ref().unwrap();
    assert_eq!(ms.values[0], 5);
    assert_eq!(ms.values[1], 7);
    let sd = a.std_dev_cell_rise.as_ref().unwrap();
    assert_eq!(sd.values[0], 2);
    assert_eq!(sd.values[1], 8);
    let sk = a.skewness_cell_rise.as_ref().unwrap();
    assert_eq!(sk.values[0], 3);
    assert_eq!(sk.values[1], 9);
}

#[test]
fn resolve_is_deterministic() {
    let m = model(vec![arc("A2", None, 1), arc("A1", None, 1)]);
    let s = spec("A1", "");
    let h1 = resolve_arc(&s, &m).unwrap();
    let h2 = resolve_arc(&s, &m).unwrap();
    assert_eq!(h1, h2);
    assert_eq!(h1.arc, 1);
}

#[test]
fn patch_is_repeatable_on_fresh_models() {
    let s = spec("A1", "");
    let moms = vec![Some(sample(FIXED_ONE + 11)), Some(sample(FIXED_ONE + 12))];
    let mut m1 = model(vec![arc("A1", None, 2)]);
    let mut m2 = model(vec![arc("A1", None, 2)]);
    apply_arc_patch(&mut m1, &s, &moms).unwrap();
    apply_arc_patch(&mut m2, &s, &moms).unwrap();
    assert_eq!(m1, m2);
}

#[test]
fn resolve_unknown_cell() {
    let m = model(vec![arc("A1", None, 1)]);
    let mut s = spec("A1", "");
    s.cell_name = "ND2D1".to_string();
    assert_eq!(resolve_arc(&s, &m), Err(ResolveError::CellNotFound));
}

#[test]
fn resolve_unknown_pin() {
    let m = model(vec![arc("A1", None, 1)]);
    let mut s = spec("A1", "");
    s.output_pin = "ZN".to_string();
    assert_eq!(resolve_arc(&s, &m), Err(ResolveError::PinNotFound));
}

#[test]
fn resolve_no_matching_arc() {
    let m = model(vec![arc("A2", None, 1)]);
    let s = spec("A1", "");
    assert_eq!(resolve_arc(&s, &m), Err(ResolveError::ArcNotFound));
}

#[test]
fn resolve_ambiguous_match() {
    let m = model(vec![arc("A1", None, 1), arc("A1", None, 1)]);
    let s = spec("A1", "");
    assert_eq!(resolve_arc(&s, &m), Err(ResolveError::DuplicateMatch));
}

#[test]
fn resolve_bad_condition_text() {
    let m = model(vec![arc("A1", None, 1)]);
    let s = spec("A1", "((");
    assert_eq!(resolve_arc(&s, &m), Err(ResolveError::ConditionSyntax));
}

#[test]
fn condition_matches_by_normal_form() {
    // the model holds the parser's normal form; an equivalent spelling of
    // the same expression resolves to the same arc
    let m = model(vec![arc("A1", None, 1), arc("A1", Some("A2*B"), 1)]);
    let s = spec("A1", "A2&B");
    let h = resolve_arc(&s, &m).unwrap();
    assert_eq!(h.arc, 1);
}

#[test]
fn empty_condition_matches_only_unconditioned() {
    let m = model(vec![arc("A1", Some("A2"), 1)]);
    let s = spec("A1", "");
    assert_eq!(resolve_arc(&s, &m), Err(ResolveError::ArcNotFound));
}

#[test]
fn patch_missing_variation_table() {
    let mut bad = arc("A1", None, 1);
    bad.std_dev_cell_rise = None;
    let mut m = model(vec![bad]);
    let s = spec("A1", "");
    let moms = vec![Some(sample(0))];
    let before = m.clone();
    let err = apply_arc_patch(&mut m, &s, &moms).unwrap_err();
    assert_eq!(err, ArcPatchError::Patch(PatchError::VariationAbsent));
    assert_eq!(m, before);
}

#[test]
fn patch_missing_nominal_table() {
    let mut bad = arc("A1", None, 1);
    bad.cell_rise = None;
    let mut m = model(vec![bad]);
    let s = spec("A1", "");
    let moms = vec![Some(sample(0))];
    let err = apply_arc_patch(&mut m, &s, &moms).unwrap_err();
    assert_eq!(err, ArcPatchError::Patch(PatchError::NominalAbsent));
}

#[test]
fn patch_sample_count_mismatch() {
    let mut m = model(vec![arc("A1", None, 2)]);
    let s = spec("A1", "");
    let moms = vec![Some(sample(0))];
    let err = apply_arc_patch(&mut m, &s, &moms).unwrap_err();
    assert_eq!(err, ArcPatchError::Patch(PatchError::GridMismatch));
}

#[test]
fn patch_grid_mismatch_between_tables() {
    let mut bad = arc("A1", None, 2);
    bad.mean_shift_cell_rise = table(vec![7; 3]);
    let mut m = model(vec![bad]);
    let s = spec("A1", "");
    let moms = vec![Some(sample(0)), Some(sample(0))];
    let err = apply_arc_patch(&mut m, &s, &moms).unwrap_err();
    assert_eq!(err, ArcPatchError::Patch(PatchError::GridMismatch));
}

#[test]
fn fall_edge_patches_fall_tables() {
    let mut m = model(vec![arc("A1", None, 1)]);
    let mut s = spec("A1", "");
    s.edge = Edge::Fall;
    let moms = vec![Some(sample(FIXED_ONE + 21))];
    apply_arc_patch(&mut m, &s, &moms).unwrap();
    let a = &m.cells[0].pins[0].arcs[0];
    assert_eq!(a.mean_shift_cell_fall.as_ref().unwrap().values[0], 21);
    assert_eq!(a.mean_shift_cell_rise.as_ref().unwrap().values[0], 7);
}

#[test]
fn grid_size_follows_nominal() {
    let m = model(vec![arc("A1", None, 3)]);
    let s = spec("A1", "");
    let h = resolve_arc(&s, &m).unwrap();
    assert_eq!(nominal_grid_size(&m, &h, Edge::Rise), Some(3));
}

#[test]
fn direct_patch_through_handle() {
    let mut m = model(vec![arc("A1", None, 1)]);
    let s = spec("A1", "");
    let h = resolve_arc(&s, &m).unwrap();
    let moms = vec![Some(sample(FIXED_ONE + 1))];
    patch_arc(&mut m, &h, Edge::Rise, &moms, "AN2D1 002").unwrap();
    let a = &m.cells[0].pins[0].arcs[0];
    assert_eq!(a.mean_shift_cell_rise.as_ref().unwrap().values[0], 1);
}
