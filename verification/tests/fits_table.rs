use kernel_model::fits::{
    diameter_step_bound_mm, fit_limits_um, iso286_fit_um, parse_fit, Fit, FitLimitsUm, DIAMETER_STEPS,
};

/// The diameter step a nominal diameter falls in (`None` outside `(0, 120]`).
fn step_of(d: f64) -> Option<usize> {
    if !(d > 0.0 && d <= 120.0) {
        return None;
    }
    (0..DIAMETER_STEPS).find(|&s| d <= diameter_step_bound_mm(s) as f64)
}

fn fit_at(d: f64, fit: &str) -> Option<FitLimitsUm> {
    iso286_fit_um(step_of(d)?, fit)
}

/// `(hole hi, shaft lo, shaft hi, clearance min, clearance max)` in µm.
fn um(d: f64, fit: &str) -> Vec<i64> {
    let f = fit_at(d, fit).expect("supported fit");
    [f.hole.1, f.shaft.0, f.shaft.1, f.clearance.0, f.clearance.1].iter().map(|&v| v as i64).collect()
}

#[test]
fn preferred_fits_reproduce_the_published_iso286_chart_values() {
    let chart: Vec<Vec<i64>> = [
        (25.0, "H7/g6"),
        (25.0, "H8/f7"),
        (40.0, "H7/p6"),
        (10.0, "H7/s6"),
        (60.0, "H7/s6"),
        (70.0, "H7/s6"),
        (8.0, "H7/k6"),
        (3.0, "H7/h6"),
    ]
    .iter()
    .map(|&(d, fit)| um(d, fit))
    .collect();
    assert_eq!(
        chart,
        vec![
            vec![21, -20, -7, 7, 41],
            vec![33, -41, -20, 20, 74],
            vec![25, 26, 42, -42, -1],
            vec![15, 23, 32, -32, -8],
            vec![30, 53, 72, -72, -23],
            vec![30, 59, 78, -78, -29],
            vec![15, 1, 10, -10, 14],
            vec![10, -6, 0, 0, 16],
        ],
        "ISO 286 preferred-fit chart values (µm: hole hi, shaft lo/hi, clearance min/max)"
    );
    assert!(
        fit_at(25.0, "h7/G6") == fit_at(25.0, "H7/g6")
            && fit_at(25.0, "H7/u6").is_none()
            && fit_at(125.0, "H7/g6").is_none()
            && fit_at(0.0, "H7/g6").is_none()
            && fit_at(f64::NAN, "H7/g6").is_none(),
        "case-insensitive lookup; unsupported fit, out-of-range and NaN diameters refused"
    );
}

#[test]
fn bearing_seat_fits_reproduce_the_published_k_j_n_p_rows() {
    let f = fit_at(25.0, "H6/k5").expect("H6/k5");
    assert_eq!(f.shaft, (2, 11), "k5 = +2/+11 µm");
    let f = fit_at(25.0, "H6/j5").expect("H6/j5");
    assert_eq!(f.shaft, (-4, 5), "j5 = −4/+5 µm");
    let f = fit_at(25.0, "H7/j6").expect("H7/j6");
    assert_eq!(f.shaft, (-4, 9), "j6 = −4/+9 µm");
    let f = fit_at(25.0, "K7/h6").expect("K7/h6");
    assert_eq!(f.hole, (-15, 6), "K7 = +6/−15 µm");
    let f = fit_at(25.0, "N7/h6").expect("N7/h6");
    assert_eq!(f.hole, (-28, -7), "N7 = −7/−28 µm");
    let f = fit_at(25.0, "P7/h6").expect("P7/h6");
    assert_eq!(f.hole, (-35, -14), "P7 = −14/−35 µm");
    let f = fit_at(8.0, "N7/h6").expect("N7/h6 Ø8");
    assert_eq!(f.hole, (-19, -4), "Ø8 N7 = −4/−19 µm");
    let f = fit_at(60.0, "P7/h6").expect("P7/h6 Ø60");
    assert_eq!(f.hole, (-51, -21), "Ø60 P7 = −21/−51 µm");
    let f = fit_at(60.0, "H6/j5").expect("H6/j5 Ø60");
    assert_eq!(f.shaft, (-7, 6), "Ø60 j5 = −7/+6 µm");
}

const ALL: [&str; 19] = [
    "H7/g6", "H7/h6", "H7/k6", "H7/n6", "H7/p6", "H7/s6", "H8/f7", "H9/d9", "H11/c11", "C11/h11", "D9/h9", "F8/h7",
    "G7/h6", "H6/j5", "H6/k5", "H7/j6", "K7/h6", "N7/h6", "P7/h6",
];

#[test]
fn every_fit_keeps_ordered_bands_across_the_whole_diameter_table() {
    let mut violations: Vec<String> = Vec::new();
    for step in 0..DIAMETER_STEPS {
        let d = diameter_step_bound_mm(step) as f64;
        for fit in ALL {
            let f = fit_at(d, fit).expect("in range");
            let anchored = if fit.starts_with('H') { f.hole.0 == 0 } else { f.shaft.1 == 0 };
            let ordered = f.hole.0 <= f.hole.1 && f.shaft.0 <= f.shaft.1 && f.clearance.0 <= f.clearance.1 && anchored;
            let character = match fit {
                "H7/g6" | "H7/h6" | "H8/f7" | "H9/d9" | "H11/c11" | "C11/h11" | "D9/h9" | "F8/h7" | "G7/h6" => f.clearance.0 >= 0,
                "H7/s6" => f.clearance.1 < 0,
                "P7/h6" => f.clearance.0 < 0 && f.clearance.1 <= 0,
                "H7/p6" => f.clearance.0 < 0 && f.clearance.1 <= if d <= 3.0 { 4 } else { 0 },
                _ => f.clearance.0 < 0 && f.clearance.1 > 0,
            };
            if !(ordered && character) {
                violations.push(format!("Ø{d} {fit}: {f:?}"));
            }
        }
    }
    assert!(violations.is_empty(), "violations: {violations:#?}");
}

#[test]
fn the_c_shaft_deviation_splits_the_30_to_50_step_at_40() {
    assert_eq!(fit_at(40.0, "H11/c11").unwrap().shaft.1, -120);
    assert_eq!(fit_at(45.0, "H11/c11").unwrap().shaft.1, -130);
    assert_eq!(fit_at(50.0, "C11/h11").unwrap().hole.0, 130);
}

#[test]
fn the_k_n_p_delta_applies_only_above_3_mm() {
    // Ø3: Δ = 0, so K7 is the plain mirror of k6.
    assert_eq!(fit_at(3.0, "K7/h6").unwrap().hole, (-10, 0));
    // Ø5: Δ = IT7 − IT6 = 4.
    assert_eq!(fit_at(5.0, "K7/h6").unwrap().hole, (-9, 3));
}

#[test]
fn fit_names_parse_case_insensitively_and_refuse_others() {
    assert_eq!(parse_fit("H7/g6"), Some(Fit::H7G6));
    assert_eq!(parse_fit("h7/G6"), Some(Fit::H7G6));
    assert_eq!(parse_fit("p7/H6"), Some(Fit::P7H6));
    assert_eq!(parse_fit("H7/u6"), None);
    assert_eq!(parse_fit("H7/g6 "), None);
    assert_eq!(parse_fit(""), None);
    assert_eq!(iso286_fit_um(4, "H7/g6"), Some(fit_limits_um(4, Fit::H7G6)));
}
