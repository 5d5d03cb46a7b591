//! ISO 286 limits and fits for the hole-basis and shaft-basis preferred fits and
//! the bearing-seat fits, for nominal diameters up to 120 mm.
//!
//! Every value in the ISO 286 tables is a whole number of micrometres, so the
//! table arithmetic is done here in integer µm. The diameter itself is a
//! real number: a caller locates it in one of the table's diameter steps
//! ("over the previous bound, up to and including [`diameter_step_bound_mm`]")
//! and hands over the step index.
use vstd::prelude::*;

verus! {

/// Number of diameter steps in the table (up to 120 mm). The standard's
/// 30–50 mm step is split at 40 mm because the c-shaft deviation changes there.
pub const DIAMETER_STEPS: usize = 11;

/// One diameter step of the ISO 286 table, every value in µm except the bound.
#[derive(Clone, Copy, Debug, PartialEq, Eq, Structural)]
pub struct Iso286Row {
    /// Upper bound of the step (mm): the step covers `previous bound < d ≤ to_mm`.
    pub to_mm: u32,
    /// Standard tolerance grade IT5.
    pub it5: i32,
    /// Standard tolerance grade IT6.
    pub it6: i32,
    /// Standard tolerance grade IT7.
    pub it7: i32,
    /// Standard tolerance grade IT8.
    pub it8: i32,
    /// Standard tolerance grade IT9.
    pub it9: i32,
    /// Standard tolerance grade IT11.
    pub it11: i32,
    /// Upper deviation `es` of shaft c.
    pub c_es: i32,
    /// Upper deviation `es` of shaft d.
    pub d_es: i32,
    /// Upper deviation `es` of shaft g.
    pub g_es: i32,
    /// Upper deviation `es` of shaft f.
    pub f_es: i32,
    /// Upper deviation `es` of shaft j, grade 5.
    pub j5_es: i32,
    /// Upper deviation `es` of shaft j, grade 6.
    pub j6_es: i32,
    /// Lower deviation `ei` of shaft k.
    pub k_ei: i32,
    /// Lower deviation `ei` of shaft n.
    pub n_ei: i32,
    /// Lower deviation `ei` of shaft p.
    pub p_ei: i32,
    /// Lower deviation `ei` of shaft s.
    pub s_ei: i32,
}

/// The supported fits.
#[derive(Clone, Copy, Debug, PartialEq, Eq, Structural)]
pub enum Fit {
    /// H11/c11, loose running.
    H11C11,
    /// H9/d9, free running.
    H9D9,
    /// H8/f7, close running.
    H8F7,
    /// H7/g6, sliding.
    H7G6,
    /// H7/h6, locational clearance.
    H7H6,
    /// H7/k6, transition.
    H7K6,
    /// H7/n6, transition / light press.
    H7N6,
    /// H7/p6, press.
    H7P6,
    /// H7/s6, medium drive.
    H7S6,
    /// C11/h11, shaft-basis loose running.
    C11H11,
    /// D9/h9, shaft-basis free running.
    D9H9,
    /// F8/h7, shaft-basis close running.
    F8H7,
    /// G7/h6, shaft-basis sliding.
    G7H6,
    /// H6/j5, bearing seat.
    H6J5,
    /// H6/k5, bearing seat.
    H6K5,
    /// H7/j6, bearing seat.
    H7J6,
    /// K7/h6, bearing housing.
    K7H6,
    /// N7/h6, bearing housing.
    N7H6,
    /// P7/h6, bearing housing.
    P7H6,
}

/// Resolved limits of one fit at one diameter step, all deviations from the
/// nominal diameter in µm, each pair `(lower, upper)`.
#[derive(Clone, Copy, Debug, PartialEq, Eq)]
pub struct FitLimitsUm {
    /// Hole (bore) deviation band.
    pub hole: (i32, i32),
    /// Shaft deviation band.
    pub shaft: (i32, i32),
    /// Clearance band `(hole.0 − shaft.1, hole.1 − shaft.0)`; negative values
    /// are interference.
    pub clearance: (i32, i32),
}

/// The ISO 286 table by diameter step.
pub open spec fn iso286_row(step: int) -> Iso286Row {
    if step == 0 {
        Iso286Row { to_mm: 3, it5: 4, it6: 6, it7: 10, it8: 14, it9: 25, it11: 60, c_es: -60i32, d_es: -20i32, g_es: -2i32, f_es: -6i32, j5_es: 2, j6_es: 4, k_ei: 0, n_ei: 4, p_ei: 6, s_ei: 14 }
    } else if step == 1 {
        Iso286Row { to_mm: 6, it5: 5, it6: 8, it7: 12, it8: 18, it9: 30, it11: 75, c_es: -70i32, d_es: -30i32, g_es: -4i32, f_es: -10i32, j5_es: 3, j6_es: 6, k_ei: 1, n_ei: 8, p_ei: 12, s_ei: 19 }
    } else if step == 2 {
        Iso286Row { to_mm: 10, it5: 6, it6: 9, it7: 15, it8: 22, it9: 36, it11: 90, c_es: -80i32, d_es: -40i32, g_es: -5i32, f_es: -13i32, j5_es: 4, j6_es: 7, k_ei: 1, n_ei: 10, p_ei: 15, s_ei: 23 }
    } else if step == 3 {
        Iso286Row { to_mm: 18, it5: 8, it6: 11, it7: 18, it8: 27, it9: 43, it11: 110, c_es: -95i32, d_es: -50i32, g_es: -6i32, f_es: -16i32, j5_es: 5, j6_es: 8, k_ei: 1, n_ei: 12, p_ei: 18, s_ei: 28 }
    } else if step == 4 {
        Iso286Row { to_mm: 30, it5: 9, it6: 13, it7: 21, it8: 33, it9: 52, it11: 130, c_es: -110i32, d_es: -65i32, g_es: -7i32, f_es: -20i32, j5_es: 5, j6_es: 9, k_ei: 2, n_ei: 15, p_ei: 22, s_ei: 35 }
    } else if step == 5 {
        Iso286Row { to_mm: 40, it5: 11, it6: 16, it7: 25, it8: 39, it9: 62, it11: 160, c_es: -120i32, d_es: -80i32, g_es: -9i32, f_es: -25i32, j5_es: 6, j6_es: 11, k_ei: 2, n_ei: 17, p_ei: 26, s_ei: 43 }
    } else if step == 6 {
        Iso286Row { to_mm: 50, it5: 11, it6: 16, it7: 25, it8: 39, it9: 62, it11: 160, c_es: -130i32, d_es: -80i32, g_es: -9i32, f_es: -25i32, j5_es: 6, j6_es: 11, k_ei: 2, n_ei: 17, p_ei: 26, s_ei: 43 }
    } else if step == 7 {
        Iso286Row { to_mm: 65, it5: 13, it6: 19, it7: 30, it8: 46, it9: 74, it11: 190, c_es: -140i32, d_es: -100i32, g_es: -10i32, f_es: -30i32, j5_es: 6, j6_es: 12, k_ei: 2, n_ei: 20, p_ei: 32, s_ei: 53 }
    } else if step == 8 {
        Iso286Row { to_mm: 80, it5: 13, it6: 19, it7: 30, it8: 46, it9: 74, it11: 190, c_es: -150i32, d_es: -100i32, g_es: -10i32, f_es: -30i32, j5_es: 6, j6_es: 12, k_ei: 2, n_ei: 20, p_ei: 32, s_ei: 59 }
    } else if step == 9 {
        Iso286Row { to_mm: 100, it5: 15, it6: 22, it7: 35, it8: 54, it9: 87, it11: 220, c_es: -170i32, d_es: -120i32, g_es: -12i32, f_es: -36i32, j5_es: 6, j6_es: 13, k_ei: 3, n_ei: 23, p_ei: 37, s_ei: 71 }
    } else {
        Iso286Row { to_mm: 120, it5: 15, it6: 22, it7: 35, it8: 54, it9: 87, it11: 220, c_es: -180i32, d_es: -120i32, g_es: -12i32, f_es: -36i32, j5_es: 6, j6_es: 13, k_ei: 3, n_ei: 23, p_ei: 37, s_ei: 79 }
    }
}

/// The table row of a diameter step.
pub fn iso286_row_at(step: usize) -> (r: Iso286Row)
    requires
        step < DIAMETER_STEPS,
    ensures
        r == iso286_row(step as int),
{
    match step {
        0 => Iso286Row { to_mm: 3, it5: 4, it6: 6, it7: 10, it8: 14, it9: 25, it11: 60, c_es: -60, d_es: -20, g_es: -2, f_es: -6, j5_es: 2, j6_es: 4, k_ei: 0, n_ei: 4, p_ei: 6, s_ei: 14 },
        1 => Iso286Row { to_mm: 6, it5: 5, it6: 8, it7: 12, it8: 18, it9: 30, it11: 75, c_es: -70, d_es: -30, g_es: -4, f_es: -10, j5_es: 3, j6_es: 6, k_ei: 1, n_ei: 8, p_ei: 12, s_ei: 19 },
        2 => Iso286Row { to_mm: 10, it5: 6, it6: 9, it7: 15, it8: 22, it9: 36, it11: 90, c_es: -80, d_es: -40, g_es: -5, f_es: -13, j5_es: 4, j6_es: 7, k_ei: 1, n_ei: 10, p_ei: 15, s_ei: 23 },
        3 => Iso286Row { to_mm: 18, it5: 8, it6: 11, it7: 18, it8: 27, it9: 43, it11: 110, c_es: -95, d_es: -50, g_es: -6, f_es: -16, j5_es: 5, j6_es: 8, k_ei: 1, n_ei: 12, p_ei: 18, s_ei: 28 },
        4 => Iso286Row { to_mm: 30, it5: 9, it6: 13, it7: 21, it8: 33, it9: 52, it11: 130, c_es: -110, d_es: -65, g_es: -7, f_es: -20, j5_es: 5, j6_es: 9, k_ei: 2, n_ei: 15, p_ei: 22, s_ei: 35 },
        5 => Iso286Row { to_mm: 40, it5: 11, it6: 16, it7: 25, it8: 39, it9: 62, it11: 160, c_es: -120, d_es: -80, g_es: -9, f_es: -25, j5_es: 6, j6_es: 11, k_ei: 2, n_ei: 17, p_ei: 26, s_ei: 43 },
        6 => Iso286Row { to_mm: 50, it5: 11, it6: 16, it7: 25, it8: 39, it9: 62, it11: 160, c_es: -130, d_es: -80, g_es: -9, f_es: -25, j5_es: 6, j6_es: 11, k_ei: 2, n_ei: 17, p_ei: 26, s_ei: 43 },
        7 => Iso286Row { to_mm: 65, it5: 13, it6: 19, it7: 30, it8: 46, it9: 74, it11: 190, c_es: -140, d_es: -100, g_es: -10, f_es: -30, j5_es: 6, j6_es: 12, k_ei: 2, n_ei: 20, p_ei: 32, s_ei: 53 },
        8 => Iso286Row { to_mm: 80, it5: 13, it6: 19, it7: 30, it8: 46, it9: 74, it11: 190, c_es: -150, d_es: -100, g_es: -10, f_es: -30, j5_es: 6, j6_es: 12, k_ei: 2, n_ei: 20, p_ei: 32, s_ei: 59 },
        9 => Iso286Row { to_mm: 100, it5: 15, it6: 22, it7: 35, it8: 54, it9: 87, it11: 220, c_es: -170, d_es: -120, g_es: -12, f_es: -36, j5_es: 6, j6_es: 13, k_ei: 3, n_ei: 23, p_ei: 37, s_ei: 71 },
        _ => Iso286Row { to_mm: 120, it5: 15, it6: 22, it7: 35, it8: 54, it9: 87, it11: 220, c_es: -180, d_es: -120, g_es: -12, f_es: -36, j5_es: 6, j6_es: 13, k_ei: 3, n_ei: 23, p_ei: 37, s_ei: 79 },
    }
}

/// Upper bound (mm) of a diameter step: the step covers
/// `previous bound < d ≤ diameter_step_bound_mm(step)`, the first from 0.
pub fn diameter_step_bound_mm(step: usize) -> (b: u32)
    requires
        step < DIAMETER_STEPS,
    ensures
        b == iso286_row(step as int).to_mm,
{
    iso286_row_at(step).to_mm
}

/// The hole and shaft bands `(hole lower, hole upper, shaft lower, shaft upper)`
/// of a fit at a diameter step, in µm, as ISO 286 defines them.
///
/// Holes H have a zero fundamental deviation and their band above it; shafts
/// c/d/g/f hang their band below the upper deviation, shafts j below theirs,
/// shafts k/n/p/s stand it above the lower deviation; shaft-basis h shafts
/// have the band below zero and the mirror-letter holes C/D/F/G are the
/// reflection of their shafts; the K/N/P holes follow `ES = −ei + Δ` with
/// `Δ = IT7 − IT6` above 3 mm and `Δ = 0` at or below it.
pub open spec fn fit_bands(step: int, fit: Fit) -> (int, int, int, int) {
    let r = iso286_row(step);
    let delta: int = if step == 0 { 0 } else { r.it7 - r.it6 };
    match fit {
        Fit::H11C11 => (0, r.it11 as int, r.c_es - r.it11, r.c_es as int),
        Fit::H9D9 => (0, r.it9 as int, r.d_es - r.it9, r.d_es as int),
        Fit::H8F7 => (0, r.it8 as int, r.f_es - r.it7, r.f_es as int),
        Fit::H7G6 => (0, r.it7 as int, r.g_es - r.it6, r.g_es as int),
        Fit::H7H6 => (0, r.it7 as int, -r.it6, 0),
        Fit::H7K6 => (0, r.it7 as int, r.k_ei as int, r.k_ei + r.it6),
        Fit::H7N6 => (0, r.it7 as int, r.n_ei as int, r.n_ei + r.it6),
        Fit::H7P6 => (0, r.it7 as int, r.p_ei as int, r.p_ei + r.it6),
        Fit::H7S6 => (0, r.it7 as int, r.s_ei as int, r.s_ei + r.it6),
        Fit::C11H11 => (-r.c_es, -r.c_es + r.it11, -r.it11, 0),
        Fit::D9H9 => (-r.d_es, -r.d_es + r.it9, -r.it9, 0),
        Fit::F8H7 => (-r.f_es, -r.f_es + r.it8, -r.it7, 0),
        Fit::G7H6 => (-r.g_es, -r.g_es + r.it7, -r.it6, 0),
        Fit::H6J5 => (0, r.it6 as int, r.j5_es - r.it5, r.j5_es as int),
        Fit::H6K5 => (0, r.it6 as int, r.k_ei as int, r.k_ei + r.it5),
        Fit::H7J6 => (0, r.it7 as int, r.j6_es - r.it6, r.j6_es as int),
        Fit::K7H6 => (-r.k_ei + delta - r.it7, -r.k_ei + delta, -r.it6, 0),
        Fit::N7H6 => (-r.n_ei + delta - r.it7, -r.n_ei + delta, -r.it6, 0),
        Fit::P7H6 => (-r.p_ei + delta - r.it7, -r.p_ei + delta, -r.it6, 0),
    }
}

/// The limits of `fit` at `step` are exactly the ISO 286 bands, with the
/// clearance band derived from them.
pub open spec fn limits_match(l: FitLimitsUm, step: int, fit: Fit) -> bool {
    let (hl, hu, sl, su) = fit_bands(step, fit);
    &&& l.hole.0 == hl
    &&& l.hole.1 == hu
    &&& l.shaft.0 == sl
    &&& l.shaft.1 == su
    &&& l.clearance.0 == hl - su
    &&& l.clearance.1 == hu - sl
}


/// The row values stay within a few hundred µm.
pub open spec fn row_bounded(r: Iso286Row) -> bool {
    &&& 0 <= r.it5 <= 300 && 0 <= r.it6 <= 300 && 0 <= r.it7 <= 300 && 0 <= r.it8 <= 300
    &&& 0 <= r.it9 <= 300 && 0 <= r.it11 <= 300
    &&& -300 <= r.c_es <= 0 && -300 <= r.d_es <= 0 && -300 <= r.g_es <= 0 && -300 <= r.f_es <= 0
    &&& 0 <= r.j5_es <= 300 && 0 <= r.j6_es <= 300
    &&& 0 <= r.k_ei <= 300 && 0 <= r.n_ei <= 300 && 0 <= r.p_ei <= 300 && 0 <= r.s_ei <= 300
}

proof fn lemma_row_bounded(step: int)
    requires
        0 <= step < DIAMETER_STEPS,
    ensures
        row_bounded(iso286_row(step)),
{
}

/// The resolved limits of `fit` at diameter step `step`, in µm.
pub fn fit_limits_um(step: usize, fit: Fit) -> (l: FitLimitsUm)
    requires
        step < DIAMETER_STEPS,
    ensures
        limits_match(l, step as int, fit),
        l.hole.1 - l.hole.0 == standard_tolerance(iso286_row(step as int), hole_grade(fit)),
        l.shaft.1 - l.shaft.0 == standard_tolerance(iso286_row(step as int), shaft_grade(fit)),
{
    let r = iso286_row_at(step);
    proof {
        lemma_row_bounded(step as int);
    }
    let delta: i32 = if step == 0 {
        0
    } else {
        r.it7 - r.it6
    };
    let (hole, shaft): ((i32, i32), (i32, i32)) = match fit {
        Fit::H11C11 => ((0, r.it11), (r.c_es - r.it11, r.c_es)),
        Fit::H9D9 => ((0, r.it9), (r.d_es - r.it9, r.d_es)),
        Fit::H8F7 => ((0, r.it8), (r.f_es - r.it7, r.f_es)),
        Fit::H7G6 => ((0, r.it7), (r.g_es - r.it6, r.g_es)),
        Fit::H7H6 => ((0, r.it7), (-r.it6, 0)),
        Fit::H7K6 => ((0, r.it7), (r.k_ei, r.k_ei + r.it6)),
        Fit::H7N6 => ((0, r.it7), (r.n_ei, r.n_ei + r.it6)),
        Fit::H7P6 => ((0, r.it7), (r.p_ei, r.p_ei + r.it6)),
        Fit::H7S6 => ((0, r.it7), (r.s_ei, r.s_ei + r.it6)),
        Fit::C11H11 => ((-r.c_es, -r.c_es + r.it11), (-r.it11, 0)),
        Fit::D9H9 => ((-r.d_es, -r.d_es + r.it9), (-r.it9, 0)),
        Fit::F8H7 => ((-r.f_es, -r.f_es + r.it8), (-r.it7, 0)),
        Fit::G7H6 => ((-r.g_es, -r.g_es + r.it7), (-r.it6, 0)),
        Fit::H6J5 => ((0, r.it6), (r.j5_es - r.it5, r.j5_es)),
        Fit::H6K5 => ((0, r.it6), (r.k_ei, r.k_ei + r.it5)),
        Fit::H7J6 => ((0, r.it7), (r.j6_es - r.it6, r.j6_es)),
        Fit::K7H6 => ((-r.k_ei + delta - r.it7, -r.k_ei + delta), (-r.it6, 0)),
        Fit::N7H6 => ((-r.n_ei + delta - r.it7, -r.n_ei + delta), (-r.it6, 0)),
        Fit::P7H6 => ((-r.p_ei + delta - r.it7, -r.p_ei + delta), (-r.it6, 0)),
    };
    let l = FitLimitsUm { hole, shaft, clearance: (hole.0 - shaft.1, hole.1 - shaft.0) };
    proof {
        lemma_fit_bands_follow_name(step as int, fit, l);
    }
    l
}

// ---------------------------------------------------------------------------
// Fit names, matched without regard to ASCII case.
// ---------------------------------------------------------------------------

/// The code of a character with ASCII upper case folded to lower case.
pub open spec fn fold_code(c: char) -> u32 {
    if 65 <= (c as u32) && (c as u32) <= 90 {
        ((c as u32) + 32) as u32
    } else {
        c as u32
    }
}

/// A string's character codes with ASCII case folded.
pub open spec fn folded(s: Seq<char>) -> Seq<u32> {
    s.map_values(|c: char| fold_code(c))
}

/// The canonical (lower-case) name of a fit.
pub open spec fn fit_name(f: Fit) -> Seq<char> {
    match f {
        Fit::H11C11 => "h11/c11"@,
        Fit::H9D9 => "h9/d9"@,
        Fit::H8F7 => "h8/f7"@,
        Fit::H7G6 => "h7/g6"@,
        Fit::H7H6 => "h7/h6"@,
        Fit::H7K6 => "h7/k6"@,
        Fit::H7N6 => "h7/n6"@,
        Fit::H7P6 => "h7/p6"@,
        Fit::H7S6 => "h7/s6"@,
        Fit::C11H11 => "c11/h11"@,
        Fit::D9H9 => "d9/h9"@,
        Fit::F8H7 => "f8/h7"@,
        Fit::G7H6 => "g7/h6"@,
        Fit::H6J5 => "h6/j5"@,
        Fit::H6K5 => "h6/k5"@,
        Fit::H7J6 => "h7/j6"@,
        Fit::K7H6 => "k7/h6"@,
        Fit::N7H6 => "n7/h6"@,
        Fit::P7H6 => "p7/h6"@,
    }
}

/// The fit a string names, ignoring ASCII case.
pub open spec fn fit_named(s: Seq<char>) -> Option<Fit> {
    if folded(s) == folded(fit_name(Fit::H11C11)) {
        Some(Fit::H11C11)
    } else if folded(s) == folded(fit_name(Fit::H9D9)) {
        Some(Fit::H9D9)
    } else if folded(s) == folded(fit_name(Fit::H8F7)) {
        Some(Fit::H8F7)
    } else if folded(s) == folded(fit_name(Fit::H7G6)) {
        Some(Fit::H7G6)
    } else if folded(s) == folded(fit_name(Fit::H7H6)) {
        Some(Fit::H7H6)
    } else if folded(s) == folded(fit_name(Fit::H7K6)) {
        Some(Fit::H7K6)
    } else if folded(s) == folded(fit_name(Fit::H7N6)) {
        Some(Fit::H7N6)
    } else if folded(s) == folded(fit_name(Fit::H7P6)) {
        Some(Fit::H7P6)
    } else if folded(s) == folded(fit_name(Fit::H7S6)) {
        Some(Fit::H7S6)
    } else if folded(s) == folded(fit_name(Fit::C11H11)) {
        Some(Fit::C11H11)
    } else if folded(s) == folded(fit_name(Fit::D9H9)) {
        Some(Fit::D9H9)
    } else if folded(s) == folded(fit_name(Fit::F8H7)) {
        Some(Fit::F8H7)
    } else if folded(s) == folded(fit_name(Fit::G7H6)) {
        Some(Fit::G7H6)
    } else if folded(s) == folded(fit_name(Fit::H6J5)) {
        Some(Fit::H6J5)
    } else if folded(s) == folded(fit_name(Fit::H6K5)) {
        Some(Fit::H6K5)
    } else if folded(s) == folded(fit_name(Fit::H7J6)) {
        Some(Fit::H7J6)
    } else if folded(s) == folded(fit_name(Fit::K7H6)) {
        Some(Fit::K7H6)
    } else if folded(s) == folded(fit_name(Fit::N7H6)) {
        Some(Fit::N7H6)
    } else if folded(s) == folded(fit_name(Fit::P7H6)) {
        Some(Fit::P7H6)
    } else {
        None
    }
}

/// The canonical name of a fit.
pub fn fit_name_str(f: Fit) -> (s: &'static str)
    ensures
        s@ == fit_name(f),
{
    match f {
        Fit::H11C11 => "h11/c11",
        Fit::H9D9 => "h9/d9",
        Fit::H8F7 => "h8/f7",
        Fit::H7G6 => "h7/g6",
        Fit::H7H6 => "h7/h6",
        Fit::H7K6 => "h7/k6",
        Fit::H7N6 => "h7/n6",
        Fit::H7P6 => "h7/p6",
        Fit::H7S6 => "h7/s6",
        Fit::C11H11 => "c11/h11",
        Fit::D9H9 => "d9/h9",
        Fit::F8H7 => "f8/h7",
        Fit::G7H6 => "g7/h6",
        Fit::H6J5 => "h6/j5",
        Fit::H6K5 => "h6/k5",
        Fit::H7J6 => "h7/j6",
        Fit::K7H6 => "k7/h6",
        Fit::N7H6 => "n7/h6",
        Fit::P7H6 => "p7/h6",
    }
}

fn fold(c: char) -> (r: u32)
    ensures
        r == fold_code(c),
{
    let x = c as u32;
    if 65 <= x && x <= 90 {
        x + 32
    } else {
        x
    }
}

/// Whether two strings are equal up to ASCII case.
fn folds_to(s: &str, t: &str) -> (b: bool)
    ensures
        b == (folded(s@) == folded(t@)),
{
    let n = s.unicode_len();
    if n != t.unicode_len() {
        assert(folded(s@).len() != folded(t@).len());
        return false;
    }
    let mut i: usize = 0;
    while i < n
        invariant
            n == s@.len(),
            n == t@.len(),
            i <= n,
            forall|j: int| 0 <= j < i ==> fold_code(#[trigger] s@[j]) == fold_code(t@[j]),
        decreases n - i,
    {
        if fold(s.get_char(i)) != fold(t.get_char(i)) {
            assert(folded(s@)[i as int] != folded(t@)[i as int]);
            return false;
        }
        i = i + 1;
    }
    assert(folded(s@) =~= folded(t@));
    true
}

/// The fit a string names, ignoring ASCII case (`"H7/g6"`, `"h7/G6"`, …).
pub fn parse_fit(fit: &str) -> (r: Option<Fit>)
    ensures
        r == fit_named(fit@),
        r matches Some(f) ==> folded(fit@) == folded(fit_name(f)),
        r is None <==> forall|f: Fit| folded(fit@) != #[trigger] folded(fit_name(f)),
{
    proof {
        assert forall|f: Fit| #[trigger] folded(fit_name(f)) == folded(fit@) ==> fit_named(fit@) == Some(f) by {
            lemma_fit_name_round_trip(f, fit@);
        }
        match fit_named(fit@) {
            Some(f) => lemma_fit_name_round_trip(f, fit@),
            None => {},
        }
    }
    if folds_to(fit, fit_name_str(Fit::H11C11)) {
        return Some(Fit::H11C11);
    }
    if folds_to(fit, fit_name_str(Fit::H9D9)) {
        return Some(Fit::H9D9);
    }
    if folds_to(fit, fit_name_str(Fit::H8F7)) {
        return Some(Fit::H8F7);
    }
    if folds_to(fit, fit_name_str(Fit::H7G6)) {
        return Some(Fit::H7G6);
    }
    if folds_to(fit, fit_name_str(Fit::H7H6)) {
        return Some(Fit::H7H6);
    }
    if folds_to(fit, fit_name_str(Fit::H7K6)) {
        return Some(Fit::H7K6);
    }
    if folds_to(fit, fit_name_str(Fit::H7N6)) {
        return Some(Fit::H7N6);
    }
    if folds_to(fit, fit_name_str(Fit::H7P6)) {
        return Some(Fit::H7P6);
    }
    if folds_to(fit, fit_name_str(Fit::H7S6)) {
        return Some(Fit::H7S6);
    }
    if folds_to(fit, fit_name_str(Fit::C11H11)) {
        return Some(Fit::C11H11);
    }
    if folds_to(fit, fit_name_str(Fit::D9H9)) {
        return Some(Fit::D9H9);
    }
    if folds_to(fit, fit_name_str(Fit::F8H7)) {
        return Some(Fit::F8H7);
    }
    if folds_to(fit, fit_name_str(Fit::G7H6)) {
        return Some(Fit::G7H6);
    }
    if folds_to(fit, fit_name_str(Fit::H6J5)) {
        return Some(Fit::H6J5);
    }
    if folds_to(fit, fit_name_str(Fit::H6K5)) {
        return Some(Fit::H6K5);
    }
    if folds_to(fit, fit_name_str(Fit::H7J6)) {
        return Some(Fit::H7J6);
    }
    if folds_to(fit, fit_name_str(Fit::K7H6)) {
        return Some(Fit::K7H6);
    }
    if folds_to(fit, fit_name_str(Fit::N7H6)) {
        return Some(Fit::N7H6);
    }
    if folds_to(fit, fit_name_str(Fit::P7H6)) {
        return Some(Fit::P7H6);
    }
    None
}

/// Resolve a diameter step and a fit string into the fit's limits in µm;
/// `None` for a string that names none of the supported fits. The fit string
/// is matched without regard to ASCII case.
pub fn iso286_fit_um(step: usize, fit: &str) -> (r: Option<FitLimitsUm>)
    requires
        step < DIAMETER_STEPS,
    ensures
        fit_named(fit@) is None ==> r is None,
        fit_named(fit@) matches Some(f) ==> r matches Some(l) && limits_match(l, step as int, f),
{
    match parse_fit(fit) {
        Some(f) => Some(fit_limits_um(step, f)),
        None => None,
    }
}


// ---------------------------------------------------------------------------
// Laws of the table.
// ---------------------------------------------------------------------------

/// Hole-basis fits: an H hole, whose lower deviation is the zero line.
pub open spec fn hole_basis(f: Fit) -> bool {
    match f {
        Fit::C11H11 | Fit::D9H9 | Fit::F8H7 | Fit::G7H6 | Fit::K7H6 | Fit::N7H6 | Fit::P7H6 => false,
        _ => true,
    }
}

/// The clearance character each fit keeps across the table: the running and
/// locational fits never interfere, s6 always interferes, P7/h6 and H7/p6 are
/// locational-interference press fits (H7/p6 reaching at most 4 µm of
/// clearance in the first step), and the remaining fits are transition fits.
pub open spec fn keeps_character(step: int, fit: Fit) -> bool {
    let (hl, hu, sl, su) = fit_bands(step, fit);
    let min_clearance = hl - su;
    let max_clearance = hu - sl;
    match fit {
        Fit::H7G6 | Fit::H7H6 | Fit::H8F7 | Fit::H9D9 | Fit::H11C11 | Fit::C11H11 | Fit::D9H9 | Fit::F8H7
        | Fit::G7H6 => min_clearance >= 0,
        Fit::H7S6 => max_clearance < 0,
        Fit::P7H6 => min_clearance < 0 && max_clearance <= 0,
        Fit::H7P6 => min_clearance < 0 && max_clearance <= if step == 0 {
            4int
        } else {
            0int
        },
        _ => min_clearance < 0 && max_clearance > 0,
    }
}

/// **Every fit keeps ordered bands across the whole table**: at every diameter
/// step, hole, shaft and clearance bands have lower ≤ upper, and the basis
/// member carries the zero line (an H hole's lower deviation, an h shaft's
/// upper deviation).
pub proof fn lemma_fit_bands_ordered(step: int, fit: Fit)
    requires
        0 <= step < DIAMETER_STEPS,
    ensures
        ({
            let (hl, hu, sl, su) = fit_bands(step, fit);
            &&& hl <= hu
            &&& sl <= su
            &&& hl - su <= hu - sl
            &&& hole_basis(fit) ==> hl == 0
            &&& !hole_basis(fit) ==> su == 0
        }),
{
}

/// **Every fit keeps its clearance character across the whole table.**
pub proof fn lemma_fit_character(step: int, fit: Fit)
    requires
        0 <= step < DIAMETER_STEPS,
    ensures
        keeps_character(step, fit),
{
}

/// **Fit names are case-insensitive**: two strings equal up to ASCII case name
/// the same fit.
pub proof fn lemma_fit_lookup_ignores_case(s: Seq<char>, t: Seq<char>)
    requires
        folded(s) == folded(t),
    ensures
        fit_named(s) == fit_named(t),
{
}

// ---------------------------------------------------------------------------
// What a fit's name says of its bands.
// ---------------------------------------------------------------------------

/// The value of a decimal digit character (`'0'` has code 48).
pub open spec fn digit_value(c: char) -> int {
    (c as int) - 48
}

/// Index of the `/` between the hole half and the shaft half of a fit name
/// (2 in `h7/g6`, 3 in `h11/c11`).
pub open spec fn slash_index(s: Seq<char>) -> int {
    if s[2] == '/' {
        2
    } else {
        3
    }
}

/// The grade number written by the one or two digits `s[i..j]`.
pub open spec fn grade_number(s: Seq<char>, i: int, j: int) -> int {
    if j - i == 1 {
        digit_value(s[i])
    } else {
        10 * digit_value(s[i]) + digit_value(s[i + 1])
    }
}

/// The letter of the hole a fit names (`h` in `h7/g6`, in its canonical lower case).
pub open spec fn hole_letter(f: Fit) -> char {
    fit_name(f)[0]
}

/// The tolerance grade of the hole a fit names (7 in `h7/g6`).
pub open spec fn hole_grade(f: Fit) -> int {
    grade_number(fit_name(f), 1, slash_index(fit_name(f)))
}

/// The letter of the shaft a fit names (`g` in `h7/g6`).
pub open spec fn shaft_letter(f: Fit) -> char {
    fit_name(f)[slash_index(fit_name(f)) + 1]
}

/// The tolerance grade of the shaft a fit names (6 in `h7/g6`).
pub open spec fn shaft_grade(f: Fit) -> int {
    grade_number(fit_name(f), slash_index(fit_name(f)) + 2, fit_name(f).len() as int)
}

/// The standard tolerance `IT grade` of a table row, for the grades the table holds.
pub open spec fn standard_tolerance(r: Iso286Row, grade: int) -> int {
    if grade == 5 {
        r.it5 as int
    } else if grade == 6 {
        r.it6 as int
    } else if grade == 7 {
        r.it7 as int
    } else if grade == 8 {
        r.it8 as int
    } else if grade == 9 {
        r.it9 as int
    } else if grade == 11 {
        r.it11 as int
    } else {
        0
    }
}

/// Whether a shaft letter's fundamental deviation is its upper deviation `es`
/// (letters up to h, and j) rather than its lower deviation `ei`.
pub open spec fn deviation_is_upper(letter: char) -> bool {
    letter == 'c' || letter == 'd' || letter == 'f' || letter == 'g' || letter == 'h' || letter == 'j'
}

/// The fundamental deviation of a shaft of letter `letter` and grade `grade`,
/// for the letters the table holds: `es` for c, d, f, g, h (zero) and j (by
/// grade), `ei` for k, n, p, s.
pub open spec fn shaft_fundamental(r: Iso286Row, letter: char, grade: int) -> int {
    if letter == 'c' {
        r.c_es as int
    } else if letter == 'd' {
        r.d_es as int
    } else if letter == 'f' {
        r.f_es as int
    } else if letter == 'g' {
        r.g_es as int
    } else if letter == 'h' {
        0
    } else if letter == 'j' {
        if grade == 5 {
            r.j5_es as int
        } else {
            r.j6_es as int
        }
    } else if letter == 'k' {
        r.k_ei as int
    } else if letter == 'n' {
        r.n_ei as int
    } else if letter == 'p' {
        r.p_ei as int
    } else if letter == 's' {
        r.s_ei as int
    } else {
        0
    }
}

/// The `Δ` a K, N or P hole of grade `grade` adds at a diameter step:
/// `IT(grade) − IT(grade − 1)`, and nothing at or below 3 mm.
pub open spec fn hole_delta(step: int, grade: int) -> int {
    if step == 0 {
        0
    } else {
        standard_tolerance(iso286_row(step), grade) - standard_tolerance(iso286_row(step), grade - 1)
    }
}

/// **Each band is as wide as the tolerance grade its fit names, and stands on
/// the fundamental deviation its letter names.** For every fit at every
/// diameter step: the hole band is `IT(hole grade)` wide and the shaft band
/// `IT(shaft grade)` wide (H9/d9: both IT9); a shaft c, d, f, g, h or j hangs
/// below its upper deviation `es`, a shaft k, n, p or s stands above its lower
/// deviation `ei`; a hole C, D, F, G or H stands above `EI = −es` of the
/// same-letter shaft, a hole K, N or P hangs below `ES = −ei + Δ`; and the
/// clearance band runs from hole lower − shaft upper to hole upper − shaft lower.
pub proof fn lemma_fit_bands_follow_name(step: int, fit: Fit, l: FitLimitsUm)
    requires
        0 <= step < DIAMETER_STEPS,
        limits_match(l, step, fit),
    ensures
        ({
            let r = iso286_row(step);
            let hl = hole_letter(fit);
            let hg = hole_grade(fit);
            let sl = shaft_letter(fit);
            let sg = shaft_grade(fit);
            &&& l.hole.1 - l.hole.0 == standard_tolerance(r, hg)
            &&& l.shaft.1 - l.shaft.0 == standard_tolerance(r, sg)
            &&& deviation_is_upper(sl) ==> l.shaft.1 == shaft_fundamental(r, sl, sg)
            &&& !deviation_is_upper(sl) ==> l.shaft.0 == shaft_fundamental(r, sl, sg)
            &&& deviation_is_upper(hl) ==> l.hole.0 == -shaft_fundamental(r, hl, hg)
            &&& !deviation_is_upper(hl) ==> l.hole.1 == -shaft_fundamental(r, hl, hg) + hole_delta(step, hg)
            &&& l.clearance.0 == l.hole.0 - l.shaft.1
            &&& l.clearance.1 == l.hole.1 - l.shaft.0
        }),
{
    lemma_fit_name_text(fit);
}

/// The text of each fit name.
proof fn lemma_fit_name_text(fit: Fit)
    ensures
        fit_name(fit) == match fit {
            Fit::H11C11 => seq!['h', '1', '1', '/', 'c', '1', '1'],
            Fit::H9D9 => seq!['h', '9', '/', 'd', '9'],
            Fit::H8F7 => seq!['h', '8', '/', 'f', '7'],
            Fit::H7G6 => seq!['h', '7', '/', 'g', '6'],
            Fit::H7H6 => seq!['h', '7', '/', 'h', '6'],
            Fit::H7K6 => seq!['h', '7', '/', 'k', '6'],
            Fit::H7N6 => seq!['h', '7', '/', 'n', '6'],
            Fit::H7P6 => seq!['h', '7', '/', 'p', '6'],
            Fit::H7S6 => seq!['h', '7', '/', 's', '6'],
            Fit::C11H11 => seq!['c', '1', '1', '/', 'h', '1', '1'],
            Fit::D9H9 => seq!['d', '9', '/', 'h', '9'],
            Fit::F8H7 => seq!['f', '8', '/', 'h', '7'],
            Fit::G7H6 => seq!['g', '7', '/', 'h', '6'],
            Fit::H6J5 => seq!['h', '6', '/', 'j', '5'],
            Fit::H6K5 => seq!['h', '6', '/', 'k', '5'],
            Fit::H7J6 => seq!['h', '7', '/', 'j', '6'],
            Fit::K7H6 => seq!['k', '7', '/', 'h', '6'],
            Fit::N7H6 => seq!['n', '7', '/', 'h', '6'],
            Fit::P7H6 => seq!['p', '7', '/', 'h', '6'],
        },
{
    match fit {
        Fit::H11C11 => reveal_strlit("h11/c11"),
        Fit::H9D9 => reveal_strlit("h9/d9"),
        Fit::H8F7 => reveal_strlit("h8/f7"),
        Fit::H7G6 => reveal_strlit("h7/g6"),
        Fit::H7H6 => reveal_strlit("h7/h6"),
        Fit::H7K6 => reveal_strlit("h7/k6"),
        Fit::H7N6 => reveal_strlit("h7/n6"),
        Fit::H7P6 => reveal_strlit("h7/p6"),
        Fit::H7S6 => reveal_strlit("h7/s6"),
        Fit::C11H11 => reveal_strlit("c11/h11"),
        Fit::D9H9 => reveal_strlit("d9/h9"),
        Fit::F8H7 => reveal_strlit("f8/h7"),
        Fit::G7H6 => reveal_strlit("g7/h6"),
        Fit::H6J5 => reveal_strlit("h6/j5"),
        Fit::H6K5 => reveal_strlit("h6/k5"),
        Fit::H7J6 => reveal_strlit("h7/j6"),
        Fit::K7H6 => reveal_strlit("k7/h6"),
        Fit::N7H6 => reveal_strlit("n7/h6"),
        Fit::P7H6 => reveal_strlit("p7/h6"),
    }
}

/// Distinct fits have names that differ even up to ASCII case: by length, or
/// in the first two or the last two characters.
proof fn lemma_fit_names_distinct(f: Fit, g: Fit)
    requires
        f != g,
    ensures
        folded(fit_name(f)) != folded(fit_name(g)),
{
    lemma_fit_name_text(f);
    lemma_fit_name_text(g);
    let a = fit_name(f);
    let b = fit_name(g);
    if folded(a) == folded(b) {
        let n = a.len() as int;
        assert(folded(a).len() == n && folded(b).len() == b.len());
        assert(fold_code(a[0]) == fold_code(b[0])) by {
            assert(folded(a)[0] == folded(b)[0]);
        }
        assert(fold_code(a[1]) == fold_code(b[1])) by {
            assert(folded(a)[1] == folded(b)[1]);
        }
        assert(fold_code(a[n - 2]) == fold_code(b[n - 2])) by {
            assert(folded(a)[n - 2] == folded(b)[n - 2]);
        }
        assert(fold_code(a[n - 1]) == fold_code(b[n - 1])) by {
            assert(folded(a)[n - 1] == folded(b)[n - 1]);
        }
    }
}

/// **Parsing a fit's name gives the fit back, in any ASCII case, and only its
/// name does.** A string names fit `f` exactly when it equals `f`'s canonical
/// name up to ASCII case (`"G7/h6"` names G7/h6 and nothing else).
pub proof fn lemma_fit_name_round_trip(f: Fit, s: Seq<char>)
    ensures
        fit_named(fit_name(f)) == Some(f),
        fit_named(s) == Some(f) <==> folded(s) == folded(fit_name(f)),
{
    assert forall|g: Fit| g != f implies folded(fit_name(f)) != folded(fit_name(g)) by {
        lemma_fit_names_distinct(f, g);
    }
}

} // verus!
