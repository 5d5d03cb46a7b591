use kernel_model::tolerance::{decimal_string, gate_verdict, MethodKind, PrintedFeature, Sign, ToleranceSource};

#[test]
fn signs_flip_and_print() {
    assert_eq!(Sign::Adds.flipped(), Sign::Subtracts);
    assert_eq!(Sign::Subtracts.flipped(), Sign::Adds);
    assert_eq!(Sign::Adds.flipped().flipped(), Sign::Adds);
    assert_eq!((Sign::Adds.symbol(), Sign::Subtracts.symbol()), ("+", "-"));
}

#[test]
fn tolerance_sources_label_their_provenance() {
    assert_eq!(ToleranceSource::Declared.label(), "declared");
    assert_eq!(ToleranceSource::Catalog("608ZZ".to_string()).label(), "catalog:608ZZ");
    let p = ToleranceSource::Process {
        profile: "conservative_default".to_string(),
        feature: "outer_surface_radial".to_string(),
        note: "envelope".to_string(),
    };
    assert_eq!(p.label(), "process:conservative_default/outer_surface_radial");
    assert_ne!(PrintedFeature::OuterSurfaceRadial, PrintedFeature::UncompensatedHoleDiametral);
}

#[test]
fn gate_verdicts_name_the_aggregate_only_failure() {
    let pass = gate_verdict(false, &vec![true, false]);
    assert_eq!((pass.failing_alone, pass.aggregate_only_failure, pass.verdict.as_str()), (1, false, "pass"));
    let agg = gate_verdict(true, &vec![true, true, true]);
    assert_eq!(
        (agg.failing_alone, agg.aggregate_only_failure, agg.verdict.as_str()),
        (0, true, "fail (aggregate only — every link passes alone)")
    );
    let both = gate_verdict(true, &vec![false, true, false]);
    assert_eq!(
        (both.failing_alone, both.aggregate_only_failure, both.verdict.as_str()),
        (2, false, "fail (2 link(s) also fail alone)")
    );
}

#[test]
fn decimal_numerals_have_no_leading_zeros() {
    assert_eq!(decimal_string(0), "0");
    assert_eq!(decimal_string(7), "7");
    assert_eq!(decimal_string(10), "10");
    assert_eq!(decimal_string(1203), "1203");
    assert_eq!(decimal_string(usize::MAX), usize::MAX.to_string());
}

#[test]
fn stack_methods_have_stable_names() {
    assert_eq!((MethodKind::WorstCase.name(), MethodKind::Rss.name()), ("worst_case", "rss"));
}
