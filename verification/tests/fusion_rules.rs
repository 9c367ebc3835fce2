use imageproof::fusion::{deep_decision, derive_reason_codes, fast_decision, DeepGates, FastGates, Layer, LayerFlags};
use imageproof::model::{ReasonCode, VerificationClass};

fn flags(signal: bool, physical: bool, hybrid: bool, semantic: bool) -> LayerFlags {
    LayerFlags { signal, physical, hybrid, semantic }
}

// The contribution thresholds are compared by the caller; these cases give
// the resulting flags for contributions {0.50, 0.30, 0.20, 0.40},
// {0.10, 0.05, 0.00, 0.14}, {0.60, 0.10, 0.25, 0.01} and the exact-threshold
// case against the 0.15 threshold.

#[test]
fn m7_derive_reason_codes_all_above_threshold() {
    let r = derive_reason_codes(&flags(true, true, true, true));
    let codes = r.reason_codes;
    assert!(codes.contains(&ReasonCode::SigFreq001));
    assert!(codes.contains(&ReasonCode::PhyPrnu001));
    assert!(codes.contains(&ReasonCode::HybEla001));
    assert!(codes.contains(&ReasonCode::SemClass001));
    assert_eq!(codes.len(), 4);
    assert_eq!(r.layer_reasons.len(), 4);
}

#[test]
fn m7_derive_reason_codes_none_above_threshold() {
    let r = derive_reason_codes(&flags(false, false, false, false));
    assert!(r.reason_codes.is_empty());
    assert!(r.layer_reasons.is_empty());
}

#[test]
fn m7_derive_reason_codes_partial() {
    let r = derive_reason_codes(&flags(true, false, true, false));
    let codes = r.reason_codes;
    assert_eq!(codes.len(), 2);
    assert!(codes.contains(&ReasonCode::SigFreq001));
    assert!(codes.contains(&ReasonCode::HybEla001));
    assert!(!codes.contains(&ReasonCode::PhyPrnu001));
    assert!(!codes.contains(&ReasonCode::SemClass001));
    assert_eq!(r.layer_reasons.len(), 2);
}

#[test]
fn m7_derive_reason_codes_at_exact_threshold() {
    let r = derive_reason_codes(&flags(true, false, true, false));
    assert_eq!(r.reason_codes.len(), 2);
    assert!(r.reason_codes.contains(&ReasonCode::SigFreq001));
    assert!(r.reason_codes.contains(&ReasonCode::HybEla001));
}

#[test]
fn layer_reasons_pair_each_code_with_its_layer() {
    let r = derive_reason_codes(&flags(true, true, false, true));
    assert_eq!(r.reason_codes, vec![ReasonCode::SigFreq001, ReasonCode::PhyPrnu001, ReasonCode::SemClass001]);
    let layers: Vec<&str> = r.layer_reasons.iter().map(|(l, _)| l.name()).collect();
    assert_eq!(layers, vec!["signal", "physical", "semantic"]);
    assert!(r.layer_reasons.iter().zip(r.reason_codes.iter()).all(|((_, c), code)| c == &vec![*code]));
}

fn gates(synthetic: bool, suspicious: bool, indeterminate: bool, semantic_escalation: bool) -> DeepGates {
    DeepGates { synthetic, suspicious, indeterminate, semantic_escalation }
}

#[test]
fn synthetic_verdict_cites_every_layer() {
    let d = deep_decision(&gates(true, true, true, false), &flags(false, false, false, false));
    assert_eq!(d.classification, VerificationClass::Synthetic);
    assert_eq!(
        d.reasons.reason_codes,
        vec![ReasonCode::SemClass001, ReasonCode::SigFreq001, ReasonCode::PhyPrnu001, ReasonCode::HybEla001]
    );
    let layers: Vec<Layer> = d.reasons.layer_reasons.iter().map(|(l, _)| *l).collect();
    assert_eq!(layers, vec![Layer::Semantic, Layer::Signal, Layer::Physical, Layer::Hybrid]);
}

#[test]
fn suspicious_verdict_escalates_and_falls_back() {
    let d = deep_decision(&gates(false, true, false, true), &flags(false, false, true, false));
    assert_eq!(d.classification, VerificationClass::Suspicious);
    assert_eq!(d.reasons.reason_codes, vec![ReasonCode::HybEla001, ReasonCode::SemClass001]);
    let d = deep_decision(&gates(false, true, false, true), &flags(false, false, false, true));
    assert_eq!(d.reasons.reason_codes, vec![ReasonCode::SemClass001]);
    let d = deep_decision(&gates(false, true, false, false), &flags(false, false, false, false));
    assert_eq!(d.reasons.reason_codes, vec![ReasonCode::HybEla001]);
}

#[test]
fn indeterminate_emits_sys_insuff_reason() {
    let d = deep_decision(&gates(false, false, true, true), &flags(true, true, true, true));
    assert_eq!(d.classification, VerificationClass::Indeterminate);
    assert_eq!(d.reasons.reason_codes, vec![ReasonCode::SysInsuff001]);
    assert_eq!(d.reasons.layer_reasons[0].0.name(), "system");
}

#[test]
fn authentic_cites_contributing_layers_or_falls_back() {
    let d = deep_decision(&gates(false, false, false, true), &flags(true, false, false, false));
    assert_eq!(d.classification, VerificationClass::Authentic);
    assert_eq!(d.reasons.reason_codes, vec![ReasonCode::SigFreq001]);
    let d = deep_decision(&gates(false, false, false, false), &flags(false, false, false, false));
    assert_eq!(d.reasons.reason_codes, vec![ReasonCode::PhyPrnu001]);
}

#[test]
fn fast_verdicts_carry_a_single_code() {
    let cases = [
        (FastGates { synthetic: true, suspicious: true, indeterminate: true }, VerificationClass::Synthetic, ReasonCode::SigFreq001, "signal"),
        (FastGates { synthetic: false, suspicious: true, indeterminate: true }, VerificationClass::Suspicious, ReasonCode::HybEla001, "hybrid"),
        (FastGates { synthetic: false, suspicious: false, indeterminate: true }, VerificationClass::Indeterminate, ReasonCode::SysInsuff001, "system"),
        (FastGates { synthetic: false, suspicious: false, indeterminate: false }, VerificationClass::Authentic, ReasonCode::PhyPrnu001, "physical"),
    ];
    for (g, class, code, layer) in cases {
        let d = fast_decision(&g);
        assert_eq!(d.classification, class);
        assert_eq!(d.reasons.reason_codes, vec![code]);
        assert_eq!(d.reasons.layer_reasons.len(), 1);
        assert_eq!(d.reasons.layer_reasons[0].0.name(), layer);
    }
}
