//! Classification and reason-code rules of the fusion stage.
//!
//! The likelihoods themselves are floating-point quantities computed by the
//! caller; the rules here take the outcome of each threshold comparison and
//! decide the verdict and its explanation.

use vstd::prelude::*;

use crate::model::{ReasonCode, VerificationClass};

verus! {

/// Analysis layer that a reason code is attributed to.
#[derive(Debug, Clone, Copy, PartialEq, Eq, Structural)]
pub enum Layer {
    Signal,
    Physical,
    Hybrid,
    Semantic,
    System,
}

impl Layer {
    /// The label the layer carries in reports.
    pub fn name(self) -> (s: &'static str)
        ensures
            self == Layer::Signal ==> s@ == "signal"@,
            self == Layer::Physical ==> s@ == "physical"@,
            self == Layer::Hybrid ==> s@ == "hybrid"@,
            self == Layer::Semantic ==> s@ == "semantic"@,
            self == Layer::System ==> s@ == "system"@,
    {
        match self {
            Layer::Signal => "signal",
            Layer::Physical => "physical",
            Layer::Hybrid => "hybrid",
            Layer::Semantic => "semantic",
            Layer::System => "system",
        }
    }
}

/// The layer each reason code speaks for.
pub open spec fn code_layer(c: ReasonCode) -> Layer {
    match c {
        ReasonCode::SigFreq001 => Layer::Signal,
        ReasonCode::PhyPrnu001 => Layer::Physical,
        ReasonCode::HybEla001 => Layer::Hybrid,
        ReasonCode::SemClass001 => Layer::Semantic,
        ReasonCode::SysInsuff001 => Layer::System,
        ReasonCode::SysDegrad001 => Layer::System,
    }
}

fn layer_of(c: ReasonCode) -> (l: Layer)
    ensures
        l == code_layer(c),
{
    match c {
        ReasonCode::SigFreq001 => Layer::Signal,
        ReasonCode::PhyPrnu001 => Layer::Physical,
        ReasonCode::HybEla001 => Layer::Hybrid,
        ReasonCode::SemClass001 => Layer::Semantic,
        ReasonCode::SysInsuff001 => Layer::System,
        ReasonCode::SysDegrad001 => Layer::System,
    }
}

/// Which layers reached the reason-code contribution threshold.
#[derive(Debug, Clone, Copy)]
pub struct LayerFlags {
    pub signal: bool,
    pub physical: bool,
    pub hybrid: bool,
    pub semantic: bool,
}

/// The codes of the flagged layers, in layer order signal, physical, hybrid,
/// semantic.
pub open spec fn flagged_codes(f: LayerFlags) -> Seq<ReasonCode> {
    let s1 = if f.signal { seq![ReasonCode::SigFreq001] } else { Seq::empty() };
    let s2 = if f.physical { s1.push(ReasonCode::PhyPrnu001) } else { s1 };
    let s3 = if f.hybrid { s2.push(ReasonCode::HybEla001) } else { s2 };
    if f.semantic { s3.push(ReasonCode::SemClass001) } else { s3 }
}

/// Reason codes together with the per-layer breakdown of the same codes.
pub struct Reasons {
    pub reason_codes: Vec<ReasonCode>,
    pub layer_reasons: Vec<(Layer, Vec<ReasonCode>)>,
}

/// `r` lists exactly `codes`, each code also filed under its own layer.
pub open spec fn reasons_are(r: Reasons, codes: Seq<ReasonCode>) -> bool {
    &&& r.reason_codes@ == codes
    &&& r.layer_reasons@.len() == codes.len()
    &&& forall|i: int|
        0 <= i < codes.len() ==> (#[trigger] r.layer_reasons@[i]).0 == code_layer(codes[i])
            && r.layer_reasons@[i].1@ == seq![codes[i]]
}

fn empty_reasons() -> (r: Reasons)
    ensures
        reasons_are(r, Seq::empty()),
{
    Reasons { reason_codes: Vec::new(), layer_reasons: Vec::new() }
}

fn push_reason(r: &mut Reasons, c: ReasonCode, Ghost(codes): Ghost<Seq<ReasonCode>>)
    requires
        reasons_are(*old(r), codes),
    ensures
        reasons_are(*final(r), codes.push(c)),
{
    let ghost before = *r;
    r.reason_codes.push(c);
    let mut one: Vec<ReasonCode> = Vec::new();
    one.push(c);
    r.layer_reasons.push((layer_of(c), one));
    proof {
        let n = codes.len() as int;
        assert forall|i: int| 0 <= i < n + 1 implies (#[trigger] r.layer_reasons@[i]).0 == code_layer(codes.push(c)[i])
            && r.layer_reasons@[i].1@ == seq![codes.push(c)[i]] by {
            if i < n {
                assert(r.layer_reasons@[i] == before.layer_reasons@[i]);
            }
        }
    }
}

/// Codes for the layers whose contribution reached the threshold.
pub fn derive_reason_codes(flags: &LayerFlags) -> (res: Reasons)
    ensures
        reasons_are(res, flagged_codes(*flags)),
{
    let mut r = empty_reasons();
    let ghost mut codes: Seq<ReasonCode> = Seq::empty();
    if flags.signal {
        push_reason(&mut r, ReasonCode::SigFreq001, Ghost(codes));
        proof {
            codes = codes.push(ReasonCode::SigFreq001);
        }
    }
    if flags.physical {
        push_reason(&mut r, ReasonCode::PhyPrnu001, Ghost(codes));
        proof {
            codes = codes.push(ReasonCode::PhyPrnu001);
        }
    }
    if flags.hybrid {
        push_reason(&mut r, ReasonCode::HybEla001, Ghost(codes));
        proof {
            codes = codes.push(ReasonCode::HybEla001);
        }
    }
    if flags.semantic {
        push_reason(&mut r, ReasonCode::SemClass001, Ghost(codes));
        proof {
            codes = codes.push(ReasonCode::SemClass001);
        }
    }
    proof {
        assert(codes =~= flagged_codes(*flags));
    }
    r
}


fn reasons_of(codes: &Vec<ReasonCode>) -> (r: Reasons)
    ensures
        reasons_are(r, codes@),
{
    let mut r = empty_reasons();
    let mut i: usize = 0;
    assert(codes@.subrange(0, 0) =~= Seq::<ReasonCode>::empty());
    while i < codes.len()
        invariant
            i <= codes@.len(),
            reasons_are(r, codes@.subrange(0, i as int)),
        decreases codes@.len() - i,
    {
        push_reason(&mut r, codes[i], Ghost(codes@.subrange(0, i as int)));
        proof {
            assert(codes@.subrange(0, i as int).push(codes@[i as int]) =~= codes@.subrange(0, i + 1));
        }
        i = i + 1;
    }
    proof {
        assert(codes@.subrange(0, codes@.len() as int) =~= codes@);
    }
    r
}

/// A verdict with its explanation.
pub struct Decision {
    pub classification: VerificationClass,
    pub reasons: Reasons,
}

/// Outcome of the threshold comparisons of deep mode.
#[derive(Debug, Clone, Copy)]
pub struct DeepGates {
    /// The synthetic likelihood exceeds its minimum and the edited likelihood
    /// by the required margin.
    pub synthetic: bool,
    /// The edited likelihood exceeds the suspicious minimum.
    pub suspicious: bool,
    /// Both likelihoods are below the indeterminate ceiling and closer to each
    /// other than the minimum spread.
    pub indeterminate: bool,
    /// The semantic cues call for the semantic reason code.
    pub semantic_escalation: bool,
}

/// Outcome of the threshold comparisons of fast mode.
#[derive(Debug, Clone, Copy)]
pub struct FastGates {
    pub synthetic: bool,
    pub suspicious: bool,
    pub indeterminate: bool,
}

/// Verdict precedence: synthetic, then suspicious, then indeterminate, else
/// authentic.
pub open spec fn gate_class(synthetic: bool, suspicious: bool, indeterminate: bool) -> VerificationClass {
    if synthetic {
        VerificationClass::Synthetic
    } else if suspicious {
        VerificationClass::Suspicious
    } else if indeterminate {
        VerificationClass::Indeterminate
    } else {
        VerificationClass::Authentic
    }
}

/// Reason codes of a deep-mode verdict.
pub open spec fn deep_codes(g: DeepGates, f: LayerFlags) -> Seq<ReasonCode> {
    let base = flagged_codes(f);
    match gate_class(g.synthetic, g.suspicious, g.indeterminate) {
        VerificationClass::Synthetic => seq![
            ReasonCode::SemClass001,
            ReasonCode::SigFreq001,
            ReasonCode::PhyPrnu001,
            ReasonCode::HybEla001,
        ],
        VerificationClass::Suspicious => {
            let escalated = if !base.contains(ReasonCode::SemClass001) && g.semantic_escalation {
                base.push(ReasonCode::SemClass001)
            } else {
                base
            };
            if escalated.len() == 0 { seq![ReasonCode::HybEla001] } else { escalated }
        },
        VerificationClass::Indeterminate => seq![ReasonCode::SysInsuff001],
        VerificationClass::Authentic => if base.len() == 0 { seq![ReasonCode::PhyPrnu001] } else { base },
    }
}

/// Reason codes of a verdict in fast mode.
pub open spec fn fast_codes(g: FastGates) -> Seq<ReasonCode> {
    match gate_class(g.synthetic, g.suspicious, g.indeterminate) {
        VerificationClass::Synthetic => seq![ReasonCode::SigFreq001],
        VerificationClass::Suspicious => seq![ReasonCode::HybEla001],
        VerificationClass::Indeterminate => seq![ReasonCode::SysInsuff001],
        VerificationClass::Authentic => seq![ReasonCode::PhyPrnu001],
    }
}

fn contains_code(codes: &Vec<ReasonCode>, c: ReasonCode) -> (b: bool)
    ensures
        b == codes@.contains(c),
{
    let mut i: usize = 0;
    while i < codes.len()
        invariant
            i <= codes@.len(),
            forall|j: int| 0 <= j < i ==> codes@[j] != c,
        decreases codes@.len() - i,
    {
        if codes[i] == c {
            assert(codes@[i as int] == c);
            return true;
        }
        i = i + 1;
    }
    false
}

/// Deep-mode verdict and explanation. Synthetic verdicts carry every layer's
/// code; suspicious and authentic verdicts carry the codes of the layers that
/// contributed, with a fallback code when none did; indeterminate verdicts
/// carry the insufficient-evidence code.
pub fn deep_decision(gates: &DeepGates, flags: &LayerFlags) -> (d: Decision)
    ensures
        d.classification == gate_class(gates.synthetic, gates.suspicious, gates.indeterminate),
        reasons_are(d.reasons, deep_codes(*gates, *flags)),
{
    if gates.synthetic {
        let mut codes: Vec<ReasonCode> = Vec::new();
        codes.push(ReasonCode::SemClass001);
        codes.push(ReasonCode::SigFreq001);
        codes.push(ReasonCode::PhyPrnu001);
        codes.push(ReasonCode::HybEla001);
        proof {
            assert(codes@ =~= deep_codes(*gates, *flags));
        }
        Decision { classification: VerificationClass::Synthetic, reasons: reasons_of(&codes) }
    } else if gates.suspicious {
        let mut r = derive_reason_codes(flags);
        let ghost base = flagged_codes(*flags);
        let ghost mut codes = base;
        if !contains_code(&r.reason_codes, ReasonCode::SemClass001) && gates.semantic_escalation {
            push_reason(&mut r, ReasonCode::SemClass001, Ghost(codes));
            proof {
                codes = codes.push(ReasonCode::SemClass001);
            }
        }
        if r.reason_codes.len() == 0 {
            push_reason(&mut r, ReasonCode::HybEla001, Ghost(codes));
            proof {
                assert(codes.push(ReasonCode::HybEla001) =~= seq![ReasonCode::HybEla001]);
                codes = codes.push(ReasonCode::HybEla001);
            }
        }
        Decision { classification: VerificationClass::Suspicious, reasons: r }
    } else if gates.indeterminate {
        let mut codes: Vec<ReasonCode> = Vec::new();
        codes.push(ReasonCode::SysInsuff001);
        proof {
            assert(codes@ =~= deep_codes(*gates, *flags));
        }
        Decision { classification: VerificationClass::Indeterminate, reasons: reasons_of(&codes) }
    } else {
        let mut r = derive_reason_codes(flags);
        if r.reason_codes.len() == 0 {
            push_reason(&mut r, ReasonCode::PhyPrnu001, Ghost(Seq::empty()));
            proof {
                assert(Seq::<ReasonCode>::empty().push(ReasonCode::PhyPrnu001) =~= seq![ReasonCode::PhyPrnu001]);
            }
        }
        Decision { classification: VerificationClass::Authentic, reasons: r }
    }
}

/// Fast-mode verdict and its single reason code.
pub fn fast_decision(gates: &FastGates) -> (d: Decision)
    ensures
        d.classification == gate_class(gates.synthetic, gates.suspicious, gates.indeterminate),
        reasons_are(d.reasons, fast_codes(*gates)),
{
    let (classification, code) = if gates.synthetic {
        (VerificationClass::Synthetic, ReasonCode::SigFreq001)
    } else if gates.suspicious {
        (VerificationClass::Suspicious, ReasonCode::HybEla001)
    } else if gates.indeterminate {
        (VerificationClass::Indeterminate, ReasonCode::SysInsuff001)
    } else {
        (VerificationClass::Authentic, ReasonCode::PhyPrnu001)
    };
    let mut codes: Vec<ReasonCode> = Vec::new();
    codes.push(code);
    proof {
        assert(codes@ =~= fast_codes(*gates));
    }
    Decision { classification, reasons: reasons_of(&codes) }
}

} // verus!
