//! Properties of the library as a whole, stated over the specifications that
//! the functions' contracts use.

use vstd::prelude::*;

use crate::config::{HYBRID_TILE_MAX, HYBRID_TILE_MIN, PRNU_BLOCK_SIZE};
use crate::dataset::{
    extension, file_name, file_stem, files_in, files_in_entries, images_in, images_in_entries, perturbation_tags,
    supported_image, tag_patterns, tag_step, tags_upto, FsNode,
};
use crate::decode::{decode_verdict, decoded_luma, input_verdict, sniffed_format, SniffedFormat};
use crate::fusion::{
    code_layer, deep_codes, fast_codes, flagged_codes, gate_class, DeepGates, FastGates, Layer, LayerFlags,
};
use crate::model::{ReasonCode, VerificationClass, VerifyError};
use crate::raster::{
    abs, block_moment, boundary_count_term, boundary_delta_term, edge_term, gradient_at, hybrid_tile_side,
    inner_count_term, inner_delta_term, interior_count, noise_term, pair_in_bounds, pairs_of_block, pairs_upto,
    pixel_stats_match, prnu_pairs, px, raster_wf, rect_sum, residual_at, row_sum, sample_fn, sample_sq_fn, sum_to,
    BlockPair, GrayImageView, PixelStats,
};
use crate::stress::{
    acceptance_of, first_config_flag, is_match, positional_args, positional_from, recorded, stats_wf, tallied, tally_wf, undersampled, AcceptanceCounts, ExpectedClass,
    GroupStats, StressTally,
};
use crate::text::{ascii_lower_seq, contains_run, last_index_of};

verus! {

// ─── Input gates ────────────────────────────────────────────────────────────

/// An empty payload is refused as empty, whatever the limits.
pub proof fn law_empty_payload_refused(bytes: Seq<u8>, max_file_size: usize, max_dimension: u32)
    requires
        bytes.len() == 0,
    ensures
        input_verdict(bytes, max_file_size, max_dimension) == Err::<(GrayImageView, bool), VerifyError>(VerifyError::EmptyInput),
{
}

/// A payload longer than the byte limit is refused for its size, with its
/// length and the limit, before anything looks at its content.
pub proof fn law_oversized_payload_refused_before_decoding(bytes: Seq<u8>, max_file_size: usize, max_dimension: u32)
    requires
        bytes.len() > max_file_size,
        bytes.len() <= usize::MAX,
    ensures
        input_verdict(bytes, max_file_size, max_dimension) == Err::<(GrayImageView, bool), VerifyError>(
            VerifyError::InputTooLarge { size: bytes.len() as usize, limit: max_file_size },
        ),
{
}

/// A non-empty payload of at most the byte limit, the limit itself included,
/// passes the size gate: what it yields is what decoding it yields.
pub proof fn law_payload_within_limit_is_decoded(bytes: Seq<u8>, max_file_size: usize, max_dimension: u32)
    requires
        0 < bytes.len() <= max_file_size,
    ensures
        input_verdict(bytes, max_file_size, max_dimension) == decode_verdict(bytes, max_dimension),
{
}

/// Only JPEG, PNG and WebP payloads reach the decoder; any other payload is
/// refused as an unsupported format.
pub proof fn law_unsupported_formats_refused(bytes: Seq<u8>, max_dimension: u32)
    requires
        sniffed_format(bytes) == SniffedFormat::Other,
    ensures
        decode_verdict(bytes, max_dimension) == Err::<(GrayImageView, bool), VerifyError>(VerifyError::UnsupportedFormat),
{
}

/// Only a payload whose first byte opens a PNG, JPEG or RIFF signature can be
/// accepted: BMP (`B`), GIF (`G`), TIFF (`I`, `M`) and empty payloads are not.
pub proof fn law_leading_byte_rules_out_formats(bytes: Seq<u8>)
    requires
        bytes.len() == 0 || (bytes[0] != 0x89u8 && bytes[0] != 0xFFu8 && bytes[0] != 0x52u8),
    ensures
        sniffed_format(bytes) == SniffedFormat::Other,
{
    if bytes.len() >= 8 {
        assert(bytes.subrange(0, 8)[0] == bytes[0]);
    }
    if bytes.len() >= 3 {
        assert(bytes.subrange(0, 3)[0] == bytes[0]);
    }
    if bytes.len() >= 12 {
        assert(bytes.subrange(0, 4)[0] == bytes[0]);
    }
}

pub open spec fn starts_as_png(b: Seq<u8>) -> bool {
    b.len() >= 8 && b[0] == 0x89u8 && b[1] == 0x50u8 && b[2] == 0x4Eu8 && b[3] == 0x47u8 && b[4] == 0x0Du8
        && b[5] == 0x0Au8 && b[6] == 0x1Au8 && b[7] == 0x0Au8
}

pub open spec fn starts_as_jpeg(b: Seq<u8>) -> bool {
    b.len() >= 3 && b[0] == 0xFFu8 && b[1] == 0xD8u8 && b[2] == 0xFFu8
}

pub open spec fn starts_as_webp(b: Seq<u8>) -> bool {
    b.len() >= 12 && b[0] == 0x52u8 && b[1] == 0x49u8 && b[2] == 0x46u8 && b[3] == 0x46u8 && b[8] == 0x57u8
        && b[9] == 0x45u8 && b[10] == 0x42u8 && b[11] == 0x50u8
}

proof fn lemma_signatures(bytes: Seq<u8>)
    ensures
        starts_as_png(bytes) ==> sniffed_format(bytes) == SniffedFormat::Png,
        starts_as_jpeg(bytes) ==> sniffed_format(bytes) == SniffedFormat::Jpeg,
        starts_as_webp(bytes) ==> sniffed_format(bytes) == SniffedFormat::WebP,
{
    if starts_as_png(bytes) {
        assert(bytes.subrange(0, 8) =~= crate::decode::png_signature());
    }
    if starts_as_jpeg(bytes) {
        assert(bytes.subrange(0, 3) =~= crate::decode::jpeg_signature());
        if bytes.len() >= 8 {
            assert(bytes.subrange(0, 8)[0] == bytes[0]);
        }
    }
    if starts_as_webp(bytes) {
        assert(bytes.subrange(0, 4) =~= seq![0x52u8, 0x49u8, 0x46u8, 0x46u8]);
        assert(bytes.subrange(8, 12) =~= seq![0x57u8, 0x45u8, 0x42u8, 0x50u8]);
        assert(bytes.subrange(0, 8)[0] == bytes[0]);
        assert(bytes.subrange(0, 3)[0] == bytes[0]);
    }
}

/// A PNG, JPEG or WebP payload is decoded to exactly the raster the decoder
/// gives, flagged as JPEG only for a JPEG payload, when the image is at most
/// `max_dimension` wide and tall, the limit itself included; a wider or
/// taller image is refused with its size and the limit; a payload the
/// decoder cannot read is refused as a failed decode.
pub proof fn law_supported_payloads_decode_within_limit(bytes: Seq<u8>, max_dimension: u32)
    requires
        starts_as_png(bytes) || starts_as_jpeg(bytes) || starts_as_webp(bytes),
    ensures
        decoded_luma(bytes) is None ==> decode_verdict(bytes, max_dimension) == Err::<(GrayImageView, bool), VerifyError>(
            VerifyError::DecodeFailed,
        ),
        decoded_luma(bytes) matches Some((w, h, pixels)) ==> {
            &&& (w <= max_dimension && h <= max_dimension) ==> decode_verdict(bytes, max_dimension) == Ok::<
                (GrayImageView, bool),
                VerifyError,
            >((GrayImageView { width: w as nat, height: h as nat, pixels }, starts_as_jpeg(bytes)))
            &&& (w > max_dimension || h > max_dimension) ==> decode_verdict(bytes, max_dimension) == Err::<
                (GrayImageView, bool),
                VerifyError,
            >(VerifyError::DimensionTooLarge { width: w, height: h, limit: max_dimension })
        },
{
    lemma_signatures(bytes);
}

/// Every image that comes out of decoding lies within the dimension limit.
pub proof fn law_decoded_images_within_limit(bytes: Seq<u8>, max_dimension: u32)
    ensures
        decode_verdict(bytes, max_dimension) matches Ok((v, _)) ==> v.width <= max_dimension && v.height
            <= max_dimension,
{
}

// ─── Verdict and reasons ────────────────────────────────────────────────────

/// Every verdict carries at least one reason code; in fast mode exactly one.
pub proof fn law_every_verdict_has_a_reason(gates: DeepGates, fast: FastGates, flags: LayerFlags)
    ensures
        deep_codes(gates, flags).len() >= 1,
        fast_codes(fast).len() == 1,
{
}

/// An indeterminate verdict is explained by the insufficient-evidence code
/// alone.
pub proof fn law_indeterminate_cites_insufficient_evidence(gates: DeepGates, fast: FastGates, flags: LayerFlags)
    ensures
        gate_class(gates.synthetic, gates.suspicious, gates.indeterminate) == VerificationClass::Indeterminate
            ==> deep_codes(gates, flags) == seq![ReasonCode::SysInsuff001],
        gate_class(fast.synthetic, fast.suspicious, fast.indeterminate) == VerificationClass::Indeterminate
            ==> fast_codes(fast) == seq![ReasonCode::SysInsuff001],
{
}

/// A layer's code is derived exactly when that layer reached the threshold.
pub proof fn law_derived_codes_follow_layers(flags: LayerFlags)
    ensures
        flagged_codes(flags).contains(ReasonCode::SigFreq001) == flags.signal,
        flagged_codes(flags).contains(ReasonCode::PhyPrnu001) == flags.physical,
        flagged_codes(flags).contains(ReasonCode::HybEla001) == flags.hybrid,
        flagged_codes(flags).contains(ReasonCode::SemClass001) == flags.semantic,
        forall|i: int|
            0 <= i < flagged_codes(flags).len() ==> code_layer(#[trigger] flagged_codes(flags)[i]) != Layer::System,
{
    let s = flagged_codes(flags);
    let c1 = if flags.signal { seq![ReasonCode::SigFreq001] } else { Seq::<ReasonCode>::empty() };
    let c2 = if flags.physical { c1.push(ReasonCode::PhyPrnu001) } else { c1 };
    let c3 = if flags.hybrid { c2.push(ReasonCode::HybEla001) } else { c2 };
    assert(s == if flags.semantic { c3.push(ReasonCode::SemClass001) } else { c3 });
    if flags.signal {
        assert(s[0] == ReasonCode::SigFreq001);
    }
    if flags.physical {
        assert(c2.last() == ReasonCode::PhyPrnu001);
        assert(s[c2.len() - 1] == ReasonCode::PhyPrnu001);
    }
    if flags.hybrid {
        assert(s[c3.len() - 1] == ReasonCode::HybEla001);
    }
    if flags.semantic {
        assert(s.last() == ReasonCode::SemClass001);
    }
}

/// No verdict cites the same code twice.
pub proof fn law_reason_codes_distinct(gates: DeepGates, flags: LayerFlags)
    ensures
        deep_codes(gates, flags).no_duplicates(),
{
    let s = flagged_codes(flags);
    law_derived_codes_follow_layers(flags);
    assert(s.no_duplicates()) by {
        let c1 = if flags.signal { seq![ReasonCode::SigFreq001] } else { Seq::<ReasonCode>::empty() };
        let c2 = if flags.physical { c1.push(ReasonCode::PhyPrnu001) } else { c1 };
        let c3 = if flags.hybrid { c2.push(ReasonCode::HybEla001) } else { c2 };
        assert(c1.no_duplicates());
        assert(!c1.contains(ReasonCode::PhyPrnu001));
        assert(c2.no_duplicates());
        assert(!c2.contains(ReasonCode::HybEla001));
        assert(c3.no_duplicates());
        assert(!c3.contains(ReasonCode::SemClass001));
    }
    if !s.contains(ReasonCode::SemClass001) {
        assert(s.push(ReasonCode::SemClass001).no_duplicates());
    }
}

/// An authentic verdict cites the physical layer only when that layer reached
/// the threshold, or as the fallback when no layer did.
pub proof fn law_authentic_cites_physical_only_when_due(gates: DeepGates, flags: LayerFlags)
    requires
        gate_class(gates.synthetic, gates.suspicious, gates.indeterminate) == VerificationClass::Authentic,
    ensures
        deep_codes(gates, flags).contains(ReasonCode::PhyPrnu001) <==> (flags.physical || flagged_codes(flags).len()
            == 0),
{
    law_derived_codes_follow_layers(flags);
    if flagged_codes(flags).len() == 0 {
        assert(deep_codes(gates, flags)[0] == ReasonCode::PhyPrnu001);
    }
}

/// When no layer reaches the threshold, a verdict other than synthetic
/// carries exactly one code: its fallback.
pub proof fn law_no_contributing_layer_leaves_one_code(gates: DeepGates, flags: LayerFlags)
    requires
        !flags.signal,
        !flags.physical,
        !flags.hybrid,
        !flags.semantic,
        !gates.synthetic,
    ensures
        deep_codes(gates, flags).len() == 1,
{
    assert(flagged_codes(flags) =~= Seq::<ReasonCode>::empty());
}

/// A synthetic verdict cites every analysis layer.
pub proof fn law_synthetic_cites_every_layer(gates: DeepGates, flags: LayerFlags)
    requires
        gates.synthetic,
    ensures
        deep_codes(gates, flags) == seq![
            ReasonCode::SemClass001,
            ReasonCode::SigFreq001,
            ReasonCode::PhyPrnu001,
            ReasonCode::HybEla001,
        ],
{
}

/// Position of a code's layer in the order signal, physical, hybrid,
/// semantic; system codes come last.
pub open spec fn layer_rank(c: ReasonCode) -> int {
    match c {
        ReasonCode::SigFreq001 => 0,
        ReasonCode::PhyPrnu001 => 1,
        ReasonCode::HybEla001 => 2,
        ReasonCode::SemClass001 => 3,
        ReasonCode::SysInsuff001 => 4,
        ReasonCode::SysDegrad001 => 4,
    }
}

pub open spec fn in_layer_order(codes: Seq<ReasonCode>) -> bool {
    forall|i: int, j: int| 0 <= i < j < codes.len() ==> layer_rank(#[trigger] codes[i]) < layer_rank(#[trigger] codes[j])
}

proof fn lemma_push_keeps_layer_order(codes: Seq<ReasonCode>, c: ReasonCode)
    requires
        in_layer_order(codes),
        forall|i: int| 0 <= i < codes.len() ==> layer_rank(#[trigger] codes[i]) < layer_rank(c),
    ensures
        in_layer_order(codes.push(c)),
{
    let s = codes.push(c);
    assert forall|i: int, j: int| 0 <= i < j < s.len() implies layer_rank(#[trigger] s[i]) < layer_rank(#[trigger] s[j]) by {
        assert(s[i] == codes[i]);
        if j < codes.len() {
            assert(s[j] == codes[j]);
        }
    }
}

proof fn lemma_flagged_codes_in_layer_order(flags: LayerFlags)
    ensures
        in_layer_order(flagged_codes(flags)),
{
    let c1 = if flags.signal { seq![ReasonCode::SigFreq001] } else { Seq::<ReasonCode>::empty() };
    let c2 = if flags.physical { c1.push(ReasonCode::PhyPrnu001) } else { c1 };
    let c3 = if flags.hybrid { c2.push(ReasonCode::HybEla001) } else { c2 };
    assert(flagged_codes(flags) == if flags.semantic { c3.push(ReasonCode::SemClass001) } else { c3 });
    assert(in_layer_order(c1));
    assert(forall|i: int| 0 <= i < c1.len() ==> layer_rank(#[trigger] c1[i]) <= 0);
    if flags.physical {
        lemma_push_keeps_layer_order(c1, ReasonCode::PhyPrnu001);
    }
    assert(forall|i: int| 0 <= i < c2.len() ==> layer_rank(#[trigger] c2[i]) <= 1) by {
        assert forall|i: int| 0 <= i < c2.len() implies layer_rank(#[trigger] c2[i]) <= 1 by {
            if flags.physical && i < c1.len() {
                assert(c2[i] == c1[i]);
            }
        }
    }
    if flags.hybrid {
        lemma_push_keeps_layer_order(c2, ReasonCode::HybEla001);
    }
    assert(forall|i: int| 0 <= i < c3.len() ==> layer_rank(#[trigger] c3[i]) <= 2) by {
        assert forall|i: int| 0 <= i < c3.len() implies layer_rank(#[trigger] c3[i]) <= 2 by {
            if flags.hybrid && i < c2.len() {
                assert(c3[i] == c2[i]);
            }
        }
    }
    if flags.semantic {
        lemma_push_keeps_layer_order(c3, ReasonCode::SemClass001);
    }
}

/// An authentic verdict to which some layer contributed cites exactly the
/// contributing layers, one code each, in the order signal, physical,
/// hybrid, semantic, and no system code: the signal code is cited whenever
/// the signal layer is flagged, whatever the other layers did.
pub proof fn law_authentic_cites_exactly_the_contributing_layers(gates: DeepGates, flags: LayerFlags)
    requires
        gate_class(gates.synthetic, gates.suspicious, gates.indeterminate) == VerificationClass::Authentic,
        flags.signal || flags.physical || flags.hybrid || flags.semantic,
    ensures
        deep_codes(gates, flags).contains(ReasonCode::SigFreq001) == flags.signal,
        deep_codes(gates, flags).contains(ReasonCode::PhyPrnu001) == flags.physical,
        deep_codes(gates, flags).contains(ReasonCode::HybEla001) == flags.hybrid,
        deep_codes(gates, flags).contains(ReasonCode::SemClass001) == flags.semantic,
        !deep_codes(gates, flags).contains(ReasonCode::SysInsuff001),
        !deep_codes(gates, flags).contains(ReasonCode::SysDegrad001),
        in_layer_order(deep_codes(gates, flags)),
{
    law_derived_codes_follow_layers(flags);
    let s = flagged_codes(flags);
    if s.len() == 0 {
        if flags.signal {
            assert(s.contains(ReasonCode::SigFreq001));
        } else if flags.physical {
            assert(s.contains(ReasonCode::PhyPrnu001));
        } else if flags.hybrid {
            assert(s.contains(ReasonCode::HybEla001));
        } else {
            assert(s.contains(ReasonCode::SemClass001));
        }
    }
    assert(deep_codes(gates, flags) == s);
    lemma_flagged_codes_in_layer_order(flags);
    if s.contains(ReasonCode::SysInsuff001) {
        let i = choose|i: int| 0 <= i < s.len() && s[i] == ReasonCode::SysInsuff001;
        assert(code_layer(s[i]) != Layer::System);
    }
    if s.contains(ReasonCode::SysDegrad001) {
        let i = choose|i: int| 0 <= i < s.len() && s[i] == ReasonCode::SysDegrad001;
        assert(code_layer(s[i]) != Layer::System);
    }
}

/// A suspicious verdict cites every contributing layer, in layer order, and
/// no system code; it cites the semantic layer when that layer contributed
/// or the semantic cues call for it, and falls back to the hybrid code alone
/// when nothing else is cited.
pub proof fn law_suspicious_cites_contributing_layers(gates: DeepGates, flags: LayerFlags)
    requires
        gate_class(gates.synthetic, gates.suspicious, gates.indeterminate) == VerificationClass::Suspicious,
    ensures
        deep_codes(gates, flags).contains(ReasonCode::SigFreq001) == flags.signal,
        deep_codes(gates, flags).contains(ReasonCode::PhyPrnu001) == flags.physical,
        deep_codes(gates, flags).contains(ReasonCode::SemClass001) == (flags.semantic || gates.semantic_escalation),
        deep_codes(gates, flags).contains(ReasonCode::HybEla001) == (flags.hybrid || !(flags.signal || flags.physical
            || flags.semantic || gates.semantic_escalation)),
        !deep_codes(gates, flags).contains(ReasonCode::SysInsuff001),
        !deep_codes(gates, flags).contains(ReasonCode::SysDegrad001),
        in_layer_order(deep_codes(gates, flags)),
{
    law_derived_codes_follow_layers(flags);
    lemma_flagged_codes_in_layer_order(flags);
    let base = flagged_codes(flags);
    let escalated = if !base.contains(ReasonCode::SemClass001) && gates.semantic_escalation {
        base.push(ReasonCode::SemClass001)
    } else {
        base
    };
    if !base.contains(ReasonCode::SemClass001) && gates.semantic_escalation {
        assert forall|i: int| 0 <= i < base.len() implies layer_rank(#[trigger] base[i]) < layer_rank(
            ReasonCode::SemClass001,
        ) by {
            assert(code_layer(base[i]) != Layer::System);
            assert(base[i] != ReasonCode::SemClass001);
        }
        lemma_push_keeps_layer_order(base, ReasonCode::SemClass001);
        assert(escalated[base.len() as int] == ReasonCode::SemClass001);
        assert forall|c: ReasonCode| c != ReasonCode::SemClass001 implies escalated.contains(c) == base.contains(c) by {
            if escalated.contains(c) {
                let i = choose|i: int| 0 <= i < escalated.len() && escalated[i] == c;
                assert(base[i] == c);
            }
            if base.contains(c) {
                let i = choose|i: int| 0 <= i < base.len() && base[i] == c;
                assert(escalated[i] == c);
            }
        }
    }
    if base.contains(ReasonCode::SysInsuff001) {
        let i = choose|i: int| 0 <= i < base.len() && base[i] == ReasonCode::SysInsuff001;
        assert(code_layer(base[i]) != Layer::System);
    }
    if base.contains(ReasonCode::SysDegrad001) {
        let i = choose|i: int| 0 <= i < base.len() && base[i] == ReasonCode::SysDegrad001;
        assert(code_layer(base[i]) != Layer::System);
    }
    if escalated.len() == 0 {
        assert(!base.contains(ReasonCode::SigFreq001));
        assert(deep_codes(gates, flags) == seq![ReasonCode::HybEla001]);
        assert(deep_codes(gates, flags)[0] == ReasonCode::HybEla001);
    } else {
        assert(deep_codes(gates, flags) == escalated);
        if !flags.signal && !flags.physical && !flags.semantic && !gates.semantic_escalation && !flags.hybrid {
            assert(base.len() == 0) by {
                if base.len() > 0 {
                    assert(base.contains(base[0]));
                    assert(code_layer(base[0]) != Layer::System);
                }
            }
        }
    }
}

// ─── Pixel scan ─────────────────────────────────────────────────────────────

proof fn lemma_sum_of_zeros(f: spec_fn(int) -> int, n: int)
    requires
        forall|k: int| 0 <= k < n ==> #[trigger] f(k) == 0,
    ensures
        sum_to(f, n) == 0,
    decreases n,
{
    if n > 0 {
        lemma_sum_of_zeros(f, n - 1);
    }
}

proof fn lemma_flat_cell(v: GrayImageView, value: u8, k: int)
    requires
        raster_wf(v),
        forall|i: int| 0 <= i < v.pixels.len() ==> #[trigger] v.pixels[i] == value,
        0 <= k < interior_count(v),
    ensures
        residual_at(v, k) == 0,
        noise_term(v)(k) == 0,
        edge_term(v)(k) == 0,
        boundary_delta_term(v)(k) == 0,
        inner_delta_term(v)(k) == 0,
{
    let n = interior_count(v) as int;
    assert forall|x: int, y: int| 0 <= x < v.width && 0 <= y < v.height implies #[trigger] px(v, x, y) == value by {
        assert(0 <= y * v.width + x < v.width * v.height) by (nonlinear_arith)
            requires
                0 <= x < v.width,
                0 <= y < v.height,
        ;
    }
    let iw = crate::raster::interior_width(v) as int;
    let ih = crate::raster::interior_height(v) as int;
    assert(iw > 0 && ih > 0) by (nonlinear_arith)
        requires
            n == iw * ih,
            0 <= k < n,
            iw >= 0,
            ih >= 0,
    ;
    vstd::arithmetic::div_mod::lemma_mod_pos_bound(k, iw);
    vstd::arithmetic::div_mod::lemma_div_pos_is_pos(k, iw);
    assert(k / iw < ih) by {
        vstd::arithmetic::div_mod::lemma_div_by_multiple_is_strongly_ordered(k, iw * ih, ih, iw);
        vstd::arithmetic::div_mod::lemma_div_by_multiple(ih, iw);
        assert(iw * ih == ih * iw) by (nonlinear_arith);
    }
    let x = crate::raster::cell_x(v, k);
    let y = crate::raster::cell_y(v, k);
    assert(px(v, x, y) == value);
    assert(px(v, x - 1, y) == value);
    assert(px(v, x + 1, y) == value);
    assert(px(v, x, y - 1) == value);
    assert(px(v, x, y + 1) == value);
}

/// A raster of a single value has no residual, no noise, no edges and no
/// block-boundary differences.
pub proof fn law_flat_raster_is_quiet(v: GrayImageView, value: u8)
    requires
        raster_wf(v),
        forall|i: int| 0 <= i < v.pixels.len() ==> #[trigger] v.pixels[i] == value,
    ensures
        forall|k: int| 0 <= k < interior_count(v) ==> #[trigger] residual_at(v, k) == 0,
        sum_to(noise_term(v), interior_count(v) as int) == 0,
        sum_to(edge_term(v), interior_count(v) as int) == 0,
        sum_to(boundary_delta_term(v), interior_count(v) as int) == 0,
        sum_to(inner_delta_term(v), interior_count(v) as int) == 0,
{
    let n = interior_count(v) as int;
    assert forall|k: int| 0 <= k < n implies #[trigger] residual_at(v, k) == 0 by {
        lemma_flat_cell(v, value, k);
    }
    assert forall|k: int| 0 <= k < n implies #[trigger] noise_term(v)(k) == 0 by {
        lemma_flat_cell(v, value, k);
    }
    assert forall|k: int| 0 <= k < n implies #[trigger] edge_term(v)(k) == 0 by {
        lemma_flat_cell(v, value, k);
    }
    assert forall|k: int| 0 <= k < n implies #[trigger] boundary_delta_term(v)(k) == 0 by {
        lemma_flat_cell(v, value, k);
    }
    assert forall|k: int| 0 <= k < n implies #[trigger] inner_delta_term(v)(k) == 0 by {
        lemma_flat_cell(v, value, k);
    }
    lemma_sum_of_zeros(noise_term(v), n);
    lemma_sum_of_zeros(edge_term(v), n);
    lemma_sum_of_zeros(boundary_delta_term(v), n);
    lemma_sum_of_zeros(inner_delta_term(v), n);
}

proof fn lemma_sum_bounds_nonnegative_term(f: spec_fn(int) -> int, n: int, k: int)
    requires
        forall|j: int| 0 <= j < n ==> #[trigger] f(j) >= 0,
        0 <= k < n,
    ensures
        sum_to(f, n) >= f(k),
    decreases n,
{
    if k < n - 1 {
        lemma_sum_bounds_nonnegative_term(f, n - 1, k);
    } else {
        lemma_sum_nonnegative(f, n - 1);
    }
}

proof fn lemma_sum_nonnegative(f: spec_fn(int) -> int, n: int)
    requires
        forall|j: int| 0 <= j < n ==> #[trigger] f(j) >= 0,
    ensures
        sum_to(f, n) >= 0,
    decreases n,
{
    if n > 0 {
        lemma_sum_nonnegative(f, n - 1);
    }
}

proof fn lemma_sum_pointwise_equal(f: spec_fn(int) -> int, g: spec_fn(int) -> int, n: int)
    requires
        forall|j: int| 0 <= j < n ==> #[trigger] f(j) == g(j),
    ensures
        sum_to(f, n) == sum_to(g, n),
    decreases n,
{
    if n > 0 {
        lemma_sum_pointwise_equal(f, g, n - 1);
    }
}

/// Every interior sample adds the size of its residual to the noise sum,
/// whichever its sign: the sum is at least `|r|` for every residual `r` of
/// the map.
pub proof fn law_noise_sum_bounds_every_residual(v: GrayImageView, s: PixelStats)
    requires
        pixel_stats_match(v, s),
    ensures
        forall|k: int|
            0 <= k < s.residual@.len() ==> s.noise_sum >= #[trigger] s.residual@[k] && s.noise_sum >= -s.residual@[k],
{
    let n = interior_count(v) as int;
    assert forall|k: int| 0 <= k < s.residual@.len() implies s.noise_sum >= #[trigger] s.residual@[k]
        && s.noise_sum >= -s.residual@[k] by {
        assert(forall|j: int| 0 <= j < n ==> #[trigger] noise_term(v)(j) >= 0);
        lemma_sum_bounds_nonnegative_term(noise_term(v), n, k);
        assert(noise_term(v)(k) == abs(residual_at(v, k)));
    }
}

/// The noise sum depends on the size of the residuals, not on their sign:
/// two scans whose residual maps are each other's negation (a dark spike in
/// place of a bright one of the same size) have the same noise sum.
pub proof fn law_noise_sum_ignores_residual_sign(v: GrayImageView, s: PixelStats, w: GrayImageView, t: PixelStats)
    requires
        pixel_stats_match(v, s),
        pixel_stats_match(w, t),
        s.residual@.len() == t.residual@.len(),
        forall|k: int| 0 <= k < s.residual@.len() ==> #[trigger] t.residual@[k] == -s.residual@[k],
    ensures
        s.noise_sum == t.noise_sum,
{
    let n = interior_count(v) as int;
    assert forall|k: int| 0 <= k < n implies #[trigger] noise_term(v)(k) == noise_term(w)(k) by {
        assert(t.residual@[k] == -s.residual@[k]);
    }
    lemma_sum_pointwise_equal(noise_term(v), noise_term(w), n);
}

proof fn lemma_counts_partition(v: GrayImageView, n: int)
    requires
        n >= 0,
    ensures
        sum_to(boundary_count_term(v), n) + sum_to(inner_count_term(v), n) == n,
    decreases n,
{
    if n > 0 {
        lemma_counts_partition(v, n - 1);
    }
}

/// Every interior sample is counted once, either on an 8×8 block boundary or
/// inside a block.
pub proof fn law_boundary_and_inner_counts_partition_the_interior(v: GrayImageView, s: PixelStats)
    requires
        pixel_stats_match(v, s),
    ensures
        s.boundary_count + s.inner_count == s.pixel_count,
{
    lemma_counts_partition(v, interior_count(v) as int);
}

/// The residual map holds, for interior sample `(x, y)`, four times the
/// sample minus its left, right, upper and lower neighbours, at position
/// `(y − 1)·(width − 2) + (x − 1)`.
pub proof fn law_residual_is_four_neighbour_difference(v: GrayImageView, s: PixelStats, x: int, y: int)
    requires
        pixel_stats_match(v, s),
        raster_wf(v),
        1 <= x,
        x + 1 < v.width,
        1 <= y,
        y + 1 < v.height,
    ensures
        s.residual@[(y - 1) * (v.width - 2) + (x - 1)] == 4 * v.pixels[y * v.width + x] - v.pixels[y * v.width + x - 1]
            - v.pixels[y * v.width + x + 1] - v.pixels[(y - 1) * v.width + x] - v.pixels[(y + 1) * v.width + x],
{
    let iw = crate::raster::interior_width(v) as int;
    let ih = crate::raster::interior_height(v) as int;
    let k = (y - 1) * iw + (x - 1);
    vstd::arithmetic::div_mod::lemma_fundamental_div_mod_converse(k, iw, y - 1, x - 1);
    assert(0 <= k < iw * ih) by (nonlinear_arith)
        requires
            k == (y - 1) * iw + (x - 1),
            1 <= x <= iw,
            1 <= y <= ih,
    ;
    assert(s.residual@[k] as int == residual_at(v, k));
}

proof fn lemma_interior_cell_in_raster(v: GrayImageView, k: int)
    requires
        raster_wf(v),
        0 <= k < interior_count(v),
    ensures
        v.width >= 3,
        v.height >= 3,
        1 <= crate::raster::cell_x(v, k) <= v.width - 2,
        1 <= crate::raster::cell_y(v, k) <= v.height - 2,
{
    let n = interior_count(v) as int;
    let iw = crate::raster::interior_width(v) as int;
    let ih = crate::raster::interior_height(v) as int;
    assert(iw > 0 && ih > 0) by (nonlinear_arith)
        requires
            n == iw * ih,
            0 <= k < n,
            iw >= 0,
            ih >= 0,
    ;
    vstd::arithmetic::div_mod::lemma_mod_pos_bound(k, iw);
    vstd::arithmetic::div_mod::lemma_div_pos_is_pos(k, iw);
    assert(k / iw < ih) by {
        vstd::arithmetic::div_mod::lemma_div_by_multiple_is_strongly_ordered(k, iw * ih, ih, iw);
        vstd::arithmetic::div_mod::lemma_div_by_multiple(ih, iw);
        assert(iw * ih == ih * iw) by (nonlinear_arith);
    }
}

proof fn lemma_shifted_cell(v: GrayImageView, w: GrayImageView, c: int, k: int)
    requires
        raster_wf(v),
        raster_wf(w),
        v.width == w.width,
        v.height == w.height,
        forall|i: int| 0 <= i < v.pixels.len() ==> #[trigger] w.pixels[i] == v.pixels[i] + c,
        0 <= k < interior_count(v),
    ensures
        residual_at(w, k) == residual_at(v, k),
        noise_term(w)(k) == noise_term(v)(k),
        edge_term(w)(k) == edge_term(v)(k),
        boundary_delta_term(w)(k) == boundary_delta_term(v)(k),
        inner_delta_term(w)(k) == inner_delta_term(v)(k),
{
    lemma_interior_cell_in_raster(v, k);
    let x = crate::raster::cell_x(v, k);
    let y = crate::raster::cell_y(v, k);
    let ww = v.width as int;
    let hh = v.height as int;
    assert(crate::raster::cell_x(w, k) == x && crate::raster::cell_y(w, k) == y);
    assert((y + 1) * ww == y * ww + ww && (y - 1) * ww == y * ww - ww) by (nonlinear_arith);
    assert(0 <= (y - 1) * ww + x && (y + 1) * ww + x < ww * hh) by (nonlinear_arith)
        requires
            1 <= x <= ww - 2,
            1 <= y <= hh - 2,
    ;
    assert(0 <= y * ww + x - 1 && y * ww + x + 1 < ww * hh) by (nonlinear_arith)
        requires
            1 <= x <= ww - 2,
            1 <= y <= hh - 2,
    ;
    assert(px(w, x, y) == px(v, x, y) + c);
    assert(px(w, x + 1, y) == px(v, x + 1, y) + c);
    assert(px(w, x - 1, y) == px(v, x - 1, y) + c);
    assert(px(w, x, y + 1) == px(v, x, y + 1) + c);
    assert(px(w, x, y - 1) == px(v, x, y - 1) + c);
}

/// Brightening or darkening every sample by the same amount changes nothing
/// in the scan: the residual map and the noise, edge and block-boundary sums
/// stay as they were.
pub proof fn law_uniform_brightness_shift_leaves_scan_unchanged(
    v: GrayImageView,
    s: PixelStats,
    w: GrayImageView,
    t: PixelStats,
    c: int,
)
    requires
        raster_wf(v),
        raster_wf(w),
        v.width == w.width,
        v.height == w.height,
        forall|i: int| 0 <= i < v.pixels.len() ==> #[trigger] w.pixels[i] == v.pixels[i] + c,
        pixel_stats_match(v, s),
        pixel_stats_match(w, t),
    ensures
        t.residual@ == s.residual@,
        t.noise_sum == s.noise_sum,
        t.edge_sum == s.edge_sum,
        t.boundary_sum == s.boundary_sum,
        t.inner_sum == s.inner_sum,
        t.boundary_count == s.boundary_count,
        t.inner_count == s.inner_count,
{
    let n = interior_count(v) as int;
    assert forall|k: int| 0 <= k < n implies #[trigger] noise_term(w)(k) == noise_term(v)(k) by {
        lemma_shifted_cell(v, w, c, k);
    }
    assert forall|k: int| 0 <= k < n implies #[trigger] edge_term(w)(k) == edge_term(v)(k) by {
        lemma_shifted_cell(v, w, c, k);
    }
    assert forall|k: int| 0 <= k < n implies #[trigger] boundary_delta_term(w)(k) == boundary_delta_term(v)(k) by {
        lemma_shifted_cell(v, w, c, k);
    }
    assert forall|k: int| 0 <= k < n implies #[trigger] inner_delta_term(w)(k) == inner_delta_term(v)(k) by {
        lemma_shifted_cell(v, w, c, k);
    }
    assert forall|k: int| 0 <= k < n implies #[trigger] boundary_count_term(w)(k) == boundary_count_term(v)(k) by {}
    assert forall|k: int| 0 <= k < n implies #[trigger] inner_count_term(w)(k) == inner_count_term(v)(k) by {}
    lemma_sum_pointwise_equal(noise_term(w), noise_term(v), n);
    lemma_sum_pointwise_equal(edge_term(w), edge_term(v), n);
    lemma_sum_pointwise_equal(boundary_delta_term(w), boundary_delta_term(v), n);
    lemma_sum_pointwise_equal(inner_delta_term(w), inner_delta_term(v), n);
    lemma_sum_pointwise_equal(boundary_count_term(w), boundary_count_term(v), n);
    lemma_sum_pointwise_equal(inner_count_term(w), inner_count_term(v), n);
    assert forall|k: int| 0 <= k < n implies #[trigger] t.residual@[k] == s.residual@[k] by {
        lemma_shifted_cell(v, w, c, k);
    }
    assert(t.residual@ =~= s.residual@);
}

/// The gradient at interior sample `(x, y)` is the central difference: the
/// sample to the right minus the one to the left, and the sample below minus
/// the one above.
pub proof fn law_gradient_is_central_difference(v: GrayImageView, x: int, y: int)
    requires
        raster_wf(v),
        1 <= x,
        x + 1 < v.width,
        1 <= y,
        y + 1 < v.height,
    ensures
        gradient_at(v, (y - 1) * (v.width - 2) + (x - 1)) == (
            v.pixels[y * v.width + x + 1] - v.pixels[y * v.width + x - 1],
            v.pixels[(y + 1) * v.width + x] - v.pixels[(y - 1) * v.width + x],
        ),
{
    let iw = crate::raster::interior_width(v) as int;
    let k = (y - 1) * iw + (x - 1);
    vstd::arithmetic::div_mod::lemma_fundamental_div_mod_converse(k, iw, y - 1, x - 1);
    assert(crate::raster::cell_x(v, k) == x);
    assert(crate::raster::cell_y(v, k) == y);
}

/// The gradient at an interior sample does not depend on that sample: two
/// rasters of the same size that differ only there have the same gradient
/// there.
pub proof fn law_gradient_ignores_centre_sample(v: GrayImageView, w: GrayImageView, k: int)
    requires
        raster_wf(v),
        raster_wf(w),
        v.width == w.width,
        v.height == w.height,
        0 <= k < interior_count(v),
        forall|i: int|
            0 <= i < v.pixels.len() && i != crate::raster::cell_y(v, k) * v.width + crate::raster::cell_x(v, k)
                ==> #[trigger] v.pixels[i] == w.pixels[i],
    ensures
        gradient_at(v, k) == gradient_at(w, k),
{
    lemma_interior_cell_in_raster(v, k);
    let x = crate::raster::cell_x(v, k);
    let y = crate::raster::cell_y(v, k);
    let ww = v.width as int;
    let hh = v.height as int;
    assert(crate::raster::cell_x(w, k) == x && crate::raster::cell_y(w, k) == y);
    assert((y + 1) * ww == y * ww + ww && (y - 1) * ww == y * ww - ww) by (nonlinear_arith);
    assert(0 <= (y - 1) * ww + x && (y + 1) * ww + x < ww * hh) by (nonlinear_arith)
        requires
            1 <= x <= ww - 2,
            1 <= y <= hh - 2,
    ;
    assert(0 <= y * ww + x - 1 && y * ww + x + 1 < ww * hh) by (nonlinear_arith)
        requires
            1 <= x <= ww - 2,
            1 <= y <= hh - 2,
    ;
    assert(v.pixels[y * ww + (x + 1)] == w.pixels[y * ww + (x + 1)]);
    assert(v.pixels[y * ww + (x - 1)] == w.pixels[y * ww + (x - 1)]);
    assert(v.pixels[(y + 1) * ww + x] == w.pixels[(y + 1) * ww + x]);
    assert(v.pixels[(y - 1) * ww + x] == w.pixels[(y - 1) * ww + x]);
}

proof fn lemma_row_sum_congruent(g1: spec_fn(int, int) -> int, g2: spec_fn(int, int) -> int, x0: int, y: int, n: int)
    requires
        forall|x: int| x0 <= x < x0 + n ==> #[trigger] g1(x, y) == g2(x, y),
    ensures
        row_sum(g1, x0, y, n) == row_sum(g2, x0, y, n),
    decreases n,
{
    if n > 0 {
        lemma_row_sum_congruent(g1, g2, x0, y, n - 1);
        assert(g1(x0 + n - 1, y) == g2(x0 + n - 1, y));
    }
}

proof fn lemma_rect_sum_congruent(
    g1: spec_fn(int, int) -> int,
    g2: spec_fn(int, int) -> int,
    x0: int,
    y0: int,
    cols: int,
    rows: int,
)
    requires
        forall|x: int, y: int| x0 <= x < x0 + cols && y0 <= y < y0 + rows ==> #[trigger] g1(x, y) == g2(x, y),
    ensures
        rect_sum(g1, x0, y0, cols, rows) == rect_sum(g2, x0, y0, cols, rows),
    decreases rows,
{
    if rows > 0 {
        lemma_rect_sum_congruent(g1, g2, x0, y0, cols, rows - 1);
        let y = y0 + rows - 1;
        assert forall|x: int| x0 <= x < x0 + cols implies #[trigger] g1(x, y) == g2(x, y) by {}
        lemma_row_sum_congruent(g1, g2, x0, y, cols);
    }
}

proof fn lemma_row_sum_constant(g: spec_fn(int, int) -> int, x0: int, y: int, n: int, c: int)
    requires
        n >= 0,
        forall|x: int| x0 <= x < x0 + n ==> #[trigger] g(x, y) == c,
    ensures
        row_sum(g, x0, y, n) == n * c,
    decreases n,
{
    if n > 0 {
        lemma_row_sum_constant(g, x0, y, n - 1, c);
        assert(g(x0 + n - 1, y) == c);
        assert((n - 1) * c + c == n * c) by (nonlinear_arith);
    }
}

proof fn lemma_rect_sum_constant(g: spec_fn(int, int) -> int, x0: int, y0: int, cols: int, rows: int, c: int)
    requires
        cols >= 0,
        rows >= 0,
        forall|x: int, y: int| x0 <= x < x0 + cols && y0 <= y < y0 + rows ==> #[trigger] g(x, y) == c,
    ensures
        rect_sum(g, x0, y0, cols, rows) == rows * cols * c,
    decreases rows,
{
    if rows > 0 {
        lemma_rect_sum_constant(g, x0, y0, cols, rows - 1, c);
        let y = y0 + rows - 1;
        assert forall|x: int| x0 <= x < x0 + cols implies #[trigger] g(x, y) == c by {}
        lemma_row_sum_constant(g, x0, y, cols, c);
        assert((rows - 1) * cols * c + cols * c == rows * cols * c) by (nonlinear_arith);
    } else {
        assert(rows * cols * c == 0) by (nonlinear_arith)
            requires
                rows == 0,
        ;
    }
}

/// The moments of a block depend only on the samples inside that block: two
/// rasters of the same width that agree on the `block × block` square at
/// block column `bi`, block row `bj` give it the same sum and sum of squares.
pub proof fn law_block_moment_reads_only_its_block(v: GrayImageView, w: GrayImageView, block: int, bi: int, bj: int)
    requires
        v.width == w.width,
        forall|x: int, y: int|
            bi * block <= x < bi * block + block && bj * block <= y < bj * block + block ==> #[trigger] v.pixels[y
                * v.width + x] == w.pixels[y * w.width + x],
    ensures
        block_moment(v, block, bi, bj) == block_moment(w, block, bi, bj),
{
    let (x0, y0) = (bi * block, bj * block);
    assert forall|x: int, y: int| x0 <= x < x0 + block && y0 <= y < y0 + block implies #[trigger] sample_fn(v)(x, y)
        == sample_fn(w)(x, y) by {
        assert(v.pixels[y * v.width + x] == w.pixels[y * w.width + x]);
    }
    assert forall|x: int, y: int| x0 <= x < x0 + block && y0 <= y < y0 + block implies #[trigger] sample_sq_fn(v)(x, y)
        == sample_sq_fn(w)(x, y) by {
        assert(v.pixels[y * v.width + x] == w.pixels[y * w.width + x]);
    }
    lemma_rect_sum_congruent(sample_fn(v), sample_fn(w), x0, y0, block, block);
    lemma_rect_sum_congruent(sample_sq_fn(v), sample_sq_fn(w), x0, y0, block, block);
}

/// A block whose samples all equal `c` has sum `c·block²` and sum of squares
/// `c²·block²`.
pub proof fn law_uniform_block_moments(v: GrayImageView, block: int, bi: int, bj: int, c: u8)
    requires
        block >= 0,
        forall|x: int, y: int|
            bi * block <= x < bi * block + block && bj * block <= y < bj * block + block ==> #[trigger] v.pixels[y
                * v.width + x] == c,
    ensures
        block_moment(v, block, bi, bj) == (block * block * c, block * block * (c * c)),
{
    let (x0, y0) = (bi * block, bj * block);
    assert forall|x: int, y: int| x0 <= x < x0 + block && y0 <= y < y0 + block implies #[trigger] sample_fn(v)(x, y)
        == c as int by {
        assert(v.pixels[y * v.width + x] == c);
    }
    assert forall|x: int, y: int| x0 <= x < x0 + block && y0 <= y < y0 + block implies #[trigger] sample_sq_fn(v)(x, y)
        == c * c by {
        assert(v.pixels[y * v.width + x] == c);
    }
    lemma_rect_sum_constant(sample_fn(v), x0, y0, block, block, c as int);
    lemma_rect_sum_constant(sample_sq_fn(v), x0, y0, block, block, c * c);
}

/// Two blocks of the block grid that touch: the second is the right or the
/// lower neighbour of the first.
pub open spec fn neighbouring_blocks(q: BlockPair, block: int) -> bool {
    &&& (q.x0 as int) % block == 0
    &&& (q.y0 as int) % block == 0
    &&& (q.x1 == q.x0 + block && q.y1 == q.y0) || (q.x1 == q.x0 && q.y1 == q.y0 + block)
}

proof fn lemma_block_pairs_neighbour(bxs: int, bys: int, block: int, j: int, w: int, h: int)
    requires
        block > 0,
        bxs >= 1,
        bys >= 1,
        bxs * block <= w <= usize::MAX,
        bys * block <= h <= usize::MAX,
        0 <= j <= bxs * bys,
    ensures
        forall|i: int|
            0 <= i < pairs_upto(bxs, bys, block, j).len() ==> neighbouring_blocks(
                #[trigger] pairs_upto(bxs, bys, block, j)[i],
                block,
            ) && pair_in_bounds(pairs_upto(bxs, bys, block, j)[i], w, h, block),
    decreases j,
{
    if j > 0 {
        lemma_block_pairs_neighbour(bxs, bys, block, j - 1, w, h);
        let prev = pairs_upto(bxs, bys, block, j - 1);
        let bx = (j - 1) % bxs;
        let by = (j - 1) / bxs;
        vstd::arithmetic::div_mod::lemma_fundamental_div_mod(j - 1, bxs);
        vstd::arithmetic::div_mod::lemma_mod_pos_bound(j - 1, bxs);
        vstd::arithmetic::div_mod::lemma_div_pos_is_pos(j - 1, bxs);
        assert(by < bys) by (nonlinear_arith)
            requires
                j - 1 == bxs * by + bx,
                0 <= bx < bxs,
                j - 1 < bxs * bys,
        ;
        let own = pairs_of_block(bx, by, bxs, bys, block);
        assert(pairs_upto(bxs, bys, block, j) == prev + own);
        vstd::arithmetic::div_mod::lemma_mod_multiples_basic(bx, block);
        vstd::arithmetic::div_mod::lemma_mod_multiples_basic(by, block);
        assert((bx + 1) * block == bx * block + block && (by + 1) * block == by * block + block) by (nonlinear_arith);
        assert(0 <= bx * block && 0 <= by * block) by (nonlinear_arith)
            requires
                bx >= 0,
                by >= 0,
                block > 0,
        ;
        assert(bx * block + block <= w && by * block + block <= h) by (nonlinear_arith)
            requires
                bx + 1 <= bxs,
                by + 1 <= bys,
                bxs * block <= w,
                bys * block <= h,
                block > 0,
        ;
        assert(bx + 1 < bxs ==> (bx + 1) * block + block <= w) by (nonlinear_arith)
            requires
                bxs * block <= w,
                block > 0,
        ;
        assert(by + 1 < bys ==> (by + 1) * block + block <= h) by (nonlinear_arith)
            requires
                bys * block <= h,
                block > 0,
        ;
        let all = prev + own;
        assert forall|i: int| 0 <= i < all.len() implies neighbouring_blocks(#[trigger] all[i], block) && pair_in_bounds(
            all[i],
            w,
            h,
            block,
        ) by {
            if i < prev.len() {
                assert(all[i] == prev[i]);
            } else {
                assert(all[i] == own[i - prev.len()]);
            }
        }
    }
}

/// Every block pair the physical layer correlates joins a block of the
/// 24-cell grid to its right or lower neighbour, both inside the map.
pub proof fn law_block_pairs_join_neighbours(width: int, height: int)
    requires
        0 <= width <= usize::MAX,
        0 <= height <= usize::MAX,
    ensures
        forall|i: int|
            0 <= i < prnu_pairs(width, height).len() ==> neighbouring_blocks(
                #[trigger] prnu_pairs(width, height)[i],
                PRNU_BLOCK_SIZE as int,
            ) && pair_in_bounds(prnu_pairs(width, height)[i], width, height, PRNU_BLOCK_SIZE as int),
{
    let block = PRNU_BLOCK_SIZE as int;
    if width >= 2 * block && height >= 2 * block {
        let bxs = width / block;
        let bys = height / block;
        vstd::arithmetic::div_mod::lemma_fundamental_div_mod(width, block);
        vstd::arithmetic::div_mod::lemma_fundamental_div_mod(height, block);
        vstd::arithmetic::div_mod::lemma_mod_pos_bound(width, block);
        vstd::arithmetic::div_mod::lemma_mod_pos_bound(height, block);
        assert(bxs * block <= width && bys * block <= height && bxs >= 1 && bys >= 1) by (nonlinear_arith)
            requires
                width == block * bxs + width % block,
                height == block * bys + height % block,
                0 <= width % block < block,
                0 <= height % block < block,
                width >= 2 * block,
                height >= 2 * block,
                block == 24,
        ;
        assert(bxs * bys >= 0) by (nonlinear_arith)
            requires
                bxs >= 1,
                bys >= 1,
        ;
        lemma_block_pairs_neighbour(bxs, bys, block, bxs * bys, width, height);
    }
}

/// The hybrid layer's tile side always lies within the configured range, and
/// a larger residual map never gets a smaller tile.
pub proof fn law_hybrid_tile_side_bounded_and_monotone(m1: int, m2: int)
    requires
        0 <= m1 <= m2,
    ensures
        HYBRID_TILE_MIN as int <= hybrid_tile_side(m1) <= HYBRID_TILE_MAX as int,
        hybrid_tile_side(m1) <= hybrid_tile_side(m2),
{
    vstd::arithmetic::div_mod::lemma_div_is_ordered(m1, m2, 8);
}

// ─── Stress-test bookkeeping ────────────────────────────────────────────────

/// An indeterminate verdict never counts as a match, nor as any predicted
/// class; it only counts towards the total.
pub proof fn law_indeterminate_counts_only_in_total(s: GroupStats, expected: ExpectedClass)
    ensures
        !is_match(expected, VerificationClass::Indeterminate),
        recorded(s, expected, VerificationClass::Indeterminate) == (GroupStats { total: (s.total + 1) as u32, ..s }),
{
}

/// The verdict that a sample of a class should receive.
pub open spec fn verdict_of(c: ExpectedClass) -> VerificationClass {
    match c {
        ExpectedClass::Authentic => VerificationClass::Authentic,
        ExpectedClass::Suspicious => VerificationClass::Suspicious,
        ExpectedClass::Synthetic => VerificationClass::Synthetic,
    }
}

/// A prediction counts as a match exactly when it is the expected class:
/// recording the expected verdict adds one match, any other verdict adds
/// none. Either way the total grows by one and the counter of the predicted
/// class, if any, grows by one.
pub proof fn law_match_exactly_when_predicted_as_expected(s: GroupStats, expected: ExpectedClass, predicted: VerificationClass)
    requires
        stats_wf(s),
        s.total < u32::MAX,
    ensures
        predicted == verdict_of(expected) ==> recorded(s, expected, predicted).matched == s.matched + 1,
        predicted != verdict_of(expected) ==> recorded(s, expected, predicted).matched == s.matched,
        recorded(s, expected, predicted).total == s.total + 1,
        recorded(s, expected, predicted).as_authentic == s.as_authentic + if predicted
            == VerificationClass::Authentic { 1int } else { 0int },
        recorded(s, expected, predicted).as_suspicious == s.as_suspicious + if predicted
            == VerificationClass::Suspicious { 1int } else { 0int },
        recorded(s, expected, predicted).as_synthetic == s.as_synthetic + if predicted
            == VerificationClass::Synthetic { 1int } else { 0int },
{
}

/// Each verification outcome is counted once: a verdict on a sample of some
/// class adds one to the overall total and to that class's total and leaves
/// the other classes and the decode failures alone; a decode failure adds
/// one to the decode failures only; any other error changes nothing.
pub proof fn law_each_outcome_counted_once(
    t: StressTally,
    expected: ExpectedClass,
    outcome: Result<VerificationClass, VerifyError>,
)
    requires
        tally_wf(t),
        t.overall.total < u32::MAX,
        t.decode_errors < u32::MAX,
    ensures
        outcome is Ok ==> {
            let after = tallied(t, expected, outcome);
            &&& after.overall.total == t.overall.total + 1
            &&& after.decode_errors == t.decode_errors
            &&& after.authentic.total == t.authentic.total + if expected == ExpectedClass::Authentic { 1int } else { 0int }
            &&& after.suspicious.total == t.suspicious.total + if expected == ExpectedClass::Suspicious { 1int } else { 0int }
            &&& after.synthetic.total == t.synthetic.total + if expected == ExpectedClass::Synthetic { 1int } else { 0int }
            &&& expected != ExpectedClass::Authentic ==> after.authentic == t.authentic
            &&& expected != ExpectedClass::Suspicious ==> after.suspicious == t.suspicious
            &&& expected != ExpectedClass::Synthetic ==> after.synthetic == t.synthetic
        },
        outcome == Err::<VerificationClass, VerifyError>(VerifyError::DecodeFailed) ==> {
            let after = tallied(t, expected, outcome);
            &&& after.decode_errors == t.decode_errors + 1
            &&& after.overall == t.overall
            &&& after.authentic == t.authentic
            &&& after.suspicious == t.suspicious
            &&& after.synthetic == t.synthetic
        },
        (outcome is Err && outcome != Err::<VerificationClass, VerifyError>(VerifyError::DecodeFailed)) ==> tallied(
            t,
            expected,
            outcome,
        ) == t,
{
    if let Err(e) = outcome {
        if e != VerifyError::DecodeFailed {
            assert(tallied(t, expected, outcome) == t);
        }
    }
}

/// The acceptance counts follow the verdicts: an authentic sample judged
/// suspicious or synthetic is one more false positive, and an edited or
/// synthetic sample judged authentic is one more miss of its class.
pub proof fn law_acceptance_counts_follow_verdicts(t: StressTally, predicted: VerificationClass)
    requires
        tally_wf(t),
        t.overall.total < u32::MAX,
        t.decode_errors < u32::MAX,
    ensures
        acceptance_of(tallied(t, ExpectedClass::Authentic, Ok(predicted))).authentic_false_positives
            == acceptance_of(t).authentic_false_positives + if predicted == VerificationClass::Suspicious || predicted
            == VerificationClass::Synthetic { 1int } else { 0int },
        acceptance_of(tallied(t, ExpectedClass::Suspicious, Ok(predicted))).edited_misses == acceptance_of(
            t,
        ).edited_misses + if predicted == VerificationClass::Authentic { 1int } else { 0int },
        acceptance_of(tallied(t, ExpectedClass::Synthetic, Ok(predicted))).synthetic_misses == acceptance_of(
            t,
        ).synthetic_misses + if predicted == VerificationClass::Authentic { 1int } else { 0int },
{
}

/// A class is reported as undersampled exactly when it holds fewer samples
/// than the minimum; the report lists authentic, edited, synthetic in that
/// order, each at most once.
pub proof fn law_undersampled_classes_are_those_below_minimum(c: AcceptanceCounts, min: u32)
    ensures
        undersampled(c, min).contains(ExpectedClass::Authentic) == (c.authentic_total < min),
        undersampled(c, min).contains(ExpectedClass::Suspicious) == (c.edited_total < min),
        undersampled(c, min).contains(ExpectedClass::Synthetic) == (c.synthetic_total < min),
        undersampled(c, min).no_duplicates(),
        undersampled(c, min).len() == (if c.authentic_total < min { 1int } else { 0int }) + (if c.edited_total
            < min { 1int } else { 0int }) + (if c.synthetic_total < min { 1int } else { 0int }),
{
    let s1 = if c.authentic_total < min { seq![ExpectedClass::Authentic] } else { Seq::<ExpectedClass>::empty() };
    let s2 = if c.edited_total < min { s1.push(ExpectedClass::Suspicious) } else { s1 };
    let s = undersampled(c, min);
    assert(s == if c.synthetic_total < min { s2.push(ExpectedClass::Synthetic) } else { s2 });
    assert(!s1.contains(ExpectedClass::Suspicious) && !s1.contains(ExpectedClass::Synthetic));
    assert(!s2.contains(ExpectedClass::Synthetic)) by {
        if s2.contains(ExpectedClass::Synthetic) {
            let i = choose|i: int| 0 <= i < s2.len() && s2[i] == ExpectedClass::Synthetic;
            if c.edited_total < min && i < s1.len() {
                assert(s1[i] == ExpectedClass::Synthetic);
            }
        }
    }
    if c.authentic_total < min {
        assert(s[0] == ExpectedClass::Authentic);
    } else if s.contains(ExpectedClass::Authentic) {
        let i = choose|i: int| 0 <= i < s.len() && s[i] == ExpectedClass::Authentic;
        if c.edited_total < min && i < s1.len() {
            assert(s1[i] == ExpectedClass::Authentic);
        }
    }
    if c.edited_total < min {
        assert(s[s1.len() as int] == ExpectedClass::Suspicious);
    } else if s.contains(ExpectedClass::Suspicious) {
        let i = choose|i: int| 0 <= i < s.len() && s[i] == ExpectedClass::Suspicious;
        assert(s2[i] == ExpectedClass::Suspicious);
    }
    if c.synthetic_total < min {
        assert(s[s2.len() as int] == ExpectedClass::Synthetic);
    }
    assert(s1.no_duplicates());
    assert(s2.no_duplicates());
}

proof fn lemma_positional_from(args: Seq<Seq<char>>, i: int, skip_next: bool)
    requires
        0 <= i <= args.len(),
    ensures
        forall|j: int|
            0 <= j < positional_from(args, i, skip_next).len() ==> #[trigger] positional_from(args, i, skip_next)[j]
                != "--config"@,
        !skip_next && (forall|j: int| i <= j < args.len() ==> #[trigger] args[j] != "--config"@) ==> positional_from(
            args,
            i,
            skip_next,
        ) == args.subrange(i, args.len() as int),
    decreases args.len() - i,
{
    if i < args.len() {
        lemma_positional_from(args, i + 1, false);
        lemma_positional_from(args, i + 1, true);
        if skip_next {
            assert(positional_from(args, i, skip_next) == positional_from(args, i + 1, false));
        } else if args[i] == "--config"@ {
            assert(positional_from(args, i, skip_next) == positional_from(args, i + 1, true));
        } else {
            let rest = positional_from(args, i + 1, false);
            let all = seq![args[i]] + rest;
            assert forall|j: int| 0 <= j < all.len() implies #[trigger] all[j] != "--config"@ by {
                if j > 0 {
                    assert(all[j] == rest[j - 1]);
                }
            }
            if forall|j: int| i <= j < args.len() ==> #[trigger] args[j] != "--config"@ {
                assert(rest == args.subrange(i + 1, args.len() as int));
                assert(all =~= args.subrange(i, args.len() as int));
            }
        }
    } else {
        assert(args.subrange(i, args.len() as int) =~= Seq::<Seq<char>>::empty());
    }
}

/// The positional arguments never include the `--config` flag itself, and a
/// command line without that flag keeps every argument after the program
/// name, in order.
pub proof fn law_positional_args_drop_config_flags(args: Seq<Seq<char>>)
    requires
        args.len() >= 1,
    ensures
        forall|j: int| 0 <= j < positional_args(args).len() ==> #[trigger] positional_args(args)[j] != "--config"@,
        (forall|j: int| 0 <= j < args.len() ==> #[trigger] args[j] != "--config"@) ==> positional_args(args)
            == args.drop_first(),
{
    lemma_positional_from(args, 1, false);
    assert(args.subrange(1, args.len() as int) =~= args.drop_first());
}

proof fn lemma_first_config_flag(args: Seq<Seq<char>>, i: int)
    requires
        0 <= i,
    ensures
        first_config_flag(args, i) matches Some(k) ==> i <= k < args.len() && args[k] == "--config"@ && forall|j: int|
            i <= j < k ==> #[trigger] args[j] != "--config"@,
        first_config_flag(args, i) is None ==> forall|j: int| i <= j < args.len() ==> #[trigger] args[j] != "--config"@,
    decreases args.len() - i,
{
    if i < args.len() && args[i] != "--config"@ {
        lemma_first_config_flag(args, i + 1);
    }
}

/// The calibration file is named by the argument right after the first
/// `--config`: that flag is at the reported index and no earlier argument is
/// the flag; when no flag is found, none is on the command line.
pub proof fn law_config_flag_is_the_first_one(args: Seq<Seq<char>>)
    ensures
        first_config_flag(args, 0) matches Some(k) ==> 0 <= k < args.len() && args[k] == "--config"@ && forall|j: int|
            0 <= j < k ==> #[trigger] args[j] != "--config"@,
        first_config_flag(args, 0) is None ==> !args.contains("--config"@),
{
    lemma_first_config_flag(args, 0);
    if first_config_flag(args, 0) is None && args.contains("--config"@) {
        let j = choose|j: int| 0 <= j < args.len() && args[j] == "--config"@;
        assert(args[j] != "--config"@);
    }
}

// ─── Dataset folders ────────────────────────────────────────────────────────

pub open spec fn is_supported(p: Seq<char>) -> bool {
    supported_image(p)
}

/// A dataset folder contributes exactly its regular files with a supported
/// extension, in listing order; symbolic links never contribute.
pub proof fn law_collected_images_are_supported_files(n: FsNode)
    ensures
        images_in(n) == files_in(n).filter(|p: Seq<char>| is_supported(p)),
    decreases n, 0int,
{
    let pred = |p: Seq<char>| is_supported(p);
    reveal_with_fuel(Seq::filter, 2);
    match n {
        FsNode::File(p) => {
            assert(seq![p@].drop_last() =~= Seq::<Seq<char>>::empty());
        },
        FsNode::Symlink(_) => {},
        FsNode::Dir(children) => {
            lemma_entries_are_supported_files(children@, children@.len() as int);
        },
    }
}

proof fn lemma_entries_are_supported_files(entries: Seq<FsNode>, k: int)
    ensures
        images_in_entries(entries, k) == files_in_entries(entries, k).filter(|p: Seq<char>| is_supported(p)),
    decreases entries, k,
{
    let pred = |p: Seq<char>| is_supported(p);
    if k <= 0 || k > entries.len() {
        reveal_with_fuel(Seq::filter, 1);
    } else {
        lemma_entries_are_supported_files(entries, k - 1);
        law_collected_images_are_supported_files(entries[k - 1]);
        Seq::filter_distributes_over_add(files_in_entries(entries, k - 1), files_in(entries[k - 1]), pred);
    }
}

proof fn lemma_last_index_is_last(s: Seq<char>, c: char)
    ensures
        last_index_of(s, c) matches Some(i) ==> 0 <= i < s.len() && s[i] == c && forall|j: int|
            i < j < s.len() ==> #[trigger] s[j] != c,
        last_index_of(s, c) is None ==> !s.contains(c),
    decreases s.len(),
{
    if s.len() > 0 && s.last() != c {
        let d = s.drop_last();
        lemma_last_index_is_last(d, c);
        assert forall|j: int| 0 <= j < d.len() implies #[trigger] s[j] == d[j] by {}
        if last_index_of(s, c) is None {
            if s.contains(c) {
                let j = choose|j: int| 0 <= j < s.len() && s[j] == c;
                assert(d[j] == c);
            }
        }
    }
}

/// A file name with an extension is its stem, a dot and its extension; the
/// extension holds no dot and the stem is not empty. A file name without an
/// extension is its own stem, and a path without a file name has neither.
pub proof fn law_stem_dot_extension_is_the_file_name(p: Seq<char>)
    ensures
        file_name(p) is None ==> file_stem(p) is None && extension(p) is None,
        file_name(p) is Some && extension(p) is None ==> file_stem(p) == file_name(p),
        file_name(p) is Some && extension(p) is Some ==> {
            &&& file_stem(p)->0 + seq!['.'] + extension(p)->0 == file_name(p)->0
            &&& !extension(p)->0.contains('.')
            &&& file_stem(p)->0.len() > 0
        },
{
    if let Some(n) = file_name(p) {
        lemma_last_index_is_last(n, '.');
        if let Some(i) = last_index_of(n, '.') {
            if i > 0 {
                let stem = n.subrange(0, i);
                let e = n.subrange(i + 1, n.len() as int);
                assert(stem + seq!['.'] + e =~= n);
                if e.contains('.') {
                    let j = choose|j: int| 0 <= j < e.len() && e[j] == '.';
                    assert(n[i + 1 + j] == '.');
                }
            }
        }
    }
}

// ─── Perturbation tags ──────────────────────────────────────────────────────

proof fn lemma_tags_distinct(stem: Seq<char>, n: int)
    ensures
        tags_upto(stem, n).no_duplicates(),
    decreases n,
{
    if n > 0 {
        lemma_tags_distinct(stem, n - 1);
        let prev = tags_upto(stem, n - 1);
        let label = tag_patterns()[n - 1].1;
        if !prev.contains(label) {
            assert(prev.push(label).no_duplicates()) by {
                assert forall|i: int, j: int| 0 <= i < prev.len() + 1 && 0 <= j < prev.len() + 1 && i != j implies
                    prev.push(label)[i] != prev.push(label)[j] by {
                    if i == prev.len() as int {
                        assert(prev[j] != label);
                    } else if j == prev.len() as int {
                        assert(prev[i] != label);
                    }
                }
            }
        }
        assert(tags_upto(stem, n) == tag_step(prev, stem, tag_patterns()[n - 1].0, label));
    }
}

/// A file is never given the same tag twice.
pub proof fn law_tags_distinct(path: Seq<char>)
    ensures
        perturbation_tags(path).no_duplicates(),
{
    if let Some(stem) = file_stem(path) {
        lemma_tags_distinct(crate::text::ascii_lower_seq(stem), tag_patterns().len() as int);
    }
}

/// A keyword occurs in a text exactly when the text is some prefix, the
/// keyword and some suffix, one after the other.
pub proof fn law_keyword_occurs_as_a_piece(hay: Seq<char>, needle: Seq<char>)
    ensures
        contains_run(hay, needle) <==> exists|a: Seq<char>, b: Seq<char>| #[trigger] (a + needle + b) == hay,
{
    if contains_run(hay, needle) {
        let i = choose|i: int|
            0 <= i && i + needle.len() <= hay.len() && #[trigger] hay.subrange(i, i + needle.len()) == needle;
        let a = hay.subrange(0, i);
        let b = hay.subrange(i + needle.len(), hay.len() as int);
        assert(a + needle + b =~= hay);
    }
    if exists|a: Seq<char>, b: Seq<char>| #[trigger] (a + needle + b) == hay {
        let (a, b) = choose|a: Seq<char>, b: Seq<char>| #[trigger] (a + needle + b) == hay;
        let i = a.len() as int;
        assert(hay.subrange(i, i + needle.len()) =~= needle);
    }
}

proof fn lemma_tags_grow(stem: Seq<char>, m: int, n: int, label: Seq<char>)
    requires
        m <= n,
        tags_upto(stem, m).contains(label),
    ensures
        tags_upto(stem, n).contains(label),
    decreases n - m,
{
    if m < n {
        lemma_tags_grow(stem, m, n - 1, label);
        let prev = tags_upto(stem, n - 1);
        let step = tags_upto(stem, n);
        assert(step == tag_step(prev, stem, tag_patterns()[n - 1].0, tag_patterns()[n - 1].1));
        if step != prev {
            let i = choose|i: int| 0 <= i < prev.len() && prev[i] == label;
            assert(step[i] == label);
        }
    }
}

proof fn lemma_keyword_gives_tag(stem: Seq<char>, i: int)
    requires
        0 <= i < tag_patterns().len(),
        contains_run(stem, tag_patterns()[i].0),
    ensures
        tags_upto(stem, tag_patterns().len() as int).contains(tag_patterns()[i].1),
{
    let prev = tags_upto(stem, i);
    let label = tag_patterns()[i].1;
    assert(tags_upto(stem, i + 1) == tag_step(prev, stem, tag_patterns()[i].0, label));
    if !prev.contains(label) {
        assert(prev.push(label)[prev.len() as int] == label);
    }
    lemma_tags_grow(stem, i + 1, tag_patterns().len() as int, label);
}

/// Each keyword of the table tags every file whose lowercased stem contains
/// it: `jpeg` and `jpg` give `jpeg`, `webp` gives `webp`, `resize` and
/// `resized` give `resized`, `crop` and `cropped` give `cropped`,
/// `recompress` and `recompressed` give `recompressed`, `night` and
/// `lowlight` give `lowlight`.
pub proof fn law_keywords_in_stem_give_their_tags(path: Seq<char>, stem: Seq<char>)
    requires
        file_stem(path) == Some(stem),
    ensures
        contains_run(ascii_lower_seq(stem), "jpeg"@) ==> perturbation_tags(path).contains("jpeg"@),
        contains_run(ascii_lower_seq(stem), "jpg"@) ==> perturbation_tags(path).contains("jpeg"@),
        contains_run(ascii_lower_seq(stem), "webp"@) ==> perturbation_tags(path).contains("webp"@),
        contains_run(ascii_lower_seq(stem), "resize"@) ==> perturbation_tags(path).contains("resized"@),
        contains_run(ascii_lower_seq(stem), "resized"@) ==> perturbation_tags(path).contains("resized"@),
        contains_run(ascii_lower_seq(stem), "crop"@) ==> perturbation_tags(path).contains("cropped"@),
        contains_run(ascii_lower_seq(stem), "cropped"@) ==> perturbation_tags(path).contains("cropped"@),
        contains_run(ascii_lower_seq(stem), "recompress"@) ==> perturbation_tags(path).contains("recompressed"@),
        contains_run(ascii_lower_seq(stem), "recompressed"@) ==> perturbation_tags(path).contains("recompressed"@),
        contains_run(ascii_lower_seq(stem), "night"@) ==> perturbation_tags(path).contains("lowlight"@),
        contains_run(ascii_lower_seq(stem), "lowlight"@) ==> perturbation_tags(path).contains("lowlight"@),
{
    let lower = ascii_lower_seq(stem);
    let table = tag_patterns();
    assert(table.len() == 11);
    assert(table[0] == ("jpeg"@, "jpeg"@));
    assert(table[1] == ("jpg"@, "jpeg"@));
    assert(table[2] == ("webp"@, "webp"@));
    assert(table[3] == ("resize"@, "resized"@));
    assert(table[4] == ("resized"@, "resized"@));
    assert(table[5] == ("crop"@, "cropped"@));
    assert(table[6] == ("cropped"@, "cropped"@));
    assert(table[7] == ("recompress"@, "recompressed"@));
    assert(table[8] == ("recompressed"@, "recompressed"@));
    assert(table[9] == ("night"@, "lowlight"@));
    assert(table[10] == ("lowlight"@, "lowlight"@));
    if contains_run(lower, table[0].0) {
        lemma_keyword_gives_tag(lower, 0);
    }
    if contains_run(lower, table[1].0) {
        lemma_keyword_gives_tag(lower, 1);
    }
    if contains_run(lower, table[2].0) {
        lemma_keyword_gives_tag(lower, 2);
    }
    if contains_run(lower, table[3].0) {
        lemma_keyword_gives_tag(lower, 3);
    }
    if contains_run(lower, table[4].0) {
        lemma_keyword_gives_tag(lower, 4);
    }
    if contains_run(lower, table[5].0) {
        lemma_keyword_gives_tag(lower, 5);
    }
    if contains_run(lower, table[6].0) {
        lemma_keyword_gives_tag(lower, 6);
    }
    if contains_run(lower, table[7].0) {
        lemma_keyword_gives_tag(lower, 7);
    }
    if contains_run(lower, table[8].0) {
        lemma_keyword_gives_tag(lower, 8);
    }
    if contains_run(lower, table[9].0) {
        lemma_keyword_gives_tag(lower, 9);
    }
    if contains_run(lower, table[10].0) {
        lemma_keyword_gives_tag(lower, 10);
    }
}

proof fn lemma_tags_have_their_keyword(stem: Seq<char>, n: int, t: Seq<char>)
    requires
        tags_upto(stem, n).contains(t),
    ensures
        exists|i: int| 0 <= i < n && #[trigger] tag_patterns()[i].1 == t && contains_run(stem, tag_patterns()[i].0),
    decreases n,
{
    if n > 0 {
        let prev = tags_upto(stem, n - 1);
        let label = tag_patterns()[n - 1].1;
        assert(tags_upto(stem, n) == tag_step(prev, stem, tag_patterns()[n - 1].0, label));
        if prev.contains(t) {
            lemma_tags_have_their_keyword(stem, n - 1, t);
        } else {
            let j = choose|j: int| 0 <= j < tags_upto(stem, n).len() && tags_upto(stem, n)[j] == t;
            assert(j == prev.len());
            assert(tag_patterns()[n - 1].1 == t);
        }
    }
}

/// A file carries a tag only when its lowercased stem contains one of that
/// tag's keywords, and carries no tag outside the table.
pub proof fn law_tags_come_from_keywords_in_stem(path: Seq<char>, t: Seq<char>)
    requires
        perturbation_tags(path).contains(t),
    ensures
        file_stem(path) is Some,
        t == "jpeg"@ || t == "webp"@ || t == "resized"@ || t == "cropped"@ || t == "recompressed"@ || t
            == "lowlight"@,
        t == "jpeg"@ ==> contains_run(ascii_lower_seq(file_stem(path)->0), "jpeg"@) || contains_run(
            ascii_lower_seq(file_stem(path)->0),
            "jpg"@,
        ),
        t == "webp"@ ==> contains_run(ascii_lower_seq(file_stem(path)->0), "webp"@),
        t == "resized"@ ==> contains_run(ascii_lower_seq(file_stem(path)->0), "resize"@) || contains_run(
            ascii_lower_seq(file_stem(path)->0),
            "resized"@,
        ),
        t == "cropped"@ ==> contains_run(ascii_lower_seq(file_stem(path)->0), "crop"@) || contains_run(
            ascii_lower_seq(file_stem(path)->0),
            "cropped"@,
        ),
        t == "recompressed"@ ==> contains_run(ascii_lower_seq(file_stem(path)->0), "recompress"@) || contains_run(
            ascii_lower_seq(file_stem(path)->0),
            "recompressed"@,
        ),
        t == "lowlight"@ ==> contains_run(ascii_lower_seq(file_stem(path)->0), "night"@) || contains_run(
            ascii_lower_seq(file_stem(path)->0),
            "lowlight"@,
        ),
{
    reveal_strlit("jpeg");
    reveal_strlit("webp");
    reveal_strlit("resized");
    reveal_strlit("cropped");
    reveal_strlit("recompressed");
    reveal_strlit("lowlight");
    let stem = file_stem(path)->0;
    let lower = ascii_lower_seq(stem);
    lemma_tags_have_their_keyword(lower, tag_patterns().len() as int, t);
    let i = choose|i: int|
        0 <= i < tag_patterns().len() && #[trigger] tag_patterns()[i].1 == t && contains_run(lower, tag_patterns()[i].0);
    let table = tag_patterns();
    assert(table[0] == ("jpeg"@, "jpeg"@));
    assert(table[1] == ("jpg"@, "jpeg"@));
    assert(table[2] == ("webp"@, "webp"@));
    assert(table[3] == ("resize"@, "resized"@));
    assert(table[4] == ("resized"@, "resized"@));
    assert(table[5] == ("crop"@, "cropped"@));
    assert(table[6] == ("cropped"@, "cropped"@));
    assert(table[7] == ("recompress"@, "recompressed"@));
    assert(table[8] == ("recompressed"@, "recompressed"@));
    assert(table[9] == ("night"@, "lowlight"@));
    assert(table[10] == ("lowlight"@, "lowlight"@));
    assert("jpeg"@[0] == 'j' && "webp"@[0] == 'w' && "resized"@[0] == 'r' && "cropped"@[0] == 'c'
        && "recompressed"@[0] == 'r' && "lowlight"@[0] == 'l');
    assert("resized"@.len() != "recompressed"@.len());
    if i == 0 || i == 1 {
        assert(t == "jpeg"@);
    } else if i == 2 {
        assert(t == "webp"@);
    } else if i == 3 || i == 4 {
        assert(t == "resized"@);
    } else if i == 5 || i == 6 {
        assert(t == "cropped"@);
    } else if i == 7 || i == 8 {
        assert(t == "recompressed"@);
    } else {
        assert(t == "lowlight"@);
    }
}

/// Tags depend on the file stem alone: paths that differ only in their
/// directories or extension carry the same tags.
pub proof fn law_tags_depend_on_stem_only(p: Seq<char>, q: Seq<char>)
    requires
        file_stem(p) == file_stem(q),
    ensures
        perturbation_tags(p) == perturbation_tags(q),
{
}

} // verus!
