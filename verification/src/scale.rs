//! Size and spacing scaling for the word-processor renderer.
//!
//! All sizes are integers: font sizes in half-points, spacing and
//! indentation in twips. A heading's size is the body size times a
//! depth-specific percentage, rounded to the nearest integer and clamped.
//! Spacing values are baseline constants captured at an 11pt body
//! (22 half-points) and rescaled linearly by the configured body size.

use vstd::prelude::*;

verus! {

/// Percentage multiplier applied to the body size for a heading of the
/// given depth. Non-increasing in the depth; 100 (equal to the body)
/// from depth 6 on.
pub open spec fn heading_multiplier(depth: int) -> int {
    if depth == 1 {
        160
    } else if depth == 2 {
        145
    } else if depth == 3 {
        130
    } else if depth == 4 {
        115
    } else if depth == 5 {
        105
    } else {
        100
    }
}

/// Heading font size in half-points: body size times the depth multiplier,
/// rounded to the nearest integer (halves up) and clamped to [2, 400].
pub open spec fn spec_heading_font_size(body: int, depth: int) -> int {
    let raw = (body * heading_multiplier(depth) + 50) / 100;
    if raw < 2 {
        2
    } else if raw > 400 {
        400
    } else {
        raw
    }
}

/// A spacing baseline rescaled by the ratio of the configured body size to
/// the 22-half-point (11pt) reference: round(base * body / 22), floored at
/// 20 so spacing never collapses, and saturated at the field's maximum.
pub open spec fn spec_scaled_spacing(base: int, body: int) -> int {
    let rounded = (base * body + 11) / 22;
    let floored = if rounded < 20 {
        20
    } else {
        rounded
    };
    if floored > u32::MAX {
        u32::MAX as int
    } else {
        floored
    }
}

/// Baseline spacing (before, after) for a heading of the given depth,
/// captured at the 11pt reference body size.
pub open spec fn heading_spacing_base(depth: int) -> (int, int) {
    if depth == 1 {
        (360, 180)
    } else if depth == 2 {
        (320, 160)
    } else if depth == 3 {
        (300, 140)
    } else {
        (240, 120)
    }
}

/// Spacing (before, after) of a heading paragraph: the depth's baseline
/// rescaled to the configured body size.
pub open spec fn spec_heading_spacing(body: int, depth: int) -> (int, int) {
    let base = heading_spacing_base(depth);
    (spec_scaled_spacing(base.0, body), spec_scaled_spacing(base.1, body))
}

/// Spacing (before, after) of an ordinary body paragraph: a zero baseline
/// stays zero; the nonzero baseline of 160 twips is rescaled.
pub open spec fn spec_body_spacing(body: int) -> (int, int) {
    (0, spec_scaled_spacing(160, body))
}

/// Left indentation in twips of a list at the given nesting depth:
/// half an inch plus a quarter inch per level, saturated at i32::MAX.
pub open spec fn spec_list_indent(depth: int) -> int {
    if 720 + depth * 360 > i32::MAX {
        i32::MAX as int
    } else {
        720 + depth * 360
    }
}

/// The nesting depth one level further down, saturated at the machine
/// limit. Indentation saturates far earlier, so the cap is unobservable.
pub open spec fn spec_depth_inc(depth: int) -> int {
    if depth < usize::MAX {
        depth + 1
    } else {
        depth
    }
}

/// One nesting level deeper.
pub fn depth_inc(depth: usize) -> (r: usize)
    ensures
        r as int == spec_depth_inc(depth as int),
{
    if depth < usize::MAX {
        depth + 1
    } else {
        depth
    }
}

/// Heading sizes never increase with depth.
///
/// For every body size and every depth 1 through 6, the heading size at
/// that depth is at least the heading size one level deeper.
pub proof fn lemma_heading_size_monotone(body: int, depth: int)
    requires
        0 <= body,
        1 <= depth <= 6,
    ensures
        spec_heading_font_size(body, depth) >= spec_heading_font_size(body, depth + 1),
{
    let m1 = heading_multiplier(depth);
    let m2 = heading_multiplier(depth + 1);
    assert(m2 <= m1);
    vstd::arithmetic::mul::lemma_mul_inequality(m2, m1, body);
    vstd::arithmetic::div_mod::lemma_div_is_ordered(body * m2 + 50, body * m1 + 50, 100);
}

/// A heading at depth 6 is set at exactly the configured body size,
/// whenever that size lies inside the clamping bounds.
pub proof fn lemma_heading_size_depth_six(body: int)
    requires
        2 <= body <= 400,
    ensures
        spec_heading_font_size(body, 6) == body,
{
    assert((body * 100 + 50) / 100 == body) by (nonlinear_arith)
        requires 2 <= body <= 400;
}

/// Rescaled spacing is monotone in the body size.
pub proof fn lemma_spacing_monotone(base: int, body1: int, body2: int)
    requires
        0 <= base,
        0 <= body1 <= body2,
    ensures
        spec_scaled_spacing(base, body1) <= spec_scaled_spacing(base, body2),
{
    vstd::arithmetic::mul::lemma_mul_inequality(body1, body2, base);
    vstd::arithmetic::mul::lemma_mul_is_commutative(base, body1);
    vstd::arithmetic::mul::lemma_mul_is_commutative(base, body2);
    vstd::arithmetic::div_mod::lemma_div_is_ordered(base * body1 + 11, base * body2 + 11, 22);
}

/// Doubling the configured body size does not decrease heading spacing,
/// and both components stay at or above the 20-twip floor.
pub proof fn lemma_heading_spacing_doubling(body: int, depth: int)
    requires
        0 <= body,
    ensures
        spec_heading_spacing(2 * body, depth).0 >= spec_heading_spacing(body, depth).0,
        spec_heading_spacing(2 * body, depth).1 >= spec_heading_spacing(body, depth).1,
        spec_heading_spacing(body, depth).0 >= 20,
        spec_heading_spacing(body, depth).1 >= 20,
{
    let base = heading_spacing_base(depth);
    lemma_spacing_monotone(base.0, body, 2 * body);
    lemma_spacing_monotone(base.1, body, 2 * body);
}

/// Doubling the configured body size does not decrease body-paragraph
/// spacing; the space before stays zero and the space after stays at or
/// above the 20-twip floor.
pub proof fn lemma_body_spacing_doubling(body: int)
    requires
        0 <= body,
    ensures
        spec_body_spacing(2 * body).1 >= spec_body_spacing(body).1,
        spec_body_spacing(body).0 == 0,
        spec_body_spacing(body).1 >= 20,
{
    lemma_spacing_monotone(160, body, 2 * body);
}

/// A nested list is indented strictly further left-to-right than its
/// parent, as long as the parent's indent has not saturated at the
/// field's machine limit.
pub proof fn lemma_list_indent_increases(depth: int)
    requires
        0 <= depth,
        720 + (depth + 1) * 360 <= i32::MAX,
    ensures
        spec_list_indent(depth + 1) > spec_list_indent(depth),
{
}

/// List indentation never shrinks with depth, saturation included.
pub proof fn lemma_list_indent_monotone(depth1: int, depth2: int)
    requires
        0 <= depth1 <= depth2,
    ensures
        spec_list_indent(depth1) <= spec_list_indent(depth2),
{
    vstd::arithmetic::mul::lemma_mul_inequality(depth1, depth2, 360);
    vstd::arithmetic::mul::lemma_mul_is_commutative(depth1, 360);
    vstd::arithmetic::mul::lemma_mul_is_commutative(depth2, 360);
}

} // verus!
