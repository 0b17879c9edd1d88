//! Where a pane stands in its content, and where its scrollbar shows it.

use vstd::prelude::*;
use crate::geometry::{floored_difference, greatest, least};

verus! {

/// The deepest offset of the pane: the content less the viewport, within `u32`.
pub open spec fn max_offset_of(content_h: int, viewport_h: int) -> int {
    least(floored_difference(content_h, viewport_h), u32::MAX as int)
}

/// `n`, held at the largest `u32`.
fn capped_u32(n: usize) -> (out: u32)
    ensures
        out == least(n as int, u32::MAX as int),
{
    if n as u64 > u32::MAX as u64 {
        u32::MAX
    } else {
        n as u32
    }
}

/// The deepest offset of the pane.
pub fn max_preview_offset(content_h: usize, viewport_h: u16) -> (offset: u32)
    ensures
        offset == max_offset_of(content_h as int, viewport_h as int),
{
    capped_u32(content_h.saturating_sub(viewport_h as usize))
}

/// The offset that the pane is drawn at: the deepest one where it follows the
/// bottom, else the requested one held to the deepest.
pub open spec fn clamped_offset(
    follow_bottom: bool,
    requested: int,
    content_h: int,
    viewport_h: int,
) -> int {
    if follow_bottom {
        max_offset_of(content_h, viewport_h)
    } else {
        least(requested, max_offset_of(content_h, viewport_h))
    }
}

/// The offset that the pane is drawn at.
pub fn clamp_preview_offset(
    follow_bottom: bool,
    requested: u32,
    content_h: usize,
    viewport_h: u16,
) -> (offset: u32)
    ensures
        offset == clamped_offset(
            follow_bottom,
            requested as int,
            content_h as int,
            viewport_h as int,
        ),
{
    let max_offset = max_preview_offset(content_h, viewport_h);
    if follow_bottom || requested > max_offset {
        max_offset
    } else {
        requested
    }
}

/// Clamping settles: an offset that was clamped stays where it is on the next
/// frame of the same content, and content that fits the viewport never scrolls.
pub proof fn lemma_clamping_settles(
    follow_bottom: bool,
    requested: int,
    content_h: int,
    viewport_h: int,
)
    requires
        0 <= requested,
        0 <= content_h,
        0 <= viewport_h,
    ensures
        ({
            let offset = clamped_offset(follow_bottom, requested, content_h, viewport_h);
            &&& 0 <= offset <= floored_difference(content_h, viewport_h)
            &&& clamped_offset(false, offset, content_h, viewport_h) == offset
            &&& content_h <= viewport_h ==> offset == 0
        }),
{
}

/// Following the bottom reaches the last row: the viewport ends where the
/// content does, for content up to `u32::MAX` rows past it.
pub proof fn lemma_following_reaches_the_last_row(
    requested: int,
    content_h: int,
    viewport_h: int,
)
    requires
        0 <= viewport_h <= content_h,
        content_h - viewport_h <= u32::MAX,
    ensures
        clamped_offset(true, requested, content_h, viewport_h) + viewport_h == content_h,
{
}

/// The part of the viewport, above a match that was jumped to, that keeps the
/// rows before it: one in three.
pub const MATCH_JUMP_LEAD_DIVISOR: u16 = 3;

/// The offset that shows a line with a third of the viewport above it.
pub open spec fn jump_offset(rows_above: int, viewport_h: int) -> int {
    least(
        floored_difference(rows_above, viewport_h / (MATCH_JUMP_LEAD_DIVISOR as int)),
        u32::MAX as int,
    )
}

/// The offset that shows a line with a third of the viewport above it, given the
/// rows above the line.
pub fn match_jump_offset(rows_above: usize, viewport_h: u16) -> (offset: u32)
    ensures
        offset == jump_offset(rows_above as int, viewport_h as int),
{
    let lead: usize = (viewport_h / MATCH_JUMP_LEAD_DIVISOR) as usize;
    capped_u32(rows_above.saturating_sub(lead))
}

/// A jump shows its line: at the offset it leads to, once clamped, the line's
/// first row lies inside the viewport.
pub proof fn lemma_a_jump_shows_its_line(rows_above: int, content_h: int, viewport_h: int)
    requires
        0 < viewport_h <= u16::MAX,
        0 <= rows_above < content_h,
        rows_above <= u32::MAX,
    ensures
        ({
            let offset = clamped_offset(
                false,
                jump_offset(rows_above, viewport_h),
                content_h,
                viewport_h,
            );
            offset <= rows_above < offset + viewport_h
        }),
{
}

/// `content_h / track_length`, rounded up, with a track of at least one cell.
pub open spec fn detach_distance(content_h: int, track_length: int) -> int {
    let track = greatest(track_length, 1);
    (content_h + track - 1) / track
}

/// How far from an edge of the content the scrollbar's thumb has moved a whole
/// cell off that edge of its track.
pub fn min_detach_distance(content_h: usize, track_length: usize) -> (distance: usize)
    ensures
        distance == detach_distance(content_h as int, track_length as int),
{
    let track: usize = if track_length > 1 {
        track_length
    } else {
        1
    };
    let whole: usize = content_h / track;
    let rest: usize = content_h % track;
    proof {
        lemma_ceil(content_h as int, track as int);
    }
    if rest > 0 {
        assert(whole < usize::MAX) by (nonlinear_arith)
            requires
                whole == content_h / track,
                rest == content_h % track,
                rest > 0,
                track >= 1,
                content_h <= usize::MAX,
        ;
        whole + 1
    } else {
        whole
    }
}

/// Rounding up a quotient adds one where there is a remainder.
proof fn lemma_ceil(a: int, b: int)
    by (nonlinear_arith)
    requires
        a >= 0,
        b >= 1,
    ensures
        a % b > 0 ==> (a + b - 1) / b == a / b + 1,
        a % b == 0 ==> (a + b - 1) / b == a / b,
{
    let q = a / b;
    let r = a % b;
    assert(a == b * q + r);
    if r > 0 {
        assert(a + b - 1 == b * (q + 1) + (r - 1));
        assert(0 <= r - 1 < b);
        assert((a + b - 1) / b == q + 1);
    } else {
        assert(a + b - 1 == b * q + (b - 1));
        assert((a + b - 1) / b == q);
    }
}

/// That far off the edge, the track position is at least a whole cell, whatever
/// rounding follows.
pub proof fn lemma_detach_distance_reaches_a_cell(content_h: int, track_length: int)
    requires
        0 <= content_h,
        0 < track_length,
    ensures
        detach_distance(content_h, track_length) * track_length >= content_h,
{
    let d = (content_h + track_length - 1) / track_length;
    assert(d * track_length >= content_h) by (nonlinear_arith)
        requires
            d == (content_h + track_length - 1) / track_length,
            0 < track_length,
            0 <= content_h,
    ;
}

/// Where the scrollbar's thumb stands: at the first position at the top, at the
/// last one at the bottom, and in between held off both edges of the track, the
/// bottom by twice the distance of the top.
pub open spec fn thumb_position(
    offset: int,
    max_offset: int,
    content_length: int,
    content_h: int,
    track_length: int,
) -> int {
    let last = floored_difference(content_length, 1);
    let margin = detach_distance(content_h, track_length);
    let lo = least(margin, last / 2);
    let hi = greatest(floored_difference(last, 2 * margin), lo);
    if offset == 0 || max_offset == 0 {
        0
    } else if offset >= max_offset {
        last
    } else {
        least(greatest(offset, lo), hi)
    }
}

/// Where the scrollbar's thumb stands.
pub fn scrollbar_thumb_position(
    offset: u32,
    max_offset: u32,
    content_length: usize,
    content_h: usize,
    track_length: u16,
) -> (position: usize)
    ensures
        position == thumb_position(
            offset as int,
            max_offset as int,
            content_length as int,
            content_h as int,
            track_length as int,
        ),
{
    if offset == 0 || max_offset == 0 {
        return 0;
    }
    let last: usize = content_length.saturating_sub(1);
    if offset >= max_offset {
        return last;
    }
    let margin = min_detach_distance(content_h, track_length as usize);
    let mid: usize = last / 2;
    let lo: usize = if margin < mid {
        margin
    } else {
        mid
    };
    let twice: usize = if margin > usize::MAX / 2 {
        usize::MAX
    } else {
        2 * margin
    };
    let below: usize = last.saturating_sub(twice);
    let hi: usize = if below > lo {
        below
    } else {
        lo
    };
    let wanted: usize = offset as usize;
    let raised: usize = if wanted > lo {
        wanted
    } else {
        lo
    };
    if raised < hi {
        raised
    } else {
        hi
    }
}

/// A partial scroll detaches the thumb from both ends: on a track long enough to
/// hold it, the position is a whole cell off the top, and two whole cells off the
/// bottom.
pub proof fn lemma_a_partial_scroll_detaches_the_thumb(
    offset: int,
    max_offset: int,
    content_length: int,
    content_h: int,
    track_length: int,
)
    requires
        0 < offset < max_offset,
        0 <= content_h,
        0 < track_length,
        3 * detach_distance(content_h, track_length) <= content_length - 1,
    ensures
        ({
            let last = content_length - 1;
            let position = thumb_position(
                offset,
                max_offset,
                content_length,
                content_h,
                track_length,
            );
            &&& position * track_length >= content_h
            &&& (last - position) * track_length >= 2 * content_h
        }),
{
    let m = detach_distance(content_h, track_length);
    let last = content_length - 1;
    let position = thumb_position(offset, max_offset, content_length, content_h, track_length);
    lemma_detach_distance_reaches_a_cell(content_h, track_length);
    assert(m >= 0) by (nonlinear_arith)
        requires
            m * track_length >= content_h,
            content_h >= 0,
            track_length > 0,
    ;
    assert(m <= position && position <= last - 2 * m);
    assert(position * track_length >= m * track_length) by (nonlinear_arith)
        requires
            m <= position,
            track_length > 0,
    ;
    assert((last - position) * track_length >= 2 * (m * track_length)) by (nonlinear_arith)
        requires
            2 * m <= last - position,
            track_length > 0,
    ;
}

/// The thumb keeps to the track and moves with the pane: a deeper offset never
/// stands higher.
pub proof fn lemma_the_thumb_follows_the_offset(
    a: int,
    b: int,
    max_offset: int,
    content_length: int,
    content_h: int,
    track_length: int,
)
    requires
        0 <= a <= b,
        0 <= content_length,
        0 <= content_h,
    ensures
        ({
            let pa = thumb_position(a, max_offset, content_length, content_h, track_length);
            let pb = thumb_position(b, max_offset, content_length, content_h, track_length);
            0 <= pa <= pb <= floored_difference(content_length, 1)
        }),
{
    let track = greatest(track_length, 1);
    let m = detach_distance(content_h, track_length);
    assert(m >= 0) by (nonlinear_arith)
        requires
            m == (content_h + track - 1) / track,
            track >= 1,
            content_h >= 0,
    ;
}

/// A pane that fits its content stands where it is asked to: every offset up to the
/// deepest is kept, and the deepest is the one from which the viewport ends where the
/// content does.
pub proof fn lemma_a_pane_stands_where_it_is_asked_to(
    requested: int,
    content_h: int,
    viewport_h: int,
)
    requires
        0 <= requested <= u32::MAX,
        0 <= viewport_h,
        0 <= content_h,
    ensures
        requested + viewport_h <= content_h ==> clamped_offset(
            false,
            requested,
            content_h,
            viewport_h,
        ) == requested,
        requested + viewport_h > content_h >= viewport_h ==> clamped_offset(
            false,
            requested,
            content_h,
            viewport_h,
        ) + viewport_h == content_h,
{
}

/// A jump leaves a third of the viewport above its line, rounded down, wherever so
/// many rows stand above it, and else starts at the top.
pub proof fn lemma_a_jump_leads_its_line_by_a_third(rows_above: int, viewport_h: int)
    requires
        0 <= rows_above <= u32::MAX,
        0 <= viewport_h <= u16::MAX,
    ensures
        ({
            let offset = jump_offset(rows_above, viewport_h);
            let lead = rows_above - offset;
            &&& 0 <= offset <= rows_above
            &&& 3 * lead <= viewport_h
            &&& offset > 0 ==> viewport_h < 3 * lead + 3
        }),
{
}

/// The distance is the least that reaches a whole cell.
pub proof fn lemma_detach_distance_is_the_least(content_h: int, track_length: int)
    requires
        0 < content_h,
        0 < track_length,
    ensures
        0 < detach_distance(content_h, track_length),
        (detach_distance(content_h, track_length) - 1) * track_length < content_h,
{
    let d = (content_h + track_length - 1) / track_length;
    assert(d > 0 && (d - 1) * track_length < content_h) by (nonlinear_arith)
        requires
            d == (content_h + track_length - 1) / track_length,
            0 < track_length,
            0 < content_h,
    ;
}

/// At its ends the thumb stands at the track's: at the first position exactly where
/// the pane shows the first row, on content that scrolls and a track that has a
/// middle, and at the last where it shows the last.
pub proof fn lemma_the_thumb_reaches_both_ends(
    offset: int,
    max_offset: int,
    content_length: int,
    content_h: int,
    track_length: int,
)
    requires
        0 <= offset,
        0 < max_offset,
        0 <= content_length,
        0 < content_h,
    ensures
        thumb_position(0, max_offset, content_length, content_h, track_length) == 0,
        offset >= max_offset && content_length > 0 ==> thumb_position(
            offset,
            max_offset,
            content_length,
            content_h,
            track_length,
        ) == content_length - 1,
        0 < offset < max_offset && content_length >= 3 ==> 0 < thumb_position(
            offset,
            max_offset,
            content_length,
            content_h,
            track_length,
        ) < content_length - 1,
{
    let track = greatest(track_length, 1);
    lemma_detach_distance_is_the_least(content_h, track);
}

/// Between its stops the thumb stands at the pane's offset, so that no two offsets
/// there share a position; before the first stop it stands at it, and behind the last
/// at that.
pub proof fn lemma_between_its_stops_the_thumb_stands_at_the_offset(
    offset: int,
    max_offset: int,
    content_length: int,
    content_h: int,
    track_length: int,
)
    requires
        0 < offset < max_offset,
        0 <= content_h,
        3 * detach_distance(content_h, track_length) <= content_length - 1,
    ensures
        ({
            let first = detach_distance(content_h, track_length);
            let last = content_length - 1 - 2 * first;
            let position = thumb_position(
                offset,
                max_offset,
                content_length,
                content_h,
                track_length,
            );
            &&& first <= offset <= last ==> position == offset
            &&& offset < first ==> position == first
            &&& offset > last ==> position == last
        }),
{
    let track = greatest(track_length, 1);
    let m = detach_distance(content_h, track_length);
    assert(m >= 0) by (nonlinear_arith)
        requires
            m == (content_h + track - 1) / track,
            track >= 1,
            content_h >= 0,
    ;
}

/// On a track too short for both stops every partial scroll stands at one position:
/// the first stop, or the middle where that is nearer.
pub proof fn lemma_a_short_track_has_one_stop(
    a: int,
    b: int,
    max_offset: int,
    content_length: int,
    content_h: int,
    track_length: int,
)
    requires
        0 < a < max_offset,
        0 < b < max_offset,
        0 <= content_h,
        0 < content_length <= 3 * detach_distance(content_h, track_length),
    ensures
        ({
            let first = detach_distance(content_h, track_length);
            let position = thumb_position(a, max_offset, content_length, content_h, track_length);
            &&& position == thumb_position(b, max_offset, content_length, content_h, track_length)
            &&& position <= first && 2 * position <= content_length - 1
            &&& position == first || 2 * position >= content_length - 2
        }),
{
}

} // verus!
