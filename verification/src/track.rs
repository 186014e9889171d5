//! Track segments: a cubic Bezier piece with its arc-length table, the links
//! that join pieces into a graph, and the distance-to-parameter lookup.

use vstd::prelude::*;
use vstd::arithmetic::div_mod::{lemma_div_by_multiple, lemma_div_is_ordered};
use crate::math::{lemma_mul_abs_bound, lemma_mul_le_mono, DIST_LIMIT, LEN_LIMIT, MAX_COORD, PARAM_ONE};
use crate::utils::{
    build_arc_length_table, cum_dist, estimate_curve_length, lemma_table_monotonic, sample_param,
};
use crate::vec3::Vec3;

verus! {

/// The number of chords an arc-length table is built from: the reference
/// sampling resolution.
pub const ARC_LENGTH_RESOLUTION: u32 = 100;

/// One track piece: a cubic Bezier curve with a precomputed arc-length
/// table.  The table maps a cumulative distance along the curve to the
/// curve parameter reached at that distance.
pub struct PathComponent {
    pub start_anchor: Vec3,
    pub end_anchor: Vec3,
    pub start_control_point: Vec3,
    pub end_control_point: Vec3,
    pub length_meters: i64,
    pub arc_length_table: Vec<(i64, i64)>,
}

/// The four control points of a cubic Bezier curve, in curve order: start
/// anchor, start control point, end control point, end anchor.
pub struct CurvePoints {
    pub p0: Vec3,
    pub p1: Vec3,
    pub p2: Vec3,
    pub p3: Vec3,
}

impl CurvePoints {
    /// All four points lie within the supported coordinate range.
    pub open spec fn in_range(self) -> bool {
        &&& self.p0.in_range(MAX_COORD as int)
        &&& self.p1.in_range(MAX_COORD as int)
        &&& self.p2.in_range(MAX_COORD as int)
        &&& self.p3.in_range(MAX_COORD as int)
    }
}

/// An arc-length table is ordered: cumulative distances and parameters are
/// both non-decreasing, and every entry is within the representable range.
pub open spec fn table_wf(table: Seq<(i64, i64)>) -> bool {
    &&& forall|i: int, j: int|
        0 <= i <= j < table.len() ==> (#[trigger] table[i]).0 <= (#[trigger] table[j]).0
    &&& forall|i: int, j: int|
        0 <= i <= j < table.len() ==> (#[trigger] table[i]).1 <= (#[trigger] table[j]).1
    &&& forall|i: int| 0 <= i < table.len() ==> 0 <= (#[trigger] table[i]).0 <= LEN_LIMIT
    &&& forall|i: int| 0 <= i < table.len() ==> 0 <= (#[trigger] table[i]).1 <= PARAM_ONE
}

/// Number of leading entries of `table` whose cumulative distance is below
/// `d`: the insertion point of `d` in the table.
pub open spec fn lower_bound_idx(table: Seq<(i64, i64)>, d: int) -> int
    decreases table.len(),
{
    if table.len() == 0 {
        0
    } else if (table[0]).0 >= d {
        0
    } else {
        1 + lower_bound_idx(table.drop_first(), d)
    }
}

/// The parameter linearly interpolated between two bracketing table entries,
/// proportional to where `d` falls between their cumulative distances; the
/// lower entry's parameter when the bracket has no width.
pub open spec fn interp_param(lo: (i64, i64), hi: (i64, i64), d: int) -> int {
    let span = hi.0 - lo.0;
    if span == 0 {
        lo.1 as int
    } else {
        lo.1 + (hi.1 - lo.1) * (d - lo.0) / span
    }
}

/// The parameter a distance `d` along the curve corresponds to, read from an
/// arc-length table: zero for an empty table or a distance before the first
/// entry, one past the last entry, the stored parameter on an exact match,
/// and linear interpolation between the bracketing entries otherwise.
pub open spec fn t_for_distance(table: Seq<(i64, i64)>, d: int) -> int {
    if table.len() == 0 {
        0
    } else {
        let i = lower_bound_idx(table, d);
        if i == table.len() {
            PARAM_ONE as int
        } else if (table[i]).0 == d {
            (table[i]).1 as int
        } else if i == 0 {
            0
        } else {
            interp_param(table[i - 1], table[i], d)
        }
    }
}

/// The insertion point deserves its name: everything before it is below
/// `d`, and the entry at it (if any) is not.
pub proof fn lemma_lower_bound_idx_props(table: Seq<(i64, i64)>, d: int)
    ensures
        0 <= lower_bound_idx(table, d) <= table.len(),
        forall|j: int| 0 <= j < lower_bound_idx(table, d) ==> (#[trigger] table[j]).0 < d,
        lower_bound_idx(table, d) < table.len() ==> (table[lower_bound_idx(table, d)]).0 >= d,
    decreases table.len(),
{
    if table.len() != 0 && (table[0]).0 < d {
        let rest = table.drop_first();
        lemma_lower_bound_idx_props(rest, d);
        let i = lower_bound_idx(table, d);
        assert forall|j: int| 0 <= j < i implies (#[trigger] table[j]).0 < d by {
            if j > 0 {
                assert(rest[j - 1] == table[j]);
            }
        }
        if i < table.len() {
            assert(rest[i - 1] == table[i]);
        }
    }
}

impl PathComponent {
    /// The geometry of this piece: its four control points in curve order.
    pub open spec fn curve(self) -> CurvePoints {
        CurvePoints {
            p0: self.start_anchor,
            p1: self.start_control_point,
            p2: self.end_control_point,
            p3: self.end_anchor,
        }
    }

    /// The four control points all lie within the supported coordinate range.
    pub open spec fn coords_bounded(self) -> bool {
        self.curve().in_range()
    }

    /// A well-formed piece: bounded control points, an ordered table that
    /// starts at `(0, 0)`, and a length that equals the table's final
    /// cumulative distance, reached at parameter one.
    pub open spec fn wf(self) -> bool {
        &&& self.coords_bounded()
        &&& table_wf(self.arc_length_table@)
        &&& self.arc_length_table@.len() >= 2
        &&& self.arc_length_table@[0] == (0i64, 0i64)
        &&& self.arc_length_table@[self.arc_length_table@.len() - 1] == (
        self.length_meters,
        PARAM_ONE,
        )
        &&& 0 <= self.length_meters <= LEN_LIMIT
    }

    /// A new track piece over the given control points, with its arc-length
    /// table built at the reference resolution and its length set to the
    /// table's final cumulative distance.
    pub fn new(
        start_anchor: Vec3,
        end_anchor: Vec3,
        start_control_point: Vec3,
        end_control_point: Vec3,
    ) -> (path: Self)
        requires
            start_anchor.in_range(MAX_COORD as int),
            end_anchor.in_range(MAX_COORD as int),
            start_control_point.in_range(MAX_COORD as int),
            end_control_point.in_range(MAX_COORD as int),
        ensures
            path.wf(),
            path.start_anchor == start_anchor,
            path.end_anchor == end_anchor,
            path.start_control_point == start_control_point,
            path.end_control_point == end_control_point,
            path.arc_length_table@.len() == ARC_LENGTH_RESOLUTION + 1,
            forall|i: int|
                0 <= i <= ARC_LENGTH_RESOLUTION ==> (#[trigger] path.arc_length_table@[i]).0
                    == cum_dist(path.curve(), i, ARC_LENGTH_RESOLUTION as int),
            forall|i: int|
                0 <= i <= ARC_LENGTH_RESOLUTION ==> (#[trigger] path.arc_length_table@[i]).1
                    == sample_param(i, ARC_LENGTH_RESOLUTION as int),
            path.length_meters == cum_dist(
                path.curve(),
                ARC_LENGTH_RESOLUTION as int,
                ARC_LENGTH_RESOLUTION as int,
            ),
    {
        let mut path = Self {
            start_anchor,
            end_anchor,
            start_control_point,
            end_control_point,
            length_meters: 0,
            arc_length_table: Vec::new(),
        };

        let length = estimate_curve_length(&path, ARC_LENGTH_RESOLUTION);
        let table = build_arc_length_table(&path, ARC_LENGTH_RESOLUTION);
        path.length_meters = length;
        path.arc_length_table = table;

        proof {
            lemma_table_monotonic(path.curve(), ARC_LENGTH_RESOLUTION as int);
        }
        path
    }

    /// A straight piece from `start` to `end`: the control points coincide
    /// with the anchors.
    pub fn new_straight(start: Vec3, end: Vec3) -> (path: Self)
        requires
            start.in_range(MAX_COORD as int),
            end.in_range(MAX_COORD as int),
        ensures
            path.wf(),
            path.start_anchor == start,
            path.end_anchor == end,
            path.start_control_point == start,
            path.end_control_point == end,
            path.arc_length_table@.len() == ARC_LENGTH_RESOLUTION + 1,
            forall|i: int|
                0 <= i <= ARC_LENGTH_RESOLUTION ==> (#[trigger] path.arc_length_table@[i]).0
                    == cum_dist(path.curve(), i, ARC_LENGTH_RESOLUTION as int),
            forall|i: int|
                0 <= i <= ARC_LENGTH_RESOLUTION ==> (#[trigger] path.arc_length_table@[i]).1
                    == sample_param(i, ARC_LENGTH_RESOLUTION as int),
            path.length_meters == cum_dist(
                path.curve(),
                ARC_LENGTH_RESOLUTION as int,
                ARC_LENGTH_RESOLUTION as int,
            ),
    {
        Self::new(start, end, start, end)
    }

    /// Looks up the curve parameter reached at a travel distance of
    /// `distance`, by binary search over the arc-length table, with linear
    /// interpolation between bracketing entries.
    pub fn get_t_for_distance(&self, distance: i64) -> (t: i64)
        requires
            table_wf(self.arc_length_table@),
            -2 * DIST_LIMIT <= distance <= 2 * DIST_LIMIT,
        ensures
            t == t_for_distance(self.arc_length_table@, distance as int),
            0 <= t <= PARAM_ONE,
    {
        let table = &self.arc_length_table;
        let n = table.len();
        if n == 0 {
            return 0;
        }

        let mut lo: usize = 0;
        let mut hi: usize = n;
        while lo < hi
            invariant
                lo <= hi <= n,
                n == table@.len(),
                table_wf(table@),
                forall|j: int| 0 <= j < lo ==> (#[trigger] table@[j]).0 < distance,
                forall|j: int| hi <= j < n ==> (#[trigger] table@[j]).0 >= distance,
            decreases hi - lo,
        {
            let mid = lo + (hi - lo) / 2;
            if table[mid].0 < distance {
                lo = mid + 1;
            } else {
                hi = mid;
            }
        }
        proof {
            lemma_lower_bound_idx_props(table@, distance as int);
            let i = lower_bound_idx(table@, distance as int);
            if i < lo {
                assert((table@[i]).0 >= distance);
            }
            if lo < i {
                assert((table@[lo as int]).0 < distance);
            }
            assert(lo == i);
        }

        let idx = lo;
        if idx == n {
            return PARAM_ONE;
        }
        let entry = table[idx];
        if entry.0 == distance {
            return entry.1;
        }
        if idx == 0 {
            return 0;
        }

        let before = table[idx - 1];
        let dist_before = before.0;
        let t_before = before.1;
        let dist_after = entry.0;
        let t_after = entry.1;

        let segment_length = dist_after - dist_before;
        if segment_length == 0 {
            return t_before;
        }

        proof {
            lemma_mul_abs_bound(
                t_after as int - t_before as int,
                distance as int - dist_before as int,
                1000,
                300_000_000_000_000,
            );
        }
        let progress_num = (t_after - t_before) * (distance - dist_before);
        proof {
            lemma_mul_le_mono(distance - dist_before, segment_length as int, t_after - t_before);
            lemma_mul_le_mono(0, distance - dist_before, t_after - t_before);
            lemma_div_is_ordered(0, progress_num as int, segment_length as int);
            lemma_div_is_ordered(
                progress_num as int,
                (t_after - t_before) * (segment_length as int),
                segment_length as int,
            );
            lemma_div_by_multiple(t_after - t_before, segment_length as int);
        }
        let offset = ((progress_num as u64) / (segment_length as u64)) as i64;
        t_before + offset
    }
}

/// The graph links of one track piece: its optional previous and next
/// neighbors, by index into the graph.  A missing link is a dead end.
pub struct TrackConnection {
    pub previous: Option<usize>,
    pub next: Option<usize>,
}

impl TrackConnection {
    /// A connection linked on both sides, as every piece of a closed loop is.
    pub fn new_closed(previous: usize, next: usize) -> (c: Self)
        ensures
            c.previous == Some(previous),
            c.next == Some(next),
    {
        Self { previous: Some(previous), next: Some(next) }
    }
}

/// One entry of the track graph: a piece's geometry and its links.
pub struct TrackPiece {
    pub path: PathComponent,
    pub connection: TrackConnection,
}

/// The static track graph: a set of linked pieces, referenced by index.
pub struct TrackGraph {
    pub pieces: Vec<TrackPiece>,
}

impl TrackGraph {
    /// Whether `i` names a piece of this graph.
    pub open spec fn valid_index(self, i: int) -> bool {
        0 <= i < self.pieces@.len()
    }

    /// The arc length of piece `i`.
    pub open spec fn piece_len(self, i: int) -> int {
        self.pieces@[i].path.length_meters as int
    }

    /// The forward link of piece `i`.
    pub open spec fn next_of(self, i: int) -> Option<usize> {
        self.pieces@[i].connection.next
    }

    /// The backward link of piece `i`.
    pub open spec fn prev_of(self, i: int) -> Option<usize> {
        self.pieces@[i].connection.previous
    }

    /// Every piece of the graph is well-formed.
    pub open spec fn wf(self) -> bool {
        forall|i: int| self.valid_index(i) ==> (#[trigger] self.pieces@[i]).path.wf()
    }

    /// Every piece is at least one unit long, which bounds how many pieces a
    /// traversal can cross: a well-formed closed loop never loops forever.
    pub open spec fn positive_lengths(self) -> bool {
        forall|i: int| self.valid_index(i) ==> #[trigger] self.piece_len(i) >= 1
    }

    /// Whether every piece is linked to a valid piece on both sides, as in a
    /// fully closed loop.
    pub open spec fn fully_linked(self) -> bool {
        &&& forall|i: int|
            self.valid_index(i) ==> (#[trigger] self.next_of(i)) is Some && self.valid_index(
                self.next_of(i).unwrap() as int,
            )
        &&& forall|i: int|
            self.valid_index(i) ==> (#[trigger] self.prev_of(i)) is Some && self.valid_index(
                self.prev_of(i).unwrap() as int,
            )
    }

    /// Checks at run time that every piece is at least one unit long.
    pub fn has_positive_lengths(&self) -> (r: bool)
        ensures
            r == self.positive_lengths(),
    {
        let n = self.pieces.len();
        let mut i: usize = 0;
        while i < n
            invariant
                i <= n,
                n == self.pieces@.len(),
                forall|j: int| 0 <= j < i ==> #[trigger] self.piece_len(j) >= 1,
            decreases n - i,
        {
            if self.pieces[i].path.length_meters < 1 {
                proof {
                    assert(self.piece_len(i as int) < 1);
                }
                return false;
            }
            i = i + 1;
        }
        true
    }
}

/// Looking up the cumulative distance stored in a table entry returns that
/// entry's parameter, for the first entry holding that distance.
pub proof fn lemma_lookup_exact(table: Seq<(i64, i64)>, i: int)
    requires
        table_wf(table),
        0 <= i < table.len(),
        forall|j: int| 0 <= j < i ==> (#[trigger] table[j]).0 < (table[i]).0,
    ensures
        t_for_distance(table, (table[i]).0 as int) == (table[i]).1,
{
    let d = (table[i]).0 as int;
    lemma_lower_bound_idx_props(table, d);
    let k = lower_bound_idx(table, d);
    if k < i {
        assert((table[k]).0 >= d);
    }
    if i < k {
        assert((table[i]).0 < d);
    }
    assert(k == i);
}

/// A looked-up parameter is bracketed by the parameters of the entries the
/// distance falls between: interpolation never leaves the bracket.
pub proof fn lemma_lookup_bracket(table: Seq<(i64, i64)>, d: int)
    requires
        table_wf(table),
        0 < lower_bound_idx(table, d),
        lower_bound_idx(table, d) < table.len(),
    ensures
        (table[lower_bound_idx(table, d) - 1]).1 <= t_for_distance(table, d) <= (
        table[lower_bound_idx(table, d)]).1,
{
    let i = lower_bound_idx(table, d);
    lemma_lower_bound_idx_props(table, d);
    if (table[i]).0 == d {
    } else {
        let lo = table[i - 1];
        let hi = table[i];
        let span = hi.0 - lo.0;
        if span == 0 {
        } else {
            let tdiff = hi.1 - lo.1;
            lemma_mul_le_mono(d - lo.0, span, tdiff as int);
            lemma_mul_le_mono(0, d - lo.0, tdiff as int);
            lemma_div_is_ordered(0, tdiff * (d - lo.0), span);
            lemma_div_is_ordered(tdiff * (d - lo.0), tdiff * span, span);
            lemma_div_by_multiple(tdiff as int, span);
        }
    }
}

} // verus!
