//! Semantic resolution: builds the final cross-referenced domain model from
//! the raw aggregate, indexes every entity by its timing key, resolves
//! note-to-lane and bullet-to-palette references, and interpolates each hold
//! note's path against its lane.

use crate::lex::command::{
    Bell as RawBell, BellV as RawBellV, BeamPoint as RawBeamPoint, Bullet as RawBullet,
    BulletDamageType, BulletPalette as RawBulletPalette, BulletPaletteV as RawBulletPaletteV,
    BulletShooter, BulletSize, BulletTarget, BulletType, BulletV as RawBulletV,
    BpmChange as RawBpmChange, ClickSound as RawClickSound,
    ColorfulLanePoint as RawColorfulLanePoint, CommandTime, Flick as RawFlick, FlickDirection,
    Hold as RawHold, MeterChange as RawMeterChange, Soflan as RawSoflan, SoflanV as RawSoflanV,
    LaneEvent, LanePoint, ObliqueBeamPoint as RawObliqueBeamPoint, Tap as RawTap, WallPoint,
};
use crate::parse::raw::{
    beam_section_views, bell_views, bullet_views, colorful_section_views, lane_section_views,
    oblique_section_views, palette_views, RawNotes, RawNotesV, RawOgkr, RawOgkrV,
    soflan_views, wall_section_views, BeamSection, BeamSectionV, ColorfulLaneSection,
    ColorfulLaneSectionV, LaneSection, LaneSectionV, ObliqueBeamSection, ObliqueBeamSectionV,
    RawComposition, RawCompositionV, RawTrack, RawTrackV, WallSection, WallSectionV,
};
use crate::parse::{dec_str, message_with_id, EnemyWaveAssignment, Header, HeaderV, ParseErrV, ParseError};
use vstd::prelude::*;

verus! {

/// The primary sort key of every timed entity.
#[derive(Clone, Copy, Debug, PartialEq, Eq, Hash, Structural)]
pub struct TimingPoint {
    /// Measure or bar the object is in.
    pub measure: u32,
    /// Offset from the start of the measure, in ticks of the configured tick
    /// resolution.
    pub beat_offset: u32,
}

/// The lexicographic order on timing points: by measure, then by offset.
pub open spec fn tp_le(a: TimingPoint, b: TimingPoint) -> bool {
    a.measure < b.measure || (a.measure == b.measure && a.beat_offset <= b.beat_offset)
}

pub open spec fn tp_lt(a: TimingPoint, b: TimingPoint) -> bool {
    a.measure < b.measure || (a.measure == b.measure && a.beat_offset < b.beat_offset)
}

impl View for TimingPoint {
    type V = TimingPoint;

    open spec fn view(&self) -> TimingPoint {
        *self
    }
}

impl TimingPoint {
    pub fn new(measure: u32, beat_offset: u32) -> (r: Self)
        ensures
            r == (TimingPoint { measure, beat_offset }),
    {
        Self { measure, beat_offset }
    }

    /// Decides the lexicographic `tp_lt` order.
    pub fn lt(&self, other: &Self) -> (r: bool)
        ensures
            r == tp_lt(*self, *other),
    {
        self.measure < other.measure || (self.measure == other.measure && self.beat_offset
            < other.beat_offset)
    }

    /// Decides the lexicographic `tp_le` order.
    pub fn le(&self, other: &Self) -> (r: bool)
        ensures
            r == tp_le(*self, *other),
    {
        self.measure < other.measure || (self.measure == other.measure && self.beat_offset
            <= other.beat_offset)
    }
}

/// The timing point a command time denotes.
pub open spec fn timing_of(ct: CommandTime) -> TimingPoint {
    TimingPoint { measure: ct.measure, beat_offset: ct.offset }
}

/// A lane-relative coordinate: an integer position plus a sub-unit offset in
/// terms of the configured x resolution.
#[derive(Clone, Copy, Debug, PartialEq, Eq, Hash, Structural)]
pub struct XPosition {
    pub position: i32,
    /// Uses the x resolution as the width reference value.
    pub offset: i32,
}

impl View for XPosition {
    type V = XPosition;

    open spec fn view(&self) -> XPosition {
        *self
    }
}

impl XPosition {
    pub fn new(position: i32, offset: i32) -> (r: Self)
        ensures
            r == (XPosition { position, offset }),
    {
        Self { position, offset }
    }

    pub fn new_position(position: i32) -> (r: Self)
        ensures
            r == (XPosition { position, offset: 0 }),
    {
        Self::new(position, 0)
    }
}

/// A point on the track: a timing key and an x coordinate. Sequencing is by
/// time alone; two positions at the same time are interchangeable for
/// ordering purposes even if their x differs.
#[derive(Clone, Copy, Debug, PartialEq, Eq, Hash, Structural)]
pub struct TrackPosition {
    pub time: TimingPoint,
    pub x: XPosition,
}

impl View for TrackPosition {
    type V = TrackPosition;

    open spec fn view(&self) -> TrackPosition {
        *self
    }
}

/// The track position a command time plus x pair denotes.
pub open spec fn track_pos_of(time: CommandTime, x_position: int, x_offset: int) -> TrackPosition {
    TrackPosition {
        time: timing_of(time),
        x: XPosition { position: x_position as i32, offset: x_offset as i32 },
    }
}

pub open spec fn track_pos_of_wall(p: WallPoint) -> TrackPosition {
    TrackPosition {
        time: timing_of(p.time),
        x: XPosition { position: p.x_position, offset: 0 },
    }
}

pub open spec fn track_pos_of_lane(p: LanePoint) -> TrackPosition {
    TrackPosition {
        time: timing_of(p.time),
        x: XPosition { position: p.x_position, offset: 0 },
    }
}

pub open spec fn track_pos_of_colorful(p: RawColorfulLanePoint) -> TrackPosition {
    TrackPosition {
        time: timing_of(p.time),
        x: XPosition { position: p.x_position, offset: 0 },
    }
}

impl TrackPosition {
    pub fn new(time: TimingPoint, x: XPosition) -> (r: Self)
        ensures
            r == (TrackPosition { time, x }),
    {
        Self { time, x }
    }

    pub fn from_command_info(time: CommandTime, x_position: i32, x_offset: i32) -> (r: Self)
        ensures
            r == track_pos_of(time, x_position as int, x_offset as int),
    {
        Self {
            time: TimingPoint { measure: time.measure, beat_offset: time.offset },
            x: XPosition::new(x_position, x_offset),
        }
    }

    pub fn from_wall_point(wall_point: WallPoint) -> (r: Self)
        ensures
            r == track_pos_of_wall(wall_point),
    {
        Self {
            time: TimingPoint { measure: wall_point.time.measure, beat_offset: wall_point.time.offset },
            x: XPosition::new_position(wall_point.x_position),
        }
    }

    pub fn from_lane_point(lane_point: LanePoint) -> (r: Self)
        ensures
            r == track_pos_of_lane(lane_point),
    {
        Self {
            time: TimingPoint { measure: lane_point.time.measure, beat_offset: lane_point.time.offset },
            x: XPosition::new_position(lane_point.x_position),
        }
    }

    pub fn from_command_colorful_lane_point(lane_point: RawColorfulLanePoint) -> (r: Self)
        ensures
            r == track_pos_of_colorful(lane_point),
    {
        Self {
            time: TimingPoint { measure: lane_point.time.measure, beat_offset: lane_point.time.offset },
            x: XPosition::new_position(lane_point.x_position),
        }
    }
}

/// The kind of lane or wall a section resolves into.
#[derive(Clone, Copy, Debug, PartialEq, Eq, Hash, Structural)]
pub enum LaneType {
    WallLeft,
    WallRight,
    Left,
    Center,
    Right,
    /// Not a real lane for the player.
    Enemy,
}

impl View for LaneType {
    type V = LaneType;

    open spec fn view(&self) -> LaneType {
        *self
    }
}

/// Represents both walls and lanes: they share one id space, and notes
/// distinguish wall and lane placement through this id.
#[derive(Clone, Copy, Debug, PartialEq, Eq, Hash, Structural)]
pub struct LaneId(pub u32);

impl View for LaneId {
    type V = LaneId;

    open spec fn view(&self) -> LaneId {
        *self
    }
}

/// A resolved lane or wall: an ordered poly-line of track positions.
#[derive(Clone, Debug, PartialEq, Eq, Hash)]
pub struct Lane {
    pub id: LaneId,
    pub lane_type: LaneType,
    /// Sorted by time.
    pub points: Vec<TrackPosition>,
}

pub ghost struct LaneV {
    pub id: LaneId,
    pub lane_type: LaneType,
    pub points: Seq<TrackPosition>,
}

impl View for Lane {
    type V = LaneV;

    open spec fn view(&self) -> LaneV {
        LaneV { id: self.id, lane_type: self.lane_type, points: self.points@ }
    }
}

/// Non-decreasing time order over a point list.
pub open spec fn points_sorted(s: Seq<TrackPosition>) -> bool {
    forall|i: int, j: int| 0 <= i <= j < s.len() ==> tp_le(#[trigger] s[i].time, #[trigger] s[j].time)
}

/// The index bisection computes on `points[lo..hi)` for the key `t`:
/// `Ok` with a position whose time equals `t`, or `Err` with the insertion
/// index. The recursion mirrors the executable probe sequence exactly, so
/// the result is defined even for unsorted point lists.
pub open spec fn bsearch_spec(points: Seq<TrackPosition>, t: TimingPoint, lo: int, hi: int) -> Result<
    int,
    int,
>
    decreases hi - lo,
{
    if lo >= hi {
        Err(lo)
    } else {
        let mid = lo + (hi - lo) / 2;
        if tp_lt(points[mid].time, t) {
            bsearch_spec(points, t, mid + 1, hi)
        } else if tp_lt(t, points[mid].time) {
            bsearch_spec(points, t, lo, mid)
        } else {
            Ok(mid)
        }
    }
}

/// The bisection result stays within its bounds.
pub proof fn lemma_bsearch_bounds(points: Seq<TrackPosition>, t: TimingPoint, lo: int, hi: int)
    requires
        0 <= lo <= hi <= points.len(),
    ensures
        match bsearch_spec(points, t, lo, hi) {
            Ok(i) => lo <= i < hi,
            Err(i) => lo <= i <= hi,
        },
    decreases hi - lo,
{
    if lo < hi {
        let mid = lo + (hi - lo) / 2;
        if tp_lt(points[mid].time, t) {
            lemma_bsearch_bounds(points, t, mid + 1, hi);
        } else if tp_lt(t, points[mid].time) {
            lemma_bsearch_bounds(points, t, lo, mid);
        }
    }
}

/// On a sorted point list the bisection finds a position with the searched
/// time, or the insertion index that keeps the order.
pub proof fn lemma_bsearch_sorted(points: Seq<TrackPosition>, t: TimingPoint, lo: int, hi: int)
    requires
        points_sorted(points),
        0 <= lo <= hi <= points.len(),
    ensures
        match bsearch_spec(points, t, lo, hi) {
            Ok(i) => lo <= i < hi && points[i].time == t,
            Err(i) => lo <= i <= hi && (forall|j: int|
                lo <= j < i ==> tp_lt(#[trigger] points[j].time, t)) && (forall|j: int|
                i <= j < hi ==> tp_lt(t, #[trigger] points[j].time)),
        },
    decreases hi - lo,
{
    if lo < hi {
        let mid = lo + (hi - lo) / 2;
        if tp_lt(points[mid].time, t) {
            lemma_bsearch_sorted(points, t, mid + 1, hi);
            assert forall|j: int| lo <= j < mid + 1 implies tp_lt(#[trigger] points[j].time, t) by {
                assert(tp_le(points[j].time, points[mid].time));
            }
        } else if tp_lt(t, points[mid].time) {
            lemma_bsearch_sorted(points, t, lo, mid);
            assert forall|j: int| mid <= j < hi implies tp_lt(t, #[trigger] points[j].time) by {
                assert(tp_le(points[mid].time, points[j].time));
            }
        }
    }
}

/// Bisection over `points` by timing key, exactly as the spec describes.
pub fn binary_search_by_time(points: &Vec<TrackPosition>, t: TimingPoint) -> (r: Result<
    usize,
    usize,
>)
    ensures
        match (r, bsearch_spec(points@, t, 0, points@.len() as int)) {
            (Ok(i), Ok(si)) => i == si && i < points@.len(),
            (Err(i), Err(si)) => i == si && i <= points@.len(),
            _ => false,
        },
{
    let mut lo: usize = 0;
    let mut hi: usize = points.len();
    proof {
        lemma_bsearch_bounds(points@, t, 0, points@.len() as int);
    }
    while lo < hi
        invariant
            0 <= lo <= hi <= points@.len(),
            bsearch_spec(points@, t, lo as int, hi as int) == bsearch_spec(
                points@,
                t,
                0,
                points@.len() as int,
            ),
        decreases hi - lo,
    {
        let mid = lo + (hi - lo) / 2;
        let p = points[mid];
        if p.time.lt(&t) {
            lo = mid + 1;
        } else if t.lt(&p.time) {
            hi = mid;
        } else {
            return Ok(mid);
        }
    }
    Err(lo)
}

/// The start index and exactness the interpolation uses for a hold's start
/// time.
pub open spec fn interval_start(points: Seq<TrackPosition>, start: TrackPosition) -> (int, bool) {
    match bsearch_spec(points, start.time, 0, points.len() as int) {
        Ok(i) => (i, true),
        Err(i) => (i, false),
    }
}

/// The end index and exactness the interpolation uses for a hold's end time:
/// a missed search steps back one position (clamped at zero).
pub open spec fn interval_end(points: Seq<TrackPosition>, end: TrackPosition) -> (int, bool) {
    match bsearch_spec(points, end.time, 0, points.len() as int) {
        Ok(i) => (i, true),
        Err(i) => (
            if i > 0 {
                i - 1
            } else {
                i
            },
            false,
        ),
    }
}

/// Whether the interpolation takes its in-range path: the included range of
/// lane points is non-empty and within bounds.
pub open spec fn interval_in_range(
    points: Seq<TrackPosition>,
    start: TrackPosition,
    end: TrackPosition,
) -> bool {
    let (start_index, start_exact) = interval_start(points, start);
    let (end_index, end_exact) = interval_end(points, end);
    start_index <= end_index && end_index < points.len()
}

/// The interpolated point path of a hold against its lane: the lane points
/// of the included range, with the synthetic start prepended when the start
/// time missed and the synthetic end appended when the end time missed.
/// When the range is invalid the path degrades to just the hold's own two
/// endpoints; this lenient fallback is deliberate, to stay compatible with
/// existing chart corpora.
pub open spec fn interval_points(
    points: Seq<TrackPosition>,
    start: TrackPosition,
    end: TrackPosition,
) -> Seq<TrackPosition> {
    let (start_index, start_exact) = interval_start(points, start);
    let (end_index, end_exact) = interval_end(points, end);
    if interval_in_range(points, start, end) {
        let mid = points.subrange(start_index, end_index + 1);
        let with_start = if start_exact {
            mid
        } else {
            seq![start] + mid
        };
        if end_exact {
            with_start
        } else {
            with_start.push(end)
        }
    } else {
        seq![start, end]
    }
}

/// The guard of the in-range path: the produced path must hold at least two
/// points and no duplicate at either splice boundary.
pub open spec fn interval_ok(
    points: Seq<TrackPosition>,
    start: TrackPosition,
    end: TrackPosition,
) -> bool {
    interval_in_range(points, start, end) ==> {
        let r = interval_points(points, start, end);
        r.len() >= 2 && r[0] != r[1] && r[r.len() - 2] != r[r.len() - 1]
    }
}

impl Lane {
    /// Interpolates a hold's time span against this lane's point list.
    ///
    /// Start and end may not explicitly exist within `points`; in that case
    /// the synthetic endpoints are spliced around the included range.
    pub fn create_points_within_time_interval(
        &self,
        start: TrackPosition,
        end: TrackPosition,
    ) -> (r: Result<Vec<TrackPosition>, ParseError>)
        requires
            interval_ok(self.points@, start, end),
        ensures
            match r {
                Ok(v) => v@ == interval_points(self.points@, start, end),
                Err(_) => false,
            },
    {
        let len = self.points.len();
        let (start_index, start_exact) = match binary_search_by_time(&self.points, start.time) {
            Ok(idx) => (idx, true),
            Err(idx) => (idx, false),
        };
        let (end_index, end_exact) = match binary_search_by_time(&self.points, end.time) {
            Ok(idx) => (idx, true),
            Err(idx) => (
                if idx > 0 {
                    idx - 1
                } else {
                    idx
                },
                false,
            ),
        };
        if start_index <= end_index && end_index < len {
            let mut result: Vec<TrackPosition> = Vec::new();
            if !start_exact {
                result.push(start);
            }
            let mut i = start_index;
            while i <= end_index
                invariant
                    start_index <= i <= end_index + 1,
                    end_index < usize::MAX,
                    end_index < self.points@.len(),
                    result@ == (if start_exact {
                        Seq::<TrackPosition>::empty()
                    } else {
                        seq![start]
                    }) + self.points@.subrange(start_index as int, i as int),
                decreases end_index + 1 - i,
            {
                proof {
                    assert(self.points@.subrange(start_index as int, i + 1) =~= self
                        .points@
                        .subrange(start_index as int, i as int)
                        .push(self.points@[i as int]));
                }
                result.push(self.points[i]);
                i = i + 1;
            }
            if !end_exact {
                result.push(end);
            }
            proof {
                if start_exact {
                    assert(Seq::<TrackPosition>::empty() + self.points@.subrange(
                        start_index as int,
                        end_index + 1,
                    ) =~= self.points@.subrange(start_index as int, end_index + 1));
                }
            }
            Ok(result)
        } else {
            // The hold's own endpoints are assumed valid even when the range
            // is not; interior lane geometry is dropped.
            let mut result: Vec<TrackPosition> = Vec::new();
            result.push(start);
            result.push(end);
            proof {
                assert(result@ =~= seq![start, end]);
            }
            Ok(result)
        }
    }
}


/// A bullet palette id: a non-owning key into the palette lookup.
#[derive(Clone, Debug, PartialEq, Eq, Hash)]
pub struct BulletPaletteId(pub String);

impl View for BulletPaletteId {
    type V = Seq<char>;

    open spec fn view(&self) -> Seq<char> {
        self.0@
    }
}

/// A resolved bullet palette. The speed keeps its floating-point literal
/// text.
#[derive(Clone, Debug, PartialEq, Eq, Hash)]
pub struct BulletPalette {
    pub id: BulletPaletteId,
    pub shooter: BulletShooter,
    pub target: BulletTarget,
    pub x_offset: i32,
    pub speed: String,
    pub size: Option<BulletSize>,
    pub bullet_type: Option<BulletType>,
    pub random_position_offset: Option<i32>,
    pub damage_type: Option<BulletDamageType>,
}

pub ghost struct PaletteV {
    pub id: Seq<char>,
    pub shooter: BulletShooter,
    pub target: BulletTarget,
    pub x_offset: i32,
    pub speed: Seq<char>,
    pub size: Option<BulletSize>,
    pub bullet_type: Option<BulletType>,
    pub random_position_offset: Option<i32>,
    pub damage_type: Option<BulletDamageType>,
}

impl View for BulletPalette {
    type V = PaletteV;

    open spec fn view(&self) -> PaletteV {
        PaletteV {
            id: self.id@,
            shooter: self.shooter,
            target: self.target,
            x_offset: self.x_offset,
            speed: self.speed@,
            size: self.size,
            bullet_type: self.bullet_type,
            random_position_offset: self.random_position_offset,
            damage_type: self.damage_type,
        }
    }
}

/// The resolved palette a raw palette command denotes.
pub open spec fn palette_of(p: RawBulletPaletteV) -> PaletteV {
    PaletteV {
        id: p.id,
        shooter: p.shooter,
        target: p.target,
        x_offset: p.target_x_offset,
        speed: p.speed,
        size: p.size,
        bullet_type: p.ty,
        random_position_offset: p.random_position_offset,
        damage_type: p.damage_type,
    }
}

impl BulletPalette {
    pub fn from_raw_palette(palette: RawBulletPalette) -> (r: Self)
        ensures
            r@ == palette_of(palette@),
    {
        Self {
            id: BulletPaletteId(palette.id),
            shooter: palette.shooter,
            target: palette.target,
            x_offset: palette.target_x_offset,
            speed: palette.speed,
            size: palette.size,
            bullet_type: palette.ty,
            random_position_offset: palette.random_position_offset,
            damage_type: palette.damage_type,
        }
    }
}

#[derive(Clone, Copy, Debug, PartialEq, Eq, Hash, Structural)]
pub struct ColorfulLaneId(pub u32);

impl View for ColorfulLaneId {
    type V = ColorfulLaneId;

    open spec fn view(&self) -> ColorfulLaneId {
        *self
    }
}

#[derive(Clone, Copy, Debug, PartialEq, Eq, Hash, Structural)]
pub struct ColorfulLaneColor(pub u32);

impl View for ColorfulLaneColor {
    type V = ColorfulLaneColor;

    open spec fn view(&self) -> ColorfulLaneColor {
        *self
    }
}

/// A resolved colorful-lane point.
#[derive(Clone, Copy, Debug, PartialEq, Eq, Hash, Structural)]
pub struct ColorfulLanePoint {
    pub position: TrackPosition,
    pub color: ColorfulLaneColor,
    pub brightness: u32,
}

impl View for ColorfulLanePoint {
    type V = ColorfulLanePoint;

    open spec fn view(&self) -> ColorfulLanePoint {
        *self
    }
}

/// The resolved point a raw colorful-lane point denotes.
pub open spec fn colorful_point_of(p: RawColorfulLanePoint) -> ColorfulLanePoint {
    ColorfulLanePoint {
        position: track_pos_of_colorful(p),
        color: ColorfulLaneColor(p.color),
        brightness: p.brightness,
    }
}

impl ColorfulLanePoint {
    pub fn from_raw_point(point: RawColorfulLanePoint) -> (r: Self)
        ensures
            r == colorful_point_of(point),
    {
        Self {
            position: TrackPosition::from_command_colorful_lane_point(point),
            color: ColorfulLaneColor(point.color),
            brightness: point.brightness,
        }
    }
}

/// A resolved colorful lane: distinguished endpoints around a middle run.
#[derive(Clone, Debug, PartialEq, Eq, Hash)]
pub struct ColorfulLane {
    pub id: ColorfulLaneId,
    pub start: ColorfulLanePoint,
    pub middle: Vec<ColorfulLanePoint>,
    pub end: ColorfulLanePoint,
}

pub ghost struct ColorfulLaneV {
    pub id: ColorfulLaneId,
    pub start: ColorfulLanePoint,
    pub middle: Seq<ColorfulLanePoint>,
    pub end: ColorfulLanePoint,
}

impl View for ColorfulLane {
    type V = ColorfulLaneV;

    open spec fn view(&self) -> ColorfulLaneV {
        ColorfulLaneV { id: self.id, start: self.start, middle: self.middle@, end: self.end }
    }
}

/// A lane disappearance event.
#[derive(Clone, Copy, Debug, PartialEq, Eq, Hash, Structural)]
pub struct LaneDisappearance {
    pub lane_id: LaneId,
    pub start: TrackPosition,
    pub end: TrackPosition,
}

impl View for LaneDisappearance {
    type V = LaneDisappearance;

    open spec fn view(&self) -> LaneDisappearance {
        *self
    }
}

impl LaneDisappearance {
    pub fn from_lane_event(event: LaneEvent) -> (r: Self)
        ensures
            r == (LaneDisappearance {
                lane_id: LaneId(event.group_id),
                start: track_pos_of(
                    event.start_time,
                    event.start_x_position as int,
                    event.start_x_offset as int,
                ),
                end: track_pos_of(
                    event.end_time,
                    event.end_x_position as int,
                    event.end_x_offset as int,
                ),
            }),
    {
        Self {
            lane_id: LaneId(event.group_id),
            start: TrackPosition::from_command_info(
                event.start_time,
                event.start_x_position,
                event.start_x_offset,
            ),
            end: TrackPosition::from_command_info(
                event.end_time,
                event.end_x_position,
                event.end_x_offset,
            ),
        }
    }
}

/// A lane block event.
#[derive(Clone, Copy, Debug, PartialEq, Eq, Hash, Structural)]
pub struct LaneBlock {
    pub lane_id: LaneId,
    pub start: TrackPosition,
    pub end: TrackPosition,
}

impl View for LaneBlock {
    type V = LaneBlock;

    open spec fn view(&self) -> LaneBlock {
        *self
    }
}

impl LaneBlock {
    pub fn from_lane_event(event: LaneEvent) -> (r: Self)
        ensures
            r == (LaneBlock {
                lane_id: LaneId(event.group_id),
                start: track_pos_of(
                    event.start_time,
                    event.start_x_position as int,
                    event.start_x_offset as int,
                ),
                end: track_pos_of(
                    event.end_time,
                    event.end_x_position as int,
                    event.end_x_offset as int,
                ),
            }),
    {
        Self {
            lane_id: LaneId(event.group_id),
            start: TrackPosition::from_command_info(
                event.start_time,
                event.start_x_position,
                event.start_x_offset,
            ),
            end: TrackPosition::from_command_info(
                event.end_time,
                event.end_x_position,
                event.end_x_offset,
            ),
        }
    }
}

/// A resolved bullet placement.
#[derive(Debug, PartialEq, Eq, Hash)]
pub struct Bullet {
    pub palette_id: BulletPaletteId,
    /// End position of the bullet if the player is not the target.
    pub position: TrackPosition,
    pub damage_type: BulletDamageType,
}

pub ghost struct BulletRV {
    pub palette_id: Seq<char>,
    pub position: TrackPosition,
    pub damage_type: BulletDamageType,
}

impl View for Bullet {
    type V = BulletRV;

    open spec fn view(&self) -> BulletRV {
        BulletRV {
            palette_id: self.palette_id@,
            position: self.position,
            damage_type: self.damage_type,
        }
    }
}

/// The resolved bullet a raw bullet command denotes.
pub open spec fn bullet_of(b: RawBulletV) -> BulletRV {
    BulletRV {
        palette_id: b.pallete_id,
        position: track_pos_of(b.time, b.x_position as int, 0),
        damage_type: b.damage_type,
    }
}

impl Bullet {
    pub fn from_raw_bullet(bullet: RawBullet) -> (r: Self)
        ensures
            r@ == bullet_of(bullet@),
    {
        Self {
            palette_id: BulletPaletteId(bullet.pallete_id),
            position: TrackPosition::from_command_info(bullet.time, bullet.x_position, 0),
            damage_type: bullet.damage_type,
        }
    }
}

#[derive(Clone, Copy, Debug, PartialEq, Eq, Hash, Structural)]
pub struct BeamId(pub u32);

impl View for BeamId {
    type V = BeamId;

    open spec fn view(&self) -> BeamId {
        *self
    }
}

/// A resolved beam point.
#[derive(Clone, Copy, Debug, PartialEq, Eq, Hash, Structural)]
pub struct BeamPoint {
    pub position: TrackPosition,
    pub width: u32,
}

impl View for BeamPoint {
    type V = BeamPoint;

    open spec fn view(&self) -> BeamPoint {
        *self
    }
}

/// The resolved beam point a raw beam point denotes.
pub open spec fn beam_point_of(p: RawBeamPoint) -> BeamPoint {
    BeamPoint { position: track_pos_of(p.time, p.x_position as int, 0), width: p.width }
}

impl BeamPoint {
    pub fn from_raw_point(point: RawBeamPoint) -> (r: Self)
        ensures
            r == beam_point_of(point),
    {
        Self {
            position: TrackPosition::from_command_info(point.time, point.x_position, 0),
            width: point.width,
        }
    }
}

/// A resolved beam.
#[derive(Clone, Debug, PartialEq, Eq, Hash)]
pub struct Beam {
    pub id: BeamId,
    pub start: BeamPoint,
    pub middle: Vec<BeamPoint>,
    pub end: BeamPoint,
}

pub ghost struct BeamV {
    pub id: BeamId,
    pub start: BeamPoint,
    pub middle: Seq<BeamPoint>,
    pub end: BeamPoint,
}

impl View for Beam {
    type V = BeamV;

    open spec fn view(&self) -> BeamV {
        BeamV { id: self.id, start: self.start, middle: self.middle@, end: self.end }
    }
}

#[derive(Clone, Copy, Debug, PartialEq, Eq, Hash, Structural)]
pub struct ObliqueBeamId(pub u32);

impl View for ObliqueBeamId {
    type V = ObliqueBeamId;

    open spec fn view(&self) -> ObliqueBeamId {
        *self
    }
}

/// A resolved oblique beam point.
#[derive(Clone, Copy, Debug, PartialEq, Eq, Hash, Structural)]
pub struct ObliqueBeamPoint {
    pub position: TrackPosition,
    pub width: u32,
    pub shoot_x_offset: i32,
}

impl View for ObliqueBeamPoint {
    type V = ObliqueBeamPoint;

    open spec fn view(&self) -> ObliqueBeamPoint {
        *self
    }
}

/// The resolved point a raw oblique beam point denotes.
pub open spec fn oblique_point_of(p: RawObliqueBeamPoint) -> ObliqueBeamPoint {
    ObliqueBeamPoint {
        position: track_pos_of(p.time, p.x_position as int, 0),
        width: p.width,
        shoot_x_offset: p.shoot_position_x_offset,
    }
}

impl ObliqueBeamPoint {
    pub fn from_raw_point(point: RawObliqueBeamPoint) -> (r: Self)
        ensures
            r == oblique_point_of(point),
    {
        Self {
            position: TrackPosition::from_command_info(point.time, point.x_position, 0),
            width: point.width,
            shoot_x_offset: point.shoot_position_x_offset,
        }
    }
}

/// A resolved oblique beam.
#[derive(Clone, Debug, PartialEq, Eq, Hash)]
pub struct ObliqueBeam {
    pub id: ObliqueBeamId,
    pub start: ObliqueBeamPoint,
    pub middle: Vec<ObliqueBeamPoint>,
    pub end: ObliqueBeamPoint,
}

pub ghost struct ObliqueBeamV {
    pub id: ObliqueBeamId,
    pub start: ObliqueBeamPoint,
    pub middle: Seq<ObliqueBeamPoint>,
    pub end: ObliqueBeamPoint,
}

impl View for ObliqueBeam {
    type V = ObliqueBeamV;

    open spec fn view(&self) -> ObliqueBeamV {
        ObliqueBeamV { id: self.id, start: self.start, middle: self.middle@, end: self.end }
    }
}

/// A resolved bell note.
#[derive(Debug, PartialEq, Eq, Hash)]
pub struct BellNote {
    pub position: TrackPosition,
    pub bullet_palette: Option<BulletPaletteId>,
}

pub ghost struct BellNoteV {
    pub position: TrackPosition,
    pub bullet_palette: Option<Seq<char>>,
}

impl View for BellNote {
    type V = BellNoteV;

    open spec fn view(&self) -> BellNoteV {
        BellNoteV {
            position: self.position,
            bullet_palette: match self.bullet_palette {
                Some(ref id) => Some(id@),
                None => None,
            },
        }
    }
}

impl Clone for BellNote {
    fn clone(&self) -> (r: Self)
        ensures
            r@ == self@,
    {
        Self {
            position: self.position,
            bullet_palette: match self.bullet_palette {
                Some(ref id) => Some(BulletPaletteId(id.0.clone())),
                None => None,
            },
        }
    }
}

/// The resolved bell note a raw bell command denotes.
pub open spec fn bell_note_of(b: RawBellV) -> BellNoteV {
    BellNoteV {
        position: track_pos_of(b.time, b.x_position as int, 0),
        bullet_palette: b.bullet_palette_id,
    }
}

impl BellNote {
    pub fn from_raw_bell(bell: RawBell) -> (r: Self)
        ensures
            r@ == bell_note_of(bell@),
    {
        Self {
            position: TrackPosition::from_command_info(bell.time, bell.x_position, 0),
            bullet_palette: match bell.bullet_palette_id {
                Some(id) => Some(BulletPaletteId(id)),
                None => None,
            },
        }
    }
}

/// A resolved flick note.
#[derive(Clone, Copy, Debug, PartialEq, Eq, Hash, Structural)]
pub struct FlickNote {
    pub position: TrackPosition,
    pub direction: FlickDirection,
    pub is_critical: bool,
}

impl View for FlickNote {
    type V = FlickNote;

    open spec fn view(&self) -> FlickNote {
        *self
    }
}

/// The resolved flick note a raw flick command denotes.
pub open spec fn flick_note_of(f: RawFlick, is_critical: bool) -> FlickNote {
    FlickNote {
        position: track_pos_of(f.time, f.x_position as int, 0),
        direction: f.direction,
        is_critical,
    }
}

impl FlickNote {
    pub fn from_flick(flick: RawFlick, is_critical: bool) -> (r: Self)
        ensures
            r == flick_note_of(flick, is_critical),
    {
        Self {
            position: TrackPosition::from_command_info(flick.time, flick.x_position, 0),
            direction: flick.direction,
            is_critical,
        }
    }
}

/// A resolved tap note, cross-referencing its lane by id.
#[derive(Clone, Copy, Debug, PartialEq, Eq, Hash, Structural)]
pub struct TapNote {
    pub lane_id: LaneId,
    pub lane_type: LaneType,
    pub position: TrackPosition,
    pub is_critical: bool,
}

impl View for TapNote {
    type V = TapNote;

    open spec fn view(&self) -> TapNote {
        *self
    }
}

/// The resolved tap note a raw tap command denotes, once its lane is known.
pub open spec fn tap_note_of(tap: RawTap, lane_type: LaneType, is_critical: bool) -> TapNote {
    TapNote {
        lane_id: LaneId(tap.lane_group_id),
        lane_type,
        position: track_pos_of(tap.time, tap.x_position as int, tap.x_offset as int),
        is_critical,
    }
}

impl TapNote {
    pub fn from_tap(tap: RawTap, lane_type: LaneType, is_critical: bool) -> (r: Self)
        ensures
            r == tap_note_of(tap, lane_type, is_critical),
    {
        Self {
            lane_id: LaneId(tap.lane_group_id),
            lane_type,
            position: TrackPosition::from_command_info(tap.time, tap.x_position, tap.x_offset),
            is_critical,
        }
    }
}

/// The start position a hold command declares.
pub open spec fn hold_start(hold: RawHold) -> TrackPosition {
    track_pos_of(hold.start_time, hold.start_x_position as int, hold.start_x_offset as int)
}

/// The end position a hold command declares.
pub open spec fn hold_end(hold: RawHold) -> TrackPosition {
    track_pos_of(hold.end_time, hold.end_x_position as int, hold.end_x_offset as int)
}

/// A resolved hold note with its interpolated point path.
#[derive(Debug, PartialEq, Eq, Hash)]
pub struct HoldNote {
    pub lane_id: LaneId,
    pub lane_type: LaneType,
    pub start: TrackPosition,
    pub end: TrackPosition,
    /// Includes start and end.
    pub points: Vec<TrackPosition>,
    pub is_critical: bool,
}

pub ghost struct HoldNoteV {
    pub lane_id: LaneId,
    pub lane_type: LaneType,
    pub start: TrackPosition,
    pub end: TrackPosition,
    pub points: Seq<TrackPosition>,
    pub is_critical: bool,
}

impl View for HoldNote {
    type V = HoldNoteV;

    open spec fn view(&self) -> HoldNoteV {
        HoldNoteV {
            lane_id: self.lane_id,
            lane_type: self.lane_type,
            start: self.start,
            end: self.end,
            points: self.points@,
            is_critical: self.is_critical,
        }
    }
}

/// Copies a point list.
fn copy_points(v: &Vec<TrackPosition>) -> (r: Vec<TrackPosition>)
    ensures
        r@ == v@,
{
    let mut r: Vec<TrackPosition> = Vec::new();
    let mut i: usize = 0;
    while i < v.len()
        invariant
            0 <= i <= v@.len(),
            r@ == v@.subrange(0, i as int),
        decreases v@.len() - i,
    {
        proof {
            assert(v@.subrange(0, i + 1) =~= v@.subrange(0, i as int).push(v@[i as int]));
        }
        r.push(v[i]);
        i = i + 1;
    }
    proof {
        assert(v@.subrange(0, v@.len() as int) =~= v@);
    }
    r
}

impl Clone for HoldNote {
    fn clone(&self) -> (r: Self)
        ensures
            r@ == self@,
    {
        Self {
            lane_id: self.lane_id,
            lane_type: self.lane_type,
            start: self.start,
            end: self.end,
            points: copy_points(&self.points),
            is_critical: self.is_critical,
        }
    }
}

/// The resolved hold note a raw hold command denotes against its lane.
pub open spec fn hold_note_of(hold: RawHold, lane: LaneV, is_critical: bool) -> HoldNoteV {
    HoldNoteV {
        lane_id: LaneId(hold.lane_group_id),
        lane_type: lane.lane_type,
        start: hold_start(hold),
        end: hold_end(hold),
        points: interval_points(lane.points, hold_start(hold), hold_end(hold)),
        is_critical,
    }
}

impl HoldNote {
    pub fn from_hold_and_lane(hold: RawHold, lane: &Lane, is_critical: bool) -> (r: Result<
        Self,
        ParseError,
    >)
        requires
            interval_ok(lane.points@, hold_start(hold), hold_end(hold)),
        ensures
            match r {
                Ok(h) => h@ == hold_note_of(hold, lane@, is_critical),
                Err(_) => false,
            },
    {
        let start = TrackPosition::from_command_info(
            hold.start_time,
            hold.start_x_position,
            hold.start_x_offset,
        );
        let end = TrackPosition::from_command_info(
            hold.end_time,
            hold.end_x_position,
            hold.end_x_offset,
        );
        let points = match lane.create_points_within_time_interval(start, end) {
            Ok(p) => p,
            Err(e) => {
                return Err(e);
            },
        };
        Ok(
            Self {
                lane_id: LaneId(hold.lane_group_id),
                lane_type: lane.lane_type,
                start,
                end,
                points,
                is_critical,
            },
        )
    }
}

/// The point lists a wall or lane section resolves into.
pub open spec fn wall_points_of(ps: Seq<WallPoint>) -> Seq<TrackPosition> {
    ps.map_values(|p: WallPoint| track_pos_of_wall(p))
}

pub open spec fn lane_points_of(ps: Seq<LanePoint>) -> Seq<TrackPosition> {
    ps.map_values(|p: LanePoint| track_pos_of_lane(p))
}

/// The lane a wall section resolves into: at least two points are required
/// for interpolation.
pub open spec fn lane_of_wall_section(sec: WallSectionV, lane_type: LaneType) -> Result<
    LaneV,
    ParseErrV,
> {
    if sec.points.len() >= 2 {
        Ok(
            LaneV {
                id: LaneId(sec.group_id),
                lane_type,
                points: wall_points_of(sec.points),
            },
        )
    } else {
        Err(
            ParseErrV::SemanticError(
                "Lane section requires at least 2 points, id "@ + dec_str(sec.group_id as int),
            ),
        )
    }
}

/// The lane a lane section resolves into.
pub open spec fn lane_of_lane_section(sec: LaneSectionV, lane_type: LaneType) -> Result<
    LaneV,
    ParseErrV,
> {
    if sec.points.len() >= 2 {
        Ok(
            LaneV {
                id: LaneId(sec.group_id),
                lane_type,
                points: lane_points_of(sec.points),
            },
        )
    } else {
        Err(
            ParseErrV::SemanticError(
                "Lane section requires at least 2 points, id "@ + dec_str(sec.group_id as int),
            ),
        )
    }
}

impl Lane {
    pub fn from_wall_section(wall_section: WallSection, lane_type: LaneType) -> (r: Result<
        Self,
        ParseError,
    >)
        ensures
            match (r, lane_of_wall_section(wall_section@, lane_type)) {
                (Ok(lane), Ok(lv)) => lane@ == lv,
                (Err(e), Err(ev)) => e@ == ev,
                _ => false,
            },
    {
        if wall_section.points.len() >= 2 {
            let mut points: Vec<TrackPosition> = Vec::new();
            let ghost raw_points = wall_section.points@;
            let mut i: usize = 0;
            while i < wall_section.points.len()
                invariant
                    0 <= i <= raw_points.len(),
                    raw_points == wall_section.points@,
                    points@ == wall_points_of(raw_points.subrange(0, i as int)),
                decreases raw_points.len() - i,
            {
                proof {
                    assert(wall_points_of(raw_points.subrange(0, i + 1)) =~= wall_points_of(
                        raw_points.subrange(0, i as int),
                    ).push(track_pos_of_wall(raw_points[i as int])));
                }
                let p = wall_section.points[i];
                points.push(TrackPosition::from_wall_point(p));
                i = i + 1;
            }
            proof {
                assert(raw_points.subrange(0, raw_points.len() as int) =~= raw_points);
            }
            Ok(Self { id: LaneId(wall_section.group_id), lane_type, points })
        } else {
            Err(
                ParseError::SemanticError(
                    message_with_id(
                        "Lane section requires at least 2 points, id ",
                        wall_section.group_id,
                    ),
                ),
            )
        }
    }

    pub fn from_lane_section(lane_section: LaneSection, lane_type: LaneType) -> (r: Result<
        Self,
        ParseError,
    >)
        ensures
            match (r, lane_of_lane_section(lane_section@, lane_type)) {
                (Ok(lane), Ok(lv)) => lane@ == lv,
                (Err(e), Err(ev)) => e@ == ev,
                _ => false,
            },
    {
        if lane_section.points.len() >= 2 {
            let mut points: Vec<TrackPosition> = Vec::new();
            let ghost raw_points = lane_section.points@;
            let mut i: usize = 0;
            while i < lane_section.points.len()
                invariant
                    0 <= i <= raw_points.len(),
                    raw_points == lane_section.points@,
                    points@ == lane_points_of(raw_points.subrange(0, i as int)),
                decreases raw_points.len() - i,
            {
                proof {
                    assert(lane_points_of(raw_points.subrange(0, i + 1)) =~= lane_points_of(
                        raw_points.subrange(0, i as int),
                    ).push(track_pos_of_lane(raw_points[i as int])));
                }
                let p = lane_section.points[i];
                points.push(TrackPosition::from_lane_point(p));
                i = i + 1;
            }
            proof {
                assert(raw_points.subrange(0, raw_points.len() as int) =~= raw_points);
            }
            Ok(Self { id: LaneId(lane_section.group_id), lane_type, points })
        } else {
            Err(
                ParseError::SemanticError(
                    message_with_id(
                        "Lane section requires at least 2 points, id ",
                        lane_section.group_id,
                    ),
                ),
            )
        }
    }
}


/// Strictly increasing timing keys over an association list: the defining
/// invariant of every ordered index the resolver builds.
pub open spec fn keys_sorted<V>(idx: Seq<(TimingPoint, V)>) -> bool {
    forall|i: int, j: int|
        0 <= i < j < idx.len() ==> tp_lt(#[trigger] idx[i].0, #[trigger] idx[j].0)
}

/// Inserting into an ordered association list, replacing the value when the
/// key is already present (map semantics: the last write wins).
pub open spec fn add_flat<V>(idx: Seq<(TimingPoint, V)>, t: TimingPoint, v: V) -> Seq<
    (TimingPoint, V),
>
    decreases idx.len(),
{
    if idx.len() == 0 {
        seq![(t, v)]
    } else if tp_lt(t, idx[0].0) {
        seq![(t, v)] + idx
    } else if t == idx[0].0 {
        seq![(t, v)] + idx.skip(1)
    } else {
        seq![idx[0]] + add_flat(idx.skip(1), t, v)
    }
}

/// Inserting into an ordered association list whose values are groups,
/// appending to the group when the key is already present.
pub open spec fn add_group<V>(idx: Seq<(TimingPoint, Seq<V>)>, t: TimingPoint, v: V) -> Seq<
    (TimingPoint, Seq<V>),
>
    decreases idx.len(),
{
    if idx.len() == 0 {
        seq![(t, seq![v])]
    } else if tp_lt(t, idx[0].0) {
        seq![(t, seq![v])] + idx
    } else if t == idx[0].0 {
        seq![(idx[0].0, idx[0].1.push(v))] + idx.skip(1)
    } else {
        seq![idx[0]] + add_group(idx.skip(1), t, v)
    }
}

/// Every key of the extended index is the inserted key or one of the old
/// keys, and insertion keeps the strict key order.
pub proof fn lemma_add_flat_sorted<V>(idx: Seq<(TimingPoint, V)>, t: TimingPoint, v: V)
    requires
        keys_sorted(idx),
    ensures
        keys_sorted(add_flat(idx, t, v)),
        forall|m: int|
            0 <= m < add_flat(idx, t, v).len() ==> (#[trigger] add_flat(idx, t, v)[m].0 == t
                || exists|j: int| 0 <= j < idx.len() && #[trigger] idx[j].0 == add_flat(idx, t, v)[m].0),
    decreases idx.len(),
{
    let r = add_flat(idx, t, v);
    if idx.len() == 0 {
    } else if tp_lt(t, idx[0].0) {
        assert forall|i: int, j: int| 0 <= i < j < r.len() implies tp_lt(
            #[trigger] r[i].0,
            #[trigger] r[j].0,
        ) by {
            if i == 0 {
                assert(r[j].0 == idx[j - 1].0);
                if j > 1 {
                    assert(tp_lt(idx[0].0, idx[j - 1].0));
                }
            } else {
                assert(r[i].0 == idx[i - 1].0 && r[j].0 == idx[j - 1].0);
            }
        }
        assert forall|m: int| 0 <= m < r.len() implies (#[trigger] r[m].0 == t || exists|j: int|
            0 <= j < idx.len() && #[trigger] idx[j].0 == r[m].0) by {
            if m > 0 {
                assert(idx[m - 1].0 == r[m].0);
            }
        }
    } else if t == idx[0].0 {
        assert forall|i: int, j: int| 0 <= i < j < r.len() implies tp_lt(
            #[trigger] r[i].0,
            #[trigger] r[j].0,
        ) by {
            if i == 0 {
                assert(r[j].0 == idx[j].0);
                assert(tp_lt(idx[0].0, idx[j].0));
            } else {
                assert(r[i].0 == idx[i].0 && r[j].0 == idx[j].0);
            }
        }
        assert forall|m: int| 0 <= m < r.len() implies (#[trigger] r[m].0 == t || exists|j: int|
            0 <= j < idx.len() && #[trigger] idx[j].0 == r[m].0) by {
            if m > 0 {
                assert(idx[m].0 == r[m].0);
            }
        }
    } else {
        let tail = idx.skip(1);
        assert(keys_sorted(tail)) by {
            assert(forall|i: int, j: int|
                0 <= i < j < tail.len() ==> tp_lt(#[trigger] tail[i].0, #[trigger] tail[j].0)
                    == tp_lt(idx[i + 1].0, idx[j + 1].0));
        }
        lemma_add_flat_sorted(tail, t, v);
        let rt = add_flat(tail, t, v);
        // the head key is below t and below every old tail key
        assert(!tp_lt(t, idx[0].0) && t != idx[0].0);
        assert(tp_lt(idx[0].0, t));
        assert forall|i: int, j: int| 0 <= i < j < r.len() implies tp_lt(
            #[trigger] r[i].0,
            #[trigger] r[j].0,
        ) by {
            if i == 0 {
                assert(r[j].0 == rt[j - 1].0);
                if rt[j - 1].0 == t {
                } else {
                    let w = choose|w: int| 0 <= w < tail.len() && #[trigger] tail[w].0 == rt[j - 1].0;
                    assert(tp_lt(idx[0].0, idx[w + 1].0));
                }
            } else {
                assert(r[i].0 == rt[i - 1].0 && r[j].0 == rt[j - 1].0);
            }
        }
        assert forall|m: int| 0 <= m < r.len() implies (#[trigger] r[m].0 == t || exists|j: int|
            0 <= j < idx.len() && #[trigger] idx[j].0 == r[m].0) by {
            if m == 0 {
                assert(idx[0].0 == r[0].0);
            } else {
                assert(r[m].0 == rt[m - 1].0);
                if rt[m - 1].0 != t {
                    let w = choose|w: int| 0 <= w < tail.len() && #[trigger] tail[w].0 == rt[m - 1].0;
                    assert(idx[w + 1].0 == r[m].0);
                }
            }
        }
    }
}

/// The group variant of `lemma_add_flat_sorted`.
pub proof fn lemma_add_group_sorted<V>(idx: Seq<(TimingPoint, Seq<V>)>, t: TimingPoint, v: V)
    requires
        keys_sorted(idx),
    ensures
        keys_sorted(add_group(idx, t, v)),
        forall|m: int|
            0 <= m < add_group(idx, t, v).len() ==> (#[trigger] add_group(idx, t, v)[m].0 == t
                || exists|j: int|
                0 <= j < idx.len() && #[trigger] idx[j].0 == add_group(idx, t, v)[m].0),
    decreases idx.len(),
{
    let r = add_group(idx, t, v);
    if idx.len() == 0 {
    } else if tp_lt(t, idx[0].0) {
        assert forall|i: int, j: int| 0 <= i < j < r.len() implies tp_lt(
            #[trigger] r[i].0,
            #[trigger] r[j].0,
        ) by {
            if i == 0 {
                assert(r[j].0 == idx[j - 1].0);
                if j > 1 {
                    assert(tp_lt(idx[0].0, idx[j - 1].0));
                }
            } else {
                assert(r[i].0 == idx[i - 1].0 && r[j].0 == idx[j - 1].0);
            }
        }
        assert forall|m: int| 0 <= m < r.len() implies (#[trigger] r[m].0 == t || exists|j: int|
            0 <= j < idx.len() && #[trigger] idx[j].0 == r[m].0) by {
            if m > 0 {
                assert(idx[m - 1].0 == r[m].0);
            }
        }
    } else if t == idx[0].0 {
        assert forall|i: int, j: int| 0 <= i < j < r.len() implies tp_lt(
            #[trigger] r[i].0,
            #[trigger] r[j].0,
        ) by {
            if i == 0 {
                assert(r[j].0 == idx[j].0);
                assert(tp_lt(idx[0].0, idx[j].0));
            } else {
                assert(r[i].0 == idx[i].0 && r[j].0 == idx[j].0);
            }
        }
        assert forall|m: int| 0 <= m < r.len() implies (#[trigger] r[m].0 == t || exists|j: int|
            0 <= j < idx.len() && #[trigger] idx[j].0 == r[m].0) by {
            if m > 0 {
                assert(idx[m].0 == r[m].0);
            }
        }
    } else {
        let tail = idx.skip(1);
        assert(keys_sorted(tail)) by {
            assert(forall|i: int, j: int|
                0 <= i < j < tail.len() ==> tp_lt(#[trigger] tail[i].0, #[trigger] tail[j].0)
                    == tp_lt(idx[i + 1].0, idx[j + 1].0));
        }
        lemma_add_group_sorted(tail, t, v);
        let rt = add_group(tail, t, v);
        assert(tp_lt(idx[0].0, t));
        assert forall|i: int, j: int| 0 <= i < j < r.len() implies tp_lt(
            #[trigger] r[i].0,
            #[trigger] r[j].0,
        ) by {
            if i == 0 {
                assert(r[j].0 == rt[j - 1].0);
                if rt[j - 1].0 == t {
                } else {
                    let w = choose|w: int| 0 <= w < tail.len() && #[trigger] tail[w].0 == rt[j - 1].0;
                    assert(tp_lt(idx[0].0, idx[w + 1].0));
                }
            } else {
                assert(r[i].0 == rt[i - 1].0 && r[j].0 == rt[j - 1].0);
            }
        }
        assert forall|m: int| 0 <= m < r.len() implies (#[trigger] r[m].0 == t || exists|j: int|
            0 <= j < idx.len() && #[trigger] idx[j].0 == r[m].0) by {
            if m == 0 {
                assert(idx[0].0 == r[0].0);
            } else {
                assert(r[m].0 == rt[m - 1].0);
                if rt[m - 1].0 != t {
                    let w = choose|w: int| 0 <= w < tail.len() && #[trigger] tail[w].0 == rt[m - 1].0;
                    assert(idx[w + 1].0 == r[m].0);
                }
            }
        }
    }
}

/// Where the scan for `t` stops, `add_flat` either replaces or inserts.
proof fn lemma_add_flat_at<V>(idx: Seq<(TimingPoint, V)>, t: TimingPoint, v: V, k: int)
    requires
        0 <= k <= idx.len(),
        forall|j: int| 0 <= j < k ==> tp_lt(#[trigger] idx[j].0, t),
        k < idx.len() ==> !tp_lt(idx[k].0, t),
    ensures
        add_flat(idx, t, v) == if k < idx.len() && idx[k].0 == t {
            idx.update(k, (t, v))
        } else {
            idx.insert(k, (t, v))
        },
    decreases idx.len(),
{
    if idx.len() == 0 {
        assert(add_flat(idx, t, v) =~= idx.insert(0, (t, v)));
    } else if k == 0 {
        if tp_lt(t, idx[0].0) {
            assert(seq![(t, v)] + idx =~= idx.insert(0, (t, v)));
        } else {
            assert(idx[0].0 == t);
            assert(seq![(t, v)] + idx.skip(1) =~= idx.update(0, (t, v)));
        }
    } else {
        assert(tp_lt(idx[0].0, t));
        let tail = idx.skip(1);
        assert forall|j: int| 0 <= j < k - 1 implies tp_lt(#[trigger] tail[j].0, t) by {
            assert(tail[j] == idx[j + 1]);
        }
        if k - 1 < tail.len() {
            assert(tail[k - 1] == idx[k]);
        }
        lemma_add_flat_at(tail, t, v, k - 1);
        if k < idx.len() && idx[k].0 == t {
            assert(idx.update(k, (t, v)) =~= seq![idx[0]] + tail.update(k - 1, (t, v)));
        } else {
            assert(idx.insert(k, (t, v)) =~= seq![idx[0]] + tail.insert(k - 1, (t, v)));
        }
    }
}

/// Where the scan for `t` stops, `add_group` either appends in place or
/// inserts a fresh group.
proof fn lemma_add_group_at<V>(idx: Seq<(TimingPoint, Seq<V>)>, t: TimingPoint, v: V, k: int)
    requires
        0 <= k <= idx.len(),
        forall|j: int| 0 <= j < k ==> tp_lt(#[trigger] idx[j].0, t),
        k < idx.len() ==> !tp_lt(idx[k].0, t),
    ensures
        add_group(idx, t, v) == if k < idx.len() && idx[k].0 == t {
            idx.update(k, (idx[k].0, idx[k].1.push(v)))
        } else {
            idx.insert(k, (t, seq![v]))
        },
    decreases idx.len(),
{
    if idx.len() == 0 {
        assert(add_group(idx, t, v) =~= idx.insert(0, (t, seq![v])));
    } else if k == 0 {
        if tp_lt(t, idx[0].0) {
            assert(seq![(t, seq![v])] + idx =~= idx.insert(0, (t, seq![v])));
        } else {
            assert(idx[0].0 == t);
            assert(seq![(idx[0].0, idx[0].1.push(v))] + idx.skip(1) =~= idx.update(
                0,
                (idx[0].0, idx[0].1.push(v)),
            ));
        }
    } else {
        assert(tp_lt(idx[0].0, t));
        let tail = idx.skip(1);
        assert forall|j: int| 0 <= j < k - 1 implies tp_lt(#[trigger] tail[j].0, t) by {
            assert(tail[j] == idx[j + 1]);
        }
        if k - 1 < tail.len() {
            assert(tail[k - 1] == idx[k]);
        }
        lemma_add_group_at(tail, t, v, k - 1);
        if k < idx.len() && idx[k].0 == t {
            assert(idx.update(k, (idx[k].0, idx[k].1.push(v))) =~= seq![idx[0]] + tail.update(
                k - 1,
                (tail[k - 1].0, tail[k - 1].1.push(v)),
            ));
        } else {
            assert(idx.insert(k, (t, seq![v])) =~= seq![idx[0]] + tail.insert(k - 1, (t, seq![v])));
        }
    }
}

/// The spec views of an element sequence and of the two index shapes.
pub open spec fn elem_views<T: View>(s: Seq<T>) -> Seq<T::V> {
    s.map_values(|x: T| x@)
}

pub open spec fn flat_index_view<T: View>(s: Seq<(TimingPoint, T)>) -> Seq<(TimingPoint, T::V)> {
    s.map_values(|e: (TimingPoint, T)| (e.0, e.1@))
}

pub open spec fn group_index_view<T: View>(s: Seq<(TimingPoint, Vec<T>)>) -> Seq<
    (TimingPoint, Seq<T::V>),
> {
    s.map_values(|e: (TimingPoint, Vec<T>)| (e.0, elem_views(e.1@)))
}

/// Inserts `v` under key `t`, replacing an existing entry.
fn upsert_flat<T: View>(idx: &mut Vec<(TimingPoint, T)>, t: TimingPoint, v: T)
    ensures
        flat_index_view(final(idx)@) == add_flat(flat_index_view(old(idx)@), t, v@),
{
    let ghost iv = flat_index_view(idx@);
    let mut k: usize = 0;
    while k < idx.len() && idx[k].0.lt(&t)
        invariant
            0 <= k <= idx@.len(),
            idx@ == old(idx)@,
            forall|j: int| 0 <= j < k ==> tp_lt(#[trigger] idx@[j].0, t),
        decreases idx@.len() - k,
    {
        k = k + 1;
    }
    proof {
        assert forall|j: int| 0 <= j < k implies tp_lt(#[trigger] iv[j].0, t) by {
            assert(iv[j].0 == idx@[j].0);
        }
        if k < idx@.len() {
            assert(iv[k as int].0 == idx@[k as int].0);
        }
    }
    if k < idx.len() && idx[k].0 == t {
        let ghost before = idx@;
        let _ = idx.remove(k);
        idx.insert(k, (t, v));
        proof {
            assert(idx@ =~= before.update(k as int, (t, v)));
            lemma_add_flat_at(iv, t, v@, k as int);
            assert(flat_index_view(before.update(k as int, (t, v))) =~= iv.update(
                k as int,
                (t, v@),
            ));
        }
    } else {
        let ghost before = idx@;
        idx.insert(k, (t, v));
        proof {
            lemma_add_flat_at(iv, t, v@, k as int);
            assert(flat_index_view(before.insert(k as int, (t, v))) =~= iv.insert(
                k as int,
                (t, v@),
            ));
        }
    }
}

/// Appends `v` to the group under key `t`, creating the group if absent.
fn push_group<T: View>(idx: &mut Vec<(TimingPoint, Vec<T>)>, t: TimingPoint, v: T)
    ensures
        group_index_view(final(idx)@) == add_group(group_index_view(old(idx)@), t, v@),
{
    let ghost iv = group_index_view(idx@);
    let mut k: usize = 0;
    while k < idx.len() && idx[k].0.lt(&t)
        invariant
            0 <= k <= idx@.len(),
            idx@ == old(idx)@,
            forall|j: int| 0 <= j < k ==> tp_lt(#[trigger] idx@[j].0, t),
        decreases idx@.len() - k,
    {
        k = k + 1;
    }
    proof {
        assert forall|j: int| 0 <= j < k implies tp_lt(#[trigger] iv[j].0, t) by {
            assert(iv[j].0 == idx@[j].0);
        }
        if k < idx@.len() {
            assert(iv[k as int].0 == idx@[k as int].0);
        }
    }
    if k < idx.len() && idx[k].0 == t {
        let ghost before = idx@;
        let mut entry = idx.remove(k);
        proof {
            assert(elem_views(entry.1@.push(v)) =~= elem_views(entry.1@).push(v@));
        }
        entry.1.push(v);
        idx.insert(k, entry);
        proof {
            assert(idx@ =~= before.update(
                k as int,
                (before[k as int].0, idx@[k as int].1),
            ));
            lemma_add_group_at(iv, t, v@, k as int);
            assert(group_index_view(idx@) =~= iv.update(
                k as int,
                (iv[k as int].0, iv[k as int].1.push(v@)),
            ));
        }
    } else {
        let ghost before = idx@;
        let mut group: Vec<T> = Vec::new();
        group.push(v);
        proof {
            assert(elem_views(group@) =~= seq![v@]);
        }
        idx.insert(k, (t, group));
        proof {
            lemma_add_group_at(iv, t, v@, k as int);
            assert(group_index_view(before.insert(k as int, (t, group))) =~= iv.insert(
                k as int,
                (t, seq![v@]),
            ));
        }
    }
}


/// The colorful lane a section resolves into: distinguished endpoints with
/// the interior points as the middle run.
pub open spec fn colorful_of_section(sec: ColorfulLaneSectionV) -> Result<
    ColorfulLaneV,
    ParseErrV,
> {
    if sec.points.len() >= 2 {
        Ok(
            ColorfulLaneV {
                id: ColorfulLaneId(sec.group_id),
                start: colorful_point_of(sec.points[0]),
                middle: sec.points.subrange(1, sec.points.len() - 1).map_values(
                    |p: RawColorfulLanePoint| colorful_point_of(p),
                ),
                end: colorful_point_of(sec.points[sec.points.len() - 1]),
            },
        )
    } else {
        Err(
            ParseErrV::SemanticError(
                "Colorful lane requires at least 2 points, id "@ + dec_str(sec.group_id as int),
            ),
        )
    }
}

impl ColorfulLane {
    pub fn from_section(lane_section: ColorfulLaneSection) -> (r: Result<Self, ParseError>)
        ensures
            match (r, colorful_of_section(lane_section@)) {
                (Ok(lane), Ok(lv)) => lane@ == lv,
                (Err(e), Err(ev)) => e@ == ev,
                _ => false,
            },
    {
        let n = lane_section.points.len();
        if n >= 2 {
            let ghost raw_points = lane_section.points@;
            let start = ColorfulLanePoint::from_raw_point(lane_section.points[0]);
            let end = ColorfulLanePoint::from_raw_point(lane_section.points[n - 1]);
            let mut middle: Vec<ColorfulLanePoint> = Vec::new();
            let mut i: usize = 1;
            while i < n - 1
                invariant
                    1 <= i <= n - 1,
                    n == raw_points.len(),
                    raw_points == lane_section.points@,
                    middle@ == raw_points.subrange(1, i as int).map_values(
                        |p: RawColorfulLanePoint| colorful_point_of(p),
                    ),
                decreases n - 1 - i,
            {
                proof {
                    assert(raw_points.subrange(1, i + 1) =~= raw_points.subrange(
                        1,
                        i as int,
                    ).push(raw_points[i as int]));
                    assert(raw_points.subrange(1, i + 1).map_values(
                        |p: RawColorfulLanePoint| colorful_point_of(p),
                    ) =~= raw_points.subrange(1, i as int).map_values(
                        |p: RawColorfulLanePoint| colorful_point_of(p),
                    ).push(colorful_point_of(raw_points[i as int])));
                }
                let p = lane_section.points[i];
                middle.push(ColorfulLanePoint::from_raw_point(p));
                i = i + 1;
            }
            Ok(Self { id: ColorfulLaneId(lane_section.group_id), start, middle, end })
        } else {
            Err(
                ParseError::SemanticError(
                    message_with_id(
                        "Colorful lane requires at least 2 points, id ",
                        lane_section.group_id,
                    ),
                ),
            )
        }
    }
}

/// The beam a section resolves into.
pub open spec fn beam_of_section(sec: BeamSectionV) -> Result<BeamV, ParseErrV> {
    if sec.points.len() >= 2 {
        Ok(
            BeamV {
                id: BeamId(sec.record_id),
                start: beam_point_of(sec.points[0]),
                middle: sec.points.subrange(1, sec.points.len() - 1).map_values(
                    |p: RawBeamPoint| beam_point_of(p),
                ),
                end: beam_point_of(sec.points[sec.points.len() - 1]),
            },
        )
    } else {
        Err(
            ParseErrV::SemanticError(
                "Beam section requires at least 2 points, id "@ + dec_str(sec.record_id as int),
            ),
        )
    }
}

impl Beam {
    pub fn from_section(section: BeamSection) -> (r: Result<Self, ParseError>)
        ensures
            match (r, beam_of_section(section@)) {
                (Ok(beam), Ok(bv)) => beam@ == bv,
                (Err(e), Err(ev)) => e@ == ev,
                _ => false,
            },
    {
        let n = section.points.len();
        if n >= 2 {
            let ghost raw_points = section.points@;
            let start = BeamPoint::from_raw_point(section.points[0]);
            let end = BeamPoint::from_raw_point(section.points[n - 1]);
            let mut middle: Vec<BeamPoint> = Vec::new();
            let mut i: usize = 1;
            while i < n - 1
                invariant
                    1 <= i <= n - 1,
                    n == raw_points.len(),
                    raw_points == section.points@,
                    middle@ == raw_points.subrange(1, i as int).map_values(
                        |p: RawBeamPoint| beam_point_of(p),
                    ),
                decreases n - 1 - i,
            {
                proof {
                    assert(raw_points.subrange(1, i + 1) =~= raw_points.subrange(
                        1,
                        i as int,
                    ).push(raw_points[i as int]));
                    assert(raw_points.subrange(1, i + 1).map_values(
                        |p: RawBeamPoint| beam_point_of(p),
                    ) =~= raw_points.subrange(1, i as int).map_values(
                        |p: RawBeamPoint| beam_point_of(p),
                    ).push(beam_point_of(raw_points[i as int])));
                }
                let p = section.points[i];
                middle.push(BeamPoint::from_raw_point(p));
                i = i + 1;
            }
            Ok(Self { id: BeamId(section.record_id), start, middle, end })
        } else {
            Err(
                ParseError::SemanticError(
                    message_with_id(
                        "Beam section requires at least 2 points, id ",
                        section.record_id,
                    ),
                ),
            )
        }
    }
}

/// The oblique beam a section resolves into.
pub open spec fn oblique_of_section(sec: ObliqueBeamSectionV) -> Result<ObliqueBeamV, ParseErrV> {
    if sec.points.len() >= 2 {
        Ok(
            ObliqueBeamV {
                id: ObliqueBeamId(sec.record_id),
                start: oblique_point_of(sec.points[0]),
                middle: sec.points.subrange(1, sec.points.len() - 1).map_values(
                    |p: RawObliqueBeamPoint| oblique_point_of(p),
                ),
                end: oblique_point_of(sec.points[sec.points.len() - 1]),
            },
        )
    } else {
        Err(
            ParseErrV::SemanticError(
                "Oblique beam section requires at least 2 points, id "@ + dec_str(
                    sec.record_id as int,
                ),
            ),
        )
    }
}

impl ObliqueBeam {
    pub fn from_section(section: ObliqueBeamSection) -> (r: Result<Self, ParseError>)
        ensures
            match (r, oblique_of_section(section@)) {
                (Ok(beam), Ok(bv)) => beam@ == bv,
                (Err(e), Err(ev)) => e@ == ev,
                _ => false,
            },
    {
        let n = section.points.len();
        if n >= 2 {
            let ghost raw_points = section.points@;
            let start = ObliqueBeamPoint::from_raw_point(section.points[0]);
            let end = ObliqueBeamPoint::from_raw_point(section.points[n - 1]);
            let mut middle: Vec<ObliqueBeamPoint> = Vec::new();
            let mut i: usize = 1;
            while i < n - 1
                invariant
                    1 <= i <= n - 1,
                    n == raw_points.len(),
                    raw_points == section.points@,
                    middle@ == raw_points.subrange(1, i as int).map_values(
                        |p: RawObliqueBeamPoint| oblique_point_of(p),
                    ),
                decreases n - 1 - i,
            {
                proof {
                    assert(raw_points.subrange(1, i + 1) =~= raw_points.subrange(
                        1,
                        i as int,
                    ).push(raw_points[i as int]));
                    assert(raw_points.subrange(1, i + 1).map_values(
                        |p: RawObliqueBeamPoint| oblique_point_of(p),
                    ) =~= raw_points.subrange(1, i as int).map_values(
                        |p: RawObliqueBeamPoint| oblique_point_of(p),
                    ).push(oblique_point_of(raw_points[i as int])));
                }
                let p = section.points[i];
                middle.push(ObliqueBeamPoint::from_raw_point(p));
                i = i + 1;
            }
            Ok(Self { id: ObliqueBeamId(section.record_id), start, middle, end })
        } else {
            Err(
                ParseError::SemanticError(
                    message_with_id(
                        "Oblique beam section requires at least 2 points, id ",
                        section.record_id,
                    ),
                ),
            )
        }
    }
}

/// A resolved tempo change.
#[derive(Clone, Copy, Debug, PartialEq, Eq, Hash, Structural)]
pub struct BpmChange {
    pub time: TimingPoint,
    pub bpm: u32,
}

impl View for BpmChange {
    type V = BpmChange;

    open spec fn view(&self) -> BpmChange {
        *self
    }
}

pub open spec fn bpm_change_of(b: RawBpmChange) -> BpmChange {
    BpmChange { time: timing_of(b.time), bpm: b.bpm }
}

impl BpmChange {
    pub fn from_raw_change(bpm_change: RawBpmChange) -> (r: Self)
        ensures
            r == bpm_change_of(bpm_change),
    {
        Self {
            time: TimingPoint { measure: bpm_change.time.measure, beat_offset: bpm_change.time.offset },
            bpm: bpm_change.bpm,
        }
    }
}

/// A resolved time-signature change.
#[derive(Clone, Copy, Debug, PartialEq, Eq, Hash, Structural)]
pub struct MeterChange {
    pub time: TimingPoint,
    /// Time signature numerator.
    pub num_beats: u32,
    /// Time signature denominator.
    pub note_value: u32,
}

impl View for MeterChange {
    type V = MeterChange;

    open spec fn view(&self) -> MeterChange {
        *self
    }
}

pub open spec fn meter_change_of(m: RawMeterChange) -> MeterChange {
    MeterChange { time: timing_of(m.time), num_beats: m.num_beats, note_value: m.note_value }
}

impl MeterChange {
    pub fn from_raw_change(meter_change: RawMeterChange) -> (r: Self)
        ensures
            r == meter_change_of(meter_change),
    {
        Self {
            time: TimingPoint {
                measure: meter_change.time.measure,
                beat_offset: meter_change.time.offset,
            },
            num_beats: meter_change.num_beats,
            note_value: meter_change.note_value,
        }
    }
}

/// A resolved scroll-speed event; the multiplier keeps its floating-point
/// literal text.
#[derive(Clone, Debug, PartialEq, Eq, Hash)]
pub struct Soflan {
    pub time: TimingPoint,
    pub duration: u32,
    pub speed_multiplier: String,
}

pub ghost struct SoflanRV {
    pub time: TimingPoint,
    pub duration: u32,
    pub speed_multiplier: Seq<char>,
}

impl View for Soflan {
    type V = SoflanRV;

    open spec fn view(&self) -> SoflanRV {
        SoflanRV {
            time: self.time,
            duration: self.duration,
            speed_multiplier: self.speed_multiplier@,
        }
    }
}

pub open spec fn soflan_of(s: RawSoflanV) -> SoflanRV {
    SoflanRV {
        time: timing_of(s.time),
        duration: s.duration,
        speed_multiplier: s.current_speed_multiplier,
    }
}

impl Soflan {
    pub fn from_raw_soflan(soflan: RawSoflan) -> (r: Self)
        ensures
            r@ == soflan_of(soflan@),
    {
        Self {
            time: TimingPoint { measure: soflan.time.measure, beat_offset: soflan.time.offset },
            duration: soflan.duration,
            speed_multiplier: soflan.current_speed_multiplier,
        }
    }
}

/// The tempo-change index a raw change list folds into, keyed by time with
/// the last write winning.
pub open spec fn bpm_index_steps(
    idx: Seq<(TimingPoint, BpmChange)>,
    changes: Seq<RawBpmChange>,
) -> Seq<(TimingPoint, BpmChange)>
    decreases changes.len(),
{
    if changes.len() == 0 {
        idx
    } else {
        bpm_index_steps(
            add_flat(idx, timing_of(changes[0].time), bpm_change_of(changes[0])),
            changes.skip(1),
        )
    }
}

pub open spec fn meter_index_steps(
    idx: Seq<(TimingPoint, MeterChange)>,
    changes: Seq<RawMeterChange>,
) -> Seq<(TimingPoint, MeterChange)>
    decreases changes.len(),
{
    if changes.len() == 0 {
        idx
    } else {
        meter_index_steps(
            add_flat(idx, timing_of(changes[0].time), meter_change_of(changes[0])),
            changes.skip(1),
        )
    }
}

pub open spec fn soflan_index_steps(
    idx: Seq<(TimingPoint, SoflanRV)>,
    soflans: Seq<RawSoflanV>,
) -> Seq<(TimingPoint, SoflanRV)>
    decreases soflans.len(),
{
    if soflans.len() == 0 {
        idx
    } else {
        soflan_index_steps(
            add_flat(idx, timing_of(soflans[0].time), soflan_of(soflans[0])),
            soflans.skip(1),
        )
    }
}

/// The resolved composition: each event list becomes an ordered map keyed by
/// timing point.
#[derive(Clone, Debug, PartialEq, Eq, Hash)]
pub struct Composition {
    pub bpm_changes: Vec<(TimingPoint, BpmChange)>,
    pub meter_changes: Vec<(TimingPoint, MeterChange)>,
    pub soflans: Vec<(TimingPoint, Soflan)>,
}

pub ghost struct CompositionV {
    pub bpm_changes: Seq<(TimingPoint, BpmChange)>,
    pub meter_changes: Seq<(TimingPoint, MeterChange)>,
    pub soflans: Seq<(TimingPoint, SoflanRV)>,
}

impl View for Composition {
    type V = CompositionV;

    open spec fn view(&self) -> CompositionV {
        CompositionV {
            bpm_changes: flat_index_view(self.bpm_changes@),
            meter_changes: flat_index_view(self.meter_changes@),
            soflans: flat_index_view(self.soflans@),
        }
    }
}

/// The composition the raw event lists resolve into.
pub open spec fn composition_of_raw(raw: RawCompositionV) -> CompositionV {
    CompositionV {
        bpm_changes: bpm_index_steps(Seq::empty(), raw.bpm_changes),
        meter_changes: meter_index_steps(Seq::empty(), raw.meter_changes),
        soflans: soflan_index_steps(Seq::empty(), raw.soflans),
    }
}

impl Composition {
    pub fn from_raw(raw: RawComposition) -> (r: Self)
        ensures
            r@ == composition_of_raw(raw@),
    {
        let mut bpm_changes: Vec<(TimingPoint, BpmChange)> = Vec::new();
        let mut rest = raw.bpm_changes;
        proof {
            assert(flat_index_view(bpm_changes@) =~= Seq::<(TimingPoint, BpmChange)>::empty());
        }
        while rest.len() > 0
            invariant
                bpm_index_steps(flat_index_view(bpm_changes@), rest@) == bpm_index_steps(
                    Seq::empty(),
                    raw.bpm_changes@,
                ),
            decreases rest@.len(),
        {
            let c = rest.remove(0);
            let rc = BpmChange::from_raw_change(c);
            upsert_flat(&mut bpm_changes, rc.time, rc);
        }
        let mut meter_changes: Vec<(TimingPoint, MeterChange)> = Vec::new();
        let mut rest = raw.meter_changes;
        proof {
            assert(flat_index_view(meter_changes@) =~= Seq::<(TimingPoint, MeterChange)>::empty());
        }
        while rest.len() > 0
            invariant
                meter_index_steps(flat_index_view(meter_changes@), rest@) == meter_index_steps(
                    Seq::empty(),
                    raw.meter_changes@,
                ),
            decreases rest@.len(),
        {
            let c = rest.remove(0);
            let rc = MeterChange::from_raw_change(c);
            upsert_flat(&mut meter_changes, rc.time, rc);
        }
        let mut soflans: Vec<(TimingPoint, Soflan)> = Vec::new();
        let mut rest = raw.soflans;
        let ghost all_soflans = soflan_views(rest@);
        proof {
            assert(flat_index_view(soflans@) =~= Seq::<(TimingPoint, SoflanRV)>::empty());
        }
        while rest.len() > 0
            invariant
                soflan_index_steps(flat_index_view(soflans@), soflan_views(rest@))
                    == soflan_index_steps(Seq::empty(), all_soflans),
            decreases rest@.len(),
        {
            proof {
                assert(soflan_views(rest@)[0] == rest@[0]@);
                assert(soflan_views(rest@.remove(0)) =~= soflan_views(rest@).skip(1));
            }
            let c = rest.remove(0);
            let rc = Soflan::from_raw_soflan(c);
            let t = rc.time;
            upsert_flat(&mut soflans, t, rc);
        }
        Self { bpm_changes, meter_changes, soflans }
    }
}

/// A resolved click sound.
#[derive(Clone, Copy, Debug, PartialEq, Eq, Hash, Structural)]
pub struct ClickSound {
    pub time: TimingPoint,
}

impl View for ClickSound {
    type V = ClickSound;

    open spec fn view(&self) -> ClickSound {
        *self
    }
}

pub open spec fn click_sound_of(c: RawClickSound) -> ClickSound {
    ClickSound { time: timing_of(c.time) }
}

impl ClickSound {
    pub fn from_raw_click(click_sound: RawClickSound) -> (r: Self)
        ensures
            r == click_sound_of(click_sound),
    {
        Self {
            time: TimingPoint {
                measure: click_sound.time.measure,
                beat_offset: click_sound.time.offset,
            },
        }
    }
}


/// Whether a lane with the given id was already resolved.
pub open spec fn lane_has_id(lanes: Seq<LaneV>, id: LaneId) -> bool {
    exists|i: int| 0 <= i < lanes.len() && (#[trigger] lanes[i]).id == id
}

/// The first resolved lane carrying the given id.
pub open spec fn lane_lookup(lanes: Seq<LaneV>, id: LaneId) -> Option<LaneV>
    decreases lanes.len(),
{
    if lanes.len() == 0 {
        None
    } else if lanes[0].id == id {
        Some(lanes[0])
    } else {
        lane_lookup(lanes.skip(1), id)
    }
}

/// Resolving a run of lane sections, keeping the first occurrence of each
/// id; a later duplicate is a recoverable anomaly, not an error.
pub open spec fn lanes_data_steps(
    acc: Seq<LaneV>,
    secs: Seq<LaneSectionV>,
    lane_type: LaneType,
) -> Result<Seq<LaneV>, ParseErrV>
    decreases secs.len(),
{
    if secs.len() == 0 {
        Ok(acc)
    } else {
        match lane_of_lane_section(secs[0], lane_type) {
            Ok(lane) => lanes_data_steps(
                if lane_has_id(acc, lane.id) {
                    acc
                } else {
                    acc.push(lane)
                },
                secs.skip(1),
                lane_type,
            ),
            Err(e) => Err(e),
        }
    }
}

/// Resolving a run of wall sections, keeping the first occurrence of each
/// id.
pub open spec fn walls_data_steps(
    acc: Seq<LaneV>,
    secs: Seq<WallSectionV>,
    lane_type: LaneType,
) -> Result<Seq<LaneV>, ParseErrV>
    decreases secs.len(),
{
    if secs.len() == 0 {
        Ok(acc)
    } else {
        match lane_of_wall_section(secs[0], lane_type) {
            Ok(lane) => walls_data_steps(
                if lane_has_id(acc, lane.id) {
                    acc
                } else {
                    acc.push(lane)
                },
                secs.skip(1),
                lane_type,
            ),
            Err(e) => Err(e),
        }
    }
}

/// The grouped first-point-time index over resolved lanes.
pub open spec fn lanes_group_index(
    idx: Seq<(TimingPoint, Seq<LaneId>)>,
    lanes: Seq<LaneV>,
) -> Seq<(TimingPoint, Seq<LaneId>)>
    decreases lanes.len(),
{
    if lanes.len() == 0 {
        idx
    } else {
        lanes_group_index(add_group(idx, lanes[0].points[0].time, lanes[0].id), lanes.skip(1))
    }
}

/// The flat first-point-time index over resolved walls.
pub open spec fn lanes_flat_index(
    idx: Seq<(TimingPoint, LaneId)>,
    lanes: Seq<LaneV>,
) -> Seq<(TimingPoint, LaneId)>
    decreases lanes.len(),
{
    if lanes.len() == 0 {
        idx
    } else {
        lanes_flat_index(add_flat(idx, lanes[0].points[0].time, lanes[0].id), lanes.skip(1))
    }
}

/// Lanes resolved later never displace an earlier lane with the same id.
pub open spec fn merge_lanes(acc: Seq<LaneV>, more: Seq<LaneV>) -> Seq<LaneV>
    decreases more.len(),
{
    if more.len() == 0 {
        acc
    } else {
        merge_lanes(
            if lane_has_id(acc, more[0].id) {
                acc
            } else {
                acc.push(more[0])
            },
            more.skip(1),
        )
    }
}

pub open spec fn colorful_has_id(lanes: Seq<ColorfulLaneV>, id: ColorfulLaneId) -> bool {
    exists|i: int| 0 <= i < lanes.len() && (#[trigger] lanes[i]).id == id
}

pub open spec fn colorful_data_steps(
    acc: Seq<ColorfulLaneV>,
    secs: Seq<ColorfulLaneSectionV>,
) -> Result<Seq<ColorfulLaneV>, ParseErrV>
    decreases secs.len(),
{
    if secs.len() == 0 {
        Ok(acc)
    } else {
        match colorful_of_section(secs[0]) {
            Ok(lane) => colorful_data_steps(
                if colorful_has_id(acc, lane.id) {
                    acc
                } else {
                    acc.push(lane)
                },
                secs.skip(1),
            ),
            Err(e) => Err(e),
        }
    }
}

pub open spec fn colorful_index(
    idx: Seq<(TimingPoint, ColorfulLaneId)>,
    lanes: Seq<ColorfulLaneV>,
) -> Seq<(TimingPoint, ColorfulLaneId)>
    decreases lanes.len(),
{
    if lanes.len() == 0 {
        idx
    } else {
        colorful_index(add_flat(idx, lanes[0].start.position.time, lanes[0].id), lanes.skip(1))
    }
}

pub open spec fn beam_has_id(beams: Seq<BeamV>, id: BeamId) -> bool {
    exists|i: int| 0 <= i < beams.len() && (#[trigger] beams[i]).id == id
}

pub open spec fn beams_data_steps(acc: Seq<BeamV>, secs: Seq<BeamSectionV>) -> Result<
    Seq<BeamV>,
    ParseErrV,
>
    decreases secs.len(),
{
    if secs.len() == 0 {
        Ok(acc)
    } else {
        match beam_of_section(secs[0]) {
            Ok(beam) => beams_data_steps(
                if beam_has_id(acc, beam.id) {
                    acc
                } else {
                    acc.push(beam)
                },
                secs.skip(1),
            ),
            Err(e) => Err(e),
        }
    }
}

pub open spec fn beams_index(idx: Seq<(TimingPoint, BeamId)>, beams: Seq<BeamV>) -> Seq<
    (TimingPoint, BeamId),
>
    decreases beams.len(),
{
    if beams.len() == 0 {
        idx
    } else {
        beams_index(add_flat(idx, beams[0].start.position.time, beams[0].id), beams.skip(1))
    }
}

pub open spec fn oblique_has_id(beams: Seq<ObliqueBeamV>, id: ObliqueBeamId) -> bool {
    exists|i: int| 0 <= i < beams.len() && (#[trigger] beams[i]).id == id
}

pub open spec fn obliques_data_steps(
    acc: Seq<ObliqueBeamV>,
    secs: Seq<ObliqueBeamSectionV>,
) -> Result<Seq<ObliqueBeamV>, ParseErrV>
    decreases secs.len(),
{
    if secs.len() == 0 {
        Ok(acc)
    } else {
        match oblique_of_section(secs[0]) {
            Ok(beam) => obliques_data_steps(
                if oblique_has_id(acc, beam.id) {
                    acc
                } else {
                    acc.push(beam)
                },
                secs.skip(1),
            ),
            Err(e) => Err(e),
        }
    }
}

pub open spec fn obliques_index(
    idx: Seq<(TimingPoint, ObliqueBeamId)>,
    beams: Seq<ObliqueBeamV>,
) -> Seq<(TimingPoint, ObliqueBeamId)>
    decreases beams.len(),
{
    if beams.len() == 0 {
        idx
    } else {
        obliques_index(add_flat(idx, beams[0].start.position.time, beams[0].id), beams.skip(1))
    }
}

/// The resolved track: every entity keyed by id, plus an ordered
/// first-timing-key index per category.
#[derive(Clone, Debug, PartialEq, Eq, Hash)]
pub struct Track {
    pub lanes_left: Vec<(TimingPoint, Vec<LaneId>)>,
    pub lanes_center: Vec<(TimingPoint, Vec<LaneId>)>,
    pub lanes_right: Vec<(TimingPoint, Vec<LaneId>)>,
    pub colorful_lanes: Vec<(TimingPoint, ColorfulLaneId)>,
    pub walls_left: Vec<(TimingPoint, LaneId)>,
    pub walls_right: Vec<(TimingPoint, LaneId)>,
    pub enemy_lanes: Vec<(TimingPoint, Vec<LaneId>)>,
    pub beams: Vec<(TimingPoint, BeamId)>,
    pub oblique_beams: Vec<(TimingPoint, ObliqueBeamId)>,
    pub lanes_data: Vec<Lane>,
    pub colorful_lanes_data: Vec<ColorfulLane>,
    pub beams_data: Vec<Beam>,
    pub oblique_beams_data: Vec<ObliqueBeam>,
}

pub ghost struct TrackV {
    pub lanes_left: Seq<(TimingPoint, Seq<LaneId>)>,
    pub lanes_center: Seq<(TimingPoint, Seq<LaneId>)>,
    pub lanes_right: Seq<(TimingPoint, Seq<LaneId>)>,
    pub colorful_lanes: Seq<(TimingPoint, ColorfulLaneId)>,
    pub walls_left: Seq<(TimingPoint, LaneId)>,
    pub walls_right: Seq<(TimingPoint, LaneId)>,
    pub enemy_lanes: Seq<(TimingPoint, Seq<LaneId>)>,
    pub beams: Seq<(TimingPoint, BeamId)>,
    pub oblique_beams: Seq<(TimingPoint, ObliqueBeamId)>,
    pub lanes_data: Seq<LaneV>,
    pub colorful_lanes_data: Seq<ColorfulLaneV>,
    pub beams_data: Seq<BeamV>,
    pub oblique_beams_data: Seq<ObliqueBeamV>,
}

impl View for Track {
    type V = TrackV;

    open spec fn view(&self) -> TrackV {
        TrackV {
            lanes_left: group_index_view(self.lanes_left@),
            lanes_center: group_index_view(self.lanes_center@),
            lanes_right: group_index_view(self.lanes_right@),
            colorful_lanes: flat_index_view(self.colorful_lanes@),
            walls_left: flat_index_view(self.walls_left@),
            walls_right: flat_index_view(self.walls_right@),
            enemy_lanes: group_index_view(self.enemy_lanes@),
            beams: flat_index_view(self.beams@),
            oblique_beams: flat_index_view(self.oblique_beams@),
            lanes_data: elem_views(self.lanes_data@),
            colorful_lanes_data: elem_views(self.colorful_lanes_data@),
            beams_data: elem_views(self.beams_data@),
            oblique_beams_data: elem_views(self.oblique_beams_data@),
        }
    }
}

/// The resolved track the raw track denotes: lanes first, walls, then
/// colorful lanes and beams, with the unified lane lookup merged in
/// category order.
pub open spec fn track_of_raw(raw: RawTrackV) -> Result<TrackV, ParseErrV> {
    match lanes_data_steps(Seq::empty(), raw.lanes_left, LaneType::Left) {
        Err(e) => Err(e),
        Ok(ll) => match lanes_data_steps(Seq::empty(), raw.lanes_center, LaneType::Center) {
            Err(e) => Err(e),
            Ok(lc) => match lanes_data_steps(Seq::empty(), raw.lanes_right, LaneType::Right) {
                Err(e) => Err(e),
                Ok(lr) => match lanes_data_steps(Seq::empty(), raw.enemy_lanes, LaneType::Enemy) {
                    Err(e) => Err(e),
                    Ok(en) => match walls_data_steps(
                        Seq::empty(),
                        raw.walls_left,
                        LaneType::WallLeft,
                    ) {
                        Err(e) => Err(e),
                        Ok(wl) => match walls_data_steps(
                            Seq::empty(),
                            raw.walls_right,
                            LaneType::WallRight,
                        ) {
                            Err(e) => Err(e),
                            Ok(wr) => match colorful_data_steps(
                                Seq::empty(),
                                raw.colorful_lanes,
                            ) {
                                Err(e) => Err(e),
                                Ok(cl) => match beams_data_steps(Seq::empty(), raw.beams) {
                                    Err(e) => Err(e),
                                    Ok(bm) => match obliques_data_steps(
                                        Seq::empty(),
                                        raw.oblique_beams,
                                    ) {
                                        Err(e) => Err(e),
                                        Ok(ob) => Ok(
                                            TrackV {
                                                lanes_left: lanes_group_index(Seq::empty(), ll),
                                                lanes_center: lanes_group_index(Seq::empty(), lc),
                                                lanes_right: lanes_group_index(Seq::empty(), lr),
                                                colorful_lanes: colorful_index(Seq::empty(), cl),
                                                walls_left: lanes_flat_index(Seq::empty(), wl),
                                                walls_right: lanes_flat_index(Seq::empty(), wr),
                                                enemy_lanes: lanes_group_index(Seq::empty(), en),
                                                beams: beams_index(Seq::empty(), bm),
                                                oblique_beams: obliques_index(Seq::empty(), ob),
                                                lanes_data: merge_lanes(
                                                    merge_lanes(
                                                        merge_lanes(
                                                            merge_lanes(
                                                                merge_lanes(ll, lc),
                                                                lr,
                                                            ),
                                                            en,
                                                        ),
                                                        wl,
                                                    ),
                                                    wr,
                                                ),
                                                colorful_lanes_data: cl,
                                                beams_data: bm,
                                                oblique_beams_data: ob,
                                            },
                                        ),
                                    },
                                },
                            },
                        },
                    },
                },
            },
        },
    }
}

/// Decides `lane_has_id` over resolved lanes.
fn contains_lane_id(data: &Vec<Lane>, id: LaneId) -> (r: bool)
    ensures
        r == lane_has_id(elem_views(data@), id),
{
    let mut i: usize = 0;
    while i < data.len()
        invariant
            0 <= i <= data@.len(),
            forall|j: int| 0 <= j < i ==> (#[trigger] elem_views(data@)[j]).id != id,
        decreases data@.len() - i,
    {
        proof {
            assert(elem_views(data@)[i as int] == data@[i as int]@);
        }
        if data[i].id.0 == id.0 {
            proof {
                assert((elem_views(data@)[i as int]).id == id);
            }
            return true;
        }
        i = i + 1;
    }
    false
}

impl Track {
    /// Looks up the first resolved lane carrying the given id.
    pub fn get_lane(&self, id: LaneId) -> (r: Option<&Lane>)
        ensures
            match (r, lane_lookup(elem_views(self.lanes_data@), id)) {
                (Some(l), Some(lv)) => l@ == lv,
                (None, None) => true,
                _ => false,
            },
    {
        let ghost lanes = elem_views(self.lanes_data@);
        let mut i: usize = 0;
        proof {
            assert(lanes.skip(0) =~= lanes);
        }
        while i < self.lanes_data.len()
            invariant
                0 <= i <= lanes.len(),
                lanes == elem_views(self.lanes_data@),
                lane_lookup(lanes, id) == lane_lookup(lanes.skip(i as int), id),
            decreases lanes.len() - i,
        {
            proof {
                assert(lanes.skip(i as int)[0] == lanes[i as int]);
                assert(lanes[i as int] == self.lanes_data@[i as int]@);
                assert(lanes.skip(i as int).skip(1) =~= lanes.skip(i + 1));
            }
            if self.lanes_data[i].id.0 == id.0 {
                return Some(&self.lanes_data[i]);
            }
            i = i + 1;
        }
        proof {
            assert(lanes.skip(lanes.len() as int) =~= Seq::<LaneV>::empty());
        }
        None
    }

    fn map_lanes(lanes: Vec<LaneSection>, lane_type: LaneType) -> (r: Result<
        (Vec<(TimingPoint, Vec<LaneId>)>, Vec<Lane>),
        ParseError,
    >)
        ensures
            match (r, lanes_data_steps(Seq::empty(), lane_section_views(lanes@), lane_type)) {
                (Ok((idx, data)), Ok(dv)) => elem_views(data@) == dv && group_index_view(idx@)
                    == lanes_group_index(Seq::empty(), dv),
                (Err(e), Err(ev)) => e@ == ev,
                _ => false,
            },
    {
        let ghost all = lane_section_views(lanes@);
        let mut data: Vec<Lane> = Vec::new();
        let mut rest = lanes;
        proof {
            assert(elem_views(data@) =~= Seq::<LaneV>::empty());
        }
        while rest.len() > 0
            invariant
                lanes_data_steps(elem_views(data@), lane_section_views(rest@), lane_type)
                    == lanes_data_steps(Seq::empty(), lane_section_views(lanes@), lane_type),
                forall|j: int|
                    0 <= j < data@.len() ==> (#[trigger] elem_views(data@)[j]).points.len() >= 2,
            decreases rest@.len(),
        {
            proof {
                assert(lane_section_views(rest@)[0] == rest@[0]@);
                assert(lane_section_views(rest@.remove(0)) =~= lane_section_views(rest@).skip(1));
            }
            let sec = rest.remove(0);
            match Lane::from_lane_section(sec, lane_type) {
                Ok(lane) => {
                    if !contains_lane_id(&data, lane.id) {
                        proof {
                            assert(elem_views(data@.push(lane)) =~= elem_views(data@).push(lane@));
                        }
                        data.push(lane);
                    }
                },
                Err(e) => {
                    return Err(e);
                },
            }
        }
        let ghost dv = elem_views(data@);
        let mut idx: Vec<(TimingPoint, Vec<LaneId>)> = Vec::new();
        let mut i: usize = 0;
        proof {
            assert(group_index_view(idx@) =~= Seq::<(TimingPoint, Seq<LaneId>)>::empty());
            assert(dv.skip(0) =~= dv);
        }
        while i < data.len()
            invariant
                0 <= i <= dv.len(),
                dv == elem_views(data@),
                forall|j: int| 0 <= j < dv.len() ==> (#[trigger] dv[j]).points.len() >= 2,
                lanes_group_index(group_index_view(idx@), dv.skip(i as int)) == lanes_group_index(
                    Seq::empty(),
                    dv,
                ),
            decreases dv.len() - i,
        {
            proof {
                assert(dv.skip(i as int)[0] == dv[i as int]);
                assert(dv[i as int] == data@[i as int]@);
                assert(dv.skip(i as int).skip(1) =~= dv.skip(i + 1));
            }
            let t = data[i].points[0].time;
            let id = data[i].id;
            push_group(&mut idx, t, id);
            i = i + 1;
        }
        proof {
            assert(dv.skip(dv.len() as int) =~= Seq::<LaneV>::empty());
        }
        Ok((idx, data))
    }

    fn map_walls(walls: Vec<WallSection>, lane_type: LaneType) -> (r: Result<
        (Vec<(TimingPoint, LaneId)>, Vec<Lane>),
        ParseError,
    >)
        ensures
            match (r, walls_data_steps(Seq::empty(), wall_section_views(walls@), lane_type)) {
                (Ok((idx, data)), Ok(dv)) => elem_views(data@) == dv && flat_index_view(idx@)
                    == lanes_flat_index(Seq::empty(), dv),
                (Err(e), Err(ev)) => e@ == ev,
                _ => false,
            },
    {
        let ghost all = wall_section_views(walls@);
        let mut data: Vec<Lane> = Vec::new();
        let mut rest = walls;
        proof {
            assert(elem_views(data@) =~= Seq::<LaneV>::empty());
        }
        while rest.len() > 0
            invariant
                walls_data_steps(elem_views(data@), wall_section_views(rest@), lane_type)
                    == walls_data_steps(Seq::empty(), wall_section_views(walls@), lane_type),
                forall|j: int|
                    0 <= j < data@.len() ==> (#[trigger] elem_views(data@)[j]).points.len() >= 2,
            decreases rest@.len(),
        {
            proof {
                assert(wall_section_views(rest@)[0] == rest@[0]@);
                assert(wall_section_views(rest@.remove(0)) =~= wall_section_views(rest@).skip(1));
            }
            let sec = rest.remove(0);
            match Lane::from_wall_section(sec, lane_type) {
                Ok(lane) => {
                    if !contains_lane_id(&data, lane.id) {
                        proof {
                            assert(elem_views(data@.push(lane)) =~= elem_views(data@).push(lane@));
                        }
                        data.push(lane);
                    }
                },
                Err(e) => {
                    return Err(e);
                },
            }
        }
        let ghost dv = elem_views(data@);
        let mut idx: Vec<(TimingPoint, LaneId)> = Vec::new();
        let mut i: usize = 0;
        proof {
            assert(flat_index_view(idx@) =~= Seq::<(TimingPoint, LaneId)>::empty());
            assert(dv.skip(0) =~= dv);
        }
        while i < data.len()
            invariant
                0 <= i <= dv.len(),
                dv == elem_views(data@),
                forall|j: int| 0 <= j < dv.len() ==> (#[trigger] dv[j]).points.len() >= 2,
                lanes_flat_index(flat_index_view(idx@), dv.skip(i as int)) == lanes_flat_index(
                    Seq::empty(),
                    dv,
                ),
            decreases dv.len() - i,
        {
            proof {
                assert(dv.skip(i as int)[0] == dv[i as int]);
                assert(dv[i as int] == data@[i as int]@);
                assert(dv.skip(i as int).skip(1) =~= dv.skip(i + 1));
            }
            let t = data[i].points[0].time;
            let id = data[i].id;
            upsert_flat(&mut idx, t, id);
            i = i + 1;
        }
        proof {
            assert(dv.skip(dv.len() as int) =~= Seq::<LaneV>::empty());
        }
        Ok((idx, data))
    }

    fn map_colorful_lanes(lanes: Vec<ColorfulLaneSection>) -> (r: Result<
        (Vec<(TimingPoint, ColorfulLaneId)>, Vec<ColorfulLane>),
        ParseError,
    >)
        ensures
            match (r, colorful_data_steps(Seq::empty(), colorful_section_views(lanes@))) {
                (Ok((idx, data)), Ok(dv)) => elem_views(data@) == dv && flat_index_view(idx@)
                    == colorful_index(Seq::empty(), dv),
                (Err(e), Err(ev)) => e@ == ev,
                _ => false,
            },
    {
        let ghost all = colorful_section_views(lanes@);
        let mut data: Vec<ColorfulLane> = Vec::new();
        let mut rest = lanes;
        proof {
            assert(elem_views(data@) =~= Seq::<ColorfulLaneV>::empty());
        }
        while rest.len() > 0
            invariant
                colorful_data_steps(elem_views(data@), colorful_section_views(rest@))
                    == colorful_data_steps(Seq::empty(), colorful_section_views(lanes@)),
            decreases rest@.len(),
        {
            proof {
                assert(colorful_section_views(rest@)[0] == rest@[0]@);
                assert(colorful_section_views(rest@.remove(0)) =~= colorful_section_views(
                    rest@,
                ).skip(1));
            }
            let sec = rest.remove(0);
            match ColorfulLane::from_section(sec) {
                Ok(lane) => {
                    let mut found = false;
                    let mut j: usize = 0;
                    while j < data.len()
                        invariant
                            0 <= j <= data@.len(),
                            found == exists|m: int|
                                0 <= m < j && (#[trigger] elem_views(data@)[m]).id == lane.id,
                        decreases data@.len() - j,
                    {
                        proof {
                            assert(elem_views(data@)[j as int] == data@[j as int]@);
                        }
                        if data[j].id.0 == lane.id.0 {
                            found = true;
                        }
                        j = j + 1;
                    }
                    if !found {
                        proof {
                            assert(elem_views(data@.push(lane)) =~= elem_views(data@).push(lane@));
                        }
                        data.push(lane);
                    } else {
                        proof {
                            assert(colorful_has_id(elem_views(data@), lane@.id));
                        }
                    }
                },
                Err(e) => {
                    return Err(e);
                },
            }
        }
        let ghost dv = elem_views(data@);
        let mut idx: Vec<(TimingPoint, ColorfulLaneId)> = Vec::new();
        let mut i: usize = 0;
        proof {
            assert(flat_index_view(idx@) =~= Seq::<(TimingPoint, ColorfulLaneId)>::empty());
            assert(dv.skip(0) =~= dv);
        }
        while i < data.len()
            invariant
                0 <= i <= dv.len(),
                dv == elem_views(data@),
                colorful_index(flat_index_view(idx@), dv.skip(i as int)) == colorful_index(
                    Seq::empty(),
                    dv,
                ),
            decreases dv.len() - i,
        {
            proof {
                assert(dv.skip(i as int)[0] == dv[i as int]);
                assert(dv[i as int] == data@[i as int]@);
                assert(dv.skip(i as int).skip(1) =~= dv.skip(i + 1));
            }
            let t = data[i].start.position.time;
            let id = data[i].id;
            upsert_flat(&mut idx, t, id);
            i = i + 1;
        }
        proof {
            assert(dv.skip(dv.len() as int) =~= Seq::<ColorfulLaneV>::empty());
        }
        Ok((idx, data))
    }

    fn map_beams(beams: Vec<BeamSection>) -> (r: Result<
        (Vec<(TimingPoint, BeamId)>, Vec<Beam>),
        ParseError,
    >)
        ensures
            match (r, beams_data_steps(Seq::empty(), beam_section_views(beams@))) {
                (Ok((idx, data)), Ok(dv)) => elem_views(data@) == dv && flat_index_view(idx@)
                    == beams_index(Seq::empty(), dv),
                (Err(e), Err(ev)) => e@ == ev,
                _ => false,
            },
    {
        let ghost all = beam_section_views(beams@);
        let mut data: Vec<Beam> = Vec::new();
        let mut rest = beams;
        proof {
            assert(elem_views(data@) =~= Seq::<BeamV>::empty());
        }
        while rest.len() > 0
            invariant
                beams_data_steps(elem_views(data@), beam_section_views(rest@))
                    == beams_data_steps(Seq::empty(), beam_section_views(beams@)),
            decreases rest@.len(),
        {
            proof {
                assert(beam_section_views(rest@)[0] == rest@[0]@);
                assert(beam_section_views(rest@.remove(0)) =~= beam_section_views(rest@).skip(1));
            }
            let sec = rest.remove(0);
            match Beam::from_section(sec) {
                Ok(beam) => {
                    let mut found = false;
                    let mut j: usize = 0;
                    while j < data.len()
                        invariant
                            0 <= j <= data@.len(),
                            found == exists|m: int|
                                0 <= m < j && (#[trigger] elem_views(data@)[m]).id == beam.id,
                        decreases data@.len() - j,
                    {
                        proof {
                            assert(elem_views(data@)[j as int] == data@[j as int]@);
                        }
                        if data[j].id.0 == beam.id.0 {
                            found = true;
                        }
                        j = j + 1;
                    }
                    if !found {
                        proof {
                            assert(elem_views(data@.push(beam)) =~= elem_views(data@).push(beam@));
                        }
                        data.push(beam);
                    } else {
                        proof {
                            assert(beam_has_id(elem_views(data@), beam@.id));
                        }
                    }
                },
                Err(e) => {
                    return Err(e);
                },
            }
        }
        let ghost dv = elem_views(data@);
        let mut idx: Vec<(TimingPoint, BeamId)> = Vec::new();
        let mut i: usize = 0;
        proof {
            assert(flat_index_view(idx@) =~= Seq::<(TimingPoint, BeamId)>::empty());
            assert(dv.skip(0) =~= dv);
        }
        while i < data.len()
            invariant
                0 <= i <= dv.len(),
                dv == elem_views(data@),
                beams_index(flat_index_view(idx@), dv.skip(i as int)) == beams_index(
                    Seq::empty(),
                    dv,
                ),
            decreases dv.len() - i,
        {
            proof {
                assert(dv.skip(i as int)[0] == dv[i as int]);
                assert(dv[i as int] == data@[i as int]@);
                assert(dv.skip(i as int).skip(1) =~= dv.skip(i + 1));
            }
            let t = data[i].start.position.time;
            let id = data[i].id;
            upsert_flat(&mut idx, t, id);
            i = i + 1;
        }
        proof {
            assert(dv.skip(dv.len() as int) =~= Seq::<BeamV>::empty());
        }
        Ok((idx, data))
    }

    fn map_oblique_beams(beams: Vec<ObliqueBeamSection>) -> (r: Result<
        (Vec<(TimingPoint, ObliqueBeamId)>, Vec<ObliqueBeam>),
        ParseError,
    >)
        ensures
            match (r, obliques_data_steps(Seq::empty(), oblique_section_views(beams@))) {
                (Ok((idx, data)), Ok(dv)) => elem_views(data@) == dv && flat_index_view(idx@)
                    == obliques_index(Seq::empty(), dv),
                (Err(e), Err(ev)) => e@ == ev,
                _ => false,
            },
    {
        let ghost all = oblique_section_views(beams@);
        let mut data: Vec<ObliqueBeam> = Vec::new();
        let mut rest = beams;
        proof {
            assert(elem_views(data@) =~= Seq::<ObliqueBeamV>::empty());
        }
        while rest.len() > 0
            invariant
                obliques_data_steps(elem_views(data@), oblique_section_views(rest@))
                    == obliques_data_steps(Seq::empty(), oblique_section_views(beams@)),
            decreases rest@.len(),
        {
            proof {
                assert(oblique_section_views(rest@)[0] == rest@[0]@);
                assert(oblique_section_views(rest@.remove(0)) =~= oblique_section_views(
                    rest@,
                ).skip(1));
            }
            let sec = rest.remove(0);
            match ObliqueBeam::from_section(sec) {
                Ok(beam) => {
                    let mut found = false;
                    let mut j: usize = 0;
                    while j < data.len()
                        invariant
                            0 <= j <= data@.len(),
                            found == exists|m: int|
                                0 <= m < j && (#[trigger] elem_views(data@)[m]).id == beam.id,
                        decreases data@.len() - j,
                    {
                        proof {
                            assert(elem_views(data@)[j as int] == data@[j as int]@);
                        }
                        if data[j].id.0 == beam.id.0 {
                            found = true;
                        }
                        j = j + 1;
                    }
                    if !found {
                        proof {
                            assert(elem_views(data@.push(beam)) =~= elem_views(data@).push(beam@));
                        }
                        data.push(beam);
                    } else {
                        proof {
                            assert(oblique_has_id(elem_views(data@), beam@.id));
                        }
                    }
                },
                Err(e) => {
                    return Err(e);
                },
            }
        }
        let ghost dv = elem_views(data@);
        let mut idx: Vec<(TimingPoint, ObliqueBeamId)> = Vec::new();
        let mut i: usize = 0;
        proof {
            assert(flat_index_view(idx@) =~= Seq::<(TimingPoint, ObliqueBeamId)>::empty());
            assert(dv.skip(0) =~= dv);
        }
        while i < data.len()
            invariant
                0 <= i <= dv.len(),
                dv == elem_views(data@),
                obliques_index(flat_index_view(idx@), dv.skip(i as int)) == obliques_index(
                    Seq::empty(),
                    dv,
                ),
            decreases dv.len() - i,
        {
            proof {
                assert(dv.skip(i as int)[0] == dv[i as int]);
                assert(dv[i as int] == data@[i as int]@);
                assert(dv.skip(i as int).skip(1) =~= dv.skip(i + 1));
            }
            let t = data[i].start.position.time;
            let id = data[i].id;
            upsert_flat(&mut idx, t, id);
            i = i + 1;
        }
        proof {
            assert(dv.skip(dv.len() as int) =~= Seq::<ObliqueBeamV>::empty());
        }
        Ok((idx, data))
    }

    fn merge_lanes_into(data: &mut Vec<Lane>, more: Vec<Lane>)
        ensures
            elem_views(final(data)@) == merge_lanes(elem_views(old(data)@), elem_views(more@)),
    {
        let ghost all = elem_views(more@);
        let mut rest = more;
        while rest.len() > 0
            invariant
                merge_lanes(elem_views(data@), elem_views(rest@)) == merge_lanes(
                    elem_views(old(data)@),
                    elem_views(more@),
                ),
            decreases rest@.len(),
        {
            proof {
                assert(elem_views(rest@)[0] == rest@[0]@);
                assert(elem_views(rest@.remove(0)) =~= elem_views(rest@).skip(1));
            }
            let lane = rest.remove(0);
            if !contains_lane_id(data, lane.id) {
                proof {
                    assert(elem_views(data@.push(lane)) =~= elem_views(data@).push(lane@));
                }
                data.push(lane);
            }
        }
    }

    pub fn from_raw(raw: RawTrack) -> (r: Result<Self, ParseError>)
        ensures
            match (r, track_of_raw(raw@)) {
                (Ok(track), Ok(tv)) => track@ == tv,
                (Err(e), Err(ev)) => e@ == ev,
                _ => false,
            },
    {
        let (lanes_left, lanes_left_data) = match Self::map_lanes(raw.lanes_left, LaneType::Left) {
            Ok(p) => p,
            Err(e) => {
                return Err(e);
            },
        };
        let (lanes_center, lanes_center_data) = match Self::map_lanes(
            raw.lanes_center,
            LaneType::Center,
        ) {
            Ok(p) => p,
            Err(e) => {
                return Err(e);
            },
        };
        let (lanes_right, lanes_right_data) = match Self::map_lanes(
            raw.lanes_right,
            LaneType::Right,
        ) {
            Ok(p) => p,
            Err(e) => {
                return Err(e);
            },
        };
        let (enemy_lanes, enemy_lanes_data) = match Self::map_lanes(
            raw.enemy_lanes,
            LaneType::Enemy,
        ) {
            Ok(p) => p,
            Err(e) => {
                return Err(e);
            },
        };
        let (walls_left, walls_left_data) = match Self::map_walls(
            raw.walls_left,
            LaneType::WallLeft,
        ) {
            Ok(p) => p,
            Err(e) => {
                return Err(e);
            },
        };
        let (walls_right, walls_right_data) = match Self::map_walls(
            raw.walls_right,
            LaneType::WallRight,
        ) {
            Ok(p) => p,
            Err(e) => {
                return Err(e);
            },
        };
        let mut lanes_data = lanes_left_data;
        Self::merge_lanes_into(&mut lanes_data, lanes_center_data);
        Self::merge_lanes_into(&mut lanes_data, lanes_right_data);
        Self::merge_lanes_into(&mut lanes_data, enemy_lanes_data);
        Self::merge_lanes_into(&mut lanes_data, walls_left_data);
        Self::merge_lanes_into(&mut lanes_data, walls_right_data);
        let (colorful_lanes, colorful_lanes_data) = match Self::map_colorful_lanes(
            raw.colorful_lanes,
        ) {
            Ok(p) => p,
            Err(e) => {
                return Err(e);
            },
        };
        let (beams, beams_data) = match Self::map_beams(raw.beams) {
            Ok(p) => p,
            Err(e) => {
                return Err(e);
            },
        };
        let (oblique_beams, oblique_beams_data) = match Self::map_oblique_beams(
            raw.oblique_beams,
        ) {
            Ok(p) => p,
            Err(e) => {
                return Err(e);
            },
        };
        Ok(
            Self {
                lanes_left,
                lanes_center,
                lanes_right,
                colorful_lanes,
                walls_left,
                walls_right,
                enemy_lanes,
                beams,
                oblique_beams,
                lanes_data,
                colorful_lanes_data,
                beams_data,
                oblique_beams_data,
            },
        )
    }
}


/// Appending a whole run of notes under a key: when the key is already
/// present the appended notes join the end of its group, so notes sharing a
/// timing key are all kept.
pub open spec fn add_group_all<V>(
    idx: Seq<(TimingPoint, Seq<V>)>,
    t: TimingPoint,
    vs: Seq<V>,
) -> Seq<(TimingPoint, Seq<V>)>
    decreases idx.len(),
{
    if idx.len() == 0 {
        seq![(t, vs)]
    } else if tp_lt(t, idx[0].0) {
        seq![(t, vs)] + idx
    } else if t == idx[0].0 {
        seq![(idx[0].0, idx[0].1 + vs)] + idx.skip(1)
    } else {
        seq![idx[0]] + add_group_all(idx.skip(1), t, vs)
    }
}

/// Merging a second grouped index into a base index: each of its per-key
/// groups is appended to the base's group under the same key.
pub open spec fn merge_entries<V>(
    base: Seq<(TimingPoint, Seq<V>)>,
    over: Seq<(TimingPoint, Seq<V>)>,
) -> Seq<(TimingPoint, Seq<V>)>
    decreases over.len(),
{
    if over.len() == 0 {
        base
    } else {
        merge_entries(add_group_all(base, over[0].0, over[0].1), over.skip(1))
    }
}

/// Where the scan for `t` stops, `add_group_all` appends in place or inserts
/// a fresh group.
proof fn lemma_add_group_all_at<V>(
    idx: Seq<(TimingPoint, Seq<V>)>,
    t: TimingPoint,
    vs: Seq<V>,
    k: int,
)
    requires
        0 <= k <= idx.len(),
        forall|j: int| 0 <= j < k ==> tp_lt(#[trigger] idx[j].0, t),
        k < idx.len() ==> !tp_lt(idx[k].0, t),
    ensures
        add_group_all(idx, t, vs) == if k < idx.len() && idx[k].0 == t {
            idx.update(k, (idx[k].0, idx[k].1 + vs))
        } else {
            idx.insert(k, (t, vs))
        },
    decreases idx.len(),
{
    if idx.len() == 0 {
        assert(add_group_all(idx, t, vs) =~= idx.insert(0, (t, vs)));
    } else if k == 0 {
        if tp_lt(t, idx[0].0) {
            assert(seq![(t, vs)] + idx =~= idx.insert(0, (t, vs)));
        } else {
            assert(idx[0].0 == t);
            assert(seq![(idx[0].0, idx[0].1 + vs)] + idx.skip(1) =~= idx.update(
                0,
                (idx[0].0, idx[0].1 + vs),
            ));
        }
    } else {
        assert(tp_lt(idx[0].0, t));
        let tail = idx.skip(1);
        assert forall|j: int| 0 <= j < k - 1 implies tp_lt(#[trigger] tail[j].0, t) by {
            assert(tail[j] == idx[j + 1]);
        }
        if k - 1 < tail.len() {
            assert(tail[k - 1] == idx[k]);
        }
        lemma_add_group_all_at(tail, t, vs, k - 1);
        if k < idx.len() && idx[k].0 == t {
            assert(idx.update(k, (idx[k].0, idx[k].1 + vs)) =~= seq![idx[0]] + tail.update(
                k - 1,
                (tail[k - 1].0, tail[k - 1].1 + vs),
            ));
        } else {
            assert(idx.insert(k, (t, vs)) =~= seq![idx[0]] + tail.insert(k - 1, (t, vs)));
        }
    }
}

/// Appends a whole group of notes under key `t`, keeping any notes already
/// stored there.
fn append_group_entry<T: View>(idx: &mut Vec<(TimingPoint, Vec<T>)>, t: TimingPoint, vs: Vec<T>)
    ensures
        group_index_view(final(idx)@) == add_group_all(
            group_index_view(old(idx)@),
            t,
            elem_views(vs@),
        ),
{
    let ghost iv = group_index_view(idx@);
    let mut k: usize = 0;
    while k < idx.len() && idx[k].0.lt(&t)
        invariant
            0 <= k <= idx@.len(),
            idx@ == old(idx)@,
            forall|j: int| 0 <= j < k ==> tp_lt(#[trigger] idx@[j].0, t),
        decreases idx@.len() - k,
    {
        k = k + 1;
    }
    proof {
        assert forall|j: int| 0 <= j < k implies tp_lt(#[trigger] iv[j].0, t) by {
            assert(iv[j].0 == idx@[j].0);
        }
        if k < idx@.len() {
            assert(iv[k as int].0 == idx@[k as int].0);
        }
    }
    if k < idx.len() && idx[k].0 == t {
        let ghost before = idx@;
        let mut entry = idx.remove(k);
        let mut more = vs;
        proof {
            assert(elem_views(entry.1@ + more@) =~= elem_views(entry.1@) + elem_views(more@));
        }
        entry.1.append(&mut more);
        idx.insert(k, entry);
        proof {
            assert(idx@ =~= before.update(k as int, (before[k as int].0, idx@[k as int].1)));
            lemma_add_group_all_at(iv, t, elem_views(vs@), k as int);
            assert(group_index_view(idx@) =~= iv.update(
                k as int,
                (iv[k as int].0, iv[k as int].1 + elem_views(vs@)),
            ));
        }
    } else {
        let ghost before = idx@;
        idx.insert(k, (t, vs));
        proof {
            lemma_add_group_all_at(iv, t, elem_views(vs@), k as int);
            assert(group_index_view(before.insert(k as int, (t, vs))) =~= iv.insert(
                k as int,
                (t, elem_views(vs@)),
            ));
        }
    }
}

/// Merges `over` into `base`, appending each of its per-key groups to the
/// base's group under the same key.
fn merge_group_entries<T: View>(
    base: &mut Vec<(TimingPoint, Vec<T>)>,
    over: Vec<(TimingPoint, Vec<T>)>,
)
    ensures
        group_index_view(final(base)@) == merge_entries(
            group_index_view(old(base)@),
            group_index_view(over@),
        ),
{
    let mut rest = over;
    while rest.len() > 0
        invariant
            merge_entries(group_index_view(base@), group_index_view(rest@)) == merge_entries(
                group_index_view(old(base)@),
                group_index_view(over@),
            ),
        decreases rest@.len(),
    {
        proof {
            assert(group_index_view(rest@)[0] == (rest@[0].0, elem_views(rest@[0].1@)));
            assert(group_index_view(rest@.remove(0)) =~= group_index_view(rest@).skip(1));
        }
        let e = rest.remove(0);
        append_group_entry(base, e.0, e.1);
    }
}

/// Every hold can be interpolated against the lane it cites, wherever that
/// lane exists: the guard that keeps resolution free of the interpolation's
/// splice assertion.
pub open spec fn holds_ok(holds: Seq<RawHold>, lanes: Seq<LaneV>) -> bool {
    forall|i: int|
        0 <= i < holds.len() ==> match lane_lookup(lanes, LaneId((#[trigger] holds[i]).lane_group_id)) {
            Some(lane) => interval_ok(lane.points, hold_start(holds[i]), hold_end(holds[i])),
            None => true,
        }
}

/// Resolving tap commands into the grouped time index; a tap citing an
/// unresolved lane id is a hard semantic error.
pub open spec fn tap_map_steps(
    m: Seq<(TimingPoint, Seq<TapNote>)>,
    taps: Seq<RawTap>,
    lanes: Seq<LaneV>,
    is_critical: bool,
) -> Result<Seq<(TimingPoint, Seq<TapNote>)>, ParseErrV>
    decreases taps.len(),
{
    if taps.len() == 0 {
        Ok(m)
    } else {
        match lane_lookup(lanes, LaneId(taps[0].lane_group_id)) {
            Some(lane) => tap_map_steps(
                add_group(m, timing_of(taps[0].time), tap_note_of(taps[0], lane.lane_type, is_critical)),
                taps.skip(1),
                lanes,
                is_critical,
            ),
            None => Err(
                ParseErrV::SemanticError(
                    "Tap note uses invalid lane id "@ + dec_str(taps[0].lane_group_id as int),
                ),
            ),
        }
    }
}

/// Resolving hold commands, interpolating each against its lane.
pub open spec fn hold_map_steps(
    m: Seq<(TimingPoint, Seq<HoldNoteV>)>,
    holds: Seq<RawHold>,
    lanes: Seq<LaneV>,
    is_critical: bool,
) -> Result<Seq<(TimingPoint, Seq<HoldNoteV>)>, ParseErrV>
    decreases holds.len(),
{
    if holds.len() == 0 {
        Ok(m)
    } else {
        match lane_lookup(lanes, LaneId(holds[0].lane_group_id)) {
            Some(lane) => hold_map_steps(
                add_group(
                    m,
                    timing_of(holds[0].start_time),
                    hold_note_of(holds[0], lane, is_critical),
                ),
                holds.skip(1),
                lanes,
                is_critical,
            ),
            None => Err(
                ParseErrV::SemanticError(
                    "hold note uses invalid lane id "@ + dec_str(holds[0].lane_group_id as int),
                ),
            ),
        }
    }
}

/// Resolving bell commands; a bell's palette reference is carried through
/// unchecked.
pub open spec fn bell_map_steps(
    m: Seq<(TimingPoint, Seq<BellNoteV>)>,
    bells: Seq<RawBellV>,
) -> Seq<(TimingPoint, Seq<BellNoteV>)>
    decreases bells.len(),
{
    if bells.len() == 0 {
        m
    } else {
        bell_map_steps(add_group(m, timing_of(bells[0].time), bell_note_of(bells[0])), bells.skip(1))
    }
}

/// Resolving flick commands.
pub open spec fn flick_map_steps(
    m: Seq<(TimingPoint, Seq<FlickNote>)>,
    flicks: Seq<RawFlick>,
    is_critical: bool,
) -> Seq<(TimingPoint, Seq<FlickNote>)>
    decreases flicks.len(),
{
    if flicks.len() == 0 {
        m
    } else {
        flick_map_steps(
            add_group(m, timing_of(flicks[0].time), flick_note_of(flicks[0], is_critical)),
            flicks.skip(1),
            is_critical,
        )
    }
}

/// The resolved notes, each kind indexed by its timing key with notes
/// sharing a key grouped into a list: every raw note appears exactly once,
/// and at a timing key shared between ordinary and critical notes the
/// critical ones follow the ordinary ones in that key's list.
#[derive(Debug, PartialEq, Eq, Hash)]
pub struct Notes {
    pub taps: Vec<(TimingPoint, Vec<TapNote>)>,
    pub holds: Vec<(TimingPoint, Vec<HoldNote>)>,
    pub bells: Vec<(TimingPoint, Vec<BellNote>)>,
    pub flicks: Vec<(TimingPoint, Vec<FlickNote>)>,
}

pub ghost struct NotesV {
    pub taps: Seq<(TimingPoint, Seq<TapNote>)>,
    pub holds: Seq<(TimingPoint, Seq<HoldNoteV>)>,
    pub bells: Seq<(TimingPoint, Seq<BellNoteV>)>,
    pub flicks: Seq<(TimingPoint, Seq<FlickNote>)>,
}

impl View for Notes {
    type V = NotesV;

    open spec fn view(&self) -> NotesV {
        NotesV {
            taps: group_index_view(self.taps@),
            holds: group_index_view(self.holds@),
            bells: group_index_view(self.bells@),
            flicks: group_index_view(self.flicks@),
        }
    }
}

/// The resolved notes the raw note lists denote against the resolved lanes.
pub open spec fn notes_of_raw(raw: RawNotesV, lanes: Seq<LaneV>) -> Result<NotesV, ParseErrV> {
    match tap_map_steps(Seq::empty(), raw.taps, lanes, false) {
        Err(e) => Err(e),
        Ok(t1) => match tap_map_steps(Seq::empty(), raw.critical_taps, lanes, true) {
            Err(e) => Err(e),
            Ok(t2) => match hold_map_steps(Seq::empty(), raw.holds, lanes, false) {
                Err(e) => Err(e),
                Ok(h1) => match hold_map_steps(Seq::empty(), raw.critical_holds, lanes, true) {
                    Err(e) => Err(e),
                    Ok(h2) => {
                        let f1 = flick_map_steps(Seq::empty(), raw.flicks, false);
                        let f2 = flick_map_steps(Seq::empty(), raw.critical_flicks, true);
                        Ok(
                            NotesV {
                                taps: merge_entries(t1, t2),
                                holds: merge_entries(h1, h2),
                                bells: bell_map_steps(Seq::empty(), raw.bells),
                                flicks: merge_entries(f1, f2),
                            },
                        )
                    },
                },
            },
        },
    }
}

/// All values of a grouped index, flattened in index (time) order.
pub open spec fn flatten_groups<V>(m: Seq<(TimingPoint, Seq<V>)>) -> Seq<V>
    decreases m.len(),
{
    if m.len() == 0 {
        Seq::empty()
    } else {
        m[0].1 + flatten_groups(m.skip(1))
    }
}

proof fn lemma_flatten_snoc<V>(m: Seq<(TimingPoint, Seq<V>)>, i: int)
    requires
        0 <= i < m.len(),
    ensures
        flatten_groups(m.subrange(0, i + 1)) == flatten_groups(m.subrange(0, i)) + m[i].1,
    decreases i,
{
    if i == 0 {
        assert(m.subrange(0, 1)[0] == m[0]);
        assert(m.subrange(0, 1).skip(1) =~= Seq::<(TimingPoint, Seq<V>)>::empty());
        assert(m.subrange(0, 0) =~= Seq::<(TimingPoint, Seq<V>)>::empty());
        assert(flatten_groups(Seq::<(TimingPoint, Seq<V>)>::empty()) == Seq::<V>::empty());
        assert(m[0].1 + Seq::<V>::empty() =~= m[0].1);
        assert(Seq::<V>::empty() + m[0].1 =~= m[0].1);
    } else {
        let tail = m.skip(1);
        lemma_flatten_snoc(tail, i - 1);
        assert(m.subrange(0, i + 1)[0] == m[0]);
        assert(m.subrange(0, i)[0] == m[0]);
        assert(m.subrange(0, i + 1).skip(1) =~= tail.subrange(0, i));
        assert(m.subrange(0, i).skip(1) =~= tail.subrange(0, i - 1));
        assert(tail[i - 1] == m[i]);
        assert(m[0].1 + (flatten_groups(tail.subrange(0, i - 1)) + m[i].1) =~= (m[0].1
            + flatten_groups(tail.subrange(0, i - 1))) + m[i].1);
    }
}

impl Notes {
    fn map_tap_notes(taps: Vec<RawTap>, track: &Track, is_critical: bool) -> (r: Result<
        Vec<(TimingPoint, Vec<TapNote>)>,
        ParseError,
    >)
        ensures
            match (
                r,
                tap_map_steps(
                    Seq::empty(),
                    taps@,
                    elem_views(track.lanes_data@),
                    is_critical,
                ),
            ) {
                (Ok(m), Ok(mv)) => group_index_view(m@) == mv,
                (Err(e), Err(ev)) => e@ == ev,
                _ => false,
            },
    {
        let ghost lanes = elem_views(track.lanes_data@);
        let mut m: Vec<(TimingPoint, Vec<TapNote>)> = Vec::new();
        let mut rest = taps;
        proof {
            assert(group_index_view(m@) =~= Seq::<(TimingPoint, Seq<TapNote>)>::empty());
        }
        while rest.len() > 0
            invariant
                lanes == elem_views(track.lanes_data@),
                tap_map_steps(group_index_view(m@), rest@, lanes, is_critical) == tap_map_steps(
                    Seq::empty(),
                    taps@,
                    lanes,
                    is_critical,
                ),
            decreases rest@.len(),
        {
            let tap = rest.remove(0);
            match track.get_lane(LaneId(tap.lane_group_id)) {
                Some(lane) => {
                    let note = TapNote::from_tap(tap, lane.lane_type, is_critical);
                    push_group(&mut m, note.position.time, note);
                },
                None => {
                    return Err(
                        ParseError::SemanticError(
                            message_with_id("Tap note uses invalid lane id ", tap.lane_group_id),
                        ),
                    );
                },
            }
        }
        Ok(m)
    }

    fn map_hold_notes(holds: Vec<RawHold>, track: &Track, is_critical: bool) -> (r: Result<
        Vec<(TimingPoint, Vec<HoldNote>)>,
        ParseError,
    >)
        requires
            holds_ok(holds@, elem_views(track.lanes_data@)),
        ensures
            match (
                r,
                hold_map_steps(
                    Seq::empty(),
                    holds@,
                    elem_views(track.lanes_data@),
                    is_critical,
                ),
            ) {
                (Ok(m), Ok(mv)) => group_index_view(m@) == mv,
                (Err(e), Err(ev)) => e@ == ev,
                _ => false,
            },
    {
        let ghost lanes = elem_views(track.lanes_data@);
        let mut m: Vec<(TimingPoint, Vec<HoldNote>)> = Vec::new();
        let mut rest = holds;
        proof {
            assert(group_index_view(m@) =~= Seq::<(TimingPoint, Seq<HoldNoteV>)>::empty());
        }
        while rest.len() > 0
            invariant
                lanes == elem_views(track.lanes_data@),
                holds_ok(rest@, lanes),
                hold_map_steps(group_index_view(m@), rest@, lanes, is_critical) == hold_map_steps(
                    Seq::empty(),
                    holds@,
                    lanes,
                    is_critical,
                ),
            decreases rest@.len(),
        {
            proof {
                assert(rest@[0] == rest@[0]);
                assert forall|i: int| 0 <= i < rest@.skip(1).len() implies match lane_lookup(
                    lanes,
                    LaneId((#[trigger] rest@.skip(1)[i]).lane_group_id),
                ) {
                    Some(lane) => interval_ok(
                        lane.points,
                        hold_start(rest@.skip(1)[i]),
                        hold_end(rest@.skip(1)[i]),
                    ),
                    None => true,
                } by {
                    assert(rest@.skip(1)[i] == rest@[i + 1]);
                }
            }
            let hold = rest.remove(0);
            match track.get_lane(LaneId(hold.lane_group_id)) {
                Some(lane) => {
                    let note = match HoldNote::from_hold_and_lane(hold, lane, is_critical) {
                        Ok(n) => n,
                        Err(e) => {
                            return Err(e);
                        },
                    };
                    let t = note.start.time;
                    push_group(&mut m, t, note);
                },
                None => {
                    return Err(
                        ParseError::SemanticError(
                            message_with_id("hold note uses invalid lane id ", hold.lane_group_id),
                        ),
                    );
                },
            }
        }
        Ok(m)
    }

    fn map_bell_notes(bells: Vec<RawBell>) -> (r: Result<
        Vec<(TimingPoint, Vec<BellNote>)>,
        ParseError,
    >)
        ensures
            match r {
                Ok(m) => group_index_view(m@) == bell_map_steps(Seq::empty(), bell_views(bells@)),
                Err(_) => false,
            },
    {
        let mut m: Vec<(TimingPoint, Vec<BellNote>)> = Vec::new();
        let mut rest = bells;
        proof {
            assert(group_index_view(m@) =~= Seq::<(TimingPoint, Seq<BellNoteV>)>::empty());
        }
        while rest.len() > 0
            invariant
                bell_map_steps(group_index_view(m@), bell_views(rest@)) == bell_map_steps(
                    Seq::empty(),
                    bell_views(bells@),
                ),
            decreases rest@.len(),
        {
            proof {
                assert(bell_views(rest@)[0] == rest@[0]@);
                assert(bell_views(rest@.remove(0)) =~= bell_views(rest@).skip(1));
            }
            let bell = rest.remove(0);
            let note = BellNote::from_raw_bell(bell);
            let t = note.position.time;
            push_group(&mut m, t, note);
        }
        Ok(m)
    }

    fn map_flick_notes(flicks: Vec<RawFlick>, is_critical: bool) -> (r: Result<
        Vec<(TimingPoint, Vec<FlickNote>)>,
        ParseError,
    >)
        ensures
            match r {
                Ok(m) => group_index_view(m@) == flick_map_steps(
                    Seq::empty(),
                    flicks@,
                    is_critical,
                ),
                Err(_) => false,
            },
    {
        let mut m: Vec<(TimingPoint, Vec<FlickNote>)> = Vec::new();
        let mut rest = flicks;
        proof {
            assert(group_index_view(m@) =~= Seq::<(TimingPoint, Seq<FlickNote>)>::empty());
        }
        while rest.len() > 0
            invariant
                flick_map_steps(group_index_view(m@), rest@, is_critical) == flick_map_steps(
                    Seq::empty(),
                    flicks@,
                    is_critical,
                ),
            decreases rest@.len(),
        {
            let flick = rest.remove(0);
            let note = FlickNote::from_flick(flick, is_critical);
            push_group(&mut m, note.position.time, note);
        }
        Ok(m)
    }

    pub fn from_raw(raw: RawNotes, track: &Track) -> (r: Result<Self, ParseError>)
        requires
            holds_ok(raw.holds@, elem_views(track.lanes_data@)),
            holds_ok(raw.critical_holds@, elem_views(track.lanes_data@)),
        ensures
            match (r, notes_of_raw(raw@, elem_views(track.lanes_data@))) {
                (Ok(notes), Ok(nv)) => notes@ == nv,
                (Err(e), Err(ev)) => e@ == ev,
                _ => false,
            },
    {
        let mut taps = match Self::map_tap_notes(raw.taps, track, false) {
            Ok(m) => m,
            Err(e) => {
                return Err(e);
            },
        };
        let critical_taps = match Self::map_tap_notes(raw.critical_taps, track, true) {
            Ok(m) => m,
            Err(e) => {
                return Err(e);
            },
        };
        merge_group_entries(&mut taps, critical_taps);
        let mut holds = match Self::map_hold_notes(raw.holds, track, false) {
            Ok(m) => m,
            Err(e) => {
                return Err(e);
            },
        };
        let critical_holds = match Self::map_hold_notes(raw.critical_holds, track, true) {
            Ok(m) => m,
            Err(e) => {
                return Err(e);
            },
        };
        merge_group_entries(&mut holds, critical_holds);
        let bells = match Self::map_bell_notes(raw.bells) {
            Ok(m) => m,
            Err(e) => {
                return Err(e);
            },
        };
        let mut flicks = match Self::map_flick_notes(raw.flicks, false) {
            Ok(m) => m,
            Err(e) => {
                return Err(e);
            },
        };
        let critical_flicks = match Self::map_flick_notes(raw.critical_flicks, true) {
            Ok(m) => m,
            Err(e) => {
                return Err(e);
            },
        };
        merge_group_entries(&mut flicks, critical_flicks);
        Ok(Self { taps, holds, bells, flicks })
    }

    /// Creates a new array containing tap notes flattened from the sorted
    /// map.
    pub fn create_all_taps(&self) -> (r: Vec<TapNote>)
        ensures
            r@ == flatten_groups(group_index_view(self.taps@)),
    {
        self.all_taps()
    }

    /// Returns the tap notes sorted by time.
    pub fn all_taps(&self) -> (r: Vec<TapNote>)
        ensures
            r@ == flatten_groups(group_index_view(self.taps@)),
    {
        let ghost gv = group_index_view(self.taps@);
        let mut r: Vec<TapNote> = Vec::new();
        let mut i: usize = 0;
        proof {
            assert(gv.subrange(0, 0) =~= Seq::<(TimingPoint, Seq<TapNote>)>::empty());
        }
        while i < self.taps.len()
            invariant
                0 <= i <= gv.len(),
                gv == group_index_view(self.taps@),
                r@ == flatten_groups(gv.subrange(0, i as int)),
            decreases gv.len() - i,
        {
            let mut j: usize = 0;
            proof {
                assert(gv[i as int].1 == elem_views(self.taps@[i as int].1@));
            }
            while j < self.taps[i].1.len()
                invariant
                    0 <= i < gv.len(),
                    0 <= j <= self.taps@[i as int].1@.len(),
                    gv == group_index_view(self.taps@),
                    gv[i as int].1 == elem_views(self.taps@[i as int].1@),
                    r@ == flatten_groups(gv.subrange(0, i as int)) + gv[i as int].1.subrange(
                        0,
                        j as int,
                    ),
                decreases self.taps@[i as int].1@.len() - j,
            {
                proof {
                    assert(gv[i as int].1.subrange(0, j + 1) =~= gv[i as int].1.subrange(
                        0,
                        j as int,
                    ).push(gv[i as int].1[j as int]));
                    assert(gv[i as int].1[j as int] == self.taps@[i as int].1@[j as int]);
                }
                r.push(self.taps[i].1[j]);
                j = j + 1;
            }
            proof {
                lemma_flatten_snoc(gv, i as int);
                assert(gv[i as int].1.subrange(0, gv[i as int].1.len() as int) =~= gv[
                    i as int
                ].1);
            }
            i = i + 1;
        }
        proof {
            assert(gv.subrange(0, gv.len() as int) =~= gv);
        }
        r
    }

    /// Creates a new array containing hold notes flattened from the sorted
    /// map.
    pub fn create_all_holds(&self) -> (r: Vec<HoldNote>)
        ensures
            elem_views(r@) == flatten_groups(group_index_view(self.holds@)),
    {
        self.all_holds()
    }

    /// Returns the hold notes sorted by time.
    pub fn all_holds(&self) -> (r: Vec<HoldNote>)
        ensures
            elem_views(r@) == flatten_groups(group_index_view(self.holds@)),
    {
        let ghost gv = group_index_view(self.holds@);
        let mut r: Vec<HoldNote> = Vec::new();
        let mut i: usize = 0;
        proof {
            assert(gv.subrange(0, 0) =~= Seq::<(TimingPoint, Seq<HoldNoteV>)>::empty());
            assert(elem_views(r@) =~= Seq::<HoldNoteV>::empty());
        }
        while i < self.holds.len()
            invariant
                0 <= i <= gv.len(),
                gv == group_index_view(self.holds@),
                elem_views(r@) == flatten_groups(gv.subrange(0, i as int)),
            decreases gv.len() - i,
        {
            let mut j: usize = 0;
            proof {
                assert(gv[i as int].1 == elem_views(self.holds@[i as int].1@));
            }
            while j < self.holds[i].1.len()
                invariant
                    0 <= i < gv.len(),
                    0 <= j <= self.holds@[i as int].1@.len(),
                    gv == group_index_view(self.holds@),
                    gv[i as int].1 == elem_views(self.holds@[i as int].1@),
                    elem_views(r@) == flatten_groups(gv.subrange(0, i as int)) + gv[
                        i as int
                    ].1.subrange(0, j as int),
                decreases self.holds@[i as int].1@.len() - j,
            {
                proof {
                    assert(gv[i as int].1.subrange(0, j + 1) =~= gv[i as int].1.subrange(
                        0,
                        j as int,
                    ).push(gv[i as int].1[j as int]));
                    assert(gv[i as int].1[j as int] == self.holds@[i as int].1@[j as int]@);
                }
                let ghost before = r@;
                let note = self.holds[i].1[j].clone();
                r.push(note);
                proof {
                    assert(elem_views(r@) =~= elem_views(before).push(note@));
                }
                j = j + 1;
            }
            proof {
                lemma_flatten_snoc(gv, i as int);
                assert(gv[i as int].1.subrange(0, gv[i as int].1.len() as int) =~= gv[
                    i as int
                ].1);
            }
            i = i + 1;
        }
        proof {
            assert(gv.subrange(0, gv.len() as int) =~= gv);
        }
        r
    }

    /// Creates a new array containing bell notes flattened from the sorted
    /// map.
    pub fn create_all_bells(&self) -> (r: Vec<BellNote>)
        ensures
            elem_views(r@) == flatten_groups(group_index_view(self.bells@)),
    {
        self.all_bells()
    }

    /// Returns the bell notes sorted by time.
    pub fn all_bells(&self) -> (r: Vec<BellNote>)
        ensures
            elem_views(r@) == flatten_groups(group_index_view(self.bells@)),
    {
        let ghost gv = group_index_view(self.bells@);
        let mut r: Vec<BellNote> = Vec::new();
        let mut i: usize = 0;
        proof {
            assert(gv.subrange(0, 0) =~= Seq::<(TimingPoint, Seq<BellNoteV>)>::empty());
            assert(elem_views(r@) =~= Seq::<BellNoteV>::empty());
        }
        while i < self.bells.len()
            invariant
                0 <= i <= gv.len(),
                gv == group_index_view(self.bells@),
                elem_views(r@) == flatten_groups(gv.subrange(0, i as int)),
            decreases gv.len() - i,
        {
            let mut j: usize = 0;
            proof {
                assert(gv[i as int].1 == elem_views(self.bells@[i as int].1@));
            }
            while j < self.bells[i].1.len()
                invariant
                    0 <= i < gv.len(),
                    0 <= j <= self.bells@[i as int].1@.len(),
                    gv == group_index_view(self.bells@),
                    gv[i as int].1 == elem_views(self.bells@[i as int].1@),
                    elem_views(r@) == flatten_groups(gv.subrange(0, i as int)) + gv[
                        i as int
                    ].1.subrange(0, j as int),
                decreases self.bells@[i as int].1@.len() - j,
            {
                proof {
                    assert(gv[i as int].1.subrange(0, j + 1) =~= gv[i as int].1.subrange(
                        0,
                        j as int,
                    ).push(gv[i as int].1[j as int]));
                    assert(gv[i as int].1[j as int] == self.bells@[i as int].1@[j as int]@);
                }
                let ghost before = r@;
                let note = self.bells[i].1[j].clone();
                r.push(note);
                proof {
                    assert(elem_views(r@) =~= elem_views(before).push(note@));
                }
                j = j + 1;
            }
            proof {
                lemma_flatten_snoc(gv, i as int);
                assert(gv[i as int].1.subrange(0, gv[i as int].1.len() as int) =~= gv[
                    i as int
                ].1);
            }
            i = i + 1;
        }
        proof {
            assert(gv.subrange(0, gv.len() as int) =~= gv);
        }
        r
    }

    /// Creates a new array containing flick notes flattened from the sorted
    /// map.
    pub fn create_all_flicks(&self) -> (r: Vec<FlickNote>)
        ensures
            r@ == flatten_groups(group_index_view(self.flicks@)),
    {
        self.all_flicks()
    }

    /// Returns the flick notes sorted by time.
    pub fn all_flicks(&self) -> (r: Vec<FlickNote>)
        ensures
            r@ == flatten_groups(group_index_view(self.flicks@)),
    {
        let ghost gv = group_index_view(self.flicks@);
        let mut r: Vec<FlickNote> = Vec::new();
        let mut i: usize = 0;
        proof {
            assert(gv.subrange(0, 0) =~= Seq::<(TimingPoint, Seq<FlickNote>)>::empty());
        }
        while i < self.flicks.len()
            invariant
                0 <= i <= gv.len(),
                gv == group_index_view(self.flicks@),
                r@ == flatten_groups(gv.subrange(0, i as int)),
            decreases gv.len() - i,
        {
            let mut j: usize = 0;
            proof {
                assert(gv[i as int].1 == elem_views(self.flicks@[i as int].1@));
            }
            while j < self.flicks[i].1.len()
                invariant
                    0 <= i < gv.len(),
                    0 <= j <= self.flicks@[i as int].1@.len(),
                    gv == group_index_view(self.flicks@),
                    gv[i as int].1 == elem_views(self.flicks@[i as int].1@),
                    r@ == flatten_groups(gv.subrange(0, i as int)) + gv[i as int].1.subrange(
                        0,
                        j as int,
                    ),
                decreases self.flicks@[i as int].1@.len() - j,
            {
                proof {
                    assert(gv[i as int].1.subrange(0, j + 1) =~= gv[i as int].1.subrange(
                        0,
                        j as int,
                    ).push(gv[i as int].1[j as int]));
                    assert(gv[i as int].1[j as int] == self.flicks@[i as int].1@[j as int]);
                }
                r.push(self.flicks[i].1[j]);
                j = j + 1;
            }
            proof {
                lemma_flatten_snoc(gv, i as int);
                assert(gv[i as int].1.subrange(0, gv[i as int].1.len() as int) =~= gv[
                    i as int
                ].1);
            }
            i = i + 1;
        }
        proof {
            assert(gv.subrange(0, gv.len() as int) =~= gv);
        }
        r
    }
}


impl Clone for Bullet {
    fn clone(&self) -> (r: Self)
        ensures
            r@ == self@,
    {
        Self {
            palette_id: BulletPaletteId(self.palette_id.0.clone()),
            position: self.position,
            damage_type: self.damage_type,
        }
    }
}

/// Registering a palette: a palette with an id already present replaces the
/// earlier one in place (lookup semantics: the last definition wins).
pub open spec fn upsert_palette(acc: Seq<PaletteV>, p: PaletteV) -> Seq<PaletteV>
    decreases acc.len(),
{
    if acc.len() == 0 {
        seq![p]
    } else if acc[0].id == p.id {
        seq![p] + acc.skip(1)
    } else {
        seq![acc[0]] + upsert_palette(acc.skip(1), p)
    }
}

pub open spec fn palettes_steps(acc: Seq<PaletteV>, ps: Seq<RawBulletPaletteV>) -> Seq<PaletteV>
    decreases ps.len(),
{
    if ps.len() == 0 {
        acc
    } else {
        palettes_steps(upsert_palette(acc, palette_of(ps[0])), ps.skip(1))
    }
}

/// The first palette registered under the given id.
pub open spec fn palette_lookup(ps: Seq<PaletteV>, id: Seq<char>) -> Option<PaletteV>
    decreases ps.len(),
{
    if ps.len() == 0 {
        None
    } else if ps[0].id == id {
        Some(ps[0])
    } else {
        palette_lookup(ps.skip(1), id)
    }
}

/// Resolving bullet placements; a bullet citing an unknown palette id is a
/// hard semantic error.
pub open spec fn bullets_map_steps(
    m: Seq<(TimingPoint, Seq<BulletRV>)>,
    bs: Seq<RawBulletV>,
    ps: Seq<PaletteV>,
) -> Result<Seq<(TimingPoint, Seq<BulletRV>)>, ParseErrV>
    decreases bs.len(),
{
    if bs.len() == 0 {
        Ok(m)
    } else {
        match palette_lookup(ps, bs[0].pallete_id) {
            Some(_) => bullets_map_steps(
                add_group(m, timing_of(bs[0].time), bullet_of(bs[0])),
                bs.skip(1),
                ps,
            ),
            None => Err(
                ParseErrV::SemanticError("Bullet uses invalid palette id "@ + bs[0].pallete_id),
            ),
        }
    }
}

/// The resolved bullets: the palette lookup plus placed bullets indexed by
/// time.
#[derive(Debug, PartialEq, Eq, Hash)]
pub struct Bullets {
    pub bullet_palette_list: Vec<BulletPalette>,
    pub bullets: Vec<(TimingPoint, Vec<Bullet>)>,
}

pub ghost struct BulletsV {
    pub bullet_palette_list: Seq<PaletteV>,
    pub bullets: Seq<(TimingPoint, Seq<BulletRV>)>,
}

impl View for Bullets {
    type V = BulletsV;

    open spec fn view(&self) -> BulletsV {
        BulletsV {
            bullet_palette_list: elem_views(self.bullet_palette_list@),
            bullets: group_index_view(self.bullets@),
        }
    }
}

/// The resolved bullets the raw palette and bullet lists denote.
pub open spec fn bullets_of_raw(
    palettes: Seq<RawBulletPaletteV>,
    bullets: Seq<RawBulletV>,
) -> Result<BulletsV, ParseErrV> {
    let ps = palettes_steps(Seq::empty(), palettes);
    match bullets_map_steps(Seq::empty(), bullets, ps) {
        Ok(m) => Ok(BulletsV { bullet_palette_list: ps, bullets: m }),
        Err(e) => Err(e),
    }
}

/// Where the id scan stops, `upsert_palette` replaces or appends.
proof fn lemma_upsert_palette_at(acc: Seq<PaletteV>, p: PaletteV, k: int)
    requires
        0 <= k <= acc.len(),
        forall|j: int| 0 <= j < k ==> (#[trigger] acc[j]).id != p.id,
        k < acc.len() ==> acc[k].id == p.id,
    ensures
        upsert_palette(acc, p) == if k < acc.len() {
            acc.update(k, p)
        } else {
            acc.push(p)
        },
    decreases acc.len(),
{
    if acc.len() == 0 {
        assert(upsert_palette(acc, p) =~= acc.push(p));
    } else if k == 0 {
        assert(acc[0].id == p.id);
        assert(seq![p] + acc.skip(1) =~= acc.update(0, p));
    } else {
        let tail = acc.skip(1);
        assert forall|j: int| 0 <= j < k - 1 implies (#[trigger] tail[j]).id != p.id by {
            assert(tail[j] == acc[j + 1]);
        }
        if k - 1 < tail.len() {
            assert(tail[k - 1] == acc[k]);
        }
        lemma_upsert_palette_at(tail, p, k - 1);
        if k < acc.len() {
            assert(acc.update(k, p) =~= seq![acc[0]] + tail.update(k - 1, p));
        } else {
            assert(acc.push(p) =~= seq![acc[0]] + tail.push(p));
        }
    }
}

/// Registers one resolved palette, replacing a previous one with the same
/// id.
fn upsert_palette_exec(list: &mut Vec<BulletPalette>, p: BulletPalette)
    ensures
        elem_views(final(list)@) == upsert_palette(elem_views(old(list)@), p@),
{
    let ghost lv = elem_views(list@);
    let mut k: usize = 0;
    while k < list.len() && !(list[k].id.0 == p.id.0)
        invariant
            0 <= k <= list@.len(),
            list@ == old(list)@,
            forall|j: int| 0 <= j < k ==> (#[trigger] elem_views(list@)[j]).id != p@.id,
        decreases list@.len() - k,
    {
        proof {
            assert(elem_views(list@)[k as int] == list@[k as int]@);
        }
        k = k + 1;
    }
    proof {
        if k < list@.len() {
            assert(elem_views(list@)[k as int] == list@[k as int]@);
        }
        lemma_upsert_palette_at(lv, p@, k as int);
    }
    if k < list.len() {
        let ghost before = list@;
        let _ = list.remove(k);
        list.insert(k, p);
        proof {
            assert(list@ =~= before.update(k as int, list@[k as int]));
            assert(elem_views(list@) =~= lv.update(k as int, list@[k as int]@));
        }
    } else {
        let ghost before = list@;
        list.push(p);
        proof {
            assert(elem_views(list@) =~= lv.push(list@[list@.len() - 1]@));
        }
    }
}

/// Decides whether a palette with the given id is registered.
fn contains_palette(list: &Vec<BulletPalette>, id: &String) -> (r: bool)
    ensures
        r == (palette_lookup(elem_views(list@), id@) is Some),
{
    let ghost lv = elem_views(list@);
    let mut i: usize = 0;
    proof {
        assert(lv.skip(0) =~= lv);
    }
    while i < list.len()
        invariant
            0 <= i <= lv.len(),
            lv == elem_views(list@),
            palette_lookup(lv, id@) == palette_lookup(lv.skip(i as int), id@),
        decreases lv.len() - i,
    {
        proof {
            assert(lv.skip(i as int)[0] == lv[i as int]);
            assert(lv[i as int] == list@[i as int]@);
            assert(lv.skip(i as int).skip(1) =~= lv.skip(i + 1));
        }
        if list[i].id.0 == *id {
            return true;
        }
        i = i + 1;
    }
    proof {
        assert(lv.skip(lv.len() as int) =~= Seq::<PaletteV>::empty());
    }
    false
}

impl Bullets {
    pub fn from_raw(palettes: Vec<RawBulletPalette>, bullets: Vec<RawBullet>) -> (r: Result<
        Bullets,
        ParseError,
    >)
        ensures
            match (r, bullets_of_raw(palette_views(palettes@), bullet_views(bullets@))) {
                (Ok(b), Ok(bv)) => b@ == bv,
                (Err(e), Err(ev)) => e@ == ev,
                _ => false,
            },
    {
        let mut bullet_palette_list: Vec<BulletPalette> = Vec::new();
        let mut rest = palettes;
        proof {
            assert(elem_views(bullet_palette_list@) =~= Seq::<PaletteV>::empty());
        }
        while rest.len() > 0
            invariant
                palettes_steps(elem_views(bullet_palette_list@), palette_views(rest@))
                    == palettes_steps(Seq::empty(), palette_views(palettes@)),
            decreases rest@.len(),
        {
            proof {
                assert(palette_views(rest@)[0] == rest@[0]@);
                assert(palette_views(rest@.remove(0)) =~= palette_views(rest@).skip(1));
            }
            let p = rest.remove(0);
            let palette = BulletPalette::from_raw_palette(p);
            upsert_palette_exec(&mut bullet_palette_list, palette);
        }
        let ghost ps = elem_views(bullet_palette_list@);
        let mut m: Vec<(TimingPoint, Vec<Bullet>)> = Vec::new();
        let mut rest_b = bullets;
        proof {
            assert(group_index_view(m@) =~= Seq::<(TimingPoint, Seq<BulletRV>)>::empty());
        }
        while rest_b.len() > 0
            invariant
                ps == elem_views(bullet_palette_list@),
                ps == palettes_steps(Seq::empty(), palette_views(palettes@)),
                bullets_map_steps(group_index_view(m@), bullet_views(rest_b@), ps)
                    == bullets_map_steps(Seq::empty(), bullet_views(bullets@), ps),
            decreases rest_b@.len(),
        {
            proof {
                assert(bullet_views(rest_b@)[0] == rest_b@[0]@);
                assert(bullet_views(rest_b@.remove(0)) =~= bullet_views(rest_b@).skip(1));
            }
            let b = rest_b.remove(0);
            if !contains_palette(&bullet_palette_list, &b.pallete_id) {
                let mut msg = String::from_str("Bullet uses invalid palette id ");
                msg.append(b.pallete_id.as_str());
                return Err(ParseError::SemanticError(msg));
            }
            let bullet = Bullet::from_raw_bullet(b);
            let t = bullet.position.time;
            push_group(&mut m, t, bullet);
        }
        Ok(Self { bullet_palette_list, bullets: m })
    }

    /// Looks up the palette registered under the given id.
    pub fn get_bullet_palette(&self, id: &BulletPaletteId) -> (r: Option<&BulletPalette>)
        ensures
            match (r, palette_lookup(elem_views(self.bullet_palette_list@), id@)) {
                (Some(p), Some(pv)) => p@ == pv,
                (None, None) => true,
                _ => false,
            },
    {
        let ghost lv = elem_views(self.bullet_palette_list@);
        let mut i: usize = 0;
        proof {
            assert(lv.skip(0) =~= lv);
        }
        while i < self.bullet_palette_list.len()
            invariant
                0 <= i <= lv.len(),
                lv == elem_views(self.bullet_palette_list@),
                palette_lookup(lv, id@) == palette_lookup(lv.skip(i as int), id@),
            decreases lv.len() - i,
        {
            proof {
                assert(lv.skip(i as int)[0] == lv[i as int]);
                assert(lv[i as int] == self.bullet_palette_list@[i as int]@);
                assert(lv.skip(i as int).skip(1) =~= lv.skip(i + 1));
            }
            if self.bullet_palette_list[i].id.0 == id.0 {
                return Some(&self.bullet_palette_list[i]);
            }
            i = i + 1;
        }
        proof {
            assert(lv.skip(lv.len() as int) =~= Seq::<PaletteV>::empty());
        }
        None
    }

    /// Returns the bullets sorted by time.
    pub fn all_bullets(&self) -> (r: Vec<Bullet>)
        ensures
            elem_views(r@) == flatten_groups(group_index_view(self.bullets@)),
    {
        let ghost gv = group_index_view(self.bullets@);
        let mut r: Vec<Bullet> = Vec::new();
        let mut i: usize = 0;
        proof {
            assert(gv.subrange(0, 0) =~= Seq::<(TimingPoint, Seq<BulletRV>)>::empty());
            assert(elem_views(r@) =~= Seq::<BulletRV>::empty());
        }
        while i < self.bullets.len()
            invariant
                0 <= i <= gv.len(),
                gv == group_index_view(self.bullets@),
                elem_views(r@) == flatten_groups(gv.subrange(0, i as int)),
            decreases gv.len() - i,
        {
            let mut j: usize = 0;
            proof {
                assert(gv[i as int].1 == elem_views(self.bullets@[i as int].1@));
            }
            while j < self.bullets[i].1.len()
                invariant
                    0 <= i < gv.len(),
                    0 <= j <= self.bullets@[i as int].1@.len(),
                    gv == group_index_view(self.bullets@),
                    gv[i as int].1 == elem_views(self.bullets@[i as int].1@),
                    elem_views(r@) == flatten_groups(gv.subrange(0, i as int)) + gv[
                        i as int
                    ].1.subrange(0, j as int),
                decreases self.bullets@[i as int].1@.len() - j,
            {
                proof {
                    assert(gv[i as int].1.subrange(0, j + 1) =~= gv[i as int].1.subrange(
                        0,
                        j as int,
                    ).push(gv[i as int].1[j as int]));
                    assert(gv[i as int].1[j as int] == self.bullets@[i as int].1@[j as int]@);
                }
                let ghost before = r@;
                let bullet = self.bullets[i].1[j].clone();
                r.push(bullet);
                proof {
                    assert(elem_views(r@) =~= elem_views(before).push(r@[r@.len() - 1]@));
                }
                j = j + 1;
            }
            proof {
                lemma_flatten_snoc(gv, i as int);
                assert(gv[i as int].1.subrange(0, gv[i as int].1.len() as int) =~= gv[
                    i as int
                ].1);
            }
            i = i + 1;
        }
        proof {
            assert(gv.subrange(0, gv.len() as int) =~= gv);
        }
        r
    }
}

/// Derived aggregate facts about the chart.
#[derive(Clone, Copy, Debug, PartialEq, Eq, Hash, Structural)]
pub struct ExtraMetadata {
    pub num_measures: u32,
}

impl View for ExtraMetadata {
    type V = ExtraMetadata;

    open spec fn view(&self) -> ExtraMetadata {
        *self
    }
}

/// The measure count: the larger of the last wall timing keys on either
/// side.
pub open spec fn extra_of(track: TrackV) -> ExtraMetadata {
    let a = track.walls_left[track.walls_left.len() - 1].0.measure;
    let b = track.walls_right[track.walls_right.len() - 1].0.measure;
    ExtraMetadata {
        num_measures: if a >= b {
            a
        } else {
            b
        },
    }
}

impl ExtraMetadata {
    /// Computes the aggregate facts; both wall indexes must be non-empty.
    pub fn new(track: &Track, notes: &Notes, bullets: &Bullets) -> (r: Self)
        requires
            track.walls_left@.len() > 0,
            track.walls_right@.len() > 0,
        ensures
            r == extra_of(track@),
    {
        let nl = track.walls_left.len();
        let nr = track.walls_right.len();
        let a = track.walls_left[nl - 1].0.measure;
        let b = track.walls_right[nr - 1].0.measure;
        proof {
            assert(track@.walls_left[track@.walls_left.len() - 1].0 == track.walls_left@[nl
                - 1].0);
            assert(track@.walls_right[track@.walls_right.len() - 1].0 == track.walls_right@[nr
                - 1].0);
        }
        let _ = notes;
        let _ = bullets;
        Self {
            num_measures: if a >= b {
                a
            } else {
                b
            },
        }
    }
}

/// The fully resolved chart.
#[derive(Debug, PartialEq, Eq, Hash)]
pub struct Ogkr {
    pub header: Header,
    pub composition: Composition,
    pub track: Track,
    pub notes: Notes,
    pub bullets: Bullets,
    pub click_sounds: Vec<ClickSound>,
    pub enemy_wave_assignment: EnemyWaveAssignment,
    pub extra_metadata: ExtraMetadata,
}

pub ghost struct OgkrV {
    pub header: HeaderV,
    pub composition: CompositionV,
    pub track: TrackV,
    pub notes: NotesV,
    pub bullets: BulletsV,
    pub click_sounds: Seq<ClickSound>,
    pub enemy_wave_assignment: EnemyWaveAssignment,
    pub extra_metadata: ExtraMetadata,
}

impl View for Ogkr {
    type V = OgkrV;

    open spec fn view(&self) -> OgkrV {
        OgkrV {
            header: self.header@,
            composition: self.composition@,
            track: self.track@,
            notes: self.notes@,
            bullets: self.bullets@,
            click_sounds: self.click_sounds@,
            enemy_wave_assignment: self.enemy_wave_assignment,
            extra_metadata: self.extra_metadata,
        }
    }
}

/// The resolved click sounds a raw list denotes.
pub open spec fn click_sounds_of(cs: Seq<RawClickSound>) -> Seq<ClickSound> {
    cs.map_values(|c: RawClickSound| click_sound_of(c))
}

/// The resolved model the raw aggregate denotes: tracks first, then notes
/// against the resolved lanes, then bullets against the resolved palettes.
pub open spec fn ogkr_of_raw(raw: RawOgkrV) -> Result<OgkrV, ParseErrV> {
    match track_of_raw(raw.track) {
        Err(e) => Err(e),
        Ok(track) => match notes_of_raw(raw.notes, track.lanes_data) {
            Err(e) => Err(e),
            Ok(notes) => match bullets_of_raw(raw.bullet_pallete_list, raw.bullets) {
                Err(e) => Err(e),
                Ok(bullets) => Ok(
                    OgkrV {
                        header: raw.header,
                        composition: composition_of_raw(raw.composition),
                        track,
                        notes,
                        bullets,
                        click_sounds: click_sounds_of(raw.click_sounds),
                        enemy_wave_assignment: raw.enemy_wave_assignment,
                        extra_metadata: extra_of(track),
                    },
                ),
            },
        },
    }
}

/// The inputs on which full resolution runs without tripping any internal
/// guard: every hold can be interpolated against its lane, and when all
/// stages succeed the wall indexes the measure count is read from are
/// non-empty.
pub open spec fn resolution_safe(raw: RawOgkrV) -> bool {
    match track_of_raw(raw.track) {
        Ok(track) => {
            &&& holds_ok(raw.notes.holds, track.lanes_data)
            &&& holds_ok(raw.notes.critical_holds, track.lanes_data)
            &&& (ogkr_of_raw(raw) is Ok ==> track.walls_left.len() > 0 && track.walls_right.len()
                > 0)
        },
        Err(_) => true,
    }
}

impl Ogkr {
    fn map_click_sounds(click_sounds: Vec<RawClickSound>) -> (r: Vec<ClickSound>)
        ensures
            r@ == click_sounds_of(click_sounds@),
    {
        let mut r: Vec<ClickSound> = Vec::new();
        let mut i: usize = 0;
        proof {
            assert(click_sounds_of(click_sounds@.subrange(0, 0)) =~= Seq::<ClickSound>::empty());
        }
        while i < click_sounds.len()
            invariant
                0 <= i <= click_sounds@.len(),
                r@ == click_sounds_of(click_sounds@.subrange(0, i as int)),
            decreases click_sounds@.len() - i,
        {
            proof {
                assert(click_sounds_of(click_sounds@.subrange(0, i + 1)) =~= click_sounds_of(
                    click_sounds@.subrange(0, i as int),
                ).push(click_sound_of(click_sounds@[i as int])));
            }
            let c = click_sounds[i];
            r.push(ClickSound::from_raw_click(c));
            i = i + 1;
        }
        proof {
            assert(click_sounds@.subrange(0, click_sounds@.len() as int) =~= click_sounds@);
        }
        r
    }

    pub fn from_raw(raw: RawOgkr) -> (r: Result<Self, ParseError>)
        requires
            resolution_safe(raw@),
        ensures
            match (r, ogkr_of_raw(raw@)) {
                (Ok(ogkr), Ok(ov)) => ogkr@ == ov,
                (Err(e), Err(ev)) => e@ == ev,
                _ => false,
            },
    {
        let header = raw.header;
        let composition = Composition::from_raw(raw.composition);
        let track = match Track::from_raw(raw.track) {
            Ok(t) => t,
            Err(e) => {
                return Err(e);
            },
        };
        let notes = match Notes::from_raw(raw.notes, &track) {
            Ok(n) => n,
            Err(e) => {
                return Err(e);
            },
        };
        let bullets = match Bullets::from_raw(raw.bullet_pallete_list, raw.bullets) {
            Ok(b) => b,
            Err(e) => {
                return Err(e);
            },
        };
        let click_sounds = Self::map_click_sounds(raw.click_sounds);
        let enemy_wave_assignment = raw.enemy_wave_assignment;
        let extra_metadata = ExtraMetadata::new(&track, &notes, &bullets);
        Ok(
            Self {
                header,
                composition,
                track,
                notes,
                bullets,
                click_sounds,
                enemy_wave_assignment,
                extra_metadata,
            },
        )
    }
}

/// Runs semantic resolution on the raw aggregate.
pub fn parse_raw_ogkr(raw: RawOgkr) -> (r: Result<Ogkr, ParseError>)
    requires
        resolution_safe(raw@),
    ensures
        match (r, ogkr_of_raw(raw@)) {
            (Ok(ogkr), Ok(ov)) => ogkr@ == ov,
            (Err(e), Err(ev)) => e@ == ev,
            _ => false,
        },
{
    Ogkr::from_raw(raw)
}


/// Reference integrity for taps: when tap resolution succeeds, every tap's
/// lane id resolves against the lane lookup; a dangling reference always
/// surfaces as an error.
pub proof fn lemma_tap_reference_integrity(
    m: Seq<(TimingPoint, Seq<TapNote>)>,
    taps: Seq<RawTap>,
    lanes: Seq<LaneV>,
    is_critical: bool,
)
    ensures
        tap_map_steps(m, taps, lanes, is_critical) is Ok ==> forall|i: int|
            0 <= i < taps.len() ==> lane_lookup(
                lanes,
                LaneId((#[trigger] taps[i]).lane_group_id),
            ) is Some,
    decreases taps.len(),
{
    if taps.len() > 0 {
        match lane_lookup(lanes, LaneId(taps[0].lane_group_id)) {
            Some(lane) => {
                lemma_tap_reference_integrity(
                    add_group(
                        m,
                        timing_of(taps[0].time),
                        tap_note_of(taps[0], lane.lane_type, is_critical),
                    ),
                    taps.skip(1),
                    lanes,
                    is_critical,
                );
                if tap_map_steps(m, taps, lanes, is_critical) is Ok {
                    assert forall|i: int| 0 <= i < taps.len() implies lane_lookup(
                        lanes,
                        LaneId((#[trigger] taps[i]).lane_group_id),
                    ) is Some by {
                        if i > 0 {
                            assert(taps.skip(1)[i - 1] == taps[i]);
                        }
                    }
                }
            },
            None => {},
        }
    }
}

/// Reference integrity for holds.
pub proof fn lemma_hold_reference_integrity(
    m: Seq<(TimingPoint, Seq<HoldNoteV>)>,
    holds: Seq<RawHold>,
    lanes: Seq<LaneV>,
    is_critical: bool,
)
    ensures
        hold_map_steps(m, holds, lanes, is_critical) is Ok ==> forall|i: int|
            0 <= i < holds.len() ==> lane_lookup(
                lanes,
                LaneId((#[trigger] holds[i]).lane_group_id),
            ) is Some,
    decreases holds.len(),
{
    if holds.len() > 0 {
        match lane_lookup(lanes, LaneId(holds[0].lane_group_id)) {
            Some(lane) => {
                lemma_hold_reference_integrity(
                    add_group(
                        m,
                        timing_of(holds[0].start_time),
                        hold_note_of(holds[0], lane, is_critical),
                    ),
                    holds.skip(1),
                    lanes,
                    is_critical,
                );
                if hold_map_steps(m, holds, lanes, is_critical) is Ok {
                    assert forall|i: int| 0 <= i < holds.len() implies lane_lookup(
                        lanes,
                        LaneId((#[trigger] holds[i]).lane_group_id),
                    ) is Some by {
                        if i > 0 {
                            assert(holds.skip(1)[i - 1] == holds[i]);
                        }
                    }
                }
            },
            None => {},
        }
    }
}

/// Reference integrity for bullets: when bullet resolution succeeds, every
/// bullet's palette id is registered.
pub proof fn lemma_bullet_reference_integrity(
    m: Seq<(TimingPoint, Seq<BulletRV>)>,
    bs: Seq<RawBulletV>,
    ps: Seq<PaletteV>,
)
    ensures
        bullets_map_steps(m, bs, ps) is Ok ==> forall|i: int|
            0 <= i < bs.len() ==> palette_lookup(ps, (#[trigger] bs[i]).pallete_id) is Some,
    decreases bs.len(),
{
    if bs.len() > 0 {
        match palette_lookup(ps, bs[0].pallete_id) {
            Some(_) => {
                lemma_bullet_reference_integrity(
                    add_group(m, timing_of(bs[0].time), bullet_of(bs[0])),
                    bs.skip(1),
                    ps,
                );
                if bullets_map_steps(m, bs, ps) is Ok {
                    assert forall|i: int| 0 <= i < bs.len() implies palette_lookup(
                        ps,
                        (#[trigger] bs[i]).pallete_id,
                    ) is Some by {
                        if i > 0 {
                            assert(bs.skip(1)[i - 1] == bs[i]);
                        }
                    }
                }
            },
            None => {},
        }
    }
}

/// Strictly increasing point times (no duplicate timing keys).
pub open spec fn points_strictly_sorted(s: Seq<TrackPosition>) -> bool {
    forall|i: int, j: int|
        0 <= i < j < s.len() ==> tp_lt(#[trigger] s[i].time, #[trigger] s[j].time)
}

/// Hold interpolation correctness: when the hold's start and end times
/// exactly match lane points at positions `i <= j` of a strictly sorted
/// lane, the interpolated path is exactly the lane points `i..=j`, with no
/// synthesized endpoints.
pub proof fn lemma_interval_exact(
    points: Seq<TrackPosition>,
    start: TrackPosition,
    end: TrackPosition,
    i: int,
    j: int,
)
    requires
        points_strictly_sorted(points),
        0 <= i <= j < points.len(),
        points[i].time == start.time,
        points[j].time == end.time,
    ensures
        interval_points(points, start, end) == points.subrange(i, j + 1),
        interval_points(points, start, end).len() == j - i + 1,
{
    assert(points_sorted(points));
    lemma_bsearch_sorted(points, start.time, 0, points.len() as int);
    lemma_bsearch_sorted(points, end.time, 0, points.len() as int);
    match bsearch_spec(points, start.time, 0, points.len() as int) {
        Ok(k) => {
            assert(k == i) by {
                if k < i {
                    assert(tp_lt(points[k].time, points[i].time));
                }
                if k > i {
                    assert(tp_lt(points[i].time, points[k].time));
                }
            }
        },
        Err(k) => {
            if i < k {
                assert(tp_lt(points[i].time, start.time));
            } else {
                assert(tp_lt(start.time, points[i].time));
            }
            assert(false);
        },
    }
    match bsearch_spec(points, end.time, 0, points.len() as int) {
        Ok(k) => {
            assert(k == j) by {
                if k < j {
                    assert(tp_lt(points[k].time, points[j].time));
                }
                if k > j {
                    assert(tp_lt(points[j].time, points[k].time));
                }
            }
        },
        Err(k) => {
            if j < k {
                assert(tp_lt(points[j].time, end.time));
            } else {
                assert(tp_lt(end.time, points[j].time));
            }
            assert(false);
        },
    }
}

/// Hold interpolation synthesis: when neither endpoint time matches a lane
/// point and the search range is valid, the path begins with the
/// synthesized start and ends with the synthesized end, and it never holds
/// duplicate adjacent entries at either splice boundary.
pub proof fn lemma_interval_synthesis(
    points: Seq<TrackPosition>,
    start: TrackPosition,
    end: TrackPosition,
)
    requires
        points_sorted(points),
        forall|k: int| 0 <= k < points.len() ==> (#[trigger] points[k]).time != start.time,
        forall|k: int| 0 <= k < points.len() ==> (#[trigger] points[k]).time != end.time,
        interval_in_range(points, start, end),
    ensures
        ({
            let r = interval_points(points, start, end);
            &&& r.len() >= 3
            &&& r[0] == start
            &&& r[r.len() - 1] == end
            &&& r[0] != r[1]
            &&& r[r.len() - 2] != r[r.len() - 1]
        }),
{
    lemma_bsearch_sorted(points, start.time, 0, points.len() as int);
    lemma_bsearch_sorted(points, end.time, 0, points.len() as int);
    let (start_index, start_exact) = interval_start(points, start);
    let (end_index, end_exact) = interval_end(points, end);
    assert(!start_exact) by {
        if bsearch_spec(points, start.time, 0, points.len() as int) is Ok {
            let k = interval_start(points, start).0;
            assert(points[k].time == start.time);
        }
    }
    assert(!end_exact) by {
        if bsearch_spec(points, end.time, 0, points.len() as int) is Ok {
            let k = interval_end(points, end).0;
            assert(points[k].time == end.time);
        }
    }
    let r = interval_points(points, start, end);
    let mid = points.subrange(start_index, end_index + 1);
    assert(r == (seq![start] + mid).push(end));
    assert(r[0] == start);
    assert(r.len() == mid.len() + 2);
    assert(r[1] == mid[0] && mid[0] == points[start_index]);
    assert(r[r.len() - 2] == mid[mid.len() - 1] && mid[mid.len() - 1] == points[end_index]);
    assert(points[start_index].time != start.time);
    assert(points[end_index].time != end.time);
    assert(r[r.len() - 1] == end);
}

proof fn lemma_bpm_index_sorted(idx: Seq<(TimingPoint, BpmChange)>, changes: Seq<RawBpmChange>)
    requires
        keys_sorted(idx),
    ensures
        keys_sorted(bpm_index_steps(idx, changes)),
    decreases changes.len(),
{
    if changes.len() > 0 {
        lemma_add_flat_sorted(idx, timing_of(changes[0].time), bpm_change_of(changes[0]));
        lemma_bpm_index_sorted(add_flat(idx, timing_of(changes[0].time), bpm_change_of(changes[0])), changes.skip(1));
    }
}

proof fn lemma_meter_index_sorted(idx: Seq<(TimingPoint, MeterChange)>, changes: Seq<RawMeterChange>)
    requires
        keys_sorted(idx),
    ensures
        keys_sorted(meter_index_steps(idx, changes)),
    decreases changes.len(),
{
    if changes.len() > 0 {
        lemma_add_flat_sorted(idx, timing_of(changes[0].time), meter_change_of(changes[0]));
        lemma_meter_index_sorted(add_flat(idx, timing_of(changes[0].time), meter_change_of(changes[0])), changes.skip(1));
    }
}

proof fn lemma_soflan_index_sorted(idx: Seq<(TimingPoint, SoflanRV)>, changes: Seq<RawSoflanV>)
    requires
        keys_sorted(idx),
    ensures
        keys_sorted(soflan_index_steps(idx, changes)),
    decreases changes.len(),
{
    if changes.len() > 0 {
        lemma_add_flat_sorted(idx, timing_of(changes[0].time), soflan_of(changes[0]));
        lemma_soflan_index_sorted(add_flat(idx, timing_of(changes[0].time), soflan_of(changes[0])), changes.skip(1));
    }
}

proof fn lemma_lanes_group_index_sorted(idx: Seq<(TimingPoint, Seq<LaneId>)>, changes: Seq<LaneV>)
    requires
        keys_sorted(idx),
    ensures
        keys_sorted(lanes_group_index(idx, changes)),
    decreases changes.len(),
{
    if changes.len() > 0 {
        lemma_add_group_sorted(idx, changes[0].points[0].time, changes[0].id);
        lemma_lanes_group_index_sorted(add_group(idx, changes[0].points[0].time, changes[0].id), changes.skip(1));
    }
}

proof fn lemma_lanes_flat_index_sorted(idx: Seq<(TimingPoint, LaneId)>, changes: Seq<LaneV>)
    requires
        keys_sorted(idx),
    ensures
        keys_sorted(lanes_flat_index(idx, changes)),
    decreases changes.len(),
{
    if changes.len() > 0 {
        lemma_add_flat_sorted(idx, changes[0].points[0].time, changes[0].id);
        lemma_lanes_flat_index_sorted(add_flat(idx, changes[0].points[0].time, changes[0].id), changes.skip(1));
    }
}

proof fn lemma_colorful_index_sorted(idx: Seq<(TimingPoint, ColorfulLaneId)>, changes: Seq<ColorfulLaneV>)
    requires
        keys_sorted(idx),
    ensures
        keys_sorted(colorful_index(idx, changes)),
    decreases changes.len(),
{
    if changes.len() > 0 {
        lemma_add_flat_sorted(idx, changes[0].start.position.time, changes[0].id);
        lemma_colorful_index_sorted(add_flat(idx, changes[0].start.position.time, changes[0].id), changes.skip(1));
    }
}

proof fn lemma_beams_index_sorted(idx: Seq<(TimingPoint, BeamId)>, changes: Seq<BeamV>)
    requires
        keys_sorted(idx),
    ensures
        keys_sorted(beams_index(idx, changes)),
    decreases changes.len(),
{
    if changes.len() > 0 {
        lemma_add_flat_sorted(idx, changes[0].start.position.time, changes[0].id);
        lemma_beams_index_sorted(add_flat(idx, changes[0].start.position.time, changes[0].id), changes.skip(1));
    }
}

proof fn lemma_obliques_index_sorted(idx: Seq<(TimingPoint, ObliqueBeamId)>, changes: Seq<ObliqueBeamV>)
    requires
        keys_sorted(idx),
    ensures
        keys_sorted(obliques_index(idx, changes)),
    decreases changes.len(),
{
    if changes.len() > 0 {
        lemma_add_flat_sorted(idx, changes[0].start.position.time, changes[0].id);
        lemma_obliques_index_sorted(add_flat(idx, changes[0].start.position.time, changes[0].id), changes.skip(1));
    }
}

proof fn lemma_bell_map_sorted(idx: Seq<(TimingPoint, Seq<BellNoteV>)>, changes: Seq<RawBellV>)
    requires
        keys_sorted(idx),
    ensures
        keys_sorted(bell_map_steps(idx, changes)),
    decreases changes.len(),
{
    if changes.len() > 0 {
        lemma_add_group_sorted(idx, timing_of(changes[0].time), bell_note_of(changes[0]));
        lemma_bell_map_sorted(add_group(idx, timing_of(changes[0].time), bell_note_of(changes[0])), changes.skip(1));
    }
}

proof fn lemma_flick_map_sorted(
    idx: Seq<(TimingPoint, Seq<FlickNote>)>,
    flicks: Seq<RawFlick>,
    is_critical: bool,
)
    requires
        keys_sorted(idx),
    ensures
        keys_sorted(flick_map_steps(idx, flicks, is_critical)),
    decreases flicks.len(),
{
    if flicks.len() > 0 {
        lemma_add_group_sorted(idx, timing_of(flicks[0].time), flick_note_of(flicks[0], is_critical));
        lemma_flick_map_sorted(
            add_group(idx, timing_of(flicks[0].time), flick_note_of(flicks[0], is_critical)),
            flicks.skip(1),
            is_critical,
        );
    }
}

proof fn lemma_tap_map_sorted(
    m: Seq<(TimingPoint, Seq<TapNote>)>,
    taps: Seq<RawTap>,
    lanes: Seq<LaneV>,
    is_critical: bool,
)
    requires
        keys_sorted(m),
    ensures
        match tap_map_steps(m, taps, lanes, is_critical) {
            Ok(mv) => keys_sorted(mv),
            Err(_) => true,
        },
    decreases taps.len(),
{
    if taps.len() > 0 {
        match lane_lookup(lanes, LaneId(taps[0].lane_group_id)) {
            Some(lane) => {
                let note = tap_note_of(taps[0], lane.lane_type, is_critical);
                lemma_add_group_sorted(m, timing_of(taps[0].time), note);
                lemma_tap_map_sorted(
                    add_group(m, timing_of(taps[0].time), note),
                    taps.skip(1),
                    lanes,
                    is_critical,
                );
            },
            None => {},
        }
    }
}

proof fn lemma_hold_map_sorted(
    m: Seq<(TimingPoint, Seq<HoldNoteV>)>,
    holds: Seq<RawHold>,
    lanes: Seq<LaneV>,
    is_critical: bool,
)
    requires
        keys_sorted(m),
    ensures
        match hold_map_steps(m, holds, lanes, is_critical) {
            Ok(mv) => keys_sorted(mv),
            Err(_) => true,
        },
    decreases holds.len(),
{
    if holds.len() > 0 {
        match lane_lookup(lanes, LaneId(holds[0].lane_group_id)) {
            Some(lane) => {
                let note = hold_note_of(holds[0], lane, is_critical);
                lemma_add_group_sorted(m, timing_of(holds[0].start_time), note);
                lemma_hold_map_sorted(
                    add_group(m, timing_of(holds[0].start_time), note),
                    holds.skip(1),
                    lanes,
                    is_critical,
                );
            },
            None => {},
        }
    }
}

proof fn lemma_bullets_map_sorted(
    m: Seq<(TimingPoint, Seq<BulletRV>)>,
    bs: Seq<RawBulletV>,
    ps: Seq<PaletteV>,
)
    requires
        keys_sorted(m),
    ensures
        match bullets_map_steps(m, bs, ps) {
            Ok(mv) => keys_sorted(mv),
            Err(_) => true,
        },
    decreases bs.len(),
{
    if bs.len() > 0 {
        match palette_lookup(ps, bs[0].pallete_id) {
            Some(_) => {
                lemma_add_group_sorted(m, timing_of(bs[0].time), bullet_of(bs[0]));
                lemma_bullets_map_sorted(
                    add_group(m, timing_of(bs[0].time), bullet_of(bs[0])),
                    bs.skip(1),
                    ps,
                );
            },
            None => {},
        }
    }
}

/// `add_group_all` keeps the strict key order; its keys are the inserted
/// key or old keys.
proof fn lemma_add_group_all_sorted<V>(idx: Seq<(TimingPoint, Seq<V>)>, t: TimingPoint, vs: Seq<V>)
    requires
        keys_sorted(idx),
    ensures
        keys_sorted(add_group_all(idx, t, vs)),
        forall|m: int|
            0 <= m < add_group_all(idx, t, vs).len() ==> (#[trigger] add_group_all(idx, t, vs)[m].0
                == t || exists|j: int|
                0 <= j < idx.len() && #[trigger] idx[j].0 == add_group_all(idx, t, vs)[m].0),
    decreases idx.len(),
{
    let r = add_group_all(idx, t, vs);
    if idx.len() == 0 {
    } else if tp_lt(t, idx[0].0) {
        assert forall|i: int, j: int| 0 <= i < j < r.len() implies tp_lt(
            #[trigger] r[i].0,
            #[trigger] r[j].0,
        ) by {
            if i == 0 {
                assert(r[j].0 == idx[j - 1].0);
                if j > 1 {
                    assert(tp_lt(idx[0].0, idx[j - 1].0));
                }
            } else {
                assert(r[i].0 == idx[i - 1].0 && r[j].0 == idx[j - 1].0);
            }
        }
        assert forall|m: int| 0 <= m < r.len() implies (#[trigger] r[m].0 == t || exists|j: int|
            0 <= j < idx.len() && #[trigger] idx[j].0 == r[m].0) by {
            if m > 0 {
                assert(idx[m - 1].0 == r[m].0);
            }
        }
    } else if t == idx[0].0 {
        assert forall|i: int, j: int| 0 <= i < j < r.len() implies tp_lt(
            #[trigger] r[i].0,
            #[trigger] r[j].0,
        ) by {
            if i == 0 {
                assert(r[j].0 == idx[j].0);
                assert(tp_lt(idx[0].0, idx[j].0));
            } else {
                assert(r[i].0 == idx[i].0 && r[j].0 == idx[j].0);
            }
        }
        assert forall|m: int| 0 <= m < r.len() implies (#[trigger] r[m].0 == t || exists|j: int|
            0 <= j < idx.len() && #[trigger] idx[j].0 == r[m].0) by {
            if m > 0 {
                assert(idx[m].0 == r[m].0);
            }
        }
    } else {
        let tail = idx.skip(1);
        assert(keys_sorted(tail)) by {
            assert(forall|i: int, j: int|
                0 <= i < j < tail.len() ==> tp_lt(#[trigger] tail[i].0, #[trigger] tail[j].0)
                    == tp_lt(idx[i + 1].0, idx[j + 1].0));
        }
        lemma_add_group_all_sorted(tail, t, vs);
        let rt = add_group_all(tail, t, vs);
        assert(tp_lt(idx[0].0, t));
        assert forall|i: int, j: int| 0 <= i < j < r.len() implies tp_lt(
            #[trigger] r[i].0,
            #[trigger] r[j].0,
        ) by {
            if i == 0 {
                assert(r[j].0 == rt[j - 1].0);
                if rt[j - 1].0 == t {
                } else {
                    let w = choose|w: int| 0 <= w < tail.len() && #[trigger] tail[w].0 == rt[j - 1].0;
                    assert(tp_lt(idx[0].0, idx[w + 1].0));
                }
            } else {
                assert(r[i].0 == rt[i - 1].0 && r[j].0 == rt[j - 1].0);
            }
        }
        assert forall|m: int| 0 <= m < r.len() implies (#[trigger] r[m].0 == t || exists|j: int|
            0 <= j < idx.len() && #[trigger] idx[j].0 == r[m].0) by {
            if m == 0 {
                assert(idx[0].0 == r[0].0);
            } else {
                assert(r[m].0 == rt[m - 1].0);
                if rt[m - 1].0 != t {
                    let w = choose|w: int| 0 <= w < tail.len() && #[trigger] tail[w].0 == rt[m - 1].0;
                    assert(idx[w + 1].0 == r[m].0);
                }
            }
        }
    }
}

proof fn lemma_merge_sorted<V>(
    base: Seq<(TimingPoint, Seq<V>)>,
    over: Seq<(TimingPoint, Seq<V>)>,
)
    requires
        keys_sorted(base),
    ensures
        keys_sorted(merge_entries(base, over)),
    decreases over.len(),
{
    if over.len() > 0 {
        lemma_add_group_all_sorted(base, over[0].0, over[0].1);
        lemma_merge_sorted(add_group_all(base, over[0].0, over[0].1), over.skip(1));
    }
}

/// The ordering invariant: every ordered index of a resolved chart carries
/// strictly increasing timing keys, so iterating any of them yields
/// non-decreasing time.
pub proof fn lemma_resolved_indexes_sorted(raw: RawOgkrV, o: OgkrV)
    requires
        ogkr_of_raw(raw) == Ok::<OgkrV, ParseErrV>(o),
    ensures
        keys_sorted(o.composition.bpm_changes),
        keys_sorted(o.composition.meter_changes),
        keys_sorted(o.composition.soflans),
        keys_sorted(o.track.lanes_left),
        keys_sorted(o.track.lanes_center),
        keys_sorted(o.track.lanes_right),
        keys_sorted(o.track.enemy_lanes),
        keys_sorted(o.track.walls_left),
        keys_sorted(o.track.walls_right),
        keys_sorted(o.track.colorful_lanes),
        keys_sorted(o.track.beams),
        keys_sorted(o.track.oblique_beams),
        keys_sorted(o.notes.taps),
        keys_sorted(o.notes.holds),
        keys_sorted(o.notes.bells),
        keys_sorted(o.notes.flicks),
        keys_sorted(o.bullets.bullets),
{
    lemma_bpm_index_sorted(Seq::empty(), raw.composition.bpm_changes);
    lemma_meter_index_sorted(Seq::empty(), raw.composition.meter_changes);
    lemma_soflan_index_sorted(Seq::empty(), raw.composition.soflans);
    match lanes_data_steps(Seq::empty(), raw.track.lanes_left, LaneType::Left) {
        Err(_) => {},
        Ok(ll) => {
            lemma_lanes_group_index_sorted(Seq::empty(), ll);
        },
    }
    match lanes_data_steps(Seq::empty(), raw.track.lanes_center, LaneType::Center) {
        Err(_) => {},
        Ok(lc) => {
            lemma_lanes_group_index_sorted(Seq::empty(), lc);
        },
    }
    match lanes_data_steps(Seq::empty(), raw.track.lanes_right, LaneType::Right) {
        Err(_) => {},
        Ok(lr) => {
            lemma_lanes_group_index_sorted(Seq::empty(), lr);
        },
    }
    match lanes_data_steps(Seq::empty(), raw.track.enemy_lanes, LaneType::Enemy) {
        Err(_) => {},
        Ok(en) => {
            lemma_lanes_group_index_sorted(Seq::empty(), en);
        },
    }
    match walls_data_steps(Seq::empty(), raw.track.walls_left, LaneType::WallLeft) {
        Err(_) => {},
        Ok(wl) => {
            lemma_lanes_flat_index_sorted(Seq::empty(), wl);
        },
    }
    match walls_data_steps(Seq::empty(), raw.track.walls_right, LaneType::WallRight) {
        Err(_) => {},
        Ok(wr) => {
            lemma_lanes_flat_index_sorted(Seq::empty(), wr);
        },
    }
    match colorful_data_steps(Seq::empty(), raw.track.colorful_lanes) {
        Err(_) => {},
        Ok(cl) => {
            lemma_colorful_index_sorted(Seq::empty(), cl);
        },
    }
    match beams_data_steps(Seq::empty(), raw.track.beams) {
        Err(_) => {},
        Ok(bm) => {
            lemma_beams_index_sorted(Seq::empty(), bm);
        },
    }
    match obliques_data_steps(Seq::empty(), raw.track.oblique_beams) {
        Err(_) => {},
        Ok(ob) => {
            lemma_obliques_index_sorted(Seq::empty(), ob);
        },
    }
    match track_of_raw(raw.track) {
        Err(_) => {},
        Ok(track) => {
            let lanes = track.lanes_data;
            match tap_map_steps(Seq::empty(), raw.notes.taps, lanes, false) {
                Err(_) => {},
                Ok(t1) => {
                    lemma_tap_map_sorted(Seq::empty(), raw.notes.taps, lanes, false);
                    match tap_map_steps(Seq::empty(), raw.notes.critical_taps, lanes, true) {
                        Err(_) => {},
                        Ok(t2) => {
                            lemma_merge_sorted(t1, t2);
                        },
                    }
                },
            }
            match hold_map_steps(Seq::empty(), raw.notes.holds, lanes, false) {
                Err(_) => {},
                Ok(h1) => {
                    lemma_hold_map_sorted(Seq::empty(), raw.notes.holds, lanes, false);
                    match hold_map_steps(Seq::empty(), raw.notes.critical_holds, lanes, true) {
                        Err(_) => {},
                        Ok(h2) => {
                            lemma_merge_sorted(h1, h2);
                        },
                    }
                },
            }
            lemma_bell_map_sorted(Seq::empty(), raw.notes.bells);
            let f1 = flick_map_steps(Seq::empty(), raw.notes.flicks, false);
            lemma_flick_map_sorted(Seq::empty(), raw.notes.flicks, false);
            let f2 = flick_map_steps(Seq::empty(), raw.notes.critical_flicks, true);
            lemma_merge_sorted(f1, f2);
            let ps = palettes_steps(Seq::empty(), raw.bullet_pallete_list);
            lemma_bullets_map_sorted(Seq::empty(), raw.bullets, ps);
        },
    }
}


/// Decides `interval_ok` for a hold span against a lane's point list: the
/// candidate path is computed and its splice boundaries are inspected, so
/// unverified callers can establish the interpolation's precondition at run
/// time.
pub fn interval_check(points: &Vec<TrackPosition>, start: TrackPosition, end: TrackPosition) -> (r:
    bool)
    ensures
        r == interval_ok(points@, start, end),
{
    let len = points.len();
    let (start_index, start_exact) = match binary_search_by_time(points, start.time) {
        Ok(idx) => (idx, true),
        Err(idx) => (idx, false),
    };
    let (end_index, end_exact) = match binary_search_by_time(points, end.time) {
        Ok(idx) => (idx, true),
        Err(idx) => (
            if idx > 0 {
                idx - 1
            } else {
                idx
            },
            false,
        ),
    };
    if start_index <= end_index && end_index < len {
        let mut result: Vec<TrackPosition> = Vec::new();
        if !start_exact {
            result.push(start);
        }
        let mut i = start_index;
        while i <= end_index
            invariant
                start_index <= i <= end_index + 1,
                end_index < usize::MAX,
                end_index < points@.len(),
                result@ == (if start_exact {
                    Seq::<TrackPosition>::empty()
                } else {
                    seq![start]
                }) + points@.subrange(start_index as int, i as int),
            decreases end_index + 1 - i,
        {
            proof {
                assert(points@.subrange(start_index as int, i + 1) =~= points@.subrange(
                    start_index as int,
                    i as int,
                ).push(points@[i as int]));
            }
            result.push(points[i]);
            i = i + 1;
        }
        if !end_exact {
            result.push(end);
        }
        proof {
            if start_exact {
                assert(Seq::<TrackPosition>::empty() + points@.subrange(
                    start_index as int,
                    end_index + 1,
                ) =~= points@.subrange(start_index as int, end_index + 1));
            }
            assert(result@ == interval_points(points@, start, end));
        }
        let n = result.len();
        if n < 2 {
            false
        } else {
            result[0] != result[1] && result[n - 2] != result[n - 1]
        }
    } else {
        true
    }
}

/// Decides `holds_ok`: every hold in the list either cites an unknown lane
/// (left for resolution to reject) or can be interpolated against its lane.
pub fn holds_check(holds: &Vec<RawHold>, track: &Track) -> (r: bool)
    ensures
        r == holds_ok(holds@, elem_views(track.lanes_data@)),
{
    let ghost lanes = elem_views(track.lanes_data@);
    let mut i: usize = 0;
    while i < holds.len()
        invariant
            0 <= i <= holds@.len(),
            lanes == elem_views(track.lanes_data@),
            forall|j: int|
                0 <= j < i ==> match lane_lookup(
                    lanes,
                    LaneId((#[trigger] holds@[j]).lane_group_id),
                ) {
                    Some(lane) => interval_ok(
                        lane.points,
                        hold_start(holds@[j]),
                        hold_end(holds@[j]),
                    ),
                    None => true,
                },
        decreases holds@.len() - i,
    {
        let hold = holds[i];
        match track.get_lane(LaneId(hold.lane_group_id)) {
            Some(lane) => {
                let start = TrackPosition::from_command_info(
                    hold.start_time,
                    hold.start_x_position,
                    hold.start_x_offset,
                );
                let end = TrackPosition::from_command_info(
                    hold.end_time,
                    hold.end_x_position,
                    hold.end_x_offset,
                );
                if !interval_check(&lane.points, start, end) {
                    return false;
                }
            },
            None => {},
        }
        i = i + 1;
    }
    true
}

/// Resolution behind run-time guards: where `parse_raw_ogkr` asks its caller
/// to exclude the inputs on which the interpolation's splice assertions or
/// the measure count would trip, this entry point checks those guards
/// itself and turns them into semantic errors, so unverified callers need
/// not establish `resolution_safe` beforehand.
pub fn parse_raw_ogkr_checked(raw: RawOgkr) -> (r: Result<Ogkr, ParseError>)
    ensures
        resolution_safe(raw@) ==> match (r, ogkr_of_raw(raw@)) {
            (Ok(ogkr), Ok(ov)) => ogkr@ == ov,
            (Err(e), Err(ev)) => e@ == ev,
            _ => false,
        },
        !resolution_safe(raw@) ==> r is Err,
{
    let header = raw.header;
    let composition = Composition::from_raw(raw.composition);
    let track = match Track::from_raw(raw.track) {
        Ok(t) => t,
        Err(e) => {
            return Err(e);
        },
    };
    if !holds_check(&raw.notes.holds, &track) || !holds_check(&raw.notes.critical_holds, &track) {
        return Err(
            ParseError::SemanticError(
                String::from_str("hold note cannot be interpolated against its lane"),
            ),
        );
    }
    let notes = match Notes::from_raw(raw.notes, &track) {
        Ok(n) => n,
        Err(e) => {
            return Err(e);
        },
    };
    let bullets = match Bullets::from_raw(raw.bullet_pallete_list, raw.bullets) {
        Ok(b) => b,
        Err(e) => {
            return Err(e);
        },
    };
    if track.walls_left.len() == 0 || track.walls_right.len() == 0 {
        return Err(
            ParseError::SemanticError(
                String::from_str("wall lanes are required for the measure count"),
            ),
        );
    }
    let click_sounds = Ogkr::map_click_sounds(raw.click_sounds);
    let enemy_wave_assignment = raw.enemy_wave_assignment;
    let extra_metadata = ExtraMetadata::new(&track, &notes, &bullets);
    Ok(
        Ogkr {
            header,
            composition,
            track,
            notes,
            bullets,
            click_sounds,
            enemy_wave_assignment,
            extra_metadata,
        },
    )
}

} // verus!
