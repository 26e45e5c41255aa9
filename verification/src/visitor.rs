//! The integer side of walking a level: object ids, BSP branches, markers, and the height
//! ranges that moving floors and ceilings sweep.
use vstd::prelude::*;
use vstd::string::StringSliceAdditionalSpecFns;
use crate::meta::{HeightDef, HeightEffectDef, HeightRef, MoveEffectDef};
use crate::name::{spec_push, WadName};
use crate::types::{NeighbourHeights, ThingType, WadCoord, WadSector};

verus! {

/// Which side of a BSP partition line a child lies on.
#[derive(Clone, Copy, Debug, PartialEq, Eq, Structural)]
pub enum Branch {
    Positive,
    Negative,
}

/// A thing that marks a place rather than being drawn.
#[derive(Clone, Copy, Debug, PartialEq, Eq, Structural)]
pub enum Marker {
    /// Where player `player` (counted from zero) starts.
    StartPos { player: usize },
    /// Where a teleporter leaves from.
    TeleportStart,
    /// Where a teleporter arrives.
    TeleportEnd,
}

/// The id of a moving object; zero is the static world.
#[derive(Clone, Copy, Debug, PartialEq, Eq, Structural, Default)]
pub struct ObjectId(pub u32);

/// Thing type of player 1's start.
pub const THING_TYPE_PLAYER1_START: ThingType = 1;
/// Thing type of player 2's start.
pub const THING_TYPE_PLAYER2_START: ThingType = 2;
/// Thing type of player 3's start.
pub const THING_TYPE_PLAYER3_START: ThingType = 3;
/// Thing type of player 4's start.
pub const THING_TYPE_PLAYER4_START: ThingType = 4;
/// Thing type of a teleporter's departure.
pub const THING_TYPE_TELEPORT_START: ThingType = 11;
/// Thing type of a teleporter's arrival.
pub const THING_TYPE_TELEPORT_END: ThingType = 14;

/// The marker that a thing type stands for, if any.
pub open spec fn spec_marker_of(thing_type: ThingType) -> Option<Marker> {
    if 1 <= thing_type <= 4 {
        Some(Marker::StartPos { player: (thing_type - 1) as usize })
    } else if thing_type == 11 {
        Some(Marker::TeleportStart)
    } else if thing_type == 14 {
        Some(Marker::TeleportEnd)
    } else {
        None
    }
}

/// Thing types 1 to 4 are the starts of players 0 to 3, type 11 a teleporter's departure
/// and type 14 its arrival; no other type is a marker.
pub proof fn law_marker_thing_types(t: ThingType)
    ensures
        spec_marker_of(THING_TYPE_PLAYER1_START) == Some(Marker::StartPos { player: 0 }),
        spec_marker_of(THING_TYPE_PLAYER2_START) == Some(Marker::StartPos { player: 1 }),
        spec_marker_of(THING_TYPE_PLAYER3_START) == Some(Marker::StartPos { player: 2 }),
        spec_marker_of(THING_TYPE_PLAYER4_START) == Some(Marker::StartPos { player: 3 }),
        spec_marker_of(THING_TYPE_TELEPORT_START) == Some(Marker::TeleportStart),
        spec_marker_of(THING_TYPE_TELEPORT_END) == Some(Marker::TeleportEnd),
        (spec_marker_of(t) matches Some(Marker::StartPos { player }) ==> 1 <= t <= 4 && player + 1 == t),
        (1 <= t <= 4) ==> spec_marker_of(t) is Some,
        spec_marker_of(t) is None <==> !(1 <= t <= 4 || t == 11 || t == 14),
{
}

impl Marker {
    /// The marker that a thing type stands for: types 1 to 4 are the four players' starts,
    /// 11 and 14 the two ends of a teleporter; other types are no marker.
    pub fn from(thing_type: ThingType) -> (r: Option<Marker>)
        ensures
            r == spec_marker_of(thing_type),
    {
        match thing_type {
            THING_TYPE_PLAYER1_START => Some(Marker::StartPos { player: 0 }),
            THING_TYPE_PLAYER2_START => Some(Marker::StartPos { player: 1 }),
            THING_TYPE_PLAYER3_START => Some(Marker::StartPos { player: 2 }),
            THING_TYPE_PLAYER4_START => Some(Marker::StartPos { player: 3 }),
            THING_TYPE_TELEPORT_START => Some(Marker::TeleportStart),
            THING_TYPE_TELEPORT_END => Some(Marker::TeleportEnd),
            _ => None,
        }
    }
}

/// The smaller of two heights.
pub open spec fn min_coord(a: WadCoord, b: WadCoord) -> WadCoord {
    if a <= b {
        a
    } else {
        b
    }
}

/// The larger of two heights.
pub open spec fn max_coord(a: WadCoord, b: WadCoord) -> WadCoord {
    if a >= b {
        a
    } else {
        b
    }
}

/// A range widened to hold `c`; an absent range becomes the range of `c` alone.
pub open spec fn widen(r: Option<(WadCoord, WadCoord)>, c: WadCoord) -> Option<(WadCoord, WadCoord)> {
    match r {
        Some((mn, mx)) => Some((min_coord(mn, c), max_coord(mx, c))),
        None => Some((c, c)),
    }
}

/// A range widened by each coordinate of `s`, first to last.
pub open spec fn widen_all(r: Option<(WadCoord, WadCoord)>, s: Seq<WadCoord>) -> Option<(WadCoord, WadCoord)>
    decreases s.len(),
{
    if s.len() == 0 {
        r
    } else {
        widen_all(widen(r, s[0]), s.drop_first())
    }
}

/// What `merge_range` leaves in the range: widened by the new coordinates, then, if there
/// is a range at all, by the current height.
pub open spec fn spec_merge_range(r: Option<(WadCoord, WadCoord)>, current: WadCoord, with: Seq<WadCoord>) -> Option<(WadCoord, WadCoord)> {
    match widen_all(r, with) {
        Some((mn, mx)) => Some((min_coord(mn, current), max_coord(mx, current))),
        None => None,
    }
}

/// Widening keeps a range that holds `lo` and `hi`, and the new bounds are the old ones or
/// the coordinates.
proof fn lemma_widen_all(r: Option<(WadCoord, WadCoord)>, s: Seq<WadCoord>)
    ensures
        widen_all(r, s) is Some <==> (r is Some || s.len() > 0),
        widen_all(r, s) matches Some((mn, mx)) ==> {
            &&& mn <= mx || (r matches Some((a, b)) && a > b && s.len() == 0)
            &&& forall|j: int| 0 <= j < s.len() ==> mn <= #[trigger] s[j] <= mx
            &&& r matches Some((a, b)) ==> mn <= a && b <= mx
            &&& (exists|j: int| 0 <= j < s.len() && s[j] == mn) || (r matches Some((a, b)) && a == mn)
            &&& (exists|j: int| 0 <= j < s.len() && s[j] == mx) || (r matches Some((a, b)) && b == mx)
        },
    decreases s.len(),
{
    if s.len() > 0 {
        let r2 = widen(r, s[0]);
        let t = s.drop_first();
        lemma_widen_all(r2, t);
        if let Some((mn, mx)) = widen_all(r, s) {
            assert forall|j: int| 0 <= j < s.len() implies mn <= #[trigger] s[j] <= mx by {
                if j > 0 {
                    assert(s[j] == t[j - 1]);
                }
            }
            if exists|j: int| 0 <= j < t.len() && t[j] == mn {
                let j = choose|j: int| 0 <= j < t.len() && t[j] == mn;
                assert(s[j + 1] == mn);
            }
            if exists|j: int| 0 <= j < t.len() && t[j] == mx {
                let j = choose|j: int| 0 <= j < t.len() && t[j] == mx;
                assert(s[j + 1] == mx);
            }
        }
    }
}

/// After merging, the range holds the current height, every new coordinate and the old
/// range, and each bound is one of those values: it is the smallest such range. It is
/// absent only when it was absent and no coordinate came.
pub proof fn law_merge_range_is_tight_cover(r: Option<(WadCoord, WadCoord)>, current: WadCoord, with: Seq<WadCoord>)
    ensures
        spec_merge_range(r, current, with) is Some <==> (r is Some || with.len() > 0),
        spec_merge_range(r, current, with) matches Some((mn, mx)) ==> {
            &&& mn <= current <= mx
            &&& forall|j: int| 0 <= j < with.len() ==> mn <= #[trigger] with[j] <= mx
            &&& r matches Some((a, b)) ==> mn <= a && b <= mx
            &&& mn == current || (exists|j: int| 0 <= j < with.len() && with[j] == mn) || (r matches Some((a, b)) && a == mn)
            &&& mx == current || (exists|j: int| 0 <= j < with.len() && with[j] == mx) || (r matches Some((a, b)) && b == mx)
        },
{
    lemma_widen_all(r, with);
}

/// Widens a height range by the coordinates `with` and then by the current height `current`.
/// A range that is absent and gets no coordinates stays absent.
pub fn merge_range(range: &mut Option<(WadCoord, WadCoord)>, current: WadCoord, with: &[WadCoord])
    ensures
        *final(range) == spec_merge_range(*old(range), current, with@),
{
    let mut acc = *range;
    let mut i: usize = 0;
    assert(with@.skip(0) =~= with@);
    while i < with.len()
        invariant
            0 <= i <= with@.len(),
            widen_all(acc, with@.skip(i as int)) == widen_all(*old(range), with@),
        decreases with@.len() - i,
    {
        let c = with[i];
        assert(with@.skip(i as int).drop_first() =~= with@.skip(i + 1));
        acc = match acc {
            Some((mn, mx)) => Some((if mn <= c { mn } else { c }, if mx >= c { mx } else { c })),
            None => Some((c, c)),
        };
        i = i + 1;
    }
    assert(with@.skip(i as int) =~= Seq::<WadCoord>::empty());
    *range = match acc {
        Some((mn, mx)) => Some((if mn <= current { mn } else { current }, if mx >= current { mx } else { current })),
        None => None,
    };
}

/// The height that a reference names for a sector, if the sector has one.
pub open spec fn height_base(to: HeightRef, sector: WadSector, heights: NeighbourHeights) -> Option<int> {
    match to {
        HeightRef::LowestFloor => Some(heights.lowest_floor as int),
        HeightRef::NextFloor => match heights.next_floor {
            Some(h) => Some(h as int),
            None => None,
        },
        HeightRef::HighestFloor => Some(heights.highest_floor as int),
        HeightRef::LowestCeiling => Some(heights.lowest_ceiling as int),
        HeightRef::HighestCeiling => Some(heights.highest_ceiling as int),
        HeightRef::Floor => Some(sector.floor_height as int),
        HeightRef::Ceiling => Some(sector.ceiling_height as int),
    }
}

/// The target height a definition gives for a sector: its reference height plus its offset.
pub open spec fn spec_to_height(def: HeightDef, sector: WadSector, heights: NeighbourHeights) -> Option<int> {
    match height_base(def.to, sector, heights) {
        Some(b) => Some(b + def.offset),
        None => None,
    }
}

/// The target height, if any, fits a map coordinate.
pub open spec fn height_fits(def: HeightDef, sector: WadSector, heights: NeighbourHeights) -> bool {
    match spec_to_height(def, sector, heights) {
        Some(h) => i16::MIN <= h <= i16::MAX,
        None => true,
    }
}

/// A height seen as an integer.
pub open spec fn opt_int(o: Option<WadCoord>) -> Option<int> {
    match o {
        Some(h) => Some(h as int),
        None => None,
    }
}

impl HeightDef {
    /// The height this definition targets for `sector`: the referenced height plus the
    /// offset; none when it refers to the next floor and there is none.
    pub fn to_height(self, sector: &WadSector, heights: &NeighbourHeights) -> (r: Option<WadCoord>)
        requires
            height_fits(self, *sector, *heights),
        ensures
            opt_int(r) == spec_to_height(self, *sector, *heights),
    {
        let base = match self.to {
            HeightRef::LowestFloor => heights.lowest_floor,
            HeightRef::NextFloor => match heights.next_floor {
                Some(h) => h,
                None => {
                    return None;
                },
            },
            HeightRef::HighestFloor => heights.highest_floor,
            HeightRef::LowestCeiling => heights.lowest_ceiling,
            HeightRef::HighestCeiling => heights.highest_ceiling,
            HeightRef::Floor => sector.floor_height,
            HeightRef::Ceiling => sector.ceiling_height,
        };
        Some(base + self.offset)
    }
}

/// Both target heights of an optional move definition fit map coordinates.
pub open spec fn heights_fit(this: Option<HeightEffectDef>, sector: WadSector, heights: NeighbourHeights) -> bool {
    match this {
        Some(def) => height_fits(def.first, sector, heights) && match def.second {
            Some(d) => height_fits(d, sector, heights),
            None => true,
        },
        None => true,
    }
}

impl HeightEffectDef {
    /// The first and second target heights of an optional move definition; none where there
    /// is no definition, no second height, or no next floor.
    pub fn option_to_heights(this: Option<Self>, sector: &WadSector, heights: &NeighbourHeights) -> (r: (Option<WadCoord>, Option<WadCoord>))
        requires
            heights_fit(this, *sector, *heights),
        ensures
            this is None ==> r == (None::<WadCoord>, None::<WadCoord>),
            this matches Some(def) ==> {
                &&& opt_int(r.0) == spec_to_height(def.first, *sector, *heights)
                &&& def.second is None ==> r.1 is None
                &&& def.second matches Some(d) ==> opt_int(r.1) == spec_to_height(d, *sector, *heights)
            },
    {
        match this {
            None => (None, None),
            Some(def) => {
                let first = def.first.to_height(sector, heights);
                let second = match def.second {
                    Some(d) => d.to_height(sector, heights),
                    None => None,
                };
                (first, second)
            },
        }
    }
}

/// A move of a floor or a ceiling that a trigger starts. Heights are in map units,
/// relative to the height the floor or ceiling has in the level; wait and speed are the
/// bits of 32-bit floats.
#[derive(Clone, Copy, Debug, PartialEq, Eq, Structural)]
pub struct MoveEffect {
    pub object_id: ObjectId,
    pub first_height_offset: WadCoord,
    pub second_height_offset: Option<WadCoord>,
    pub speed_bits: u32,
    pub wait_bits: u32,
    pub repeat: bool,
}

/// What is known of a sector that triggers move: the objects of its floor and ceiling
/// (zero until they move), its neighbours' heights once looked up, and the height ranges
/// its floor and ceiling sweep.
#[derive(Clone, Copy, Debug, Default)]
pub struct DynamicSectorInfo {
    pub floor_id: ObjectId,
    pub ceiling_id: ObjectId,
    pub neighbour_heights: Option<NeighbourHeights>,
    pub floor_range: Option<(WadCoord, WadCoord)>,
    pub ceiling_range: Option<(WadCoord, WadCoord)>,
}

/// The neighbour heights to use: those already known, else those of the level.
pub open spec fn chosen_heights(known: Option<NeighbourHeights>, level: Option<NeighbourHeights>) -> Option<NeighbourHeights> {
    match known {
        Some(h) => Some(h),
        None => level,
    }
}

/// The first and second target heights of an optional move definition.
pub open spec fn targets(def: Option<HeightEffectDef>, sector: WadSector, h: NeighbourHeights) -> (Option<int>, Option<int>) {
    match def {
        Some(d) => (
            spec_to_height(d.first, sector, h),
            match d.second {
                Some(s2) => spec_to_height(s2, sector, h),
                None => None,
            },
        ),
        None => (None, None),
    }
}

/// The target heights that exist, first then second, as map coordinates.
pub open spec fn present(t: (Option<int>, Option<int>)) -> Seq<WadCoord> {
    let a = match t.0 {
        Some(x) => seq![x as WadCoord],
        None => Seq::empty(),
    };
    let b = match t.1 {
        Some(x) => seq![x as WadCoord],
        None => Seq::empty(),
    };
    a + b
}

/// A target height relative to a base height.
pub open spec fn relative(t: Option<int>, base: WadCoord) -> Option<WadCoord> {
    match t {
        Some(x) => Some((x - base) as WadCoord),
        None => None,
    }
}

/// A target and its offset from a base height fit map coordinates.
pub open spec fn offset_fits(t: Option<int>, base: WadCoord) -> bool {
    match t {
        Some(x) => i16::MIN <= x - base <= i16::MAX,
        None => true,
    }
}

/// With neighbour heights `h`, every target height of the move and every offset from the
/// sector's own heights fits a map coordinate.
pub open spec fn move_fits_with(d: MoveEffectDef, sector: WadSector, h: NeighbourHeights) -> bool {
    let f = targets(d.floor, sector, h);
    let c = targets(d.ceiling, sector, h);
    &&& heights_fit(d.floor, sector, h)
    &&& heights_fit(d.ceiling, sector, h)
    &&& offset_fits(f.0, sector.floor_height)
    &&& offset_fits(f.1, sector.floor_height)
    &&& offset_fits(c.0, sector.ceiling_height)
    &&& offset_fits(c.1, sector.ceiling_height)
}

/// A move of a sector whose neighbour heights are `heights` fits map coordinates; there is
/// nothing to fit without a move or without neighbours.
pub open spec fn move_fits(sector: WadSector, heights: Option<NeighbourHeights>, def: Option<MoveEffectDef>) -> bool {
    match def {
        None => true,
        Some(d) => match heights {
            None => true,
            Some(h) => move_fits_with(d, sector, h),
        },
    }
}

/// The inputs on which an update completes: every target height and every offset fits
/// a map coordinate, and the object counter does not run past its largest value.
pub open spec fn update_fits(info: DynamicSectorInfo, next: u32, sector: WadSector, level: Option<NeighbourHeights>, def: Option<MoveEffectDef>) -> bool {
    match def {
        None => true,
        Some(d) => match chosen_heights(info.neighbour_heights, level) {
            None => true,
            Some(h) => move_fits_with(d, sector, h) && next + 2 <= u32::MAX,
        },
    }
}

/// A target height computed without overflow.
fn target_height(def: HeightDef, sector: &WadSector, heights: &NeighbourHeights) -> (r: Option<i32>)
    ensures
        match r {
            Some(x) => spec_to_height(def, *sector, *heights) == Some(x as int),
            None => spec_to_height(def, *sector, *heights) is None,
        },
{
    let base: i16 = match def.to {
        HeightRef::LowestFloor => heights.lowest_floor,
        HeightRef::NextFloor => match heights.next_floor {
            Some(h) => h,
            None => {
                return None;
            },
        },
        HeightRef::HighestFloor => heights.highest_floor,
        HeightRef::LowestCeiling => heights.lowest_ceiling,
        HeightRef::HighestCeiling => heights.highest_ceiling,
        HeightRef::Floor => sector.floor_height,
        HeightRef::Ceiling => sector.ceiling_height,
    };
    Some(base as i32 + def.offset as i32)
}

/// A target height, if any, and its offset from `base` both fit map coordinates.
fn target_fits(t: Option<i32>, base: WadCoord) -> (r: bool)
    requires
        t matches Some(x) ==> -0x20000 <= x <= 0x20000,
    ensures
        r == match t {
            Some(x) => i16::MIN <= x <= i16::MAX && i16::MIN <= x - base <= i16::MAX,
            None => true,
        },
{
    match t {
        Some(x) => {
            let off: i32 = x - base as i32;
            -32768 <= x && x <= 32767 && -32768 <= off && off <= 32767
        },
        None => true,
    }
}

/// Both targets of an optional floor or ceiling move, and their offsets from `base`, fit
/// map coordinates.
fn effect_fits(this: Option<HeightEffectDef>, sector: &WadSector, heights: &NeighbourHeights, base: WadCoord) -> (r: bool)
    ensures
        r == ({
            let t = targets(this, *sector, *heights);
            heights_fit(this, *sector, *heights) && offset_fits(t.0, base) && offset_fits(t.1, base)
        }),
{
    match this {
        None => true,
        Some(d) => {
            let first = target_height(d.first, sector, heights);
            let second = match d.second {
                Some(d2) => target_height(d2, sector, heights),
                None => None,
            };
            target_fits(first, base) && target_fits(second, base)
        },
    }
}

/// Whether a sector's move fits map coordinates, as `move_fits` says.
pub fn check_move_fits(sector: &WadSector, heights: Option<NeighbourHeights>, def: Option<MoveEffectDef>) -> (r: bool)
    ensures
        r == move_fits(*sector, heights, def),
{
    match def {
        None => true,
        Some(d) => match heights {
            None => true,
            Some(h) => effect_fits(d.floor, sector, &h, sector.floor_height) && effect_fits(d.ceiling, sector, &h, sector.ceiling_height),
        },
    }
}

/// The move effect started on an object, if the first target exists.
pub open spec fn effect_for(id: ObjectId, t: (Option<int>, Option<int>), base: WadCoord, d: MoveEffectDef) -> Seq<MoveEffect> {
    match t.0 {
        Some(x) => seq![
            MoveEffect {
                object_id: id,
                first_height_offset: (x - base) as WadCoord,
                second_height_offset: relative(t.1, base),
                speed_bits: d.speed_bits,
                wait_bits: d.wait_bits,
                repeat: d.repeat,
            },
        ],
        None => Seq::empty(),
    }
}

/// What an update gives: the sector's new information, the next free object id, and the
/// move effects started (floor first, then ceiling). Without a move definition, or
/// without neighbour heights, nothing changes. Otherwise the floor and ceiling ranges are
/// widened by their targets and by their current heights; a floor or ceiling whose range
/// now exists and that has no object yet gets the next free id, ceiling before floor.
pub open spec fn spec_update(info: DynamicSectorInfo, next: u32, sector: WadSector, level: Option<NeighbourHeights>, def: Option<MoveEffectDef>) -> (DynamicSectorInfo, u32, Seq<MoveEffect>) {
    match def {
        None => (info, next, Seq::empty()),
        Some(d) => match chosen_heights(info.neighbour_heights, level) {
            None => (info, next, Seq::empty()),
            Some(h) => {
                let f = targets(d.floor, sector, h);
                let c = targets(d.ceiling, sector, h);
                let floor_range = spec_merge_range(info.floor_range, sector.floor_height, present(f));
                let ceiling_range = spec_merge_range(info.ceiling_range, sector.ceiling_height, present(c));
                let new_ceiling = ceiling_range is Some && info.ceiling_id == ObjectId(0);
                let ceiling_id = if new_ceiling { ObjectId(next) } else { info.ceiling_id };
                let next1 = if new_ceiling { (next + 1) as u32 } else { next };
                let new_floor = floor_range is Some && info.floor_id == ObjectId(0);
                let floor_id = if new_floor { ObjectId(next1) } else { info.floor_id };
                let next2 = if new_floor { (next1 + 1) as u32 } else { next1 };
                (
                    DynamicSectorInfo {
                        floor_id,
                        ceiling_id,
                        neighbour_heights: Some(h),
                        floor_range,
                        ceiling_range,
                    },
                    next2,
                    effect_for(floor_id, f, sector.floor_height, d) + effect_for(ceiling_id, c, sector.ceiling_height, d),
                )
            },
        },
    }
}

/// An update never renames an object, gives new objects consecutive ids starting at the
/// counter (ceiling before floor) and advances the counter by the number it gave, and
/// only widens the floor and ceiling ranges.
pub proof fn law_update_ids_fresh_and_ranges_widen(
    info: DynamicSectorInfo,
    next: u32,
    sector: WadSector,
    level: Option<NeighbourHeights>,
    def: Option<MoveEffectDef>,
)
    requires
        update_fits(info, next, sector, level, def),
    ensures
        ({
            let (i2, n2, _e) = spec_update(info, next, sector, level, def);
            let gave_ceiling = info.ceiling_id.0 == 0 && i2.ceiling_id.0 != 0;
            let gave_floor = info.floor_id.0 == 0 && i2.floor_id.0 != 0;
            &&& info.ceiling_id.0 != 0 ==> i2.ceiling_id == info.ceiling_id
            &&& info.floor_id.0 != 0 ==> i2.floor_id == info.floor_id
            &&& next != 0 ==> (gave_ceiling ==> i2.ceiling_id.0 == next)
            &&& next != 0 ==> (gave_floor ==> i2.floor_id.0 == next + (if gave_ceiling { 1int } else { 0int }))
            &&& next != 0 ==> n2 == next + (if gave_ceiling { 1int } else { 0int }) + (if gave_floor { 1int } else { 0int })
            &&& info.floor_range matches Some((a, b)) ==> (i2.floor_range matches Some((c, d)) && c <= a && b <= d)
            &&& info.ceiling_range matches Some((a, b)) ==> (i2.ceiling_range matches Some((c, d)) && c <= a && b <= d)
        }),
{
    if let Some(d) = def {
        if let Some(h) = chosen_heights(info.neighbour_heights, level) {
            let f = targets(d.floor, sector, h);
            let c = targets(d.ceiling, sector, h);
            law_merge_range_is_tight_cover(info.floor_range, sector.floor_height, present(f));
            law_merge_range_is_tight_cover(info.ceiling_range, sector.ceiling_height, present(c));
        }
    }
}

/// The heights that exist among two, first then second.
fn present_heights(a: Option<WadCoord>, b: Option<WadCoord>) -> (r: Vec<WadCoord>)
    ensures
        r@ == present((opt_int(a), opt_int(b))),
{
    let mut v: Vec<WadCoord> = Vec::new();
    if let Some(x) = a {
        v.push(x);
    }
    if let Some(y) = b {
        v.push(y);
    }
    proof {
        assert(v@ =~= present((opt_int(a), opt_int(b))));
    }
    v
}

impl DynamicSectorInfo {
    /// Takes a trigger's move into account for this sector: widens the height ranges its
    /// floor and ceiling sweep, gives them object ids the first time they move (ceiling
    /// first, from `next_dynamic_object_id`), and appends the move effects the trigger
    /// starts. `level_heights` are the sector's neighbour heights as the level gives them;
    /// they are used and kept when none are known yet.
    #[verifier::rlimit(40)]
    pub fn update(
        &mut self,
        next_dynamic_object_id: &mut ObjectId,
        sector: &WadSector,
        level_heights: Option<NeighbourHeights>,
        move_effect_def: Option<MoveEffectDef>,
        move_effects: &mut Vec<MoveEffect>,
    )
        requires
            update_fits(*old(self), old(next_dynamic_object_id).0, *sector, level_heights, move_effect_def),
        ensures
            ({
                let u = spec_update(*old(self), old(next_dynamic_object_id).0, *sector, level_heights, move_effect_def);
                &&& *final(self) == u.0
                &&& final(next_dynamic_object_id).0 == u.1
                &&& final(move_effects)@ == old(move_effects)@ + u.2
            }),
    {
        let effect_def = match move_effect_def {
            Some(def) => def,
            None => {
                proof {
                    assert(move_effects@ =~= old(move_effects)@ + Seq::<MoveEffect>::empty());
                }
                return;
            },
        };
        let heights = match self.neighbour_heights {
            Some(h) => h,
            None => match level_heights {
                Some(h) => {
                    self.neighbour_heights = Some(h);
                    h
                },
                None => {
                    proof {
                        assert(move_effects@ =~= old(move_effects)@ + Seq::<MoveEffect>::empty());
                    }
                    return;
                },
            },
        };
        let (first_floor, second_floor) = HeightEffectDef::option_to_heights(effect_def.floor, sector, &heights);
        let (first_ceiling, second_ceiling) = HeightEffectDef::option_to_heights(effect_def.ceiling, sector, &heights);
        let ghost f = targets(effect_def.floor, *sector, heights);
        let ghost c = targets(effect_def.ceiling, *sector, heights);
        assert(opt_int(first_floor) == f.0 && opt_int(second_floor) == f.1);
        assert(opt_int(first_ceiling) == c.0 && opt_int(second_ceiling) == c.1);
        let repeat = effect_def.repeat;
        let floor_with = present_heights(first_floor, second_floor);
        let ceiling_with = present_heights(first_ceiling, second_ceiling);
        merge_range(&mut self.floor_range, sector.floor_height, floor_with.as_slice());
        merge_range(&mut self.ceiling_range, sector.ceiling_height, ceiling_with.as_slice());
        if self.ceiling_range.is_some() && self.ceiling_id.0 == 0 {
            self.ceiling_id = *next_dynamic_object_id;
            next_dynamic_object_id.0 = next_dynamic_object_id.0 + 1;
        }
        if self.floor_range.is_some() && self.floor_id.0 == 0 {
            self.floor_id = *next_dynamic_object_id;
            next_dynamic_object_id.0 = next_dynamic_object_id.0 + 1;
        }
        let ghost before = move_effects@;
        if let Some(ff) = first_floor {
            let second = match second_floor {
                Some(s2) => Some(s2 - sector.floor_height),
                None => None,
            };
            move_effects.push(MoveEffect {
                object_id: self.floor_id,
                wait_bits: effect_def.wait_bits,
                speed_bits: effect_def.speed_bits,
                first_height_offset: ff - sector.floor_height,
                second_height_offset: second,
                repeat,
            });
        }
        let ghost mid = move_effects@;
        if let Some(fc) = first_ceiling {
            let second = match second_ceiling {
                Some(s2) => Some(s2 - sector.ceiling_height),
                None => None,
            };
            move_effects.push(MoveEffect {
                object_id: self.ceiling_id,
                wait_bits: effect_def.wait_bits,
                speed_bits: effect_def.speed_bits,
                first_height_offset: fc - sector.ceiling_height,
                second_height_offset: second,
                repeat,
            });
        }
        proof {
            let u = spec_update(*old(self), old(next_dynamic_object_id).0, *sector, level_heights, move_effect_def);
            assert(mid =~= before + effect_for(self.floor_id, f, sector.floor_height, effect_def));
            assert(move_effects@ =~= mid + effect_for(self.ceiling_id, c, sector.ceiling_height, effect_def));
            assert(u.2 == effect_for(self.floor_id, f, sector.floor_height, effect_def) + effect_for(self.ceiling_id, c, sector.ceiling_height, effect_def));
            assert(move_effects@ =~= old(move_effects)@ + u.2);
        }
    }
}

/// The lowest floor of the sectors, or 32767 when there are none.
pub open spec fn lowest_floor(s: Seq<WadSector>) -> int
    decreases s.len(),
{
    if s.len() == 0 {
        32767
    } else {
        let m = lowest_floor(s.drop_last());
        if s.last().floor_height < m {
            s.last().floor_height as int
        } else {
            m
        }
    }
}

/// The highest ceiling of the sectors, or -32768 when there are none.
pub open spec fn highest_ceiling(s: Seq<WadSector>) -> int
    decreases s.len(),
{
    if s.len() == 0 {
        -32768
    } else {
        let m = highest_ceiling(s.drop_last());
        if s.last().ceiling_height > m {
            s.last().ceiling_height as int
        } else {
            m
        }
    }
}

/// The vertical extent of a level, with a margin of 512 below the lowest floor and above
/// the highest ceiling.
pub fn min_max_height(sectors: &[WadSector]) -> (r: (WadCoord, WadCoord))
    requires
        lowest_floor(sectors@) - 512 >= i16::MIN,
        highest_ceiling(sectors@) + 512 <= i16::MAX,
    ensures
        r.0 == lowest_floor(sectors@) - 512,
        r.1 == highest_ceiling(sectors@) + 512,
{
    let mut mn: WadCoord = 32767;
    let mut mx: WadCoord = -32768;
    let mut i: usize = 0;
    while i < sectors.len()
        invariant
            0 <= i <= sectors@.len(),
            mn == lowest_floor(sectors@.take(i as int)),
            mx == highest_ceiling(sectors@.take(i as int)),
        decreases sectors@.len() - i,
    {
        let f = sectors[i].floor_height;
        let c = sectors[i].ceiling_height;
        assert(sectors@.take(i + 1).drop_last() =~= sectors@.take(i as int));
        if f < mn {
            mn = f;
        }
        if c > mx {
            mx = c;
        }
        i = i + 1;
    }
    assert(sectors@.take(i as int) =~= sectors@);
    (mn - 512, mx + 512)
}

/// The objects and height ranges of a sector's floor and ceiling.
#[derive(Clone, Copy, Debug, PartialEq, Eq)]
pub struct SectorInfo {
    pub floor_id: ObjectId,
    pub ceiling_id: ObjectId,
    pub floor_range: (WadCoord, WadCoord),
    pub ceiling_range: (WadCoord, WadCoord),
}

impl SectorInfo {
    /// The greatest distance between floor and ceiling: the top of the ceiling's range
    /// minus the bottom of the floor's range.
    pub fn max_height(&self) -> (r: WadCoord)
        requires
            i16::MIN <= self.ceiling_range.1 - self.floor_range.0 <= i16::MAX,
        ensures
            r == self.ceiling_range.1 - self.floor_range.0,
    {
        self.ceiling_range.1 - self.floor_range.0
    }
}

/// The name of the flat that stands for open sky.
pub const SKY_FLAT_NAME: [u8; 8] = [70u8, 95u8, 83u8, 75u8, 89u8, 49u8, 0u8, 0u8];

/// A name is the sky flat, `F_SKY1`.
pub open spec fn spec_is_sky_flat(name: Seq<u8>) -> bool {
    name == SKY_FLAT_NAME@
}

/// A name is the "no texture" name, `-`.
pub open spec fn spec_is_untextured(name: Seq<u8>) -> bool {
    name[0] == 45 && name[1] == 0
}

/// Whether a flat is the sky.
pub fn is_sky_flat(name: WadName) -> (r: bool)
    ensures
        r == spec_is_sky_flat(name@),
{
    name.eq_bytes(&SKY_FLAT_NAME)
}

/// Whether a wall texture name means "no texture".
pub fn is_untextured(name: WadName) -> (r: bool)
    ensures
        r == spec_is_untextured(name@),
{
    let b = name.bytes();
    b[0] == 45 && b[1] == 0
}

/// The linedef flag that makes a line block movement.
pub open spec fn spec_impassable(flags: u16) -> bool {
    flags % 2 == 1
}

/// The linedef flag that draws upper textures from the top down.
pub open spec fn spec_upper_unpegged(flags: u16) -> bool {
    (flags / 8) % 2 == 1
}

/// The linedef flag that draws lower textures from the bottom up.
pub open spec fn spec_lower_unpegged(flags: u16) -> bool {
    (flags / 16) % 2 == 1
}

/// How a wall texture is aligned vertically.
#[derive(Clone, Copy, Debug, PartialEq, Eq, Structural)]
pub enum Peg {
    Top,
    Bottom,
    BottomLower,
    TopFloat,
    BottomFloat,
}

/// A piece of geometry along one side of a line: a wall between two heights, or a sky
/// wall between two heights.
#[derive(Clone, Copy, Debug, PartialEq, Eq)]
pub enum SegPart {
    Wall { object_id: ObjectId, low: WadCoord, high: WadCoord, texture_name: WadName, peg: Peg, blocker: bool },
    Sky { object_id: ObjectId, low: WadCoord, high: WadCoord },
}

/// The textures of one side of a line.
#[derive(Clone, Copy, Debug)]
pub struct SideTextures {
    pub upper: WadName,
    pub middle: WadName,
    pub lower: WadName,
}

/// Whether a value fits a map coordinate.
pub open spec fn fits_coord(x: int) -> bool {
    i16::MIN <= x <= i16::MAX
}

/// The map-unit heights a wall quad spans, or none when its range is empty. A floating
/// peg of a textured wall spans the texture's height: up from the bottom (`TopFloat`) or
/// down from the top (`BottomFloat`), both moved by the side's vertical offset; otherwise
/// the range is kept.
pub open spec fn spec_wall_heights(low: WadCoord, high: WadCoord, texture_height: Option<WadCoord>, peg: Peg, y_offset: WadCoord) -> Option<(int, int)> {
    if low >= high {
        None
    } else {
        match (texture_height, peg) {
            (Some(h), Peg::TopFloat) => Some((low + y_offset, low + h + y_offset)),
            (Some(h), Peg::BottomFloat) => Some((high + y_offset - h, high + y_offset)),
            _ => Some((low as int, high as int)),
        }
    }
}

/// The sums of a floating wall's heights fit map coordinates, step by step.
pub open spec fn wall_heights_fit(low: WadCoord, high: WadCoord, texture_height: Option<WadCoord>, peg: Peg, y_offset: WadCoord) -> bool {
    low < high ==> match (texture_height, peg) {
        (Some(h), Peg::TopFloat) => fits_coord(low + y_offset) && fits_coord(low + h) && fits_coord(low + h + y_offset),
        (Some(h), Peg::BottomFloat) => fits_coord(high + y_offset) && fits_coord(high + y_offset - h),
        _ => true,
    }
}

/// The heights a wall quad spans, as `spec_wall_heights` says; `texture_height` is none
/// for an untextured wall.
pub fn wall_heights(low: WadCoord, high: WadCoord, texture_height: Option<WadCoord>, peg: Peg, y_offset: WadCoord) -> (r: Option<(WadCoord, WadCoord)>)
    requires
        wall_heights_fit(low, high, texture_height, peg, y_offset),
    ensures
        match r {
            Some((a, b)) => spec_wall_heights(low, high, texture_height, peg, y_offset) == Some((a as int, b as int)),
            None => spec_wall_heights(low, high, texture_height, peg, y_offset) is None,
        },
{
    if low >= high {
        return None;
    }
    match (texture_height, peg) {
        (Some(h), Peg::TopFloat) => Some((low + y_offset, low + h + y_offset)),
        (Some(h), Peg::BottomFloat) => Some((high + y_offset - h, high + y_offset)),
        _ => Some((low, high)),
    }
}

/// The scroll speed of a wall, in map units per second: linedef special 48 scrolls its
/// wall texture.
pub fn wall_scroll(special_type: u16) -> (r: u32)
    ensures
        r == (if special_type == 0x30 { 35u32 } else { 0u32 }),
{
    if special_type == 0x30 {
        35
    } else {
        0
    }
}

/// A wall, if it is not empty.
pub open spec fn wall_if(object_id: ObjectId, low: int, high: int, texture_name: WadName, peg: Peg, blocker: bool) -> Seq<SegPart> {
    if low < high {
        seq![SegPart::Wall { object_id, low: low as WadCoord, high: high as WadCoord, texture_name, peg, blocker }]
    } else {
        Seq::empty()
    }
}

/// A sky wall, if it is not empty.
pub open spec fn sky_if(object_id: ObjectId, low: int, high: int) -> Seq<SegPart> {
    if low < high {
        seq![SegPart::Sky { object_id, low: low as WadCoord, high: high as WadCoord }]
    } else {
        Seq::empty()
    }
}

/// The height from the bottom of a sector's floor range to the top of its ceiling range.
pub open spec fn spec_max_height(info: SectorInfo) -> int {
    info.ceiling_range.1 - info.floor_range.0
}

/// The walls and sky walls along one side of a line, in drawing order.
///
/// A one-sided line gets a wall as tall as the sector's largest opening, pegged to the floor
/// when the lower texture is unpegged and to the ceiling otherwise, then a sky wall above a
/// sky ceiling and one below a sky floor. A two-sided line gets a sky wall where its sector
/// has a sky ceiling (or floor) and the sector behind does not; a lower wall where the back
/// floor can rise above this floor; an upper wall where the back ceiling is lower, unless
/// the back ceiling is sky; and a middle wall between the resulting heights. Empty walls
/// are left out. `heights` is the level's vertical extent.
pub open spec fn spec_seg_parts(
    sector: WadSector,
    info: SectorInfo,
    flags: u16,
    sides: SideTextures,
    back: Option<(WadSector, SectorInfo)>,
    heights: (WadCoord, WadCoord),
) -> Seq<SegPart> {
    let floor = sector.floor_height as int;
    let ceiling = sector.ceiling_height as int;
    let unpeg_lower = spec_lower_unpegged(flags);
    match back {
        None => {
            let wall = if unpeg_lower {
                wall_if(info.floor_id, floor, floor + spec_max_height(info), sides.middle, Peg::Bottom, true)
            } else {
                wall_if(info.ceiling_id, ceiling - spec_max_height(info), ceiling, sides.middle, Peg::Top, true)
            };
            let sky_ceiling = if spec_is_sky_flat(sector.ceiling_texture@) {
                sky_if(info.ceiling_id, ceiling, heights.1 as int)
            } else {
                Seq::empty()
            };
            let sky_floor = if spec_is_sky_flat(sector.floor_texture@) {
                sky_if(info.floor_id, heights.0 as int, floor)
            } else {
                Seq::empty()
            };
            wall + sky_ceiling + sky_floor
        },
        Some((back_sector, back_info)) => {
            let back_floor = back_sector.floor_height as int;
            let back_ceiling = back_sector.ceiling_height as int;
            let back_sky_ceiling = spec_is_sky_flat(back_sector.ceiling_texture@);
            let sky_ceiling = if spec_is_sky_flat(sector.ceiling_texture@) && !back_sky_ceiling {
                sky_if(info.ceiling_id, ceiling, heights.1 as int)
            } else {
                Seq::empty()
            };
            let sky_floor = if spec_is_sky_flat(sector.floor_texture@) && !spec_is_sky_flat(back_sector.floor_texture@) {
                sky_if(info.floor_id, heights.0 as int, floor)
            } else {
                Seq::empty()
            };
            let lower_rises = back_info.floor_range.1 > info.floor_range.0;
            let lower = if lower_rises {
                wall_if(
                    back_info.floor_id,
                    back_floor - back_info.floor_range.1 + info.floor_range.0,
                    back_floor,
                    sides.lower,
                    if unpeg_lower { Peg::BottomLower } else { Peg::Top },
                    true,
                )
            } else {
                Seq::empty()
            };
            let bottom = if lower_rises { back_floor } else { floor };
            let upper_drops = back_ceiling < ceiling;
            let upper = if upper_drops && !back_sky_ceiling {
                wall_if(
                    back_info.ceiling_id,
                    back_ceiling,
                    ceiling,
                    sides.upper,
                    if spec_upper_unpegged(flags) { Peg::Top } else { Peg::Bottom },
                    true,
                )
            } else {
                Seq::empty()
            };
            let top = if upper_drops { back_ceiling } else { ceiling };
            let middle = wall_if(
                if unpeg_lower { info.floor_id } else { info.ceiling_id },
                bottom,
                top,
                sides.middle,
                if unpeg_lower {
                    if spec_is_untextured(sides.upper@) { Peg::TopFloat } else { Peg::Bottom }
                } else {
                    if spec_is_untextured(sides.lower@) { Peg::BottomFloat } else { Peg::Top }
                },
                spec_impassable(flags),
            );
            sky_ceiling + sky_floor + lower + upper + middle
        },
    }
}

/// A wall with the middle texture that blocks exactly when `blocks` says.
pub open spec fn middle_wall_with(p: SegPart, middle: WadName, blocks: bool) -> bool {
    match p {
        SegPart::Wall { texture_name, blocker, .. } => texture_name == middle && blocker == blocks,
        SegPart::Sky { .. } => false,
    }
}

/// A part that lets things through is a wall with the middle texture on a line whose
/// impassable bit (1) is clear.
pub open spec fn passable_is_middle(p: SegPart, middle: WadName, flags: u16) -> bool {
    match p {
        SegPart::Wall { texture_name, blocker, .. } => !blocker ==> texture_name == middle && flags % 2 == 0,
        SegPart::Sky { .. } => true,
    }
}

/// A part of a one-sided line: sky, or the blocking middle wall pegged to the bottom
/// exactly when the lower-unpegged bit (16) is set.
pub open spec fn one_sided_part(p: SegPart, middle: WadName, flags: u16) -> bool {
    match p {
        SegPart::Wall { texture_name, peg, blocker, .. } => texture_name == middle && blocker
            && peg == (if (flags / 16) % 2 == 1 { Peg::Bottom } else { Peg::Top }),
        SegPart::Sky { .. } => true,
    }
}

/// The pieces of a two-sided line's walls, in drawing order.
proof fn lemma_two_sided_parts(
    sector: WadSector,
    info: SectorInfo,
    flags: u16,
    sides: SideTextures,
    back_sector: WadSector,
    back_info: SectorInfo,
    heights: (WadCoord, WadCoord),
) -> (r: (Seq<SegPart>, Seq<SegPart>, Seq<SegPart>, Seq<SegPart>))
    ensures
        spec_seg_parts(sector, info, flags, sides, Some((back_sector, back_info)), heights) == r.0 + r.1 + r.2 + r.3,
        forall|k: int| 0 <= k < r.0.len() ==> (#[trigger] r.0[k]) is Sky,
        r.1 == (if back_info.floor_range.1 > info.floor_range.0 {
            wall_if(
                back_info.floor_id,
                back_sector.floor_height - back_info.floor_range.1 + info.floor_range.0,
                back_sector.floor_height as int,
                sides.lower,
                if (flags / 16) % 2 == 1 { Peg::BottomLower } else { Peg::Top },
                true,
            )
        } else {
            Seq::empty()
        }),
        r.2 == (if back_sector.ceiling_height < sector.ceiling_height && !spec_is_sky_flat(back_sector.ceiling_texture@) {
            wall_if(
                back_info.ceiling_id,
                back_sector.ceiling_height as int,
                sector.ceiling_height as int,
                sides.upper,
                if (flags / 8) % 2 == 1 { Peg::Top } else { Peg::Bottom },
                true,
            )
        } else {
            Seq::empty()
        }),
        r.3.len() <= 1,
        forall|k: int| 0 <= k < r.3.len() ==> middle_wall_with(#[trigger] r.3[k], sides.middle, flags % 2 == 1),
{
    let ceiling = sector.ceiling_height as int;
    let floor = sector.floor_height as int;
    let back_sky_ceiling = spec_is_sky_flat(back_sector.ceiling_texture@);
    let sky_ceiling = if spec_is_sky_flat(sector.ceiling_texture@) && !back_sky_ceiling {
        sky_if(info.ceiling_id, ceiling, heights.1 as int)
    } else {
        Seq::empty()
    };
    let sky_floor = if spec_is_sky_flat(sector.floor_texture@) && !spec_is_sky_flat(back_sector.floor_texture@) {
        sky_if(info.floor_id, heights.0 as int, floor)
    } else {
        Seq::empty()
    };
    let lower = if back_info.floor_range.1 > info.floor_range.0 {
        wall_if(
            back_info.floor_id,
            back_sector.floor_height - back_info.floor_range.1 + info.floor_range.0,
            back_sector.floor_height as int,
            sides.lower,
            if (flags / 16) % 2 == 1 { Peg::BottomLower } else { Peg::Top },
            true,
        )
    } else {
        Seq::empty()
    };
    let upper = if back_sector.ceiling_height < sector.ceiling_height && !back_sky_ceiling {
        wall_if(
            back_info.ceiling_id,
            back_sector.ceiling_height as int,
            ceiling,
            sides.upper,
            if (flags / 8) % 2 == 1 { Peg::Top } else { Peg::Bottom },
            true,
        )
    } else {
        Seq::empty()
    };
    let all = spec_seg_parts(sector, info, flags, sides, Some((back_sector, back_info)), heights);
    let middle = all.subrange((sky_ceiling.len() + sky_floor.len() + lower.len() + upper.len()) as int, all.len() as int);
    assert(all =~= (sky_ceiling + sky_floor) + lower + upper + middle);
    assert forall|k: int| 0 <= k < (sky_ceiling + sky_floor).len() implies (#[trigger] (sky_ceiling + sky_floor)[k]) is Sky by {
        if k < sky_ceiling.len() {
            assert((sky_ceiling + sky_floor)[k] == sky_ceiling[k]);
        } else {
            assert((sky_ceiling + sky_floor)[k] == sky_floor[k - sky_ceiling.len()]);
        }
    }
    (sky_ceiling + sky_floor, lower, upper, middle)
}

/// The walls of a two-sided line follow its flags. Where the back sector's ceiling is
/// lower than the front's and is not sky, there is an upper wall from the back ceiling
/// to the front ceiling, with the upper texture, pegged to the top exactly when flag bit
/// 8 (upper unpegged) is set. Where the back floor range reaches above the front one,
/// there is a lower wall up to the back floor, with the lower texture, pegged as a lower
/// texture exactly when flag bit 16 (lower unpegged) is set. Only the middle wall, with
/// the middle texture, can let things through, and it does exactly when flag bit 1
/// (impassable) is clear.
pub proof fn law_two_sided_walls_follow_flags(
    sector: WadSector,
    info: SectorInfo,
    flags: u16,
    sides: SideTextures,
    back_sector: WadSector,
    back_info: SectorInfo,
    heights: (WadCoord, WadCoord),
)
    ensures
        ({
            let parts = spec_seg_parts(sector, info, flags, sides, Some((back_sector, back_info)), heights);
            &&& back_sector.ceiling_height < sector.ceiling_height && !spec_is_sky_flat(back_sector.ceiling_texture@)
                ==> exists|k: int| 0 <= k < parts.len() && parts[k] == SegPart::Wall {
                    object_id: back_info.ceiling_id,
                    low: back_sector.ceiling_height,
                    high: sector.ceiling_height,
                    texture_name: sides.upper,
                    peg: if (flags / 8) % 2 == 1 { Peg::Top } else { Peg::Bottom },
                    blocker: true,
                }
            &&& back_info.floor_range.1 > info.floor_range.0
                && back_sector.floor_height - back_info.floor_range.1 + info.floor_range.0 < back_sector.floor_height
                ==> exists|k: int| 0 <= k < parts.len() && parts[k] == SegPart::Wall {
                    object_id: back_info.floor_id,
                    low: (back_sector.floor_height - back_info.floor_range.1 + info.floor_range.0) as WadCoord,
                    high: back_sector.floor_height,
                    texture_name: sides.lower,
                    peg: if (flags / 16) % 2 == 1 { Peg::BottomLower } else { Peg::Top },
                    blocker: true,
                }
            &&& forall|k: int| 0 <= k < parts.len() ==> passable_is_middle(#[trigger] parts[k], sides.middle, flags)
        }),
{
    let r = lemma_two_sided_parts(sector, info, flags, sides, back_sector, back_info, heights);
    let parts = r.0 + r.1 + r.2 + r.3;
    let (a, b, c, d) = r;
    if back_sector.ceiling_height < sector.ceiling_height && !spec_is_sky_flat(back_sector.ceiling_texture@) {
        assert(parts[(a.len() + b.len()) as int] == c[0]);
    }
    if back_info.floor_range.1 > info.floor_range.0
        && back_sector.floor_height - back_info.floor_range.1 + info.floor_range.0 < back_sector.floor_height {
        assert(parts[a.len() as int] == b[0]);
    }
    assert forall|k: int| 0 <= k < parts.len() implies passable_is_middle(#[trigger] parts[k], sides.middle, flags) by {
        if k < a.len() {
            assert(parts[k] == a[k]);
        } else if k < a.len() + b.len() {
            assert(parts[k] == b[k - a.len()]);
        } else if k < a.len() + b.len() + c.len() {
            assert(parts[k] == c[k - a.len() - b.len()]);
        } else {
            assert(parts[k] == d[k - a.len() - b.len() - c.len()]);
        }
    }
}

/// A one-sided line has one wall at most, the middle texture, which blocks, pegged to the
/// bottom exactly when flag bit 16 (lower unpegged) is set; any other part is sky.
pub proof fn law_one_sided_wall_follows_flags(
    sector: WadSector,
    info: SectorInfo,
    flags: u16,
    sides: SideTextures,
    heights: (WadCoord, WadCoord),
)
    ensures
        ({
            let parts = spec_seg_parts(sector, info, flags, sides, None, heights);
            forall|k: int| 0 <= k < parts.len() ==> one_sided_part(#[trigger] parts[k], sides.middle, flags)
        }),
{
    let parts = spec_seg_parts(sector, info, flags, sides, None, heights);
    let floor = sector.floor_height as int;
    let ceiling = sector.ceiling_height as int;
    let wall = if spec_lower_unpegged(flags) {
        wall_if(info.floor_id, floor, floor + spec_max_height(info), sides.middle, Peg::Bottom, true)
    } else {
        wall_if(info.ceiling_id, ceiling - spec_max_height(info), ceiling, sides.middle, Peg::Top, true)
    };
    let rest = parts.subrange(wall.len() as int, parts.len() as int);
    assert(parts =~= wall + rest);
    assert forall|k: int| 0 <= k < rest.len() implies (#[trigger] rest[k]) is Sky by {
        let sky_ceiling = if spec_is_sky_flat(sector.ceiling_texture@) {
            sky_if(info.ceiling_id, ceiling, heights.1 as int)
        } else {
            Seq::empty()
        };
        let sky_floor = if spec_is_sky_flat(sector.floor_texture@) {
            sky_if(info.floor_id, heights.0 as int, floor)
        } else {
            Seq::empty()
        };
        assert(rest =~= sky_ceiling + sky_floor);
        if k < sky_ceiling.len() {
            assert(rest[k] == sky_ceiling[k]);
        } else {
            assert(rest[k] == sky_floor[k - sky_ceiling.len()]);
        }
    }
    assert forall|k: int| 0 <= k < parts.len() implies one_sided_part(#[trigger] parts[k], sides.middle, flags) by {
        if k < wall.len() {
            assert(parts[k] == wall[k]);
        } else {
            assert(parts[k] == rest[k - wall.len()]);
        }
    }
}

/// The heights that `seg_parts` computes fit map coordinates.
pub open spec fn seg_fits(sector: WadSector, info: SectorInfo, flags: u16, back: Option<(WadSector, SectorInfo)>) -> bool {
    match back {
        None => {
            &&& i16::MIN <= spec_max_height(info) <= i16::MAX
            &&& spec_lower_unpegged(flags) ==> i16::MIN <= sector.floor_height + spec_max_height(info) <= i16::MAX
            &&& !spec_lower_unpegged(flags) ==> i16::MIN <= sector.ceiling_height - spec_max_height(info) <= i16::MAX
        },
        Some((back_sector, back_info)) => back_info.floor_range.1 > info.floor_range.0 ==> {
            &&& i16::MIN <= back_sector.floor_height - back_info.floor_range.1 <= i16::MAX
            &&& i16::MIN <= back_sector.floor_height - back_info.floor_range.1 + info.floor_range.0 <= i16::MAX
        },
    }
}

/// Appends a wall to `parts` unless it is empty.
fn push_wall(parts: &mut Vec<SegPart>, object_id: ObjectId, low: WadCoord, high: WadCoord, texture_name: WadName, peg: Peg, blocker: bool)
    ensures
        final(parts)@ == old(parts)@ + wall_if(object_id, low as int, high as int, texture_name, peg, blocker),
{
    if low < high {
        parts.push(SegPart::Wall { object_id, low, high, texture_name, peg, blocker });
    }
    proof {
        assert(parts@ =~= old(parts)@ + wall_if(object_id, low as int, high as int, texture_name, peg, blocker));
    }
}

/// Appends a sky wall to `parts` unless it is empty.
fn push_sky(parts: &mut Vec<SegPart>, object_id: ObjectId, low: WadCoord, high: WadCoord)
    ensures
        final(parts)@ == old(parts)@ + sky_if(object_id, low as int, high as int),
{
    if low < high {
        parts.push(SegPart::Sky { object_id, low, high });
    }
    proof {
        assert(parts@ =~= old(parts)@ + sky_if(object_id, low as int, high as int));
    }
}

/// The walls and sky walls along one side of a line, in drawing order (see
/// `spec_seg_parts`). `flags` are the line's flags, `sides` the textures of this side,
/// `back` the sector behind and its information for a two-sided line, and `heights` the
/// level's vertical extent.
pub fn seg_parts(
    sector: &WadSector,
    info: &SectorInfo,
    flags: u16,
    sides: &SideTextures,
    back: Option<(&WadSector, &SectorInfo)>,
    heights: (WadCoord, WadCoord),
) -> (r: Vec<SegPart>)
    requires
        seg_fits(*sector, *info, flags, match back { Some((s, i)) => Some((*s, *i)), None => None }),
    ensures
        r@ == spec_seg_parts(*sector, *info, flags, *sides, match back { Some((s, i)) => Some((*s, *i)), None => None }, heights),
{
    let (min, max) = heights;
    let floor = sector.floor_height;
    let ceiling = sector.ceiling_height;
    let unpeg_lower = (flags / 16) % 2 == 1;
    let mut parts: Vec<SegPart> = Vec::new();
    let ghost e = Seq::<SegPart>::empty();
    match back {
        None => {
            let max_height = info.max_height();
            if unpeg_lower {
                push_wall(&mut parts, info.floor_id, floor, floor + max_height, sides.middle, Peg::Bottom, true);
            } else {
                push_wall(&mut parts, info.ceiling_id, ceiling - max_height, ceiling, sides.middle, Peg::Top, true);
            }
            let ghost p1 = parts@;
            if is_sky_flat(sector.ceiling_texture) {
                push_sky(&mut parts, info.ceiling_id, ceiling, max);
            }
            let ghost p2 = parts@;
            if is_sky_flat(sector.floor_texture) {
                push_sky(&mut parts, info.floor_id, min, floor);
            }
            proof {
                assert(p1 =~= e + p1);
            }
            parts
        },
        Some((back_sector, back_info)) => {
            let back_floor = back_sector.floor_height;
            let back_ceiling = back_sector.ceiling_height;
            let back_sky_ceiling = is_sky_flat(back_sector.ceiling_texture);
            if is_sky_flat(sector.ceiling_texture) && !back_sky_ceiling {
                push_sky(&mut parts, info.ceiling_id, ceiling, max);
            }
            if is_sky_flat(sector.floor_texture) && !is_sky_flat(back_sector.floor_texture) {
                push_sky(&mut parts, info.floor_id, min, floor);
            }
            let bottom = if back_info.floor_range.1 > info.floor_range.0 {
                let low = back_floor - back_info.floor_range.1 + info.floor_range.0;
                let peg = if unpeg_lower {
                    Peg::BottomLower
                } else {
                    Peg::Top
                };
                push_wall(&mut parts, back_info.floor_id, low, back_floor, sides.lower, peg, true);
                back_floor
            } else {
                floor
            };
            let top = if back_ceiling < ceiling {
                if !back_sky_ceiling {
                    let peg = if (flags / 8) % 2 == 1 {
                        Peg::Top
                    } else {
                        Peg::Bottom
                    };
                    push_wall(&mut parts, back_info.ceiling_id, back_ceiling, ceiling, sides.upper, peg, true);
                }
                back_ceiling
            } else {
                ceiling
            };
            let object_id = if unpeg_lower {
                info.floor_id
            } else {
                info.ceiling_id
            };
            let peg = if unpeg_lower {
                if is_untextured(sides.upper) {
                    Peg::TopFloat
                } else {
                    Peg::Bottom
                }
            } else {
                if is_untextured(sides.lower) {
                    Peg::BottomFloat
                } else {
                    Peg::Top
                }
            };
            push_wall(&mut parts, object_id, bottom, top, sides.middle, peg, flags % 2 == 1);
            parts
        },
    }
}

/// A sector's object ids and height ranges: those of its dynamic information where it has
/// some, else the static world with ranges of its current floor and ceiling heights.
pub fn sector_info(sector: &WadSector, dynamic: Option<&DynamicSectorInfo>) -> (r: SectorInfo)
    ensures
        ({
            let fr = (sector.floor_height, sector.floor_height);
            let cr = (sector.ceiling_height, sector.ceiling_height);
            match dynamic {
                None => r == (SectorInfo { floor_id: ObjectId(0), ceiling_id: ObjectId(0), floor_range: fr, ceiling_range: cr }),
                Some(d) => r == (SectorInfo {
                    floor_id: d.floor_id,
                    ceiling_id: d.ceiling_id,
                    floor_range: match d.floor_range { Some(x) => x, None => fr },
                    ceiling_range: match d.ceiling_range { Some(x) => x, None => cr },
                }),
            }
        }),
{
    let fr = (sector.floor_height, sector.floor_height);
    let cr = (sector.ceiling_height, sector.ceiling_height);
    match dynamic {
        None => SectorInfo { floor_id: ObjectId(0), ceiling_id: ObjectId(0), floor_range: fr, ceiling_range: cr },
        Some(d) => SectorInfo {
            floor_id: d.floor_id,
            ceiling_id: d.ceiling_id,
            floor_range: match d.floor_range {
                Some(x) => x,
                None => fr,
            },
            ceiling_range: match d.ceiling_range {
                Some(x) => x,
                None => cr,
            },
        },
    }
}

/// A floor or ceiling polygon: a textured flat at a height, or sky at a height.
#[derive(Clone, Copy, Debug, PartialEq, Eq)]
pub enum FlatPart {
    Flat { object_id: ObjectId, height: WadCoord, texture_name: WadName },
    Sky { object_id: ObjectId, height: WadCoord },
}

/// The floor and the ceiling of a sector's polygon. A sky floor is drawn at the bottom of
/// the level's extent and a sky ceiling at its top; other flats at the sector's heights.
pub fn flat_parts(sector: &WadSector, info: &SectorInfo, heights: (WadCoord, WadCoord)) -> (r: (FlatPart, FlatPart))
    ensures
        spec_is_sky_flat(sector.floor_texture@) ==> (r.0 matches FlatPart::Sky { object_id, height }
            && object_id == info.floor_id && height == heights.0),
        !spec_is_sky_flat(sector.floor_texture@) ==> (r.0 matches FlatPart::Flat { object_id, height, texture_name }
            && object_id == info.floor_id && height == sector.floor_height && texture_name == sector.floor_texture),
        spec_is_sky_flat(sector.ceiling_texture@) ==> (r.1 matches FlatPart::Sky { object_id, height }
            && object_id == info.ceiling_id && height == heights.1),
        !spec_is_sky_flat(sector.ceiling_texture@) ==> (r.1 matches FlatPart::Flat { object_id, height, texture_name }
            && object_id == info.ceiling_id && height == sector.ceiling_height && texture_name == sector.ceiling_texture),
{
    let floor = if is_sky_flat(sector.floor_texture) {
        FlatPart::Sky { object_id: info.floor_id, height: heights.0 }
    } else {
        FlatPart::Flat { object_id: info.floor_id, height: sector.floor_height, texture_name: sector.floor_texture }
    };
    let ceiling = if is_sky_flat(sector.ceiling_texture) {
        FlatPart::Sky { object_id: info.ceiling_id, height: heights.1 }
    } else {
        FlatPart::Flat {
            object_id: info.ceiling_id,
            height: sector.ceiling_height,
            texture_name: sector.ceiling_texture,
        }
    };
    (floor, ceiling)
}

/// The two sprite names a decoration is looked up by: the sprite name, plus the first
/// letter of its animation sequence (dropped if it does not fit), plus `0` for the first
/// and `1` for the second. None when either digit does not fit.
pub fn decor_sprite_names(sprite: WadName, sequence: &str) -> (r: Option<(WadName, WadName)>)
    requires
        sequence.spec_bytes().len() > 0,
    ensures
        ({
            let base = match spec_push(sprite@, sequence.spec_bytes()[0]) {
                Ok(n) => n,
                Err(_) => sprite@,
            };
            match (spec_push(base, 48), spec_push(base, 49)) {
                (Ok(a), Ok(b)) => r matches Some((x, y)) && x@ == a && y@ == b,
                _ => r is None,
            }
        }),
{
    let first = sequence.as_bytes()[0];
    let mut sprite0 = sprite;
    let _ = sprite0.push(first);
    let mut sprite1 = sprite0;
    let s0 = sprite0.push(48);
    let s1 = sprite1.push(49);
    match (s0, s1) {
        (Ok(()), Ok(())) => Some((sprite0, sprite1)),
        _ => None,
    }
}

} // verus!
