//! Which floors and ceilings of a level move: the triggers of its linedef specials, the
//! sectors they act on, and the objects and height ranges those sectors get.
use vstd::prelude::*;
use vstd::pervasive::VecAdditionalExecFns;
use vstd::set_lib::{lemma_int_range, lemma_len_subset, set_int_range};
use indexmap::IndexMap;
use crate::index_map::{index_map_contents, index_map_get, index_map_insert, index_map_new};
use crate::meta::{last_special, ExitEffectDef, LinedefMetadata, MoveEffectDef, TriggerType, WadMetadata};
use crate::types::{NeighbourHeights, SectorId, SpecialType, WadSector, WadVertex};
use crate::visitor::{
    check_move_fits, chosen_heights, law_merge_range_is_tight_cover, law_update_ids_fresh_and_ranges_widen,
    move_fits, present, spec_update, targets, update_fits, DynamicSectorInfo, MoveEffect,
    ObjectId,
};

verus! {

/// What the analysis reads of a linedef: its special, the tag of the sectors it acts on,
/// the sector on its left side if it has one, and its end points if both exist.
#[derive(Clone, Copy, Debug)]
pub struct LinedefLinks {
    pub special_type: SpecialType,
    pub sector_tag: u16,
    pub left_sector: Option<SectorId>,
    pub line: Option<(WadVertex, WadVertex)>,
}

/// What the analysis reads of a level: its sectors, the heights of each sector's
/// neighbours (none for a sector without neighbours), and its linedefs.
#[derive(Debug)]
pub struct LevelLinks {
    pub sectors: Vec<WadSector>,
    pub neighbour_heights: Vec<Option<NeighbourHeights>>,
    pub linedefs: Vec<LinedefLinks>,
}

impl LevelLinks {
    /// Sectors are numbered by 16-bit ids, and each has its neighbour heights.
    pub open spec fn wf(&self) -> bool {
        &&& self.sectors@.len() <= 65536
        &&& self.neighbour_heights@.len() == self.sectors@.len()
    }
}

/// What a linedef special does when it is set off, with the moves it starts.
#[derive(Debug)]
pub struct Trigger {
    pub trigger_type: TriggerType,
    /// The linedef's start and end points.
    pub line: (WadVertex, WadVertex),
    pub special_type: SpecialType,
    pub only_once: bool,
    /// The special type has no metadata.
    pub unimplemented: bool,
    pub move_effect_def: Option<MoveEffectDef>,
    pub exit_effect: Option<ExitEffectDef>,
    pub move_effects: Vec<MoveEffect>,
}

/// A linedef sets off a trigger: it has a special and both end points.
pub open spec fn is_trigger(l: LinedefLinks) -> bool {
    l.special_type != 0 && l.line is Some
}

/// The move a linedef's special makes, by its metadata.
pub open spec fn trigger_move(metas: Seq<LinedefMetadata>, l: LinedefLinks) -> Option<MoveEffectDef> {
    match last_special(metas, l.special_type) {
        Some(m) => m.move_effect,
        None => None,
    }
}

/// `t` is, but for its move effects, the trigger of linedef `l`: what the metadata of its
/// special says, or an unimplemented trigger that anything sets off when there is none.
pub open spec fn trigger_head(t: Trigger, l: LinedefLinks, metas: Seq<LinedefMetadata>) -> bool {
    &&& t.special_type == l.special_type
    &&& l.line == Some(t.line)
    &&& match last_special(metas, l.special_type) {
        Some(m) => {
            &&& t.trigger_type == m.trigger
            &&& t.only_once == m.only_once
            &&& t.move_effect_def == m.move_effect
            &&& t.exit_effect == m.exit_effect
            &&& !t.unimplemented
        },
        None => {
            &&& t.trigger_type == TriggerType::Any
            &&& !t.only_once
            &&& t.move_effect_def is None
            &&& t.exit_effect is None
            &&& t.unimplemented
        },
    }
}

/// The ids of the first `n` sectors that carry `tag`, in increasing order.
pub open spec fn tagged(sectors: Seq<WadSector>, tag: u16, n: int) -> Seq<SectorId>
    decreases n,
{
    if n <= 0 {
        Seq::empty()
    } else if sectors[n - 1].tag == tag {
        tagged(sectors, tag, n - 1).push((n - 1) as SectorId)
    } else {
        tagged(sectors, tag, n - 1)
    }
}

/// Some sector carries a tag.
pub open spec fn has_tagged(sectors: Seq<WadSector>) -> bool {
    exists|i: int| 0 <= i < sectors.len() && sectors[i].tag > 0
}

/// The sectors a linedef's trigger acts on: with no tag, the sector on its left, if any;
/// else every sector with its tag, by increasing id.
pub open spec fn affected(sectors: Seq<WadSector>, l: LinedefLinks) -> Seq<SectorId> {
    if l.sector_tag == 0 {
        match l.left_sector {
            Some(s) => seq![s],
            None => Seq::empty(),
        }
    } else {
        tagged(sectors, l.sector_tag, sectors.len() as int)
    }
}

/// Where each sector id of `keys` stands.
pub open spec fn key_index(keys: Seq<SectorId>) -> Map<u64, usize>
    decreases keys.len(),
{
    if keys.len() == 0 {
        Map::empty()
    } else {
        key_index(keys.drop_last()).insert(keys.last() as u64, (keys.len() - 1) as usize)
    }
}

/// What is known of a sector before any trigger acts on it.
pub open spec fn no_info() -> DynamicSectorInfo {
    DynamicSectorInfo {
        floor_id: ObjectId(0),
        ceiling_id: ObjectId(0),
        neighbour_heights: None,
        floor_range: None,
        ceiling_range: None,
    }
}

/// A trigger's move acts on sector `sid`: the sector's information, found by its id or
/// else added last, is updated; gives the new sector ids, informations and next free
/// object id, and the move effects started.
pub open spec fn touch(
    st: (Seq<SectorId>, Seq<DynamicSectorInfo>, u32),
    sid: SectorId,
    sector: WadSector,
    level: Option<NeighbourHeights>,
    def: Option<MoveEffectDef>,
) -> ((Seq<SectorId>, Seq<DynamicSectorInfo>, u32), Seq<MoveEffect>) {
    let (keys, infos, next) = st;
    let idx = key_index(keys);
    if idx.contains_key(sid as u64) {
        let j = idx[sid as u64] as int;
        let (i2, n2, e) = spec_update(infos[j], next, sector, level, def);
        ((keys, infos.update(j, i2), n2), e)
    } else {
        let (i2, n2, e) = spec_update(no_info(), next, sector, level, def);
        ((keys.push(sid), infos.push(i2), n2), e)
    }
}

/// A trigger's move acts on each sector of `ids` in turn; the move effects are gathered
/// in that order.
pub open spec fn touch_all(
    st: (Seq<SectorId>, Seq<DynamicSectorInfo>, u32),
    ids: Seq<SectorId>,
    sectors: Seq<WadSector>,
    heights: Seq<Option<NeighbourHeights>>,
    def: Option<MoveEffectDef>,
) -> ((Seq<SectorId>, Seq<DynamicSectorInfo>, u32), Seq<MoveEffect>)
    decreases ids.len(),
{
    if ids.len() == 0 {
        (st, Seq::empty())
    } else {
        let (s1, e1) = touch_all(st, ids.drop_last(), sectors, heights, def);
        let sid = ids.last();
        let (s2, e2) = touch(s1, sid, sectors[sid as int], heights[sid as int], def);
        (s2, e1 + e2)
    }
}

/// The analysis of the first `n` linedefs: the sectors' informations and the next free
/// object id, and for each linedef that sets off a trigger, its index and the move
/// effects its trigger starts.
pub open spec fn analysis_upto(
    sectors: Seq<WadSector>,
    heights: Seq<Option<NeighbourHeights>>,
    links: Seq<LinedefLinks>,
    metas: Seq<LinedefMetadata>,
    n: int,
) -> ((Seq<SectorId>, Seq<DynamicSectorInfo>, u32), Seq<(int, Seq<MoveEffect>)>)
    decreases n,
{
    if n <= 0 {
        ((Seq::empty(), Seq::empty(), 1u32), Seq::empty())
    } else {
        let (st, ts) = analysis_upto(sectors, heights, links, metas, n - 1);
        let l = links[n - 1];
        if is_trigger(l) {
            let (st2, es) = touch_all(st, affected(sectors, l), sectors, heights, trigger_move(metas, l));
            (st2, ts.push((n - 1, es)))
        } else {
            (st, ts)
        }
    }
}

/// The analysis of a level: that of all its linedefs, or nothing at all (and no object)
/// when no sector carries a tag.
pub open spec fn spec_analysis(
    sectors: Seq<WadSector>,
    heights: Seq<Option<NeighbourHeights>>,
    links: Seq<LinedefLinks>,
    metas: Seq<LinedefMetadata>,
) -> ((Seq<SectorId>, Seq<DynamicSectorInfo>, u32), Seq<(int, Seq<MoveEffect>)>) {
    if has_tagged(sectors) {
        analysis_upto(sectors, heights, links, metas, links.len() as int)
    } else {
        ((Seq::empty(), Seq::empty(), 0u32), Seq::empty())
    }
}

/// The sectors a linedef's trigger acts on exist, and the move fits map coordinates on
/// each of them.
pub open spec fn linedef_fits(
    sectors: Seq<WadSector>,
    heights: Seq<Option<NeighbourHeights>>,
    l: LinedefLinks,
    metas: Seq<LinedefMetadata>,
) -> bool {
    let ids = affected(sectors, l);
    forall|k: int|
        0 <= k < ids.len() ==> {
            &&& (#[trigger] ids[k] as int) < sectors.len()
            &&& move_fits(sectors[ids[k] as int], heights[ids[k] as int], trigger_move(metas, l))
        }
}

/// The inputs the analysis completes on: when it runs at all, every linedef that sets off
/// a trigger fits.
pub open spec fn links_fit(
    sectors: Seq<WadSector>,
    heights: Seq<Option<NeighbourHeights>>,
    links: Seq<LinedefLinks>,
    metas: Seq<LinedefMetadata>,
) -> bool {
    has_tagged(sectors) ==> forall|i: int|
        0 <= i < links.len() && is_trigger(#[trigger] links[i]) ==> linedef_fits(sectors, heights, links[i], metas)
}

/// How many object ids a sector's information holds.
pub open spec fn ids_count(i: DynamicSectorInfo) -> int {
    (if i.floor_id.0 != 0 { 1int } else { 0int }) + (if i.ceiling_id.0 != 0 { 1int } else { 0int })
}

/// How many object ids the informations hold together.
pub open spec fn given(infos: Seq<DynamicSectorInfo>) -> int
    decreases infos.len(),
{
    if infos.len() == 0 {
        0
    } else {
        given(infos.drop_last()) + ids_count(infos.last())
    }
}

/// No object id of `a` is an object id of `b`.
pub open spec fn ids_apart(a: DynamicSectorInfo, b: DynamicSectorInfo) -> bool {
    &&& a.floor_id.0 != 0 ==> a.floor_id.0 != b.floor_id.0 && a.floor_id.0 != b.ceiling_id.0
    &&& a.ceiling_id.0 != 0 ==> a.ceiling_id.0 != b.floor_id.0 && a.ceiling_id.0 != b.ceiling_id.0
}

/// Every object id is below `next`, and no two floors or ceilings share one.
pub open spec fn ids_ok(infos: Seq<DynamicSectorInfo>, next: u32) -> bool {
    &&& forall|j: int| 0 <= j < infos.len() ==> (#[trigger] infos[j]).floor_id.0 < next && infos[j].ceiling_id.0 < next
    &&& forall|j: int| 0 <= j < infos.len() ==> ((#[trigger] infos[j]).floor_id.0 != 0 ==> infos[j].floor_id.0 != infos[j].ceiling_id.0)
    &&& forall|j: int, k: int| 0 <= j < infos.len() && 0 <= k < infos.len() && j != k ==> ids_apart(#[trigger] infos[j], #[trigger] infos[k])
}

/// Every move effect names an object: an id from one up to below `next`.
pub open spec fn effects_ok(es: Seq<MoveEffect>, next: u32) -> bool {
    forall|x: int| 0 <= x < es.len() ==> 0 < (#[trigger] es[x]).object_id.0 < next
}

/// What holds of the analysis state between steps: sector ids and informations pair up,
/// no sector comes twice, each exists and keeps the neighbour heights of the level, the
/// next free id follows the ids given, and object ids are unique.
pub open spec fn slots_wf(
    st: (Seq<SectorId>, Seq<DynamicSectorInfo>, u32),
    sectors: Seq<WadSector>,
    heights: Seq<Option<NeighbourHeights>>,
) -> bool {
    let (keys, infos, next) = st;
    &&& keys.len() == infos.len()
    &&& keys.no_duplicates()
    &&& forall|j: int| 0 <= j < keys.len() ==> (#[trigger] keys[j] as int) < sectors.len()
    &&& forall|j: int| 0 <= j < keys.len() ==> (#[trigger] infos[j]).neighbour_heights is None
        || infos[j].neighbour_heights == heights[keys[j] as int]
    &&& next == 1 + given(infos)
    &&& ids_ok(infos, next)
}

proof fn lemma_given_bound(infos: Seq<DynamicSectorInfo>)
    ensures
        0 <= given(infos) <= 2 * infos.len(),
    decreases infos.len(),
{
    if infos.len() > 0 {
        lemma_given_bound(infos.drop_last());
    }
}

proof fn lemma_given_update(infos: Seq<DynamicSectorInfo>, j: int, x: DynamicSectorInfo)
    requires
        0 <= j < infos.len(),
    ensures
        given(infos.update(j, x)) == given(infos) - ids_count(infos[j]) + ids_count(x),
    decreases infos.len(),
{
    let u = infos.update(j, x);
    if j == infos.len() - 1 {
        assert(u.drop_last() =~= infos.drop_last());
    } else {
        assert(u.drop_last() =~= infos.drop_last().update(j, x));
        lemma_given_update(infos.drop_last(), j, x);
    }
}

proof fn lemma_given_push(infos: Seq<DynamicSectorInfo>, x: DynamicSectorInfo)
    ensures
        given(infos.push(x)) == given(infos) + ids_count(x),
{
    assert(infos.push(x).drop_last() =~= infos);
}

proof fn lemma_key_index(keys: Seq<SectorId>)
    requires
        keys.no_duplicates(),
        keys.len() <= usize::MAX,
    ensures
        forall|j: int| 0 <= j < keys.len() ==> #[trigger] key_index(keys).contains_key(keys[j] as u64)
            && key_index(keys)[keys[j] as u64] == j,
        forall|s: SectorId| #[trigger] key_index(keys).contains_key(s as u64) ==> keys.contains(s),
    decreases keys.len(),
{
    if keys.len() > 0 {
        let p = keys.drop_last();
        assert forall|a: int, b: int| 0 <= a < p.len() && 0 <= b < p.len() && a != b implies p[a] != p[b] by {
            assert(p[a] == keys[a] && p[b] == keys[b]);
        }
        lemma_key_index(p);
        assert forall|j: int| 0 <= j < keys.len() implies #[trigger] key_index(keys).contains_key(keys[j] as u64)
            && key_index(keys)[keys[j] as u64] == j by {
            if j < keys.len() - 1 {
                assert(p[j] == keys[j]);
                assert(keys[j] != keys.last());
                assert(keys[j] as u64 != keys.last() as u64);
                assert(key_index(p).contains_key(p[j] as u64) && key_index(p)[p[j] as u64] == j);
            }
        }
        assert forall|s: SectorId| #[trigger] key_index(keys).contains_key(s as u64) implies keys.contains(s) by {
            if s as u64 == keys.last() as u64 {
                assert(keys[keys.len() - 1] == s);
            } else {
                assert(key_index(p).contains_key(s as u64));
                assert(p.contains(s));
                let j = choose|j: int| 0 <= j < p.len() && p[j] == s;
                assert(keys[j] == s);
            }
        }
    }
}

/// Distinct sector ids below `n` are at most `n`.
proof fn lemma_keys_bound(keys: Seq<SectorId>, n: int)
    requires
        keys.no_duplicates(),
        0 <= n,
        forall|j: int| 0 <= j < keys.len() ==> (#[trigger] keys[j] as int) < n,
    ensures
        keys.len() <= n,
{
    let s = keys.map_values(|x: SectorId| x as int);
    assert forall|a: int, b: int| 0 <= a < s.len() && 0 <= b < s.len() && a != b implies s[a] != s[b] by {
        assert(keys[a] != keys[b]);
    }
    s.unique_seq_to_set();
    lemma_int_range(0, n);
    assert forall|v: int| s.to_set().contains(v) implies set_int_range(0, n).contains(v) by {
        let j = choose|j: int| 0 <= j < s.len() && s[j] == v;
        assert(keys[j] as int == v);
    }
    lemma_len_subset(s.to_set(), set_int_range(0, n));
}

/// What an update does to one sector's object ids, its neighbour heights and the next
/// free id, and that its move effects name the sector's objects.
proof fn lemma_update_facts(
    info: DynamicSectorInfo,
    next: u32,
    sector: WadSector,
    level: Option<NeighbourHeights>,
    def: Option<MoveEffectDef>,
)
    requires
        update_fits(info, next, sector, level, def),
        1 <= next,
        info.neighbour_heights is None || info.neighbour_heights == level,
        info.floor_id.0 < next && info.ceiling_id.0 < next,
        info.floor_id.0 != 0 ==> info.floor_id.0 != info.ceiling_id.0,
    ensures
        ({
            let (i2, n2, e) = spec_update(info, next, sector, level, def);
            &&& n2 >= next
            &&& ids_count(i2) == ids_count(info) + (n2 - next)
            &&& i2.neighbour_heights is None || i2.neighbour_heights == level
            &&& i2.floor_id.0 < n2 && i2.ceiling_id.0 < n2
            &&& i2.floor_id.0 != 0 ==> i2.floor_id.0 != i2.ceiling_id.0
            &&& info.floor_id.0 != 0 ==> i2.floor_id == info.floor_id
            &&& info.ceiling_id.0 != 0 ==> i2.ceiling_id == info.ceiling_id
            &&& i2.floor_id.0 != info.floor_id.0 ==> i2.floor_id.0 >= next
            &&& i2.ceiling_id.0 != info.ceiling_id.0 ==> i2.ceiling_id.0 >= next
            &&& effects_ok(e, n2)
        }),
{
    law_update_ids_fresh_and_ranges_widen(info, next, sector, level, def);
    if let Some(d) = def {
        if let Some(h) = chosen_heights(info.neighbour_heights, level) {
            let f = targets(d.floor, sector, h);
            let c = targets(d.ceiling, sector, h);
            law_merge_range_is_tight_cover(info.floor_range, sector.floor_height, present(f));
            law_merge_range_is_tight_cover(info.ceiling_range, sector.ceiling_height, present(c));
            if f.0 is Some {
                assert(present(f).len() > 0);
            }
            if c.0 is Some {
                assert(present(c).len() > 0);
            }
        }
    }
}

/// The information `touch` updates for a sector, and where it stands.
proof fn lemma_touch_finds(
    st: (Seq<SectorId>, Seq<DynamicSectorInfo>, u32),
    sid: SectorId,
    sectors: Seq<WadSector>,
    heights: Seq<Option<NeighbourHeights>>,
)
    requires
        slots_wf(st, sectors, heights),
        sectors.len() <= 65536,
    ensures
        ({
            let (keys, infos, next) = st;
            let idx = key_index(keys);
            &&& keys.len() <= 65536
            &&& idx.contains_key(sid as u64) ==> (idx[sid as u64] as int) < infos.len() && keys[idx[sid as u64] as int] == sid
            &&& !idx.contains_key(sid as u64) ==> !keys.contains(sid)
            &&& next <= 1 + 2 * 65536
        }),
{
    let (keys, infos, next) = st;
    lemma_keys_bound(keys, sectors.len() as int);
    lemma_key_index(keys);
    lemma_given_bound(infos);
    let idx = key_index(keys);
    if idx.contains_key(sid as u64) {
        assert(keys.contains(sid));
        let jj = choose|jj: int| 0 <= jj < keys.len() && keys[jj] == sid;
        assert(idx[keys[jj] as u64] == jj);
    }
}

/// A move acts on one sector: it completes, keeps the state's invariant, and every move
/// effect it starts names an object below the new next free id.
proof fn lemma_touch(
    st: (Seq<SectorId>, Seq<DynamicSectorInfo>, u32),
    sid: SectorId,
    sectors: Seq<WadSector>,
    heights: Seq<Option<NeighbourHeights>>,
    def: Option<MoveEffectDef>,
)
    requires
        slots_wf(st, sectors, heights),
        sectors.len() <= 65536,
        heights.len() == sectors.len(),
        (sid as int) < sectors.len(),
        move_fits(sectors[sid as int], heights[sid as int], def),
    ensures
        ({
            let (keys, infos, next) = st;
            let idx = key_index(keys);
            let info = if idx.contains_key(sid as u64) { infos[idx[sid as u64] as int] } else { no_info() };
            &&& idx.contains_key(sid as u64) ==> (idx[sid as u64] as int) < infos.len() && keys[idx[sid as u64] as int] == sid
            &&& update_fits(info, next, sectors[sid as int], heights[sid as int], def)
        }),
        ({
            let (st2, e) = touch(st, sid, sectors[sid as int], heights[sid as int], def);
            &&& slots_wf(st2, sectors, heights)
            &&& st2.2 >= st.2
            &&& effects_ok(e, st2.2)
        }),
{
    let (keys, infos, next) = st;
    let idx = key_index(keys);
    let sector = sectors[sid as int];
    let level = heights[sid as int];
    lemma_touch_finds(st, sid, sectors, heights);
    let found = idx.contains_key(sid as u64);
    let j: int = if found { idx[sid as u64] as int } else { infos.len() as int };
    let info = if found { infos[j] } else { no_info() };
    assert(info.neighbour_heights is None || info.neighbour_heights == level);
    assert(info.floor_id.0 < next && info.ceiling_id.0 < next);
    assert(update_fits(info, next, sector, level, def));
    lemma_update_facts(info, next, sector, level, def);
    let (i2, n2, e) = spec_update(info, next, sector, level, def);
    let (st2, e2) = touch(st, sid, sector, level, def);
    assert(st2.2 == n2 && e2 == e);
    if found {
        lemma_given_update(infos, j, i2);
        let inf2 = infos.update(j, i2);
        assert(st2.1 == inf2);
        assert forall|a: int, b: int| 0 <= a < inf2.len() && 0 <= b < inf2.len() && a != b implies ids_apart(#[trigger] inf2[a], #[trigger] inf2[b]) by {
            assert(ids_apart(infos[a], infos[b]));
        }
        assert forall|a: int| 0 <= a < keys.len() implies (#[trigger] inf2[a]).neighbour_heights is None
            || inf2[a].neighbour_heights == heights[keys[a] as int] by {
            if a != j {
                assert(inf2[a] == infos[a]);
            }
        }
    } else {
        lemma_given_push(infos, i2);
        let k2 = keys.push(sid);
        let inf2 = infos.push(i2);
        assert(st2.0 == k2 && st2.1 == inf2);
        assert forall|a: int, b: int| 0 <= a < k2.len() && 0 <= b < k2.len() && a != b implies k2[a] != k2[b] by {
            if a < keys.len() && b < keys.len() {
                assert(keys[a] != keys[b]);
            } else if a < keys.len() {
                assert(k2[a] == keys[a]);
            } else {
                assert(k2[b] == keys[b]);
            }
        }
        assert forall|a: int, b: int| 0 <= a < inf2.len() && 0 <= b < inf2.len() && a != b implies ids_apart(#[trigger] inf2[a], #[trigger] inf2[b]) by {
            if a < infos.len() && b < infos.len() {
                assert(ids_apart(infos[a], infos[b]));
            }
        }
        assert forall|a: int| 0 <= a < k2.len() implies (#[trigger] k2[a] as int) < sectors.len() by {
            if a < keys.len() {
                assert(k2[a] == keys[a]);
            }
        }
        assert forall|a: int| 0 <= a < k2.len() implies (#[trigger] inf2[a]).neighbour_heights is None
            || inf2[a].neighbour_heights == heights[k2[a] as int] by {
            if a < keys.len() {
                assert(k2[a] == keys[a]);
                assert(inf2[a] == infos[a]);
            }
        }
    }
}

/// A move acts on several sectors in turn: the same, step after step.
proof fn lemma_touch_all(
    st: (Seq<SectorId>, Seq<DynamicSectorInfo>, u32),
    ids: Seq<SectorId>,
    sectors: Seq<WadSector>,
    heights: Seq<Option<NeighbourHeights>>,
    def: Option<MoveEffectDef>,
)
    requires
        slots_wf(st, sectors, heights),
        sectors.len() <= 65536,
        heights.len() == sectors.len(),
        forall|k: int| 0 <= k < ids.len() ==> {
            &&& (#[trigger] ids[k] as int) < sectors.len()
            &&& move_fits(sectors[ids[k] as int], heights[ids[k] as int], def)
        },
    ensures
        ({
            let (st2, e) = touch_all(st, ids, sectors, heights, def);
            &&& slots_wf(st2, sectors, heights)
            &&& st2.2 >= st.2
            &&& effects_ok(e, st2.2)
        }),
    decreases ids.len(),
{
    if ids.len() > 0 {
        let p = ids.drop_last();
        assert forall|k: int| 0 <= k < p.len() implies {
            &&& (#[trigger] p[k] as int) < sectors.len()
            &&& move_fits(sectors[p[k] as int], heights[p[k] as int], def)
        } by {
            assert(p[k] == ids[k]);
        }
        lemma_touch_all(st, p, sectors, heights, def);
        let (s1, e1) = touch_all(st, p, sectors, heights, def);
        let sid = ids.last();
        assert(ids[ids.len() - 1] == sid);
        lemma_touch(s1, sid, sectors, heights, def);
        let (s2, e2) = touch(s1, sid, sectors[sid as int], heights[sid as int], def);
        assert forall|x: int| 0 <= x < (e1 + e2).len() implies 0 < (#[trigger] (e1 + e2)[x]).object_id.0 < s2.2 by {
            if x < e1.len() {
                assert((e1 + e2)[x] == e1[x]);
            } else {
                assert((e1 + e2)[x] == e2[x - e1.len()]);
            }
        }
    }
}

/// The ids of `tagged` are those of the sectors that carry the tag, below `n`, in
/// increasing order.
proof fn lemma_tagged(sectors: Seq<WadSector>, tag: u16, n: int)
    requires
        0 <= n <= sectors.len(),
        sectors.len() <= 65536,
    ensures
        forall|k: int| 0 <= k < tagged(sectors, tag, n).len() ==> {
            &&& (#[trigger] tagged(sectors, tag, n)[k] as int) < n
            &&& sectors[tagged(sectors, tag, n)[k] as int].tag == tag
        },
        (forall|i: int| 0 <= i < n ==> sectors[i].tag != tag) ==> tagged(sectors, tag, n).len() == 0,
    decreases n,
{
    if n > 0 {
        lemma_tagged(sectors, tag, n - 1);
        let p = tagged(sectors, tag, n - 1);
        let t = tagged(sectors, tag, n);
        assert forall|k: int| 0 <= k < t.len() implies {
            &&& (#[trigger] t[k] as int) < n
            &&& sectors[t[k] as int].tag == tag
        } by {
            if k < p.len() {
                assert(t[k] == p[k]);
            }
        }
    }
}

/// The analysis of the first `n` linedefs keeps the state's invariant, and the move
/// effects of its triggers name objects.
proof fn lemma_analysis_state(
    sectors: Seq<WadSector>,
    heights: Seq<Option<NeighbourHeights>>,
    links: Seq<LinedefLinks>,
    metas: Seq<LinedefMetadata>,
    n: int,
)
    requires
        0 <= n <= links.len(),
        sectors.len() <= 65536,
        heights.len() == sectors.len(),
        forall|i: int| 0 <= i < n && is_trigger(#[trigger] links[i]) ==> linedef_fits(sectors, heights, links[i], metas),
    ensures
        slots_wf(analysis_upto(sectors, heights, links, metas, n).0, sectors, heights),
        forall|k: int| 0 <= k < analysis_upto(sectors, heights, links, metas, n).1.len()
            ==> effects_ok((#[trigger] analysis_upto(sectors, heights, links, metas, n).1[k]).1,
                analysis_upto(sectors, heights, links, metas, n).0.2),
    decreases n,
{
    if n > 0 {
        lemma_analysis_state(sectors, heights, links, metas, n - 1);
        let (st, ts) = analysis_upto(sectors, heights, links, metas, n - 1);
        let l = links[n - 1];
        if is_trigger(l) {
            assert(linedef_fits(sectors, heights, l, metas));
            let ids = affected(sectors, l);
            let def = trigger_move(metas, l);
            assert forall|k: int| 0 <= k < ids.len() implies {
                &&& (#[trigger] ids[k] as int) < sectors.len()
                &&& move_fits(sectors[ids[k] as int], heights[ids[k] as int], def)
            } by {
            }
            lemma_touch_all(st, ids, sectors, heights, def);
            let (st2, es) = touch_all(st, ids, sectors, heights, def);
            let ts2 = ts.push((n - 1, es));
            assert(analysis_upto(sectors, heights, links, metas, n) == (st2, ts2));
            assert forall|k: int| 0 <= k < ts2.len() implies effects_ok((#[trigger] ts2[k]).1, st2.2) by {
                if k < ts.len() {
                    assert(ts2[k] == ts[k]);
                    assert(effects_ok(ts[k].1, st.2));
                }
            }
        } else {
            assert(analysis_upto(sectors, heights, links, metas, n) == (st, ts));
        }
    } else {
        assert(given(Seq::<DynamicSectorInfo>::empty()) == 0);
    }
}

/// The triggers of the first `n` linedefs come from the linedefs that set one off, one
/// each, in order.
proof fn lemma_analysis_triggers(
    sectors: Seq<WadSector>,
    heights: Seq<Option<NeighbourHeights>>,
    links: Seq<LinedefLinks>,
    metas: Seq<LinedefMetadata>,
    n: int,
)
    requires
        0 <= n <= links.len(),
    ensures
        ({
            let ts = analysis_upto(sectors, heights, links, metas, n).1;
            &&& forall|k: int| 0 <= k < ts.len() ==> 0 <= (#[trigger] ts[k]).0 < n && is_trigger(links[ts[k].0])
            &&& forall|k1: int, k2: int| 0 <= k1 < k2 < ts.len() ==> (#[trigger] ts[k1]).0 < (#[trigger] ts[k2]).0
            &&& forall|i: int| 0 <= i < n && is_trigger(#[trigger] links[i]) ==> exists|k: int| 0 <= k < ts.len() && ts[k].0 == i
        }),
    decreases n,
{
    if n > 0 {
        lemma_analysis_triggers(sectors, heights, links, metas, n - 1);
        let (st, ts) = analysis_upto(sectors, heights, links, metas, n - 1);
        let l = links[n - 1];
        if is_trigger(l) {
            let (st2, es) = touch_all(st, affected(sectors, l), sectors, heights, trigger_move(metas, l));
            let ts2 = ts.push((n - 1, es));
            assert(analysis_upto(sectors, heights, links, metas, n).1 == ts2);
            assert forall|k: int| 0 <= k < ts2.len() implies 0 <= (#[trigger] ts2[k]).0 < n && is_trigger(links[ts2[k].0]) by {
                if k < ts.len() {
                    assert(ts2[k] == ts[k]);
                }
            }
            assert forall|k1: int, k2: int| 0 <= k1 < k2 < ts2.len() implies (#[trigger] ts2[k1]).0 < (#[trigger] ts2[k2]).0 by {
                assert(ts2[k1] == ts[k1]);
                if k2 < ts.len() {
                    assert(ts2[k2] == ts[k2]);
                } else {
                    assert(0 <= ts[k1].0 < n - 1);
                }
            }
            assert forall|i: int| 0 <= i < n && is_trigger(#[trigger] links[i]) implies exists|k: int| 0 <= k < ts2.len() && ts2[k].0 == i by {
                if i < n - 1 {
                    let k = choose|k: int| 0 <= k < ts.len() && ts[k].0 == i;
                    assert(ts2[k] == ts[k]);
                } else {
                    assert(ts2[ts.len() as int].0 == i);
                }
            }
        } else {
            assert(analysis_upto(sectors, heights, links, metas, n).1 == ts);
            assert forall|i: int| 0 <= i < n && is_trigger(#[trigger] links[i]) implies exists|k: int| 0 <= k < ts.len() && ts[k].0 == i by {
                assert(i < n - 1);
            }
        }
    }
}

proof fn lemma_tagged_exact(sectors: Seq<WadSector>, tag: u16, n: int)
    requires
        0 <= n <= sectors.len(),
        sectors.len() <= 65536,
    ensures
        forall|i: int| 0 <= i < n ==> (tagged(sectors, tag, n).contains(i as SectorId) <==> (#[trigger] sectors[i]).tag == tag),
        forall|k: int| 0 <= k < tagged(sectors, tag, n).len() ==> (#[trigger] tagged(sectors, tag, n)[k] as int) < n,
        forall|k1: int, k2: int| 0 <= k1 < k2 < tagged(sectors, tag, n).len()
            ==> (#[trigger] tagged(sectors, tag, n)[k1]) < (#[trigger] tagged(sectors, tag, n)[k2]),
    decreases n,
{
    if n > 0 {
        lemma_tagged_exact(sectors, tag, n - 1);
        let p = tagged(sectors, tag, n - 1);
        let t = tagged(sectors, tag, n);
        assert forall|k: int| 0 <= k < t.len() implies (#[trigger] t[k] as int) < n by {
            if k < p.len() {
                assert(t[k] == p[k]);
            }
        }
        assert forall|k1: int, k2: int| 0 <= k1 < k2 < t.len() implies (#[trigger] t[k1]) < (#[trigger] t[k2]) by {
            assert(t[k1] == p[k1]);
            if k2 < p.len() {
                assert(t[k2] == p[k2]);
            }
        }
        assert forall|i: int| 0 <= i < n implies (t.contains(i as SectorId) <==> (#[trigger] sectors[i]).tag == tag) by {
            if i < n - 1 {
                if t.contains(i as SectorId) {
                    let k = choose|k: int| 0 <= k < t.len() && t[k] == i as SectorId;
                    if k < p.len() {
                        assert(t[k] == p[k]);
                    } else {
                        assert(t[k] == (n - 1) as SectorId);
                    }
                }
                if sectors[i].tag == tag {
                    let k = choose|k: int| 0 <= k < p.len() && p[k] == i as SectorId;
                    assert(t[k] == p[k]);
                }
            } else {
                if sectors[i].tag == tag {
                    assert(t[p.len() as int] == i as SectorId);
                } else if t.contains(i as SectorId) {
                    let k = choose|k: int| 0 <= k < t.len() && t[k] == i as SectorId;
                    assert(t == p);
                    assert((p[k] as int) < n - 1);
                }
            }
        }
    }
}

/// A linedef with a tag acts on exactly the sectors that carry its tag, each once, in
/// increasing order of sector id.
pub proof fn law_tag_selects_sectors(sectors: Seq<WadSector>, l: LinedefLinks)
    requires
        sectors.len() <= 65536,
        l.sector_tag != 0,
    ensures
        forall|i: int| 0 <= i < sectors.len()
            ==> (affected(sectors, l).contains(i as SectorId) <==> (#[trigger] sectors[i]).tag == l.sector_tag),
        forall|k: int| 0 <= k < affected(sectors, l).len() ==> (#[trigger] affected(sectors, l)[k] as int) < sectors.len(),
        forall|k1: int, k2: int| 0 <= k1 < k2 < affected(sectors, l).len()
            ==> (#[trigger] affected(sectors, l)[k1]) < (#[trigger] affected(sectors, l)[k2]),
{
    lemma_tagged_exact(sectors, l.sector_tag, sectors.len() as int);
}

proof fn lemma_touch_keys(
    st: (Seq<SectorId>, Seq<DynamicSectorInfo>, u32),
    sid: SectorId,
    sector: WadSector,
    level: Option<NeighbourHeights>,
    def: Option<MoveEffectDef>,
)
    requires
        st.0.no_duplicates(),
        st.0.len() <= 65536,
    ensures
        touch(st, sid, sector, level, def).0.0.contains(sid),
        forall|x: SectorId| st.0.contains(x) ==> #[trigger] touch(st, sid, sector, level, def).0.0.contains(x),
{
    lemma_key_index(st.0);
    let k2 = touch(st, sid, sector, level, def).0.0;
    if key_index(st.0).contains_key(sid as u64) {
        assert(k2 == st.0);
    } else {
        assert(k2 == st.0.push(sid));
        assert(k2[st.0.len() as int] == sid);
        assert forall|x: SectorId| st.0.contains(x) implies #[trigger] k2.contains(x) by {
            let j = choose|j: int| 0 <= j < st.0.len() && st.0[j] == x;
            assert(k2[j] == x);
        }
    }
}

proof fn lemma_touch_all_keys(
    st: (Seq<SectorId>, Seq<DynamicSectorInfo>, u32),
    ids: Seq<SectorId>,
    sectors: Seq<WadSector>,
    heights: Seq<Option<NeighbourHeights>>,
    def: Option<MoveEffectDef>,
)
    requires
        slots_wf(st, sectors, heights),
        sectors.len() <= 65536,
        heights.len() == sectors.len(),
        forall|k: int| 0 <= k < ids.len() ==> {
            &&& (#[trigger] ids[k] as int) < sectors.len()
            &&& move_fits(sectors[ids[k] as int], heights[ids[k] as int], def)
        },
    ensures
        forall|x: SectorId| st.0.contains(x) ==> #[trigger] touch_all(st, ids, sectors, heights, def).0.0.contains(x),
        forall|k: int| 0 <= k < ids.len() ==> touch_all(st, ids, sectors, heights, def).0.0.contains(#[trigger] ids[k]),
    decreases ids.len(),
{
    if ids.len() > 0 {
        let p = ids.drop_last();
        assert forall|k: int| 0 <= k < p.len() implies {
            &&& (#[trigger] p[k] as int) < sectors.len()
            &&& move_fits(sectors[p[k] as int], heights[p[k] as int], def)
        } by {
            assert(p[k] == ids[k]);
        }
        lemma_touch_all_keys(st, p, sectors, heights, def);
        lemma_touch_all(st, p, sectors, heights, def);
        let (s1, e1) = touch_all(st, p, sectors, heights, def);
        let sid = ids.last();
        lemma_touch_finds(s1, sid, sectors, heights);
        lemma_touch_keys(s1, sid, sectors[sid as int], heights[sid as int], def);
        let s2 = touch(s1, sid, sectors[sid as int], heights[sid as int], def).0;
        assert(touch_all(st, ids, sectors, heights, def).0 == s2);
        assert forall|x: SectorId| st.0.contains(x) implies #[trigger] s2.0.contains(x) by {
            assert(s1.0.contains(x));
        }
        assert forall|k: int| 0 <= k < ids.len() implies s2.0.contains(#[trigger] ids[k]) by {
            if k < p.len() {
                assert(p[k] == ids[k]);
                assert(s1.0.contains(p[k]));
            }
        }
    }
}

proof fn lemma_analysis_keys(
    sectors: Seq<WadSector>,
    heights: Seq<Option<NeighbourHeights>>,
    links: Seq<LinedefLinks>,
    metas: Seq<LinedefMetadata>,
    n: int,
)
    requires
        0 <= n <= links.len(),
        sectors.len() <= 65536,
        heights.len() == sectors.len(),
        forall|i: int| 0 <= i < n && is_trigger(#[trigger] links[i]) ==> linedef_fits(sectors, heights, links[i], metas),
    ensures
        forall|i: int, k: int| 0 <= i < n && is_trigger(links[i]) && 0 <= k < affected(sectors, links[i]).len()
            ==> analysis_upto(sectors, heights, links, metas, n).0.0.contains(#[trigger] affected(sectors, #[trigger] links[i])[k]),
    decreases n,
{
    if n > 0 {
        lemma_analysis_keys(sectors, heights, links, metas, n - 1);
        lemma_analysis_state(sectors, heights, links, metas, n - 1);
        let (st, ts) = analysis_upto(sectors, heights, links, metas, n - 1);
        let l = links[n - 1];
        let st2 = analysis_upto(sectors, heights, links, metas, n).0;
        if is_trigger(l) {
            let ids = affected(sectors, l);
            let def = trigger_move(metas, l);
            assert(linedef_fits(sectors, heights, l, metas));
            assert forall|k: int| 0 <= k < ids.len() implies {
                &&& (#[trigger] ids[k] as int) < sectors.len()
                &&& move_fits(sectors[ids[k] as int], heights[ids[k] as int], def)
            } by {
            }
            lemma_touch_all_keys(st, ids, sectors, heights, def);
            assert(st2 == touch_all(st, ids, sectors, heights, def).0);
        } else {
            assert(st2 == st);
        }
        assert forall|i: int, k: int| 0 <= i < n && is_trigger(links[i]) && 0 <= k < affected(sectors, links[i]).len()
            implies st2.0.contains(#[trigger] affected(sectors, #[trigger] links[i])[k]) by {
            if i < n - 1 {
                assert(st.0.contains(affected(sectors, links[i])[k]));
            }
        }
    }
}

/// Every sector a trigger acts on gets its information: when some sector carries a tag,
/// each sector that carries the tag of a linedef that sets off a trigger, and the left
/// sector of each such linedef without a tag, is among the analysed sectors.
pub proof fn law_acted_on_sectors_listed(
    sectors: Seq<WadSector>,
    heights: Seq<Option<NeighbourHeights>>,
    links: Seq<LinedefLinks>,
    metas: Seq<LinedefMetadata>,
)
    requires
        sectors.len() <= 65536,
        heights.len() == sectors.len(),
        links_fit(sectors, heights, links, metas),
        has_tagged(sectors),
    ensures
        forall|i: int, j: int|
            0 <= i < links.len() && is_trigger(#[trigger] links[i]) && links[i].sector_tag != 0 && 0 <= j < sectors.len()
                && (#[trigger] sectors[j]).tag == links[i].sector_tag
                ==> spec_analysis(sectors, heights, links, metas).0.0.contains(j as SectorId),
        forall|i: int| 0 <= i < links.len() && is_trigger(#[trigger] links[i]) && links[i].sector_tag == 0
            ==> (links[i].left_sector matches Some(s) ==> spec_analysis(sectors, heights, links, metas).0.0.contains(s)),
{
    lemma_analysis_keys(sectors, heights, links, metas, links.len() as int);
    let keys = spec_analysis(sectors, heights, links, metas).0.0;
    assert forall|i: int, j: int|
        0 <= i < links.len() && is_trigger(#[trigger] links[i]) && links[i].sector_tag != 0 && 0 <= j < sectors.len()
            && (#[trigger] sectors[j]).tag == links[i].sector_tag implies keys.contains(j as SectorId) by {
        let l = links[i];
        law_tag_selects_sectors(sectors, l);
        let ids = affected(sectors, l);
        assert(ids.contains(j as SectorId));
        let k = choose|k: int| 0 <= k < ids.len() && ids[k] == j as SectorId;
        assert(keys.contains(affected(sectors, links[i])[k]));
    }
    assert forall|i: int| 0 <= i < links.len() && is_trigger(#[trigger] links[i]) && links[i].sector_tag == 0
        implies (links[i].left_sector matches Some(s) ==> keys.contains(s)) by {
        if let Some(s) = links[i].left_sector {
            assert(affected(sectors, links[i])[0] == s);
        }
    }
}

/// Object ids are unique: no sector is listed twice, each floor or ceiling that moves has
/// an id of its own below the object count, and the count is one more than the number of
/// ids given (or zero when nothing was analysed).
pub proof fn law_object_ids_unique(
    sectors: Seq<WadSector>,
    heights: Seq<Option<NeighbourHeights>>,
    links: Seq<LinedefLinks>,
    metas: Seq<LinedefMetadata>,
)
    requires
        sectors.len() <= 65536,
        heights.len() == sectors.len(),
        links_fit(sectors, heights, links, metas),
    ensures
        ({
            let (st, _ts) = spec_analysis(sectors, heights, links, metas);
            &&& st.0.no_duplicates()
            &&& st.0.len() == st.1.len()
            &&& ids_ok(st.1, st.2)
            &&& has_tagged(sectors) ==> st.2 == 1 + given(st.1)
            &&& !has_tagged(sectors) ==> st.2 == 0 && st.1.len() == 0
        }),
{
    if has_tagged(sectors) {
        lemma_analysis_state(sectors, heights, links, metas, links.len() as int);
    }
}

/// Every move effect a trigger starts names an object: an id from one up to below the
/// object count.
pub proof fn law_move_effects_name_objects(
    sectors: Seq<WadSector>,
    heights: Seq<Option<NeighbourHeights>>,
    links: Seq<LinedefLinks>,
    metas: Seq<LinedefMetadata>,
)
    requires
        sectors.len() <= 65536,
        heights.len() == sectors.len(),
        links_fit(sectors, heights, links, metas),
    ensures
        ({
            let (st, ts) = spec_analysis(sectors, heights, links, metas);
            forall|k: int, x: int| 0 <= k < ts.len() && 0 <= x < ts[k].1.len() ==> 0 < (#[trigger] ts[k].1[x]).object_id.0 < st.2
        }),
{
    if has_tagged(sectors) {
        lemma_analysis_state(sectors, heights, links, metas, links.len() as int);
        let (st, ts) = spec_analysis(sectors, heights, links, metas);
        assert forall|k: int, x: int| 0 <= k < ts.len() && 0 <= x < ts[k].1.len() implies 0 < (#[trigger] ts[k].1[x]).object_id.0 < st.2 by {
            assert(effects_ok(ts[k].1, st.2));
        }
    }
}

/// When some sector carries a tag, the triggers are those of the linedefs that set one
/// off, one each, in linedef order; otherwise there are none.
pub proof fn law_triggers_follow_linedefs(
    sectors: Seq<WadSector>,
    heights: Seq<Option<NeighbourHeights>>,
    links: Seq<LinedefLinks>,
    metas: Seq<LinedefMetadata>,
)
    requires
        sectors.len() <= 65536,
        heights.len() == sectors.len(),
        links_fit(sectors, heights, links, metas),
    ensures
        !has_tagged(sectors) ==> spec_analysis(sectors, heights, links, metas).1.len() == 0,
        forall|k: int| 0 <= k < spec_analysis(sectors, heights, links, metas).1.len() ==> {
            let t = #[trigger] spec_analysis(sectors, heights, links, metas).1[k];
            0 <= t.0 < links.len() && is_trigger(links[t.0])
        },
        forall|k1: int, k2: int| 0 <= k1 < k2 < spec_analysis(sectors, heights, links, metas).1.len()
            ==> (#[trigger] spec_analysis(sectors, heights, links, metas).1[k1]).0
                < (#[trigger] spec_analysis(sectors, heights, links, metas).1[k2]).0,
        has_tagged(sectors) ==> forall|i: int| 0 <= i < links.len() && is_trigger(#[trigger] links[i])
            ==> exists|k: int| 0 <= k < spec_analysis(sectors, heights, links, metas).1.len()
                && spec_analysis(sectors, heights, links, metas).1[k].0 == i,
{
    if has_tagged(sectors) {
        lemma_analysis_triggers(sectors, heights, links, metas, links.len() as int);
        let (st, ts) = analysis_upto(sectors, heights, links, metas, links.len() as int);
        assert(spec_analysis(sectors, heights, links, metas).1 == ts);
        assert forall|i: int| 0 <= i < links.len() && is_trigger(#[trigger] links[i]) implies exists|k: int|
            0 <= k < spec_analysis(sectors, heights, links, metas).1.len()
                && spec_analysis(sectors, heights, links, metas).1[k].0 == i by {
            let k = choose|k: int| 0 <= k < ts.len() && ts[k].0 == i;
            assert(spec_analysis(sectors, heights, links, metas).1[k].0 == i);
        }
    } else {
        assert(spec_analysis(sectors, heights, links, metas).1.len() == 0);
    }
}

/// The sectors of tag `t` as a table by tag holds them: none past its end.
pub open spec fn tag_bucket(b: Seq<Vec<SectorId>>, t: u16) -> Seq<SectorId> {
    if (t as int) < b.len() {
        b[t as int]@
    } else {
        Seq::empty()
    }
}

/// The ids of the sectors of each tag, by increasing id, in a table indexed by tag; none
/// when no sector carries a tag.
fn sectors_by_tag(sectors: &Vec<WadSector>) -> (r: Option<Vec<Vec<SectorId>>>)
    requires
        sectors@.len() <= 65536,
    ensures
        r is None <==> !has_tagged(sectors@),
        r matches Some(b) ==> forall|t: u16| 1 <= t ==> #[trigger] tag_bucket(b@, t) == tagged(sectors@, t, sectors@.len() as int),
{
    let mut max_tag: u16 = 0;
    let mut i: usize = 0;
    while i < sectors.len()
        invariant
            0 <= i <= sectors@.len(),
            forall|j: int| 0 <= j < i ==> sectors@[j].tag <= max_tag,
            max_tag == 0 || exists|j: int| 0 <= j < i && sectors@[j].tag == max_tag,
        decreases sectors@.len() - i,
    {
        if sectors[i].tag > max_tag {
            max_tag = sectors[i].tag;
        }
        i = i + 1;
    }
    if max_tag == 0 {
        return None;
    }
    let mut buckets: Vec<Vec<SectorId>> = Vec::new();
    let mut t: usize = 0;
    while t <= max_tag as usize
        invariant
            buckets@.len() == t,
            t <= max_tag as int + 1,
            forall|u: int| 0 <= u < t ==> (#[trigger] buckets@[u])@.len() == 0,
        decreases max_tag as int + 1 - t,
    {
        buckets.push(Vec::new());
        t = t + 1;
    }
    let mut j: usize = 0;
    while j < sectors.len()
        invariant
            0 <= j <= sectors@.len(),
            sectors@.len() <= 65536,
            buckets@.len() == max_tag as int + 1,
            forall|k: int| 0 <= k < sectors@.len() ==> sectors@[k].tag <= max_tag,
            forall|u: u16| 1 <= u <= max_tag ==> (#[trigger] buckets@[u as int])@ == tagged(sectors@, u, j as int),
        decreases sectors@.len() - j,
    {
        let tag = sectors[j].tag;
        let ghost before = buckets@;
        if tag > 0 {
            let mut b: Vec<SectorId> = Vec::new();
            buckets.set_and_swap(tag as usize, &mut b);
            b.push(j as SectorId);
            buckets.set_and_swap(tag as usize, &mut b);
        }
        assert forall|u: u16| 1 <= u <= max_tag implies (#[trigger] buckets@[u as int])@ == tagged(sectors@, u, j + 1) by {
            if u != tag {
                assert(buckets@[u as int] == before[u as int]);
            }
        }
        j = j + 1;
    }
    proof {
        assert forall|t2: u16| 1 <= t2 implies #[trigger] tag_bucket(buckets@, t2) == tagged(sectors@, t2, sectors@.len() as int) by {
            if t2 > max_tag {
                lemma_tagged(sectors@, t2, sectors@.len() as int);
                assert(tagged(sectors@, t2, sectors@.len() as int) =~= Seq::<SectorId>::empty());
            } else {
                assert(buckets@[t2 as int]@ == tagged(sectors@, t2, sectors@.len() as int));
            }
        }
        let w = choose|w: int| 0 <= w < sectors@.len() && sectors@[w].tag == max_tag;
        assert(sectors@[w].tag > 0);
    }
    Some(buckets)
}

/// The trigger a linedef sets off, with no move effect yet: none for a linedef with no
/// special or without both end points.
pub fn linedef_to_trigger(meta: &WadMetadata, linedef: &LinedefLinks) -> (r: Option<Trigger>)
    requires
        meta.wf(),
    ensures
        r is Some <==> is_trigger(*linedef),
        r matches Some(t) ==> trigger_head(t, *linedef, meta.linedefs()) && t.move_effects@.len() == 0,
{
    let special_type = linedef.special_type;
    if special_type == 0 {
        return None;
    }
    let line = match linedef.line {
        Some(l) => l,
        None => {
            return None;
        },
    };
    match meta.linedef(special_type) {
        Some(m) => Some(
            Trigger {
                trigger_type: m.trigger,
                line,
                special_type,
                only_once: m.only_once,
                unimplemented: false,
                move_effect_def: m.move_effect,
                exit_effect: m.exit_effect,
                move_effects: Vec::new(),
            },
        ),
        None => Some(
            Trigger {
                trigger_type: TriggerType::Any,
                line,
                special_type,
                only_once: false,
                unimplemented: true,
                move_effect_def: None,
                exit_effect: None,
                move_effects: Vec::new(),
            },
        ),
    }
}

/// A trigger's move acts on sector `sid`, as `touch` says.
fn touch_sector(
    idx: &mut IndexMap<u64, usize>,
    keys: &mut Vec<SectorId>,
    infos: &mut Vec<DynamicSectorInfo>,
    next: &mut ObjectId,
    sid: SectorId,
    level: &LevelLinks,
    def: Option<MoveEffectDef>,
    effects: &mut Vec<MoveEffect>,
)
    requires
        level.wf(),
        slots_wf((old(keys)@, old(infos)@, old(next).0), level.sectors@, level.neighbour_heights@),
        index_map_contents(*old(idx)) == key_index(old(keys)@),
        (sid as int) < level.sectors@.len(),
        move_fits(level.sectors@[sid as int], level.neighbour_heights@[sid as int], def),
    ensures
        ({
            let (st2, e) = touch(
                (old(keys)@, old(infos)@, old(next).0),
                sid,
                level.sectors@[sid as int],
                level.neighbour_heights@[sid as int],
                def,
            );
            &&& (final(keys)@, final(infos)@, final(next).0) == st2
            &&& final(effects)@ == old(effects)@ + e
        }),
        index_map_contents(*final(idx)) == key_index(final(keys)@),
        slots_wf((final(keys)@, final(infos)@, final(next).0), level.sectors@, level.neighbour_heights@),
{
    proof {
        lemma_touch((keys@, infos@, next.0), sid, level.sectors@, level.neighbour_heights@, def);
        lemma_touch_finds((keys@, infos@, next.0), sid, level.sectors@, level.neighbour_heights@);
    }
    let sector = &level.sectors[sid as usize];
    let heights = level.neighbour_heights[sid as usize];
    match index_map_get(idx, sid as u64) {
        Some(j) => {
            let mut info = infos[j];
            info.update(next, sector, heights, def, effects);
            infos.set(j, info);
        },
        None => {
            let mut info = DynamicSectorInfo {
                floor_id: ObjectId(0),
                ceiling_id: ObjectId(0),
                neighbour_heights: None,
                floor_range: None,
                ceiling_range: None,
            };
            info.update(next, sector, heights, def, effects);
            index_map_insert(idx, sid as u64, keys.len());
            keys.push(sid);
            infos.push(info);
            proof {
                assert(keys@.drop_last() =~= old(keys)@);
            }
        },
    }
}

/// The moving floors and ceilings of a level and the triggers that move them. Each sector
/// that a trigger acts on has its information, found through an index by sector id, in
/// the order the sectors were first acted on.
pub struct LevelAnalysis {
    index: IndexMap<u64, usize>,
    sector_ids: Vec<SectorId>,
    infos: Vec<DynamicSectorInfo>,
    triggers: Vec<Trigger>,
    num_objects: usize,
}

/// A level analysis as a value: the sectors acted on, in order, with their informations,
/// the number of object ids given out (counting the unused id zero), and the triggers.
pub struct AnalysisView {
    pub sector_ids: Seq<SectorId>,
    pub infos: Seq<DynamicSectorInfo>,
    pub num_objects: nat,
    pub triggers: Seq<Trigger>,
}

impl View for LevelAnalysis {
    type V = AnalysisView;

    closed spec fn view(&self) -> AnalysisView {
        AnalysisView {
            sector_ids: self.sector_ids@,
            infos: self.infos@,
            num_objects: self.num_objects as nat,
            triggers: self.triggers@,
        }
    }
}

/// `v` is the analysis of the level: the sectors, informations and object count of
/// `spec_analysis`, and one trigger for each linedef that sets one off, in linedef order,
/// with the move effects its move started.
pub open spec fn is_analysis_of(
    v: AnalysisView,
    sectors: Seq<WadSector>,
    heights: Seq<Option<NeighbourHeights>>,
    links: Seq<LinedefLinks>,
    metas: Seq<LinedefMetadata>,
) -> bool {
    let (st, ts) = spec_analysis(sectors, heights, links, metas);
    &&& v.sector_ids == st.0
    &&& v.infos == st.1
    &&& v.num_objects == st.2
    &&& v.triggers.len() == ts.len()
    &&& forall|k: int| 0 <= k < ts.len() ==> {
        &&& trigger_head(#[trigger] v.triggers[k], links[ts[k].0], metas)
        &&& v.triggers[k].move_effects@ == ts[k].1
    }
}

/// What an analysis knows of sector `sid`, if a trigger acted on it.
pub open spec fn info_of(v: AnalysisView, sid: SectorId) -> Option<DynamicSectorInfo> {
    let idx = key_index(v.sector_ids);
    if idx.contains_key(sid as u64) {
        Some(v.infos[idx[sid as u64] as int])
    } else {
        None
    }
}

impl LevelAnalysis {
    #[verifier::type_invariant]
    closed spec fn inv(&self) -> bool {
        &&& index_map_contents(self.index) == key_index(self.sector_ids@)
        &&& self.sector_ids@.len() == self.infos@.len()
        &&& self.sector_ids@.no_duplicates()
    }

    /// Whether the analysis of the level completes: when some sector carries a tag, each
    /// linedef that sets off a trigger names existing sectors and its move fits map
    /// coordinates on each of them.
    pub fn can_analyse(level: &LevelLinks, meta: &WadMetadata) -> (r: bool)
        requires
            level.wf(),
            meta.wf(),
        ensures
            r == links_fit(level.sectors@, level.neighbour_heights@, level.linedefs@, meta.linedefs()),
    {
        let buckets = match sectors_by_tag(&level.sectors) {
            Some(b) => b,
            None => {
                return true;
            },
        };
        let ghost sectors = level.sectors@;
        let ghost heights = level.neighbour_heights@;
        let ghost links = level.linedefs@;
        let ghost metas = meta.linedefs();
        let mut i: usize = 0;
        while i < level.linedefs.len()
            invariant
                0 <= i <= links.len(),
                sectors == level.sectors@,
                heights == level.neighbour_heights@,
                links == level.linedefs@,
                metas == meta.linedefs(),
                level.wf(),
                meta.wf(),
                has_tagged(sectors),
                forall|t: u16| 1 <= t ==> #[trigger] tag_bucket(buckets@, t) == tagged(sectors, t, sectors.len() as int),
                forall|i2: int| 0 <= i2 < i && is_trigger(#[trigger] links[i2]) ==> linedef_fits(sectors, heights, links[i2], metas),
            decreases links.len() - i,
        {
            let l = level.linedefs[i];
            if l.special_type != 0 && l.line.is_some() {
                let def = match meta.linedef(l.special_type) {
                    Some(m) => m.move_effect,
                    None => None,
                };
                assert(def == trigger_move(metas, l));
                let ghost ids = affected(sectors, l);
                if l.sector_tag == 0 {
                    if let Some(sid) = l.left_sector {
                        assert(ids[0] == sid);
                        if sid as usize >= level.sectors.len() {
                            proof {
                                assert(!linedef_fits(sectors, heights, links[i as int], metas));
                            }
                            return false;
                        }
                        if !check_move_fits(&level.sectors[sid as usize], level.neighbour_heights[sid as usize], def) {
                            proof {
                                assert(!linedef_fits(sectors, heights, links[i as int], metas));
                            }
                            return false;
                        }
                    }
                } else {
                    let t = l.sector_tag as usize;
                    if t < buckets.len() {
                        let bucket = &buckets[t];
                        assert(bucket@ == tag_bucket(buckets@, l.sector_tag));
                        proof {
                            lemma_tagged(sectors, l.sector_tag, sectors.len() as int);
                        }
                        let mut k: usize = 0;
                        while k < bucket.len()
                            invariant
                                0 <= k <= bucket@.len(),
                                bucket@ == ids,
                                sectors == level.sectors@,
                                heights == level.neighbour_heights@,
                                links == level.linedefs@,
                                metas == meta.linedefs(),
                                0 <= i < links.len(),
                                has_tagged(sectors),
                                is_trigger(links[i as int]),
                                ids == affected(sectors, links[i as int]),
                                def == trigger_move(metas, links[i as int]),
                                level.wf(),
                                forall|k2: int| 0 <= k2 < ids.len() ==> (#[trigger] ids[k2] as int) < sectors.len(),
                                forall|k2: int| 0 <= k2 < k ==> move_fits(sectors[#[trigger] ids[k2] as int], heights[ids[k2] as int], def),
                            decreases bucket@.len() - k,
                        {
                            let sid = bucket[k];
                            if !check_move_fits(&level.sectors[sid as usize], level.neighbour_heights[sid as usize], def) {
                                proof {
                                    assert(ids[k as int] == sid);
                                    assert(!linedef_fits(sectors, heights, links[i as int], metas));
                                }
                                return false;
                            }
                            k = k + 1;
                        }
                    } else {
                        assert(tag_bucket(buckets@, l.sector_tag) == tagged(sectors, l.sector_tag, sectors.len() as int));
                        assert(ids.len() == 0);
                    }
                }
                assert(linedef_fits(sectors, heights, links[i as int], metas));
            }
            i = i + 1;
        }
        true
    }

    /// The analysis of a level: for each linedef that sets off a trigger, in order, the
    /// trigger's move acts on the sectors it names, which get object ids for their floors
    /// and ceilings the first time these move (counting from one) and the height ranges
    /// these sweep. Nothing is analysed when no sector carries a tag.
    pub fn new(level: &LevelLinks, meta: &WadMetadata) -> (r: LevelAnalysis)
        requires
            level.wf(),
            meta.wf(),
            links_fit(level.sectors@, level.neighbour_heights@, level.linedefs@, meta.linedefs()),
        ensures
            is_analysis_of(r@, level.sectors@, level.neighbour_heights@, level.linedefs@, meta.linedefs()),
    {
        Self::compute_dynamic_sectors(level, meta)
    }

    fn compute_dynamic_sectors(level: &LevelLinks, meta: &WadMetadata) -> (r: LevelAnalysis)
        requires
            level.wf(),
            meta.wf(),
            links_fit(level.sectors@, level.neighbour_heights@, level.linedefs@, meta.linedefs()),
        ensures
            is_analysis_of(r@, level.sectors@, level.neighbour_heights@, level.linedefs@, meta.linedefs()),
    {
        let buckets = match sectors_by_tag(&level.sectors) {
            Some(b) => b,
            None => {
                let index = index_map_new();
                let sector_ids: Vec<SectorId> = Vec::new();
                proof {
                    assert(index_map_contents(index) =~= key_index(sector_ids@));
                }
                return LevelAnalysis { index, sector_ids, infos: Vec::new(), triggers: Vec::new(), num_objects: 0 };
            },
        };
        let ghost sectors = level.sectors@;
        let ghost heights = level.neighbour_heights@;
        let ghost links = level.linedefs@;
        let ghost metas = meta.linedefs();
        let mut idx = index_map_new();
        let mut keys: Vec<SectorId> = Vec::new();
        let mut infos: Vec<DynamicSectorInfo> = Vec::new();
        let mut next = ObjectId(1);
        let mut triggers: Vec<Trigger> = Vec::new();
        proof {
            assert(index_map_contents(idx) =~= key_index(keys@));
        }
        let mut i: usize = 0;
        while i < level.linedefs.len()
            invariant
                0 <= i <= links.len(),
                sectors == level.sectors@,
                heights == level.neighbour_heights@,
                links == level.linedefs@,
                metas == meta.linedefs(),
                level.wf(),
                meta.wf(),
                has_tagged(sectors),
                links_fit(sectors, heights, links, metas),
                forall|t: u16| 1 <= t ==> #[trigger] tag_bucket(buckets@, t) == tagged(sectors, t, sectors.len() as int),
                index_map_contents(idx) == key_index(keys@),
                slots_wf((keys@, infos@, next.0), sectors, heights),
                ({
                    let (st, ts) = analysis_upto(sectors, heights, links, metas, i as int);
                    &&& (keys@, infos@, next.0) == st
                    &&& triggers@.len() == ts.len()
                    &&& forall|k: int| 0 <= k < ts.len() ==> {
                        &&& trigger_head(#[trigger] triggers@[k], links[ts[k].0], metas)
                        &&& triggers@[k].move_effects@ == ts[k].1
                    }
                }),
            decreases links.len() - i,
        {
            let linedef = level.linedefs[i];
            let ghost st0 = (keys@, infos@, next.0);
            let ghost ts0 = analysis_upto(sectors, heights, links, metas, i as int).1;
            match linedef_to_trigger(meta, &linedef) {
                None => {},
                Some(trigger) => {
                    let mut trigger = trigger;
                    let def = trigger.move_effect_def;
                    assert(def == trigger_move(metas, linedef));
                    assert(linedef_fits(sectors, heights, linedef, metas));
                    let ghost ids = affected(sectors, linedef);
                    let mut effects: Vec<MoveEffect> = Vec::new();
                    if linedef.sector_tag == 0 {
                        if let Some(sid) = linedef.left_sector {
                            assert(ids[0] == sid);
                            touch_sector(&mut idx, &mut keys, &mut infos, &mut next, sid, level, def, &mut effects);
                            proof {
                                let tt = touch(st0, sid, sectors[sid as int], heights[sid as int], def);
                                assert(ids.drop_last() =~= Seq::<SectorId>::empty());
                                assert(touch_all(st0, ids.drop_last(), sectors, heights, def) == (st0, Seq::<MoveEffect>::empty()));
                                assert(ids.last() == sid);
                                assert(effects@ =~= Seq::<MoveEffect>::empty() + tt.1);
                                assert(touch_all(st0, ids, sectors, heights, def) == (tt.0, Seq::<MoveEffect>::empty() + tt.1));
                            }
                        } else {
                            assert(ids =~= Seq::<SectorId>::empty());
                            assert(effects@ =~= Seq::<MoveEffect>::empty());
                        }
                    } else {
                        let t = linedef.sector_tag as usize;
                        if t < buckets.len() {
                            let bucket = &buckets[t];
                            assert(bucket@ == tag_bucket(buckets@, linedef.sector_tag));
                            assert(bucket@ == ids);
                            let mut k: usize = 0;
                            assert(ids.take(0) =~= Seq::<SectorId>::empty());
                            while k < bucket.len()
                                invariant
                                    0 <= k <= bucket@.len(),
                                    bucket@ == ids,
                                    sectors == level.sectors@,
                                    heights == level.neighbour_heights@,
                                    level.wf(),
                                    linedef_fits(sectors, heights, linedef, metas),
                                    ids == affected(sectors, linedef),
                                    def == trigger_move(metas, linedef),
                                    index_map_contents(idx) == key_index(keys@),
                                    slots_wf((keys@, infos@, next.0), sectors, heights),
                                    ({
                                        let (s, e) = touch_all(st0, ids.take(k as int), sectors, heights, def);
                                        &&& (keys@, infos@, next.0) == s
                                        &&& effects@ == e
                                    }),
                                decreases bucket@.len() - k,
                            {
                                let sid = bucket[k];
                                assert(ids[k as int] == sid);
                                proof {
                                    assert(ids.take(k + 1).drop_last() =~= ids.take(k as int));
                                    assert(ids.take(k + 1).last() == sid);
                                }
                                touch_sector(&mut idx, &mut keys, &mut infos, &mut next, sid, level, def, &mut effects);
                                k = k + 1;
                            }
                            assert(ids.take(k as int) =~= ids);
                        } else {
                            assert(tag_bucket(buckets@, linedef.sector_tag) == tagged(sectors, linedef.sector_tag, sectors.len() as int));
                            assert(ids =~= Seq::<SectorId>::empty());
                            assert(effects@ =~= Seq::<MoveEffect>::empty());
                        }
                    }
                    trigger.move_effects = effects;
                    triggers.push(trigger);
                    proof {
                        assert(links[i as int] == linedef);
                        let (st2, es) = touch_all(st0, ids, sectors, heights, def);
                        assert((keys@, infos@, next.0) == st2);
                        assert(effects@ == es);
                        assert(analysis_upto(sectors, heights, links, metas, i + 1) == (st2, ts0.push((i as int, es))));
                        let ts = ts0.push((i as int, effects@));
                        assert forall|k: int| 0 <= k < ts.len() implies {
                            &&& trigger_head(#[trigger] triggers@[k], links[ts[k].0], metas)
                            &&& triggers@[k].move_effects@ == ts[k].1
                        } by {
                            if k < ts0.len() {
                                assert(ts[k] == ts0[k]);
                            }
                        }
                    }
                },
            }
            i = i + 1;
        }
        proof {
            assert(links.len() == i);
        }
        LevelAnalysis {
            index: idx,
            sector_ids: keys,
            infos,
            triggers,
            num_objects: next.0 as usize,
        }
    }

    /// The number of object ids given out, counting the unused id zero; zero when nothing
    /// was analysed.
    pub fn num_objects(&self) -> (r: usize)
        ensures
            r == self@.num_objects,
    {
        self.num_objects
    }

    /// Hands out the triggers, in order, leaving none.
    pub fn take_triggers(&mut self) -> (r: Vec<Trigger>)
        ensures
            r@ == old(self)@.triggers,
            final(self)@.triggers.len() == 0,
            final(self)@.sector_ids == old(self)@.sector_ids,
            final(self)@.infos == old(self)@.infos,
            final(self)@.num_objects == old(self)@.num_objects,
    {
        proof {
            use_type_invariant(&*self);
        }
        let mut out: Vec<Trigger> = Vec::new();
        std::mem::swap(&mut self.triggers, &mut out);
        out
    }

    /// What the analysis knows of sector `sector_id`, if a trigger acted on it.
    pub fn dynamic_info(&self, sector_id: SectorId) -> (r: Option<DynamicSectorInfo>)
        ensures
            r == info_of(self@, sector_id),
    {
        let _n = self.sector_ids.len();
        proof {
            use_type_invariant(self);
            lemma_key_index(self.sector_ids@);
        }
        match index_map_get(&self.index, sector_id as u64) {
            Some(j) => {
                proof {
                    assert(self.sector_ids@.contains(sector_id));
                    let jj = choose|jj: int| 0 <= jj < self.sector_ids@.len() && self.sector_ids@[jj] == sector_id;
                    assert(key_index(self.sector_ids@)[self.sector_ids@[jj] as u64] == jj);
                }
                Some(self.infos[j])
            },
            None => None,
        }
    }
}

} // verus!
