//! Metadata that describes a WAD beyond what the WAD itself holds: skies, animations,
//! things and linedef specials.
use vstd::prelude::*;
use vstd::pervasive::VecAdditionalExecFns;
use indexmap::IndexMap;
use crate::index_map::{index_map_contents, index_map_get, index_map_insert, index_map_new};
use crate::name::WadName;
use crate::types::{SpecialType, ThingType, WadCoord};

verus! {

/// The sky of the levels whose names match a pattern.
pub struct SkyMetadata {
    /// The texture drawn as the sky.
    pub texture_name: WadName,
    /// A regular expression searched for in a level's eight name bytes.
    pub level_pattern: String,
    /// The height of the sky band, as the bits of a 32-bit float.
    pub tiled_band_size_bits: u32,
}

/// Groups of flats and of wall textures that animate by cycling.
pub struct AnimationMetadata {
    pub flats: Vec<Vec<WadName>>,
    pub walls: Vec<Vec<WadName>>,
}

/// How a thing type is drawn.
pub struct ThingMetadata {
    pub thing_type: ThingType,
    pub sprite: WadName,
    pub sequence: String,
    pub hanging: bool,
    pub radius: u32,
}

/// The thing types, by category.
pub struct ThingDirectoryMetadata {
    pub decorations: Vec<ThingMetadata>,
    pub weapons: Vec<ThingMetadata>,
    pub powerups: Vec<ThingMetadata>,
    pub artifacts: Vec<ThingMetadata>,
    pub ammo: Vec<ThingMetadata>,
    pub keys: Vec<ThingMetadata>,
    pub monsters: Vec<ThingMetadata>,
}

/// What activates a linedef special.
#[derive(Clone, Copy, Debug, PartialEq, Eq, Structural)]
pub enum TriggerType {
    Any,
    Push,
    Switch,
    WalkOver,
    Gun,
}

/// The height a moving floor or ceiling is measured from.
#[derive(Clone, Copy, Debug, PartialEq, Eq, Structural)]
pub enum HeightRef {
    LowestFloor,
    NextFloor,
    HighestFloor,
    LowestCeiling,
    HighestCeiling,
    Floor,
    Ceiling,
}

/// A target height: a reference height plus an offset.
#[derive(Clone, Copy, Debug, PartialEq, Eq, Structural)]
pub struct HeightDef {
    pub to: HeightRef,
    pub offset: WadCoord,
}

/// The first target height of a move and, for moves that come back, the second.
#[derive(Clone, Copy, Debug, PartialEq, Eq, Structural)]
pub struct HeightEffectDef {
    pub first: HeightDef,
    pub second: Option<HeightDef>,
}

/// A floor or ceiling move. Wait and speed are the bits of 32-bit floats.
#[derive(Clone, Copy, Debug, PartialEq, Eq, Structural)]
pub struct MoveEffectDef {
    pub floor: Option<HeightEffectDef>,
    pub ceiling: Option<HeightEffectDef>,
    pub repeat: bool,
    pub wait_bits: u32,
    pub speed_bits: u32,
}

/// How a level is left.
#[derive(Clone, Copy, Debug, PartialEq, Eq, Structural)]
pub enum ExitEffectDef {
    Normal,
    Secret,
}

/// What a linedef special does.
#[derive(Clone, Copy, Debug, PartialEq, Eq, Structural)]
pub struct LinedefMetadata {
    pub special_type: SpecialType,
    pub trigger: TriggerType,
    pub monsters: bool,
    pub only_once: bool,
    pub move_effect: Option<MoveEffectDef>,
    pub exit_effect: Option<ExitEffectDef>,
}

/// All metadata of a WAD. Linedef specials are kept one per special type, in the order
/// their types first appear, each holding the last entry given for its type, and are
/// found by their special type through an index.
pub struct WadMetadata {
    pub sky: Vec<SkyMetadata>,
    pub animations: AnimationMetadata,
    pub things: ThingDirectoryMetadata,
    pub linedefs: Vec<LinedefMetadata>,
    pub linedef_index: IndexMap<u64, usize>,
}

/// Whether the regular expression `pattern` matches somewhere in `haystack`; `None` when
/// the pattern is not a valid regular expression.
pub uninterp spec fn regex_match(pattern: Seq<char>, haystack: Seq<u8>) -> Option<bool>;

/// `regex::bytes::Regex::new` followed by `is_match`: the result is a function of the
/// pattern and the haystack alone. Which patterns are valid and what they match is the
/// regex crate's syntax and is not stated here.
#[verifier::external_body]
fn regex_is_match(pattern: &str, haystack: &[u8]) -> (r: Option<bool>)
    ensures
        r == regex_match(pattern@, haystack@),
{
    match regex::bytes::Regex::new(pattern) {
        Ok(re) => Some(re.is_match(haystack)),
        Err(_) => None,
    }
}

/// The first index whose entry is `Some(true)`.
pub open spec fn first_match(matches: Seq<Option<bool>>, i: int) -> bool {
    &&& 0 <= i < matches.len()
    &&& matches[i] == Some(true)
    &&& forall|j: int| 0 <= j < i ==> matches[j] != Some(true)
}

/// Chooses a sky from the match results of the skies' patterns, in order: the first that
/// matched, else the first sky, else none.
pub fn sky_index_from_matches(matches: &[Option<bool>]) -> (r: Option<usize>)
    ensures
        r is None <==> matches@.len() == 0,
        r matches Some(i) ==> (first_match(matches@, i as int) || (i == 0 && forall|j: int|
            0 <= j < matches@.len() ==> matches@[j] != Some(true))),
{
    let mut i: usize = 0;
    while i < matches.len()
        invariant
            0 <= i <= matches@.len(),
            forall|j: int| 0 <= j < i ==> matches@[j] != Some(true),
        decreases matches@.len() - i,
    {
        if let Some(true) = matches[i] {
            return Some(i);
        }
        i = i + 1;
    }
    if matches.len() > 0 {
        Some(0)
    } else {
        None
    }
}

/// Whether one thing's type is `t`.
pub open spec fn has_type(m: ThingMetadata, t: ThingType) -> bool {
    m.thing_type == t
}

/// All things, category after category: decorations, weapons, powerups, artifacts, ammo,
/// keys, monsters.
pub open spec fn all_things(d: ThingDirectoryMetadata) -> Seq<ThingMetadata> {
    d.decorations@ + d.weapons@ + d.powerups@ + d.artifacts@ + d.ammo@ + d.keys@ + d.monsters@
}

/// `k` is the first position in `s` whose thing has type `t`.
pub open spec fn first_of_type(s: Seq<ThingMetadata>, t: ThingType, k: int) -> bool {
    &&& 0 <= k < s.len()
    &&& s[k].thing_type == t
    &&& forall|j: int| 0 <= j < k ==> s[j].thing_type != t
}

/// The first thing of `list` with type `t`.
fn find_in(list: &Vec<ThingMetadata>, t: ThingType) -> (r: Option<&ThingMetadata>)
    ensures
        r is None <==> forall|j: int| 0 <= j < list@.len() ==> list@[j].thing_type != t,
        r matches Some(m) ==> exists|k: int| first_of_type(list@, t, k) && list@[k] == *m,
{
    let mut i: usize = 0;
    while i < list.len()
        invariant
            0 <= i <= list@.len(),
            forall|j: int| 0 <= j < i ==> list@[j].thing_type != t,
        decreases list@.len() - i,
    {
        if list[i].thing_type == t {
            assert(first_of_type(list@, t, i as int));
            return Some(&list[i]);
        }
        i = i + 1;
    }
    None
}

proof fn lemma_first_in_concat(a: Seq<ThingMetadata>, b: Seq<ThingMetadata>, t: ThingType)
    ensures
        (forall|j: int| 0 <= j < a.len() ==> a[j].thing_type != t) ==> (forall|k: int|
            first_of_type(b, t, k) ==> first_of_type(a + b, t, a.len() + k)),
        forall|k: int| first_of_type(a, t, k) ==> first_of_type(a + b, t, k),
        (forall|j: int| 0 <= j < a.len() ==> a[j].thing_type != t) && (forall|j: int|
            0 <= j < b.len() ==> b[j].thing_type != t) ==> forall|j: int|
            0 <= j < (a + b).len() ==> (a + b)[j].thing_type != t,
{
    if forall|j: int| 0 <= j < a.len() ==> a[j].thing_type != t {
        assert forall|k: int| first_of_type(b, t, k) implies first_of_type(a + b, t, a.len() + k) by {
            assert forall|j: int| 0 <= j < a.len() + k implies (a + b)[j].thing_type != t by {
                if j < a.len() {
                    assert((a + b)[j] == a[j]);
                } else {
                    assert((a + b)[j] == b[j - a.len()]);
                }
            }
        }
        if forall|j: int| 0 <= j < b.len() ==> b[j].thing_type != t {
            assert forall|j: int| 0 <= j < (a + b).len() implies (a + b)[j].thing_type != t by {
                if j < a.len() {
                    assert((a + b)[j] == a[j]);
                } else {
                    assert((a + b)[j] == b[j - a.len()]);
                }
            }
        }
    }
    assert forall|k: int| first_of_type(a, t, k) implies first_of_type(a + b, t, k) by {
        assert forall|j: int| 0 <= j < k implies (a + b)[j].thing_type != t by {
            assert((a + b)[j] == a[j]);
        }
        assert((a + b)[k] == a[k]);
    }
}

impl WadMetadata {
    /// Metadata from its parts. Linedef specials are indexed by special type; when two
    /// entries share one, the later is the one found.
    pub fn new(
        sky: Vec<SkyMetadata>,
        animations: AnimationMetadata,
        things: ThingDirectoryMetadata,
        linedefs: Vec<LinedefMetadata>,
    ) -> (r: WadMetadata)
        ensures
            r.sky@ == sky@,
            r.animations == animations,
            r.things == things,
            r.linedefs() == dedup_specials(linedefs@),
            r.wf(),
    {
        let mut index = index_map_new();
        let mut specials: Vec<LinedefMetadata> = Vec::new();
        assert(index_map_contents(index) =~= dedup_upto(linedefs@, 0).1);
        let mut i: usize = 0;
        while i < linedefs.len()
            invariant
                0 <= i <= linedefs@.len(),
                specials@ == dedup_upto(linedefs@, i as int).0,
                index_map_contents(index) == dedup_upto(linedefs@, i as int).1,
            decreases linedefs@.len() - i,
        {
            let entry = linedefs[i];
            let key = entry.special_type as u64;
            proof {
                lemma_dedup_index(linedefs@, i as int);
            }
            match index_map_get(&index, key) {
                Some(j) => {
                    specials.set(j, entry);
                },
                None => {
                    index_map_insert(&mut index, key, specials.len());
                    specials.push(entry);
                },
            }
            i = i + 1;
        }
        proof {
            lemma_dedup_index(linedefs@, linedefs@.len() as int);
        }
        WadMetadata { sky, animations, things, linedefs: specials, linedef_index: index }
    }

    /// The linedef specials, one per special type.
    pub open spec fn linedefs(&self) -> Seq<LinedefMetadata> {
        self.linedefs@
    }

    /// The index finds each special type where it stands, and each special type stands in
    /// one place.
    pub open spec fn wf(&self) -> bool {
        index_matches(self.linedefs@, index_map_contents(self.linedef_index))
    }

    /// What the linedef special `special_type` does: its last entry, if any.
    pub fn linedef(&self, special_type: SpecialType) -> (r: Option<&LinedefMetadata>)
        requires
            self.wf(),
        ensures
            r is None <==> forall|j: int| 0 <= j < self.linedefs().len() ==> self.linedefs()[j].special_type != special_type,
            r matches Some(m) ==> exists|k: int| last_of_special(self.linedefs(), special_type, k) && self.linedefs()[k] == *m,
            match r {
                Some(m) => last_special(self.linedefs(), special_type) == Some(*m),
                None => last_special(self.linedefs(), special_type) is None,
            },
    {
        proof {
            lemma_last_special(self.linedefs@, special_type);
        }
        let ghost m = index_map_contents(self.linedef_index);
        match index_map_get(&self.linedef_index, special_type as u64) {
            Some(i) => {
                proof {
                    assert(self.linedefs@[i as int].special_type as u64 == special_type as u64);
                    assert forall|j: int| i < j < self.linedefs@.len() implies self.linedefs@[j].special_type != special_type by {
                        if self.linedefs@[j].special_type == special_type {
                            assert(m[self.linedefs@[j].special_type as u64] == j);
                        }
                    }
                    assert(last_of_special(self.linedefs@, special_type, i as int));
                }
                Some(&self.linedefs[i])
            },
            None => {
                proof {
                    assert forall|j: int| 0 <= j < self.linedefs@.len() implies self.linedefs@[j].special_type != special_type by {
                        if self.linedefs@[j].special_type == special_type {
                            assert(m.contains_key(self.linedefs@[j].special_type as u64));
                        }
                    }
                }
                None
            },
        }
    }

    /// The sky of the level `name`: the first sky whose pattern matches the level's eight
    /// name bytes, else the first sky; none when there are no skies.
    pub fn sky_for(&self, name: WadName) -> (r: Option<&SkyMetadata>)
        ensures
            r is None <==> self.sky@.len() == 0,
            r matches Some(s) ==> exists|i: int|
                #![trigger self.sky@[i]]
                0 <= i < self.sky@.len() && *s == self.sky@[i] && (first_match(
                    sky_matches(self.sky@, name@),
                    i,
                ) || (i == 0 && forall|j: int|
                    0 <= j < self.sky@.len() ==> sky_matches(self.sky@, name@)[j] != Some(true))),
    {
        let bytes = name.bytes();
        let mut matches: Vec<Option<bool>> = Vec::new();
        let mut i: usize = 0;
        while i < self.sky.len()
            invariant
                0 <= i <= self.sky@.len(),
                bytes@ == name@,
                matches@ == sky_matches(self.sky@, name@).take(i as int),
            decreases self.sky@.len() - i,
        {
            let m = regex_is_match(self.sky[i].level_pattern.as_str(), bytes.as_slice());
            matches.push(m);
            i = i + 1;
            assert(matches@ =~= sky_matches(self.sky@, name@).take(i as int));
        }
        assert(matches@ =~= sky_matches(self.sky@, name@));
        match sky_index_from_matches(matches.as_slice()) {
            Some(k) => Some(&self.sky[k]),
            None => None,
        }
    }

    /// The metadata of thing type `thing_type`: the first with that type among decorations,
    /// weapons, powerups, artifacts, ammo, keys and monsters, in that order.
    pub fn find_thing(&self, thing_type: ThingType) -> (r: Option<&ThingMetadata>)
        ensures
            r is None <==> forall|j: int| 0 <= j < all_things(self.things).len() ==> all_things(self.things)[j].thing_type != thing_type,
            r matches Some(m) ==> exists|k: int| first_of_type(all_things(self.things), thing_type, k) && all_things(self.things)[k] == *m,
    {
        let t = &self.things;
        let ghost s1 = t.decorations@;
        let ghost s2 = s1 + t.weapons@;
        let ghost s3 = s2 + t.powerups@;
        let ghost s4 = s3 + t.artifacts@;
        let ghost s5 = s4 + t.ammo@;
        let ghost s6 = s5 + t.keys@;
        let ghost s7 = s6 + t.monsters@;
        proof {
            lemma_first_in_concat(s1, t.weapons@, thing_type);
            lemma_first_in_concat(s2, t.powerups@, thing_type);
            lemma_first_in_concat(s3, t.artifacts@, thing_type);
            lemma_first_in_concat(s4, t.ammo@, thing_type);
            lemma_first_in_concat(s5, t.keys@, thing_type);
            lemma_first_in_concat(s6, t.monsters@, thing_type);
            assert(s7 == all_things(self.things));
        }
        if let Some(m) = find_in(&t.decorations, thing_type) {
            return Some(m);
        }
        if let Some(m) = find_in(&t.weapons, thing_type) {
            return Some(m);
        }
        if let Some(m) = find_in(&t.powerups, thing_type) {
            return Some(m);
        }
        if let Some(m) = find_in(&t.artifacts, thing_type) {
            return Some(m);
        }
        if let Some(m) = find_in(&t.ammo, thing_type) {
            return Some(m);
        }
        if let Some(m) = find_in(&t.keys, thing_type) {
            return Some(m);
        }
        find_in(&t.monsters, thing_type)
    }
}

/// For each sky in order, whether its pattern matches the name bytes.
pub open spec fn sky_matches(sky: Seq<SkyMetadata>, name: Seq<u8>) -> Seq<Option<bool>> {
    Seq::new(sky.len(), |i: int| regex_match(sky[i].level_pattern@, name))
}

/// `k` is the last position in `s` with special type `t`.
pub open spec fn last_of_special(s: Seq<LinedefMetadata>, t: SpecialType, k: int) -> bool {
    &&& 0 <= k < s.len()
    &&& s[k].special_type == t
    &&& forall|j: int| k < j < s.len() ==> s[j].special_type != t
}

/// The last entry of `s` for special type `t`, if any.
pub open spec fn last_special(s: Seq<LinedefMetadata>, t: SpecialType) -> Option<LinedefMetadata>
    decreases s.len(),
{
    if s.len() == 0 {
        None
    } else if s.last().special_type == t {
        Some(s.last())
    } else {
        last_special(s.drop_last(), t)
    }
}

proof fn lemma_last_special(s: Seq<LinedefMetadata>, t: SpecialType)
    ensures
        forall|k: int| last_of_special(s, t, k) ==> last_special(s, t) == Some(s[k]),
        (forall|j: int| 0 <= j < s.len() ==> s[j].special_type != t) ==> last_special(s, t) is None,
    decreases s.len(),
{
    if s.len() > 0 {
        let p = s.drop_last();
        lemma_last_special(p, t);
        assert forall|k: int| last_of_special(s, t, k) implies last_special(s, t) == Some(s[k]) by {
            if k < s.len() - 1 {
                assert(last_of_special(p, t, k));
            }
        }
        if forall|j: int| 0 <= j < s.len() ==> s[j].special_type != t {
            assert(s.last().special_type != t);
            assert forall|j: int| 0 <= j < p.len() implies p[j].special_type != t by {
                assert(p[j] == s[j]);
            }
        }
    }
}

/// `m` finds each special type of `s` where it stands, and finds only those.
pub open spec fn index_matches(s: Seq<LinedefMetadata>, m: Map<u64, usize>) -> bool {
    &&& forall|j: int| 0 <= j < s.len() ==> m.contains_key(#[trigger] s[j].special_type as u64)
        && m[s[j].special_type as u64] == j
    &&& forall|k: u64| #[trigger] m.contains_key(k) ==> (m[k] as int) < s.len() && s[m[k] as int].special_type as u64 == k
}

/// One entry added to the deduplicated entries `p`, indexed by `m`: it takes the place of
/// its type's entry, or comes last when its type is new.
pub open spec fn dedup_step(p: Seq<LinedefMetadata>, m: Map<u64, usize>, e: LinedefMetadata) -> (Seq<LinedefMetadata>, Map<u64, usize>) {
    let k = e.special_type as u64;
    if m.contains_key(k) {
        (p.update(m[k] as int, e), m)
    } else {
        (p.push(e), m.insert(k, p.len() as usize))
    }
}

/// The first `n` linedef entries with one entry per special type, in the order the types
/// first appear, each holding the last of its type's entries; and where each type stands.
pub open spec fn dedup_upto(s: Seq<LinedefMetadata>, n: int) -> (Seq<LinedefMetadata>, Map<u64, usize>)
    decreases n,
{
    if n <= 0 {
        (Seq::empty(), Map::empty())
    } else {
        let (p, m) = dedup_upto(s, n - 1);
        dedup_step(p, m, s[n - 1])
    }
}

/// The linedef entries with one entry per special type, in the order the types first
/// appear, each holding the last of its type's entries.
pub open spec fn dedup_specials(s: Seq<LinedefMetadata>) -> Seq<LinedefMetadata> {
    dedup_upto(s, s.len() as int).0
}

proof fn lemma_dedup_step(p: Seq<LinedefMetadata>, m: Map<u64, usize>, e: LinedefMetadata)
    requires
        index_matches(p, m),
        p.len() < usize::MAX,
    ensures
        ({
            let (p2, m2) = dedup_step(p, m, e);
            &&& index_matches(p2, m2)
            &&& p2.len() <= p.len() + 1
            &&& forall|kk: u64| m.contains_key(kk) ==> #[trigger] m2.contains_key(kk)
            &&& m2.contains_key(e.special_type as u64)
            &&& p2[m2[e.special_type as u64] as int] == e
            &&& forall|j: int| 0 <= j < p.len() ==> (#[trigger] p2[j]).special_type == p[j].special_type
            &&& forall|j: int| 0 <= j < p.len() && p[j].special_type != e.special_type ==> #[trigger] p2[j] == p[j]
            &&& p2.len() > p.len() ==> p2.len() == p.len() + 1 && p2[p.len() as int] == e
        }),
{
    let k = e.special_type as u64;
    let (p2, m2) = dedup_step(p, m, e);
    if m.contains_key(k) {
        let jk = m[k] as int;
        assert forall|j: int| 0 <= j < p2.len() implies m2.contains_key(#[trigger] p2[j].special_type as u64)
            && m2[p2[j].special_type as u64] == j by {
            if j != jk {
                assert(p2[j] == p[j]);
            }
        }
        assert forall|j: int| 0 <= j < p.len() && p[j].special_type != e.special_type implies #[trigger] p2[j] == p[j] by {
            assert(j != jk);
        }
    } else {
        let len = p.len();
        assert forall|j: int| 0 <= j < p2.len() implies m2.contains_key(#[trigger] p2[j].special_type as u64)
            && m2[p2[j].special_type as u64] == j by {
            if j < len {
                assert(p2[j] == p[j]);
                assert(m.contains_key(p[j].special_type as u64));
            }
        }
        assert forall|kk: u64| #[trigger] m2.contains_key(kk) implies (m2[kk] as int) < p2.len()
            && p2[m2[kk] as int].special_type as u64 == kk by {
            if kk != k {
                assert(p2[m[kk] as int] == p[m[kk] as int]);
            }
        }
    }
}

/// The deduplicated entries are indexed, no longer than the entries, hold every type of
/// the entries and only those.
proof fn lemma_dedup_index(s: Seq<LinedefMetadata>, n: int)
    requires
        0 <= n <= s.len(),
        s.len() <= usize::MAX,
    ensures
        ({
            let (p, m) = dedup_upto(s, n);
            &&& p.len() <= n
            &&& index_matches(p, m)
            &&& forall|i: int| 0 <= i < n ==> m.contains_key((#[trigger] s[i]).special_type as u64)
            &&& forall|j: int| 0 <= j < p.len() ==> exists|i: int| 0 <= i < n && s[i].special_type == (#[trigger] p[j]).special_type
        }),
    decreases n,
{
    if n > 0 {
        lemma_dedup_index(s, n - 1);
        let (p, m) = dedup_upto(s, n - 1);
        let (p2, m2) = dedup_upto(s, n);
        let e = s[n - 1];
        lemma_dedup_step(p, m, e);
        assert forall|i: int| 0 <= i < n implies m2.contains_key((#[trigger] s[i]).special_type as u64) by {
            if i < n - 1 {
                assert(m.contains_key(s[i].special_type as u64));
            }
        }
        assert forall|j: int| 0 <= j < p2.len() implies exists|i: int| 0 <= i < n && s[i].special_type == (#[trigger] p2[j]).special_type by {
            if j < p.len() {
                assert(p2[j].special_type == p[j].special_type);
                let i = choose|i: int| 0 <= i < n - 1 && s[i].special_type == p[j].special_type;
                assert(s[i].special_type == p2[j].special_type);
            } else {
                assert(p2[j] == e);
                assert(s[n - 1].special_type == p2[j].special_type);
            }
        }
    }
}

/// Each deduplicated entry is the last entry of its type.
proof fn lemma_dedup_last(s: Seq<LinedefMetadata>, n: int)
    requires
        0 <= n <= s.len(),
        s.len() <= usize::MAX,
    ensures
        forall|j: int| 0 <= j < dedup_upto(s, n).0.len()
            ==> last_special(s.take(n), (#[trigger] dedup_upto(s, n).0[j]).special_type) == Some(dedup_upto(s, n).0[j]),
    decreases n,
{
    if n > 0 {
        lemma_dedup_last(s, n - 1);
        lemma_dedup_index(s, n - 1);
        let (p, m) = dedup_upto(s, n - 1);
        let (p2, m2) = dedup_upto(s, n);
        let e = s[n - 1];
        lemma_dedup_step(p, m, e);
        let tn = s.take(n);
        assert(tn.drop_last() =~= s.take(n - 1));
        assert(tn.last() == e);
        assert forall|j: int| 0 <= j < p2.len() implies last_special(tn, (#[trigger] p2[j]).special_type) == Some(p2[j]) by {
            if j < p.len() && p[j].special_type != e.special_type {
                assert(p2[j] == p[j]);
                assert(last_special(s.take(n - 1), p[j].special_type) == Some(p[j]));
            } else if j < p.len() {
                assert(m2[e.special_type as u64] == j);
            }
        }
    }
}

/// Where the first entry of type `t` stands in `s`; the length of `s` when there is none.
pub open spec fn first_at(s: Seq<LinedefMetadata>, t: SpecialType) -> int
    decreases s.len(),
{
    if s.len() == 0 {
        0
    } else {
        let f = first_at(s.drop_last(), t);
        if f < s.len() - 1 {
            f
        } else if s.last().special_type == t {
            s.len() - 1
        } else {
            s.len() as int
        }
    }
}

proof fn lemma_first_at(s: Seq<LinedefMetadata>, t: SpecialType)
    ensures
        0 <= first_at(s, t) <= s.len(),
        first_at(s, t) < s.len() ==> s[first_at(s, t)].special_type == t,
        forall|i: int| 0 <= i < s.len() && (#[trigger] s[i]).special_type == t ==> first_at(s, t) <= i,
    decreases s.len(),
{
    if s.len() > 0 {
        let p = s.drop_last();
        lemma_first_at(p, t);
        assert forall|i: int| 0 <= i < s.len() && (#[trigger] s[i]).special_type == t implies first_at(s, t) <= i by {
            if i < s.len() - 1 {
                assert(p[i] == s[i]);
            }
        }
        if first_at(p, t) < p.len() {
            assert(p[first_at(p, t)] == s[first_at(p, t)]);
        }
    }
}

/// The deduplicated entries stand in the order their types first appear.
proof fn lemma_dedup_order(s: Seq<LinedefMetadata>, n: int)
    requires
        0 <= n <= s.len(),
        s.len() <= usize::MAX,
    ensures
        forall|i: int, j: int|
            0 <= i < j < dedup_upto(s, n).0.len() ==> first_at(s.take(n), (#[trigger] dedup_upto(s, n).0[i]).special_type)
                < first_at(s.take(n), (#[trigger] dedup_upto(s, n).0[j]).special_type),
    decreases n,
{
    if n > 0 {
        lemma_dedup_order(s, n - 1);
        lemma_dedup_index(s, n - 1);
        let (p, m) = dedup_upto(s, n - 1);
        let (p2, m2) = dedup_upto(s, n);
        let e = s[n - 1];
        lemma_dedup_step(p, m, e);
        let q = s.take(n - 1);
        let tn = s.take(n);
        assert(tn.drop_last() =~= q);
        assert(tn.last() == e);
        // Types already present keep their first place; a new type comes at `n - 1`.
        assert forall|j: int| 0 <= j < p.len() implies first_at(tn, (#[trigger] p[j]).special_type)
            == first_at(q, p[j].special_type) && first_at(q, p[j].special_type) < n - 1 by {
            let i = choose|i: int| 0 <= i < n - 1 && s[i].special_type == p[j].special_type;
            assert(q[i] == s[i]);
            lemma_first_at(q, p[j].special_type);
        }
        if !m.contains_key(e.special_type as u64) {
            lemma_first_at(q, e.special_type);
            if first_at(q, e.special_type) < n - 1 {
                let f = first_at(q, e.special_type);
                assert(q[f] == s[f]);
                assert(m.contains_key(s[f].special_type as u64));
            }
            assert(first_at(tn, e.special_type) == n - 1);
        }
        assert forall|i: int, j: int| 0 <= i < j < p2.len() implies first_at(tn, (#[trigger] p2[i]).special_type)
            < first_at(tn, (#[trigger] p2[j]).special_type) by {
            assert(p2[i].special_type == p[i].special_type);
            assert(first_at(tn, p[i].special_type) == first_at(q, p[i].special_type));
            if j < p.len() {
                assert(p2[j].special_type == p[j].special_type);
                assert(first_at(tn, p[j].special_type) == first_at(q, p[j].special_type));
            } else {
                assert(p2[j] == e);
                assert(!m.contains_key(e.special_type as u64));
            }
        }
    }
}

/// Looking a type up among the deduplicated entries finds what the entries' last entry
/// of that type says.
proof fn lemma_dedup_lookup(s: Seq<LinedefMetadata>, t: SpecialType)
    requires
        s.len() <= usize::MAX,
    ensures
        last_special(dedup_specials(s), t) == last_special(s, t),
{
    lemma_dedup_index(s, s.len() as int);
    lemma_dedup_last(s, s.len() as int);
    let (d, m) = dedup_upto(s, s.len() as int);
    assert(s.take(s.len() as int) =~= s);
    lemma_last_special(d, t);
    lemma_last_special(s, t);
    if m.contains_key(t as u64) {
        let j = m[t as u64] as int;
        assert(d[j].special_type == t);
        assert forall|j2: int| j < j2 < d.len() implies d[j2].special_type != t by {
            assert(m[d[j2].special_type as u64] == j2);
        }
        assert(last_of_special(d, t, j));
        assert(last_special(s, t) == Some(d[j]));
    } else {
        assert forall|j2: int| 0 <= j2 < d.len() implies d[j2].special_type != t by {
            assert(m.contains_key(d[j2].special_type as u64));
        }
        assert forall|i: int| 0 <= i < s.len() implies s[i].special_type != t by {
            assert(m.contains_key(s[i].special_type as u64));
        }
    }
}

/// No special type stands twice among the deduplicated entries.
proof fn lemma_dedup_unique(s: Seq<LinedefMetadata>)
    requires
        s.len() <= usize::MAX,
    ensures
        forall|i: int, j: int| 0 <= i < j < dedup_specials(s).len()
            ==> (#[trigger] dedup_specials(s)[i]).special_type != (#[trigger] dedup_specials(s)[j]).special_type,
{
    lemma_dedup_index(s, s.len() as int);
    let (d, m) = dedup_upto(s, s.len() as int);
    assert forall|i: int, j: int| 0 <= i < j < d.len() implies (#[trigger] d[i]).special_type != (#[trigger] d[j]).special_type by {
        assert(m[d[i].special_type as u64] == i);
        assert(m[d[j].special_type as u64] == j);
    }
}

/// The deduplicated entries stand in the order of their types' first entries.
proof fn lemma_dedup_order_all(s: Seq<LinedefMetadata>)
    requires
        s.len() <= usize::MAX,
    ensures
        forall|i: int, j: int| 0 <= i < j < dedup_specials(s).len()
            ==> first_at(s, (#[trigger] dedup_specials(s)[i]).special_type) < first_at(s, (#[trigger] dedup_specials(s)[j]).special_type),
{
    lemma_dedup_order(s, s.len() as int);
    assert(s.take(s.len() as int) =~= s);
}

/// Linedef specials keep one entry per special type: no type stands twice; looking any
/// type up finds what the full list's last entry of that type says (so the same types are
/// there); and types stand in the order of their first entries.
pub proof fn law_linedef_specials_deduplicated(s: Seq<LinedefMetadata>)
    requires
        s.len() <= usize::MAX,
    ensures
        ({
            let d = dedup_specials(s);
            &&& forall|i: int, j: int| 0 <= i < j < d.len() ==> (#[trigger] d[i]).special_type != (#[trigger] d[j]).special_type
            &&& forall|t: SpecialType| #[trigger] last_special(d, t) == last_special(s, t)
            &&& forall|i: int, j: int| 0 <= i < j < d.len()
                ==> first_at(s, (#[trigger] d[i]).special_type) < first_at(s, (#[trigger] d[j]).special_type)
        }),
{
    lemma_dedup_unique(s);
    lemma_dedup_order_all(s);
    assert forall|t: SpecialType| #[trigger] last_special(dedup_specials(s), t) == last_special(s, t) by {
        lemma_dedup_lookup(s, t);
    }

}

} // verus!
