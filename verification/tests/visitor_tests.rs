use goldy_doom::meta::{HeightDef, HeightEffectDef, HeightRef};
use goldy_doom::name::WadName;
use goldy_doom::types::{NeighbourHeights, WadSector};
use goldy_doom::visitor::{merge_range, min_max_height, Marker, ObjectId, SectorInfo};

fn sector(floor: i16, ceiling: i16) -> WadSector {
    WadSector {
        floor_height: floor,
        ceiling_height: ceiling,
        floor_texture: WadName::from_str("FLOOR4_8").unwrap(),
        ceiling_texture: WadName::from_str("CEIL3_5").unwrap(),
        light: 160,
        sector_type: 0,
        tag: 0,
    }
}

fn heights() -> NeighbourHeights {
    NeighbourHeights {
        lowest_floor: -16,
        highest_floor: 64,
        next_floor: Some(24),
        lowest_ceiling: 72,
        highest_ceiling: 200,
    }
}

#[test]
fn marker_from_thing_type() {
    assert_eq!(Marker::from(1), Some(Marker::StartPos { player: 0 }));
    assert_eq!(Marker::from(4), Some(Marker::StartPos { player: 3 }));
    assert_eq!(Marker::from(11), Some(Marker::TeleportStart));
    assert_eq!(Marker::from(14), Some(Marker::TeleportEnd));
    assert_eq!(Marker::from(5), None);
    assert_eq!(Marker::from(3004), None);
}

#[test]
fn merge_range_widens() {
    let mut r = None;
    merge_range(&mut r, 10, &[]);
    assert_eq!(r, None);
    merge_range(&mut r, 10, &[40, -8]);
    assert_eq!(r, Some((-8, 40)));
    merge_range(&mut r, 100, &[0]);
    assert_eq!(r, Some((-8, 100)));
    let mut r2 = Some((5, 6));
    merge_range(&mut r2, 0, &[]);
    assert_eq!(r2, Some((0, 6)));
}

#[test]
fn to_height_adds_offset() {
    let s = sector(0, 128);
    let h = heights();
    assert_eq!(HeightDef { to: HeightRef::LowestFloor, offset: 8 }.to_height(&s, &h), Some(-8));
    assert_eq!(HeightDef { to: HeightRef::NextFloor, offset: 0 }.to_height(&s, &h), Some(24));
    assert_eq!(HeightDef { to: HeightRef::HighestFloor, offset: 0 }.to_height(&s, &h), Some(64));
    assert_eq!(HeightDef { to: HeightRef::LowestCeiling, offset: -8 }.to_height(&s, &h), Some(64));
    assert_eq!(HeightDef { to: HeightRef::HighestCeiling, offset: 0 }.to_height(&s, &h), Some(200));
    assert_eq!(HeightDef { to: HeightRef::Floor, offset: 24 }.to_height(&s, &h), Some(24));
    assert_eq!(HeightDef { to: HeightRef::Ceiling, offset: 0 }.to_height(&s, &h), Some(128));
    let no_next = NeighbourHeights { next_floor: None, ..h };
    assert_eq!(HeightDef { to: HeightRef::NextFloor, offset: 0 }.to_height(&s, &no_next), None);
}

#[test]
fn option_to_heights_pairs() {
    let s = sector(0, 128);
    let h = heights();
    assert_eq!(HeightEffectDef::option_to_heights(None, &s, &h), (None, None));
    let def = HeightEffectDef {
        first: HeightDef { to: HeightRef::LowestFloor, offset: 0 },
        second: Some(HeightDef { to: HeightRef::Floor, offset: 0 }),
    };
    assert_eq!(HeightEffectDef::option_to_heights(Some(def), &s, &h), (Some(-16), Some(0)));
    let def2 = HeightEffectDef { first: HeightDef { to: HeightRef::Ceiling, offset: -4 }, second: None };
    assert_eq!(HeightEffectDef::option_to_heights(Some(def2), &s, &h), (Some(124), None));
}

#[test]
fn min_max_height_adds_margin() {
    assert_eq!(min_max_height(&[sector(0, 128), sector(-24, 72), sector(40, 256)]), (-536, 768));
    assert_eq!(min_max_height(&[]), (32255, -32256));
}

#[test]
fn sector_info_max_height() {
    let info = SectorInfo {
        floor_id: ObjectId(1),
        ceiling_id: ObjectId(2),
        floor_range: (-16, 0),
        ceiling_range: (72, 128),
    };
    assert_eq!(info.max_height(), 144);
    assert_eq!(ObjectId::default(), ObjectId(0));
}

use goldy_doom::meta::MoveEffectDef;
use goldy_doom::visitor::{DynamicSectorInfo, MoveEffect};

fn lower_floor_def() -> MoveEffectDef {
    MoveEffectDef {
        floor: Some(HeightEffectDef {
            first: HeightDef { to: HeightRef::LowestFloor, offset: 0 },
            second: Some(HeightDef { to: HeightRef::Floor, offset: 0 }),
        }),
        ceiling: None,
        repeat: true,
        wait_bits: 3.0f32.to_bits(),
        speed_bits: 0.35f32.to_bits(),
    }
}

#[test]
fn update_without_move_changes_nothing() {
    let mut info = DynamicSectorInfo::default();
    let mut next = ObjectId(1);
    let mut effects: Vec<MoveEffect> = Vec::new();
    info.update(&mut next, &sector(0, 128), Some(heights()), None, &mut effects);
    assert_eq!(next, ObjectId(1));
    assert!(effects.is_empty());
    assert_eq!(info.floor_id, ObjectId(0));
    assert!(info.neighbour_heights.is_none());
}

#[test]
fn update_without_neighbours_changes_nothing() {
    let mut info = DynamicSectorInfo::default();
    let mut next = ObjectId(1);
    let mut effects: Vec<MoveEffect> = Vec::new();
    info.update(&mut next, &sector(0, 128), None, Some(lower_floor_def()), &mut effects);
    assert_eq!(next, ObjectId(1));
    assert!(effects.is_empty());
    assert!(info.floor_range.is_none());
}

#[test]
fn update_gives_floor_an_object_and_a_move() {
    let mut info = DynamicSectorInfo::default();
    let mut next = ObjectId(1);
    let mut effects: Vec<MoveEffect> = Vec::new();
    info.update(&mut next, &sector(0, 128), Some(heights()), Some(lower_floor_def()), &mut effects);
    assert_eq!(info.floor_id, ObjectId(1));
    assert_eq!(info.ceiling_id, ObjectId(0));
    assert_eq!(next, ObjectId(2));
    assert_eq!(info.floor_range, Some((-16, 0)));
    assert_eq!(info.ceiling_range, None);
    assert_eq!(info.neighbour_heights, Some(heights()));
    assert_eq!(
        effects,
        vec![MoveEffect {
            object_id: ObjectId(1),
            first_height_offset: -16,
            second_height_offset: Some(0),
            speed_bits: 0.35f32.to_bits(),
            wait_bits: 3.0f32.to_bits(),
            repeat: true,
        }]
    );
    // A second trigger on the same sector keeps the floor's object and widens its range.
    let raise = MoveEffectDef {
        floor: Some(HeightEffectDef { first: HeightDef { to: HeightRef::NextFloor, offset: 0 }, second: None }),
        ceiling: Some(HeightEffectDef { first: HeightDef { to: HeightRef::HighestCeiling, offset: 0 }, second: None }),
        repeat: false,
        wait_bits: 0,
        speed_bits: 0,
    };
    info.update(&mut next, &sector(0, 128), None, Some(raise), &mut effects);
    assert_eq!(info.floor_id, ObjectId(1));
    assert_eq!(info.ceiling_id, ObjectId(2));
    assert_eq!(next, ObjectId(3));
    assert_eq!(info.floor_range, Some((-16, 24)));
    assert_eq!(info.ceiling_range, Some((128, 200)));
    assert_eq!(effects.len(), 3);
    assert_eq!(effects[1].object_id, ObjectId(1));
    assert_eq!(effects[1].first_height_offset, 24);
    assert_eq!(effects[2].object_id, ObjectId(2));
    assert_eq!(effects[2].first_height_offset, 72);
    assert_eq!(effects[2].second_height_offset, None);
}

use goldy_doom::visitor::{
    decor_sprite_names, flat_parts, is_sky_flat, is_untextured, sector_info, seg_parts, FlatPart,
    Peg, SegPart, SideTextures,
};

fn tex(s: &str) -> WadName {
    WadName::from_str(s).unwrap()
}

fn sky_sector(floor: i16, ceiling: i16) -> WadSector {
    WadSector { ceiling_texture: tex("F_SKY1"), ..sector(floor, ceiling) }
}

fn static_info(s: &WadSector) -> SectorInfo {
    sector_info(s, None)
}

fn sides() -> SideTextures {
    SideTextures { upper: tex("STARTAN2"), middle: tex("STARG3"), lower: tex("-") }
}

#[test]
fn sky_and_untextured_names() {
    assert!(is_sky_flat(tex("F_SKY1")));
    assert!(!is_sky_flat(tex("FLOOR4_8")));
    assert!(is_untextured(tex("-")));
    assert!(!is_untextured(tex("-A")));
}

#[test]
fn sector_info_static_and_dynamic() {
    let s = sector(0, 128);
    assert_eq!(
        sector_info(&s, None),
        SectorInfo { floor_id: ObjectId(0), ceiling_id: ObjectId(0), floor_range: (0, 0), ceiling_range: (128, 128) }
    );
    let d = DynamicSectorInfo {
        floor_id: ObjectId(3),
        ceiling_id: ObjectId(0),
        neighbour_heights: None,
        floor_range: Some((-16, 0)),
        ceiling_range: None,
    };
    assert_eq!(
        sector_info(&s, Some(&d)),
        SectorInfo { floor_id: ObjectId(3), ceiling_id: ObjectId(0), floor_range: (-16, 0), ceiling_range: (128, 128) }
    );
}

#[test]
fn one_sided_wall_with_sky() {
    let s = sky_sector(0, 128);
    let parts = seg_parts(&s, &static_info(&s), 0, &sides(), None, (-512, 640));
    assert_eq!(
        parts,
        vec![
            SegPart::Wall { object_id: ObjectId(0), low: 0, high: 128, texture_name: tex("STARG3"), peg: Peg::Top, blocker: true },
            SegPart::Sky { object_id: ObjectId(0), low: 128, high: 640 },
        ]
    );
    let lower_unpegged = seg_parts(&s, &static_info(&s), 16, &sides(), None, (-512, 640));
    assert_eq!(
        lower_unpegged[0],
        SegPart::Wall { object_id: ObjectId(0), low: 0, high: 128, texture_name: tex("STARG3"), peg: Peg::Bottom, blocker: true }
    );
}

#[test]
fn two_sided_step_and_lintel() {
    let front = sector(0, 128);
    let back = sector(24, 96);
    let parts = seg_parts(&front, &static_info(&front), 0, &sides(), Some((&back, &static_info(&back))), (-512, 640));
    assert_eq!(
        parts,
        vec![
            SegPart::Wall { object_id: ObjectId(0), low: 0, high: 24, texture_name: tex("-"), peg: Peg::Top, blocker: true },
            SegPart::Wall { object_id: ObjectId(0), low: 96, high: 128, texture_name: tex("STARTAN2"), peg: Peg::Bottom, blocker: true },
            SegPart::Wall { object_id: ObjectId(0), low: 24, high: 96, texture_name: tex("STARG3"), peg: Peg::BottomFloat, blocker: false },
        ]
    );
    // Seen from the higher floor, there is no lower wall, and the line blocks.
    let parts2 = seg_parts(&back, &static_info(&back), 1 | 8, &sides(), Some((&front, &static_info(&front))), (-512, 640));
    assert_eq!(
        parts2,
        vec![SegPart::Wall { object_id: ObjectId(0), low: 24, high: 96, texture_name: tex("STARG3"), peg: Peg::BottomFloat, blocker: true }]
    );
}

#[test]
fn two_sided_sky_only_where_back_is_not_sky() {
    let front = sky_sector(0, 128);
    let back = sector(0, 128);
    let parts = seg_parts(&front, &static_info(&front), 0, &sides(), Some((&back, &static_info(&back))), (-512, 640));
    let middle = |high| SegPart::Wall {
        object_id: ObjectId(0),
        low: 0,
        high,
        texture_name: tex("STARG3"),
        peg: Peg::BottomFloat,
        blocker: false,
    };
    assert_eq!(parts, vec![SegPart::Sky { object_id: ObjectId(0), low: 128, high: 640 }, middle(128)]);
    // Behind a lower sky ceiling: neither a sky wall nor an upper wall.
    let back_sky = sky_sector(0, 100);
    let parts2 = seg_parts(&front, &static_info(&front), 0, &sides(), Some((&back_sky, &static_info(&back_sky))), (-512, 640));
    assert_eq!(parts2, vec![middle(100)]);
}

#[test]
fn flats_of_sky_and_plain_sectors() {
    let s = sky_sector(8, 200);
    let (floor, ceiling) = flat_parts(&s, &static_info(&s), (-512, 712));
    assert_eq!(floor, FlatPart::Flat { object_id: ObjectId(0), height: 8, texture_name: tex("FLOOR4_8") });
    assert_eq!(ceiling, FlatPart::Sky { object_id: ObjectId(0), height: 712 });
}

#[test]
fn decor_sprite_name_candidates() {
    assert_eq!(decor_sprite_names(tex("COLU"), "A"), Some((tex("COLUA0"), tex("COLUA1"))));
    assert_eq!(decor_sprite_names(tex("POSSABCD"), "A"), None);
    assert_eq!(decor_sprite_names(tex("BAR1ABC"), "B"), None);
    assert_eq!(decor_sprite_names(tex("TRE2"), "?"), Some((tex("TRE20"), tex("TRE21"))));
}

use goldy_doom::visitor::{wall_heights, wall_scroll};

#[test]
fn wall_heights_follow_the_peg() {
    assert_eq!(wall_heights(16, 16, Some(64), Peg::Top, 0), None);
    assert_eq!(wall_heights(32, 16, None, Peg::Bottom, 0), None);
    assert_eq!(wall_heights(0, 128, Some(64), Peg::Top, 8), Some((0, 128)));
    assert_eq!(wall_heights(0, 128, Some(64), Peg::TopFloat, 8), Some((8, 72)));
    assert_eq!(wall_heights(0, 128, Some(64), Peg::BottomFloat, -8), Some((56, 120)));
    assert_eq!(wall_heights(0, 128, None, Peg::TopFloat, 8), Some((0, 128)));
}

#[test]
fn only_special_48_scrolls() {
    assert_eq!(wall_scroll(48), 35);
    assert_eq!(wall_scroll(0), 0);
    assert_eq!(wall_scroll(1), 0);
}
