use goldy_doom::analysis::{linedef_to_trigger, LevelAnalysis, LevelLinks, LinedefLinks};
use goldy_doom::meta::{
    AnimationMetadata, ExitEffectDef, HeightDef, HeightEffectDef, HeightRef, LinedefMetadata,
    MoveEffectDef, ThingDirectoryMetadata, TriggerType, WadMetadata,
};
use goldy_doom::name::WadName;
use goldy_doom::types::{NeighbourHeights, WadSector, WadVertex};
use goldy_doom::visitor::{MoveEffect, ObjectId};

fn sector(floor: i16, ceiling: i16, tag: u16) -> WadSector {
    WadSector {
        floor_height: floor,
        ceiling_height: ceiling,
        floor_texture: WadName::from_str("FLOOR4_8").unwrap(),
        ceiling_texture: WadName::from_str("CEIL3_5").unwrap(),
        light: 160,
        sector_type: 0,
        tag,
    }
}

fn heights() -> NeighbourHeights {
    NeighbourHeights {
        lowest_floor: -16,
        highest_floor: 64,
        next_floor: Some(24),
        lowest_ceiling: 72,
        highest_ceiling: 200,
    }
}

fn line() -> (WadVertex, WadVertex) {
    (WadVertex { x: 0, y: 0 }, WadVertex { x: 64, y: -32 })
}

fn link(special_type: u16, sector_tag: u16, left_sector: Option<u16>) -> LinedefLinks {
    LinedefLinks { special_type, sector_tag, left_sector, line: Some(line()) }
}

fn door() -> MoveEffectDef {
    MoveEffectDef {
        floor: None,
        ceiling: Some(HeightEffectDef {
            first: HeightDef { to: HeightRef::LowestCeiling, offset: -4 },
            second: Some(HeightDef { to: HeightRef::Ceiling, offset: 0 }),
        }),
        repeat: true,
        wait_bits: 4.0f32.to_bits(),
        speed_bits: 2.0f32.to_bits(),
    }
}

fn lower_floor() -> MoveEffectDef {
    MoveEffectDef {
        floor: Some(HeightEffectDef { first: HeightDef { to: HeightRef::LowestFloor, offset: 0 }, second: None }),
        ceiling: None,
        repeat: false,
        wait_bits: 0,
        speed_bits: 1.0f32.to_bits(),
    }
}

fn special(special_type: u16, trigger: TriggerType, only_once: bool, move_effect: Option<MoveEffectDef>, exit_effect: Option<ExitEffectDef>) -> LinedefMetadata {
    LinedefMetadata { special_type, trigger, monsters: false, only_once, move_effect, exit_effect }
}

fn meta() -> WadMetadata {
    WadMetadata::new(
        vec![],
        AnimationMetadata { flats: vec![], walls: vec![] },
        ThingDirectoryMetadata {
            decorations: vec![],
            weapons: vec![],
            powerups: vec![],
            artifacts: vec![],
            ammo: vec![],
            keys: vec![],
            monsters: vec![],
        },
        vec![
            special(1, TriggerType::Push, false, Some(door()), None),
            special(23, TriggerType::Switch, true, Some(lower_floor()), None),
            special(11, TriggerType::Switch, true, None, Some(ExitEffectDef::Normal)),
        ],
    )
}

fn level() -> LevelLinks {
    LevelLinks {
        sectors: vec![sector(0, 128, 0), sector(0, 128, 3), sector(8, 96, 3), sector(0, 64, 5)],
        neighbour_heights: vec![Some(heights()), Some(heights()), None, Some(heights())],
        linedefs: vec![
            link(0, 0, Some(0)),
            link(1, 0, Some(0)),
            link(23, 3, None),
            link(99, 5, None),
            LinedefLinks { special_type: 23, sector_tag: 3, left_sector: None, line: None },
            link(11, 7, None),
        ],
    }
}

#[test]
fn linedef_triggers() {
    let m = meta();
    assert!(linedef_to_trigger(&m, &link(0, 0, None)).is_none());
    assert!(linedef_to_trigger(&m, &LinedefLinks { special_type: 1, sector_tag: 0, left_sector: None, line: None }).is_none());
    let door_trigger = linedef_to_trigger(&m, &link(1, 0, Some(2))).unwrap();
    assert_eq!(door_trigger.trigger_type, TriggerType::Push);
    assert_eq!(door_trigger.special_type, 1);
    assert_eq!(door_trigger.line, line());
    assert!(!door_trigger.only_once);
    assert!(!door_trigger.unimplemented);
    assert_eq!(door_trigger.move_effect_def, Some(door()));
    assert!(door_trigger.move_effects.is_empty());
    let unknown = linedef_to_trigger(&m, &link(99, 4, None)).unwrap();
    assert_eq!(unknown.trigger_type, TriggerType::Any);
    assert!(unknown.unimplemented);
    assert!(!unknown.only_once);
    assert!(unknown.move_effect_def.is_none());
    assert!(unknown.exit_effect.is_none());
    let exit = linedef_to_trigger(&m, &link(11, 0, None)).unwrap();
    assert_eq!(exit.exit_effect, Some(ExitEffectDef::Normal));
    assert!(exit.only_once);
}

#[test]
fn analysis_of_a_level() {
    let lv = level();
    let m = meta();
    assert!(LevelAnalysis::can_analyse(&lv, &m));
    let mut analysis = LevelAnalysis::new(&lv, &m);
    // The door's ceiling gets object 1, the lowered floor of sector 1 object 2.
    assert_eq!(analysis.num_objects(), 3);
    let d0 = analysis.dynamic_info(0).unwrap();
    assert_eq!(d0.ceiling_id, ObjectId(1));
    assert_eq!(d0.floor_id, ObjectId(0));
    assert_eq!(d0.ceiling_range, Some((68, 128)));
    assert_eq!(d0.floor_range, None);
    let d1 = analysis.dynamic_info(1).unwrap();
    assert_eq!(d1.floor_id, ObjectId(2));
    assert_eq!(d1.ceiling_id, ObjectId(0));
    assert_eq!(d1.floor_range, Some((-16, 0)));
    // Sector 2 has no neighbours and sector 3's special has no move: both are listed,
    // with nothing moving.
    let d2 = analysis.dynamic_info(2).unwrap();
    assert_eq!((d2.floor_id, d2.ceiling_id), (ObjectId(0), ObjectId(0)));
    assert!(d2.floor_range.is_none() && d2.neighbour_heights.is_none());
    let d3 = analysis.dynamic_info(3).unwrap();
    assert_eq!((d3.floor_id, d3.ceiling_id), (ObjectId(0), ObjectId(0)));
    assert!(analysis.dynamic_info(4).is_none());
    assert!(analysis.dynamic_info(7).is_none());

    let triggers = analysis.take_triggers();
    assert_eq!(triggers.len(), 4);
    assert_eq!(triggers.iter().map(|t| t.special_type).collect::<Vec<_>>(), vec![1, 23, 99, 11]);
    assert_eq!(
        triggers[0].move_effects,
        vec![MoveEffect {
            object_id: ObjectId(1),
            first_height_offset: -60,
            second_height_offset: Some(0),
            speed_bits: 2.0f32.to_bits(),
            wait_bits: 4.0f32.to_bits(),
            repeat: true,
        }]
    );
    assert_eq!(
        triggers[1].move_effects,
        vec![MoveEffect {
            object_id: ObjectId(2),
            first_height_offset: -16,
            second_height_offset: None,
            speed_bits: 1.0f32.to_bits(),
            wait_bits: 0,
            repeat: false,
        }]
    );
    assert!(triggers[2].unimplemented && triggers[2].move_effects.is_empty());
    assert_eq!(triggers[3].exit_effect, Some(ExitEffectDef::Normal));
    assert!(triggers[3].move_effects.is_empty());
    assert!(analysis.take_triggers().is_empty());
    assert_eq!(analysis.num_objects(), 3);
}

#[test]
fn analysis_object_ids_are_unique() {
    let mut lv = level();
    // A second door on sector 1 gives its ceiling a third object and keeps its floor's.
    lv.linedefs.push(link(1, 3, None));
    let mut analysis = LevelAnalysis::new(&lv, &meta());
    assert_eq!(analysis.num_objects(), 4);
    let d1 = analysis.dynamic_info(1).unwrap();
    assert_eq!((d1.floor_id, d1.ceiling_id), (ObjectId(2), ObjectId(3)));
    let mut ids = Vec::new();
    for s in 0..4u16 {
        let d = analysis.dynamic_info(s).unwrap();
        for id in [d.floor_id.0, d.ceiling_id.0] {
            if id != 0 {
                assert!(!ids.contains(&id));
                assert!((id as usize) < analysis.num_objects());
                ids.push(id);
            }
        }
    }
    assert_eq!(ids.len(), analysis.num_objects() - 1);
    for t in analysis.take_triggers() {
        for e in t.move_effects {
            assert!(e.object_id.0 > 0 && (e.object_id.0 as usize) < 4);
        }
    }
}

#[test]
fn analysis_without_tagged_sectors_is_empty() {
    let lv = LevelLinks {
        sectors: vec![sector(0, 128, 0), sector(0, 64, 0)],
        neighbour_heights: vec![Some(heights()), Some(heights())],
        linedefs: vec![link(1, 0, Some(0)), link(11, 0, None)],
    };
    let m = meta();
    assert!(LevelAnalysis::can_analyse(&lv, &m));
    let mut analysis = LevelAnalysis::new(&lv, &m);
    assert_eq!(analysis.num_objects(), 0);
    assert!(analysis.dynamic_info(0).is_none());
    assert!(analysis.take_triggers().is_empty());
}

#[test]
fn analysis_refuses_levels_it_cannot_complete() {
    let m = meta();
    let mut lv = level();
    lv.linedefs.push(link(1, 0, Some(9)));
    assert!(!LevelAnalysis::can_analyse(&lv, &m));
    let mut lv2 = level();
    lv2.sectors[1] = sector(32000, 32100, 3);
    lv2.neighbour_heights[1] = Some(NeighbourHeights { lowest_floor: -32000, ..heights() });
    assert!(!LevelAnalysis::can_analyse(&lv2, &m));
    // The same sectors without a tag are never analysed, so nothing can overflow.
    let mut lv3 = level();
    lv3.sectors[1] = sector(32000, 32100, 3);
    lv3.neighbour_heights[1] = Some(NeighbourHeights { lowest_floor: -32000, ..heights() });
    for s in lv3.sectors.iter_mut() {
        s.tag = 0;
    }
    assert!(LevelAnalysis::can_analyse(&lv3, &m));
}
