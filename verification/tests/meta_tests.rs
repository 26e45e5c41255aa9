use goldy_doom::meta::{
    sky_index_from_matches, AnimationMetadata, ExitEffectDef, LinedefMetadata, SkyMetadata,
    ThingDirectoryMetadata, ThingMetadata, TriggerType, WadMetadata,
};
use goldy_doom::name::WadName;

fn name(s: &str) -> WadName {
    WadName::from_str(s).unwrap()
}

fn sky(texture: &str, pattern: &str, band: f32) -> SkyMetadata {
    SkyMetadata {
        texture_name: name(texture),
        level_pattern: pattern.to_string(),
        tiled_band_size_bits: band.to_bits(),
    }
}

fn thing(thing_type: u16, sprite: &str) -> ThingMetadata {
    ThingMetadata {
        thing_type,
        sprite: name(sprite),
        sequence: "A".to_string(),
        hanging: false,
        radius: 16,
    }
}

fn empty_things() -> ThingDirectoryMetadata {
    ThingDirectoryMetadata {
        decorations: vec![],
        weapons: vec![],
        powerups: vec![],
        artifacts: vec![],
        ammo: vec![],
        keys: vec![],
        monsters: vec![],
    }
}

fn linedef(special_type: u16, trigger: TriggerType, only_once: bool) -> LinedefMetadata {
    LinedefMetadata {
        special_type,
        trigger,
        monsters: false,
        only_once,
        move_effect: None,
        exit_effect: None,
    }
}

fn doom_meta() -> WadMetadata {
    WadMetadata::new(
        vec![
            sky("SKY1", "E1M.", 0.186),
            sky("SKY1", "MAP0[1-9]|MAP1[01]", 1.0),
            sky("SKY2", "MAP1[2-9]|MAP20", 0.25),
            sky("SKY3", "MAP2[1-9]|MAP3.", 0.5),
        ],
        AnimationMetadata { flats: vec![vec![name("NUKAGE1"), name("NUKAGE2")]], walls: vec![] },
        empty_things(),
        vec![],
    )
}

#[test]
fn test_sky_for_level_matching() {
    let meta = doom_meta();
    let e1m1 = WadName::from_str("E1M1").unwrap();
    let sky = meta.sky_for(e1m1).expect("E1M1 should match E1M.");
    assert_eq!(sky.texture_name.trimmed_bytes(), b"SKY1".to_vec());
    assert!((f32::from_bits(sky.tiled_band_size_bits) - 0.186).abs() < 1e-6);
    let map01 = WadName::from_str("MAP01").unwrap();
    let sky2 = meta.sky_for(map01).expect("MAP01 should match");
    assert_eq!(sky2.texture_name.trimmed_bytes(), b"SKY1".to_vec());
    assert!((f32::from_bits(sky2.tiled_band_size_bits) - 1.0).abs() < 1e-6);
    let map15 = WadName::from_str("MAP15").unwrap();
    let sky3 = meta.sky_for(map15).expect("MAP15 should match");
    assert_eq!(sky3.texture_name.trimmed_bytes(), b"SKY2".to_vec());
    assert!((f32::from_bits(sky3.tiled_band_size_bits) - 0.25).abs() < 1e-6);
}

#[test]
fn sky_for_falls_back_to_first() {
    let meta = doom_meta();
    let sky = meta.sky_for(name("E4M1")).unwrap();
    assert_eq!(sky.level_pattern, "E1M.");
    let none = WadMetadata::new(vec![], AnimationMetadata { flats: vec![], walls: vec![] }, empty_things(), vec![]);
    assert!(none.sky_for(name("E1M1")).is_none());
}

#[test]
fn sky_for_sees_padding_bytes() {
    // The pattern is searched in all eight name bytes, zero padding included.
    let meta = WadMetadata::new(
        vec![sky("SKY1", "^E1M1$", 0.5), sky("SKY2", "^E1M1\\x00", 0.25)],
        AnimationMetadata { flats: vec![], walls: vec![] },
        empty_things(),
        vec![],
    );
    assert_eq!(meta.sky_for(name("E1M1")).unwrap().texture_name, name("SKY2"));
}

#[test]
fn sky_for_skips_invalid_pattern() {
    let meta = WadMetadata::new(
        vec![sky("SKY1", "(", 0.5), sky("SKY2", "MAP", 0.25)],
        AnimationMetadata { flats: vec![], walls: vec![] },
        empty_things(),
        vec![],
    );
    assert_eq!(meta.sky_for(name("MAP01")).unwrap().texture_name, name("SKY2"));
}

#[test]
fn sky_index_choice() {
    assert_eq!(sky_index_from_matches(&[]), None);
    assert_eq!(sky_index_from_matches(&[Some(false), None]), Some(0));
    assert_eq!(sky_index_from_matches(&[Some(false), None, Some(true), Some(true)]), Some(2));
}

#[test]
fn find_thing_in_category_order() {
    let mut things = empty_things();
    things.decorations = vec![thing(2028, "COLU")];
    things.weapons = vec![thing(2001, "SHOT")];
    things.monsters = vec![thing(3004, "POSS"), thing(2001, "XXXX")];
    let meta = WadMetadata::new(vec![], AnimationMetadata { flats: vec![], walls: vec![] }, things, vec![]);
    assert_eq!(meta.find_thing(2028).unwrap().sprite, name("COLU"));
    assert_eq!(meta.find_thing(2001).unwrap().sprite, name("SHOT"));
    assert_eq!(meta.find_thing(3004).unwrap().sprite, name("POSS"));
    assert!(meta.find_thing(9999).is_none());
}

#[test]
fn linedef_last_entry_wins() {
    let meta = WadMetadata::new(
        vec![],
        AnimationMetadata { flats: vec![], walls: vec![] },
        empty_things(),
        vec![
            linedef(1, TriggerType::Push, false),
            linedef(11, TriggerType::Switch, true),
            linedef(1, TriggerType::WalkOver, true),
        ],
    );
    let l1 = meta.linedef(1).unwrap();
    assert_eq!(l1.trigger, TriggerType::WalkOver);
    assert!(l1.only_once);
    assert_eq!(meta.linedef(11).unwrap().trigger, TriggerType::Switch);
    assert!(meta.linedef(2).is_none());
    // One entry per special type, where its type first came, holding its last entry.
    assert_eq!(meta.linedefs.len(), 2);
    assert_eq!(meta.linedefs[0].special_type, 1);
    assert_eq!(meta.linedefs[0].trigger, TriggerType::WalkOver);
    assert_eq!(meta.linedefs[1].special_type, 11);
    let _ = ExitEffectDef::Secret;
}
