use polythree::{
    parse_u16, plan_map_deletions, prepare_anims, AnimationFrame, LayoutAction, LayoutActionType,
    MapId, MapIdLayout, TilesetAnimation, TilesetAnimationList,
};

fn map_id(group: u8, index: u8) -> MapId {
    MapId { group, index }
}

#[test]
fn parse_u16_plain() {
    assert_eq!(parse_u16("123".to_string()), Ok(123));
    assert_eq!(parse_u16("0".to_string()), Ok(0));
    assert_eq!(parse_u16("65535".to_string()), Ok(65535));
}

#[test]
fn parse_u16_accepts_leading_plus() {
    assert_eq!(parse_u16("+123".to_string()), Ok(123));
}

#[test]
fn parse_u16_rejects_empty() {
    assert!(parse_u16("".to_string()).is_err());
    assert!(parse_u16("+".to_string()).is_err());
}

#[test]
fn parse_u16_rejects_non_digits() {
    assert!(parse_u16("12a".to_string()).is_err());
    assert!(parse_u16("-1".to_string()).is_err());
    assert!(parse_u16(" 12".to_string()).is_err());
}

#[test]
fn parse_u16_rejects_overflow() {
    assert!(parse_u16("65536".to_string()).is_err());
    assert!(parse_u16("999999".to_string()).is_err());
}

#[test]
fn parse_u16_accepts_leading_zeros() {
    assert_eq!(parse_u16("000042".to_string()), Ok(42));
}

fn action(t: LayoutActionType, maps: Vec<MapId>, change_to: &str) -> LayoutAction {
    LayoutAction { action: t, maps, change_to: change_to.to_string() }
}

#[test]
fn plan_collects_maps_and_layouts() {
    // Two maps on layouts 5 and 6; a Nothing action spares layout 5; a
    // Delete action adds one more map; Change and Clear actions queue
    // header updates.
    let maps = vec![
        MapIdLayout { group: 1, index: 1, layout: 5 },
        MapIdLayout { group: 2, index: 2, layout: 6 },
    ];
    let actions: Vec<(String, LayoutAction)> = vec![
        ("5".to_string(), action(LayoutActionType::Nothing, vec![], "")),
        ("7".to_string(), action(LayoutActionType::Change, vec![map_id(3, 3)], "9")),
        ("8".to_string(), action(LayoutActionType::Delete, vec![map_id(4, 4)], "")),
        ("6".to_string(), action(LayoutActionType::Clear, vec![map_id(5, 5)], "")),
    ];
    let plan = plan_map_deletions(&maps, &actions).unwrap();
    assert_eq!(
        plan.maps_to_delete,
        vec![map_id(1, 1), map_id(2, 2), map_id(4, 4)]
    );
    assert_eq!(plan.maps_to_update.len(), 2);
    assert_eq!(plan.maps_to_update[0].0, 9);
    assert_eq!(plan.maps_to_update[0].1, vec![map_id(3, 3)]);
    assert_eq!(plan.maps_to_update[1].0, 0);
    assert_eq!(plan.maps_to_update[1].1, vec![map_id(5, 5)]);
    assert_eq!(plan.layouts_to_delete, vec![6]);
}

#[test]
fn plan_keeps_shared_layout_once() {
    // Two maps on the same layout: the layout appears once.
    let maps = vec![
        MapIdLayout { group: 1, index: 1, layout: 9 },
        MapIdLayout { group: 1, index: 2, layout: 9 },
    ];
    let actions: Vec<(String, LayoutAction)> = vec![];
    let plan = plan_map_deletions(&maps, &actions).unwrap();
    assert_eq!(plan.maps_to_delete, vec![map_id(1, 1), map_id(1, 2)]);
    assert_eq!(plan.layouts_to_delete, vec![9]);
    assert!(plan.maps_to_update.is_empty());
}

#[test]
fn plan_fails_on_bad_change_numeral() {
    let maps = vec![MapIdLayout { group: 1, index: 1, layout: 5 }];
    let actions: Vec<(String, LayoutAction)> = vec![
        ("5".to_string(), action(LayoutActionType::Change, vec![map_id(2, 2)], "abc")),
    ];
    assert!(plan_map_deletions(&maps, &actions).is_err());
}

#[test]
fn plan_fails_on_bad_nothing_key() {
    let maps = vec![MapIdLayout { group: 1, index: 1, layout: 5 }];
    let actions: Vec<(String, LayoutAction)> = vec![
        ("five".to_string(), action(LayoutActionType::Nothing, vec![], "")),
    ];
    assert!(plan_map_deletions(&maps, &actions).is_err());
}

#[test]
fn plan_spares_only_named_layouts() {
    // A Nothing action for a layout nobody deletes changes nothing.
    let maps = vec![MapIdLayout { group: 1, index: 1, layout: 5 }];
    let actions: Vec<(String, LayoutAction)> = vec![
        ("77".to_string(), action(LayoutActionType::Nothing, vec![], "")),
    ];
    let plan = plan_map_deletions(&maps, &actions).unwrap();
    assert_eq!(plan.layouts_to_delete, vec![5]);
}

fn tile_counting(from: u8) -> [[u8; 8]; 8] {
    let mut t: [[u8; 8]; 8] = [[0; 8]; 8];
    let mut y: usize = 0;
    while y < 8 {
        let mut x: usize = 0;
        while x < 8 {
            t[y][x] = from.wrapping_add((y * 8 + x) as u8);
            x += 1;
        }
        y += 1;
    }
    t
}

#[test]
fn prepare_anims_flattens_frames() {
    // One animation with one frame of two tiles: the exported graphics are
    // the 128 pixel bytes laid out tile after tile, row-major in each.
    let anims = TilesetAnimationList {
        animations: vec![TilesetAnimation {
            start_tile: 40,
            start_time: 3,
            interval: 8,
            frame_graphics: vec![AnimationFrame {
                tiles: vec![tile_counting(0), tile_counting(100)],
            }],
        }],
        max_frames: 1,
    };
    let exported = prepare_anims(&anims);
    assert_eq!(exported.len(), 1);
    assert_eq!(exported[0].start_tile, 40);
    assert_eq!(exported[0].start_time, 3);
    assert_eq!(exported[0].interval, 8);
    assert_eq!(exported[0].graphics.len(), 1);
    let bytes = &exported[0].graphics[0];
    assert_eq!(bytes.len(), 128);
    let mut k: usize = 0;
    while k < 64 {
        assert_eq!(bytes[k], k as u8);
        assert_eq!(bytes[64 + k], 100u8.wrapping_add(k as u8));
        k += 1;
    }
}

#[test]
fn prepare_anims_keeps_animation_order() {
    let anims = TilesetAnimationList {
        animations: vec![
            TilesetAnimation {
                start_tile: 1,
                start_time: 0,
                interval: 16,
                frame_graphics: vec![],
            },
            TilesetAnimation {
                start_tile: 2,
                start_time: 4,
                interval: 32,
                frame_graphics: vec![AnimationFrame { tiles: vec![] }],
            },
        ],
        max_frames: 2,
    };
    let exported = prepare_anims(&anims);
    assert_eq!(exported.len(), 2);
    assert_eq!(exported[0].start_tile, 1);
    assert!(exported[0].graphics.is_empty());
    assert_eq!(exported[1].start_tile, 2);
    assert_eq!(exported[1].graphics.len(), 1);
    assert!(exported[1].graphics[0].is_empty());
}
