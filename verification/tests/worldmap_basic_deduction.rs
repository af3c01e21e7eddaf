use fhtw_roboter_wettsammeln::{WorldMap, WorldPosition};

#[test]
fn worldmap_basic_deduction_worldmap_basic_deduction() {
    let mut map = WorldMap::new(5, 5);
    assert_eq!(map.randomize_fields(5), Ok(()));
    assert_eq!(map.deduct_score_at(&WorldPosition::new(&map, 2, 2)), 1);
}
