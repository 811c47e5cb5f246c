use defmt_print::locations::{
    covers_all, find_location, select_locations, Location, LocationInfo, Locations,
};

fn place(file: &str, line: u64) -> Location {
    Location { file: file.to_string(), line, module: "app".to_string() }
}

fn places(indices: &[u64]) -> Locations {
    indices.iter().map(|i| (*i, place("/work/app/src/main.rs", *i + 1))).collect()
}

#[test]
fn all_places_are_shown_when_every_index_has_one() {
    let found = places(&[1, 2, 5]);
    assert_eq!(LocationInfo::Complete(found.clone()), select_locations(false, &vec![1, 2, 5], found));
    let more = places(&[1, 2, 5, 9]);
    assert_eq!(LocationInfo::Complete(more.clone()), select_locations(false, &vec![5, 1], more));
}

#[test]
fn one_missing_place_hides_all() {
    let found = places(&[1, 2, 5]);
    let info = select_locations(false, &vec![1, 2, 3, 5], found);
    assert_eq!(LocationInfo::Incomplete, info);
    assert_eq!(None, info.locations());
    assert_eq!(None, find_location(info.locations(), 1));
}

#[test]
fn no_place_at_all_is_insufficient() {
    assert_eq!(LocationInfo::Insufficient, select_locations(false, &vec![1], places(&[])));
    assert_eq!(LocationInfo::Insufficient, select_locations(false, &vec![], places(&[])));
    // an empty table asks for no place
    assert_eq!(LocationInfo::Complete(places(&[])), select_locations(true, &vec![], places(&[])));
    assert_eq!(LocationInfo::Incomplete, select_locations(true, &vec![4], places(&[])));
}

#[test]
fn places_are_found_by_index() {
    let found = places(&[1, 2, 5]);
    assert!(covers_all(&found, &vec![2, 1]));
    assert!(covers_all(&found, &vec![]));
    assert!(!covers_all(&found, &vec![2, 4]));
    assert_eq!(Some(&place("/work/app/src/main.rs", 3)), find_location(Some(&found), 2));
    assert_eq!(None, find_location(Some(&found), 3));
    assert_eq!(None, find_location(None, 2));
    let info = LocationInfo::Complete(found.clone());
    assert_eq!(Some(&found), info.locations());
}
