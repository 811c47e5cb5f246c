//! Where in the sources the log statements of the firmware stand.

use std::collections::BTreeMap;
use vstd::prelude::*;

verus! {

broadcast use {vstd::std_specs::btree::group_btree_axioms, vstd::laws_cmp::group_laws_cmp};

/// The place of a log statement in the sources of the firmware.
#[derive(Debug, Clone, PartialEq, Eq)]
pub struct Location {
    /// The absolute path of the source file.
    pub file: String,
    /// The line, counted from 1.
    pub line: u64,
    /// The path of the module.
    pub module: String,
}

/// The places of the log statements, each under the index of its statement.
pub type Locations = BTreeMap<u64, Location>;

/// The place of every log statement, or the reason why no place is shown.
#[derive(Debug, PartialEq, Eq)]
pub enum LocationInfo {
    /// Every log statement has its place.
    Complete(Locations),
    /// The firmware has log statements, yet no place is known at all: it was
    /// built without the debug information that tells them.
    Insufficient,
    /// Some log statement has no place. No place is shown then, not even of
    /// the statements that have one.
    Incomplete,
}

/// Every index has its place.
pub open spec fn covers(locations: Map<u64, Location>, indices: Seq<u64>) -> bool {
    forall|i: int| 0 <= i < indices.len() ==> locations.contains_key(#[trigger] indices[i])
}

/// What is to be shown of the places found: all of them where every index of
/// a log statement has one, none otherwise, nor where none was found although
/// the table of log statements is not empty.
pub open spec fn location_info(
    table_is_empty: bool,
    indices: Seq<u64>,
    found: Locations,
) -> LocationInfo {
    if !table_is_empty && found@.len() == 0 {
        LocationInfo::Insufficient
    } else if covers(found@, indices) {
        LocationInfo::Complete(found)
    } else {
        LocationInfo::Incomplete
    }
}

/// A place as contracts speak of it: the path of the file, the line and the
/// path of the module.
pub open spec fn place_view(l: Location) -> (Seq<char>, u64, Seq<char>) {
    (l.file@, l.line, l.module@)
}

/// The places as contracts speak of them.
pub open spec fn places_view(found: Map<u64, Location>) -> Map<u64, (Seq<char>, u64, Seq<char>)> {
    found.map_values(|l: Location| place_view(l))
}

/// What a [`LocationInfo`] holds.
pub ghost enum Shown {
    Complete(Map<u64, (Seq<char>, u64, Seq<char>)>),
    Insufficient,
    Incomplete,
}

impl View for LocationInfo {
    type V = Shown;

    open spec fn view(&self) -> Shown {
        match self {
            LocationInfo::Complete(found) => Shown::Complete(places_view(found@)),
            LocationInfo::Insufficient => Shown::Insufficient,
            LocationInfo::Incomplete => Shown::Incomplete,
        }
    }
}

/// What is to be shown of the places `places`, for a table of log statements
/// that is empty or not and whose statements have the indices `indices`: all
/// the places where every index has one, none otherwise, nor where there is
/// no place at all although the table is not empty.
pub open spec fn shown_of(
    table_is_empty: bool,
    indices: Seq<u64>,
    places: Map<u64, (Seq<char>, u64, Seq<char>)>,
) -> Shown {
    if !table_is_empty && places.len() == 0 {
        Shown::Insufficient
    } else if forall|i: int| 0 <= i < indices.len() ==> places.contains_key(#[trigger] indices[i]) {
        Shown::Complete(places)
    } else {
        Shown::Incomplete
    }
}

/// What is shown of the places found holds what is to be shown of them.
pub proof fn lemma_location_info_view(table_is_empty: bool, indices: Seq<u64>, found: Locations)
    ensures
        location_info(table_is_empty, indices, found)@ == shown_of(
            table_is_empty,
            indices,
            places_view(found@),
        ),
{
    assert(places_view(found@).dom() =~= found@.dom());
}

/// Whether every index has its place.
pub fn covers_all(locations: &Locations, indices: &Vec<u64>) -> (r: bool)
    ensures
        r == covers(locations@, indices@),
{
    let mut i: usize = 0;
    while i < indices.len()
        invariant
            i <= indices@.len(),
            covers(locations@, indices@.take(i as int)),
        decreases indices@.len() - i,
    {
        if !locations.contains_key(&indices[i]) {
            return false;
        }
        assert forall|j: int| 0 <= j < i + 1 implies locations@.contains_key(
            #[trigger] indices@.take(i + 1)[j],
        ) by {
            if j < i {
                assert(indices@.take(i as int)[j] == indices@[j]);
            }
        }
        i += 1;
    }
    assert(indices@.take(i as int) =~= indices@);
    true
}

/// Decides what is to be shown of the places found, for a table of log
/// statements that is empty or not and whose statements have the indices
/// `indices`.
pub fn select_locations(
    table_is_empty: bool,
    indices: &Vec<u64>,
    found: Locations,
) -> (r: LocationInfo)
    ensures
        r == location_info(table_is_empty, indices@, found),
        r@ == shown_of(table_is_empty, indices@, places_view(found@)),
        !covers(found@, indices@) ==> !(r is Complete),
{
    proof {
        lemma_location_info_view(table_is_empty, indices@, found);
    }
    if !table_is_empty && found.len() == 0 {
        LocationInfo::Insufficient
    } else if covers_all(&found, indices) {
        LocationInfo::Complete(found)
    } else {
        LocationInfo::Incomplete
    }
}

/// The places that may be shown, if any.
pub open spec fn shown_places(info: &LocationInfo) -> Option<&Locations> {
    match info {
        LocationInfo::Complete(found) => Some(found),
        _ => None,
    }
}

impl LocationInfo {
    /// The places that may be shown, if any.
    pub fn locations(&self) -> (r: Option<&Locations>)
        ensures
            r == shown_places(self),
    {
        match self {
            LocationInfo::Complete(found) => Some(found),
            _ => None,
        }
    }
}

/// The place of the log statement with the index `index`, where places may
/// be shown and the statement has one.
pub open spec fn place_of(locations: Option<&Locations>, index: u64) -> Option<Location> {
    match locations {
        Some(found) => if found@.contains_key(index) {
            Some(found@[index])
        } else {
            None
        },
        None => None,
    }
}

/// Where one log statement has no place, no place is shown: not even that
/// of a statement that has one.
pub proof fn lemma_missing_place_hides_all(
    table_is_empty: bool,
    indices: Seq<u64>,
    found: Locations,
    missing: int,
    index: u64,
)
    requires
        0 <= missing < indices.len(),
        !found@.contains_key(indices[missing]),
    ensures
        shown_places(&location_info(table_is_empty, indices, found)) is None,
        place_of(shown_places(&location_info(table_is_empty, indices, found)), index) is None,
{
}

/// Looks up the place of a log statement.
pub fn find_location<'a>(locations: Option<&'a Locations>, index: u64) -> (r: Option<&'a Location>)
    ensures
        match r {
            Some(l) => place_of(locations, index) == Some(*l),
            None => place_of(locations, index) is None,
        },
{
    match locations {
        Some(found) => found.get(&index),
        None => None,
    }
}

} // verus!
