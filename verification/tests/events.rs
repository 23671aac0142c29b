use std::collections::HashSet;
use tilemap_sync::events::{changed_maps, maps_to_synchronise, AssetEvent};
use tilemap_sync::handle::MapHandle;

const A: MapHandle = MapHandle { id: 11 };
const B: MapHandle = MapHandle { id: 22 };

fn ids(handles: &[MapHandle]) -> HashSet<u128> {
    handles.iter().map(|h| h.id).collect()
}

#[test]
fn no_event_no_change() {
    assert_eq!(changed_maps(&Vec::new()), ids(&[]));
}

#[test]
fn created_then_removed_is_not_changed() {
    let events = vec![AssetEvent::Created { handle: A }, AssetEvent::Removed { handle: A }];
    assert_eq!(changed_maps(&events), ids(&[]));
}

#[test]
fn removed_then_created_is_changed() {
    let events = vec![AssetEvent::Removed { handle: A }, AssetEvent::Created { handle: A }];
    assert_eq!(changed_maps(&events), ids(&[A]));
}

#[test]
fn created_then_modified_is_changed_once() {
    let events = vec![AssetEvent::Created { handle: A }, AssetEvent::Modified { handle: A }];
    let changed = changed_maps(&events);
    assert_eq!(changed.len(), 1);
    assert_eq!(changed, ids(&[A]));
}

#[test]
fn modified_then_removed_is_not_changed() {
    let events = vec![AssetEvent::Modified { handle: A }, AssetEvent::Removed { handle: A }];
    assert_eq!(changed_maps(&events), ids(&[]));
}

#[test]
fn removal_of_one_map_leaves_the_others() {
    let events = vec![
        AssetEvent::Created { handle: A },
        AssetEvent::Created { handle: B },
        AssetEvent::Removed { handle: A },
        AssetEvent::Modified { handle: B },
    ];
    assert_eq!(changed_maps(&events), ids(&[B]));
}

#[test]
fn last_event_of_a_map_decides() {
    let events = vec![
        AssetEvent::Created { handle: A },
        AssetEvent::Removed { handle: A },
        AssetEvent::Modified { handle: A },
        AssetEvent::Removed { handle: B },
        AssetEvent::Created { handle: B },
        AssetEvent::Removed { handle: B },
    ];
    assert_eq!(changed_maps(&events), ids(&[A]));
}

#[test]
fn removal_of_an_unknown_map_is_ignored() {
    let events = vec![AssetEvent::Removed { handle: B }, AssetEvent::Created { handle: A }];
    assert_eq!(changed_maps(&events), ids(&[A]));
}

#[test]
fn a_changed_map_that_is_gone_is_passed_over() {
    let events = vec![AssetEvent::Created { handle: A }, AssetEvent::Modified { handle: B }];
    assert_eq!(maps_to_synchronise(&events, &ids(&[B])), ids(&[B]));
    assert_eq!(maps_to_synchronise(&events, &ids(&[A, B])), ids(&[A, B]));
    assert_eq!(maps_to_synchronise(&events, &ids(&[])), ids(&[]));
}

#[test]
fn a_present_map_is_synchronised_only_if_it_changed() {
    let c = MapHandle { id: 33 };
    let events = vec![
        AssetEvent::Created { handle: A },
        AssetEvent::Removed { handle: A },
        AssetEvent::Removed { handle: B },
        AssetEvent::Created { handle: B },
    ];
    assert_eq!(maps_to_synchronise(&events, &ids(&[A, B, c])), ids(&[B]));
    assert_eq!(maps_to_synchronise(&Vec::new(), &ids(&[A, B, c])), ids(&[]));
}
