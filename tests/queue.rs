use nxm_music::{FxIndexMap, Queue, Track, TrackId};

fn track(id: TrackId) -> Track {
    Track {
        id,
        artist: format!("artist {id}"),
        title: format!("title {id}"),
        filepath: format!("/music/{id}.flac"),
    }
}

fn library(ids: &[TrackId]) -> FxIndexMap<TrackId, Track> {
    let mut m: FxIndexMap<TrackId, Track> = FxIndexMap::default();
    for &id in ids {
        m.insert(id, track(id));
    }
    m
}

#[test]
fn current_of_fresh_queue_is_first_track() {
    let mut q = Queue::new(&library(&[10, 20, 30]));
    assert_eq!(q.curr(), Some(10));
    assert_eq!(q.curr(), Some(10));
}

#[test]
fn current_of_empty_queue_is_none() {
    let mut q = Queue::new(&library(&[]));
    assert_eq!(q.curr(), None);
    assert_eq!(q.next(), None);
    assert_eq!(q.peek_next(), None);
    assert_eq!(q.track_at(0), None);
}

#[test]
fn next_walks_and_wraps() {
    let mut q = Queue::new(&library(&[1, 2, 3]));
    assert_eq!(q.curr(), Some(1));
    assert_eq!(q.next(), Some(2));
    assert_eq!(q.next(), Some(3));
    assert_eq!(q.next(), Some(1));
    assert_eq!(q.curr(), Some(1));
}

#[test]
fn peek_next_does_not_move_and_stops_at_end() {
    let mut q = Queue::new(&library(&[1, 2, 3]));
    assert_eq!(q.peek_next(), Some(2));
    assert_eq!(q.curr(), Some(1));
    q.next();
    q.next();
    assert_eq!(q.curr(), Some(3));
    assert_eq!(q.peek_next(), None);
}

#[test]
fn track_at_follows_view_order() {
    let q = Queue::new(&library(&[7, 8, 9]));
    assert_eq!(q.track_at(0), Some(7));
    assert_eq!(q.track_at(2), Some(9));
    assert_eq!(q.track_at(3), None);
}

#[test]
fn next_cycle_visits_every_track_once_after_shuffle() {
    let ids: Vec<TrackId> = (100..112).collect();
    let mut q = Queue::new(&library(&ids));
    q.shuffle();
    let start = q.curr().unwrap();
    let mut seen = Vec::new();
    for _ in 0..ids.len() {
        seen.push(q.next().unwrap());
    }
    assert_eq!(*seen.last().unwrap(), start);
    let mut sorted = seen.clone();
    sorted.sort();
    assert_eq!(sorted, ids);
}

#[test]
fn shuffle_keeps_tracks_and_cursor_track() {
    let ids: Vec<TrackId> = (1..=20).collect();
    let mut q = Queue::new(&library(&ids));
    q.next();
    q.next();
    let before = q.curr();
    q.shuffle();
    assert_eq!(q.curr(), before);
    let mut view: Vec<TrackId> = (0..20).map(|i| q.track_at(i).unwrap()).collect();
    view.sort();
    assert_eq!(view, ids);
}

#[test]
fn shuffle_with_given_draws() {
    let mut q = Queue::new(&library(&[1, 2, 3, 4]));
    // i = 3 swaps with 0, i = 2 swaps with 2, i = 1 swaps with 0, i = 0 stays.
    q.shuffle_with(&vec![0, 0, 2, 0]);
    let view: Vec<TrackId> = (0..4).map(|i| q.track_at(i).unwrap()).collect();
    assert_eq!(view, vec![2, 4, 3, 1]);
    // The cursor stayed on track 1, now last: next wraps to the first entry.
    assert_eq!(q.curr(), Some(1));
    assert_eq!(q.next(), Some(2));
}

#[test]
fn shuffle_is_uniform_over_orderings() {
    let trials = 60_000;
    let mut counts = std::collections::HashMap::new();
    for _ in 0..trials {
        let mut q = Queue::new(&library(&[1, 2, 3]));
        q.shuffle();
        let view: Vec<TrackId> = (0..3).map(|i| q.track_at(i).unwrap()).collect();
        *counts.entry(view).or_insert(0usize) += 1;
    }
    assert_eq!(counts.len(), 6);
    let expected = trials as f64 / 6.0;
    for (_, c) in counts {
        let dev = (c as f64 - expected).abs() / expected;
        assert!(dev < 0.05, "ordering frequency off by {dev}");
    }
}

#[test]
fn remove_by_uuid_drops_all_occurrences() {
    let mut q = Queue::new(&library(&[1, 2, 3, 4]));
    assert_eq!(q.remove_by_uuid(3), Some(vec![2]));
    let view: Vec<TrackId> = (0..3).map(|i| q.track_at(i).unwrap()).collect();
    assert_eq!(view, vec![1, 2, 4]);
    assert_eq!(q.track_at(3), None);
    assert_eq!(q.remove_by_uuid(3), None);
    assert_eq!(q.remove_by_uuid(99), None);
}

#[test]
fn remove_by_uuid_moves_cursor_to_next_remaining() {
    let mut q = Queue::new(&library(&[1, 2, 3]));
    q.next();
    assert_eq!(q.curr(), Some(2));
    q.remove_by_uuid(2);
    assert_eq!(q.curr(), Some(3));
    q.remove_by_uuid(3);
    assert_eq!(q.curr(), Some(1));
    q.remove_by_uuid(1);
    assert_eq!(q.curr(), None);
    assert_eq!(q.next(), None);
}

#[test]
fn remove_by_uuid_keeps_cursor_on_surviving_track() {
    let mut q = Queue::new(&library(&[1, 2, 3]));
    q.next();
    q.next();
    assert_eq!(q.curr(), Some(3));
    q.remove_by_uuid(1);
    assert_eq!(q.curr(), Some(3));
    assert_eq!(q.track_at(1), Some(3));
}
