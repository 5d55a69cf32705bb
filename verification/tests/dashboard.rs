use tokenj::dashboard::{count_models, push_recent, CacheStatus, RECENT_EVENTS};

fn names(v: &[&str]) -> Vec<String> {
    v.iter().map(|s| s.to_string()).collect()
}

#[test]
fn test_count_models_sorted_by_count() {
    let models = names(&["a", "b", "a", "c", "b", "a"]);
    let counts = count_models(&models);
    assert_eq!(
        counts,
        vec![("a".to_string(), 3), ("b".to_string(), 2), ("c".to_string(), 1)]
    );
}

#[test]
fn test_count_models_ties() {
    let models = names(&["x", "y", "z", "y", "x"]);
    let counts = count_models(&models);
    assert_eq!(counts.len(), 3);
    let mut top: Vec<(String, usize)> = counts[..2].to_vec();
    top.sort();
    assert_eq!(top, vec![("x".to_string(), 2), ("y".to_string(), 2)]);
    assert_eq!(counts[2], ("z".to_string(), 1));
}

#[test]
fn test_count_models_empty() {
    assert!(count_models(&Vec::new()).is_empty());
}

#[test]
fn test_push_recent_newest_first_and_bounded() {
    let mut events: Vec<u32> = Vec::new();
    for i in 0..150u32 {
        push_recent(&mut events, i);
        assert!(events.len() <= RECENT_EVENTS);
    }
    assert_eq!(events.len(), 100);
    assert_eq!(events[0], 149);
    assert_eq!(events[99], 50);
}

#[test]
fn test_cache_status() {
    assert_eq!(CacheStatus::of(10, 0), CacheStatus::Write);
    assert_eq!(CacheStatus::of(10, 5), CacheStatus::Write);
    assert_eq!(CacheStatus::of(0, 5), CacheStatus::Hit);
    assert_eq!(CacheStatus::of(0, 0), CacheStatus::Miss);
    assert_eq!(CacheStatus::Write.label(), "CACHE_WRITE");
    assert_eq!(CacheStatus::Hit.label(), "HIT");
    assert_eq!(CacheStatus::Miss.label(), "MISS");
}
