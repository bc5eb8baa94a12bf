use difix::cache::Cache;

#[test]
fn first_hit_misses_and_later_hits_find() {
    let mut cache = Cache::new();
    assert!(!cache.hit(&7));
    assert!(cache.hit(&7));
    assert!(cache.hit(&7));
}

#[test]
fn keys_do_not_disturb_each_other() {
    let mut cache = Cache::new();
    assert!(!cache.hit(&1));
    assert!(!cache.hit(&2));
    assert!(cache.hit(&1));
    assert!(!cache.hit(&0));
    assert!(!cache.hit(&u64::MAX));
    assert!(cache.hit(&2));
    assert!(cache.hit(&u64::MAX));
    assert!(cache.hit(&0));
}

#[test]
fn a_key_is_absent_until_it_is_hit() {
    let mut cache = Cache::new();
    for key in 0..100u64 {
        if key != 42 {
            cache.hit(&key);
        }
    }
    assert!(!cache.hit(&42));
    assert!(cache.hit(&42));
}
