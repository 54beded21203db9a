use my_cont_srv::cache::{Content, ReplyCache, CONTENT_CACHE_CAPACITY, TOC_CACHE_CAPACITY};

fn reply(text: &str) -> Content {
    Content { mime: "text/plain".to_string(), bytes: text.as_bytes().to_vec() }
}

fn bytes_of(cache: &mut ReplyCache, key: &str) -> Option<Vec<u8>> {
    cache.get(key).map(|c| c.bytes)
}

#[test]
fn capacities_are_ten_and_two_hundred() {
    assert_eq!(TOC_CACHE_CAPACITY, 10);
    assert_eq!(CONTENT_CACHE_CAPACITY, 200);
}

#[test]
fn get_returns_what_put_stored() {
    let mut cache = ReplyCache::new(2);
    assert!(cache.get("a").is_none());
    cache.put("a".to_string(), Content { mime: "m".to_string(), bytes: vec![1, 2] });
    let found = cache.get("a").unwrap();
    assert_eq!(found.mime, "m");
    assert_eq!(found.bytes, vec![1, 2]);
    let again = cache.get("a").unwrap();
    assert_eq!(again.mime, "m");
    assert_eq!(again.bytes, vec![1, 2]);
    assert!(cache.get("b").is_none());
}

#[test]
fn one_key_more_than_capacity_evicts_the_first_key_only() {
    for capacity in [1usize, 2, 3, 10] {
        let mut cache = ReplyCache::new(capacity);
        for i in 0..=capacity {
            cache.put(format!("k{}", i), reply(&format!("v{}", i)));
        }
        assert!(!cache.contains("k0"));
        for i in 1..=capacity {
            assert_eq!(bytes_of(&mut cache, &format!("k{}", i)), Some(format!("v{}", i).into_bytes()));
        }
    }
}

#[test]
fn toc_cache_keeps_ten_documents() {
    let mut cache = ReplyCache::for_toc();
    for i in 0..11 {
        cache.put(format!("book{}", i), reply("doc"));
    }
    assert!(!cache.contains("book0"));
    assert!(cache.contains("book1"));
    assert!(cache.contains("book10"));
}

#[test]
fn content_cache_keeps_two_hundred_replies() {
    let mut cache = ReplyCache::for_content();
    for i in 0..201 {
        cache.put(format!("r{}", i), reply("x"));
    }
    assert!(!cache.contains("r0"));
    assert!(cache.contains("r1"));
    assert!(cache.contains("r200"));
}

#[test]
fn reading_a_key_promotes_it() {
    let mut cache = ReplyCache::new(2);
    cache.put("a".to_string(), reply("1"));
    cache.put("b".to_string(), reply("2"));
    assert!(cache.get("a").is_some());
    cache.put("c".to_string(), reply("3"));
    assert!(cache.contains("a"));
    assert!(!cache.contains("b"));
    assert!(cache.contains("c"));
}

#[test]
fn contains_does_not_count_as_use() {
    let mut cache = ReplyCache::new(2);
    cache.put("a".to_string(), reply("1"));
    cache.put("b".to_string(), reply("2"));
    assert!(cache.contains("a"));
    cache.put("c".to_string(), reply("3"));
    assert!(!cache.contains("a"));
    assert!(cache.contains("b"));
}

#[test]
fn storing_a_present_key_replaces_and_promotes_without_eviction() {
    let mut cache = ReplyCache::new(2);
    cache.put("a".to_string(), reply("1"));
    cache.put("b".to_string(), reply("2"));
    cache.put("a".to_string(), reply("one"));
    assert_eq!(bytes_of(&mut cache, "b"), Some(b"2".to_vec()));
    cache.put("a".to_string(), reply("uno"));
    cache.put("c".to_string(), reply("3"));
    assert!(!cache.contains("b"));
    assert_eq!(bytes_of(&mut cache, "a"), Some(b"uno".to_vec()));
}

#[test]
fn of_two_stores_under_one_key_the_later_is_kept() {
    let mut cache = ReplyCache::new(4);
    cache.put("k".to_string(), reply("first"));
    cache.put("k".to_string(), reply("second"));
    assert_eq!(bytes_of(&mut cache, "k"), Some(b"second".to_vec()));
    let mut other = ReplyCache::new(4);
    other.put("k".to_string(), reply("second"));
    other.put("k".to_string(), reply("first"));
    assert_eq!(bytes_of(&mut other, "k"), Some(b"first".to_vec()));
}
