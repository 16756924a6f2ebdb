use mo_key_service_core::shim::StorageMirror;

#[test]
fn mirror_serves_reads_and_buffers_writes() {
    let mut m = StorageMirror::new();
    m.put("keyvault", "header", b"h1");
    m.put("keyvault", "record:b", b"vb");
    m.put("keyvault", "record:a", b"va");
    m.put("keyvault", "header", b"h2");
    // Later value wins in the mirror.
    assert_eq!(m.get("keyvault", "header"), Some(b"h2".to_vec()));
    assert_eq!(m.get("keyvault", "record:a"), Some(b"va".to_vec()));
    assert_eq!(m.get("other", "header"), None);
    // Pending writes drain in insertion order, duplicates included.
    let pending = m.drain_pending();
    assert_eq!(pending.len(), 4);
    assert_eq!(pending[0].1, "header");
    assert_eq!(pending[0].2, b"h1".to_vec());
    assert_eq!(pending[3].2, b"h2".to_vec());
    assert_eq!(m.drain_pending().len(), 0);
    // Values survive a drain.
    assert_eq!(m.get("keyvault", "record:b"), Some(b"vb".to_vec()));
}

#[test]
fn mirror_lists_keys_sorted_after_cursor() {
    let mut m = StorageMirror::new();
    m.load("ns", "b", b"2");
    m.load("ns", "a", b"1");
    m.load("ns", "c", b"3");
    m.load("other", "z", b"9");
    let (page, next) = m.list_since("ns", "", 10);
    let keys: Vec<&str> = page.iter().map(|e| e.0.as_str()).collect();
    assert_eq!(keys, vec!["a", "b", "c"]);
    assert_eq!(next, "c");
    let (page2, next2) = m.list_since("ns", "a", 1);
    assert_eq!(page2.len(), 1);
    assert_eq!(page2[0].0, "b");
    assert_eq!(page2[0].1, b"2".to_vec());
    assert_eq!(next2, "b");
    let (page3, _) = m.list_since("ns", "c", 10);
    assert!(page3.is_empty());
}
