use dataset_inspector::samples::{page_params, split_sample_key, ShardScanState, WdsSampleInfo};

fn scan(entries: &[(&str, u64)]) -> ShardScanState {
    let mut s = ShardScanState::new();
    for (p, n) in entries {
        s.on_entry(p.to_string(), *n);
    }
    s.on_end();
    s
}

fn field_names(s: &WdsSampleInfo) -> Vec<String> {
    s.fields.iter().map(|f| f.name.clone()).collect()
}

#[test]
fn webdataset_samples_group_by_key() {
    let s = scan(&[("0001.jpg", 10), ("0001.json", 5), ("0002.png", 7)]);
    let page = s.page(0, 10);
    assert_eq!(page.samples.len(), 2);
    assert_eq!(page.samples[0].key, "0001");
    assert_eq!(page.samples[1].key, "0002");
    assert_eq!(field_names(&page.samples[0]), vec!["jpg", "json"]);
    assert_eq!(field_names(&page.samples[1]), vec!["png"]);
    assert_eq!(page.samples[0].total_bytes, 15);
    assert_eq!(page.samples[0].sample_index, 0);
    assert_eq!(page.samples[1].sample_index, 1);
    assert_eq!(page.num_samples_total, Some(2));
    assert!(!page.partial);
}

#[test]
fn fields_sort_by_name_then_path() {
    let s = scan(&[("k.txt", 1), ("k.JSON", 1), ("k.cls", 1)]);
    let page = s.page(0, 1);
    assert_eq!(field_names(&page.samples[0]), vec!["cls", "json", "txt"]);
}

fn keys(samples: &[WdsSampleInfo]) -> Vec<(String, Vec<String>, u32)> {
    samples
        .iter()
        .map(|s| (s.key.clone(), field_names(s), s.sample_index))
        .collect()
}

#[test]
fn one_by_one_paging_matches_full_scan() {
    let entries = [
        ("a/1.jpg", 1u64),
        ("a/1.txt", 2),
        ("a/2.jpg", 3),
        ("b/2.jpg", 4),
        ("b/2.cls", 5),
        ("c", 6),
    ];
    let full = scan(&entries);
    let all = full.page(0, 100).samples;
    let mut state = ShardScanState::new();
    let mut it = entries.iter();
    let mut collected = Vec::new();
    let mut offset = 0u32;
    loop {
        while state.wants_more(offset + 1, false) {
            match it.next() {
                Some((p, n)) => state.on_entry(p.to_string(), *n),
                None => state.on_end(),
            }
        }
        let page = state.page(offset, 1);
        if page.samples.is_empty() {
            break;
        }
        collected.extend(page.samples);
        offset += 1;
    }
    assert_eq!(keys(&collected), keys(&all));
    assert_eq!(all.len(), 4);
}

#[test]
fn partial_until_the_scan_ends() {
    let mut s = ShardScanState::new();
    s.on_entry("x.a".to_string(), 1);
    s.on_entry("y.a".to_string(), 1);
    let page = s.page(0, 1);
    assert!(page.partial);
    assert_eq!(page.num_samples_total, None);
    assert_eq!(page.samples.len(), 1);
    s.on_end();
    let page = s.page(5, 3);
    assert!(!page.partial);
    assert_eq!(page.num_samples_total, Some(2));
    assert!(page.samples.is_empty());
}

#[test]
fn sample_keys_and_field_names() {
    assert_eq!(split_sample_key("dir/a.b.C"), ("dir/a".to_string(), "b.c".to_string()));
    assert_eq!(split_sample_key("noext"), ("noext".to_string(), "bin".to_string()));
    assert_eq!(split_sample_key(".hidden"), (".hidden".to_string(), "bin".to_string()));
    assert_eq!(split_sample_key("trailing."), ("trailing".to_string(), "bin".to_string()));
    assert_eq!(split_sample_key("d/a.b."), ("d/a".to_string(), "b.".to_string()));
    assert_eq!(split_sample_key("./d/e/x.tar.gz"), ("d/e/x".to_string(), "tar.gz".to_string()));
}

#[test]
fn page_parameters_are_clamped() {
    assert_eq!(page_params(None, None, 200, 5000), (0, 200));
    assert_eq!(page_params(Some(7), Some(0), 200, 5000), (7, 1));
    assert_eq!(page_params(Some(1), Some(9999), 200, 5000), (1, 5000));
}
