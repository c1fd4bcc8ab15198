use dataset_inspector::audio::{a_law_to_i16, decode_sphere_samples, mu_law_to_i16, sphere_coding, SphereCoding};
use dataset_inspector::media_cache::MediaCache;
use dataset_inspector::paths::{
    ext_from_filename, is_media_extension, looks_like_litdata_file, looks_like_mds_shard,
    looks_like_tar, looks_like_wds_shard, looks_like_zip, mime_for_ext, sanitize,
    sanitize_file_name,
};
use dataset_inspector::remote::{
    ext_from_mime, parse_content_range, select_config_split, parse_content_range_total, pick_default_split,
    sanitize_label, validate_repo_segment,
};
use dataset_inspector::sniff::{
    detect_magic_ext, hex_snippet, i64_to_text, is_sphere_file, preview_utf8_text, remote_preview,
    u64_to_text,
};
use dataset_inspector::sniff::guess_ext_from_member;
use dataset_inspector::sphere::parse_sphere_header;
use dataset_inspector::tar::TarEntryMeta;
use dataset_inspector::tar_listing::{read_len, TarListing};
use dataset_inspector::types::{HfConfigSummary, inline_media_response, item_meta, size_u32, zip_entry_summaries};
use dataset_inspector::url::{
    allowed_asset_url, allowed_content_url, extract_record_id, extract_repo_id_from_url,
    is_allowed_zenodo_host, parse_url, record_id_from_content_url,
};
use dataset_inspector::zip::{ZipEntryIndex, ZipIndex};

#[test]
fn file_extensions_and_mime_types() {
    assert_eq!(ext_from_filename(" dir.v2/Clip.MP4 "), Some("mp4".to_string()));
    assert_eq!(ext_from_filename("noext"), None);
    assert_eq!(ext_from_filename("a.tar.gz"), Some("gz".to_string()));
    assert_eq!(ext_from_filename("trailing."), None);
    assert_eq!(mime_for_ext(".WAV"), "audio/wav");
    assert_eq!(mime_for_ext("m4a"), "audio/mp4");
    assert_eq!(mime_for_ext("zip"), "application/octet-stream");
    assert!(is_media_extension("opus"));
    assert!(!is_media_extension("txt"));
}

#[test]
fn archive_name_tests() {
    assert!(looks_like_tar(" Data.TAR.GZ "));
    assert!(looks_like_tar("x.tar.zstd"));
    assert!(!looks_like_tar("x.zip"));
    assert!(looks_like_wds_shard("shard-000.tgz"));
    assert!(!looks_like_wds_shard("shard-000.tar.bz2"));
    assert!(looks_like_mds_shard("shard.00000.MDS.zstd"));
    assert!(looks_like_litdata_file("chunk-0-1.bin"));
    assert!(looks_like_litdata_file("index.json"));
    assert!(looks_like_litdata_file("chunk.bin.zst"));
    assert!(!looks_like_litdata_file("shard.tar.zst"));
    assert!(looks_like_zip("archive.ZIP"));
    assert!(!looks_like_zip("archive.zip.part"));
}

#[test]
fn sanitizers() {
    assert_eq!(sanitize("a/b c.txt"), "a-b-c-txt");
    assert_eq!(sanitize_file_name("a/b c+1.txt"), "a_b_c+1.txt");
    assert_eq!(sanitize_label("org/name.v2"), "org_name_v2");
}

#[test]
fn hex_and_magic() {
    let data: Vec<u8> = (0..100u8).collect();
    let h = hex_snippet(&data);
    assert_eq!(h.len(), 96);
    assert!(h.starts_with("000102"));
    assert_eq!(hex_snippet(&[0xAB, 0x0F]), "ab0f");
    assert!(is_sphere_file(b"NIST_1A\n   1024\n"));
    assert!(!is_sphere_file(b"NIST_1"));
    assert_eq!(detect_magic_ext(b"NIST_1A\n"), Some("sph".to_string()));
    assert_eq!(detect_magic_ext(b"\xff\xfb\x90"), Some("mp3".to_string()));
    assert_eq!(detect_magic_ext(b"hello"), None);
}

#[test]
fn text_previews() {
    assert_eq!(preview_utf8_text(b"caf\xc3"), Some("caf".to_string()));
    assert_eq!(preview_utf8_text(b"\xff\xfe"), None);
    let long = "é".repeat(9000);
    assert_eq!(preview_utf8_text(long.as_bytes()).unwrap().chars().count(), 8192);
    let p = remote_preview(b"plain text", None, 5_000_000_000);
    assert_eq!(p.preview_text, Some("plain text".to_string()));
    assert!(!p.is_binary);
    assert_eq!(p.size, u32::MAX);
    let b = remote_preview(b"\x89PNG\r\n\x1a\n\0\0\0\rIHDR", None, 16);
    assert!(b.is_binary);
    assert_eq!(b.guessed_ext, Some("png".to_string()));
    let named = remote_preview(b"\xff", Some("dat".to_string()), 1);
    assert_eq!(named.guessed_ext, Some("dat".to_string()));
    assert_eq!(named.hex_snippet, "ff");
}

#[test]
fn decimal_text() {
    assert_eq!(u64_to_text(0), "0");
    assert_eq!(u64_to_text(1234), "1234");
    assert_eq!(i64_to_text(i64::MIN), "-9223372036854775808");
    assert_eq!(i64_to_text(-5), "-5");
}

#[test]
fn g711_expansion() {
    assert_eq!(mu_law_to_i16(0xFF), 132);
    assert_eq!(mu_law_to_i16(0x00), -32256);
    assert_eq!(mu_law_to_i16(0x7F), -132);
    assert_eq!(a_law_to_i16(0xD5), 8);
    assert_eq!(a_law_to_i16(0x55), -8);
    assert_eq!(a_law_to_i16(0xAA), 32256);
}

#[test]
fn sphere_payloads() {
    assert_eq!(sphere_coding(None, 2), Some(SphereCoding::Pcm16));
    assert_eq!(sphere_coding(Some("ULAW"), 1), Some(SphereCoding::MuLaw));
    assert_eq!(sphere_coding(Some("pcm,embedded-shorten-v2.00"), 2), None);
    assert_eq!(sphere_coding(Some("alaw"), 2), None);
    assert_eq!(decode_sphere_samples(SphereCoding::Pcm16, false, &[1, 0, 0xff, 0xff, 9]), vec![1, -1]);
    assert_eq!(decode_sphere_samples(SphereCoding::Pcm16, true, &[1, 0]), vec![256]);
    assert_eq!(decode_sphere_samples(SphereCoding::Pcm8, false, &[1, 0xff]), vec![256, -256]);
}

#[test]
fn media_cache_evicts_least_recently_used() {
    let mut c = MediaCache::new(10, 20);
    let put = |c: &mut MediaCache, n: &str, len: usize| {
        c.cache_media(n.to_string(), "wav".to_string(), "audio/wav".to_string(), vec![1u8; len])
    };
    put(&mut c, "a", 8);
    put(&mut c, "b", 8);
    assert!(c.cached_media(&"a".to_string()).is_some());
    put(&mut c, "c", 8);
    let names: Vec<String> = c.entries.iter().map(|e| e.name.clone()).collect();
    assert_eq!(names, vec!["a".to_string(), "c".to_string()]);
    assert_eq!(c.total, 16);
    put(&mut c, "too-big", 11);
    put(&mut c, "empty", 0);
    assert_eq!(c.entries.len(), 2);
    put(&mut c, "a", 3);
    let names: Vec<String> = c.entries.iter().map(|e| e.name.clone()).collect();
    assert_eq!(names, vec!["c".to_string(), "a".to_string()]);
    assert_eq!(c.total, 11);
    assert!(c.cached_media(&"b".to_string()).is_none());
    let hit = c.cached_media(&"c".to_string()).unwrap();
    assert_eq!((hit.mime.as_str(), hit.ext.as_str()), ("audio/wav", "wav"));
    let mut d = MediaCache::new(10, 20);
    put(&mut d, "x", 5);
    put(&mut d, "y", 5);
    put(&mut d, "z", 10);
    let names: Vec<String> = d.entries.iter().map(|e| e.name.clone()).collect();
    assert_eq!(names, vec!["x".to_string(), "y".to_string(), "z".to_string()]);
    put(&mut d, "w", 6);
    let names: Vec<String> = d.entries.iter().map(|e| e.name.clone()).collect();
    assert_eq!(names, vec!["z".to_string(), "w".to_string()]);
}

fn meta(path: &str, size: u64) -> TarEntryMeta {
    TarEntryMeta { path: path.to_string(), size, is_dir: false }
}

#[test]
fn remote_listing_captures_page_members() {
    let mut l = TarListing::new();
    let m = meta("clips/a.wav", 4);
    assert_eq!(l.capture_limit(0, 1, &m), Some(4));
    assert_eq!(l.capture_limit(1, 2, &m), None);
    assert_eq!(read_len(Some(4), &m), 4);
    l.on_entry(m, Some(b"RIFF".to_vec())).unwrap();
    let t = meta("notes.txt", 100_000);
    assert_eq!(l.capture_limit(0, 5, &t), Some(65536));
    assert_eq!(read_len(Some(65536), &t), 65536);
    l.on_entry(t, Some(b"hello".to_vec())).unwrap();
    assert!(l.cached_media(&"clips/a.wav".to_string()).is_some());
    assert!(l.cached_media(&"notes.txt".to_string()).is_none());
    let p = l.cached_preview(&"notes.txt".to_string()).unwrap();
    assert_eq!(p.preview_text, Some("hello".to_string()));
    let page = l.page(1, 5);
    assert_eq!(page.entries.len(), 1);
    assert_eq!(page.entries[0].name, "notes.txt");
    assert!(page.partial);
    l.on_end();
    assert_eq!(l.page(0, 25).num_entries_total, Some(2));
}

#[test]
fn content_ranges() {
    assert_eq!(parse_content_range(" bytes 0-255/8127399532 "), Some((0, 255, 8127399532)));
    assert_eq!(parse_content_range("bytes 0-255/*"), None);
    assert_eq!(parse_content_range("items 0-1/2"), None);
    assert_eq!(parse_content_range_total("bytes 10-20/300"), Some(300));
    assert_eq!(parse_content_range_total("bytes 10-20/*"), None);
    assert_eq!(parse_content_range_total("bytes 10-20"), None);
}

#[test]
fn hosted_dataset_helpers() {
    assert_eq!(ext_from_mime(" Audio/X-WAV "), Some("wav"));
    assert_eq!(ext_from_mime("image/png"), Some("png"));
    assert_eq!(ext_from_mime("text/plain"), None);
    let s = |v: &[&str]| v.iter().map(|x| x.to_string()).collect::<Vec<String>>();
    assert_eq!(pick_default_split(&s(&["test", "train", "validation"])), "train");
    assert_eq!(pick_default_split(&s(&["test", "train_clean", "train_other"])), "train_clean");
    assert_eq!(pick_default_split(&s(&["dev", "test"])), "dev");
    assert_eq!(pick_default_split(&s(&[])), "train");
    assert!(validate_repo_segment("my-org_1.x"));
    assert!(!validate_repo_segment(""));
    assert!(!validate_repo_segment("a/b"));
}

#[test]
fn zenodo_urls() {
    assert!(is_allowed_zenodo_host(" Sandbox.ZENODO.org "));
    assert!(!is_allowed_zenodo_host("zenodo.org.evil.com"));
    let (_, id) = extract_record_id(" https://zenodo.org/records/12345 ").unwrap();
    assert_eq!(id, 12345);
    assert!(extract_record_id("https://example.com/records/1").is_err());
    assert!(extract_record_id("").is_err());
    let u = parse_url("https://zenodo.org/api/records/77/files/data.zip/content").unwrap();
    assert!(allowed_content_url(&u));
    assert_eq!(record_id_from_content_url(&u), Some("77".to_string()));
    let bad = parse_url("https://zenodo.org/api/records/7x/files/data.zip/content").unwrap();
    assert!(!allowed_content_url(&bad));
}

#[test]
fn hugging_face_urls() {
    let u = parse_url("https://huggingface.co/datasets/org/name/tree/main").unwrap();
    assert_eq!(extract_repo_id_from_url(&u), Some("org/name".to_string()));
    let h = parse_url("hf://datasets/org/name@rev/data").unwrap();
    assert_eq!(extract_repo_id_from_url(&h), Some("org/name".to_string()));
    let other = parse_url("https://example.com/datasets/org/name").unwrap();
    assert_eq!(extract_repo_id_from_url(&other), None);
    assert!(allowed_asset_url(&parse_url("https://cdn-lfs.huggingface.co/x").unwrap()));
    assert!(!allowed_asset_url(&parse_url("ftp://huggingface.co/x").unwrap()));
}

#[test]
fn response_builders() {
    let r = inline_media_response(b"hello", "a/b.MP3");
    assert_eq!(r.base64, "aGVsbG8=");
    assert_eq!(inline_media_response(b"\xfb\xff", "x").base64, "+/8=");
    assert_eq!(inline_media_response(b"abc", "x").base64, "YWJj");
    assert_eq!(r.ext, "mp3");
    assert_eq!(r.mime, "audio/mpeg");
    assert_eq!(r.size, 5);
    let n = inline_media_response(b"", "noext");
    assert_eq!(n.ext, "bin");
    assert_eq!(n.mime, "application/octet-stream");
    assert_eq!(size_u32(1 << 40), u32::MAX);
    let item = item_meta(3, 10, 25, &vec![4, 7]);
    assert_eq!(item.total_bytes, 15);
    assert_eq!(item.fields[1].field_index, 1);
    assert_eq!(item.fields[1].size, 7);
    let index = ZipIndex {
        entries: vec![ZipEntryIndex {
            name: "x/".to_string(),
            method: 0,
            flags: 0,
            compressed_size: 0,
            uncompressed_size: 0,
            local_header_offset: 0,
            is_dir: true,
        }],
    };
    let s = zip_entry_summaries(&index);
    assert_eq!(s[0].name, "x/");
    assert!(s[0].is_dir);
}

#[test]
fn sphere_headers() {
    let text = "NIST_1A\n   1024\nchannel_count -i 2\nsample_rate -i 16000\nsample_n_bytes -i 2\nsample_coding -s3 pcm\nsample_byte_format -s2  10\nsample_rate -i 8000\nend_head\n";
    let mut data = text.as_bytes().to_vec();
    data.resize(1024, b' ');
    data.extend_from_slice(&[0, 1, 2, 3]);
    let (h, n) = parse_sphere_header(&data).unwrap();
    assert_eq!(n, 1024);
    assert_eq!(h.channel_count, 2);
    assert_eq!(h.sample_rate, 8000);
    assert_eq!(h.sample_n_bytes, 2);
    assert_eq!(h.sample_coding, Some("pcm".to_string()));
    assert_eq!(h.sample_byte_format, Some("10".to_string()));
    assert!(parse_sphere_header(b"RIFF....").is_err());
    let mut missing = b"NIST_1A\n   64\nchannel_count -i 1\nend_head\n".to_vec();
    missing.resize(64, b' ');
    assert!(parse_sphere_header(&missing).is_err());
    let mut big = b"NIST_1A\n 999999\n".to_vec();
    big.resize(64, b' ');
    assert!(parse_sphere_header(&big).is_err());
}

#[test]
fn member_extensions() {
    assert_eq!(guess_ext_from_member("dir/clip.WAV", b""), Some("wav".to_string()));
    assert_eq!(guess_ext_from_member("dir/noext", b"fLaC"), Some("flac".to_string()));
    assert_eq!(guess_ext_from_member(".hidden", b"RIFF\0\0\0\0WAVE"), Some("wav".to_string()));
    assert_eq!(guess_ext_from_member("plain", b"\x00\x00"), None);
    assert_eq!(guess_ext_from_member("a.b\\c", b""), Some("b\\c".to_string()));
    assert_eq!(guess_ext_from_member("dir.v1/file", b"\x00\x00"), None);
}

#[test]
fn config_and_split_selection() {
    let c = |name: &str, splits: &[&str]| HfConfigSummary {
        config: name.to_string(),
        splits: splits.iter().map(|s| s.to_string()).collect(),
    };
    let configs = vec![c("default", &["test", "train"]), c("extra", &["dev"])];
    assert_eq!(select_config_split(&configs, &None, &None).unwrap(), (0, "train".to_string()));
    assert_eq!(select_config_split(&configs, &Some(" extra ".to_string()), &None).unwrap(), (1, "dev".to_string()));
    assert_eq!(select_config_split(&configs, &Some("".to_string()), &Some("test".to_string())).unwrap(), (0, "test".to_string()));
    assert!(select_config_split(&configs, &Some("nope".to_string()), &None).is_err());
    assert!(select_config_split(&configs, &None, &Some("dev".to_string())).is_err());
    assert!(matches!(select_config_split(&Vec::new(), &None, &None), Err(dataset_inspector::error::AppError::Missing(_))));
}
