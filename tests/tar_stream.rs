use dataset_inspector::error::AppError;
use dataset_inspector::paths::normalize_member_path_str;
use dataset_inspector::tar::{
    padding_after, parse_pax_path, parse_tar_octal, parse_tar_string, parse_ustar_path,
    tar_entries_in, TarDecoder, TarStep,
};

fn header(name: &str, size: u64, typeflag: u8, prefix: &str) -> Vec<u8> {
    let mut h = vec![0u8; 512];
    h[..name.len()].copy_from_slice(name.as_bytes());
    let size_field = format!("{:011o}\0", size);
    h[124..136].copy_from_slice(size_field.as_bytes());
    h[156] = typeflag;
    h[345..345 + prefix.len()].copy_from_slice(prefix.as_bytes());
    h
}

fn push_entry(out: &mut Vec<u8>, name: &str, data: &[u8], typeflag: u8) {
    out.extend_from_slice(&header(name, data.len() as u64, typeflag, ""));
    out.extend_from_slice(data);
    let pad = (512 - data.len() % 512) % 512;
    out.extend(std::iter::repeat(0u8).take(pad));
}

fn finish(out: &mut Vec<u8>) {
    out.extend(std::iter::repeat(0u8).take(1024));
}

fn paths(data: &[u8]) -> Vec<String> {
    tar_entries_in(data, false)
        .unwrap()
        .into_iter()
        .map(|m| m.path)
        .collect()
}

#[test]
fn long_name_applies_once_then_reverts() {
    let long = format!("{}/file.txt", "d".repeat(150));
    let mut t = Vec::new();
    push_entry(&mut t, "././@LongLink", format!("{long}\0").as_bytes(), b'L');
    push_entry(&mut t, "truncated-name", b"abc", b'0');
    push_entry(&mut t, "after.txt", b"xy", b'0');
    finish(&mut t);
    assert_eq!(paths(&t), vec![long, "after.txt".to_string()]);
}

#[test]
fn pax_path_applies_once_and_beats_long_name() {
    let pax_path = format!("./{}/sample.json", "p".repeat(120));
    let record = format!("{} path={}\n", pax_path.len() + 12, pax_path);
    let mut t = Vec::new();
    push_entry(&mut t, "././@LongLink", b"long-name-loses\0", b'L');
    push_entry(&mut t, "PaxHeader", record.as_bytes(), b'x');
    push_entry(&mut t, "short", b"1", b'0');
    push_entry(&mut t, "next.bin", b"2", b'0');
    finish(&mut t);
    let expected = pax_path.trim_start_matches("./").to_string();
    assert_eq!(paths(&t), vec![expected, "next.bin".to_string()]);
}

#[test]
fn ustar_prefix_joins_name() {
    let mut t = Vec::new();
    t.extend_from_slice(&header("leaf.txt", 0, b'0', "some/prefix"));
    finish(&mut t);
    assert_eq!(paths(&t), vec!["some/prefix/leaf.txt".to_string()]);
}

#[test]
fn directories_are_skipped_or_listed() {
    let mut t = Vec::new();
    push_entry(&mut t, "dir/", b"", b'5');
    push_entry(&mut t, "dir/a.txt", b"a", b'0');
    finish(&mut t);
    assert_eq!(paths(&t), vec!["dir/a.txt".to_string()]);
    let listed = tar_entries_in(&t, true).unwrap();
    assert_eq!(listed.len(), 2);
    assert!(listed[0].is_dir);
    assert_eq!(listed[0].path, "dir/");
}

#[test]
fn one_zero_block_then_end_of_stream_is_terminal() {
    let mut t = Vec::new();
    push_entry(&mut t, "a.txt", b"hello", b'0');
    t.extend(std::iter::repeat(0u8).take(512));
    assert_eq!(paths(&t), vec!["a.txt".to_string()]);
}

#[test]
fn truncated_data_is_an_error() {
    let mut t = Vec::new();
    t.extend_from_slice(&header("big.bin", 4096, b'0', ""));
    t.extend_from_slice(&[1u8; 100]);
    assert!(matches!(tar_entries_in(&t, false), Err(AppError::Invalid(_))));
}

#[test]
fn oversized_long_name_is_refused() {
    let mut d = TarDecoder::new(false);
    let h = header("././@LongLink", 2 * 1024 * 1024, b'L', "");
    assert!(matches!(d.on_header(Some(&h)), Err(AppError::Invalid(_))));
}

#[test]
fn decoder_asks_for_meta_payload() {
    let mut d = TarDecoder::new(false);
    let h = header("././@LongLink", 10, b'L', "");
    match d.on_header(Some(&h)).unwrap() {
        TarStep::ReadMeta(n) => assert_eq!(n, 10),
        other => panic!("unexpected step {:?}", other),
    }
    d.accept_meta(b"x/y/z.txt\0");
    let e = header("ignored", 3, b'0', "");
    match d.on_header(Some(&e)).unwrap() {
        TarStep::Entry(m) => {
            assert_eq!(m.path, "x/y/z.txt");
            assert_eq!(m.size, 3);
        }
        other => panic!("unexpected step {:?}", other),
    }
    assert!(matches!(d.on_header(None).unwrap(), TarStep::End));
}

#[test]
fn octal_fields() {
    assert_eq!(parse_tar_octal(b"0000644\0\0\0\0\0"), Some(420));
    assert_eq!(parse_tar_octal(b"   17 \0"), Some(15));
    assert_eq!(parse_tar_octal(b"\0\0\0"), Some(0));
    assert_eq!(parse_tar_octal(b"    "), Some(0));
    assert_eq!(parse_tar_octal(b"+7"), Some(7));
    assert_eq!(parse_tar_octal(b"0009"), None);
    assert_eq!(parse_tar_octal(b"7 7"), Some(63));
    assert_eq!(parse_tar_octal(b"7777777777777777777777777"), None);
}

#[test]
fn text_fields_and_pax_records() {
    assert_eq!(parse_tar_string(b"  name.txt \0garbage", 0, 19), "name.txt");
    assert_eq!(parse_pax_path(b"20 mtime=1.5\n30 path=deep/dir/file.txt\n"), Some("deep/dir/file.txt".to_string()));
    assert_eq!(parse_pax_path(b"12 path=\n"), None);
    assert_eq!(parse_pax_path(b"10 size=4\n"), None);
    let h = header("n.txt", 0, b'0', "pre");
    assert_eq!(parse_ustar_path(&h), "pre/n.txt");
}

#[test]
fn padding_to_block_boundary() {
    assert_eq!(padding_after(0), 0);
    assert_eq!(padding_after(1), 511);
    assert_eq!(padding_after(512), 0);
    assert_eq!(padding_after(513), 511);
}

#[test]
fn member_paths_are_normalized() {
    assert_eq!(normalize_member_path_str("  ./a\\b.txt "), "a/b.txt");
    assert_eq!(normalize_member_path_str("././//x"), "x");
    assert_eq!(normalize_member_path_str("/abs/p"), "abs/p");
}

#[test]
fn stream_ending_inside_a_header_is_truncated() {
    let mut t = Vec::new();
    push_entry(&mut t, "a.txt", b"hello", b'0');
    t.extend_from_slice(&[b'x'; 100]);
    assert!(matches!(tar_entries_in(&t, false), Err(AppError::Invalid(_))));
    let mut d = TarDecoder::new(false);
    assert!(matches!(d.on_header(Some(&[1u8; 300])), Err(AppError::Invalid(_))));
    let mut clean = TarDecoder::new(false);
    assert!(matches!(clean.on_header(None).unwrap(), TarStep::End));
}

#[test]
fn normalized_paths_have_no_root_prefix() {
    assert_eq!(normalize_member_path_str("/./a"), "a");
    assert_eq!(normalize_member_path_str("\\a\\b"), "a/b");
    assert_eq!(normalize_member_path_str(".\\x/y"), "x/y");
    assert_eq!(normalize_member_path_str("./../z"), "../z");
}
