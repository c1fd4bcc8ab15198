use std::io::Write;

use dataset_inspector::error::AppError;
use dataset_inspector::inflate::{inflate_deflate_with_limit, DeflatePreview};
use dataset_inspector::zip::{
    central_dir_range, check_export_entry, check_preview_entry, decode_entry_bytes,
    entry_data_range, entry_data_start, find_zip_entry, find_zip_eocd, local_header_data_offset,
    locate_eocd_step, parse_central_directory_entries, parse_zip64_extra, plan_preview, read_eocd,
    read_zip64_eocd, read_zip64_locator, CentralDirPlan, EocdProgress, PreviewPlan,
    ZipCentralDirectory, ZipEntryIndex, ZipIndex,
};

fn deflate(data: &[u8]) -> Vec<u8> {
    let mut enc = flate2::write::DeflateEncoder::new(Vec::new(), flate2::Compression::default());
    enc.write_all(data).unwrap();
    enc.finish().unwrap()
}

struct Spec {
    name: &'static str,
    method: u16,
    content: Vec<u8>,
    zip64_sizes: bool,
}

fn u16le(v: &mut Vec<u8>, x: u16) {
    v.extend_from_slice(&x.to_le_bytes());
}
fn u32le(v: &mut Vec<u8>, x: u32) {
    v.extend_from_slice(&x.to_le_bytes());
}

/// Builds an archive; returns it with the start and length of its central directory.
fn build_zip(specs: &[Spec]) -> (Vec<u8>, usize, usize) {
    let mut out = Vec::new();
    let mut central = Vec::new();
    for s in specs {
        let stored = if s.method == 8 { deflate(&s.content) } else { s.content.clone() };
        let offset = out.len() as u32;
        u32le(&mut out, 0x04034b50);
        u16le(&mut out, 20);
        u16le(&mut out, 0);
        u16le(&mut out, s.method);
        u16le(&mut out, 0);
        u16le(&mut out, 0);
        u32le(&mut out, 0);
        u32le(&mut out, stored.len() as u32);
        u32le(&mut out, s.content.len() as u32);
        u16le(&mut out, s.name.len() as u16);
        u16le(&mut out, 3);
        out.extend_from_slice(s.name.as_bytes());
        out.extend_from_slice(&[9, 9, 9]);
        out.extend_from_slice(&stored);

        let mut extra = Vec::new();
        if s.zip64_sizes {
            u16le(&mut extra, 1);
            u16le(&mut extra, 16);
            extra.extend_from_slice(&(s.content.len() as u64).to_le_bytes());
            extra.extend_from_slice(&(stored.len() as u64).to_le_bytes());
        }
        u32le(&mut central, 0x02014b50);
        u16le(&mut central, 45);
        u16le(&mut central, 45);
        u16le(&mut central, 0);
        u16le(&mut central, s.method);
        u16le(&mut central, 0);
        u16le(&mut central, 0);
        u32le(&mut central, 0);
        u32le(&mut central, if s.zip64_sizes { 0xFFFF_FFFF } else { stored.len() as u32 });
        u32le(&mut central, if s.zip64_sizes { 0xFFFF_FFFF } else { s.content.len() as u32 });
        u16le(&mut central, s.name.len() as u16);
        u16le(&mut central, extra.len() as u16);
        u16le(&mut central, 0);
        u16le(&mut central, 0);
        u16le(&mut central, 0);
        u32le(&mut central, 0);
        u32le(&mut central, offset);
        central.extend_from_slice(s.name.as_bytes());
        central.extend_from_slice(&extra);
    }
    let cd_start = out.len();
    out.extend_from_slice(&central);
    let cd_len = central.len();
    u32le(&mut out, 0x06054b50);
    u16le(&mut out, 0);
    u16le(&mut out, 0);
    u16le(&mut out, specs.len() as u16);
    u16le(&mut out, specs.len() as u16);
    u32le(&mut out, cd_len as u32);
    u32le(&mut out, cd_start as u32);
    u16le(&mut out, 0);
    (out, cd_start, cd_len)
}

fn specs() -> Vec<Spec> {
    vec![
        Spec { name: "a.txt", method: 0, content: b"hello stored".to_vec(), zip64_sizes: false },
        Spec { name: "dir/b.json", method: 8, content: br#"{"k": [1, 2, 3, 4, 5, 6, 7, 8]}"#.repeat(20), zip64_sizes: false },
        Spec { name: "big/c.bin", method: 0, content: (0..200u8).collect(), zip64_sizes: true },
        Spec { name: "d.txt", method: 8, content: b"deflated and zip64".repeat(30), zip64_sizes: true },
        Spec { name: "dir/", method: 0, content: Vec::new(), zip64_sizes: false },
    ]
}

fn index_of(zip: &[u8]) -> Vec<ZipEntryIndex> {
    let i = match locate_eocd_step(zip, 1024 * 1024) {
        EocdProgress::Found(i) => i,
        other => panic!("no end record: {:?}", other),
    };
    let cd = match read_eocd(zip, i, 0).unwrap() {
        CentralDirPlan::Direct(cd) => cd,
        other => panic!("unexpected plan {:?}", other),
    };
    let (s, e) = central_dir_range(&cd).unwrap();
    parse_central_directory_entries(&zip[s as usize..=e as usize]).unwrap()
}

#[test]
fn zip_round_trip_index_and_extract() {
    let specs = specs();
    let (zip, _, _) = build_zip(&specs);
    let entries = index_of(&zip);
    assert_eq!(entries.len(), specs.len());
    for (e, s) in entries.iter().zip(specs.iter()) {
        let stored_len = if s.method == 8 { deflate(&s.content).len() } else { s.content.len() } as u64;
        assert_eq!(e.name, s.name);
        assert_eq!(e.method, s.method);
        assert_eq!(e.uncompressed_size, s.content.len() as u64);
        assert_eq!(e.compressed_size, stored_len);
        assert_eq!(e.is_dir, s.name.ends_with('/'));
        if e.is_dir {
            continue;
        }
        let off = e.local_header_offset as usize;
        let local = &zip[off..(off + 64).min(zip.len())];
        let start = entry_data_start(e, local).unwrap();
        let (a, b) = entry_data_range(start, e.compressed_size).unwrap();
        let raw = zip[a as usize..=b as usize].to_vec();
        let bytes = decode_entry_bytes(e.method, raw, 1 << 20).unwrap();
        assert_eq!(bytes, s.content);
    }
}

#[test]
fn zip64_location_is_followed() {
    let mut f = vec![0u8; 100];
    let zip64_at = f.len() as u64;
    u32le(&mut f, 0x06064b50);
    f.extend_from_slice(&[0u8; 28]);
    f.extend_from_slice(&7u64.to_le_bytes());
    f.extend_from_slice(&300u64.to_le_bytes());
    f.extend_from_slice(&5000u64.to_le_bytes());
    let locator_at = f.len() as u64;
    u32le(&mut f, 0x07064b50);
    u32le(&mut f, 0);
    f.extend_from_slice(&zip64_at.to_le_bytes());
    u32le(&mut f, 1);
    let eocd_at = f.len();
    u32le(&mut f, 0x06054b50);
    u16le(&mut f, 0);
    u16le(&mut f, 0);
    u16le(&mut f, 0xFFFF);
    u16le(&mut f, 0xFFFF);
    u32le(&mut f, 0xFFFF_FFFF);
    u32le(&mut f, 0xFFFF_FFFF);
    u16le(&mut f, 0);
    assert_eq!(find_zip_eocd(&f), Some(eocd_at));
    let (s, e) = match read_eocd(&f, eocd_at, 0).unwrap() {
        CentralDirPlan::NeedZip64Locator(s, e) => (s, e),
        other => panic!("unexpected plan {:?}", other),
    };
    assert_eq!((s, e), (locator_at, eocd_at as u64 - 1));
    let (zs, ze) = read_zip64_locator(&f[s as usize..=e as usize]).unwrap();
    assert_eq!((zs, ze), (zip64_at, zip64_at + 55));
    let cd = read_zip64_eocd(&f[zs as usize..=ze as usize]).unwrap();
    assert_eq!(cd, ZipCentralDirectory { total_entries: 7, central_dir_size: 300, central_dir_offset: 5000 });
    assert!(matches!(read_zip64_locator(&[0u8; 20]), Err(AppError::Invalid(_))));
    assert!(matches!(read_zip64_eocd(&[0u8; 10]), Err(AppError::Invalid(_))));
}

fn eocd_bytes(comment_len: u16) -> Vec<u8> {
    let mut v = Vec::new();
    u32le(&mut v, 0x06054b50);
    v.extend_from_slice(&[0u8; 16]);
    u16le(&mut v, comment_len);
    v
}

#[test]
fn eocd_at_end_of_initial_tail() {
    let mut tail = vec![0u8; 1024 * 1024 - 22];
    tail.extend_from_slice(&eocd_bytes(0));
    assert_eq!(tail.len(), 1024 * 1024);
    assert_eq!(find_zip_eocd(&tail), Some(1024 * 1024 - 22));
    assert_eq!(locate_eocd_step(&tail, 1024 * 1024), EocdProgress::Found(1024 * 1024 - 22));
}

#[test]
fn eocd_with_longest_comment_is_found() {
    let mut tail = vec![0u8; 4096];
    tail.extend_from_slice(&eocd_bytes(65535));
    tail.extend(std::iter::repeat(b'c').take(65535));
    assert_eq!(find_zip_eocd(&tail), Some(4096));
}

#[test]
fn eocd_search_doubles_to_eight_mib_then_gives_up() {
    let no_record = vec![0u8; 64];
    let mut len = 1024 * 1024u64;
    let mut tried = vec![len];
    loop {
        match locate_eocd_step(&no_record, len) {
            EocdProgress::Retry(n) => {
                len = n;
                tried.push(n);
            }
            EocdProgress::GiveUp => break,
            EocdProgress::Found(_) => panic!("found a record in zeros"),
        }
    }
    assert_eq!(tried, vec![1 << 20, 2 << 20, 4 << 20, 8 << 20]);
}

#[test]
fn eocd_found_after_doubling() {
    let fetch = |len: u64| -> Vec<u8> {
        if len < 8 << 20 {
            vec![0u8; 32]
        } else {
            let mut t = vec![0u8; 40];
            t.extend_from_slice(&eocd_bytes(0));
            t
        }
    };
    let mut len = 1 << 20;
    let found = loop {
        match locate_eocd_step(&fetch(len), len) {
            EocdProgress::Found(i) => break Some((len, i)),
            EocdProgress::Retry(n) => len = n,
            EocdProgress::GiveUp => break None,
        }
    };
    assert_eq!(found, Some((8 << 20, 40)));
}

#[test]
fn central_directory_ceiling() {
    let ok = ZipCentralDirectory { total_entries: 1, central_dir_size: 10, central_dir_offset: 90 };
    assert_eq!(central_dir_range(&ok).unwrap(), (90, 99));
    let empty = ZipCentralDirectory { total_entries: 0, central_dir_size: 0, central_dir_offset: 0 };
    assert!(matches!(central_dir_range(&empty), Err(AppError::Invalid(_))));
    let huge = ZipCentralDirectory { total_entries: 1, central_dir_size: 65 * 1024 * 1024, central_dir_offset: 0 };
    assert!(matches!(central_dir_range(&huge), Err(AppError::Invalid(_))));
}

#[test]
fn zip64_extra_reads_only_sentineled_fields_in_order() {
    let mut extra = Vec::new();
    u16le(&mut extra, 0x7075);
    u16le(&mut extra, 2);
    extra.extend_from_slice(&[0, 0]);
    u16le(&mut extra, 1);
    u16le(&mut extra, 16);
    extra.extend_from_slice(&111u64.to_le_bytes());
    extra.extend_from_slice(&222u64.to_le_bytes());
    assert_eq!(parse_zip64_extra(&extra, false, true, true).unwrap(), (None, Some(111), Some(222)));
    assert_eq!(parse_zip64_extra(&extra, true, false, false).unwrap(), (Some(111), None, None));
    assert!(matches!(parse_zip64_extra(&extra, true, true, true), Err(AppError::Invalid(_))));
    assert_eq!(parse_zip64_extra(&[], true, true, true).unwrap(), (None, None, None));
}

fn entry(method: u16, flags: u16, csize: u64, usize_: u64, is_dir: bool) -> ZipEntryIndex {
    ZipEntryIndex {
        name: "e".to_string(),
        method,
        flags,
        compressed_size: csize,
        uncompressed_size: usize_,
        local_header_offset: 0,
        is_dir,
    }
}

fn local_header() -> Vec<u8> {
    let mut v = Vec::new();
    u32le(&mut v, 0x04034b50);
    v.extend_from_slice(&[0u8; 22]);
    u16le(&mut v, 4);
    u16le(&mut v, 6);
    v.extend_from_slice(&[0u8; 34]);
    v
}

#[test]
fn deflate_preview_stays_within_output_cap() {
    let data = vec![0u8; 4 * 1024 * 1024];
    let compressed = deflate(&data);
    let e = entry(8, 0, compressed.len() as u64, u64::MAX / 2, false);
    let cap = 64 * 1024;
    let mut p = match plan_preview(&e, &local_header(), cap as u64).unwrap() {
        PreviewPlan::Deflate(p) => p,
        _ => panic!("expected a deflate plan"),
    };
    let base = 40u64;
    while let Some((s, end)) = p.next_range() {
        let a = (s - base) as usize;
        let b = ((end - base) as usize + 1).min(compressed.len());
        p.feed(&compressed[a..b]).unwrap();
        assert!(p.output.len() <= cap);
    }
    assert_eq!(p.output.len(), cap);
    assert!(p.output.iter().all(|b| *b == 0));
}

#[test]
fn deflate_preview_of_short_entry_is_complete() {
    let data = b"short text".to_vec();
    let compressed = deflate(&data);
    let mut p = DeflatePreview::new(0, compressed.len() as u64, 1024, 1 << 20);
    let (s, e) = p.next_range().unwrap();
    p.feed(&compressed[s as usize..=e as usize]).unwrap();
    assert_eq!(p.output, data);
    assert_eq!(p.next_range(), None);
}

#[test]
fn stored_preview_range_is_capped() {
    let e = entry(0, 0, 1000, 1000, false);
    match plan_preview(&e, &local_header(), 100).unwrap() {
        PreviewPlan::Stored(s, end) => assert_eq!((s, end), (40, 139)),
        _ => panic!("expected a stored plan"),
    }
    let small = entry(0, 0, 10, 10, false);
    match plan_preview(&small, &local_header(), 100).unwrap() {
        PreviewPlan::Stored(s, end) => assert_eq!((s, end), (40, 49)),
        _ => panic!("expected a stored plan"),
    }
    assert!(matches!(plan_preview(&entry(8, 0, 0, 0, false), &local_header(), 100).unwrap(), PreviewPlan::Empty));
    assert!(matches!(plan_preview(&entry(12, 0, 5, 5, false), &local_header(), 100), Err(AppError::Invalid(_))));
}

#[test]
fn refused_entries() {
    assert!(matches!(check_preview_entry(&entry(0, 1, 1, 1, false)), Err(AppError::Invalid(_))));
    assert!(matches!(check_preview_entry(&entry(0, 0, 1, 1, true)), Err(AppError::Invalid(_))));
    assert!(check_preview_entry(&entry(0, 2, 1, 1, false)).is_ok());
    assert!(matches!(check_export_entry(&entry(0, 0, 1, 51 * 1024 * 1024, false), 50 * 1024 * 1024), Err(AppError::Invalid(_))));
    assert!(check_export_entry(&entry(8, 0, 10, 20, false), 50).is_ok());
}

#[test]
fn inflate_limit_is_enforced() {
    let compressed = deflate(&vec![7u8; 100_000]);
    assert!(matches!(inflate_deflate_with_limit(&compressed, 1000), Err(AppError::Invalid(_))));
    assert_eq!(inflate_deflate_with_limit(&compressed, 100_000).unwrap(), vec![7u8; 100_000]);
    assert!(matches!(decode_entry_bytes(9, vec![1], 10), Err(AppError::Invalid(_))));
}

#[test]
fn local_header_offsets() {
    assert_eq!(local_header_data_offset(&local_header()).unwrap(), 40);
    assert!(matches!(local_header_data_offset(&[0u8; 29]), Err(AppError::Invalid(_))));
}

#[test]
fn entries_are_found_by_trimmed_name() {
    let (zip, _, _) = build_zip(&specs());
    let index = ZipIndex { entries: index_of(&zip) };
    assert_eq!(find_zip_entry(&index, "  dir/b.json ").unwrap(), 1);
    assert!(matches!(find_zip_entry(&index, "nope"), Err(AppError::Missing(_))));
    assert!(matches!(find_zip_entry(&index, "   "), Err(AppError::Invalid(_))));
}

#[test]
fn incomplete_or_corrupt_deflate_is_refused() {
    let compressed = deflate(&vec![3u8; 10_000]);
    let cut = &compressed[..compressed.len() / 2];
    assert!(matches!(inflate_deflate_with_limit(cut, 1 << 20), Err(AppError::Invalid(_))));
    assert!(matches!(inflate_deflate_with_limit(&[0xff, 0xff, 0xff], 1 << 20), Err(AppError::Invalid(_))));
    assert_eq!(decode_entry_bytes(8, compressed, 10_000).unwrap(), vec![3u8; 10_000]);
}

#[test]
fn deflate_preview_waits_for_more_input() {
    let data: Vec<u8> = (0..200_000u32).map(|i| (i.wrapping_mul(2654435761) >> 13) as u8).collect();
    let compressed = deflate(&data);
    let mut p = DeflatePreview::new(0, compressed.len() as u64, 65536, 8 << 20);
    p.feed(&compressed[..1000]).unwrap();
    assert!(p.output.len() < 65536);
    assert!(data.starts_with(&p.output));
    while let Some((s, e)) = p.next_range() {
        let end = (e as usize + 1).min(compressed.len());
        p.feed(&compressed[s as usize..end]).unwrap();
    }
    assert_eq!(p.output, data[..65536].to_vec());
}

#[test]
fn zip64_values_stay_inside_their_block() {
    let mut extra = Vec::new();
    u16le(&mut extra, 1);
    u16le(&mut extra, 8);
    extra.extend_from_slice(&5u64.to_le_bytes());
    u16le(&mut extra, 0x7075);
    u16le(&mut extra, 4);
    extra.extend_from_slice(&[1, 2, 3, 4]);
    assert_eq!(parse_zip64_extra(&extra, true, false, false).unwrap(), (Some(5), None, None));
    assert!(matches!(parse_zip64_extra(&extra, true, true, false), Err(AppError::Invalid(_))));
}
