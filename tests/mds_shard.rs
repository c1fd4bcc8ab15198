use dataset_inspector::error::AppError;
use dataset_inspector::mds::{
    compression_kind, decode_scalar_to_text, field_start_offset, is_numeric_column,
    listed_sample_count, mds_guess_ext, parse_sample_offsets, preview_read_len,
    read_variable_sizes, resolve_field, sample_offsets_position, shard_for_filename,
    variable_header_len, FileInfo, MdsShard,
};

fn shard_bytes() -> Vec<u8> {
    let mut v = Vec::new();
    v.extend_from_slice(&3u32.to_le_bytes());
    for off in [0u32, 10, 25, 25] {
        v.extend_from_slice(&off.to_le_bytes());
    }
    v.resize(25, 0);
    v
}

fn pair(file: &[u8], idx: u32) -> (u32, u32) {
    let p = sample_offsets_position(idx) as usize;
    parse_sample_offsets(&file[p..p + 8]).unwrap()
}

#[test]
fn zero_length_sample_and_malformed_field() {
    let mut file = shard_bytes();
    assert_eq!(pair(&file, 2), (25, 25));
    let (begin, end) = pair(&file, 1);
    assert_eq!((begin, end), (10, 25));
    // The variable-size header of sample 1 declares 20 bytes: past offset 25.
    file[10..14].copy_from_slice(&20u32.to_le_bytes());
    let cols = vec![None];
    let header = &file[begin as usize..begin as usize + variable_header_len(&cols)];
    assert!(matches!(resolve_field(begin, end, &cols, header, 0), Err(AppError::MalformedChunk)));
    // Eleven bytes fit exactly.
    file[10..14].copy_from_slice(&11u32.to_le_bytes());
    let header = &file[10..14];
    assert_eq!(resolve_field(begin, end, &cols, header, 0).unwrap(), (14, 11));
}

#[test]
fn reversed_offsets_are_malformed() {
    let mut p = Vec::new();
    p.extend_from_slice(&30u32.to_le_bytes());
    p.extend_from_slice(&20u32.to_le_bytes());
    assert!(matches!(parse_sample_offsets(&p), Err(AppError::MalformedChunk)));
}

#[test]
fn mixed_fixed_and_variable_columns() {
    let cols = vec![Some(4), None, Some(2), None];
    assert_eq!(variable_header_len(&cols), 8);
    let mut header = Vec::new();
    header.extend_from_slice(&7u32.to_le_bytes());
    header.extend_from_slice(&9u32.to_le_bytes());
    let sizes = read_variable_sizes(&cols, &header);
    assert_eq!(sizes, vec![4, 7, 2, 9]);
    assert_eq!(field_start_offset(100, &cols, 0, &sizes).unwrap(), (108, 4));
    assert_eq!(field_start_offset(100, &cols, 3, &sizes).unwrap(), (121, 9));
    assert!(matches!(field_start_offset(100, &cols, 4, &sizes), Err(AppError::Invalid(_))));
    assert!(matches!(resolve_field(100, 129, &cols, &header, 3), Err(AppError::MalformedChunk)));
    assert_eq!(resolve_field(100, 130, &cols, &header, 3).unwrap(), (121, 9));
}

#[test]
fn listing_is_capped() {
    assert_eq!(listed_sample_count(10, 3), 3);
    assert_eq!(listed_sample_count(2, 3), 2);
    assert_eq!(listed_sample_count(100_000, 9_000), 5000);
}

fn shard(raw: &str, zip: Option<&str>) -> MdsShard {
    let info = |b: &str| FileInfo { basename: b.to_string(), bytes: 1, hashes: Vec::new() };
    MdsShard {
        column_encodings: vec!["str".to_string()],
        column_names: vec!["text".to_string()],
        column_sizes: vec![None],
        compression: None,
        format: "mds".to_string(),
        hashes: Vec::new(),
        raw_data: info(raw),
        samples: 1,
        size_limit: None,
        version: 2,
        zip_data: zip.map(info),
    }
}

#[test]
fn shards_are_found_by_file_name() {
    let shards = vec![shard("shard.00000.mds", None), shard("shard.00001.mds", Some("shard.00001.mds.zstd"))];
    assert_eq!(shard_for_filename(&shards, " shard.00001.mds.zstd ").unwrap(), 1);
    assert_eq!(shard_for_filename(&shards, "shard.00000.mds").unwrap(), 0);
    assert!(matches!(shard_for_filename(&shards, "other"), Err(AppError::Missing(_))));
    assert!(matches!(shard_for_filename(&shards, " "), Err(AppError::Invalid(_))));
}

#[test]
fn compression_from_metadata_or_name() {
    assert_eq!(compression_kind(Some(" ZSTD:7 "), "x.mds"), Some("zstd".to_string()));
    assert_eq!(compression_kind(None, "x.mds.zst"), Some("zstd".to_string()));
    assert_eq!(compression_kind(Some("gz"), "x.mds.gz"), None);
}

#[test]
fn extensions_from_encodings() {
    assert_eq!(mds_guess_ext(Some("jpeg"), b"\xff\xd8"), Some("jpg".to_string()));
    assert_eq!(mds_guess_ext(Some(" PIL "), b""), Some("png".to_string()));
    assert_eq!(mds_guess_ext(Some("int32"), b"\x01\0\0\0"), Some("txt".to_string()));
    assert_eq!(mds_guess_ext(Some("bytes"), b"RIFF\0\0\0\0WAVEfmt "), Some("wav".to_string()));
    assert_eq!(mds_guess_ext(Some("bytes"), b"\x00\x01"), Some("bin".to_string()));
    assert_eq!(mds_guess_ext(Some("audio"), b"\x00"), Some("wav".to_string()));
    assert_eq!(mds_guess_ext(Some("audio"), b"fLaC...."), Some("flac".to_string()));
    assert_eq!(mds_guess_ext(Some("image:.webp"), b""), Some("webp".to_string()));
    assert_eq!(mds_guess_ext(Some("custom"), b"some words"), Some("txt".to_string()));
    assert_eq!(mds_guess_ext(None, b"ID3\x03"), Some("mp3".to_string()));
    assert_eq!(mds_guess_ext(None, b"\x89PNG\r\n\x1a\n\0\0\0\rIHDR"), Some("png".to_string()));
}

#[test]
fn scalars_as_text() {
    assert_eq!(decode_scalar_to_text("int32", &[0xff, 0xff, 0xff, 0xff]), Some("-1".to_string()));
    assert_eq!(decode_scalar_to_text(" INT ", &(-1234567890123i64).to_le_bytes()), Some("-1234567890123".to_string()));
    assert_eq!(decode_scalar_to_text("uint16", &[1, 2]), Some("513".to_string()));
    assert_eq!(decode_scalar_to_text("uint64", &u64::MAX.to_le_bytes()), Some("18446744073709551615".to_string()));
    assert_eq!(decode_scalar_to_text("int8", &[0x80]), Some("-128".to_string()));
    assert_eq!(decode_scalar_to_text("uint8", &[200]), Some("200".to_string()));
    assert_eq!(decode_scalar_to_text("int16", &[0, 0x80]), Some("-32768".to_string()));
    assert_eq!(decode_scalar_to_text("str", b"caf\xc3\xa9"), Some("café".to_string()));
    assert_eq!(decode_scalar_to_text("int32", &[1, 2]), None);
    assert_eq!(decode_scalar_to_text("float32", &[0, 0, 0, 0]), None);
}

#[test]
fn preview_lengths() {
    assert!(is_numeric_column(Some(" Float64 ")));
    assert!(!is_numeric_column(Some("str")));
    assert!(!is_numeric_column(None));
    assert_eq!(preview_read_len(true, 5000, 2048), 5000);
    assert_eq!(preview_read_len(false, 5000, 2048), 2048);
    assert_eq!(preview_read_len(false, 10, 2048), 10);
}

#[test]
fn index_validation_and_size_ceiling() {
    let good = vec![shard("a.mds", None)];
    assert!(dataset_inspector::mds::validate_index(&good).is_ok());
    assert!(matches!(dataset_inspector::mds::validate_index(&Vec::new()), Err(AppError::Invalid(_))));
    let mut v1 = shard("a.mds", None);
    v1.version = 1;
    assert!(matches!(dataset_inspector::mds::validate_index(&vec![v1]), Err(AppError::Invalid(_))));
    let mut other = shard("a.mds", None);
    other.format = "MDS".to_string();
    assert!(dataset_inspector::mds::validate_index(&vec![other.clone()]).is_ok());
    other.format = "csv".to_string();
    assert!(matches!(dataset_inspector::mds::validate_index(&vec![other]), Err(AppError::Invalid(_))));
    assert!(dataset_inspector::mds::check_open_size(10, 10).is_ok());
    assert!(matches!(dataset_inspector::mds::check_open_size(11, 10), Err(AppError::Invalid(_))));
    assert!(dataset_inspector::zip::download_locally(1));
    assert!(!dataset_inspector::zip::download_locally(0));
    assert!(!dataset_inspector::zip::download_locally(50 * 1024 * 1024 + 1));
}
