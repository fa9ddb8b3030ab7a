use mabi_pack::{
    assemble, calc_str_size, check_inflated, extract_entry, get_rel_path, is_selected,
    make_regex, obfuscate, pack_container, pack_file, read_c_str, read_header, read_index,
    read_str, time_to_filetime, write_header, write_str_block, HeadInfo, MabiError, PackedFile,
    SourceFile, HEADER_SIZE,
};

fn source(name: &str, content: &[u8]) -> SourceFile {
    SourceFile {
        name: name.to_string(),
        content: content.to_vec(),
        accessed: 1_600_000_000_000,
        modified: 1_600_000_001_000,
    }
}

fn pack(files: Vec<SourceFile>, version: u32) -> Vec<u8> {
    pack_container(&files, version, 0).expect("packing succeeds")
}

fn u32_at(b: &[u8], pos: usize) -> u32 {
    u32::from_le_bytes([b[pos], b[pos + 1], b[pos + 2], b[pos + 3]])
}

#[test]
fn single_file_scenario() {
    let c = pack(vec![source("a/b.txt", b"hello")], 7);
    let h = read_header(&c).unwrap();
    assert_eq!(h.file_cnt, 1);
    assert_eq!(h.file_ver, 7);
    assert_eq!(h.index_size, 16 + 0x40);
    assert_eq!(c[HEADER_SIZE], 0);
    assert_eq!(&c[HEADER_SIZE + 1..HEADER_SIZE + 8], b"a\\b.txt");
    assert!(c[HEADER_SIZE + 8..HEADER_SIZE + 16].iter().all(|&x| x == 0));
    let entries = read_index(&c, &h).unwrap();
    assert_eq!(entries.len(), 1);
    assert_eq!(entries[0].name, "a/b.txt");
    assert_eq!(entries[0].version, 7);
    assert_eq!(entries[0].off, 0);
    assert_eq!(entries[0].uncompr_size, 5);
    assert_eq!(extract_entry(&c, &h, &entries[0]).unwrap(), b"hello".to_vec());
    assert_eq!(format!("{}", entries[0].name), "a/b.txt");
    assert_eq!(format!("{} {}", entries[0].version, entries[0].name), "7 a/b.txt");
}

#[test]
fn round_trip_many_files() {
    let big: Vec<u8> = (0..5000u32).map(|i| (i * 7 % 251) as u8).collect();
    let files = vec![
        source("x.txt", b"first"),
        source("dir/sub/y.dat", &big),
        source("empty", b""),
        source(&"n".repeat(120), b"long name"),
    ];
    let expected: Vec<(String, Vec<u8>)> =
        files.iter().map(|f| (f.name.clone(), f.content.clone())).collect();
    let c = pack(files, 123456);
    let h = read_header(&c).unwrap();
    assert_eq!(h.file_cnt, 4);
    assert_eq!(h.content_size as usize, c.len() - HEADER_SIZE - h.index_size as usize);
    let entries = read_index(&c, &h).unwrap();
    let mut off = 0u32;
    for (e, (name, bytes)) in entries.iter().zip(expected.iter()) {
        assert_eq!(&e.name, name);
        assert_eq!(e.off, off);
        off += e.raw_size;
        assert_eq!(&extract_entry(&c, &h, e).unwrap(), bytes);
    }
    assert_eq!(off, h.content_size);
}

#[test]
fn string_block_sizes_and_round_trip() {
    let table = [
        (0usize, 16usize, 0u8),
        (14, 16, 0),
        (15, 32, 1),
        (30, 32, 1),
        (31, 48, 2),
        (46, 48, 2),
        (47, 64, 3),
        (62, 64, 3),
        (63, 96, 4),
        (94, 96, 4),
        (95, 112, 5),
        (200, 208, 5),
    ];
    for (l, size, class) in table {
        assert_eq!(calc_str_size(l), (size, class));
        let name: String = (0..l).map(|i| if i % 5 == 4 { '/' } else { 'q' }).collect();
        let mut out = Vec::new();
        let n = write_str_block(&mut out, &name);
        assert_eq!(n, size);
        assert_eq!(out.len(), size);
        assert_eq!(out[0], class);
        if class == 5 {
            assert_eq!(u32_at(&out, 1) as usize, size - 5);
        }
        let (back, next) = read_str(&out, 0).unwrap();
        assert_eq!(back, name);
        assert_eq!(next, size);
    }
}

#[test]
fn string_block_stores_backslashes() {
    let mut out = Vec::new();
    write_str_block(&mut out, "d/e");
    assert_eq!(&out[1..4], b"d\\e");
}

#[test]
fn string_block_errors() {
    assert!(matches!(read_str(&[6u8; 20], 0), Err(MabiError::WrongFormat)));
    assert!(matches!(read_str(&[0u8; 10], 0), Err(MabiError::Truncated)));
    assert!(matches!(read_str(&[], 0), Err(MabiError::Truncated)));
    let mut block = vec![0u8; 16];
    for b in block.iter_mut().skip(1) {
        *b = b'a';
    }
    assert!(matches!(read_str(&block, 0), Err(MabiError::WrongFormat)));
}

#[test]
fn c_string_reading() {
    assert_eq!(read_c_str(b"ab\0cd".to_vec()).unwrap(), "ab");
    assert_eq!(read_c_str(b"p\\q\0".to_vec()).unwrap(), "p/q");
    assert!(matches!(read_c_str(b"abc".to_vec()), Err(MabiError::WrongFormat)));
    assert!(matches!(read_c_str(vec![0xff, 0xfe, 0]), Err(MabiError::Encoding)));
}

#[test]
fn keystream_is_self_inverse() {
    let data: Vec<u8> = (0..300u32).map(|i| (i % 256) as u8).collect();
    for seed in [0u32, 1, 7, 0xffff_ffff] {
        let once = obfuscate(&data, seed);
        assert_eq!(once.len(), data.len());
        assert_ne!(once, data);
        assert_eq!(obfuscate(&once, seed), data);
    }
    assert_ne!(obfuscate(&data, 1), obfuscate(&data, 2));
    assert!(obfuscate(&[], 3).is_empty());
}

#[test]
fn header_round_trip_and_count_check() {
    let h = HeadInfo { file_ver: 9, file_cnt: 3, index_size: 0x100, content_size: 77 };
    let mut out = Vec::new();
    write_header(&mut out, &h, 42);
    assert_eq!(out.len(), HEADER_SIZE);
    assert_eq!(&out[0x20..0x25], b"data\\");
    assert_eq!(read_header(&out).unwrap(), h);
    let mut bad = out.clone();
    bad[0x200] = 4;
    assert!(matches!(read_header(&bad), Err(MabiError::WrongFormat)));
    let mut bad_magic = out.clone();
    bad_magic[0] ^= 1;
    assert!(matches!(read_header(&bad_magic), Err(MabiError::WrongFormat)));
    assert_eq!(read_header(&out[..0x210]).unwrap(), h);
    assert!(matches!(read_header(&out[..0x20f]), Err(MabiError::Truncated)));
    assert!(matches!(read_header(&out[..0x203]), Err(MabiError::Truncated)));
    assert!(matches!(read_header(&out[..7]), Err(MabiError::Truncated)));
    assert!(matches!(read_header(&bad[..0x204]), Err(MabiError::WrongFormat)));
    assert!(matches!(read_header(&bad_magic[..8]), Err(MabiError::WrongFormat)));
}

#[test]
fn packed_container_with_differing_counts_is_rejected() {
    let mut c = pack(vec![source("a.txt", b"x")], 1);
    c[0x200] = 2;
    assert!(matches!(read_header(&c), Err(MabiError::WrongFormat)));
}

#[test]
fn truncated_content_is_corruption() {
    let c = pack(vec![source("a/b.txt", b"hello hello hello")], 7);
    let h = read_header(&c).unwrap();
    let entries = read_index(&c, &h).unwrap();
    let short = &c[..c.len() - 1];
    assert!(matches!(extract_entry(short, &h, &entries[0]), Err(MabiError::CorruptedFile)));
    let mut e = entries[0].clone();
    e.raw_size -= 1;
    assert!(matches!(extract_entry(&c, &h, &e), Err(MabiError::CorruptedFile)));
    let mut wrong_size = entries[0].clone();
    wrong_size.uncompr_size += 1;
    assert!(matches!(extract_entry(&c, &h, &wrong_size), Err(MabiError::CorruptedFile)));
}

#[test]
fn truncated_index_is_reported() {
    let c = pack(vec![source("a.txt", b"x")], 1);
    let h = read_header(&c).unwrap();
    assert!(matches!(read_index(&c[..HEADER_SIZE + 10], &h), Err(MabiError::Truncated)));
    let more = HeadInfo { file_cnt: 2, ..h };
    assert!(matches!(read_index(&c, &more), Err(MabiError::Truncated)));
}

#[test]
fn filter_selects_matching_entries() {
    let c = pack(vec![source("x.txt", b"xx"), source("y.dat", b"yy")], 3);
    let h = read_header(&c).unwrap();
    let entries = read_index(&c, &h).unwrap();
    let filters = make_regex(&vec!["\\.txt$".to_string()]).unwrap();
    let picked: Vec<String> = entries
        .iter()
        .filter(|e| is_selected(&filters, &e.name))
        .map(|e| e.name.clone())
        .collect();
    assert_eq!(picked, vec!["x.txt".to_string()]);
    let either = make_regex(&vec!["^z".to_string(), "dat".to_string()]).unwrap();
    assert!(!is_selected(&either, "x.txt"));
    assert!(is_selected(&either, "y.dat"));
    let none = make_regex(&vec![]).unwrap();
    assert!(entries.iter().all(|e| is_selected(&none, &e.name)));
}

#[test]
fn invalid_pattern_is_reported() {
    assert!(matches!(make_regex(&vec!["(".to_string()]), Err(MabiError::InvalidRegexp(_))));
    let pats = vec!["a".to_string(), "(".to_string(), "[".to_string()];
    match make_regex(&pats) {
        Err(MabiError::InvalidRegexp(m)) => assert!(m.starts_with("(:")),
        _ => panic!("the first refused pattern is reported"),
    }
}

#[test]
fn filetime_conversion() {
    assert_eq!(time_to_filetime(0), 116_444_736_000_000_000);
    assert_eq!(time_to_filetime(1000), 116_444_736_010_000_000);
    let big = u64::MAX;
    let expect = ((big as u128 * 10000 + 116_444_736_000_000_000u128) % (1u128 << 64)) as u64;
    assert_eq!(time_to_filetime(big), expect);
}

#[test]
fn record_timestamps_are_written() {
    let c = pack(vec![source("t", b"z")], 5);
    let tail = HEADER_SIZE + 16;
    assert_eq!(u32_at(&c, tail), 5);
    assert_eq!(u32_at(&c, tail + 4), 0);
    assert_eq!(u32_at(&c, tail + 20), 1);
    let m = time_to_filetime(1_600_000_001_000);
    let a = time_to_filetime(1_600_000_000_000);
    let at = |k: usize| {
        let p = tail + 24 + 8 * k;
        u64::from_le_bytes(c[p..p + 8].try_into().unwrap())
    };
    assert_eq!([at(0), at(1), at(2), at(3), at(4)], [m, m, a, m, m]);
}

#[test]
fn relative_paths() {
    assert_eq!(get_rel_path("/data/in", "/data/in/a/b.txt").unwrap(), "a/b.txt");
    assert!(matches!(get_rel_path("/data/in", "/other/a.txt"), Err(MabiError::InternalError)));
    assert!(matches!(get_rel_path("/data/in", "/data/inner/a.txt"), Err(MabiError::InternalError)));
}

#[test]
fn pack_file_compresses_and_obfuscates() {
    let content = vec![b'a'; 1000];
    let (fi, payload) = pack_file("a.txt", &content, 11).unwrap();
    assert_eq!(fi.name, "a.txt");
    assert_eq!(fi.version, 11);
    assert_eq!(fi.uncompr_size, 1000);
    assert_eq!(fi.raw_size as usize, payload.len());
    assert!(payload.len() < content.len());
    let plain = obfuscate(&payload, 11);
    assert_eq!(plain[0] & 0x0f, 8);
}

#[test]
fn inflated_size_is_checked() {
    assert!(matches!(check_inflated(None, 0), Err(MabiError::CorruptedFile)));
    assert!(matches!(check_inflated(Some(vec![1, 2]), 3), Err(MabiError::CorruptedFile)));
    assert_eq!(check_inflated(Some(vec![1, 2]), 2).unwrap(), vec![1, 2]);
}

#[test]
fn assemble_lays_out_regions() {
    let files = vec![
        PackedFile { name: "p".to_string(), payload: vec![1, 2, 3], uncompr_size: 9, accessed: 0, modified: 0 },
        PackedFile { name: "q".to_string(), payload: vec![4, 5], uncompr_size: 8, accessed: 0, modified: 0 },
    ];
    let c = assemble(&files, 2, 0).unwrap();
    let h = read_header(&c).unwrap();
    assert_eq!(h.index_size, 2 * (16 + 0x40));
    assert_eq!(h.content_size, 5);
    assert_eq!(&c[c.len() - 5..], &[1, 2, 3, 4, 5]);
    let entries = read_index(&c, &h).unwrap();
    assert_eq!((entries[1].off, entries[1].raw_size, entries[1].uncompr_size), (3, 2, 8));
}
