use binpattern::pattern::BinPattern;
use binpattern::signature::{signature_line, signature_lines};

const SEQ: [u8; 8] = [0xAA, 0xBB, 0xCC, 0xDD, 0xEE, 0xFF, 0x11, 0x22];

fn with_seq(before: &[u8], after: &[u8]) -> Vec<u8> {
    let mut v = before.to_vec();
    v.extend_from_slice(&SEQ);
    v.extend_from_slice(after);
    v
}

fn miner(blobs: Vec<Vec<u8>>) -> BinPattern {
    let mut bp = BinPattern::new();
    for b in blobs {
        bp.add_blob(b);
    }
    bp
}

fn three_samples() -> BinPattern {
    miner(vec![
        with_seq(&[0x10, 0x11, 0x12], &[0x13, 0x14]),
        with_seq(&[0x20], &[0x21, 0x22, 0x23]),
        with_seq(&[0x30, 0x31, 0x32, 0x33, 0x34], &[0x35]),
    ])
}

fn u16_at(buf: &mut [u8], o: usize, v: u16) {
    buf[o..o + 2].copy_from_slice(&v.to_le_bytes());
}

fn u32_at(buf: &mut [u8], o: usize, v: u32) {
    buf[o..o + 4].copy_from_slice(&v.to_le_bytes());
}

/// A minimal PE image: PE header at 0x40, section table at 0x138.
fn synthetic_pe(sections: &[(&[u8; 8], u32, u32)], len: usize) -> Vec<u8> {
    let mut buf = vec![0u8; len];
    buf[0] = b'M';
    buf[1] = b'Z';
    u32_at(&mut buf, 0x3C, 0x40);
    buf[0x40..0x44].copy_from_slice(b"PE\0\0");
    u16_at(&mut buf, 0x46, sections.len() as u16);
    for (k, (name, offset, size)) in sections.iter().enumerate() {
        let e = 0x138 + 40 * k;
        buf[e..e + 8].copy_from_slice(&name[..]);
        u32_at(&mut buf, e + 16, *size);
        u32_at(&mut buf, e + 20, *offset);
    }
    buf
}

#[test]
fn common_sequence_is_the_one_signature() {
    let bp = three_samples();
    let reference = vec![0x01, 0x02, 0x03, 0x04, 0x05, 0x06, 0x07, 0x08, 0x09, 0x0A];
    let found = bp.find_patterns(8, &reference);
    assert_eq!(found, vec![SEQ.to_vec()]);
    assert_eq!(signature_lines(&found), vec!["$code01 = {aabbccddeeff1122}".to_string()]);
}

#[test]
fn sequence_in_reference_gives_no_signature() {
    let bp = three_samples();
    let reference = with_seq(&[0x01, 0x02], &[0x03]);
    assert!(bp.find_patterns(8, &reference).is_empty());
}

#[test]
fn zero_run_is_always_skipped() {
    assert!(BinPattern::should_skip_pattern(&[0u8; 8]));
    let zeros = vec![0x41, 0, 0, 0, 0, 0, 0, 0, 0, 0x42, 0x43];
    let bp = miner(vec![zeros.clone(), zeros.clone(), zeros]);
    let found = bp.find_patterns(8, &[0x99; 4]);
    assert!(found.iter().all(|p| p.iter().any(|&b| b != 0)));
    assert!(found.is_empty());
}

#[test]
fn skip_predicate_cases() {
    assert!(BinPattern::should_skip_pattern(&[]));
    assert!(BinPattern::should_skip_pattern(&[0xFF; 6]));
    assert!(BinPattern::should_skip_pattern(&[0xCC; 3]));
    assert!(BinPattern::should_skip_pattern(&[0, 1, 0, 2, 0, 3, 0, 4, 0]));
    assert!(BinPattern::should_skip_pattern(&[0xCC, 1, 0xCC, 2, 0xCC, 3, 0xCC, 4, 0xCC]));
    assert!(BinPattern::should_skip_pattern(&[0x90, 0x90, 0x90, 0x90, 0x90, 1]));
    assert!(!BinPattern::should_skip_pattern(&[0x90, 0x90, 0x90, 0x90, 1, 2]));
    assert!(!BinPattern::should_skip_pattern(&[0, 0, 0, 0, 1, 2]));
    assert!(!BinPattern::should_skip_pattern(&SEQ));
    assert!(!BinPattern::should_skip_pattern(&[0xFF, 0xFF, 0xFE]));
}

#[test]
fn skip_predicate_is_stable() {
    let p = [0x55, 0x8B, 0xEC, 0x90, 0x90];
    let first = BinPattern::should_skip_pattern(&p);
    for _ in 0..5 {
        assert_eq!(BinPattern::should_skip_pattern(&p), first);
    }
}

#[test]
fn containment() {
    assert!(BinPattern::contains_pattern(&[1, 2, 3, 4], &[2, 3]));
    assert!(BinPattern::contains_pattern(&[1, 2, 3, 4], &[3, 4]));
    assert!(BinPattern::contains_pattern(&[1, 2, 3, 4], &[1, 2, 3, 4]));
    assert!(!BinPattern::contains_pattern(&[1, 2, 3, 4], &[2, 4]));
    assert!(!BinPattern::contains_pattern(&[1, 2], &[1, 2, 3]));
    assert!(!BinPattern::contains_pattern(&[1, 2], &[]));
}

#[test]
fn mining_twice_gives_the_same_patterns() {
    let bp = miner(vec![
        vec![1, 2, 3, 4, 5, 6, 7, 8, 9, 10, 11, 12],
        vec![9, 9, 1, 2, 3, 4, 5, 6, 7, 8, 9, 10, 11, 12],
    ]);
    let reference = vec![4, 5, 6];
    let a = bp.find_patterns(3, &reference);
    let b = bp.find_patterns(3, &reference);
    assert_eq!(a, b);
    assert_eq!(a, vec![vec![1, 2, 3], vec![5, 6, 7], vec![8, 9, 10]]);
}

#[test]
fn accepted_patterns_hold_everywhere_and_are_distinct() {
    let blob = vec![1, 2, 3, 4, 9, 1, 2, 3, 4, 8, 8];
    let other = vec![1, 2, 3, 4, 8, 0x50];
    let bp = miner(vec![blob.clone(), other.clone()]);
    let reference = vec![0x60];
    let found = bp.find_patterns(4, &reference);
    assert_eq!(found, vec![vec![1, 2, 3, 4], vec![2, 3, 4, 8]]);
    for (k, p) in found.iter().enumerate() {
        assert_eq!(p.len(), 4);
        assert!(BinPattern::contains_pattern(&blob, p));
        assert!(BinPattern::contains_pattern(&other, p));
        assert!(!BinPattern::contains_pattern(&reference, p));
        assert!(found[k + 1..].iter().all(|q| q != p));
    }
}

#[test]
fn last_window_of_first_blob_is_not_a_candidate() {
    let bp = miner(vec![vec![7, 8, 9, 10], vec![7, 8, 9, 10]]);
    assert_eq!(bp.find_patterns(3, &[0x01]), vec![vec![7, 8, 9]]);
    assert!(bp.find_patterns(4, &[0x01]).is_empty());
}

#[test]
fn empty_inputs_mine_nothing() {
    assert!(BinPattern::new().find_patterns(4, &[1]).is_empty());
    assert_eq!(BinPattern::new().blob_count(), 0);
    let bp = miner(vec![vec![1, 2, 3, 4, 5]]);
    assert_eq!(bp.blob_count(), 1);
    assert!(bp.find_patterns(0, &[9]).is_empty());
    assert!(bp.find_patterns(9, &[9]).is_empty());
}

#[test]
fn signature_line_formats() {
    assert_eq!(signature_line(1, &SEQ), "$code01 = {aabbccddeeff1122}");
    assert_eq!(signature_line(10, &[0x00, 0x0F, 0xF0]), "$code10 = {000ff0}");
    assert_eq!(signature_line(123, &[0xAB]), "$code123 = {ab}");
    assert_eq!(signature_line(0, &[]), "$code00 = {}");
}

#[test]
fn text_section_round_trip() {
    let code = [0x55u8, 0x48, 0x89, 0xE5, 0xC3];
    let mut buf = synthetic_pe(&[(b".data\0\0\0", 0x200, 4), (b".text\0\0\0", 0x1A0, 5)], 0x210);
    buf[0x1A0..0x1A5].copy_from_slice(&code);
    assert_eq!(BinPattern::get_code(&buf), Some(code.to_vec()));
}

#[test]
fn only_the_first_text_section_counts() {
    let buf = synthetic_pe(&[(b".textbss", 0x1F0, 0x40), (b".text\0\0\0", 0x180, 4)], 0x200);
    assert_eq!(BinPattern::get_code(&buf), None);
    let buf = synthetic_pe(&[(b".text\0\0\0", 0x1A0, 4), (b".text2\0\0", 0x1B0, 2)], 0x200);
    assert_eq!(BinPattern::get_code(&buf), Some(vec![0; 4]));
}

#[test]
fn truncated_section_table_ends_the_walk() {
    let mut buf = synthetic_pe(&[(b".data\0\0\0", 0, 4)], 0x160);
    u16_at(&mut buf, 0x46, 3);
    assert_eq!(BinPattern::get_code(&buf), None);
    let buf = synthetic_pe(&[], 0x160);
    assert_eq!(BinPattern::get_code(&buf), None);
}

#[test]
fn invalid_headers_are_rejected() {
    let good = synthetic_pe(&[(b".text\0\0\0", 0x180, 4)], 0x200);
    assert!(BinPattern::get_code(&good).is_some());
    assert!(BinPattern::get_binary_info(&good).is_some());

    let short = good[..0x3F].to_vec();
    let mut no_mz = good.clone();
    no_mz[1] = b'X';
    let mut far = good.clone();
    u32_at(&mut far, 0x3C, (good.len() - 4) as u32);
    let mut no_pe = good.clone();
    no_pe[0x41] = b'F';
    for bad in [short, no_mz, far, no_pe] {
        assert_eq!(BinPattern::get_code(&bad), None);
        assert!(BinPattern::get_binary_info(&bad).is_none());
    }
}

#[test]
fn header_cut_short_is_rejected() {
    let mut buf = vec![0u8; 0x50];
    buf[0] = b'M';
    buf[1] = b'Z';
    u32_at(&mut buf, 0x3C, 0x48);
    buf[0x48..0x4C].copy_from_slice(b"PE\0\0");
    assert_eq!(BinPattern::get_code(&buf), None);
    assert!(BinPattern::get_binary_info(&buf).is_none());
}

#[test]
fn binary_info_fields() {
    let mut buf = synthetic_pe(&[], 0x200);
    u16_at(&mut buf, 0x44, 0x8664);
    u16_at(&mut buf, 0x56, 0x2000 | 0x0002);
    u16_at(&mut buf, 0x58, 0x20b);
    let info = BinPattern::get_binary_info(&buf).unwrap();
    assert_eq!(info.architecture, "x64");
    assert!(info.is_64bit && info.is_dll && info.is_gui && !info.is_system);
    assert_eq!(info.compiler, "Unknown");

    let cases = [(0x014c, "x86"), (0x0200, "IA64"), (0x01c4, "ARM"), (0xaa64, "ARM64"), (0x1234, "Unknown")];
    for (machine, name) in cases {
        u16_at(&mut buf, 0x44, machine);
        u16_at(&mut buf, 0x56, 0x1000);
        u16_at(&mut buf, 0x58, 0x10b);
        let info = BinPattern::get_binary_info(&buf).unwrap();
        assert_eq!(info.architecture, name);
        assert!(!info.is_64bit && !info.is_dll && !info.is_gui && info.is_system);
    }
}

fn padded(text: &[u8]) -> Vec<u8> {
    let mut v = vec![0x90u8, 0xFF, 0x00];
    v.extend_from_slice(text);
    v.extend_from_slice(&[0u8; 20]);
    v
}

#[test]
fn compiler_labels() {
    assert_eq!(BinPattern::detect_compiler(&padded(b"core::rust_panic")), "Rust");
    assert_eq!(BinPattern::detect_compiler(&padded(b"rust_begin_unwind")), "Rust");
    assert_eq!(BinPattern::detect_compiler(&padded(b"Go build ID: x")), "Golang");
    assert_eq!(BinPattern::detect_compiler(&padded(b"golang.org")), "Golang");
    assert_eq!(BinPattern::detect_compiler(&padded(b"GCC: (GNU) 12")), "MinGW/GCC");
    assert_eq!(BinPattern::detect_compiler(&padded(b"__MINGW_IMPORT")), "MinGW/GCC");
    assert_eq!(BinPattern::detect_compiler(&padded(b"Borland\\Delphi")), "Delphi");
    assert_eq!(BinPattern::detect_compiler(&padded(b"FastMM")), "Delphi");
    assert_eq!(BinPattern::detect_compiler(&padded(b".CRT$XCU")), "MSVC");
    assert_eq!(BinPattern::detect_compiler(&padded(b"clang version 17")), "Clang/LLVM");
    assert_eq!(BinPattern::detect_compiler(&padded(b"LLVM")), "Clang/LLVM");
    assert_eq!(BinPattern::detect_compiler(&padded(b"nothing here")), "Unknown");
    assert_eq!(BinPattern::detect_compiler(&[]), "Unknown");
}

#[test]
fn compiler_rules_are_ordered() {
    assert_eq!(BinPattern::detect_compiler(&padded(b"LLVM golang rust_panic")), "Rust");
    assert_eq!(BinPattern::detect_compiler(&padded(b"LLVM .CRT$XCA FastMM")), "Delphi");
    assert_eq!(BinPattern::detect_compiler(&padded(b"LLVM .CRT$XCL")), "MSVC");
}

#[test]
fn msvc_marker_needs_a_full_window() {
    let mut tail = vec![0x41u8; 4];
    tail.extend_from_slice(b".CRT$XCA1234567");
    assert_eq!(BinPattern::detect_compiler(&tail), "Unknown");
    tail.push(b'8');
    assert_eq!(BinPattern::detect_compiler(&tail), "MSVC");
}

#[test]
fn invalid_utf8_around_markers() {
    let mut v = vec![0xC3u8, 0x28, 0xFF, 0xE2];
    v.extend_from_slice(b"golang");
    v.extend_from_slice(&[0x80, 0xF0]);
    assert_eq!(BinPattern::detect_compiler(&v), "Golang");
}
