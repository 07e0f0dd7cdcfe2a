use mybar::mem::{parse_meminfo_line, Mem, MemInfo, MemScanner, ScanError};

const TEXT: &[u8] = b"MemTotal: 100 kB\nMemAvailable: 40 kB\n";

#[test]
fn scan_whole() {
    let mem = Mem::new();
    let r = mem.read(&vec![TEXT.to_vec()]);
    assert_eq!(r, Ok(MemInfo { total: 100, free: 40, used: 60 }));
}

#[test]
fn scan_split_at_every_offset() {
    let mem = Mem::new();
    for k in 0..=TEXT.len() {
        let r = mem.read(&vec![TEXT[..k].to_vec(), TEXT[k..].to_vec()]);
        assert_eq!(r, Ok(MemInfo { total: 100, free: 40, used: 60 }));
    }
}

#[test]
fn scan_byte_by_byte() {
    let mut sc = MemScanner::new();
    for b in TEXT {
        sc.feed(&[*b]);
    }
    assert!(sc.is_done());
    assert_eq!(sc.finish(), Ok(MemInfo { total: 100, free: 40, used: 60 }));
}

#[test]
fn scan_stops_after_both_keys() {
    let mut sc = MemScanner::new();
    sc.feed(b"MemTotal: 100 kB\nMemFree: 1 kB\nMemAvailable: 40 kB\ngarbage\n");
    assert!(sc.is_done());
    assert_eq!(sc.finish(), Ok(MemInfo { total: 100, free: 40, used: 60 }));
}

#[test]
fn scan_fails_when_keys_missing() {
    let mem = Mem::new();
    assert_eq!(mem.read(&vec![b"MemTotal: 100 kB\nMemFree: 3 kB\n".to_vec()]), Err(ScanError::Exhausted));
    assert_eq!(mem.read(&vec![]), Err(ScanError::Exhausted));
    assert_eq!(mem.read(&vec![b"MemTotal: 100 kB\nMemAvailable: 40 kB".to_vec()]), Err(ScanError::Exhausted));
}

#[test]
fn scan_fails_on_malformed_line() {
    let mem = Mem::new();
    assert_eq!(mem.read(&vec![b"MemTotal 100 kB\n".to_vec()]), Err(ScanError::Malformed));
    assert_eq!(mem.read(&vec![b"MemTotal: lots\n".to_vec()]), Err(ScanError::Malformed));
}

#[test]
fn scan_fails_when_available_exceeds_total() {
    let mem = Mem::new();
    let r = mem.read(&vec![b"MemTotal: 10 kB\nMemAvailable: 40 kB\n".to_vec()]);
    assert_eq!(r, Err(ScanError::Inconsistent));
}

#[test]
fn line_parse() {
    let l = parse_meminfo_line(b"  MemTotal:   16314912 kB ").unwrap();
    assert_eq!(l.key, b"MemTotal".to_vec());
    assert_eq!(l.value, 16314912);
    let l = parse_meminfo_line(b"HugePages_Total:       0").unwrap();
    assert_eq!(l.key, b"HugePages_Total".to_vec());
    assert_eq!(l.value, 0);
    assert!(parse_meminfo_line(b"").is_none());
    assert!(parse_meminfo_line(b"Key:").is_none());
}
