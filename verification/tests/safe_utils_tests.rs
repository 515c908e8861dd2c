use src_utils::safe_utils::{
    bitprint, create_str_list, home_dir_from, host_from, is_decimal, match_str_list, nabs, nfix,
    nmax, nmin, parse_geom, parse_geom_checked, scan_hexdec, shell_from, user_name_from,
};

#[test]
fn test_is_decimal() {
    assert!(is_decimal("123"));
    assert!(is_decimal("-12"));
    assert!(!is_decimal("12a"));
}

#[test]
fn is_decimal_edges() {
    assert!(!is_decimal(""));
    assert!(is_decimal("-"));
    assert!(is_decimal("0"));
    assert!(!is_decimal("+1"));
    assert!(!is_decimal("1-2"));
    assert!(!is_decimal("١٢"));
}

#[test]
fn test_parse_geom() {
    assert_eq!(parse_geom("10x20+3+4", 100, 200), Some((10, 20, 3, 4)));
}

#[test]
fn parse_geom_negative_offsets_from_far_edge() {
    assert_eq!(parse_geom("10x20-3-4", 100, 200), Some((10, 20, 87, 176)));
    assert_eq!(parse_geom("10x20+3-4", 100, 200), Some((10, 20, 3, 176)));
}

#[test]
fn parse_geom_rejects_malformed() {
    assert_eq!(parse_geom("10x20", 100, 200), None);
    assert_eq!(parse_geom("10x20+3", 100, 200), None);
    assert_eq!(parse_geom("10x20+3+", 100, 200), None);
    assert_eq!(parse_geom("10x+3+4", 100, 200), None);
    assert_eq!(parse_geom("ax20+3+4", 100, 200), None);
    assert_eq!(parse_geom("10x20*3+4", 100, 200), None);
    assert_eq!(parse_geom("10x20+3+4z", 100, 200), None);
    assert_eq!(parse_geom("10y20+3+4", 100, 200), None);
    assert_eq!(parse_geom("10x20+99999999999+4", 100, 200), None);
}

#[test]
fn parse_geom_signed_width() {
    assert_eq!(parse_geom("-10x20+3+4", 100, 200), Some((-10, 20, 3, 4)));
}

#[test]
fn nfix_clamps() {
    assert_eq!(nfix(-5, 10), 0);
    assert_eq!(nfix(5, 10), 5);
    assert_eq!(nfix(10, 10), 9);
    assert_eq!(nfix(42, 10), 9);
}

#[test]
fn nmin_nmax_nabs() {
    assert_eq!(nmin(3, -2), -2);
    assert_eq!(nmax(3, -2), 3);
    assert_eq!(nabs(-7), 7);
    assert_eq!(nabs(7), 7);
}

#[test]
fn scan_hexdec_forms() {
    assert_eq!(scan_hexdec(" 0x1F "), Some(31));
    assert_eq!(scan_hexdec("0XfF"), Some(255));
    assert_eq!(scan_hexdec("42"), Some(42));
    assert_eq!(scan_hexdec("+42"), Some(42));
    assert_eq!(scan_hexdec("-1"), None);
    assert_eq!(scan_hexdec("0x"), None);
    assert_eq!(scan_hexdec("18446744073709551615"), Some(u64::MAX));
    assert_eq!(scan_hexdec("18446744073709551616"), None);
    assert_eq!(scan_hexdec("12g"), None);
}

#[test]
fn bitprint_bits() {
    assert_eq!(bitprint(5, 4), "0101");
    assert_eq!(bitprint(5, 0), "");
    assert_eq!(bitprint(u32::MAX, 40).len(), 32);
    assert_eq!(bitprint(0x8000_0001, 32), "10000000000000000000000000000001");
}

#[test]
fn match_str_list_entries() {
    assert!(match_str_list("hello world", &["xyz", "o w"]));
    assert!(match_str_list("anything", &["*"]));
    assert!(!match_str_list("abc", &["abcd", "x"]));
    assert!(!match_str_list("abc", &[]));
    assert!(match_str_list("abc", &[""]));
}

#[test]
fn create_str_list_trims_pieces() {
    assert_eq!(create_str_list(" a, b ,,c "), vec!["a", "b", "", "c"]);
    assert_eq!(create_str_list(""), vec![""]);
}

#[test]
fn env_fallbacks() {
    assert_eq!(user_name_from(Some("u".to_string()), Some("l".to_string())), "u");
    assert_eq!(user_name_from(None, Some("l".to_string())), "l");
    assert_eq!(user_name_from(None, None), "unknown-user");
    assert_eq!(home_dir_from(None), "/");
    assert_eq!(home_dir_from(Some("/home/x".to_string())), "/home/x");
    assert_eq!(shell_from(None), "/bin/sh");
    assert_eq!(host_from(Some("h".to_string()), Some("s".to_string())), Some("h".to_string()));
    assert_eq!(host_from(Some(String::new()), Some("s".to_string())), Some("s".to_string()));
    assert_eq!(host_from(None, None), None);
}

#[test]
fn bitprint_full_print_reads_back() {
    for st in [0u32, 1, 5, 0x8000_0001, 0xdead_beef, u32::MAX] {
        let full = bitprint(st, 32);
        assert_eq!(full.len(), 32);
        assert!(full.chars().all(|c| c == '0' || c == '1'));
        assert_eq!(u32::from_str_radix(&full, 2), Ok(st));
        for nb in 0..=32usize {
            assert_eq!(bitprint(st, nb), full[32 - nb..].to_string());
        }
    }
}

#[test]
fn scan_hexdec_reads_back_printed_numbers() {
    for n in [0u64, 1, 9, 10, 15, 16, 255, 4096, 123_456_789, u64::MAX] {
        assert_eq!(scan_hexdec(&n.to_string()), Some(n));
        assert_eq!(scan_hexdec(&format!(" 0x{:x} ", n)), Some(n));
        assert_eq!(scan_hexdec(&format!("0X{:X}", n)), Some(n));
    }
}

#[test]
fn parse_geom_checked_agrees_in_range() {
    assert_eq!(parse_geom_checked("10x20-3-4", 100, 200), Some((10, 20, 87, 176)));
    assert_eq!(parse_geom_checked("10x20+3+4", 100, 200), Some((10, 20, 3, 4)));
    assert_eq!(parse_geom_checked("10x20", 100, 200), None);
}

#[test]
fn parse_geom_checked_refuses_overflow() {
    assert_eq!(parse_geom_checked("10x20-2147483647+0", -100, 0), None);
    assert_eq!(parse_geom_checked("2147483647x1-0+0", -2, 0), None);
    assert_eq!(parse_geom_checked("10x20+2147483647+0", -100, 0), Some((10, 20, 2147483647, 0)));
}
