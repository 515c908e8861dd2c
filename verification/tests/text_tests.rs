use src_utils::text::{
    chars_of, parse_i32_chars, parse_u32_chars, parse_u8_chars, parse_usize_chars, split_chars,
    string_of, trim_chars,
};

fn v(s: &str) -> Vec<char> {
    chars_of(s)
}

#[test]
fn trim_matches_std() {
    for s in ["", "  ", " a b ", "\u{3000}x\u{A0}", "\tq\n", "\u{200B}z"] {
        assert_eq!(string_of(&trim_chars(&v(s))), s.trim());
    }
}

#[test]
fn split_matches_std() {
    for s in ["", ",", "a,b", ",a,,b,"] {
        let got: Vec<String> = split_chars(&v(s), &[',']).iter().map(|p| string_of(p)).collect();
        let want: Vec<String> = s.split(',').map(|p| p.to_string()).collect();
        assert_eq!(got, want);
    }
}

#[test]
fn integer_parsing_matches_std() {
    for s in ["", "+", "-", "0", "+7", "-7", "255", "256", "-0", "12a", "2147483647", "2147483648", "-2147483648", "-2147483649", "٣"] {
        assert_eq!(parse_u8_chars(&v(s)), s.parse::<u8>().ok(), "u8 {:?}", s);
        assert_eq!(parse_i32_chars(&v(s)), s.parse::<i32>().ok(), "i32 {:?}", s);
        assert_eq!(parse_usize_chars(&v(s)), s.parse::<usize>().ok(), "usize {:?}", s);
        assert_eq!(parse_u32_chars(&v(s), false), s.parse::<u32>().ok(), "u32 {:?}", s);
    }
    for s in ["ff", "FF", "+1a", "-1", "100000000", "ffffffff", "g"] {
        assert_eq!(parse_u32_chars(&v(s), true), u32::from_str_radix(s, 16).ok(), "hex {:?}", s);
    }
}
