use packet_core::source::try_parse_schema;
use packet_core::{parse_schema, CoreError};

/// A small deterministic generator of pseudo-random numbers.
struct Lcg(u64);

impl Lcg {
    fn next(&mut self) -> u64 {
        self.0 = self.0.wrapping_mul(6364136223846793005).wrapping_add(1442695040888963407);
        self.0 >> 33
    }

    fn below(&mut self, n: u64) -> u64 {
        self.next() % n
    }
}

fn random_string(rng: &mut Lcg, max_len: u64) -> String {
    let len = rng.below(max_len + 1);
    (0..len).map(|_| (32 + rng.below(95) as u8) as char).collect()
}

#[test]
fn fuzz_random_input_no_crash() {
    let mut rng = Lcg(1);
    for _ in 0..1000 {
        let input = random_string(&mut rng, 200);
        let _ = try_parse_schema(&input);
        let _ = parse_schema(&input);
    }
    let e = parse_schema(r#"struct T { #[checksum(md5)] c: u8, }"#).unwrap_err();
    assert!(matches!(e, CoreError::Parse { .. }));
}

#[test]
fn fuzz_special_characters() {
    let special_chars = [
        '\n', '\r', '\t', ' ', '{', '}', '[', ']', '(', ')', '<', '>', ';', ':', ',', '.', '#',
        '!', '@', '$', '%', '^', '&', '*', '+', '-', '=', '/', '\\', '|', '~', '`', '\'', '"',
    ];
    let mut rng = Lcg(2);
    for _ in 0..500 {
        let len = 1 + rng.below(100);
        let input: String = (0..len)
            .map(|_| {
                if rng.below(10) < 3 {
                    special_chars[rng.below(special_chars.len() as u64) as usize]
                } else {
                    (b'a' + rng.below(26) as u8) as char
                }
            })
            .collect();
        let _ = try_parse_schema(&input);
    }
}

#[test]
fn fuzz_long_input() {
    let mut rng = Lcg(3);
    let input: String = (0..10240).map(|_| (32 + rng.below(95) as u8) as char).collect();
    let _ = try_parse_schema(&input);
}

#[test]
fn fuzz_utf8_edge_cases() {
    let unicode_strings = [
        "你好世界",
        "\u{0000}",
        "\u{FFFF}",
        "\u{10FFFF}",
        "/// 文档注释测试",
        "\"字符串字面量\"",
    ];
    let mut rng = Lcg(4);
    for _ in 0..200 {
        let parts = 1 + rng.below(5);
        let input: String = (0..parts)
            .map(|_| unicode_strings[rng.below(unicode_strings.len() as u64) as usize].to_string())
            .collect();
        let _ = try_parse_schema(&input);
    }
}
