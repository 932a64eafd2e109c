use network::address::{bind_candidate_address, decimal_string, join_host_port, parse_i32};

#[test]
fn joins_host_and_port() {
    assert_eq!(join_host_port("127.0.0.1", "6380"), "127.0.0.1:6380");
    assert_eq!(join_host_port("", ""), ":");
}

#[test]
fn writes_decimal_like_to_string() {
    for n in [0, 7, 10, 6380, -1, -10, i32::MAX, i32::MIN, 1_000_000] {
        assert_eq!(decimal_string(n), n.to_string());
    }
}

#[test]
fn parses_like_std() {
    for s in [
        "6380", "+5", "-0", "0", "007", "-2147483648", "2147483647", "2147483648",
        "-2147483649", "", "-", "+", "12a", " 1", "1 ", "--1", "+-1", "99999999999999999999",
        "٣",
    ] {
        assert_eq!(parse_i32(s), s.parse::<i32>().ok(), "on {:?}", s);
    }
}

#[test]
fn decimal_text_reads_back() {
    for n in [0, 1, -1, 42, -42, i32::MAX, i32::MIN] {
        assert_eq!(parse_i32(&decimal_string(n)), Some(n));
    }
}

#[test]
fn bind_candidates_count_up_from_the_port() {
    assert_eq!(bind_candidate_address("127.0.0.1", 6380, 0), "127.0.0.1:6380");
    assert_eq!(bind_candidate_address("127.0.0.1", 6380, 2), "127.0.0.1:6382");
}
