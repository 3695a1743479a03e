use poa_chain::admin::{parse_admin_line, trim, AdminCommand};
use poa_chain::cli::{
    bytes_to_hex, hex_to_32, hex_val, node_id_from_seed, parse_cli, parse_peer_spec, parse_u32, str_eq,
    CliCommand, UsageError,
};
use poa_chain::text::{is_blank, push_decimal, string_of, white_space};

const HEX_A: &str = "0102030405060708090a0b0c0d0e0f101112131415161718191a1b1c1d1e1f20";
const HEX_B: &str = "AABBCCDDEEFF00112233445566778899aabbccddeeff00112233445566778899";

fn args(v: &[&str]) -> Vec<String> {
    v.iter().map(|s| s.to_string()).collect()
}

fn usage(v: &[&str]) -> UsageError {
    match parse_cli(&args(v)) {
        CliCommand::Usage(e) => e,
        other => panic!("expected usage, got {other:?}"),
    }
}

#[test]
fn hex_val_of_each_kind_of_digit() {
    assert_eq!(hex_val(b'0'), Some(0));
    assert_eq!(hex_val(b'9'), Some(9));
    assert_eq!(hex_val(b'a'), Some(10));
    assert_eq!(hex_val(b'F'), Some(15));
    assert_eq!(hex_val(b'g'), None);
    assert_eq!(hex_val(b' '), None);
}

#[test]
fn hex_to_32_decodes_both_cases() {
    let a = hex_to_32(HEX_A).unwrap();
    let expected: Vec<u8> = (1..=32).collect();
    assert_eq!(a.to_vec(), expected);
    let b = hex_to_32(HEX_B).unwrap();
    assert_eq!(b[0], 0xaa);
    assert_eq!(b[16], 0xaa);
    assert_eq!(b[31], 0x99);
}

#[test]
fn hex_to_32_reports_wrong_length() {
    assert_eq!(hex_to_32("abc"), Err("seed must be 64 hex chars, got 3".to_string()));
    assert_eq!(hex_to_32(""), Err("seed must be 64 hex chars, got 0".to_string()));
    let long = format!("{HEX_A}00");
    assert_eq!(hex_to_32(&long), Err("seed must be 64 hex chars, got 66".to_string()));
}

#[test]
fn hex_to_32_reports_first_bad_position() {
    let mut s = HEX_A.to_string();
    s.replace_range(10..11, "z");
    assert_eq!(hex_to_32(&s), Err("invalid hex at pos 10".to_string()));
    let mut t = HEX_A.to_string();
    t.replace_range(63..64, "x");
    assert_eq!(hex_to_32(&t), Err("invalid hex at pos 63".to_string()));
}

#[test]
fn hex_to_32_counts_bytes_not_chars() {
    // 62 ASCII digits and one two-byte character: 64 bytes, the first bad one at 62
    let s = format!("{}é", &HEX_A[..62]);
    assert_eq!(s.len(), 64);
    assert_eq!(hex_to_32(&s), Err("invalid hex at pos 62".to_string()));
}

#[test]
fn bytes_to_hex_is_lowercase_pairs() {
    assert_eq!(bytes_to_hex(&[]), "");
    assert_eq!(bytes_to_hex(&[0x00, 0x0f, 0xa0, 0xff]), "000fa0ff");
}

#[test]
fn hex_round_trip() {
    let bytes: [u8; 32] = core::array::from_fn(|i| (i as u8).wrapping_mul(37));
    assert_eq!(hex_to_32(&bytes_to_hex(&bytes)), Ok(bytes));
}

#[test]
fn node_id_is_first_four_seed_bytes_big_endian() {
    let mut seed = [0u8; 32];
    seed[0] = 0x12;
    seed[1] = 0x34;
    seed[2] = 0x56;
    seed[3] = 0x78;
    seed[4] = 0xff;
    assert_eq!(node_id_from_seed(&seed), 0x12345678);
}

#[test]
fn parse_u32_as_std_does() {
    assert_eq!(parse_u32("0"), Some(0));
    assert_eq!(parse_u32("42"), Some(42));
    assert_eq!(parse_u32("+7"), Some(7));
    assert_eq!(parse_u32("4294967295"), Some(u32::MAX));
    assert_eq!(parse_u32("4294967296"), None);
    assert_eq!(parse_u32(""), None);
    assert_eq!(parse_u32("+"), None);
    assert_eq!(parse_u32("-1"), None);
    assert_eq!(parse_u32("1 "), None);
    assert_eq!(parse_u32("12a"), None);
    for s in ["0", "17", "+3", "99999999999", "", "x"] {
        assert_eq!(parse_u32(s), s.parse::<u32>().ok());
    }
}

#[test]
fn peer_spec_parses_id_and_address() {
    assert_eq!(parse_peer_spec("2@10.0.0.12:7001"), Ok((2, "10.0.0.12:7001".to_string())));
    assert_eq!(parse_peer_spec("3@a@b"), Ok((3, "a@b".to_string())));
}

#[test]
fn peer_spec_without_at_sign() {
    assert_eq!(parse_peer_spec("10.0.0.12:7001"), Err("peer must be in format <id@ip:port>".to_string()));
}

#[test]
fn peer_spec_with_bad_id() {
    assert_eq!(parse_peer_spec("x@host:1"), Err("invalid peer id 'x'".to_string()));
    assert_eq!(parse_peer_spec("@host:1"), Err("invalid peer id ''".to_string()));
}

#[test]
fn peer_spec_with_blank_address() {
    assert_eq!(parse_peer_spec("4@"), Err("peer addr is empty".to_string()));
    assert_eq!(parse_peer_spec("4@  \t"), Err("peer addr is empty".to_string()));
}

#[test]
fn str_eq_compares_characters() {
    assert!(str_eq("--seed", "--seed"));
    assert!(!str_eq("--seed", "--see"));
    assert!(!str_eq("a", "b"));
}

#[test]
fn cli_full_run_arguments() {
    let cmd = parse_cli(&args(&[
        "--listen", "0.0.0.0:7001", "--seed", HEX_A, "--admin", "127.0.0.1:8001",
        "--validator-pubkey", HEX_A, "--validator-pubkey", HEX_B, "--peer", "2@10.0.0.12:7001",
    ]));
    match cmd {
        CliCommand::Run(a) => {
            assert_eq!(a.node_id, 0x01020304);
            assert_eq!(a.listen, "0.0.0.0:7001");
            assert_eq!(a.admin_listen, "127.0.0.1:8001");
            assert_eq!(a.seed, hex_to_32(HEX_A).unwrap());
            assert_eq!(a.validator_pubkeys, vec![hex_to_32(HEX_A).unwrap(), hex_to_32(HEX_B).unwrap()]);
            assert_eq!(a.peers, vec![(2, "10.0.0.12:7001".to_string())]);
        }
        other => panic!("expected run, got {other:?}"),
    }
}

#[test]
fn cli_gen_seed_wins_over_missing_settings() {
    assert!(matches!(parse_cli(&args(&["--gen-seed"])), CliCommand::GenSeed));
    assert!(matches!(parse_cli(&args(&["--listen", "x", "--gen-seed"])), CliCommand::GenSeed));
}

#[test]
fn cli_gen_seed_does_not_excuse_bad_values() {
    assert_eq!(usage(&["--gen-seed", "--seed", "zz"]), UsageError::BadSeed);
}

#[test]
fn cli_missing_value() {
    assert_eq!(usage(&["--listen"]), UsageError::MissingValue);
    assert_eq!(usage(&["--gen-seed", "--peer"]), UsageError::MissingValue);
}

#[test]
fn cli_bad_values() {
    assert_eq!(usage(&["--seed", "00"]), UsageError::BadSeed);
    assert_eq!(usage(&["--validator-pubkey", "nothex"]), UsageError::BadValidatorPubkey);
    assert_eq!(usage(&["--peer", "nohost"]), UsageError::BadPeer);
}

#[test]
fn cli_help_and_unknown() {
    assert_eq!(usage(&["--help"]), UsageError::Help);
    assert_eq!(usage(&["-h", "--listen"]), UsageError::Help);
    assert_eq!(usage(&["--frobnicate"]), UsageError::UnknownArg("--frobnicate".to_string()));
}

#[test]
fn cli_missing_settings_in_order() {
    assert_eq!(usage(&[]), UsageError::MissingListen);
    assert_eq!(usage(&["--listen", "a"]), UsageError::MissingSeed);
    assert_eq!(usage(&["--listen", "a", "--seed", HEX_A]), UsageError::MissingAdmin);
    assert_eq!(usage(&["--listen", "a", "--seed", HEX_A, "--admin", "b"]), UsageError::NoValidators);
}

#[test]
fn cli_peer_must_not_be_self() {
    let e = usage(&[
        "--listen", "a", "--seed", HEX_A, "--admin", "b", "--validator-pubkey", HEX_B, "--peer",
        "16909060@h:1",
    ]);
    assert_eq!(e, UsageError::PeerIsSelf(0x01020304));
}

#[test]
fn cli_later_flag_overrides_earlier() {
    match parse_cli(&args(&[
        "--listen", "a", "--listen", "b", "--seed", HEX_A, "--admin", "c", "--validator-pubkey", HEX_B,
    ])) {
        CliCommand::Run(a) => assert_eq!(a.listen, "b"),
        other => panic!("expected run, got {other:?}"),
    }
}

#[test]
fn trim_strips_white_space_at_both_ends() {
    assert_eq!(trim("  print \t"), "print");
    assert_eq!(trim(""), "");
    assert_eq!(trim(" \n "), "");
    assert_eq!(trim("a b"), "a b");
}

#[test]
fn admin_lines() {
    assert_eq!(parse_admin_line("print"), AdminCommand::Print);
    assert_eq!(parse_admin_line("  stop  "), AdminCommand::Stop);
    assert_eq!(parse_admin_line(""), AdminCommand::Skip);
    assert_eq!(parse_admin_line("   "), AdminCommand::Skip);
    assert_eq!(parse_admin_line("trx hello world "), AdminCommand::Trx("hello world".to_string()));
    assert_eq!(parse_admin_line("trx    padded"), AdminCommand::Trx("padded".to_string()));
    assert_eq!(parse_admin_line("trx    "), AdminCommand::Skip);
    assert_eq!(parse_admin_line("trx"), AdminCommand::Skip);
    assert_eq!(parse_admin_line("Print"), AdminCommand::Skip);
    assert_eq!(parse_admin_line("transfer"), AdminCommand::Skip);
}

#[test]
fn text_helpers() {
    let mut s = string_of("n=");
    push_decimal(&mut s, 0);
    assert_eq!(s, "n=0");
    let mut t = String::new();
    push_decimal(&mut t, u64::MAX);
    assert_eq!(t, u64::MAX.to_string());
    assert!(white_space(' '));
    assert!(white_space('\u{3000}'));
    assert!(!white_space('x'));
    for c in (0u32..0x11_0000).filter_map(char::from_u32) {
        assert_eq!(white_space(c), c.is_whitespace());
    }
    assert!(is_blank(""));
    assert!(is_blank(" \t\r\n"));
    assert!(!is_blank(" a "));
}

#[test]
fn hex_parse_then_print_gives_lowercase_digits() {
    assert_eq!(bytes_to_hex(&hex_to_32(HEX_B).unwrap()), HEX_B.to_lowercase());
    assert_eq!(bytes_to_hex(&hex_to_32(HEX_A).unwrap()), HEX_A);
}
