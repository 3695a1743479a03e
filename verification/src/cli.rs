use vstd::prelude::*;
use vstd::string::StringSliceAdditionalSpecFns;
use crate::text::{decimal, is_blank, is_white_space, push_char, push_decimal, string_of};
use vstd::string::StringExecFns;

verus! {

broadcast use vstd::string::group_string_axioms;

/// `b` is an ASCII hexadecimal digit, either case.
pub open spec fn is_hex_byte(b: u8) -> bool {
    (0x30 <= b <= 0x39) || (0x61 <= b <= 0x66) || (0x41 <= b <= 0x46)
}

/// The value of a hexadecimal digit.
pub open spec fn hex_value(b: u8) -> u8 {
    if 0x30 <= b <= 0x39 {
        (b - 0x30) as u8
    } else if 0x61 <= b <= 0x66 {
        (b - 0x61 + 10) as u8
    } else {
        (b - 0x41 + 10) as u8
    }
}

/// The value of a hexadecimal digit, `None` for any other byte.
pub fn hex_val(b: u8) -> (res: Option<u8>)
    ensures
        res == if is_hex_byte(b) {
            Some(hex_value(b))
        } else {
            None::<u8>
        },
{
    if b >= 0x30 && b <= 0x39 {
        Some(b - 0x30)
    } else if b >= 0x61 && b <= 0x66 {
        Some(b - 0x61 + 10)
    } else if b >= 0x41 && b <= 0x46 {
        Some(b - 0x41 + 10)
    } else {
        None
    }
}

/// The bytes that pairs of hexadecimal digits denote, high digit first.
pub open spec fn hex_decode(bs: Seq<u8>) -> Seq<u8> {
    Seq::new(bs.len() / 2, |i: int| (hex_value(bs[2 * i]) * 16 + hex_value(bs[2 * i + 1])) as u8)
}

/// All bytes are hexadecimal digits.
pub open spec fn all_hex(bs: Seq<u8>) -> bool {
    forall|i: int| 0 <= i < bs.len() ==> is_hex_byte(#[trigger] bs[i])
}

/// The first position that holds no hexadecimal digit (when there is one).
pub open spec fn first_non_hex(bs: Seq<u8>) -> int {
    choose|p: int|
        0 <= p < bs.len() && !is_hex_byte(bs[p]) && forall|q: int| 0 <= q < p ==> is_hex_byte(bs[q])
}

/// Message for a key of the wrong length.
pub open spec fn hex_length_message(n: nat) -> Seq<char> {
    "seed must be 64 hex chars, got "@ + decimal(n)
}

/// Message for a byte that is no hexadecimal digit.
pub open spec fn hex_position_message(p: nat) -> Seq<char> {
    "invalid hex at pos "@ + decimal(p)
}

proof fn lemma_first_non_hex(bs: Seq<u8>, p: int)
    requires
        0 <= p < bs.len(),
        !is_hex_byte(bs[p]),
        forall|q: int| 0 <= q < p ==> is_hex_byte(bs[q]),
    ensures
        first_non_hex(bs) == p,
{
    let c = first_non_hex(bs);
    assert(0 <= c < bs.len() && !is_hex_byte(bs[c]) && forall|q: int| 0 <= q < c ==> is_hex_byte(bs[q]));
    if c < p {
        assert(is_hex_byte(bs[c]));
    } else if c > p {
        assert(is_hex_byte(bs[p]));
    }
}

/// Decodes 64 hexadecimal digits (the UTF-8 bytes of `s`) into 32 bytes.
pub fn hex_to_32(s: &str) -> (res: Result<[u8; 32], String>)
    ensures
        ({
            let bs = s.spec_bytes();
            &&& bs.len() != 64 ==> (res matches Err(m) && m@ == hex_length_message(bs.len()))
            &&& bs.len() == 64 && all_hex(bs) ==> (res matches Ok(a) && a@ == hex_decode(bs))
            &&& bs.len() == 64 && !all_hex(bs) ==> (res matches Err(m) && m@
                == hex_position_message(first_non_hex(bs) as nat))
        }),
{
    let bytes = s.as_bytes();
    if bytes.len() != 64 {
        let mut m = string_of("seed must be 64 hex chars, got ");
        push_decimal(&mut m, bytes.len() as u64);
        return Err(m);
    }
    let mut out = [0u8; 32];
    let mut i: usize = 0;
    while i < 32
        invariant
            bytes@ == s.spec_bytes(),
            bytes@.len() == 64,
            0 <= i <= 32,
            forall|q: int| 0 <= q < 2 * i ==> is_hex_byte(#[trigger] bytes@[q]),
            forall|k: int| 0 <= k < i ==> #[trigger] out@[k] == hex_decode(bytes@)[k],
        decreases 32 - i,
    {
        let hi = match hex_val(bytes[2 * i]) {
            Some(v) => v,
            None => {
                proof {
                    lemma_first_non_hex(bytes@, 2 * i);
                }
                let mut m = string_of("invalid hex at pos ");
                push_decimal(&mut m, (2 * i) as u64);
                return Err(m);
            },
        };
        let lo = match hex_val(bytes[2 * i + 1]) {
            Some(v) => v,
            None => {
                proof {
                    lemma_first_non_hex(bytes@, 2 * i + 1);
                }
                let mut m = string_of("invalid hex at pos ");
                push_decimal(&mut m, (2 * i + 1) as u64);
                return Err(m);
            },
        };
        assert((hi << 4u8) | lo == hi * 16 + lo) by (bit_vector)
            requires
                hi < 16,
                lo < 16,
        ;
        out[i] = (hi << 4u8) | lo;
        i = i + 1;
    }
    assert(out@ =~= hex_decode(bytes@));
    Ok(out)
}

/// The lowercase hexadecimal digit for `v` (`v < 16`).
pub open spec fn hex_char(v: nat) -> char {
    if v < 10 {
        crate::text::digit_char(v)
    } else if v == 10 {
        'a'
    } else if v == 11 {
        'b'
    } else if v == 12 {
        'c'
    } else if v == 13 {
        'd'
    } else if v == 14 {
        'e'
    } else {
        'f'
    }
}

/// Two lowercase hexadecimal digits per byte, high digit first.
pub open spec fn hex_encode(bytes: Seq<u8>) -> Seq<char> {
    Seq::new(
        2 * bytes.len(),
        |i: int|
            if i % 2 == 0 {
                hex_char((bytes[i / 2] / 16) as nat)
            } else {
                hex_char((bytes[i / 2] % 16) as nat)
            },
    )
}

fn hex_digit_char(v: u8) -> (res: char)
    requires
        v < 16,
    ensures
        res == hex_char(v as nat),
{
    let table: [char; 16] = [
        '0', '1', '2', '3', '4', '5', '6', '7', '8', '9', 'a', 'b', 'c', 'd', 'e', 'f',
    ];
    table[v as usize]
}

/// Lowercase hexadecimal text of `bytes`.
pub fn bytes_to_hex(bytes: &[u8]) -> (res: String)
    ensures
        res@ == hex_encode(bytes@),
{
    let mut out = String::new();
    let n = bytes.len();
    let mut i: usize = 0;
    while i < n
        invariant
            n == bytes@.len(),
            0 <= i <= n,
            out@ =~= hex_encode(bytes@).take(2 * i),
        decreases n - i,
    {
        let b = bytes[i];
        assert(b >> 4u8 == b / 16 && b & 0x0fu8 == b % 16) by (bit_vector);
        push_char(&mut out, hex_digit_char(b >> 4u8));
        push_char(&mut out, hex_digit_char(b & 0x0fu8));
        assert(hex_encode(bytes@).take(2 * i + 2) =~= hex_encode(bytes@).take(2 * i).push(
            hex_char((b / 16) as nat),
        ).push(hex_char((b % 16) as nat)));
        i = i + 1;
    }
    assert(hex_encode(bytes@).take(2 * n) =~= hex_encode(bytes@));
    out
}

/// The node id a seed gives: its first four bytes, big-endian.
pub fn node_id_from_seed(seed: &[u8; 32]) -> (res: u32)
    ensures
        res == seed@[0] * 0x1000000 + seed@[1] * 0x10000 + seed@[2] * 0x100 + seed@[3],
{
    let a = seed[0] as u32;
    let b = seed[1] as u32;
    let c = seed[2] as u32;
    let d = seed[3] as u32;
    a * 0x1000000 + b * 0x10000 + c * 0x100 + d
}


/// `c` is an ASCII decimal digit.
pub open spec fn is_digit_char(c: char) -> bool {
    '0' <= c <= '9'
}

/// The number that a string of decimal digits denotes.
pub open spec fn digits_value(ds: Seq<char>) -> nat
    decreases ds.len(),
{
    if ds.len() == 0 {
        0
    } else {
        digits_value(ds.drop_last()) * 10 + ((ds.last() as u32) - 48) as nat
    }
}

/// The digits of an unsigned number: the text without one leading `+`.
pub open spec fn unsigned_digits(s: Seq<char>) -> Seq<char> {
    if s.len() > 0 && s[0] == '+' {
        s.drop_first()
    } else {
        s
    }
}

/// What `u32::from_str` gives: an optional `+`, then at least one decimal
/// digit and nothing else, denoting at most `u32::MAX`.
pub open spec fn parse_u32_spec(s: Seq<char>) -> Option<u32> {
    let ds = unsigned_digits(s);
    if ds.len() > 0 && (forall|i: int| 0 <= i < ds.len() ==> is_digit_char(#[trigger] ds[i]))
        && digits_value(ds) <= u32::MAX {
        Some(digits_value(ds) as u32)
    } else {
        None
    }
}

proof fn lemma_digits_value_grows(ds: Seq<char>, k: int)
    requires
        0 <= k <= ds.len(),
        forall|i: int| 0 <= i < ds.len() ==> is_digit_char(#[trigger] ds[i]),
    ensures
        digits_value(ds) >= digits_value(ds.take(k)),
    decreases ds.len(),
{
    if k < ds.len() {
        assert(ds.drop_last().take(k) =~= ds.take(k));
        lemma_digits_value_grows(ds.drop_last(), k);
    } else {
        assert(ds.take(k) =~= ds);
    }
}

/// Parses a `u32` as `str::parse::<u32>` does.
pub fn parse_u32(s: &str) -> (res: Option<u32>)
    ensures
        res == parse_u32_spec(s@),
{
    let n = s.unicode_len();
    let mut i: usize = 0;
    if n > 0 && s.get_char(0) == '+' {
        i = 1;
    }
    let start = i;
    let ghost ds = unsigned_digits(s@);
    assert(ds =~= s@.skip(start as int));
    if i == n {
        return None;
    }
    let mut acc: u64 = 0;
    while i < n
        invariant
            n == s@.len(),
            start <= i <= n,
            start < n,
            ds == s@.skip(start as int),
            ds == unsigned_digits(s@),
            acc == digits_value(ds.take(i - start)),
            acc <= u32::MAX,
            forall|j: int| 0 <= j < i - start ==> is_digit_char(#[trigger] ds[j]),
        decreases n - i,
    {
        let c = s.get_char(i);
        if !('0' <= c && c <= '9') {
            assert(!is_digit_char(ds[i - start]));
            return None;
        }
        let d = (c as u32 - 48) as u64;
        let ghost k = i - start;
        assert(c == ds[k]);
        assert(ds.take(k + 1).drop_last() =~= ds.take(k));
        assert(ds.take(k + 1).last() == ds[k]);
        assert(digits_value(ds.take(k + 1)) == digits_value(ds.take(k)) * 10 + d);
        acc = acc * 10 + d;
        i = i + 1;
        if acc > u32::MAX as u64 {
            proof {
                if forall|j: int| 0 <= j < ds.len() ==> is_digit_char(#[trigger] ds[j]) {
                    lemma_digits_value_grows(ds, i - start);
                }
            }
            return None;
        }
    }
    assert(ds.take(n - start) =~= ds);
    Some(acc as u32)
}

/// Message for a peer without `@`.
pub open spec fn peer_format_message() -> Seq<char> {
    "peer must be in format <id@ip:port>"@
}

/// Message for a peer whose id does not parse.
pub open spec fn peer_id_message(id: Seq<char>) -> Seq<char> {
    "invalid peer id '"@ + id + "'"@
}

/// Message for a peer with a blank address.
pub open spec fn peer_addr_message() -> Seq<char> {
    "peer addr is empty"@
}

/// The position of the first `@` (when there is one).
pub open spec fn first_at(s: Seq<char>) -> int {
    choose|p: int| 0 <= p < s.len() && s[p] == '@' && forall|q: int| 0 <= q < p ==> s[q] != '@'
}

/// What a peer given as `<id>@<address>` parses to: split at the first
/// `@`, the id as a `u32` and the address, which must not be blank.
pub open spec fn peer_spec_result(s: Seq<char>) -> Result<(u32, Seq<char>), Seq<char>> {
    if !s.contains('@') {
        Err(peer_format_message())
    } else {
        let p = first_at(s);
        let id = s.take(p);
        let addr = s.skip(p + 1);
        match parse_u32_spec(id) {
            None => Err(peer_id_message(id)),
            Some(v) => if forall|i: int| 0 <= i < addr.len() ==> is_white_space(#[trigger] addr[i]) {
                Err(peer_addr_message())
            } else {
                Ok((v, addr))
            },
        }
    }
}

/// Parses a peer given as `<id>@<address>`, such as `2@10.0.0.12:7001`.
pub fn parse_peer_spec(s: &str) -> (res: Result<(u32, String), String>)
    ensures
        match peer_spec_result(s@) {
            Ok((id, addr)) => res matches Ok((i, a)) && i == id && a@ == addr,
            Err(m) => res matches Err(e) && e@ == m,
        },
{
    let n = s.unicode_len();
    let mut p: usize = 0;
    while p < n && s.get_char(p) != '@'
        invariant
            n == s@.len(),
            0 <= p <= n,
            forall|q: int| 0 <= q < p ==> s@[q] != '@',
        decreases n - p,
    {
        p = p + 1;
    }
    if p == n {
        assert(!s@.contains('@'));
        return Err(string_of("peer must be in format <id@ip:port>"));
    }
    proof {
        let c = first_at(s@);
        assert(s@[p as int] == '@');
        assert(0 <= c < s@.len() && s@[c] == '@' && forall|q: int| 0 <= q < c ==> s@[q] != '@');
        if c < p {
            assert(s@[c] != '@');
        } else if c > p {
            assert(s@[p as int] != '@');
        }
    }
    let id_str = s.substring_char(0, p);
    let addr = s.substring_char(p + 1, n);
    assert(id_str@ =~= s@.take(p as int));
    assert(addr@ =~= s@.skip(p + 1));
    let id = match parse_u32(id_str) {
        Some(v) => v,
        None => {
            let mut m = string_of("invalid peer id '");
            m.append(id_str);
            m.append("'");
            return Err(m);
        },
    };
    if is_blank(addr) {
        return Err(string_of("peer addr is empty"));
    }
    Ok((id, string_of(addr)))
}


/// Whether two strings hold the same characters.
pub fn str_eq(a: &str, b: &str) -> (res: bool)
    ensures
        res == (a@ == b@),
{
    let n = a.unicode_len();
    if n != b.unicode_len() {
        return false;
    }
    let mut i: usize = 0;
    while i < n
        invariant
            n == a@.len(),
            n == b@.len(),
            0 <= i <= n,
            forall|j: int| 0 <= j < i ==> a@[j] == b@[j],
        decreases n - i,
    {
        if a.get_char(i) != b.get_char(i) {
            return false;
        }
        i = i + 1;
    }
    assert(a@ =~= b@);
    true
}

/// The 32 bytes that 64 hexadecimal digits (in UTF-8) denote, if they do.
pub open spec fn hex32_parse(s: Seq<char>) -> Option<Seq<u8>> {
    let bs = vstd::utf8::encode_utf8(s);
    if bs.len() == 64 && all_hex(bs) {
        Some(hex_decode(bs))
    } else {
        None
    }
}

/// Command-line settings of a node.
#[derive(Debug)]
pub struct CliArgs {
    /// Network id of the node, from the first four bytes of the seed.
    pub node_id: u32,
    /// Address to listen on for peers, `host:port`.
    pub listen: String,
    /// Address of the admin console, `host:port`.
    pub admin_listen: String,
    /// Seed of the node's key.
    pub seed: [u8; 32],
    /// Public keys of the validators, in order.
    pub validator_pubkeys: Vec<[u8; 32]>,
    /// Peers to connect to: their id and address.
    pub peers: Vec<(u32, String)>,
}

/// Why the arguments call for the usage text.
#[derive(Debug, PartialEq, Eq)]
pub enum UsageError {
    /// A flag that takes a value comes last.
    MissingValue,
    /// The value of `--seed` is no 64-digit hex string.
    BadSeed,
    /// The value of `--validator-pubkey` is no 64-digit hex string.
    BadValidatorPubkey,
    /// The value of `--peer` is no `<id>@<address>`.
    BadPeer,
    /// `--help` or `-h`.
    Help,
    /// An argument that is no flag.
    UnknownArg(String),
    MissingListen,
    MissingSeed,
    MissingAdmin,
    /// No `--validator-pubkey` was given.
    NoValidators,
    /// A peer has the node's own id.
    PeerIsSelf(u32),
}

/// What the command line asks for.
#[derive(Debug)]
pub enum CliCommand {
    /// Run a node with these settings.
    Run(CliArgs),
    /// Make a fresh seed, print it with its key and id, and exit.
    GenSeed,
    /// Print the usage text and exit.
    Usage(UsageError),
}

/// The settings gathered while reading the arguments.
pub ghost struct ScanState {
    pub listen: Option<Seq<char>>,
    pub seed: Option<Seq<u8>>,
    pub pubkeys: Seq<Seq<u8>>,
    pub peers: Seq<(u32, Seq<char>)>,
    pub gen_seed: bool,
    pub admin: Option<Seq<char>>,
}

/// Why reading the arguments stopped early; an unknown argument by position.
pub ghost enum ScanStop {
    MissingValue,
    BadSeed,
    BadValidatorPubkey,
    BadPeer,
    Help,
    UnknownArg(int),
}

/// Reads the arguments from position `i` on, from the settings `st`.
pub open spec fn scan(args: Seq<Seq<char>>, i: int, st: ScanState) -> Result<ScanState, ScanStop>
    decreases args.len() - i,
{
    if i < 0 || i >= args.len() {
        Ok(st)
    } else {
        let a = args[i];
        let has_value = i + 1 < args.len();
        if a == "--gen-seed"@ {
            scan(args, i + 1, ScanState { gen_seed: true, ..st })
        } else if a == "--admin"@ {
            if !has_value {
                Err(ScanStop::MissingValue)
            } else {
                scan(args, i + 2, ScanState { admin: Some(args[i + 1]), ..st })
            }
        } else if a == "--listen"@ {
            if !has_value {
                Err(ScanStop::MissingValue)
            } else {
                scan(args, i + 2, ScanState { listen: Some(args[i + 1]), ..st })
            }
        } else if a == "--seed"@ {
            if !has_value {
                Err(ScanStop::MissingValue)
            } else {
                match hex32_parse(args[i + 1]) {
                    None => Err(ScanStop::BadSeed),
                    Some(b) => scan(args, i + 2, ScanState { seed: Some(b), ..st }),
                }
            }
        } else if a == "--validator-pubkey"@ {
            if !has_value {
                Err(ScanStop::MissingValue)
            } else {
                match hex32_parse(args[i + 1]) {
                    None => Err(ScanStop::BadValidatorPubkey),
                    Some(b) => scan(args, i + 2, ScanState { pubkeys: st.pubkeys.push(b), ..st }),
                }
            }
        } else if a == "--peer"@ {
            if !has_value {
                Err(ScanStop::MissingValue)
            } else {
                match peer_spec_result(args[i + 1]) {
                    Err(_) => Err(ScanStop::BadPeer),
                    Ok(p) => scan(args, i + 2, ScanState { peers: st.peers.push(p), ..st }),
                }
            }
        } else if a == "--help"@ || a == "-h"@ {
            Err(ScanStop::Help)
        } else {
            Err(ScanStop::UnknownArg(i))
        }
    }
}

/// The settings before any argument is read.
pub open spec fn scan_start() -> ScanState {
    ScanState {
        listen: None,
        seed: None,
        pubkeys: Seq::empty(),
        peers: Seq::empty(),
        gen_seed: false,
        admin: None,
    }
}

/// The node id of a seed, as `node_id_from_seed` computes it.
pub open spec fn seed_node_id(seed: Seq<u8>) -> u32 {
    (seed[0] * 0x1000000 + seed[1] * 0x10000 + seed[2] * 0x100 + seed[3]) as u32
}

/// The first peer with id `id` (when there is one).
pub open spec fn has_peer_id(peers: Seq<(u32, Seq<char>)>, id: u32) -> bool {
    exists|i: int| 0 <= i < peers.len() && peers[i].0 == id
}

/// `res` is what the command line `args` asks for: reading stops at the
/// first bad argument; then `--gen-seed` wins; then listen address, seed,
/// admin address, at least one validator and no peer with the node's own id
/// are required, in that order.
pub open spec fn cli_result(args: Seq<Seq<char>>, res: CliCommand) -> bool {
    match scan(args, 0, scan_start()) {
        Err(stop) => match stop {
            ScanStop::MissingValue => res == CliCommand::Usage(UsageError::MissingValue),
            ScanStop::BadSeed => res == CliCommand::Usage(UsageError::BadSeed),
            ScanStop::BadValidatorPubkey => res == CliCommand::Usage(UsageError::BadValidatorPubkey),
            ScanStop::BadPeer => res == CliCommand::Usage(UsageError::BadPeer),
            ScanStop::Help => res == CliCommand::Usage(UsageError::Help),
            ScanStop::UnknownArg(k) => res matches CliCommand::Usage(UsageError::UnknownArg(a))
                && a@ == args[k],
        },
        Ok(st) => if st.gen_seed {
            res is GenSeed
        } else if st.listen is None {
            res == CliCommand::Usage(UsageError::MissingListen)
        } else if st.seed is None {
            res == CliCommand::Usage(UsageError::MissingSeed)
        } else if st.admin is None {
            res == CliCommand::Usage(UsageError::MissingAdmin)
        } else if st.pubkeys.len() == 0 {
            res == CliCommand::Usage(UsageError::NoValidators)
        } else if has_peer_id(st.peers, seed_node_id(st.seed->0)) {
            res == CliCommand::Usage(UsageError::PeerIsSelf(seed_node_id(st.seed->0)))
        } else {
            res matches CliCommand::Run(a) && {
                &&& a.node_id == seed_node_id(st.seed->0)
                &&& a.listen@ == st.listen->0
                &&& a.admin_listen@ == st.admin->0
                &&& a.seed@ == st.seed->0
                &&& a.validator_pubkeys@.map_values(|k: [u8; 32]| k@) == st.pubkeys
                &&& a.peers@.map_values(|p: (u32, String)| (p.0, p.1@)) == st.peers
            }
        },
    }
}

/// Reading `args + w` from a position inside `args` goes as reading `args`
/// does, then goes on in `w`, when reading `args` succeeds.
proof fn lemma_scan_prefix(args: Seq<Seq<char>>, w: Seq<Seq<char>>, i: int, st: ScanState)
    requires
        0 <= i <= args.len(),
        scan(args, i, st) is Ok,
    ensures
        scan(args + w, i, st) == scan(args + w, args.len() as int, scan(args, i, st)->Ok_0),
    decreases args.len() - i,
{
    let all = args + w;
    if i < args.len() {
        let a = args[i];
        assert(all[i] == a);
        if i + 1 < args.len() {
            assert(all[i + 1] == args[i + 1]);
        }
        if a == "--gen-seed"@ {
            lemma_scan_prefix(args, w, i + 1, ScanState { gen_seed: true, ..st });
        } else if a == "--admin"@ {
            lemma_scan_prefix(args, w, i + 2, ScanState { admin: Some(args[i + 1]), ..st });
        } else if a == "--listen"@ {
            lemma_scan_prefix(args, w, i + 2, ScanState { listen: Some(args[i + 1]), ..st });
        } else if a == "--seed"@ {
            let b = hex32_parse(args[i + 1])->0;
            lemma_scan_prefix(args, w, i + 2, ScanState { seed: Some(b), ..st });
        } else if a == "--validator-pubkey"@ {
            let b = hex32_parse(args[i + 1])->0;
            lemma_scan_prefix(args, w, i + 2, ScanState { pubkeys: st.pubkeys.push(b), ..st });
        } else if a == "--peer"@ {
            let p = peer_spec_result(args[i + 1])->Ok_0;
            lemma_scan_prefix(args, w, i + 2, ScanState { peers: st.peers.push(p), ..st });
        }
    }
}

/// Each `--peer` adds its peer after those read before it: reading a command
/// line with `--peer spec` appended gives the settings of the command line
/// with the peer of `spec` added at the end, all else unchanged.
pub proof fn law_extra_peer_is_appended(args: Seq<Seq<char>>, spec: Seq<char>)
    requires
        scan(args, 0, scan_start()) is Ok,
        peer_spec_result(spec) is Ok,
    ensures
        ({
            let st = scan(args, 0, scan_start())->Ok_0;
            let p = peer_spec_result(spec)->Ok_0;
            scan(args + seq!["--peer"@, spec], 0, scan_start()) == Ok::<ScanState, ScanStop>(
                ScanState { peers: st.peers.push(p), ..st },
            )
        }),
{
    let w = seq!["--peer"@, spec];
    let all = args + w;
    let n = args.len() as int;
    lemma_scan_prefix(args, w, 0, scan_start());
    let st = scan(args, 0, scan_start())->Ok_0;
    let p = peer_spec_result(spec)->Ok_0;
    reveal_strlit("--peer");
    reveal_strlit("--gen-seed");
    reveal_strlit("--admin");
    reveal_strlit("--listen");
    reveal_strlit("--seed");
    reveal_strlit("--validator-pubkey");
    assert(all[n] == "--peer"@);
    assert(all[n + 1] == spec);
    assert("--peer"@ != "--seed"@) by {
        assert("--peer"@[2] != "--seed"@[2]);
    }
    assert("--peer"@.len() == 6 && "--gen-seed"@.len() == 10 && "--admin"@.len() == 7);
    assert("--listen"@.len() == 8 && "--validator-pubkey"@.len() == 18);
    assert(all.len() == n + 2);
    assert(scan(all, n + 2, ScanState { peers: st.peers.push(p), ..st }) == Ok::<ScanState, ScanStop>(
        ScanState { peers: st.peers.push(p), ..st },
    ));
    assert(scan(all, n, st) == scan(all, n + 2, ScanState { peers: st.peers.push(p), ..st }));
}

/// A run command line with `--peer spec` appended runs with the peers of the
/// command line followed by the peer of `spec`: every `--peer` is kept, in
/// order.
pub proof fn law_run_keeps_every_peer(
    args: Seq<Seq<char>>,
    spec: Seq<char>,
    r1: CliCommand,
    r2: CliCommand,
)
    requires
        cli_result(args, r1),
        cli_result(args + seq!["--peer"@, spec], r2),
        r1 is Run,
        r2 is Run,
        peer_spec_result(spec) is Ok,
    ensures
        r2->Run_0.peers@.map_values(|p: (u32, String)| (p.0, p.1@)) == r1->Run_0.peers@.map_values(
            |p: (u32, String)| (p.0, p.1@),
        ).push(peer_spec_result(spec)->Ok_0),
        r2->Run_0.peers@.len() == r1->Run_0.peers@.len() + 1,
{
    law_extra_peer_is_appended(args, spec);
}

/// The views of the strings of an argument list.
pub open spec fn arg_views(args: Seq<String>) -> Seq<Seq<char>> {
    args.map_values(|a: String| a@)
}


/// The settings that the gathered values stand for.
pub open spec fn state_of(
    listen: Option<String>,
    seed: Option<[u8; 32]>,
    pubkeys: Seq<[u8; 32]>,
    peers: Seq<(u32, String)>,
    gen_seed: bool,
    admin: Option<String>,
) -> ScanState {
    ScanState {
        listen: match listen {
            Some(l) => Some(l@),
            None => None,
        },
        seed: match seed {
            Some(b) => Some(b@),
            None => None,
        },
        pubkeys: pubkeys.map_values(|k: [u8; 32]| k@),
        peers: peers.map_values(|p: (u32, String)| (p.0, p.1@)),
        gen_seed,
        admin: match admin {
            Some(a) => Some(a@),
            None => None,
        },
    }
}

/// Reads the command line of a node (the arguments after the program name).
pub fn parse_cli(args: &Vec<String>) -> (res: CliCommand)
    ensures
        cli_result(arg_views(args@), res),
{
    let ghost v = arg_views(args@);
    let n = args.len();
    let mut listen: Option<String> = None;
    let mut seed: Option<[u8; 32]> = None;
    let mut validator_pubkeys: Vec<[u8; 32]> = Vec::new();
    let mut peers: Vec<(u32, String)> = Vec::new();
    let mut gen_seed: bool = false;
    let mut admin_listen: Option<String> = None;
    proof {
        assert(validator_pubkeys@.map_values(|k: [u8; 32]| k@) =~= Seq::<Seq<u8>>::empty());
        assert(peers@.map_values(|p: (u32, String)| (p.0, p.1@)) =~= Seq::<(u32, Seq<char>)>::empty());
        assert(state_of(listen, seed, validator_pubkeys@, peers@, gen_seed, admin_listen) == scan_start());
    }
    let mut i: usize = 0;
    while i < n
        invariant
            n == args@.len(),
            v == arg_views(args@),
            0 <= i <= n,
            scan(v, 0, scan_start()) == scan(
                v,
                i as int,
                state_of(listen, seed, validator_pubkeys@, peers@, gen_seed, admin_listen),
            ),
        decreases n - i,
    {
        let ghost st = state_of(listen, seed, validator_pubkeys@, peers@, gen_seed, admin_listen);
        let a = args[i].as_str();
        assert(a@ == v[i as int]);
        let has_value = i + 1 < n;
        if str_eq(a, "--gen-seed") {
            gen_seed = true;
            i = i + 1;
        } else if str_eq(a, "--admin") {
            if !has_value {
                return CliCommand::Usage(UsageError::MissingValue);
            }
            admin_listen = Some(args[i + 1].clone());
            i = i + 2;
        } else if str_eq(a, "--listen") {
            if !has_value {
                return CliCommand::Usage(UsageError::MissingValue);
            }
            listen = Some(args[i + 1].clone());
            i = i + 2;
        } else if str_eq(a, "--seed") {
            if !has_value {
                return CliCommand::Usage(UsageError::MissingValue);
            }
            match hex_to_32(args[i + 1].as_str()) {
                Ok(b) => {
                    seed = Some(b);
                },
                Err(_) => {
                    return CliCommand::Usage(UsageError::BadSeed);
                },
            }
            i = i + 2;
        } else if str_eq(a, "--validator-pubkey") {
            if !has_value {
                return CliCommand::Usage(UsageError::MissingValue);
            }
            match hex_to_32(args[i + 1].as_str()) {
                Ok(b) => {
                    validator_pubkeys.push(b);
                    assert(validator_pubkeys@.map_values(|k: [u8; 32]| k@) =~= st.pubkeys.push(b@));
                },
                Err(_) => {
                    return CliCommand::Usage(UsageError::BadValidatorPubkey);
                },
            }
            i = i + 2;
        } else if str_eq(a, "--peer") {
            if !has_value {
                return CliCommand::Usage(UsageError::MissingValue);
            }
            match parse_peer_spec(args[i + 1].as_str()) {
                Ok(p) => {
                    let ghost pv = (p.0, p.1@);
                    peers.push(p);
                    assert(peers@.map_values(|p: (u32, String)| (p.0, p.1@)) =~= st.peers.push(pv));
                },
                Err(_) => {
                    return CliCommand::Usage(UsageError::BadPeer);
                },
            }
            i = i + 2;
        } else if str_eq(a, "--help") || str_eq(a, "-h") {
            return CliCommand::Usage(UsageError::Help);
        } else {
            return CliCommand::Usage(UsageError::UnknownArg(args[i].clone()));
        }
    }
    let ghost st = state_of(listen, seed, validator_pubkeys@, peers@, gen_seed, admin_listen);
    assert(scan(v, 0, scan_start()) == Ok::<ScanState, ScanStop>(st));
    if gen_seed {
        return CliCommand::GenSeed;
    }
    let listen = match listen {
        Some(l) => l,
        None => {
            return CliCommand::Usage(UsageError::MissingListen);
        },
    };
    let seed = match seed {
        Some(b) => b,
        None => {
            return CliCommand::Usage(UsageError::MissingSeed);
        },
    };
    let node_id = node_id_from_seed(&seed);
    let admin_listen = match admin_listen {
        Some(a) => a,
        None => {
            return CliCommand::Usage(UsageError::MissingAdmin);
        },
    };
    if validator_pubkeys.len() == 0 {
        return CliCommand::Usage(UsageError::NoValidators);
    }
    let mut k: usize = 0;
    #[verifier::loop_isolation(false)]
    while k < peers.len()
        invariant
            0 <= k <= peers@.len(),
            forall|j: int| 0 <= j < k ==> peers@[j].0 != node_id,
        decreases peers@.len() - k,
    {
        if peers[k].0 == node_id {
            assert(st.peers[k as int].0 == node_id);
            return CliCommand::Usage(UsageError::PeerIsSelf(node_id));
        }
        k = k + 1;
    }
    assert(!has_peer_id(st.peers, node_id)) by {
        if has_peer_id(st.peers, node_id) {
            let j = choose|j: int| 0 <= j < st.peers.len() && st.peers[j].0 == node_id;
            assert(peers@[j].0 == node_id);
        }
    }
    CliCommand::Run(
        CliArgs { node_id, listen, admin_listen, seed, validator_pubkeys, peers },
    )
}

} // verus!
