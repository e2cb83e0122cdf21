//! The text transport: typed envelopes `SEER/{KIND}/{SEQ}/{SENDER}/{PAYLOAD}`
//! whose payloads and senders travel as lowercase hex.
use vstd::prelude::*;

verus! {

// ─── Characters and strings ──────────────────────────────────────────────────

/// Appends `c` to `s` with `String::push`, which std documents as appending
/// the given char to the end of the string; the contract says exactly that.
#[verifier::external_body]
pub(crate) fn push_char(s: &mut String, c: char)
    ensures
        final(s)@ == old(s)@.push(c),
{
    s.push(c);
}

/// The characters of a string slice.
pub fn chars_of(s: &str) -> (v: Vec<char>)
    ensures
        v@ == s@,
{
    let mut v: Vec<char> = Vec::new();
    for c in it: s.chars()
        invariant
            v@ == it.seq().subrange(0, it.index() as int),
    {
        v.push(c);
    }
    v
}

/// A string holding `chars`.
pub fn string_from(chars: &[char]) -> (s: String)
    ensures
        s@ == chars@,
{
    let mut s = String::new();
    let mut i: usize = 0;
    while i < chars.len()
        invariant
            i <= chars@.len(),
            s@ == chars@.subrange(0, i as int),
        decreases chars@.len() - i,
    {
        push_char(&mut s, chars[i]);
        proof {
            assert(chars@.subrange(0, i + 1) =~= chars@.subrange(0, i as int).push(chars@[i as int]));
        }
        i = i + 1;
    }
    assert(chars@.subrange(0, i as int) =~= chars@);
    s
}

/// Appends the characters of `t` to `s`.
pub(crate) fn push_chars(s: &mut String, t: &[char])
    ensures
        final(s)@ == old(s)@ + t@,
{
    let mut i: usize = 0;
    while i < t.len()
        invariant
            i <= t@.len(),
            s@ == old(s)@ + t@.subrange(0, i as int),
        decreases t@.len() - i,
    {
        push_char(s, t[i]);
        proof {
            assert(t@.subrange(0, i + 1) =~= t@.subrange(0, i as int).push(t@[i as int]));
        }
        i = i + 1;
    }
    assert(t@.subrange(0, i as int) =~= t@);
}

/// Appends the text of `t` to `s`.
pub(crate) fn push_str(s: &mut String, t: &str)
    ensures
        final(s)@ == old(s)@ + t@,
{
    let cs = chars_of(t);
    push_chars(s, cs.as_slice());
}

/// A string holding the text of `t`.
pub(crate) fn string_of(t: &str) -> (s: String)
    ensures
        s@ == t@,
{
    let mut s = String::new();
    push_str(&mut s, t);
    assert(s@ =~= t@);
    s
}

// ─── Hex ─────────────────────────────────────────────────────────────────────

/// The lowercase hex digit of a nibble.
pub open spec fn hex_digit(n: int) -> char {
    if n < 10 {
        (48 + n) as char
    } else {
        (87 + n) as char
    }
}

/// Lowercase hex: two digits per byte, high nibble first.
pub open spec fn spec_hex_encode(b: Seq<u8>) -> Seq<char> {
    Seq::new(
        2 * b.len(),
        |i: int|
            if i % 2 == 0 {
                hex_digit((b[i / 2] / 16) as int)
            } else {
                hex_digit((b[i / 2] % 16) as int)
            },
    )
}

fn hex_digit_exec(n: u8) -> (c: char)
    requires
        n < 16,
    ensures
        c == hex_digit(n as int),
{
    if n < 10 {
        (48u8 + n) as char
    } else {
        (87u8 + n) as char
    }
}

/// Appends the two lowercase hex digits of `b` to `s`.
pub(crate) fn push_hex_byte(s: &mut String, b: u8)
    ensures
        final(s)@ == old(s)@ + spec_hex_encode(seq![b]),
{
    push_char(s, hex_digit_exec(b / 16));
    push_char(s, hex_digit_exec(b % 16));
    assert(s@ =~= old(s)@ + spec_hex_encode(seq![b]));
}

/// Encodes bytes as a lowercase hex string.
pub fn hex_encode(bytes: &[u8]) -> (s: String)
    requires
        2 * bytes@.len() <= usize::MAX,
    ensures
        s@ == spec_hex_encode(bytes@),
{
    let mut s = String::new();
    let mut i: usize = 0;
    while i < bytes.len()
        invariant
            i <= bytes@.len(),
            2 * bytes@.len() <= usize::MAX,
            s@ == spec_hex_encode(bytes@).subrange(0, 2 * i),
        decreases bytes@.len() - i,
    {
        let b = bytes[i];
        push_char(&mut s, hex_digit_exec(b / 16));
        push_char(&mut s, hex_digit_exec(b % 16));
        proof {
            let e = spec_hex_encode(bytes@);
            assert(e[2 * i as int] == hex_digit((b / 16) as int)) by {
                assert((2 * i as int) % 2 == 0 && (2 * i as int) / 2 == i);
            }
            assert(e[2 * i + 1] == hex_digit((b % 16) as int)) by {
                assert((2 * i + 1) % 2 == 1 && (2 * i + 1) / 2 == i);
            }
            assert(e.subrange(0, 2 * (i + 1)) =~= e.subrange(0, 2 * i).push(e[2 * i as int]).push(
                e[2 * i + 1],
            ));
        }
        i = i + 1;
    }
    assert(spec_hex_encode(bytes@).subrange(0, 2 * i) =~= spec_hex_encode(bytes@));
    s
}

/// The value of a hex digit, either case.
pub open spec fn hex_value(c: char) -> Option<int> {
    if '0' <= c && c <= '9' {
        Some(c as int - 48)
    } else if 'a' <= c && c <= 'f' {
        Some(c as int - 87)
    } else if 'A' <= c && c <= 'F' {
        Some(c as int - 55)
    } else {
        None
    }
}

/// The byte two hex digits denote, high digit first.
pub open spec fn pair_value(c0: char, c1: char) -> Option<u8> {
    match (hex_value(c0), hex_value(c1)) {
        (Some(a), Some(b)) => Some((16 * a + b) as u8),
        _ => None,
    }
}

/// Every character is a hex digit.
pub open spec fn all_hex_digits(s: Seq<char>) -> bool {
    forall|i: int| 0 <= i < s.len() ==> (#[trigger] hex_value(s[i])) is Some
}

/// Decoding of a hex string: an even number of characters, read in pairs.
pub open spec fn spec_hex_decode(s: Seq<char>) -> Option<Seq<u8>> {
    if s.len() % 2 != 0 {
        None
    } else if forall|i: int| 0 <= i < s.len() / 2 ==> (#[trigger] pair_value(s[2 * i], s[2 * i + 1])) is Some {
        Some(Seq::new(s.len() / 2, |i: int| pair_value(s[2 * i], s[2 * i + 1])->0))
    } else {
        None
    }
}

fn hex_value_exec(c: char) -> (r: Option<u8>)
    ensures
        match hex_value(c) {
            Some(v) => r == Some(v as u8) && 0 <= v < 16,
            None => r is None,
        },
{
    if '0' <= c && c <= '9' {
        Some((c as u32 - 48) as u8)
    } else if 'a' <= c && c <= 'f' {
        Some((c as u32 - 87) as u8)
    } else if 'A' <= c && c <= 'F' {
        Some((c as u32 - 55) as u8)
    } else {
        None
    }
}

fn pair_value_exec(c0: char, c1: char) -> (r: Option<u8>)
    ensures
        r == pair_value(c0, c1),
{
    match (hex_value_exec(c0), hex_value_exec(c1)) {
        (Some(a), Some(b)) => Some(16 * a + b),
        _ => None,
    }
}

/// Decoding succeeds exactly on an even number of hex digits.
pub proof fn lemma_hex_decode_succeeds(s: Seq<char>)
    ensures
        spec_hex_decode(s) is Some <==> (s.len() % 2 == 0 && all_hex_digits(s)),
{
    if s.len() % 2 == 0 {
        if all_hex_digits(s) {
            assert forall|i: int| 0 <= i < s.len() / 2 implies (#[trigger] pair_value(s[2 * i], s[2 * i + 1])) is Some by {
                assert(hex_value(s[2 * i]) is Some);
                assert(hex_value(s[2 * i + 1]) is Some);
            }
        }
        if spec_hex_decode(s) is Some {
            assert forall|k: int| 0 <= k < s.len() implies (#[trigger] hex_value(s[k])) is Some by {
                let i = k / 2;
                assert(pair_value(s[2 * i], s[2 * i + 1]) is Some);
                assert(k == 2 * i || k == 2 * i + 1);
            }
        }
    }
}

/// Decodes a hex string into bytes, two digits of either case per byte;
/// fails on an odd length or a character that is not a hex digit.
pub fn hex_decode(hex: &str) -> (r: Result<Vec<u8>, ()>)
    ensures
        match spec_hex_decode(hex@) {
            Some(b) => r matches Ok(v) && v@ == b,
            None => r is Err,
        },
        r is Ok <==> (hex@.len() % 2 == 0 && all_hex_digits(hex@)),
{
    proof {
        lemma_hex_decode_succeeds(hex@);
    }
    let cs = chars_of(hex);
    let n = cs.len();
    if n % 2 != 0 {
        return Err(());
    }
    let mut out: Vec<u8> = Vec::new();
    let mut i: usize = 0;
    while i < n / 2
        invariant
            n == cs@.len(),
            cs@ == hex@,
            n % 2 == 0,
            i <= n / 2,
            out@.len() == i,
            forall|j: int| 0 <= j < i ==> (#[trigger] pair_value(cs@[2 * j], cs@[2 * j + 1])) is Some
                && out@[j] == pair_value(cs@[2 * j], cs@[2 * j + 1])->0,
        decreases n / 2 - i,
    {
        match pair_value_exec(cs[2 * i], cs[2 * i + 1]) {
            Some(b) => {
                out.push(b);
            },
            None => {
                proof {
                    assert(!(pair_value(cs@[2 * i as int], cs@[2 * i + 1]) is Some));
                }
                return Err(());
            },
        }
        i = i + 1;
    }
    proof {
        assert(out@ =~= Seq::new(n as nat / 2, |j: int| pair_value(cs@[2 * j], cs@[2 * j + 1])->0));
    }
    Ok(out)
}

/// Decoding a hex encoding gives the bytes back.
pub proof fn lemma_hex_round_trip(b: Seq<u8>)
    ensures
        spec_hex_decode(spec_hex_encode(b)) == Some(b),
{
    let s = spec_hex_encode(b);
    assert forall|i: int| 0 <= i < s.len() / 2 implies (#[trigger] pair_value(s[2 * i], s[2 * i + 1])) == Some(b[i]) by {
        assert((2 * i) % 2 == 0 && (2 * i) / 2 == i);
        assert((2 * i + 1) % 2 == 1 && (2 * i + 1) / 2 == i);
        let hi = b[i] / 16;
        let lo = b[i] % 16;
        assert(16 * hi + lo == b[i]);
    }
    assert(Seq::new(s.len() / 2, |i: int| pair_value(s[2 * i], s[2 * i + 1])->0) =~= b);
}

// ─── Decimal ─────────────────────────────────────────────────────────────────

/// The character of a decimal digit.
pub open spec fn dec_digit(n: int) -> char {
    (48 + n) as char
}

/// The decimal representation of `n`, without leading zeros.
pub open spec fn decimal_string(n: nat) -> Seq<char>
    decreases n,
{
    if n < 10 {
        seq![dec_digit(n as int)]
    } else {
        decimal_string(n / 10).push(dec_digit((n % 10) as int))
    }
}

/// The value of a decimal digit.
pub open spec fn digit_value(c: char) -> Option<int> {
    if '0' <= c && c <= '9' {
        Some(c as int - 48)
    } else {
        None
    }
}

/// All characters are decimal digits.
pub open spec fn all_digits(s: Seq<char>) -> bool {
    forall|i: int| 0 <= i < s.len() ==> (#[trigger] digit_value(s[i])) is Some
}

/// The number a string of decimal digits denotes.
pub open spec fn decimal_value(s: Seq<char>) -> nat
    decreases s.len(),
{
    if s.len() == 0 {
        0
    } else {
        (decimal_value(s.drop_last()) * 10 + digit_value(s.last())->0) as nat
    }
}

/// `u64` parsing as std's `FromStr` does it: an optional `+`, then one or
/// more decimal digits whose value fits in 64 bits.
pub open spec fn parse_u64(s: Seq<char>) -> Option<u64> {
    let digits = if s.len() > 0 && s[0] == '+' {
        s.drop_first()
    } else {
        s
    };
    if digits.len() == 0 || !all_digits(digits) || decimal_value(digits) > u64::MAX {
        None
    } else {
        Some(decimal_value(digits) as u64)
    }
}

proof fn lemma_decimal_monotone(s: Seq<char>, k: int)
    requires
        all_digits(s),
        0 <= k <= s.len(),
    ensures
        decimal_value(s.subrange(0, k)) <= decimal_value(s),
    decreases s.len() - k,
{
    if k < s.len() {
        lemma_decimal_monotone(s, k + 1);
        let t = s.subrange(0, k + 1);
        assert(t.drop_last() =~= s.subrange(0, k));
        assert(digit_value(t.last()) is Some);
    } else {
        assert(s.subrange(0, k) =~= s);
    }
}

proof fn lemma_decimal_string_digits(n: nat)
    ensures
        all_digits(decimal_string(n)),
        decimal_string(n).len() > 0,
        decimal_string(n)[0] != '+',
        decimal_value(decimal_string(n)) == n,
    decreases n,
{
    if n >= 10 {
        lemma_decimal_string_digits(n / 10);
        let s = decimal_string(n);
        assert(s.drop_last() =~= decimal_string(n / 10));
        let d = (n % 10) as int;
        assert(0 <= d < 10);
        assert((48 + d) as char as int == 48 + d);
        assert(digit_value(s.last()) == Some(d));
        assert(decimal_value(s) == decimal_value(decimal_string(n / 10)) * 10 + d);
        assert((n / 10) * 10 + d == n);
        assert(decimal_value(s) == n);
        assert(forall|i: int| 0 <= i < s.len() - 1 ==> s[i] == decimal_string(n / 10)[i]);
    } else {
        let s = decimal_string(n);
        assert(s.drop_last() =~= Seq::<char>::empty());
        assert((48 + n) as char as int == 48 + n);
        assert(digit_value(s.last()) == Some(n as int));
        assert(decimal_value(s.drop_last()) == 0);
        assert(decimal_value(s) == n);
    }
}

/// Printing a number in decimal and parsing it back gives the number.
pub proof fn lemma_decimal_round_trip(n: u64)
    ensures
        parse_u64(decimal_string(n as nat)) == Some(n),
{
    lemma_decimal_string_digits(n as nat);
}

/// Appends the decimal representation of `n` to `s`.
pub(crate) fn push_decimal(s: &mut String, n: u64)
    ensures
        final(s)@ == old(s)@ + decimal_string(n as nat),
    decreases n,
{
    if n >= 10 {
        push_decimal(s, n / 10);
    }
    push_char(s, ((n % 10) as u8 + 48u8) as char);
    proof {
        if n >= 10 {
            assert(old(s)@ + decimal_string(n as nat) =~= old(s)@ + decimal_string((n / 10) as nat)
                + seq![dec_digit((n % 10) as int)]);
        } else {
            assert(decimal_string(n as nat) =~= seq![dec_digit(n as int)]);
        }
    }
}

/// Parses a `u64` as std's `FromStr` does.
fn parse_u64_exec(s: &[char]) -> (r: Option<u64>)
    ensures
        r == parse_u64(s@),
{
    let mut start: usize = 0;
    if s.len() > 0 && s[0] == '+' {
        start = 1;
    }
    let ghost digits = if s@.len() > 0 && s@[0] == '+' {
        s@.drop_first()
    } else {
        s@
    };
    assert(digits =~= s@.subrange(start as int, s@.len() as int));
    if start == s.len() {
        return None;
    }
    let mut acc: u64 = 0;
    let mut i: usize = start;
    assert(s@.subrange(start as int, start as int) =~= Seq::<char>::empty());
    while i < s.len()
        invariant
            start <= i <= s@.len(),
            digits == s@.subrange(start as int, s@.len() as int),
            digits == if s@.len() > 0 && s@[0] == '+' {
                s@.drop_first()
            } else {
                s@
            },
            (s@.len() > 0 && s@[0] == '+') ==> start == 1,
            !(s@.len() > 0 && s@[0] == '+') ==> start == 0,
            all_digits(s@.subrange(start as int, i as int)),
            acc == decimal_value(s@.subrange(start as int, i as int)),
        decreases s@.len() - i,
    {
        let c = s[i];
        if !('0' <= c && c <= '9') {
            proof {
                assert(digits[i - start] == c);
                assert(digit_value(digits[i - start]) is None);
                assert(!all_digits(digits));
            }
            return None;
        }
        let d = (c as u32 - 48) as u64;
        let ghost pre = s@.subrange(start as int, i as int);
        let ghost next = s@.subrange(start as int, i + 1);
        proof {
            assert(next.drop_last() =~= pre);
            assert(next.last() == c);
            assert(all_digits(next));
        }
        match acc.checked_mul(10) {
            Some(t) => match t.checked_add(d) {
                Some(v) => {
                    acc = v;
                },
                None => {
                    proof {
                        lemma_rest_digits(s@, start as int, i + 1);
                    }
                    return None;
                },
            },
            None => {
                proof {
                    lemma_rest_digits(s@, start as int, i + 1);
                }
                return None;
            },
        }
        i = i + 1;
    }
    Some(acc)
}

/// When a prefix of the digits already exceeds `u64::MAX`, the whole does too
/// (or some later character is not a digit).
proof fn lemma_rest_digits(s: Seq<char>, start: int, k: int)
    requires
        0 <= start < k <= s.len(),
        decimal_value(s.subrange(start, k)) > u64::MAX,
    ensures
        parse_u64(s) is None || !(s.len() > 0 && s[0] == '+' ==> start == 1) || !(!(s.len() > 0
            && s[0] == '+') ==> start == 0),
{
    let digits = s.subrange(start, s.len() as int);
    if all_digits(digits) && (s.len() > 0 && s[0] == '+' ==> start == 1) && (!(s.len() > 0 && s[0]
        == '+') ==> start == 0) {
        lemma_decimal_monotone(digits, k - start);
        assert(digits.subrange(0, k - start) =~= s.subrange(start, k));
        if s.len() > 0 && s[0] == '+' {
            assert(s.drop_first() =~= digits);
        } else {
            assert(s =~= digits);
        }
    }
}

// ─── Message kinds ───────────────────────────────────────────────────────────

/// The type of a transport message.
#[derive(Debug, Clone, Copy, PartialEq, Eq, Structural)]
pub enum TgMessageKind {
    /// A pending transaction broadcast.
    Tx,
    /// A newly mined block announcement.
    Block,
    /// A vertical correction patch.
    Patch,
    /// An inventory announcement (list of hashes).
    Inv,
    /// A liveness ping.
    Ping,
    /// A liveness pong.
    Pong,
    /// Request a block by hash.
    GetBlock,
    /// Node health and chain tip broadcast.
    Status,
    /// Node registration via factory bot.
    Register,
    /// Peer discovery advertisement.
    Peer,
}

/// The wire prefix of a message kind.
pub open spec fn kind_prefix(k: TgMessageKind) -> Seq<char> {
    match k {
        TgMessageKind::Tx => seq!['T', 'X'],
        TgMessageKind::Block => seq!['B', 'L', 'O', 'C', 'K'],
        TgMessageKind::Patch => seq!['P', 'A', 'T', 'C', 'H'],
        TgMessageKind::Inv => seq!['I', 'N', 'V'],
        TgMessageKind::Ping => seq!['P', 'I', 'N', 'G'],
        TgMessageKind::Pong => seq!['P', 'O', 'N', 'G'],
        TgMessageKind::GetBlock => seq!['G', 'E', 'T', 'B', 'L', 'O', 'C', 'K'],
        TgMessageKind::Status => seq!['S', 'T', 'A', 'T', 'U', 'S'],
        TgMessageKind::Register => seq!['R', 'E', 'G', 'I', 'S', 'T', 'E', 'R'],
        TgMessageKind::Peer => seq!['P', 'E', 'E', 'R'],
    }
}

/// The message kind whose prefix is `s`, if any.
pub open spec fn kind_of_prefix(s: Seq<char>) -> Option<TgMessageKind> {
    if s == kind_prefix(TgMessageKind::Tx) {
        Some(TgMessageKind::Tx)
    } else if s == kind_prefix(TgMessageKind::Block) {
        Some(TgMessageKind::Block)
    } else if s == kind_prefix(TgMessageKind::Patch) {
        Some(TgMessageKind::Patch)
    } else if s == kind_prefix(TgMessageKind::Inv) {
        Some(TgMessageKind::Inv)
    } else if s == kind_prefix(TgMessageKind::Ping) {
        Some(TgMessageKind::Ping)
    } else if s == kind_prefix(TgMessageKind::Pong) {
        Some(TgMessageKind::Pong)
    } else if s == kind_prefix(TgMessageKind::GetBlock) {
        Some(TgMessageKind::GetBlock)
    } else if s == kind_prefix(TgMessageKind::Status) {
        Some(TgMessageKind::Status)
    } else if s == kind_prefix(TgMessageKind::Register) {
        Some(TgMessageKind::Register)
    } else if s == kind_prefix(TgMessageKind::Peer) {
        Some(TgMessageKind::Peer)
    } else {
        None
    }
}

/// Every kind is recovered from its prefix.
pub proof fn lemma_prefix_round_trip(k: TgMessageKind)
    ensures
        kind_of_prefix(kind_prefix(k)) == Some(k),
{
    let tx = kind_prefix(TgMessageKind::Tx);
    let block = kind_prefix(TgMessageKind::Block);
    let patch = kind_prefix(TgMessageKind::Patch);
    let inv = kind_prefix(TgMessageKind::Inv);
    let ping = kind_prefix(TgMessageKind::Ping);
    let pong = kind_prefix(TgMessageKind::Pong);
    let getblock = kind_prefix(TgMessageKind::GetBlock);
    let status = kind_prefix(TgMessageKind::Status);
    let register = kind_prefix(TgMessageKind::Register);
    let peer = kind_prefix(TgMessageKind::Peer);
    assert(tx[0] != block[0] && tx[0] != patch[0] && tx[0] != inv[0] && tx[0] != ping[0]);
    assert(tx[0] != pong[0] && tx[0] != getblock[0] && tx[0] != status[0] && tx[0] != register[0]);
    assert(tx[0] != peer[0]);
    assert(block[0] != patch[0] && block[0] != inv[0] && block[0] != ping[0] && block[0] != pong[0]);
    assert(block[0] != getblock[0] && block[0] != status[0] && block[0] != register[0]);
    assert(block[0] != peer[0]);
    assert(patch[1] != ping[1] && patch[1] != pong[1] && patch[1] != peer[1]);
    assert(patch[0] != inv[0] && patch[0] != getblock[0] && patch[0] != status[0]);
    assert(patch[0] != register[0]);
    assert(inv[0] != ping[0] && inv[0] != pong[0] && inv[0] != getblock[0] && inv[0] != status[0]);
    assert(inv[0] != register[0] && inv[0] != peer[0]);
    assert(ping[1] != pong[1] && ping[1] != peer[1]);
    assert(ping[0] != getblock[0] && ping[0] != status[0] && ping[0] != register[0]);
    assert(pong[1] != peer[1]);
    assert(pong[0] != getblock[0] && pong[0] != status[0] && pong[0] != register[0]);
    assert(getblock[0] != status[0] && getblock[0] != register[0] && getblock[0] != peer[0]);
    assert(status[0] != register[0] && status[0] != peer[0]);
    assert(register[0] != peer[0]);
}

fn eq_chars(a: &[char], b: &[char]) -> (r: bool)
    ensures
        r == (a@ == b@),
{
    if a.len() != b.len() {
        return false;
    }
    let mut i: usize = 0;
    while i < a.len()
        invariant
            a@.len() == b@.len(),
            i <= a@.len(),
            forall|j: int| 0 <= j < i ==> a@[j] == b@[j],
        decreases a@.len() - i,
    {
        if a[i] != b[i] {
            return false;
        }
        i = i + 1;
    }
    assert(a@ =~= b@);
    true
}

impl TgMessageKind {
    /// Returns the wire prefix for this message kind.
    pub fn prefix(&self) -> (p: &'static str)
        ensures
            p@ == kind_prefix(*self),
    {
        match self {
            TgMessageKind::Tx => {
                proof {
                    reveal_strlit("TX");
                }
                "TX"
            },
            TgMessageKind::Block => {
                proof {
                    reveal_strlit("BLOCK");
                }
                "BLOCK"
            },
            TgMessageKind::Patch => {
                proof {
                    reveal_strlit("PATCH");
                }
                "PATCH"
            },
            TgMessageKind::Inv => {
                proof {
                    reveal_strlit("INV");
                }
                "INV"
            },
            TgMessageKind::Ping => {
                proof {
                    reveal_strlit("PING");
                }
                "PING"
            },
            TgMessageKind::Pong => {
                proof {
                    reveal_strlit("PONG");
                }
                "PONG"
            },
            TgMessageKind::GetBlock => {
                proof {
                    reveal_strlit("GETBLOCK");
                }
                "GETBLOCK"
            },
            TgMessageKind::Status => {
                proof {
                    reveal_strlit("STATUS");
                }
                "STATUS"
            },
            TgMessageKind::Register => {
                proof {
                    reveal_strlit("REGISTER");
                }
                "REGISTER"
            },
            TgMessageKind::Peer => {
                proof {
                    reveal_strlit("PEER");
                }
                "PEER"
            },
        }
    }

    /// Parses a message kind from its wire prefix.
    pub fn from_prefix(prefix: &str) -> (r: Option<TgMessageKind>)
        ensures
            r == kind_of_prefix(prefix@),
    {
        let cs = chars_of(prefix);
        kind_from_chars(cs.as_slice())
    }
}

fn kind_from_chars(cs: &[char]) -> (r: Option<TgMessageKind>)
    ensures
        r == kind_of_prefix(cs@),
{
    let kinds = [
        TgMessageKind::Tx,
        TgMessageKind::Block,
        TgMessageKind::Patch,
        TgMessageKind::Inv,
        TgMessageKind::Ping,
        TgMessageKind::Pong,
        TgMessageKind::GetBlock,
        TgMessageKind::Status,
        TgMessageKind::Register,
        TgMessageKind::Peer,
    ];
    let mut i: usize = 0;
    while i < 10
        invariant
            i <= 10,
            kinds@ == seq![
                TgMessageKind::Tx,
                TgMessageKind::Block,
                TgMessageKind::Patch,
                TgMessageKind::Inv,
                TgMessageKind::Ping,
                TgMessageKind::Pong,
                TgMessageKind::GetBlock,
                TgMessageKind::Status,
                TgMessageKind::Register,
                TgMessageKind::Peer,
            ],
            forall|j: int| 0 <= j < i ==> cs@ != kind_prefix(#[trigger] kinds@[j]),
        decreases 10 - i,
    {
        let k = kinds[i];
        let p = chars_of(k.prefix());
        if eq_chars(cs, p.as_slice()) {
            proof {
                assert(forall|j: int| 0 <= j < i ==> cs@ != kind_prefix(#[trigger] kinds@[j]));
                if i >= 1 { assert(cs@ != kind_prefix(kinds@[0])); }
                if i >= 2 { assert(cs@ != kind_prefix(kinds@[1])); }
                if i >= 3 { assert(cs@ != kind_prefix(kinds@[2])); }
                if i >= 4 { assert(cs@ != kind_prefix(kinds@[3])); }
                if i >= 5 { assert(cs@ != kind_prefix(kinds@[4])); }
                if i >= 6 { assert(cs@ != kind_prefix(kinds@[5])); }
                if i >= 7 { assert(cs@ != kind_prefix(kinds@[6])); }
                if i >= 8 { assert(cs@ != kind_prefix(kinds@[7])); }
                if i >= 9 { assert(cs@ != kind_prefix(kinds@[8])); }
                lemma_prefix_round_trip(k);
            }
            return Some(k);
        }
        i = i + 1;
    }
    proof {
        assert(cs@ != kind_prefix(kinds@[0]));
        assert(cs@ != kind_prefix(kinds@[1]));
        assert(cs@ != kind_prefix(kinds@[2]));
        assert(cs@ != kind_prefix(kinds@[3]));
        assert(cs@ != kind_prefix(kinds@[4]));
        assert(cs@ != kind_prefix(kinds@[5]));
        assert(cs@ != kind_prefix(kinds@[6]));
        assert(cs@ != kind_prefix(kinds@[7]));
        assert(cs@ != kind_prefix(kinds@[8]));
        assert(cs@ != kind_prefix(kinds@[9]));
    }
    None
}

// ─── Transport message ───────────────────────────────────────────────────────

/// A typed envelope around a hex-encoded payload.
#[derive(Debug, Clone, PartialEq, Eq)]
pub struct TgMessage {
    /// The message kind.
    pub kind: TgMessageKind,
    /// Hex-encoded payload bytes.
    pub payload_hex: String,
    /// The sender's identity, hex-encoded (64 characters).
    pub sender_id: String,
    /// Sequence number for ordering messages from the same sender.
    pub seq: u64,
}

/// Errors from transport encoding and decoding.
#[derive(Debug, Clone, Copy, PartialEq, Eq, Structural)]
pub enum TransportError {
    /// The message does not follow the wire format.
    MalformedMessage,
    /// The protocol prefix is not `SEER`.
    UnknownProtocol,
    /// The message kind prefix is not recognised.
    UnknownMessageKind,
    /// Hex decoding failed.
    InvalidHex,
    /// Payload is empty.
    EmptyPayload,
}

/// The sentence that describes a transport error.
pub open spec fn transport_error_text(e: TransportError) -> Seq<char> {
    match e {
        TransportError::MalformedMessage => "malformed transport message"@,
        TransportError::UnknownProtocol => "unknown protocol prefix"@,
        TransportError::UnknownMessageKind => "unknown message kind"@,
        TransportError::InvalidHex => "invalid hex encoding"@,
        TransportError::EmptyPayload => "empty payload"@,
    }
}

impl TransportError {
    /// A sentence that describes the error.
    pub fn message(&self) -> (s: String)
        ensures
            s@ == transport_error_text(*self),
    {
        match self {
            TransportError::MalformedMessage => string_of("malformed transport message"),
            TransportError::UnknownProtocol => string_of("unknown protocol prefix"),
            TransportError::UnknownMessageKind => string_of("unknown message kind"),
            TransportError::InvalidHex => string_of("invalid hex encoding"),
            TransportError::EmptyPayload => string_of("empty payload"),
        }
    }
}

/// The number of bytes UTF-8 takes for `c`.
pub open spec fn utf8_width(c: char) -> nat {
    if (c as u32) < 0x80 {
        1
    } else if (c as u32) < 0x800 {
        2
    } else if (c as u32) < 0x10000 {
        3
    } else {
        4
    }
}

/// The number of bytes UTF-8 takes for `s`.
pub open spec fn utf8_len(s: Seq<char>) -> nat
    decreases s.len(),
{
    if s.len() == 0 {
        0
    } else {
        utf8_len(s.drop_last()) + utf8_width(s.last())
    }
}

proof fn lemma_utf8_len_prefix(s: Seq<char>, k: int)
    requires
        0 <= k <= s.len(),
    ensures
        utf8_len(s.subrange(0, k)) <= utf8_len(s),
    decreases s.len() - k,
{
    if k < s.len() {
        lemma_utf8_len_prefix(s, k + 1);
        assert(s.subrange(0, k + 1).drop_last() =~= s.subrange(0, k));
    } else {
        assert(s.subrange(0, k) =~= s);
    }
}

/// Whether `cs` takes exactly `target` bytes in UTF-8.
fn utf8_len_is(cs: &[char], target: usize) -> (r: bool)
    requires
        target < usize::MAX - 4,
    ensures
        r == (utf8_len(cs@) == target),
{
    let mut acc: usize = 0;
    let mut i: usize = 0;
    while i < cs.len()
        invariant
            i <= cs@.len(),
            target < usize::MAX - 4,
            acc <= target,
            acc == utf8_len(cs@.subrange(0, i as int)),
        decreases cs@.len() - i,
    {
        let c = cs[i] as u32;
        let w: usize = if c < 0x80 {
            1
        } else if c < 0x800 {
            2
        } else if c < 0x10000 {
            3
        } else {
            4
        };
        proof {
            assert(cs@.subrange(0, i + 1).drop_last() =~= cs@.subrange(0, i as int));
        }
        if acc + w > target {
            proof {
                lemma_utf8_len_prefix(cs@, i + 1);
            }
            return false;
        }
        acc = acc + w;
        i = i + 1;
    }
    assert(cs@.subrange(0, i as int) =~= cs@);
    acc == target
}

/// What a message carries: kind, sequence number, sender and payload text.
pub type MsgView = (TgMessageKind, u64, Seq<char>, Seq<char>);

/// The view of a message.
pub open spec fn msg_view(m: TgMessage) -> MsgView {
    (m.kind, m.seq, m.sender_id@, m.payload_hex@)
}

/// The protocol tag.
pub open spec fn seer_tag() -> Seq<char> {
    seq!['S', 'E', 'E', 'R']
}

/// The wire text of a message with these fields.
pub open spec fn wire_text(
    kind: TgMessageKind,
    seq: u64,
    sender: Seq<char>,
    payload: Seq<char>,
) -> Seq<char> {
    seer_tag() + seq!['/'] + kind_prefix(kind) + seq!['/'] + decimal_string(seq as nat) + seq!['/']
        + sender + seq!['/'] + payload
}

/// The first `/` at or after position `from`.
pub open spec fn slash_index(s: Seq<char>, from: int) -> Option<int>
    decreases s.len() - from,
{
    if from < 0 || from >= s.len() {
        None
    } else if s[from] == '/' {
        Some(from)
    } else {
        slash_index(s, from + 1)
    }
}

/// `s` split at its first four `/` into five parts (the last keeps any
/// further `/`), or `None` when it has fewer than four.
pub open spec fn split5(s: Seq<char>) -> Option<Seq<Seq<char>>> {
    match slash_index(s, 0) {
        None => None,
        Some(p1) => match slash_index(s, p1 + 1) {
            None => None,
            Some(p2) => match slash_index(s, p2 + 1) {
                None => None,
                Some(p3) => match slash_index(s, p3 + 1) {
                    None => None,
                    Some(p4) => Some(
                        seq![
                            s.subrange(0, p1),
                            s.subrange(p1 + 1, p2),
                            s.subrange(p2 + 1, p3),
                            s.subrange(p3 + 1, p4),
                            s.subrange(p4 + 1, s.len() as int),
                        ],
                    ),
                },
            },
        },
    }
}

/// The fields read from a wire text, or the error it is refused with: a
/// text with fewer than four `/` or with a bad sequence number or a sender
/// that is not 64 bytes is malformed; the tag must be `SEER`; the kind must
/// be known.
pub open spec fn parse_wire(s: Seq<char>) -> Result<
    (TgMessageKind, u64, Seq<char>, Seq<char>),
    TransportError,
> {
    match split5(s) {
        None => Err(TransportError::MalformedMessage),
        Some(parts) => if parts[0] != seer_tag() {
            Err(TransportError::UnknownProtocol)
        } else {
            match kind_of_prefix(parts[1]) {
                None => Err(TransportError::UnknownMessageKind),
                Some(k) => match parse_u64(parts[2]) {
                    None => Err(TransportError::MalformedMessage),
                    Some(n) => if utf8_len(parts[3]) != 64 {
                        Err(TransportError::MalformedMessage)
                    } else {
                        Ok((k, n, parts[3], parts[4]))
                    },
                },
            }
        },
    }
}

/// The first `/` at or after `from` in `cs`, as `slash_index` says.
fn find_slash(cs: &[char], from: usize) -> (r: Option<usize>)
    ensures
        r matches Some(p) ==> slash_index(cs@, from as int) == Some(p as int) && from <= p
            < cs@.len(),
        r is None ==> slash_index(cs@, from as int) is None,
{
    if from >= cs.len() {
        return None;
    }
    let mut i = from;
    while i < cs.len()
        invariant
            from <= i <= cs@.len(),
            slash_index(cs@, from as int) == slash_index(cs@, i as int),
        decreases cs@.len() - i,
    {
        if cs[i] == '/' {
            return Some(i);
        }
        i = i + 1;
    }
    None
}

/// A copy of `cs[from..to]`.
fn slice_chars(cs: &[char], from: usize, to: usize) -> (r: Vec<char>)
    requires
        from <= to <= cs@.len(),
    ensures
        r@ == cs@.subrange(from as int, to as int),
{
    let mut r: Vec<char> = Vec::new();
    let mut i = from;
    while i < to
        invariant
            from <= i <= to,
            to <= cs@.len(),
            r@ == cs@.subrange(from as int, i as int),
        decreases to - i,
    {
        r.push(cs[i]);
        proof {
            assert(cs@.subrange(from as int, i + 1) =~= cs@.subrange(from as int, i as int).push(
                cs@[i as int],
            ));
        }
        i = i + 1;
    }
    r
}

impl TgMessage {
    /// Creates a message: the payload and the sender are hex-encoded.
    pub fn new(kind: TgMessageKind, payload: &[u8], sender_id: [u8; 32], seq: u64) -> (m:
        TgMessage)
        requires
            2 * payload@.len() <= usize::MAX,
        ensures
            m.kind == kind,
            m.payload_hex@ == spec_hex_encode(payload@),
            m.sender_id@ == spec_hex_encode(sender_id@),
            m.seq == seq,
    {
        TgMessage {
            kind,
            payload_hex: hex_encode(payload),
            sender_id: hex_encode(&sender_id),
            seq,
        }
    }

    /// The wire text `SEER/{KIND}/{SEQ}/{SENDER_ID}/{PAYLOAD_HEX}`.
    pub fn to_wire(&self) -> (w: String)
        ensures
            w@ == wire_text(self.kind, self.seq, self.sender_id@, self.payload_hex@),
    {
        let mut w = String::new();
        push_char(&mut w, 'S');
        push_char(&mut w, 'E');
        push_char(&mut w, 'E');
        push_char(&mut w, 'R');
        push_char(&mut w, '/');
        let prefix = chars_of(self.kind.prefix());
        push_chars(&mut w, prefix.as_slice());
        push_char(&mut w, '/');
        push_decimal(&mut w, self.seq);
        push_char(&mut w, '/');
        let sender = chars_of(self.sender_id.as_str());
        push_chars(&mut w, sender.as_slice());
        push_char(&mut w, '/');
        let payload = chars_of(self.payload_hex.as_str());
        push_chars(&mut w, payload.as_slice());
        assert(w@ =~= wire_text(self.kind, self.seq, self.sender_id@, self.payload_hex@));
        w
    }

    /// Parses a wire text back into a message, with the errors `parse_wire`
    /// gives.
    pub fn from_wire(wire: &str) -> (r: Result<TgMessage, TransportError>)
        ensures
            match parse_wire(wire@) {
                Ok((k, n, sender, payload)) => r matches Ok(m) && m.kind == k && m.seq == n
                    && m.sender_id@ == sender && m.payload_hex@ == payload,
                Err(e) => r == Err::<TgMessage, TransportError>(e),
            },
    {
        let cs = chars_of(wire);
        let n = cs.len();
        let p1 = match find_slash(cs.as_slice(), 0) {
            Some(p) => p,
            None => {
                assert(split5(wire@) is None);
                return Err(TransportError::MalformedMessage);
            },
        };
        assert(slash_index(wire@, 0) == Some(p1 as int));
        let p2 = match find_slash(cs.as_slice(), p1 + 1) {
            Some(p) => p,
            None => {
                assert(slash_index(wire@, p1 + 1) is None);
                assert(split5(wire@) is None);
                return Err(TransportError::MalformedMessage);
            },
        };
        assert(slash_index(wire@, p1 + 1) == Some(p2 as int));
        let p3 = match find_slash(cs.as_slice(), p2 + 1) {
            Some(p) => p,
            None => {
                assert(slash_index(wire@, p2 + 1) is None);
                assert(split5(wire@) is None);
                return Err(TransportError::MalformedMessage);
            },
        };
        assert(slash_index(wire@, p2 + 1) == Some(p3 as int));
        let p4 = match find_slash(cs.as_slice(), p3 + 1) {
            Some(p) => p,
            None => {
                assert(slash_index(wire@, p3 + 1) is None);
                assert(split5(wire@) is None);
                return Err(TransportError::MalformedMessage);
            },
        };
        assert(slash_index(wire@, p3 + 1) == Some(p4 as int));
        proof {
            lemma_slash_index_bounds(cs@, 0);
            lemma_slash_index_bounds(cs@, p1 + 1);
            lemma_slash_index_bounds(cs@, p2 + 1);
            lemma_slash_index_bounds(cs@, p3 + 1);
        }
        let ghost parts = split5(wire@)->0;
        assert(parts == seq![
            cs@.subrange(0, p1 as int),
            cs@.subrange(p1 + 1, p2 as int),
            cs@.subrange(p2 + 1, p3 as int),
            cs@.subrange(p3 + 1, p4 as int),
            cs@.subrange(p4 + 1, n as int),
        ]);
        let tag = slice_chars(cs.as_slice(), 0, p1);
        let seer = ['S', 'E', 'E', 'R'];
        assert(seer@ == seer_tag());
        if !eq_chars(tag.as_slice(), seer.as_slice()) {
            return Err(TransportError::UnknownProtocol);
        }
        let kind_chars = slice_chars(cs.as_slice(), p1 + 1, p2);
        let kind = match kind_from_chars(kind_chars.as_slice()) {
            Some(k) => k,
            None => return Err(TransportError::UnknownMessageKind),
        };
        let seq_chars = slice_chars(cs.as_slice(), p2 + 1, p3);
        let seq = match parse_u64_exec(seq_chars.as_slice()) {
            Some(v) => v,
            None => return Err(TransportError::MalformedMessage),
        };
        let sender_chars = slice_chars(cs.as_slice(), p3 + 1, p4);
        if !utf8_len_is(sender_chars.as_slice(), 64) {
            return Err(TransportError::MalformedMessage);
        }
        let sender_id = string_from(sender_chars.as_slice());
        let payload_chars = slice_chars(cs.as_slice(), p4 + 1, n);
        let payload_hex = string_from(payload_chars.as_slice());
        Ok(TgMessage { kind, payload_hex, sender_id, seq })
    }

    /// Decodes the payload from hex; fails with `InvalidHex`.
    pub fn payload_bytes(&self) -> (r: Result<Vec<u8>, TransportError>)
        ensures
            match spec_hex_decode(self.payload_hex@) {
                Some(b) => r matches Ok(v) && v@ == b,
                None => r == Err::<Vec<u8>, TransportError>(TransportError::InvalidHex),
            },
    {
        match hex_decode(self.payload_hex.as_str()) {
            Ok(v) => Ok(v),
            Err(()) => Err(TransportError::InvalidHex),
        }
    }
}

proof fn lemma_slash_index_bounds(s: Seq<char>, from: int)
    requires
        0 <= from,
    ensures
        slash_index(s, from) matches Some(p) ==> from <= p < s.len() && s[p] == '/' && forall|
            j: int,
        |
            from <= j < p ==> s[j] != '/',
    decreases s.len() - from,
{
    if from < s.len() && s[from] != '/' {
        lemma_slash_index_bounds(s, from + 1);
    }
}

proof fn lemma_slash_at(s: Seq<char>, from: int, p: int)
    requires
        0 <= from <= p < s.len(),
        s[p] == '/',
        forall|j: int| from <= j < p ==> s[j] != '/',
    ensures
        slash_index(s, from) == Some(p),
    decreases p - from,
{
    if from < p {
        lemma_slash_at(s, from + 1, p);
    }
}

/// Reading back the wire text of a message whose sender is 64 bytes long
/// and holds no `/` gives back its kind, sequence number, sender and
/// payload.
pub proof fn lemma_wire_round_trip(
    kind: TgMessageKind,
    seq: u64,
    sender: Seq<char>,
    payload: Seq<char>,
)
    requires
        forall|i: int| 0 <= i < sender.len() ==> sender[i] != '/',
        utf8_len(sender) == 64,
    ensures
        parse_wire(wire_text(kind, seq, sender, payload)) == Ok::<
            (TgMessageKind, u64, Seq<char>, Seq<char>),
            TransportError,
        >((kind, seq, sender, payload)),
{
    let pre = kind_prefix(kind);
    let dec = decimal_string(seq as nat);
    lemma_decimal_string_digits(seq as nat);
    let s1 = seer_tag() + seq!['/'];
    let s2 = s1 + pre + seq!['/'];
    let s3 = s2 + dec + seq!['/'];
    let s4 = s3 + sender + seq!['/'];
    let w = s4 + payload;
    assert(w =~= wire_text(kind, seq, sender, payload));
    lemma_split_wire(kind, seq, sender, payload);
    lemma_prefix_round_trip(kind);
    lemma_decimal_round_trip(seq);
}

#[verifier::spinoff_prover]
#[verifier::rlimit(40)]
proof fn lemma_split_wire(kind: TgMessageKind, seq: u64, sender: Seq<char>, payload: Seq<char>)
    requires
        forall|i: int| 0 <= i < sender.len() ==> sender[i] != '/',
    ensures
        split5(wire_text(kind, seq, sender, payload)) == Some(
            seq![seer_tag(), kind_prefix(kind), decimal_string(seq as nat), sender, payload],
        ),
{
    let pre = kind_prefix(kind);
    let dec = decimal_string(seq as nat);
    lemma_decimal_string_digits(seq as nat);
    let s1 = seer_tag() + seq!['/'];
    let s2 = s1 + pre + seq!['/'];
    let s3 = s2 + dec + seq!['/'];
    let s4 = s3 + sender + seq!['/'];
    let w = s4 + payload;
    assert(w =~= wire_text(kind, seq, sender, payload));
    lemma_segment(seer_tag(), seq![], pre + seq!['/'] + dec + seq!['/'] + sender + seq!['/'] + payload);
    assert(seq![] + seer_tag() + seq!['/'] + (pre + seq!['/'] + dec + seq!['/'] + sender + seq!['/'] + payload) =~= w);
    assert forall|j: int| 0 <= j < pre.len() implies pre[j] != '/' by {}
    lemma_segment(pre, s1, seq![] + dec + seq!['/'] + sender + seq!['/'] + payload);
    assert(s1 + pre + seq!['/'] + (seq![] + dec + seq!['/'] + sender + seq!['/'] + payload) =~= w);
    assert forall|j: int| 0 <= j < dec.len() implies dec[j] != '/' by {
        assert(digit_value(dec[j]) is Some);
    }
    lemma_segment(dec, s2, seq![] + sender + seq!['/'] + payload);
    assert(s2 + dec + seq!['/'] + (seq![] + sender + seq!['/'] + payload) =~= w);
    lemma_segment(sender, s3, payload);
    assert(s3 + sender + seq!['/'] + payload =~= w);
    assert(w.subrange(s4.len() as int, w.len() as int) =~= payload);
}

/// In `head + seg + '/' + tail` with no `/` in `seg`, the first `/` from
/// the start of `seg` ends `seg`.
proof fn lemma_segment(seg: Seq<char>, head: Seq<char>, tail: Seq<char>)
    requires
        forall|j: int| 0 <= j < seg.len() ==> seg[j] != '/',
    ensures
        ({
            let w = head + seg + seq!['/'] + tail;
            &&& slash_index(w, head.len() as int) == Some((head.len() + seg.len()) as int)
            &&& w.subrange(head.len() as int, (head.len() + seg.len()) as int) == seg
        }),
{
    let w = head + seg + seq!['/'] + tail;
    let p = (head.len() + seg.len()) as int;
    assert(w[p] == '/');
    assert forall|j: int| head.len() <= j < p implies w[j] != '/' by {
        assert(w[j] == seg[j - head.len()]);
    }
    lemma_slash_at(w, head.len() as int, p);
    assert(w.subrange(head.len() as int, p) =~= seg);
}

proof fn lemma_utf8_len_ascii(s: Seq<char>)
    requires
        forall|i: int| 0 <= i < s.len() ==> (s[i] as u32) < 0x80,
    ensures
        utf8_len(s) == s.len(),
    decreases s.len(),
{
    if s.len() > 0 {
        lemma_utf8_len_ascii(s.drop_last());
    }
}

/// Every message made by `TgMessage::new` comes back from its wire text,
/// and its payload decodes to the bytes it was made from.
pub proof fn lemma_new_message_round_trip(
    kind: TgMessageKind,
    payload: Seq<u8>,
    sender_id: [u8; 32],
    seq: u64,
)
    ensures
        parse_wire(
            wire_text(kind, seq, spec_hex_encode(sender_id@), spec_hex_encode(payload)),
        ) == Ok::<(TgMessageKind, u64, Seq<char>, Seq<char>), TransportError>(
            (kind, seq, spec_hex_encode(sender_id@), spec_hex_encode(payload)),
        ),
        spec_hex_decode(spec_hex_encode(payload)) == Some(payload),
{
    lemma_hex_round_trip(payload);
    let sender = spec_hex_encode(sender_id@);
    assert forall|i: int| 0 <= i < sender.len() implies sender[i] != '/' by {
        let b = sender_id@[i / 2];
        assert(b / 16 < 16 && b % 16 < 16);
    }
    assert forall|i: int| 0 <= i < sender.len() implies (sender[i] as u32) < 0x80 by {
        let b = sender_id@[i / 2];
        assert(b / 16 < 16 && b % 16 < 16);
    }
    lemma_utf8_len_ascii(sender);
    lemma_wire_round_trip(kind, seq, sender, spec_hex_encode(payload));
}

// ─── Codec helpers ───────────────────────────────────────────────────────────

/// The bytes of a list of hashes, one after another.
pub open spec fn concat_hashes(hashes: Seq<[u8; 32]>) -> Seq<u8> {
    hashes.map_values(|h: [u8; 32]| h@).flatten()
}

/// An INV message whose payload is the hashes one after another.
pub fn encode_inv(hashes: &[[u8; 32]], sender_id: [u8; 32], seq: u64) -> (m: TgMessage)
    requires
        64 * hashes@.len() <= usize::MAX,
    ensures
        m.kind == TgMessageKind::Inv,
        m.payload_hex@ == spec_hex_encode(concat_hashes(hashes@)),
        m.sender_id@ == spec_hex_encode(sender_id@),
        m.seq == seq,
{
    let mut payload: Vec<u8> = Vec::new();
    let mut i: usize = 0;
    while i < hashes.len()
        invariant
            i <= hashes@.len(),
            64 * hashes@.len() <= usize::MAX,
            payload@ == concat_hashes(hashes@.subrange(0, i as int)),
            payload@.len() == 32 * i,
        decreases hashes@.len() - i,
    {
        crate::pow::push_hash(&mut payload, &hashes[i]);
        proof {
            let pre = hashes@.subrange(0, i as int).map_values(|h: [u8; 32]| h@);
            assert(hashes@.subrange(0, i + 1).map_values(|h: [u8; 32]| h@) =~= pre.push(
                hashes@[i as int]@,
            ));
            pre.lemma_flatten_push(hashes@[i as int]@);
        }
        i = i + 1;
    }
    assert(hashes@.subrange(0, i as int) =~= hashes@);
    TgMessage::new(TgMessageKind::Inv, payload.as_slice(), sender_id, seq)
}

/// The hashes an INV payload holds: its bytes in groups of 32.
pub open spec fn split_hashes(b: Seq<u8>) -> Seq<Seq<u8>> {
    Seq::new(b.len() / 32, |i: int| b.subrange(32 * i, 32 * i + 32))
}

/// The concatenation of hashes holds each hash in its own 32-byte slot.
proof fn lemma_concat_hashes(hashes: Seq<[u8; 32]>)
    ensures
        concat_hashes(hashes).len() == 32 * hashes.len(),
        forall|i: int|
            0 <= i < hashes.len() ==> concat_hashes(hashes).subrange(32 * i, 32 * i + 32) == (
            #[trigger] hashes[i])@,
    decreases hashes.len(),
{
    if hashes.len() > 0 {
        let t = hashes.drop_last();
        let x = hashes.last();
        lemma_concat_hashes(t);
        let pre = t.map_values(|h: [u8; 32]| h@);
        assert(hashes.map_values(|h: [u8; 32]| h@) =~= pre.push(x@));
        pre.lemma_flatten_push(x@);
        let c = concat_hashes(hashes);
        let ct = concat_hashes(t);
        assert(c == ct + x@);
        assert forall|i: int| 0 <= i < hashes.len() implies c.subrange(32 * i, 32 * i + 32) == (
        #[trigger] hashes[i])@ by {
            if i < t.len() {
                assert(t[i] == hashes[i]);
                assert(c.subrange(32 * i, 32 * i + 32) =~= ct.subrange(32 * i, 32 * i + 32));
            } else {
                assert(c.subrange(32 * i, 32 * i + 32) =~= x@);
            }
        }
    }
}

/// Decoding the payload of an INV message made from `hashes` gives the
/// hashes back, in order.
pub proof fn lemma_inv_round_trip(hashes: Seq<[u8; 32]>)
    ensures
        spec_hex_decode(spec_hex_encode(concat_hashes(hashes))) == Some(concat_hashes(hashes)),
        concat_hashes(hashes).len() % 32 == 0,
        split_hashes(concat_hashes(hashes)) == hashes.map_values(|h: [u8; 32]| h@),
{
    lemma_hex_round_trip(concat_hashes(hashes));
    lemma_concat_hashes(hashes);
    let c = concat_hashes(hashes);
    assert(split_hashes(c) =~= hashes.map_values(|h: [u8; 32]| h@));
}

/// Decodes an INV payload into 32-byte hashes; fails with `InvalidHex` on a
/// payload that is not hex and with `MalformedMessage` on a length that is
/// not a multiple of 32 bytes.
pub fn decode_inv(msg: &TgMessage) -> (r: Result<Vec<[u8; 32]>, TransportError>)
    ensures
        match spec_hex_decode(msg.payload_hex@) {
            None => r == Err::<Vec<[u8; 32]>, TransportError>(TransportError::InvalidHex),
            Some(b) => if b.len() % 32 != 0 {
                r == Err::<Vec<[u8; 32]>, TransportError>(TransportError::MalformedMessage)
            } else {
                r matches Ok(v) && v@.map_values(|h: [u8; 32]| h@) == split_hashes(b)
            },
        },
{
    let bytes = match msg.payload_bytes() {
        Ok(b) => b,
        Err(e) => return Err(e),
    };
    if bytes.len() % 32 != 0 {
        return Err(TransportError::MalformedMessage);
    }
    let mut out: Vec<[u8; 32]> = Vec::new();
    let mut i: usize = 0;
    let count = bytes.len() / 32;
    let total = bytes.len();
    let mut base: usize = 0;
    while i < count
        invariant
            total == bytes@.len(),
            count == bytes@.len() / 32,
            32 * count == bytes@.len(),
            bytes@.len() % 32 == 0,
            i <= count,
            base == 32 * i,
            out@.len() == i,
            forall|j: int| 0 <= j < i ==> (#[trigger] out@[j])@ == bytes@.subrange(32 * j, 32 * j + 32),
        decreases count - i,
    {
        let mut h: [u8; 32] = [0u8; 32];
        let mut k: usize = 0;
        while k < 32
            invariant
                k <= 32,
                i < count,
                base == 32 * i,
                base + 32 <= bytes@.len(),
                forall|m: int| 0 <= m < k ==> h[m] == bytes@[32 * i + m],
            decreases 32 - k,
        {
            h[k] = bytes[base + k];
            k = k + 1;
        }
        assert(h@ =~= bytes@.subrange(32 * i as int, 32 * i + 32));
        out.push(h);
        i = i + 1;
        base = base + 32;
    }
    assert(out@.map_values(|h: [u8; 32]| h@) =~= split_hashes(bytes@));
    Ok(out)
}

/// A PING message carrying the sender's identity.
pub fn encode_ping(sender_id: [u8; 32], seq: u64) -> (m: TgMessage)
    ensures
        m.kind == TgMessageKind::Ping,
        m.payload_hex@ == spec_hex_encode(sender_id@),
        m.sender_id@ == spec_hex_encode(sender_id@),
        m.seq == seq,
{
    TgMessage::new(TgMessageKind::Ping, &sender_id, sender_id, seq)
}

/// A PONG message carrying the sender's identity.
pub fn encode_pong(sender_id: [u8; 32], seq: u64) -> (m: TgMessage)
    ensures
        m.kind == TgMessageKind::Pong,
        m.payload_hex@ == spec_hex_encode(sender_id@),
        m.sender_id@ == spec_hex_encode(sender_id@),
        m.seq == seq,
{
    TgMessage::new(TgMessageKind::Pong, &sender_id, sender_id, seq)
}

} // verus!
