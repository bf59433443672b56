//! Ticket encoding and decoding.
//!
//! A ticket is the hex form of a 32-byte topic, optionally followed by `|`
//! and a bootstrap identity. A bare hex string (no pipe) is accepted and
//! decodes to "no bootstrap identity". For joining through the rendezvous
//! service, a topic is also derived deterministically from an arbitrary
//! ticket string.

use vstd::prelude::*;

verus! {

/// Whether `c` is an ASCII hex digit (either case).
pub open spec fn is_hex_digit(c: char) -> bool {
    (48 <= c as u32 && c as u32 <= 57) || (97 <= c as u32 && c as u32 <= 102) || (65 <= c as u32
        && c as u32 <= 70)
}

/// Value of the hex digit `c` (0 when `c` is not a hex digit).
pub open spec fn hex_val(c: char) -> u8 {
    if 48 <= c as u32 && c as u32 <= 57 {
        (c as u32 - 48) as u8
    } else if 97 <= c as u32 && c as u32 <= 102 {
        (c as u32 - 87) as u8
    } else if 65 <= c as u32 && c as u32 <= 70 {
        (c as u32 - 55) as u8
    } else {
        0
    }
}

/// Lower-case hex digit for a value below sixteen.
pub open spec fn hex_digit_char(v: u8) -> char {
    if v == 0 {
        '0'
    } else if v == 1 {
        '1'
    } else if v == 2 {
        '2'
    } else if v == 3 {
        '3'
    } else if v == 4 {
        '4'
    } else if v == 5 {
        '5'
    } else if v == 6 {
        '6'
    } else if v == 7 {
        '7'
    } else if v == 8 {
        '8'
    } else if v == 9 {
        '9'
    } else if v == 10 {
        'a'
    } else if v == 11 {
        'b'
    } else if v == 12 {
        'c'
    } else if v == 13 {
        'd'
    } else if v == 14 {
        'e'
    } else {
        'f'
    }
}

/// Lower-case hex rendering of a byte sequence, two digits per byte.
pub open spec fn hex_of(bytes: Seq<u8>) -> Seq<char> {
    Seq::new(
        bytes.len() * 2,
        |i: int|
            if i % 2 == 0 {
                hex_digit_char((bytes[i / 2] / 16) as u8)
            } else {
                hex_digit_char((bytes[i / 2] % 16) as u8)
            },
    )
}

/// Bytes read from a hex digit sequence, one byte per digit pair.
pub open spec fn hex_bytes(s: Seq<char>) -> Seq<u8> {
    Seq::new(s.len() / 2, |i: int| (hex_val(s[2 * i]) * 16 + hex_val(s[2 * i + 1])) as u8)
}

/// Whether every character of `s` is a hex digit.
pub open spec fn all_hex(s: Seq<char>) -> bool {
    forall|i: int| 0 <= i < s.len() ==> is_hex_digit(#[trigger] s[i])
}

/// Index of the first `|` in `s`, or `s.len()` when there is none.
pub open spec fn split_pos(s: Seq<char>) -> int
    decreases s.len(),
{
    if s.len() == 0 {
        0
    } else if s[0] == '|' {
        0
    } else {
        1 + split_pos(s.drop_first())
    }
}

/// The part of a ticket before its first `|` (the whole ticket without one).
pub open spec fn topic_part(s: Seq<char>) -> Seq<char> {
    s.subrange(0, split_pos(s))
}

/// The part of a ticket after its first `|` (empty without one).
pub open spec fn boot_part(s: Seq<char>) -> Seq<char> {
    if split_pos(s) < s.len() {
        s.subrange(split_pos(s) + 1, s.len() as int)
    } else {
        Seq::empty()
    }
}

/// A ticket decodes successfully exactly when its topic part is 64 hex
/// digits, that is, exactly 32 bytes of hex.
pub open spec fn valid_ticket(s: Seq<char>) -> bool {
    topic_part(s).len() == 64 && all_hex(topic_part(s))
}

proof fn lemma_split_pos_range(s: Seq<char>)
    ensures
        0 <= split_pos(s) <= s.len(),
        split_pos(s) < s.len() ==> s[split_pos(s)] == '|',
        forall|j: int| 0 <= j < split_pos(s) ==> s[j] != '|',
    decreases s.len(),
{
    if s.len() > 0 && s[0] != '|' {
        lemma_split_pos_range(s.drop_first());
        assert forall|j: int| 0 <= j < split_pos(s) implies s[j] != '|' by {
            if j > 0 {
                assert(s.drop_first()[j - 1] == s[j]);
            }
        }
        if split_pos(s) < s.len() {
            assert(s.drop_first()[split_pos(s) - 1] == s[split_pos(s)]);
        }
    }
}

proof fn lemma_split_pos_at(s: Seq<char>, i: int)
    requires
        0 <= i < s.len(),
        s[i] == '|',
        forall|j: int| 0 <= j < i ==> s[j] != '|',
    ensures
        split_pos(s) == i,
    decreases i,
{
    if i > 0 {
        assert forall|j: int| 0 <= j < i - 1 implies s.drop_first()[j] != '|' by {
            assert(s.drop_first()[j] == s[j + 1]);
        }
        assert(s.drop_first()[i - 1] == s[i]);
        lemma_split_pos_at(s.drop_first(), i - 1);
    }
}

proof fn lemma_split_pos_none(s: Seq<char>)
    requires
        forall|j: int| 0 <= j < s.len() ==> s[j] != '|',
    ensures
        split_pos(s) == s.len(),
    decreases s.len(),
{
    if s.len() > 0 {
        assert forall|j: int| 0 <= j < s.len() - 1 implies s.drop_first()[j] != '|' by {
            assert(s.drop_first()[j] == s[j + 1]);
        }
        lemma_split_pos_none(s.drop_first());
    }
}

fn push_nibble(s: &mut String, v: u8)
    requires
        v < 16,
    ensures
        final(s)@ == old(s)@.push(hex_digit_char(v)),
{
    if v == 0 {
        s.append("0");
        proof {
            reveal_strlit("0");
            assert(s@ =~= old(s)@.push(hex_digit_char(v)));
        }
    } else if v == 1 {
        s.append("1");
        proof {
            reveal_strlit("1");
            assert(s@ =~= old(s)@.push(hex_digit_char(v)));
        }
    } else if v == 2 {
        s.append("2");
        proof {
            reveal_strlit("2");
            assert(s@ =~= old(s)@.push(hex_digit_char(v)));
        }
    } else if v == 3 {
        s.append("3");
        proof {
            reveal_strlit("3");
            assert(s@ =~= old(s)@.push(hex_digit_char(v)));
        }
    } else if v == 4 {
        s.append("4");
        proof {
            reveal_strlit("4");
            assert(s@ =~= old(s)@.push(hex_digit_char(v)));
        }
    } else if v == 5 {
        s.append("5");
        proof {
            reveal_strlit("5");
            assert(s@ =~= old(s)@.push(hex_digit_char(v)));
        }
    } else if v == 6 {
        s.append("6");
        proof {
            reveal_strlit("6");
            assert(s@ =~= old(s)@.push(hex_digit_char(v)));
        }
    } else if v == 7 {
        s.append("7");
        proof {
            reveal_strlit("7");
            assert(s@ =~= old(s)@.push(hex_digit_char(v)));
        }
    } else if v == 8 {
        s.append("8");
        proof {
            reveal_strlit("8");
            assert(s@ =~= old(s)@.push(hex_digit_char(v)));
        }
    } else if v == 9 {
        s.append("9");
        proof {
            reveal_strlit("9");
            assert(s@ =~= old(s)@.push(hex_digit_char(v)));
        }
    } else if v == 10 {
        s.append("a");
        proof {
            reveal_strlit("a");
            assert(s@ =~= old(s)@.push(hex_digit_char(v)));
        }
    } else if v == 11 {
        s.append("b");
        proof {
            reveal_strlit("b");
            assert(s@ =~= old(s)@.push(hex_digit_char(v)));
        }
    } else if v == 12 {
        s.append("c");
        proof {
            reveal_strlit("c");
            assert(s@ =~= old(s)@.push(hex_digit_char(v)));
        }
    } else if v == 13 {
        s.append("d");
        proof {
            reveal_strlit("d");
            assert(s@ =~= old(s)@.push(hex_digit_char(v)));
        }
    } else if v == 14 {
        s.append("e");
        proof {
            reveal_strlit("e");
            assert(s@ =~= old(s)@.push(hex_digit_char(v)));
        }
    } else {
        s.append("f");
        proof {
            reveal_strlit("f");
            assert(s@ =~= old(s)@.push(hex_digit_char(v)));
        }
    }
}

/// Lower-case hex rendering of `bytes`.
pub fn encode_hex(bytes: &Vec<u8>) -> (r: String)
    ensures
        r@ == hex_of(bytes@),
{
    let mut out = String::new();
    let n = bytes.len();
    let mut k: usize = 0;
    while k < n
        invariant
            k <= n,
            n == bytes@.len(),
            out@ == hex_of(bytes@.subrange(0, k as int)),
        decreases n - k,
    {
        let b = bytes[k];
        push_nibble(&mut out, b / 16);
        push_nibble(&mut out, b % 16);
        k += 1;
        proof {
            assert(out@ =~= hex_of(bytes@.subrange(0, k as int)));
        }
    }
    proof {
        assert(bytes@.subrange(0, bytes@.len() as int) =~= bytes@);
    }
    out
}

fn hex_digit_value(c: char) -> (r: Option<u8>)
    ensures
        match r {
            Some(v) => is_hex_digit(c) && v == hex_val(c) && v < 16,
            None => !is_hex_digit(c),
        },
{
    let u = c as u32;
    if 48 <= u && u <= 57 {
        Some((u - 48) as u8)
    } else if 97 <= u && u <= 102 {
        Some((u - 87) as u8)
    } else if 65 <= u && u <= 70 {
        Some((u - 55) as u8)
    } else {
        None
    }
}

/// Bytes of a hex string; fails exactly when the length is odd or a
/// character is not a hex digit.
pub fn decode_hex(s: &str) -> (r: Option<Vec<u8>>)
    ensures
        r is Some <==> s@.len() % 2 == 0 && all_hex(s@),
        r matches Some(v) ==> v@ == hex_bytes(s@),
{
    let n = s.unicode_len();
    if n % 2 != 0 {
        return None;
    }
    let half = n / 2;
    let mut v: Vec<u8> = Vec::new();
    let mut k: usize = 0;
    while k < half
        invariant
            k <= half,
            half == n / 2,
            n % 2 == 0,
            n == s@.len(),
            v@.len() == k,
            forall|j: int| 0 <= j < k ==> v@[j] == hex_bytes(s@)[j],
            forall|i: int| 0 <= i < 2 * k ==> is_hex_digit(#[trigger] s@[i]),
        decreases half - k,
    {
        let c1 = s.get_char(2 * k);
        let c2 = s.get_char(2 * k + 1);
        let v1 = match hex_digit_value(c1) {
            Some(x) => x,
            None => {
                return None;
            },
        };
        let v2 = match hex_digit_value(c2) {
            Some(x) => x,
            None => {
                return None;
            },
        };
        v.push(v1 * 16 + v2);
        k += 1;
    }
    proof {
        assert(v@ =~= hex_bytes(s@));
    }
    Some(v)
}

/// Encode a ticket: the topic's hex form, a pipe, and the node's identity.
pub fn encode_ticket(topic_bytes: &Vec<u8>, node_id: &str) -> (r: String)
    requires
        topic_bytes@.len() == 32,
    ensures
        r@ == hex_of(topic_bytes@) + seq!['|'] + node_id@,
{
    let mut out = encode_hex(topic_bytes);
    out.append("|");
    out.append(node_id);
    proof {
        reveal_strlit("|");
        assert(out@ =~= hex_of(topic_bytes@) + seq!['|'] + node_id@);
    }
    out
}

fn find_pipe(s: &str) -> (r: Option<usize>)
    ensures
        match r {
            Some(i) => i == split_pos(s@) && i < s@.len(),
            None => split_pos(s@) == s@.len(),
        },
{
    let n = s.unicode_len();
    let mut i: usize = 0;
    while i < n
        invariant
            i <= n,
            n == s@.len(),
            forall|j: int| 0 <= j < i ==> s@[j] != '|',
        decreases n - i,
    {
        if s.get_char(i) == '|' {
            proof {
                lemma_split_pos_at(s@, i as int);
            }
            return Some(i);
        }
        i += 1;
    }
    proof {
        lemma_split_pos_none(s@);
    }
    None
}

/// Decode a ticket into its 32 topic bytes and optional bootstrap identity.
///
/// Succeeds exactly when the part before the first `|` (or the whole string
/// without one) is 64 hex digits. The bootstrap identity is the part after
/// the first `|` when that part is non-empty.
pub fn decode_ticket(ticket: &str) -> (r: Option<(Vec<u8>, Option<String>)>)
    ensures
        r is Some <==> valid_ticket(ticket@),
        r matches Some(t) ==> {
            &&& t.0@ == hex_bytes(topic_part(ticket@))
            &&& t.0@.len() == 32
            &&& (t.1 is Some <==> boot_part(ticket@).len() > 0)
            &&& (t.1 matches Some(b) ==> b@ == boot_part(ticket@))
        },
{
    let n = ticket.unicode_len();
    match find_pipe(ticket) {
        Some(p) => {
            let topic_str = ticket.substring_char(0, p);
            match decode_hex(topic_str) {
                Some(topic) => {
                    if topic.len() != 32 {
                        proof {
                            assert(topic_part(ticket@).len() != 64);
                        }
                        None
                    } else {
                        let rest = ticket.substring_char(p + 1, n);
                        let boot = if rest.unicode_len() == 0 {
                            None
                        } else {
                            Some(String::from_str(rest))
                        };
                        Some((topic, boot))
                    }
                },
                None => None,
            }
        },
        None => {
            match decode_hex(ticket) {
                Some(topic) => {
                    proof {
                        assert(topic_part(ticket@) =~= ticket@);
                    }
                    if topic.len() != 32 {
                        None
                    } else {
                        Some((topic, None))
                    }
                },
                None => {
                    proof {
                        assert(topic_part(ticket@) =~= ticket@);
                    }
                    None
                },
            }
        },
    }
}

/// Offset basis of the 64-bit FNV-1a hash.
pub const FNV_OFFSET: u64 = 0xcbf29ce484222325;

/// Prime of the 64-bit FNV-1a hash.
pub const FNV_PRIME: u64 = 0x100000001b3;

/// One FNV-1a step: fold one character into the running hash.
pub open spec fn fnv_step(h: u64, c: char) -> u64 {
    ((((h ^ (c as u64)) as int) * (FNV_PRIME as int)) % 0x1_0000_0000_0000_0000) as u64
}

/// FNV-1a over `s` starting from the running hash `h`.
pub open spec fn fnv_acc(s: Seq<char>, h: u64) -> u64
    decreases s.len(),
{
    if s.len() == 0 {
        h
    } else {
        fnv_acc(s.drop_first(), fnv_step(h, s[0]))
    }
}

/// 64-bit hash of a ticket string, used when it is not bare topic hex.
pub open spec fn ticket_hash(s: Seq<char>) -> u64 {
    fnv_acc(s, FNV_OFFSET)
}

/// The eight bytes of `h`, least significant first.
pub open spec fn le_bytes(h: u64) -> Seq<u8> {
    seq![
        (h & 0xff) as u8,
        ((h >> 8u64) & 0xff) as u8,
        ((h >> 16u64) & 0xff) as u8,
        ((h >> 24u64) & 0xff) as u8,
        ((h >> 32u64) & 0xff) as u8,
        ((h >> 40u64) & 0xff) as u8,
        ((h >> 48u64) & 0xff) as u8,
        ((h >> 56u64) & 0xff) as u8,
    ]
}

/// The eight bytes of `h`, most significant first.
pub open spec fn be_bytes(h: u64) -> Seq<u8> {
    le_bytes(h).reverse()
}

/// 32 bytes expanded from a 64-bit hash: its bytes least-significant-first,
/// then most-significant-first, then the same two runs again.
pub open spec fn expand_topic(h: u64) -> Seq<u8> {
    le_bytes(h) + be_bytes(h) + le_bytes(h) + be_bytes(h)
}

/// The topic a ticket string determines: its own bytes when it is exactly
/// 64 hex digits, and otherwise a deterministic expansion of its hash, so
/// that every client of the same ticket reaches the same topic.
pub open spec fn derived_topic(s: Seq<char>) -> Seq<u8> {
    if s.len() == 64 && all_hex(s) {
        hex_bytes(s)
    } else {
        expand_topic(ticket_hash(s))
    }
}

fn hash_ticket(s: &str) -> (h: u64)
    ensures
        h == ticket_hash(s@),
{
    let n = s.unicode_len();
    let mut h: u64 = FNV_OFFSET;
    let mut i: usize = 0;
    proof {
        assert(s@.subrange(0, n as int) =~= s@);
    }
    while i < n
        invariant
            i <= n,
            n == s@.len(),
            fnv_acc(s@.subrange(i as int, n as int), h) == ticket_hash(s@),
        decreases n - i,
    {
        let c = s.get_char(i);
        let ghost pre = s@.subrange(i as int, n as int);
        let x = h ^ (c as u64);
        let prod: u128 = (x as u128) * (FNV_PRIME as u128);
        h = (prod % 0x1_0000_0000_0000_0000u128) as u64;
        proof {
            assert(pre[0] == s@[i as int]);
            assert(pre.drop_first() =~= s@.subrange(i as int + 1, n as int));
        }
        i += 1;
    }
    h
}

fn expand_hash(h: u64) -> (r: Vec<u8>)
    ensures
        r@ == expand_topic(h),
{
    let b0 = #[verifier::truncate] ((h & 0xff) as u8);
    let b1 = #[verifier::truncate] (((h >> 8u64) & 0xff) as u8);
    let b2 = #[verifier::truncate] (((h >> 16u64) & 0xff) as u8);
    let b3 = #[verifier::truncate] (((h >> 24u64) & 0xff) as u8);
    let b4 = #[verifier::truncate] (((h >> 32u64) & 0xff) as u8);
    let b5 = #[verifier::truncate] (((h >> 40u64) & 0xff) as u8);
    let b6 = #[verifier::truncate] (((h >> 48u64) & 0xff) as u8);
    let b7 = #[verifier::truncate] (((h >> 56u64) & 0xff) as u8);
    let mut r: Vec<u8> = Vec::new();
    r.push(b0);
    r.push(b1);
    r.push(b2);
    r.push(b3);
    r.push(b4);
    r.push(b5);
    r.push(b6);
    r.push(b7);
    r.push(b7);
    r.push(b6);
    r.push(b5);
    r.push(b4);
    r.push(b3);
    r.push(b2);
    r.push(b1);
    r.push(b0);
    r.push(b0);
    r.push(b1);
    r.push(b2);
    r.push(b3);
    r.push(b4);
    r.push(b5);
    r.push(b6);
    r.push(b7);
    r.push(b7);
    r.push(b6);
    r.push(b5);
    r.push(b4);
    r.push(b3);
    r.push(b2);
    r.push(b1);
    r.push(b0);
    proof {
        assert(r@ =~= expand_topic(h));
    }
    r
}

/// The 32-byte topic for an arbitrary ticket string: its own bytes when it
/// is bare 64-digit topic hex, and otherwise the deterministic expansion of
/// its hash.
pub fn derive_topic(ticket: &str) -> (r: Vec<u8>)
    ensures
        r@ == derived_topic(ticket@),
        r@.len() == 32,
{
    let n = ticket.unicode_len();
    if n == 64 {
        match decode_hex(ticket) {
            Some(v) => {
                return v;
            },
            None => {},
        }
    }
    expand_hash(hash_ticket(ticket))
}

/// A ticket written by `encode_ticket` with a non-empty identity decodes
/// back to the same topic bytes and the same bootstrap identity.
pub proof fn lemma_ticket_round_trip(topic: Seq<u8>, node_id: Seq<char>)
    requires
        topic.len() == 32,
        node_id.len() > 0,
    ensures
        valid_ticket(hex_of(topic) + seq!['|'] + node_id),
        hex_bytes(topic_part(hex_of(topic) + seq!['|'] + node_id)) == topic,
        boot_part(hex_of(topic) + seq!['|'] + node_id) == node_id,
{
    let enc = hex_of(topic) + seq!['|'] + node_id;
    assert forall|j: int| 0 <= j < 64 implies enc[j] != '|' && is_hex_digit(enc[j]) by {
        assert(enc[j] == hex_of(topic)[j]);
    }
    assert(enc[64] == '|');
    lemma_split_pos_at(enc, 64);
    assert(topic_part(enc) =~= hex_of(topic));
    assert(boot_part(enc) =~= node_id);
    assert(hex_bytes(hex_of(topic)) =~= topic) by {
        assert forall|i: int| 0 <= i < 32 implies hex_bytes(hex_of(topic))[i] == topic[i] by {
            assert(hex_of(topic)[2 * i] == hex_digit_char((topic[i] / 16) as u8));
            assert(hex_of(topic)[2 * i + 1] == hex_digit_char((topic[i] % 16) as u8));
        }
    }
}

} // verus!
