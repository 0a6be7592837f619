use vstd::prelude::*;
use vstd::string::StringSliceAdditionalSpecFns;
use vstd::utf8::encode_utf8;
use crate::codec::{hex_bytes, hex_decode, hex_encode, hex_of, is_hex_char, lemma_hex_roundtrip};
use crate::crypto::{
    aes128_block, aes128_encrypt_block, aes128_unblock, ed25519_public, ed25519_public_of, ed25519_sign,
    ed25519_signature_of, sha256, sha256_of,
};
use crate::json::{
    json_object, json_object_pretty, json_object_pretty_text, json_object_text, json_key_present, json_pointer_text,
    member_set, member_settable, json_string_at, kv_view, last_value, plain_token, set_member,
};
use crate::random::{random_key16, random_key32};
use crate::pattern::{regex_capture, regex_valid, Pattern};
use crate::text::{
    copy_str, lemma_lines_append, lines_of, lines_str, opt_view, push_char, push_str, replace, replace_str, trim,
    trim_str,
};

verus! {

/// A signed record of the consensus layer: its epoch, its kind (0 for an
/// article, 1 for a shared list), the payload and the signature over it.
pub struct SignedRecord {
    pub epoch_id: u64,
    pub record_type: u8,
    pub payload: Vec<u8>,
    pub judge_signature: Vec<u8>,
}

/// The node identity: its user name, its Ed25519 keys, and the records it
/// holds, by the SHA-256 of their stored bytes.
pub struct TrustLayer {
    pub user_name: String,
    pub secret: [u8; 32],
    pub public: [u8; 32],
    pub records: Vec<(Vec<u8>, SignedRecord)>,
}

/// Why the node identity could not be set up.
pub enum TrustError {
    /// The stored key is not 32 bytes of hex.
    BadKey,
}

pub const CHART_PATTERN: &'static str = "@chart:([\\d+,?]+)";
pub const FILE_PATTERN: &'static str = "@file:([^\\s]+)";

// ---------------------------------------------------------------------------
// Specifications.
// ---------------------------------------------------------------------------

/// The base64 alphabet (`A-Z`, `a-z`, `0-9`, `+`, `/`).
pub open spec fn b64_char(i: int) -> char {
    if i < 26 {
        (65 + i) as char
    } else if i < 52 {
        (97 + i - 26) as char
    } else if i < 62 {
        (48 + i - 52) as char
    } else if i == 62 {
        '+'
    } else {
        '/'
    }
}

/// One group of up to three bytes (`n` of them real) as four base64 chars.
pub open spec fn b64_group(b0: int, b1: int, b2: int, n: int) -> Seq<char> {
    seq![
        b64_char(b0 / 4),
        b64_char((b0 % 4) * 16 + b1 / 16),
        if n >= 2 { b64_char((b1 % 16) * 4 + b2 / 64) } else { '=' },
        if n >= 3 { b64_char(b2 % 64) } else { '=' },
    ]
}

/// Standard padded base64.
pub open spec fn base64(data: Seq<u8>) -> Seq<char>
    decreases data.len(),
{
    if data.len() == 0 {
        Seq::empty()
    } else {
        let b1: int = if data.len() > 1 { data[1] as int } else { 0 };
        let b2: int = if data.len() > 2 { data[2] as int } else { 0 };
        let n: int = if data.len() >= 3 { 3 } else { data.len() as int };
        b64_group(data[0] as int, b1, b2, n) + if data.len() <= 3 {
            Seq::empty()
        } else {
            base64(data.skip(3))
        }
    }
}

/// The value of a base64 character (`A-Z`, `a-z`, `0-9`, `+`, `/`).
pub open spec fn b64_val(c: char) -> int {
    if 'A' <= c && c <= 'Z' {
        c as int - 65
    } else if 'a' <= c && c <= 'z' {
        c as int - 97 + 26
    } else if '0' <= c && c <= '9' {
        c as int - 48 + 52
    } else if c == '+' {
        62
    } else {
        63
    }
}

/// Standard padded base64 decoding (RFC 4648): four characters give three
/// bytes, or fewer where the group ends in `=`.
pub open spec fn unbase64(s: Seq<char>) -> Seq<u8>
    decreases s.len(),
{
    if s.len() < 4 {
        Seq::empty()
    } else {
        let v0 = b64_val(s[0]);
        let v1 = b64_val(s[1]);
        let v2 = b64_val(s[2]);
        let v3 = b64_val(s[3]);
        let x0 = (v0 * 4 + v1 / 16) as u8;
        let x1 = ((v1 % 16) * 16 + v2 / 4) as u8;
        let x2 = ((v2 % 4) * 64 + v3) as u8;
        let group = if s[2] == '=' {
            seq![x0]
        } else if s[3] == '=' {
            seq![x0, x1]
        } else {
            seq![x0, x1, x2]
        };
        group + unbase64(s.skip(4))
    }
}

/// PKCS#7 padding to whole 16-byte blocks (always at least one byte).
pub open spec fn padded(data: Seq<u8>) -> Seq<u8> {
    let pad = 16 - data.len() % 16;
    data + Seq::new(pad as nat, |i: int| pad as u8)
}

/// Each 16-byte block encrypted on its own.
pub open spec fn ecb_blocks(key: Seq<u8>, data: Seq<u8>) -> Seq<u8>
    decreases data.len(),
{
    if data.len() < 16 {
        Seq::empty()
    } else {
        aes128_block(key, data.take(16)) + ecb_blocks(key, data.skip(16))
    }
}

/// Each 16-byte block decrypted on its own.
pub open spec fn ecb_unblocks(key: Seq<u8>, data: Seq<u8>) -> Seq<u8>
    decreases data.len(),
{
    if data.len() < 16 {
        Seq::empty()
    } else {
        aes128_unblock(key, data.take(16)) + ecb_unblocks(key, data.skip(16))
    }
}

/// PKCS#7 padding removed: as many bytes as the last byte says.
pub open spec fn unpadded(p: Seq<u8>) -> Seq<u8> {
    if p.len() == 0 {
        p
    } else {
        p.take(p.len() - p.last() as int)
    }
}

/// AES-128 in ECB mode over the PKCS#7-padded data.
pub open spec fn aes_ecb(key: Seq<u8>, data: Seq<u8>) -> Seq<u8> {
    ecb_blocks(key, padded(data))
}

/// The record hash as hex.
pub open spec fn record_hash(bytes: Seq<u8>) -> Seq<char> {
    hex_of(sha256_of(bytes))
}

/// The lines of the store kept when the record with digest `hash` is
/// deleted: lines that decode (once trimmed) as hex to bytes of another
/// digest, each ended by `\n`; lines that are no hex are dropped.
pub open spec fn kept_lines(lines: Seq<Seq<char>>, hash: Seq<u8>) -> Seq<char>
    decreases lines.len(),
{
    if lines.len() == 0 {
        Seq::empty()
    } else {
        kept_lines(lines.drop_last(), hash) + match hex_bytes(trim(lines.last())) {
            Some(b) => if sha256_of(b) != hash {
                lines.last() + seq!['\n']
            } else {
                Seq::empty()
            },
            None => Seq::empty(),
        }
    }
}

/// The records the store lines hold: each trimmed non-empty line that
/// is hex, as its bytes.
pub open spec fn store_records(lines: Seq<Seq<char>>) -> Seq<Seq<u8>>
    decreases lines.len(),
{
    if lines.len() == 0 {
        Seq::empty()
    } else {
        let t = trim(lines.last());
        store_records(lines.drop_last()) + if t.len() > 0 {
            match hex_bytes(t) {
                Some(b) => seq![b],
                None => Seq::empty(),
            }
        } else {
            Seq::empty()
        }
    }
}

/// Some record is kept under the digest.
pub open spec fn has_digest(records: Seq<(Vec<u8>, SignedRecord)>, digest: Seq<u8>) -> bool {
    exists|k: int| 0 <= k < records.len() && #[trigger] records[k].0@ == digest
}

/// The markup that links an attached file by its hash.
pub open spec fn file_link(hash: Seq<char>) -> Seq<char> {
    "<a href='shared_files/"@ + hash + "'>\n  <img src='./file.svg' />\n</a>"@
}

pub open spec fn capture_of(pattern: Seq<char>, s: Seq<char>) -> Option<(Seq<char>, Option<Seq<char>>)> {
    if regex_valid(pattern) {
        regex_capture(pattern, s)
    } else {
        None
    }
}

/// The body with its first `@chart:...` reference replaced by the chart
/// template (`Chart: {}` when there is none) with the numbers put in.
pub open spec fn charted(body: Seq<char>, template: Option<Seq<char>>) -> Seq<char> {
    match capture_of(CHART_PATTERN@, body) {
        Some((whole, Some(nums))) => if whole.len() > 0 {
            let t = match template {
                Some(t) => t,
                None => "Chart: {}"@,
            };
            replace(body, whole, replace(t, "{}"@, nums))
        } else {
            body
        },
        _ => body,
    }
}

/// The author line of an article: `[name](/node/<node id>)`.
pub open spec fn author_line(name: Seq<char>, public: Seq<u8>) -> Seq<char> {
    seq!['['] + name + "](/node/"@ + hex_of(public) + seq![')']
}

/// The article JSON: author, date, body, IP and licence.
pub open spec fn article_json(name: Seq<char>, public: Seq<u8>, body: Seq<char>, date: Seq<char>, ip: Seq<char>) -> Seq<char> {
    json_object_text(
        seq![
            ("author"@, author_line(name, public)),
            ("date"@, date),
            ("body"@, body),
            ("IP"@, ip),
            ("agreement"@, "CC BY-NC"@),
        ],
    )
}

/// A text sealed under a 16-byte key: the key in hex (two halves) and the
/// AES-128 ECB cipher text of its UTF-8 bytes in base64, as JSON.
pub open spec fn sealed_json(text: Seq<char>, key: Seq<u8>) -> Seq<char> {
    json_object_text(
        seq![
            ("encrypt"@, hex_of(key.take(8)) + hex_of(key.skip(8))),
            ("data"@, base64(aes_ecb(key, encode_utf8(text)))),
        ],
    )
}

/// The first address that is not a loopback one, or `127.0.0.1`.
pub open spec fn first_public(addrs: Seq<(Seq<char>, bool)>) -> Seq<char>
    decreases addrs.len(),
{
    if addrs.len() == 0 {
        "127.0.0.1"@
    } else if !addrs[0].1 {
        addrs[0].0
    } else {
        first_public(addrs.drop_first())
    }
}

/// The secret key the user file holds, where it holds a non-empty one.
pub open spec fn stored_key(text: Seq<char>) -> Option<Seq<char>> {
    match json_pointer_text(text, "/user/key"@) {
        Some(k) => if k.len() > 0 {
            Some(k)
        } else {
            None
        },
        None => None,
    }
}

/// The user name the user file holds, or the given default.
pub open spec fn stored_name(text: Seq<char>, default: Seq<char>) -> Seq<char> {
    match json_pointer_text(text, "/user/name"@) {
        Some(n) => n,
        None => default,
    }
}

/// The name a new identity takes: the stored one unless it is empty.
pub open spec fn fresh_name(text: Seq<char>) -> Seq<char> {
    match json_pointer_text(text, "/user/name"@) {
        Some(n) => if n.len() > 0 {
            n
        } else {
            "StockgoNode"@
        },
        None => "StockgoNode"@,
    }
}

/// The user member written for a new identity.
pub open spec fn user_member(name: Seq<char>, secret: Seq<u8>, public: Seq<u8>) -> Seq<(Seq<char>, Seq<char>)> {
    seq![
        ("name"@, name),
        ("key"@, hex_of(secret)),
        ("pubkey"@, hex_of(public)),
        ("ipns"@, hex_of(public)),
    ]
}

/// The user file's text holds the identity of this name and secret key:
/// its stored key is the key's hex and its stored name the name.
pub open spec fn reads_back(text: Seq<char>, name: Seq<char>, secret: Seq<u8>) -> bool {
    &&& stored_key(text) matches Some(k) && hex_bytes(k) == Some(secret)
    &&& stored_name(text, "Anonymous"@) == name
}

/// The new user file's text holds the identity and keeps the rest of the
/// file: it reads back as this name and secret key, its `pubkey` and
/// `ipns` are the public key's hex, and any other member (and anything a
/// pointer through another plain key reaches) is as it was.
pub open spec fn written_identity(
    text: Seq<char>,
    base: Seq<char>,
    name: Seq<char>,
    secret: Seq<u8>,
    public: Seq<u8>,
) -> bool {
    &&& reads_back(text, name, secret)
    &&& json_pointer_text(text, "/user/pubkey"@) == Some(hex_of(public))
    &&& json_pointer_text(text, "/user/ipns"@) == Some(hex_of(public))
    &&& forall|k: Seq<char>| k != "user"@ ==> #[trigger] json_key_present(text, k) == json_key_present(base, k)
    &&& forall|k: Seq<char>, rest: Seq<char>|
        plain_token(k) && k != "user"@ && (rest.len() == 0 || rest[0] == '/') ==> #[trigger] json_pointer_text(
            text,
            seq!['/'] + k + rest,
        ) == json_pointer_text(base, seq!['/'] + k + rest)
}

/// The text the user file is read as: `{}` when there is none.
pub open spec fn user_base(user_data: Option<Seq<char>>) -> Seq<char> {
    match user_data {
        Some(t) => t,
        None => "{}"@,
    }
}

// ---------------------------------------------------------------------------
// Lemmas.
// ---------------------------------------------------------------------------

/// Base64 writes four chars for every started group of three bytes.
pub proof fn lemma_base64_len(data: Seq<u8>)
    ensures
        base64(data).len() == 4 * ((data.len() + 2) / 3),
    decreases data.len(),
{
    if data.len() > 3 {
        lemma_base64_len(data.skip(3));
    }
}

/// Each base64 character reads back as its value, and none is `=`.
pub proof fn lemma_b64_char(i: int)
    requires
        0 <= i < 64,
    ensures
        b64_val(b64_char(i)) == i,
        b64_char(i) != '=',
{
}

/// Base64 decoding gives back the encoded bytes.
pub proof fn law_base64_roundtrip(data: Seq<u8>)
    ensures
        unbase64(base64(data)) == data,
    decreases data.len(),
{
    if data.len() > 0 {
        let b0: int = data[0] as int;
        let b1: int = if data.len() > 1 { data[1] as int } else { 0 };
        let b2: int = if data.len() > 2 { data[2] as int } else { 0 };
        let n: int = if data.len() >= 3 { 3 } else { data.len() as int };
        let g = b64_group(b0, b1, b2, n);
        let rest = if data.len() <= 3 { Seq::<char>::empty() } else { base64(data.skip(3)) };
        let e = base64(data);
        assert(e == g + rest);
        assert(e.skip(4) =~= rest);
        lemma_b64_char(b0 / 4);
        lemma_b64_char((b0 % 4) * 16 + b1 / 16);
        lemma_b64_char((b1 % 16) * 4 + b2 / 64);
        lemma_b64_char(b2 % 64);
        assert(e[0] == g[0] && e[1] == g[1] && e[2] == g[2] && e[3] == g[3]);
        let v1 = (b0 % 4) * 16 + b1 / 16;
        let v2 = (b1 % 16) * 4 + b2 / 64;
        assert((b0 / 4) * 4 + v1 / 16 == b0);
        assert((v1 % 16) * 16 + v2 / 4 == b1);
        assert((v2 % 4) * 64 + b2 % 64 == b2);
        if data.len() > 3 {
            law_base64_roundtrip(data.skip(3));
            assert(data =~= seq![data[0], data[1], data[2]] + data.skip(3));
        } else {
            assert(rest.len() == 0);
            assert(unbase64(rest) =~= Seq::<u8>::empty());
            if data.len() == 1 {
                assert(data =~= seq![data[0]]);
            } else if data.len() == 2 {
                assert(data =~= seq![data[0], data[1]]);
            } else {
                assert(data =~= seq![data[0], data[1], data[2]]);
            }
        }
    }
}

/// Padding reaches whole blocks, adds between 1 and 16 bytes, keeps the
/// data in front, and every added byte holds the number of added bytes.
pub proof fn lemma_padded(data: Seq<u8>)
    ensures
        padded(data).len() % 16 == 0,
        data.len() < padded(data).len() <= data.len() + 16,
        padded(data).take(data.len() as int) == data,
        unpadded(padded(data)) == data,
        forall|i: int|
            data.len() <= i < padded(data).len() ==> #[trigger] padded(data)[i] as int == padded(
                data,
            ).len() - data.len(),
{
    assert(padded(data).take(data.len() as int) =~= data);
    assert(padded(data).last() as int == padded(data).len() - data.len());
}

/// Decrypting blocks laid end to end decrypts each part.
pub proof fn lemma_unblocks_append(key: Seq<u8>, a: Seq<u8>, b: Seq<u8>)
    requires
        a.len() % 16 == 0,
    ensures
        ecb_unblocks(key, a + b) == ecb_unblocks(key, a) + ecb_unblocks(key, b),
    decreases a.len(),
{
    if a.len() == 0 {
        assert(a + b =~= b);
        assert(ecb_unblocks(key, a) + ecb_unblocks(key, b) =~= ecb_unblocks(key, b));
    } else {
        lemma_unblocks_append(key, a.skip(16), b);
        assert((a + b).take(16) =~= a.take(16));
        assert((a + b).skip(16) =~= a.skip(16) + b);
        assert(ecb_unblocks(key, a + b) =~= aes128_unblock(key, a.take(16)) + ecb_unblocks(key, a.skip(16))
            + ecb_unblocks(key, b));
    }
}

/// Deleting the record that a post just appended to the store drops its
/// line: what stays is what deleting that record kept before the post. The
/// hash the post reports names the record's digest.
pub proof fn law_post_then_delete(store: Seq<char>, bytes: Seq<u8>)
    requires
        store.len() == 0 || store.last() == '\n',
    ensures
        hex_bytes(record_hash(bytes)) == Some(sha256_of(bytes)),
        kept_lines(lines_of(store + hex_of(bytes) + seq!['\n']), sha256_of(bytes)) == kept_lines(
            lines_of(store),
            sha256_of(bytes),
        ),
{
    let h = hex_of(bytes);
    lemma_hex_roundtrip(sha256_of(bytes));
    lemma_hex_roundtrip(bytes);
    assert forall|i: int| 0 <= i < h.len() implies #[trigger] h[i] != '\n' by {
        assert(is_hex_char(h[i]));
    }
    if h.len() > 0 {
        assert(is_hex_char(h[h.len() - 1]));
        assert(is_hex_char(h[0]));
    }
    lemma_lines_append(store, h);
    let lines = lines_of(store);
    assert(lines.push(h).drop_last() =~= lines);
    assert(trim(h) == h);
}

// ---------------------------------------------------------------------------
// Implementation.
// ---------------------------------------------------------------------------

fn b64_char_exec(i: u32) -> (c: char)
    requires
        i < 64,
    ensures
        c == b64_char(i as int),
{
    if i < 26 {
        ((65 + i) as u8) as char
    } else if i < 52 {
        ((97 + i - 26) as u8) as char
    } else if i < 62 {
        ((48 + i - 52) as u8) as char
    } else if i == 62 {
        '+'
    } else {
        '/'
    }
}

/// Standard padded base64 of the bytes.
pub fn base64_encode(data: &[u8]) -> (r: String)
    ensures
        r@ == base64(data@),
        unbase64(r@) == data@,
        r@.len() == 4 * ((data@.len() + 2) / 3),
{
    let mut out = String::new();
    let n = data.len();
    let mut i: usize = 0;
    assert(data@.skip(0) =~= data@);
    while i < n
        invariant
            n == data@.len(),
            i <= n,
            out@ + base64(data@.skip(i as int)) == base64(data@),
        decreases n - i,
    {
        let ghost rest = data@.skip(i as int);
        let b0 = data[i] as u32;
        let b1: u32 = if n - i > 1 { data[i + 1] as u32 } else { 0 };
        let b2: u32 = if n - i > 2 { data[i + 2] as u32 } else { 0 };
        let c0 = b0 / 4;
        let c1 = (b0 % 4) * 16 + b1 / 16;
        let c2 = (b1 % 16) * 4 + b2 / 64;
        let c3 = b2 % 64;
        let ghost before = out@;
        push_char(&mut out, b64_char_exec(c0));
        push_char(&mut out, b64_char_exec(c1));
        if n - i > 1 {
            push_char(&mut out, b64_char_exec(c2));
        } else {
            push_char(&mut out, '=');
        }
        if n - i > 2 {
            push_char(&mut out, b64_char_exec(c3));
        } else {
            push_char(&mut out, '=');
        }
        proof {
            let m: int = if rest.len() >= 3 { 3 } else { rest.len() as int };
            assert(rest[0] == data@[i as int]);
            if rest.len() > 1 {
                assert(rest[1] == data@[i + 1]);
            }
            if rest.len() > 2 {
                assert(rest[2] == data@[i + 2]);
            }
            assert(out@ =~= before + b64_group(b0 as int, b1 as int, b2 as int, m));
            if rest.len() > 3 {
                assert(rest.skip(3) =~= data@.skip(i + 3));
            } else {
                assert(data@.skip(if i + 3 <= n { (i + 3) as int } else { n as int }).len() == 0);
            }
        }
        if n - i <= 3 {
            proof {
                assert(data@.skip(n as int) =~= Seq::<u8>::empty());
                assert(out@ + base64(data@.skip(n as int)) =~= out@);
            }
            i = n;
        } else {
            i = i + 3;
        }
    }
    proof {
        assert(data@.skip(n as int) =~= Seq::<u8>::empty());
        assert(out@ + Seq::<char>::empty() =~= out@);
        lemma_base64_len(data@);
        law_base64_roundtrip(data@);
    }
    out
}

/// The data PKCS#7-padded to whole 16-byte blocks.
pub fn pad_blocks(data: &[u8]) -> (r: Vec<u8>)
    ensures
        r@ == padded(data@),
{
    let n = data.len();
    let pad = 16 - n % 16;
    let mut out: Vec<u8> = Vec::new();
    for i in 0..n
        invariant
            n == data@.len(),
            out@ == data@.take(i as int),
    {
        out.push(data[i]);
        assert(data@.take(i + 1) =~= data@.take(i as int).push(data@[i as int]));
    }
    for j in 0..pad
        invariant
            pad == 16 - n % 16,
            n == data@.len(),
            out@ =~= data@.take(n as int) + Seq::new(j as nat, |k: int| pad as u8),
    {
        out.push(pad as u8);
        assert(Seq::new((j + 1) as nat, |k: int| pad as u8) =~= Seq::new(j as nat, |k: int| pad as u8).push(pad as u8));
    }
    assert(data@.take(n as int) =~= data@);
    out
}

/// AES-128 in ECB mode over the PKCS#7-padded data.
pub fn aes_ecb_encrypt(key: &[u8; 16], data: &[u8]) -> (r: Vec<u8>)
    ensures
        r@ == aes_ecb(key@, data@),
        r@.len() == padded(data@).len(),
        ecb_unblocks(key@, r@) == padded(data@),
        unpadded(ecb_unblocks(key@, r@)) == data@,
{
    let p = pad_blocks(data);
    proof {
        lemma_padded(data@);
    }
    let n = p.len();
    let mut out: Vec<u8> = Vec::new();
    let mut i: usize = 0;
    assert(p@.skip(0) =~= p@);
    while i < n
        invariant
            n == p@.len(),
            n % 16 == 0,
            i <= n,
            i % 16 == 0,
            out@.len() == i,
            out@ + ecb_blocks(key@, p@.skip(i as int)) == ecb_blocks(key@, p@),
            ecb_unblocks(key@, out@) == p@.take(i as int),
        decreases n - i,
    {
        let mut block: Vec<u8> = Vec::new();
        for k in 0..16
            invariant
                i + 16 <= n,
                n == p@.len(),
                block@ == p@.subrange(i as int, i + k),
        {
            block.push(p[i + k]);
            assert(p@.subrange(i as int, i + k + 1) =~= p@.subrange(i as int, i + k).push(p@[i + k]));
        }
        let enc = aes128_encrypt_block(key, block.as_slice());
        let ghost before = out@;
        let ghost ev = enc@;
        let mut e = enc;
        out.append(&mut e);
        proof {
            lemma_unblocks_append(key@, before, ev);
            assert(ev.take(16) =~= ev);
            assert(ev.skip(16).len() == 0);
            assert(ecb_unblocks(key@, ev.skip(16)) =~= Seq::<u8>::empty());
            assert(ecb_unblocks(key@, ev) == aes128_unblock(key@, ev.take(16)) + ecb_unblocks(key@, ev.skip(16)));
            assert(ecb_unblocks(key@, ev) =~= aes128_unblock(key@, ev));
            assert(out@ =~= before + ev);
            assert(p@.take(i + 16) =~= p@.take(i as int) + p@.subrange(i as int, i + 16));
            let rest = p@.skip(i as int);
            assert(rest.take(16) =~= p@.subrange(i as int, i + 16));
            assert(rest.skip(16) =~= p@.skip(i + 16));
            assert(out@ + ecb_blocks(key@, p@.skip(i + 16)) =~= before + ecb_blocks(key@, rest));
        }
        i = i + 16;
    }
    proof {
        assert(p@.skip(n as int) =~= Seq::<u8>::empty());
        assert(out@ + Seq::<u8>::empty() =~= out@);
        assert(p@.take(n as int) =~= p@);
    }
    out
}

impl TrustLayer {
    pub open spec fn secret_key(&self) -> Seq<u8> {
        self.secret@
    }

    /// The identity of `user_name` with the Ed25519 secret key stored as hex.
    pub fn new(user_name: &str, key_hex: &str) -> (r: Result<TrustLayer, TrustError>)
        ensures
            match hex_bytes(key_hex@) {
                Some(k) if k.len() == 32 => r matches Ok(t) && {
                    &&& t.user_name@ == user_name@
                    &&& t.secret_key() == k
                    &&& t.public@ == ed25519_public_of(k)
                    &&& t.records@.len() == 0
                },
                _ => r is Err,
            },
    {
        let bytes = match hex_decode(key_hex) {
            Some(b) => b,
            None => {
                return Err(TrustError::BadKey);
            },
        };
        if bytes.len() != 32 {
            return Err(TrustError::BadKey);
        }
        let mut secret = [0u8; 32];
        for i in 0..32
            invariant
                bytes@.len() == 32,
                forall|k: int| 0 <= k < i ==> secret@[k] == bytes@[k],
                secret@.len() == 32,
        {
            secret[i] = bytes[i];
        }
        assert(secret@ =~= bytes@);
        let public = ed25519_public(&secret);
        Ok(TrustLayer { user_name: copy_str(user_name), secret, public, records: Vec::new() })
    }

    /// The hex of the node's public key (its node id).
    pub fn node_id(&self) -> (r: String)
        ensures
            r@ == hex_of(self.public@),
    {
        hex_encode(&self.public)
    }

    /// The node profile as pretty JSON: name, node id, version and layer.
    pub fn get_profile(&self) -> (r: String)
        ensures
            r@ == json_object_pretty_text(seq![
                ("name"@, self.user_name@),
                ("node_id"@, hex_of(self.public@)),
                ("version"@, "0.1.0"@),
                ("layer"@, "io_oi_consensus"@),
            ]),
    {
        proof {
            reveal_strlit("name");
            reveal_strlit("node_id");
            reveal_strlit("version");
            reveal_strlit("0.1.0");
            reveal_strlit("layer");
            reveal_strlit("io_oi_consensus");
        }
        let mut v: Vec<(String, String)> = Vec::new();
        v.push((copy_str("name"), copy_str(self.user_name.as_str())));
        v.push((copy_str("node_id"), self.node_id()));
        v.push((copy_str("version"), copy_str("0.1.0")));
        v.push((copy_str("layer"), copy_str("io_oi_consensus")));
        let r = json_object_pretty(&v);
        assert(v@.map_values(|p: (String, String)| kv_view(p)) =~= seq![
            ("name"@, self.user_name@),
            ("node_id"@, hex_of(self.public@)),
            ("version"@, "0.1.0"@),
            ("layer"@, "io_oi_consensus"@),
        ]);
        r
    }

    /// The author line of an article: `[name](/node/<node id>)`.
    pub fn author(&self) -> (r: String)
        ensures
            r@ == author_line(self.user_name@, self.public@),
    {
        proof {
            reveal_strlit("](/node/");
        }
        let mut s = String::new();
        push_char(&mut s, '[');
        push_str(&mut s, self.user_name.as_str());
        push_str(&mut s, "](/node/");
        let id = self.node_id();
        push_str(&mut s, id.as_str());
        push_char(&mut s, ')');
        assert(s@ =~= seq!['['] + self.user_name@ + "](/node/"@ + hex_of(self.public@) + seq![')']);
        s
    }

    /// The article JSON: author, date, body, IP and licence.
    pub fn article(&self, body: &str, date: &str, ip: &str) -> (r: String)
        ensures
            r@ == article_json(self.user_name@, self.public@, body@, date@, ip@),
    {
        proof {
            reveal_strlit("author");
            reveal_strlit("date");
            reveal_strlit("body");
            reveal_strlit("IP");
            reveal_strlit("agreement");
            reveal_strlit("CC BY-NC");
        }
        let mut v: Vec<(String, String)> = Vec::new();
        v.push((copy_str("author"), self.author()));
        v.push((copy_str("date"), copy_str(date)));
        v.push((copy_str("body"), copy_str(body)));
        v.push((copy_str("IP"), copy_str(ip)));
        v.push((copy_str("agreement"), copy_str("CC BY-NC")));
        let r = json_object(&v);
        assert(v@.map_values(|p: (String, String)| kv_view(p)) =~= seq![
            ("author"@, seq!['['] + self.user_name@ + "](/node/"@ + hex_of(self.public@) + seq![')']),
            ("date"@, date@),
            ("body"@, body@),
            ("IP"@, ip@),
            ("agreement"@, "CC BY-NC"@),
        ]);
        r
    }

    /// A private article: the article's UTF-8 bytes encrypted with AES-128
    /// ECB under `key`, as JSON with the key in hex and the data in base64.
    pub fn seal(article: &str, key: &[u8; 16]) -> (r: String)
        ensures
            r@ == sealed_json(article@, key@),
    {
        proof {
            reveal_strlit("encrypt");
            reveal_strlit("data");
        }
        let ct = aes_ecb_encrypt(key, article.as_bytes());
        let mut front: Vec<u8> = Vec::new();
        let mut back: Vec<u8> = Vec::new();
        for i in 0..8
            invariant
                front@ == key@.take(i as int),
        {
            front.push(key[i]);
            assert(key@.take(i + 1) =~= key@.take(i as int).push(key@[i as int]));
        }
        for i in 8..16
            invariant
                back@ == key@.subrange(8, i as int),
        {
            back.push(key[i]);
            assert(key@.subrange(8, i + 1) =~= key@.subrange(8, i as int).push(key@[i as int]));
        }
        assert(key@.subrange(8, 16) =~= key@.skip(8));
        let mut enc = hex_encode(front.as_slice());
        let h2 = hex_encode(back.as_slice());
        push_str(&mut enc, h2.as_str());
        let data = base64_encode(ct.as_slice());
        let mut v: Vec<(String, String)> = Vec::new();
        v.push((copy_str("encrypt"), enc));
        v.push((copy_str("data"), data));
        let r = json_object(&v);
        assert(v@.map_values(|p: (String, String)| kv_view(p)) =~= seq![
            ("encrypt"@, hex_of(key@.take(8)) + hex_of(key@.skip(8))),
            ("data"@, base64(aes_ecb(key@, article.spec_bytes()))),
        ]);
        r
    }

    /// A record of the payload's UTF-8 bytes, signed with the node's key.
    pub fn sign_record(&self, payload: &str, record_type: u8) -> (r: SignedRecord)
        ensures
            r.epoch_id == 1,
            r.record_type == record_type,
            r.payload@ == payload.spec_bytes(),
            r.judge_signature@ == ed25519_signature_of(self.secret_key(), payload.spec_bytes()),
    {
        let bytes = payload.as_bytes();
        let sig = ed25519_sign(&self.secret, bytes);
        let mut p: Vec<u8> = Vec::new();
        let n = bytes.len();
        for i in 0..n
            invariant
                n == bytes@.len(),
                p@ == bytes@.take(i as int),
        {
            p.push(bytes[i]);
            assert(bytes@.take(i + 1) =~= bytes@.take(i as int).push(bytes@[i as int]));
        }
        assert(bytes@.take(n as int) =~= bytes@);
        SignedRecord { epoch_id: 1, record_type, payload: p, judge_signature: sig }
    }

    /// The hash a record is kept under: the hex SHA-256 of its stored bytes.
    pub fn record_hash(bytes: &[u8]) -> (r: String)
        ensures
            r@ == record_hash(bytes@),
    {
        let d = sha256(bytes);
        hex_encode(d.as_slice())
    }

    /// The line a record takes in the store: its bytes in hex, then `\n`.
    pub fn store_line(bytes: &[u8]) -> (r: String)
        ensures
            r@ == hex_of(bytes@) + seq!['\n'],
    {
        let mut s = hex_encode(bytes);
        push_char(&mut s, '\n');
        s
    }

    /// Keeps a record under the SHA-256 of its stored bytes, replacing a
    /// record kept under the same digest.
    pub fn insert_record(&mut self, bytes: &[u8], record: SignedRecord)
        ensures
            final(self).user_name == old(self).user_name,
            final(self).public == old(self).public,
            final(self).secret_key() == old(self).secret_key(),
            exists|k: int| 0 <= k < final(self).records@.len() && #[trigger] final(self).records@[k].0@
                == sha256_of(bytes@) && final(self).records@[k].1 == record,
            forall|k: int|
                0 <= k < old(self).records@.len() && old(self).records@[k].0@ != sha256_of(bytes@)
                    ==> #[trigger] final(self).records@.contains(old(self).records@[k]),
            final(self).records@.len() == old(self).records@.len() + if has_digest(
                old(self).records@,
                sha256_of(bytes@),
            ) {
                0int
            } else {
                1int
            },
            forall|k: int|
                0 <= k < final(self).records@.len() ==> (#[trigger] final(self).records@[k].0@ == sha256_of(bytes@)
                    && final(self).records@[k].1 == record) || old(self).records@.contains(final(self).records@[k]),
    {
        let h = sha256(bytes);
        let n = self.records.len();
        let ghost old_records = self.records@;
        for i in 0..n
            invariant
                n == self.records@.len(),
                self.records@ == old_records,
                old_records == old(self).records@,
                self.user_name == old(self).user_name,
                self.public == old(self).public,
                self.secret == old(self).secret,
                h@ == sha256_of(bytes@),
                forall|k: int| 0 <= k < i ==> self.records@[k].0@ != h@,
        {
            if crate::text::bytes_eq(self.records[i].0.as_slice(), h.as_slice()) {
                self.records.set(i, (h, record));
                proof {
                    assert(self.records@[i as int].0@ == sha256_of(bytes@));
                    assert(old_records[i as int].0@ == sha256_of(bytes@));
                    assert(has_digest(old_records, sha256_of(bytes@)));
                    assert forall|k: int| 0 <= k < self.records@.len() && k != i implies old_records.contains(
                        #[trigger] self.records@[k],
                    ) by {
                        assert(self.records@[k] == old_records[k]);
                    }
                    assert forall|k: int|
                        0 <= k < old_records.len() && old_records[k].0@ != sha256_of(bytes@)
                            implies #[trigger] self.records@.contains(old_records[k]) by {
                        assert(k != i);
                        assert(self.records@[k] == old_records[k]);
                    }
                }
                return;
            }
        }
        self.records.push((h, record));
        proof {
            assert(self.records@[n as int].0@ == sha256_of(bytes@));
            assert(!has_digest(old_records, sha256_of(bytes@)));
            assert forall|k: int| 0 <= k < n implies old_records.contains(#[trigger] self.records@[k]) by {
                assert(self.records@[k] == old_records[k]);
            }
            assert forall|k: int|
                0 <= k < old_records.len() && old_records[k].0@ != sha256_of(bytes@)
                    implies #[trigger] self.records@.contains(old_records[k]) by {
                assert(self.records@[k] == old_records[k]);
            }
        }
    }

    /// The stored records of the store text: the bytes of each trimmed,
    /// non-empty line that is hex.
    pub fn stored_records(store: &str) -> (r: Vec<Vec<u8>>)
        ensures
            r.deep_view() == store_records(lines_of(store@)),
    {
        let lines = lines_str(store);
        let ghost lv = lines_of(store@);
        let mut out: Vec<Vec<u8>> = Vec::new();
        let n = lines.len();
        for i in 0..n
            invariant
                n == lines@.len(),
                lv == lines_of(store@),
                lv == lines.deep_view(),
                out.deep_view() =~= store_records(lv.take(i as int)),
        {
            proof {
                assert(lv.take(i + 1).drop_last() =~= lv.take(i as int));
                assert(lv.take(i + 1).last() == lines@[i as int]@);
            }
            let t = trim_str(lines[i].as_str());
            if !t.as_str().is_empty() {
                match hex_decode(t.as_str()) {
                    Some(b) => {
                        let ghost before = out.deep_view();
                        assert(b.deep_view() =~= b@);
                        out.push(b);
                        assert(out.deep_view() =~= before.push(hex_bytes(t@).unwrap()));
                    },
                    None => {},
                }
            }
        }
        assert(lv.take(n as int) =~= lv);
        out
    }

    /// The store without the record whose hash the hex text `hash_in`
    /// names; `None` (the store stays as it is) unless `hash_in` is the hex
    /// of 32 bytes.
    pub fn delete_article(hash_in: &str, store: &str) -> (r: Option<String>)
        ensures
            match hex_bytes(hash_in@) {
                Some(h) if h.len() == 32 => r matches Some(s) && s@ == kept_lines(lines_of(store@), h),
                _ => r is None,
            },
    {
        let h = match hex_decode(hash_in) {
            Some(h) => h,
            None => {
                return None;
            },
        };
        if h.len() != 32 {
            return None;
        }
        let lines = lines_str(store);
        let ghost lv = lines_of(store@);
        let mut out = String::new();
        let n = lines.len();
        for i in 0..n
            invariant
                n == lines@.len(),
                lv == lines_of(store@),
                lv == lines.deep_view(),
                out@ == kept_lines(lv.take(i as int), h@),
        {
            proof {
                assert(lv.take(i + 1).drop_last() =~= lv.take(i as int));
                assert(lv.take(i + 1).last() == lines@[i as int]@);
            }
            let t = trim_str(lines[i].as_str());
            match hex_decode(t.as_str()) {
                Some(b) => {
                    let d = sha256(b.as_slice());
                    if !crate::text::bytes_eq(d.as_slice(), h.as_slice()) {
                        push_str(&mut out, lines[i].as_str());
                        push_char(&mut out, '\n');
                    }
                },
                None => {},
            }
        }
        assert(lv.take(n as int) =~= lv);
        Some(out)
    }

    /// The body with its first `@chart:` reference filled from the chart
    /// template (the chart file's text, when it could be read).
    pub fn chart(body: &str, template: &Option<String>) -> (r: String)
        ensures
            r@ == charted(body@, opt_view(*template)),
    {
        proof {
            reveal_strlit("Chart: {}");
            reveal_strlit("{}");
        }
        let cap = match Pattern::compile(CHART_PATTERN) {
            Some(p) => p.captures(body),
            None => None,
        };
        match cap {
            Some((whole, Some(nums))) => {
                if whole.as_str().is_empty() {
                    return copy_str(body);
                }
                let t = match template {
                    Some(t) => copy_str(t.as_str()),
                    None => copy_str("Chart: {}"),
                };
                let html = replace_str(t.as_str(), "{}", nums.as_str());
                replace_str(body, whole.as_str(), html.as_str())
            },
            _ => copy_str(body),
        }
    }

    /// The `@file:` reference of a body and the path it names, if any.
    pub fn attachment(body: &str) -> (r: Option<(String, String)>)
        ensures
            match capture_of(FILE_PATTERN@, body@) {
                Some((whole, Some(path))) => r matches Some(x) && x.0@ == whole && x.1@ == path,
                _ => r is None,
            },
    {
        let cap = match Pattern::compile(FILE_PATTERN) {
            Some(p) => p.captures(body),
            None => None,
        };
        match cap {
            Some((whole, Some(path))) => Some((whole, path)),
            _ => None,
        }
    }

    /// The body with the reference `whole` replaced by a link to the
    /// attached file (named by the hex SHA-256 of its bytes), and that name.
    pub fn attach(body: &str, whole: &str, file: &[u8]) -> (r: (String, String))
        ensures
            r.1@ == hex_of(sha256_of(file@)),
            whole@.len() > 0 ==> r.0@ == replace(body@, whole@, file_link(hex_of(sha256_of(file@)))),
            whole@.len() == 0 ==> r.0@ == body@,
    {
        proof {
            reveal_strlit("<a href='shared_files/");
            reveal_strlit("'>\n  <img src='./file.svg' />\n</a>");
        }
        let d = sha256(file);
        let name = hex_encode(d.as_slice());
        let mut link = copy_str("<a href='shared_files/");
        push_str(&mut link, name.as_str());
        push_str(&mut link, "'>\n  <img src='./file.svg' />\n</a>");
        if whole.is_empty() {
            return (copy_str(body), name);
        }
        (replace_str(body, whole, link.as_str()), name)
    }
    /// The node identity from the user file (its text, when there is one;
    /// an empty object is read where it does not parse). A stored non-empty
    /// key is used as it is, under the stored name (`Anonymous` without
    /// one); an error comes when it is not 32 bytes of hex. Without a key a
    /// new secret key is drawn, the stored name kept unless empty
    /// (`StockgoNode` then), and the new text of the user file comes back
    /// with the identity written under `user`.
    pub fn setup(user_data: &Option<String>) -> (r: Result<(TrustLayer, Option<String>), TrustError>)
        ensures
            match stored_key(user_base(opt_view(*user_data))) {
                Some(k) => match hex_bytes(k) {
                    Some(b) if b.len() == 32 => r matches Ok((t, None)) && {
                        &&& t.user_name@ == stored_name(user_base(opt_view(*user_data)), "Anonymous"@)
                        &&& t.secret_key() == b
                        &&& t.public@ == ed25519_public_of(b)
                        &&& t.records@.len() == 0
                    },
                    _ => r is Err,
                },
                None => r matches Ok((t, Some(w))) && {
                    &&& t.user_name@ == fresh_name(user_base(opt_view(*user_data)))
                    &&& t.secret@.len() == 32
                    &&& t.public@ == ed25519_public_of(t.secret_key())
                    &&& t.records@.len() == 0
                    &&& w@ == member_set(
                        user_base(opt_view(*user_data)),
                        "user"@,
                        user_member(t.user_name@, t.secret_key(), t.public@),
                    )
                    &&& (user_base(opt_view(*user_data)) == "{}"@ || member_settable(
                        user_base(opt_view(*user_data)),
                    )) ==> written_identity(
                        w@,
                        user_base(opt_view(*user_data)),
                        t.user_name@,
                        t.secret_key(),
                        t.public@,
                    )
                },
            },
    {
        proof {
            reveal_strlit("{}");
            reveal_strlit("/user/pubkey");
            reveal_strlit("/user/ipns");
            reveal_strlit("/user/key");
            reveal_strlit("/user/name");
            reveal_strlit("Anonymous");
            reveal_strlit("StockgoNode");
            reveal_strlit("user");
            reveal_strlit("name");
            reveal_strlit("key");
            reveal_strlit("pubkey");
            reveal_strlit("ipns");
        }
        let base = match user_data {
            Some(t) => copy_str(t.as_str()),
            None => copy_str("{}"),
        };
        let key = json_string_at(base.as_str(), "/user/key");
        let stored = match &key {
            Some(k) => !k.as_str().is_empty(),
            None => false,
        };
        if stored {
            let name = match json_string_at(base.as_str(), "/user/name") {
                Some(n) => n,
                None => copy_str("Anonymous"),
            };
            let k = match key {
                Some(k) => k,
                None => String::new(),
            };
            return match TrustLayer::new(name.as_str(), k.as_str()) {
                Ok(t) => Ok((t, None)),
                Err(e) => Err(e),
            };
        }
        let name = match json_string_at(base.as_str(), "/user/name") {
            Some(n) => if n.as_str().is_empty() {
                copy_str("StockgoNode")
            } else {
                n
            },
            None => copy_str("StockgoNode"),
        };
        let secret = random_key32();
        let public = ed25519_public(&secret);
        let mut member: Vec<(String, String)> = Vec::new();
        member.push((copy_str("name"), copy_str(name.as_str())));
        member.push((copy_str("key"), hex_encode(&secret)));
        member.push((copy_str("pubkey"), hex_encode(&public)));
        member.push((copy_str("ipns"), hex_encode(&public)));
        assert(member@.map_values(|p: (String, String)| kv_view(p)) =~= user_member(name@, secret@, public@));
        let w = set_member(base.as_str(), "user", &member);
        proof {
            if base@ == "{}"@ || member_settable(base@) {
                let pv = user_member(name@, secret@, public@);
                assert(plain_token("user"@));
                assert(plain_token("key"@));
                assert(plain_token("name"@));
                assert(plain_token("pubkey"@));
                assert(plain_token("ipns"@));
                assert("/user/pubkey"@ =~= seq!['/'] + "user"@ + seq!['/'] + "pubkey"@);
                assert("/user/ipns"@ =~= seq!['/'] + "user"@ + seq!['/'] + "ipns"@);
                assert(json_pointer_text(w@, seq!['/'] + "user"@ + seq!['/'] + "pubkey"@) == last_value(pv, "pubkey"@));
                assert(json_pointer_text(w@, seq!['/'] + "user"@ + seq!['/'] + "ipns"@) == last_value(pv, "ipns"@));
                assert("/user/key"@ =~= seq!['/'] + "user"@ + seq!['/'] + "key"@);
                assert("/user/name"@ =~= seq!['/'] + "user"@ + seq!['/'] + "name"@);
                assert(json_pointer_text(w@, seq!['/'] + "user"@ + seq!['/'] + "key"@) == last_value(pv, "key"@));
                assert(json_pointer_text(w@, seq!['/'] + "user"@ + seq!['/'] + "name"@) == last_value(pv, "name"@));
                assert(pv.drop_last().drop_last() =~= seq![("name"@, name@), ("key"@, hex_of(secret@))]);
                assert(pv.drop_last().drop_last().drop_last() =~= seq![("name"@, name@)]);
                reveal_with_fuel(last_value, 5);
                assert("ipns"@ != "key"@ && "pubkey"@ != "key"@);
                assert("ipns"@[0] != "name"@[0]);
                assert("ipns"@ != "name"@ && "pubkey"@ != "name"@ && "key"@ != "name"@);
                assert(last_value(pv, "key"@) == Some(hex_of(secret@)));
                assert(last_value(pv, "name"@) == Some(name@));
                assert(last_value(pv, "ipns"@) == Some(hex_of(public@)));
                assert("ipns"@[0] != "pubkey"@[0]);
                assert(last_value(pv, "pubkey"@) == Some(hex_of(public@)));
                lemma_hex_roundtrip(secret@);
            }
        }
        Ok((TrustLayer { user_name: name, secret, public, records: Vec::new() }, Some(w)))
    }

    /// The payload of a post: the article JSON, or, for a private post, the
    /// article sealed under a key drawn at random.
    pub fn payload(&self, body: &str, date: &str, ip: &str, private: bool) -> (r: String)
        ensures
            !private ==> r@ == article_json(self.user_name@, self.public@, body@, date@, ip@),
            private ==> exists|key: Seq<u8>|
                key.len() == 16 && r@ == #[trigger] sealed_json(
                    article_json(self.user_name@, self.public@, body@, date@, ip@),
                    key,
                ),
    {
        let a = self.article(body, date, ip);
        if private {
            let key = random_key16();
            let r = Self::seal(a.as_str(), &key);
            assert(key@.len() == 16);
            r
        } else {
            a
        }
    }
}

/// The address a post is made from: the first of the host's addresses
/// (each as its text and whether it is a loopback one) that is not a
/// loopback one, else `127.0.0.1`.
pub fn get(addrs: &Vec<(String, bool)>) -> (r: Option<String>)
    ensures
        r matches Some(s) && s@ == first_public(addrs@.map_values(|a: (String, bool)| (a.0@, a.1))),
{
    let ghost v = addrs@.map_values(|a: (String, bool)| (a.0@, a.1));
    let n = addrs.len();
    assert(v.skip(0) =~= v);
    for i in 0..n
        invariant
            n == addrs@.len(),
            v == addrs@.map_values(|a: (String, bool)| (a.0@, a.1)),
            first_public(v.skip(i as int)) == first_public(v),
    {
        proof {
            assert(v.skip(i as int)[0] == v[i as int]);
            assert(v.skip(i as int).drop_first() =~= v.skip(i + 1));
        }
        if !addrs[i].1 {
            return Some(copy_str(addrs[i].0.as_str()));
        }
    }
    proof {
        reveal_strlit("127.0.0.1");
        assert(v.skip(n as int).len() == 0);
    }
    Some(copy_str("127.0.0.1"))
}

} // verus!
