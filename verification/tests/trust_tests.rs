use aes::cipher::{generic_array::GenericArray, BlockDecrypt, KeyInit};
use stockgo::trust::{aes_ecb_encrypt, base64_encode, get, pad_blocks, TrustError, TrustLayer};

const SECRET: &str = "9d61b19deffd5a60ba844af492ec2cc44449c5697b326919703bac031cae7f60";
const PUBLIC: &str = "d75a980182b10ab7d54bfed3c964073a0ee172f3daa62325af021a68f707511a";
const ABC_SHA256: &str = "ba7816bf8f01cfea414140de5dae2223b00361a396177a9cb410ff61f20015ad";

fn layer() -> TrustLayer {
    match TrustLayer::new("alice", SECRET) {
        Ok(t) => t,
        Err(_) => panic!("a valid key"),
    }
}

fn key16() -> [u8; 16] {
    let mut k = [0u8; 16];
    for (i, b) in k.iter_mut().enumerate() {
        *b = i as u8;
    }
    k
}

#[test]
fn base64_of_known_texts() {
    assert_eq!(base64_encode(b"Man"), "TWFu");
    assert_eq!(base64_encode(b"Ma"), "TWE=");
    assert_eq!(base64_encode(b"M"), "TQ==");
    assert_eq!(base64_encode(b""), "");
    assert_eq!(base64_encode(b"hello world"), "aGVsbG8gd29ybGQ=");
    assert_eq!(base64_encode(&[0xfb, 0xff]), "+/8=");
}

#[test]
fn padding_fills_whole_blocks() {
    let p = pad_blocks(b"hello");
    assert_eq!(p.len(), 16);
    assert_eq!(&p[..5], b"hello");
    assert!(p[5..].iter().all(|&b| b == 11));
    let full = pad_blocks(&[7u8; 16]);
    assert_eq!(full.len(), 32);
    assert!(full[16..].iter().all(|&b| b == 16));
}

#[test]
fn aes_ecb_matches_the_standard_vector() {
    let pt: Vec<u8> = (0..16).map(|i| (i * 0x11) as u8).collect();
    let ct = aes_ecb_encrypt(&key16(), &pt);
    assert_eq!(ct.len(), 32);
    assert_eq!(hex::encode(&ct[..16]), "69c4e0d86a7b0430d8cdb78070b4c55a");
}

#[test]
fn identity_from_a_stored_key() {
    let t = layer();
    assert_eq!(t.user_name, "alice");
    assert_eq!(t.node_id(), PUBLIC);
    assert!(t.records.is_empty());
    assert!(matches!(TrustLayer::new("x", "zz"), Err(TrustError::BadKey)));
    assert!(matches!(TrustLayer::new("x", "abcd"), Err(TrustError::BadKey)));
}

#[test]
fn profile_and_article_json() {
    let t = layer();
    assert_eq!(
        t.get_profile(),
        format!("{{\n  \"layer\": \"io_oi_consensus\",\n  \"name\": \"alice\",\n  \"node_id\": \"{}\",\n  \"version\": \"0.1.0\"\n}}", PUBLIC)
    );
    assert_eq!(t.author(), format!("[alice](/node/{})", PUBLIC));
    assert_eq!(
        t.article("hi", "2024/0105", "1.2.3.4"),
        format!(
            "{{\"IP\":\"1.2.3.4\",\"agreement\":\"CC BY-NC\",\"author\":\"[alice](/node/{})\",\"body\":\"hi\",\"date\":\"2024/0105\"}}",
            PUBLIC
        )
    );
}

#[test]
fn sealed_articles_carry_key_and_cipher_text() {
    let sealed = TrustLayer::seal("secret text", &key16());
    let ct = aes_ecb_encrypt(&key16(), b"secret text");
    assert_eq!(sealed, format!("{{\"data\":\"{}\",\"encrypt\":\"000102030405060708090a0b0c0d0e0f\"}}", base64_encode(&ct)));
    let t = layer();
    let plain = t.payload("b", "d", "ip", false);
    assert_eq!(plain, t.article("b", "d", "ip"));
    let private = t.payload("b", "d", "ip", true);
    assert!(private.starts_with("{\"data\":\""));
    assert!(private.contains("\"encrypt\":\""));
}

#[test]
fn records_are_signed_and_hashed() {
    let t = layer();
    let r = t.sign_record("", 0);
    assert_eq!(r.epoch_id, 1);
    assert_eq!(r.record_type, 0);
    assert!(r.payload.is_empty());
    assert_eq!(
        hex::encode(&r.judge_signature),
        "e5564300c360ac729086e2cc806e828a84877f1eb8e5d974d873e065224901555fb8821590a33bacc61e39701cf9b46bd25bf5f0595bbe24655141438e7a100b"
    );
    let s = t.sign_record("list", 1);
    assert_eq!(s.record_type, 1);
    assert_eq!(s.payload, b"list".to_vec());
    assert_eq!(TrustLayer::record_hash(b"abc"), ABC_SHA256);
    assert_eq!(TrustLayer::store_line(&[0x01, 0xff]), "01ff\n");
}

#[test]
fn records_are_kept_by_digest() {
    let mut t = layer();
    let r1 = t.sign_record("a", 0);
    let r2 = t.sign_record("b", 0);
    let r3 = t.sign_record("c", 0);
    t.insert_record(b"abc", r1);
    t.insert_record(b"xyz", r2);
    assert_eq!(t.records.len(), 2);
    t.insert_record(b"abc", r3);
    assert_eq!(t.records.len(), 2);
    assert_eq!(hex::encode(&t.records[0].0), ABC_SHA256);
    assert_eq!(t.records[0].1.payload, b"c".to_vec());
    assert_eq!(t.records[1].1.payload, b"b".to_vec());
}

#[test]
fn deleting_an_article_drops_its_line() {
    let store = format!("{}not hex\n{}", TrustLayer::store_line(b"one"), TrustLayer::store_line(b"two"));
    let h = TrustLayer::record_hash(b"one");
    assert_eq!(TrustLayer::delete_article(&h, &store), Some(TrustLayer::store_line(b"two")));
    assert_eq!(TrustLayer::delete_article("zz", &store), None);
    assert_eq!(TrustLayer::delete_article("abcd", &store), None);
    assert_eq!(TrustLayer::delete_article(&h, ""), Some(String::new()));
}

#[test]
fn deleting_a_post_leaves_the_store_as_before() {
    let store = TrustLayer::store_line(b"earlier");
    let posted = format!("{}{}", store, TrustLayer::store_line(b"new record"));
    let h = TrustLayer::record_hash(b"new record");
    assert_eq!(TrustLayer::delete_article(&h, &posted), TrustLayer::delete_article(&h, &store));
    assert_eq!(TrustLayer::delete_article(&h, &posted), Some(store));
}

#[test]
fn charts_fill_the_template() {
    let tpl = Some("<c>{}</c>".to_string());
    assert_eq!(TrustLayer::chart("see @chart:1,2 now", &tpl), "see <c>1,2</c> now");
    assert_eq!(TrustLayer::chart("see @chart:3 now", &None), "see Chart: 3 now");
    assert_eq!(TrustLayer::chart("no chart", &tpl), "no chart");
}

#[test]
fn attachments_are_linked_by_hash() {
    assert_eq!(
        TrustLayer::attachment("x @file:a/b.png y"),
        Some(("@file:a/b.png".to_string(), "a/b.png".to_string()))
    );
    assert_eq!(TrustLayer::attachment("nothing"), None);
    let (body, name) = TrustLayer::attach("x @file:a y", "@file:a", b"abc");
    assert_eq!(name, ABC_SHA256);
    assert_eq!(body, format!("x <a href='shared_files/{}'>\n  <img src='./file.svg' />\n</a> y", ABC_SHA256));
}

#[test]
fn a_new_identity_reads_back() {
    let (t, written) = match TrustLayer::setup(&None) {
        Ok(x) => x,
        Err(_) => panic!("a fresh identity"),
    };
    assert_eq!(t.user_name, "StockgoNode");
    let w = written.expect("a new identity is written");
    let (again, none) = match TrustLayer::setup(&Some(w)) {
        Ok(x) => x,
        Err(_) => panic!("the written identity"),
    };
    assert!(none.is_none());
    assert_eq!(again.user_name, t.user_name);
    assert_eq!(again.secret, t.secret);
    assert_eq!(again.public, t.public);
}

#[test]
fn stored_identities_and_names() {
    let stored = Some(format!("{{\"user\": {{\"name\": \"bob\", \"key\": \"{}\"}}}}", SECRET));
    let (t, w) = match TrustLayer::setup(&stored) {
        Ok(x) => x,
        Err(_) => panic!("a stored key"),
    };
    assert!(w.is_none());
    assert_eq!(t.user_name, "bob");
    assert_eq!(t.node_id(), PUBLIC);
    let anonymous = Some(format!("{{\"user\": {{\"key\": \"{}\"}}}}", SECRET));
    assert_eq!(TrustLayer::setup(&anonymous).ok().unwrap().0.user_name, "Anonymous");
    assert!(matches!(TrustLayer::setup(&Some("{\"user\": {\"key\": \"zz\"}}".to_string())), Err(TrustError::BadKey)));
    let named = Some("{\"user\": {\"name\": \"carol\"}, \"other\": 1}".to_string());
    let (c, cw) = TrustLayer::setup(&named).ok().unwrap();
    assert_eq!(c.user_name, "carol");
    assert!(cw.unwrap().contains("\"other\": 1"));
    let empty_name = Some("{\"user\": {\"name\": \"\"}}".to_string());
    assert_eq!(TrustLayer::setup(&empty_name).ok().unwrap().0.user_name, "StockgoNode");
}

#[test]
fn the_post_address_is_the_first_public_one() {
    let addrs = vec![("127.0.0.1".to_string(), true), ("192.168.1.2".to_string(), false), ("10.0.0.1".to_string(), false)];
    assert_eq!(get(&addrs), Some("192.168.1.2".to_string()));
    assert_eq!(get(&vec![("::1".to_string(), true)]), Some("127.0.0.1".to_string()));
    assert_eq!(get(&Vec::new()), Some("127.0.0.1".to_string()));
}

#[test]
fn the_store_holds_hex_lines() {
    let store = format!("{}  \n\nnot hex\n {} \n", TrustLayer::store_line(b"one"), hex::encode(b"two"));
    assert_eq!(TrustLayer::stored_records(&store), vec![b"one".to_vec(), b"two".to_vec()]);
    assert!(TrustLayer::stored_records("").is_empty());
}

fn unbase64(s: &str) -> Vec<u8> {
    let val = |c: u8| -> u32 {
        match c {
            b'A'..=b'Z' => (c - b'A') as u32,
            b'a'..=b'z' => (c - b'a') as u32 + 26,
            b'0'..=b'9' => (c - b'0') as u32 + 52,
            b'+' => 62,
            _ => 63,
        }
    };
    let mut out = Vec::new();
    for g in s.as_bytes().chunks(4) {
        let v: Vec<u32> = g.iter().map(|&c| val(c)).collect();
        out.push((v[0] * 4 + v[1] / 16) as u8);
        if g[2] != b'=' {
            out.push(((v[1] % 16) * 16 + v[2] / 4) as u8);
        }
        if g[3] != b'=' {
            out.push(((v[2] % 4) * 64 + v[3]) as u8);
        }
    }
    out
}

#[test]
fn base64_decodes_back() {
    for data in [&b""[..], b"M", b"Ma", b"Man", b"hello world", &[0u8, 255, 128, 7, 63]] {
        assert_eq!(unbase64(&base64_encode(data)), data.to_vec());
    }
}

#[test]
fn aes_ecb_decrypts_back_to_the_padded_data() {
    let key = key16();
    for data in [&b""[..], b"short", &[9u8; 16], &[1u8; 33]] {
        let ct = aes_ecb_encrypt(&key, data);
        let cipher = aes::Aes128::new(GenericArray::from_slice(&key));
        let mut plain = Vec::new();
        for chunk in ct.chunks(16) {
            let mut b = GenericArray::clone_from_slice(chunk);
            cipher.decrypt_block(&mut b);
            plain.extend_from_slice(&b);
        }
        assert_eq!(plain, pad_blocks(data));
        let pad = *plain.last().unwrap() as usize;
        assert_eq!(&plain[..plain.len() - pad], data);
    }
}

#[test]
fn a_new_identity_writes_its_public_key_and_keeps_the_file() {
    let (t, w) = TrustLayer::setup(&Some("{\"other\": [1, 2], \"user\": {\"name\": \"dan\"}}".to_string())).ok().unwrap();
    let v: serde_json::Value = serde_json::from_str(&w.unwrap()).unwrap();
    assert_eq!(v.pointer("/user/pubkey").and_then(|x| x.as_str()), Some(t.node_id().as_str()));
    assert_eq!(v.pointer("/user/ipns").and_then(|x| x.as_str()), Some(t.node_id().as_str()));
    assert_eq!(v.pointer("/user/name").and_then(|x| x.as_str()), Some("dan"));
    assert_eq!(v.pointer("/other/1").and_then(|x| x.as_i64()), Some(2));
    let (fresh, fw) = TrustLayer::setup(&None).ok().unwrap();
    let fv: serde_json::Value = serde_json::from_str(&fw.unwrap()).unwrap();
    assert_eq!(fv.pointer("/user/pubkey").and_then(|x| x.as_str()), Some(fresh.node_id().as_str()));
    assert_eq!(fv.as_object().unwrap().len(), 1);
}
