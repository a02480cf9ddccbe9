use rss2pan::m115::crypto::gen_key;
use rss2pan::m115::crypto::rsa::MyRSA;
use rss2pan::m115::gen_offline_params;

#[test]
fn t_encode() {}

#[test]
fn t_encrypt() {
    let rsa = MyRSA::new();
    let r = rsa.encrypt(b"test input");
    assert_eq!(r.len(), 128);
}

#[test]
fn encryption_is_block_by_block() {
    let rsa = MyRSA::new();
    assert_eq!(rsa.encrypt(&[]).len(), 0);
    assert_eq!(rsa.encrypt(&[7u8; 117]).len(), 128);
    assert_eq!(rsa.encrypt(&[7u8; 118]).len(), 256);
    assert_eq!(rsa.encrypt(&[7u8; 300]).len(), 384);
    assert_ne!(rsa.encrypt(b"same"), rsa.encrypt(b"same"));
}

#[test]
fn decryption_of_nothing_is_nothing() {
    let rsa = MyRSA::new();
    assert_eq!(rsa.decrypt(&[]), Vec::<u8>::new());
}

#[test]
fn decryption_keeps_what_follows_the_framing() {
    // 1^e mod n = 1, whose bytes [1] have no zero after the first byte.
    let rsa = MyRSA::new();
    assert_eq!(rsa.decrypt(&[1u8]), Vec::<u8>::new());
    // 0^e mod n = 0: the single byte [0], no zero after the first byte.
    assert_eq!(rsa.decrypt(&[0u8]), Vec::<u8>::new());
}

#[test]
fn decryption_of_blocks_then_rest() {
    let rsa = MyRSA::new();
    let a: Vec<u8> = (0..256u32).map(|i| (i * 7 + 3) as u8).collect();
    let b: Vec<u8> = (0..40u32).map(|i| (i * 13 + 1) as u8).collect();
    let whole: Vec<u8> = [a.as_slice(), b.as_slice()].concat();
    let mut parts = rsa.decrypt(&a);
    parts.extend(rsa.decrypt(&b));
    assert_eq!(rsa.decrypt(&whole), parts);
    let mut blocks = rsa.decrypt(&a[..128]);
    blocks.extend(rsa.decrypt(&a[128..]));
    assert_eq!(rsa.decrypt(&a), blocks);
}

#[test]
fn encryption_of_chunks_then_rest() {
    let rsa = MyRSA::new();
    let data = [5u8; 117 * 2 + 9];
    let whole = rsa.encrypt(&data);
    assert_eq!(whole.len(), rsa.encrypt(&data[..117 * 2]).len() + rsa.encrypt(&data[117 * 2..]).len());
}

#[test]
fn keys_are_sixteen_random_bytes() {
    let a = gen_key();
    let b = gen_key();
    assert_eq!(a.len(), 16);
    assert_ne!(a, b);
}

#[test]
fn offline_params_hold_every_url() {
    let params = gen_offline_params(
        "42".to_string(),
        "2.0".to_string(),
        vec!["magnet:?xt=urn:btih:a".to_string(), "magnet:?xt=urn:btih:b".to_string()],
        Some("99".to_string()),
    );
    let mut pairs: Vec<(String, String)> = params.pairs().clone();
    pairs.sort();
    assert_eq!(
        pairs,
        vec![
            ("ac".to_string(), "add_task_urls".to_string()),
            ("app_ver".to_string(), "2.0".to_string()),
            ("uid".to_string(), "42".to_string()),
            ("url[0]".to_string(), "magnet:?xt=urn:btih:a".to_string()),
            ("url[1]".to_string(), "magnet:?xt=urn:btih:b".to_string()),
            ("wp_path_id".to_string(), "99".to_string()),
        ]
    );
}

#[test]
fn offline_params_without_folder() {
    let params = gen_offline_params("1".into(), "v".into(), vec![], None);
    assert_eq!(params.pairs().len(), 3);
}
