use hyper_sse::seal::{issue_token, read_token, seal_token, HYDRO_CONTEXT, MESSAGE_ID};
use hyper_sse::token::AuthToken;
use hyper_sse::Server;

const KEY: [u8; 32] = [7; 32];

/// A cipher for tests: adds the key, after a mark of the context and the message number.
fn encrypt(plain: &[u8], id: u64, context: &str, key: &[u8; 32]) -> Vec<u8> {
    let mut sealed = context.as_bytes().to_vec();
    sealed.push(id as u8);
    for (i, byte) in plain.iter().enumerate() {
        sealed.push(byte.wrapping_add(key[i % 32]));
    }
    sealed
}

fn decrypt(sealed: &[u8], id: u64, context: &str, key: &[u8; 32]) -> Option<Vec<u8>> {
    let mut mark = context.as_bytes().to_vec();
    mark.push(id as u8);
    if !sealed.starts_with(&mark) {
        return None;
    }
    let rest = &sealed[mark.len()..];
    Some(rest.iter().enumerate().map(|(i, byte)| byte.wrapping_sub(key[i % 32])).collect())
}

/// A text form for tests: the time, a space, and the channel or a dash.
fn serialize(token: &AuthToken<u8>) -> Result<Vec<u8>, String> {
    let channel = match token.allowed_channel {
        Some(channel) => channel.to_string(),
        None => "-".to_string(),
    };
    Ok(format!("{} {}", token.created, channel).into_bytes())
}

fn parse(plain: &[u8]) -> Option<AuthToken<u8>> {
    let text = String::from_utf8(plain.to_vec()).ok()?;
    let (created, channel) = text.split_once(' ')?;
    let created = created.parse().ok()?;
    let allowed_channel = if channel == "-" { None } else { Some(channel.parse().ok()?) };
    Some(AuthToken { created, allowed_channel })
}

fn seal(created: i128, channel: Option<u8>) -> String {
    Server::new(KEY).generate_auth_token_at(channel, created, serialize, encrypt).unwrap()
}

fn seal_bytes(bytes: &'static [u8]) -> String {
    let token = AuthToken { created: 0, allowed_channel: Some(0u8) };
    let serialize = |_: &AuthToken<u8>| Ok::<Vec<u8>, String>(Vec::new());
    let encrypt = |_: &[u8], _: u64, _: &str, _: &[u8; 32]| bytes.to_vec();
    seal_token(token, &KEY, serialize, encrypt).unwrap()
}

#[test]
fn sealed_token_is_read_back() {
    for (created, channel) in [(0, None), (1_530_000_000_000_000_000, Some(9)), (-5, Some(0))] {
        let text = seal(created, channel);
        let token = read_token(Some(&text), &KEY, decrypt, parse).unwrap();
        assert_eq!(token.created, created);
        assert_eq!(token.allowed_channel, channel);
    }
}

#[test]
fn cipher_gets_the_context_the_number_and_the_key() {
    let server: Server<u8> = Server::new(KEY);
    let text = server.generate_auth_token_at(
        Some(3),
        12,
        serialize,
        |plain: &[u8], id: u64, context: &str, key: &[u8; 32]| {
            assert_eq!(plain, b"12 3");
            assert_eq!(id, 0);
            assert_eq!(context, "ssetoken");
            assert_eq!(key, &KEY);
            b"hello internet~".to_vec()
        },
    );
    assert_eq!(text, Ok("aGVsbG8gaW50ZXJuZXR-".to_string()));
    let token = read_token(
        Some("aGVsbG8gaW50ZXJuZXR-"),
        &KEY,
        |sealed: &[u8], id: u64, context: &str, key: &[u8; 32]| {
            assert_eq!(sealed, b"hello internet~");
            assert_eq!(id, MESSAGE_ID);
            assert_eq!(context, HYDRO_CONTEXT);
            assert_eq!(key, &KEY);
            Some(b"12 3".to_vec())
        },
        parse,
    );
    assert_eq!(token.unwrap().created, 12);
}

#[test]
fn text_form_is_base64_without_padding() {
    assert_eq!(seal_bytes(b""), "");
    assert_eq!(seal_bytes(b"f"), "Zg");
    assert_eq!(seal_bytes(b"fo"), "Zm8");
    assert_eq!(seal_bytes(b"foo"), "Zm9v");
    assert_eq!(seal_bytes(b"foob"), "Zm9vYg");
    assert_eq!(seal_bytes(b"foobar"), "Zm9vYmFy");
    assert_eq!(seal_bytes(&[0xfb, 0xff, 0xfe]), "-__-");
}

#[test]
fn text_form_is_url_safe() {
    static ALL: [u8; 256] = {
        let mut all = [0; 256];
        let mut i = 0;
        while i < 256 {
            all[i] = i as u8;
            i += 1;
        }
        all
    };
    let text = seal_bytes(&ALL);
    assert_eq!(text.len(), 342);
    assert!(text.chars().all(|c| c.is_ascii_alphanumeric() || c == '-' || c == '_'));
    let read = read_token(
        Some(&text),
        &KEY,
        |sealed: &[u8], _, _: &str, _: &[u8; 32]| Some(sealed.to_vec()),
        |plain: &[u8]| {
            assert_eq!(plain, &ALL[..]);
            Some(AuthToken { created: 1, allowed_channel: Some(2u8) })
        },
    );
    assert_eq!(read.unwrap().created, 1);
}

#[test]
fn error_of_the_serializer_is_returned() {
    let server: Server<u8> = Server::new(KEY);
    let text = server.generate_auth_token(
        Some(3),
        |_: &AuthToken<u8>| Err("not serializable".to_string()),
        encrypt,
    );
    assert_eq!(text, Err("not serializable".to_string()));
}

#[test]
fn token_is_made_at_the_present() {
    let server: Server<u8> = Server::new(KEY);
    let text = server.generate_auth_token(Some(3), serialize, encrypt).unwrap();
    let token = read_token(Some(&text), &KEY, decrypt, parse).unwrap();
    // The clock of a machine that runs this is past 2017.
    assert!(token.created > 1_500_000_000_000_000_000);
    assert_eq!(token.allowed_channel, Some(3));
}

#[test]
fn nothing_is_read_without_a_query() {
    assert!(read_token(None, &KEY, decrypt, parse).is_none());
}

#[test]
fn malformed_text_is_refused() {
    let text = seal(12, Some(3));
    for query in ["*", "a", "Zg=a", "with space", "a+b/", "\u{e9}\u{e9}"] {
        let decrypt = |_: &[u8], _: u64, _: &str, _: &[u8; 32]| panic!();
        assert!(read_token(Some(query), &KEY, decrypt, parse).is_none());
    }
    assert!(read_token(Some(&text[..text.len() - 2]), &[9; 32], decrypt, parse).is_none());
}

#[test]
fn refusal_of_the_cipher_is_a_refusal() {
    let text = seal(12, Some(3));
    let token = read_token(Some(&text), &KEY, |_: &[u8], _, _: &str, _: &[u8; 32]| None, parse);
    assert!(token.is_none());
}

#[test]
fn refusal_of_the_parser_is_a_refusal() {
    let text = seal_bytes(b"not a token");
    let token = read_token(
        Some(&text),
        &KEY,
        |sealed: &[u8], _, _: &str, _: &[u8; 32]| Some(sealed.to_vec()),
        parse,
    );
    assert!(token.is_none());
}

#[test]
fn issued_token_is_made_at_the_present() {
    let text = issue_token(&KEY, Some(3), serialize, encrypt).unwrap();
    let token = read_token(Some(&text), &KEY, decrypt, parse).unwrap();
    assert!(token.created > 1_500_000_000_000_000_000);
    assert_eq!(token.allowed_channel, Some(3));
}
