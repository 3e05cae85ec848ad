use fourttyswipe::xauth::read_cookie;

fn field(out: &mut Vec<u8>, bytes: &[u8]) {
    out.extend_from_slice(&(bytes.len() as u16).to_be_bytes());
    out.extend_from_slice(bytes);
}

fn entry(number: &[u8], name: &[u8], data: &[u8]) -> Vec<u8> {
    let mut out = vec![1, 0];
    field(&mut out, b"host");
    field(&mut out, number);
    field(&mut out, name);
    field(&mut out, data);
    out
}

const MAGIC: &[u8] = b"MIT-MAGIC-COOKIE-1";

fn cookie(buf: &[u8], display: u32) -> Option<Vec<u8>> {
    let (name, data) = read_cookie(buf, display)?;
    assert_eq!(name, MAGIC);
    Some(data)
}

#[test]
fn the_cookie_of_the_display_is_found() {
    let file = [entry(b"0", MAGIC, b"zero"), entry(b"12", MAGIC, b"twelve"), entry(b"12", MAGIC, b"late")].concat();
    assert_eq!(cookie(&file, 0), Some(b"zero".to_vec()));
    assert_eq!(cookie(&file, 12), Some(b"twelve".to_vec()));
}

#[test]
fn another_cookie_serves_where_none_names_the_display() {
    let file = [entry(b"0", b"XDM-AUTHORIZATION-1", b"no"), entry(b"3", MAGIC, b"three"), entry(b"", MAGIC, b"any")].concat();
    assert_eq!(cookie(&file, 7), Some(b"three".to_vec()));
    assert_eq!(cookie(&file, 0), Some(b"three".to_vec()));
}

#[test]
fn a_file_without_cookies_gives_none() {
    assert_eq!(cookie(b"", 0), None);
    assert_eq!(cookie(&[1], 0), None);
    assert_eq!(cookie(&entry(b"0", b"OTHER", b"x"), 0), None);
}

#[test]
fn a_cut_off_file_only_gives_exact_cookies() {
    let whole = [entry(b"3", MAGIC, b"three"), entry(b"5", MAGIC, b"five")].concat();
    let second = entry(b"5", MAGIC, b"five").len();
    for cut in 1..second - 1 {
        let file = &whole[..whole.len() - cut];
        assert_eq!(cookie(file, 3), Some(b"three".to_vec()));
        assert_eq!(cookie(file, 5), None);
    }
    assert_eq!(cookie(&whole[..whole.len() - second], 5), Some(b"three".to_vec()));
    // A single byte after the last entry is no entry.
    let mut file = whole.clone();
    file.push(9);
    assert_eq!(cookie(&file, 8), Some(b"three".to_vec()));
    file.push(9);
    assert_eq!(cookie(&file, 8), None);
    assert_eq!(cookie(&file, 5), Some(b"five".to_vec()));
}

#[test]
fn long_fields_have_two_length_bytes() {
    let data = vec![7u8; 300];
    let file = entry(b"4294967295", MAGIC, &data);
    assert_eq!(cookie(&file, u32::MAX), Some(data));
}
