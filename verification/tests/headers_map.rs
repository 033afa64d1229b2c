use http_server::headers::HeaderMap;

#[test]
fn test_header_from_bytes() {
    let map = HeaderMap::from_bytes(&b"Content-Type: text/plain\r\nContent-Length: 3\r\n".to_vec());
    assert_eq!(
        map.entries(),
        vec![
            (b"Content-Type".to_vec(), b"text/plain".to_vec()),
            (b"Content-Length".to_vec(), b"3".to_vec()),
        ]
    );
}

#[test]
fn test_header_empty_from_bytes() {
    assert_eq!(
        HeaderMap::from_bytes(&b"".to_vec()).entries(),
        HeaderMap::new().entries()
    );
}

#[test]
fn test_header_to_bytes() {
    let bytes = b"Content-Type: text/plain\r\nContent-Length: 3\r\n";
    let map = HeaderMap::from_bytes(&bytes.to_vec());
    assert_eq!(map.to_bytes(), bytes.to_vec());
}

#[test]
fn test_header_empty_to_bytes() {
    assert_eq!(HeaderMap::new().to_bytes(), b"".to_vec());
}

#[test]
fn header_map_replaces_in_place() {
    let mut map = HeaderMap::new();
    map.insert(b"A".to_vec(), b"1".to_vec());
    map.insert(b"B".to_vec(), b"2".to_vec());
    map.insert(b"A".to_vec(), b"3".to_vec());
    assert_eq!(map.to_bytes(), b"A: 3\r\nB: 2\r\n".to_vec());
}
