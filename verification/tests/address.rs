use tinyroute::address::Address;

#[test]
fn address_keeps_its_bytes() {
    let address = Address::from_bytes(b"logger");
    assert_eq!(address.as_bytes(), b"logger");
    assert_eq!(Address::from_bytes(b"").as_bytes(), b"");
}

#[test]
fn addresses_are_equal_when_their_bytes_are() {
    let one = Address::from_bytes(&[1, 2, 3]);
    let same = Address::from_bytes(&[1, 2, 3]);
    let longer = Address::from_bytes(&[1, 2, 3, 4]);
    let other = Address::from_bytes(&[1, 2, 4]);
    assert!(one == same);
    assert!(one != longer);
    assert!(longer != one);
    assert!(one != other);
    assert!(Address::from_bytes(b"") == Address::from_bytes(b""));
}

#[test]
fn clone_is_the_same_address() {
    let one = Address::from_bytes(b"agent-7");
    let copy = one.clone();
    assert!(one == copy);
    assert_eq!(copy.as_bytes(), b"agent-7");
}

#[test]
fn address_reads_as_text() {
    assert_eq!(Address::from_bytes(b"logger").to_string(), "logger");
    assert_eq!(Address::from_bytes("caf\u{e9}".as_bytes()).to_string(), "caf\u{e9}");
}

#[test]
fn invalid_utf8_is_replaced() {
    assert_eq!(Address::from_bytes(&[b'a', 0xff, b'b']).to_string(), "a\u{fffd}b");
}
