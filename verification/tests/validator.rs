use aquatic::common::ConnectionId;
use aquatic::common::IpAddrBytes;
use aquatic::common::Ipv4AddrBytes;
use aquatic::common::Ipv6AddrBytes;
use aquatic::config::Config;
use aquatic::time::SecondsSinceServerStart;
use aquatic::time::ServerStartInstant;
use aquatic::time::ValidUntil;
use aquatic::validator::ConnectionValidator;
use aquatic::validator::ValidatorError;

fn v4(a: u8, b: u8, c: u8, d: u8) -> IpAddrBytes {
    IpAddrBytes::V4(Ipv4AddrBytes([a, b, c, d]))
}

fn validator(max_connection_age: u64) -> ConnectionValidator {
    ConnectionValidator::with_key([7u8; 32], ServerStartInstant::new(), max_connection_age)
}

#[test]
fn connection_id_holds_the_second_and_the_hash() {
    let validator = validator(120);
    let addr = v4(10, 0, 0, 2);
    let id = validator.create_connection_id_at(addr, SecondsSinceServerStart(0x01020304));
    let bytes = id.0.to_le_bytes();
    assert_eq!(&bytes[..4], &0x01020304u32.to_le_bytes());
    let mut input = 0x01020304u32.to_le_bytes().to_vec();
    input.extend_from_slice(&[10, 0, 0, 2]);
    let hash = blake3::keyed_hash(&[7u8; 32], &input);
    assert_eq!(&bytes[4..], &hash.as_bytes()[..4]);
}

#[test]
fn own_id_is_valid_until_it_is_too_old() {
    let validator = validator(120);
    let addr = v4(10, 0, 0, 2);
    let id = validator.create_connection_id_at(addr, SecondsSinceServerStart(1000));
    assert!(validator.connection_id_valid_at(addr, id, SecondsSinceServerStart(1000)));
    assert!(validator.connection_id_valid_at(addr, id, SecondsSinceServerStart(1119)));
    assert!(!validator.connection_id_valid_at(addr, id, SecondsSinceServerStart(1120)));
    assert!(!validator.connection_id_valid_at(addr, id, SecondsSinceServerStart(1121)));
    assert!(!validator.connection_id_valid_at(addr, id, SecondsSinceServerStart(1125)));
}

#[test]
fn id_from_the_future_is_not_valid() {
    let validator = validator(120);
    let addr = v4(10, 0, 0, 2);
    let id = validator.create_connection_id_at(addr, SecondsSinceServerStart(1000));
    assert!(!validator.connection_id_valid_at(addr, id, SecondsSinceServerStart(999)));
    let far = validator.create_connection_id_at(addr, SecondsSinceServerStart(u32::MAX as u64));
    assert!(!validator.connection_id_valid_at(addr, far, SecondsSinceServerStart(1000)));
}

#[test]
fn id_is_not_valid_for_another_address() {
    let validator = validator(120);
    let id = validator.create_connection_id_at(v4(10, 0, 0, 2), SecondsSinceServerStart(5));
    assert!(!validator.connection_id_valid_at(v4(10, 0, 0, 3), id, SecondsSinceServerStart(5)));
    let v6 = IpAddrBytes::V6(Ipv6AddrBytes([1; 16]));
    assert!(!validator.connection_id_valid_at(v6, id, SecondsSinceServerStart(5)));
    let id6 = validator.create_connection_id_at(v6, SecondsSinceServerStart(5));
    assert!(validator.connection_id_valid_at(v6, id6, SecondsSinceServerStart(5)));
}

#[test]
fn id_of_another_key_is_not_valid() {
    let validator = validator(120);
    let other = ConnectionValidator::with_key([8u8; 32], ServerStartInstant::new(), 120);
    let addr = v4(10, 0, 0, 2);
    let id = other.create_connection_id_at(addr, SecondsSinceServerStart(5));
    assert!(!validator.connection_id_valid_at(addr, id, SecondsSinceServerStart(5)));
    assert!(!validator.connection_id_valid_at(addr, ConnectionId(0), SecondsSinceServerStart(5)));
    assert!(!validator.connection_id_valid_at(addr, ConnectionId(-1), SecondsSinceServerStart(5)));
}

#[test]
fn no_id_is_valid_with_a_maximum_age_of_zero() {
    let validator = validator(0);
    let addr = v4(10, 0, 0, 2);
    let id = validator.create_connection_id_at(addr, SecondsSinceServerStart(5));
    assert!(!validator.connection_id_valid_at(addr, id, SecondsSinceServerStart(5)));
}

#[test]
fn validator_with_random_key_takes_its_own_ids() {
    let mut config = Config::default();
    config.cleaning.max_connection_age = 300;
    let validator = ConnectionValidator::new(&config).unwrap();
    let addr = v4(127, 0, 0, 1);
    let id = validator.create_connection_id(addr);
    // depends on that running this test takes less than five minutes
    assert!(validator.connection_id_valid(addr, id));
    assert!(!validator.connection_id_valid(v4(127, 0, 0, 2), id));

    let other = ConnectionValidator::new(&config).unwrap();
    assert!(!other.connection_id_valid(addr, id));
}

#[test]
fn valid_until_counts_from_now() {
    assert_eq!(
        ValidUntil::new_with_now(SecondsSinceServerStart(10), 20),
        ValidUntil(30)
    );
    assert_eq!(
        ValidUntil::new_with_now(SecondsSinceServerStart(u64::MAX - 1), 20),
        ValidUntil(u64::MAX)
    );
    assert!(ValidUntil(30).valid(SecondsSinceServerStart(30)));
    assert!(!ValidUntil(30).valid(SecondsSinceServerStart(31)));
    let start = ServerStartInstant::new();
    let elapsed = start.seconds_elapsed();
    assert!(elapsed.0 < 60);
    let limit = ValidUntil::new(&start, 100);
    assert!(limit.0 >= 100 && limit.0 < 160);
}

#[test]
fn addresses_are_made_canonical() {
    let mapped = IpAddrBytes::V6(Ipv6AddrBytes([
        0, 0, 0, 0, 0, 0, 0, 0, 0, 0, 255, 255, 10, 0, 0, 2,
    ]));
    assert_eq!(mapped.canonical(), v4(10, 0, 0, 2));
    let plain = IpAddrBytes::V6(Ipv6AddrBytes([
        0, 0, 0, 0, 0, 0, 0, 0, 0, 0, 255, 254, 10, 0, 0, 2,
    ]));
    assert_eq!(plain.canonical(), plain);
    let other = IpAddrBytes::V6(Ipv6AddrBytes([
        0, 1, 0, 0, 0, 0, 0, 0, 0, 0, 255, 255, 10, 0, 0, 2,
    ]));
    assert_eq!(other.canonical(), other);
    assert_eq!(v4(1, 2, 3, 4).canonical(), v4(1, 2, 3, 4));
    assert_eq!(
        v4(10, 0, 0, 2).to_ipv6_mapped(),
        Ipv6AddrBytes([0, 0, 0, 0, 0, 0, 0, 0, 0, 0, 255, 255, 10, 0, 0, 2])
    );
    assert_eq!(v4(10, 0, 0, 2).octets(), vec![10, 0, 0, 2]);
}

#[test]
fn validator_comes_of_the_key_that_was_drawn() {
    let start = ServerStartInstant::new();
    let failed = ConnectionValidator::from_key_result(Err(getrandom::Error::UNSUPPORTED), start, 120);
    assert_eq!(failed.err(), Some(ValidatorError::NoRandomBytes));

    let drawn = ConnectionValidator::from_key_result(Ok([7u8; 32]), start, 120).unwrap();
    let addr = v4(10, 0, 0, 2);
    let id = drawn.create_connection_id_at(addr, SecondsSinceServerStart(9));
    assert_eq!(
        id,
        validator(120).create_connection_id_at(addr, SecondsSinceServerStart(9))
    );
    assert!(drawn.connection_id_valid_at(addr, id, SecondsSinceServerStart(128)));
    assert!(!drawn.connection_id_valid_at(addr, id, SecondsSinceServerStart(129)));
    assert!(drawn.start_time().seconds_elapsed().0 < 60);
}
