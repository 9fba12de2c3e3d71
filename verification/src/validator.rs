//! Connection ids that need no memory: the tracker can tell its own
//! ids from others, and recent ids from old ones, by the id alone.
//!
//! The purpose of connection ids is to make IP spoofing costly, mainly
//! to prevent the tracker from being used as an amplification vector for
//! DDoS attacks. By including 32 bits of BLAKE3 keyed hash output in the
//! ids, an attacker would have to make on average 2^31 attempts to guess
//! a single hash. Such a hash is only valid for at most
//! `max_connection_age` seconds.

use crate::common::ConnectionId;
use crate::common::IpAddrBytes;
use crate::config::Config;
use crate::time::SecondsSinceServerStart;
use crate::time::ServerStartInstant;
use crate::wire::signed_64;
use crate::wire::unsigned_64;
use constant_time_eq::constant_time_eq;
use vstd::prelude::*;
use vstd::slice::slice_subrange;

verus! {

#[verifier::external_type_specification]
#[verifier::external_body]
pub struct ExGetrandomError(getrandom::Error);

/// The 32 bytes of the keyed BLAKE3 hash of `input` under a key of 32
/// bytes.
pub uninterp spec fn blake3_keyed_hash(key: Seq<u8>, input: Seq<u8>) -> Seq<u8>;

/// `blake3::keyed_hash` of blake3: the keyed hash of the input under
/// the key, as its 32 bytes.
#[verifier::external_body]
fn keyed_hash(key: &[u8; 32], input: &[u8]) -> (hash: [u8; 32])
    ensures
        hash@ == blake3_keyed_hash(key@, input@),
{
    *blake3::keyed_hash(key, input).as_bytes()
}

/// `constant_time_eq` of constant_time_eq: whether the two hold the
/// same bytes, found out in a time that depends on their lengths only.
#[verifier::external_body]
fn equal_in_constant_time(a: &[u8], b: &[u8]) -> (r: bool)
    ensures
        r == (a@ == b@),
{
    constant_time_eq(a, b)
}

/// `getrandom` of getrandom on a buffer of 32 bytes: the buffer filled
/// with random bytes from the system, or the error of the system.
#[verifier::external_body]
fn random_key() -> (key: Result<[u8; 32], getrandom::Error>) {
    let mut key = [0u8; 32];
    getrandom::getrandom(&mut key).map(|_| key)
}

/// Why no validator could be made.
#[derive(Clone, Copy, Debug, PartialEq, Eq, Structural)]
pub enum ValidatorError {
    /// The system gave no random bytes for the key.
    NoRandomBytes,
}

/// The number that four bytes spell, least significant byte first.
pub open spec fn le_value_4(s: Seq<u8>) -> int
    recommends
        s.len() == 4,
{
    s[0] as int + s[1] as int * 0x100 + s[2] as int * 0x1_0000 + s[3] as int * 0x100_0000
}

/// The four bytes that spell `v`, least significant byte first, for
/// `0 <= v < 2^32`.
pub open spec fn le_bytes_4(v: int) -> Seq<u8> {
    seq![
        (v % 0x100) as u8,
        (v / 0x100 % 0x100) as u8,
        (v / 0x1_0000 % 0x100) as u8,
        (v / 0x100_0000 % 0x100) as u8,
    ]
}

/// The connection id that holds the second of its making in its first
/// four bytes and four bytes of a hash in its last four, where the bytes
/// of the id are those of its number, least significant byte first.
pub open spec fn pack_connection_id(elapsed: u32, hash: Seq<u8>) -> ConnectionId
    recommends
        hash.len() == 4,
{
    ConnectionId(signed_64(elapsed as int + le_value_4(hash) * 0x1_0000_0000))
}

/// The second of its making that a connection id holds.
pub open spec fn id_elapsed(id: ConnectionId) -> u32 {
    (unsigned_64(id.0) % 0x1_0000_0000) as u32
}

/// The four bytes of a hash that a connection id holds.
pub open spec fn id_hash(id: ConnectionId) -> Seq<u8> {
    le_bytes_4(unsigned_64(id.0) / 0x1_0000_0000)
}

/// The four bytes that bind an id made at the second `elapsed` to the
/// address with the octets `ip`: the first four bytes of the keyed hash
/// of the four bytes of `elapsed`, followed by the octets.
pub open spec fn expected_hash(key: Seq<u8>, elapsed: u32, ip: Seq<u8>) -> Seq<u8> {
    Seq::new(4, |i: int| blake3_keyed_hash(key, le_bytes_4(elapsed as int) + ip)[i])
}

/// The second `now` as an id can hold it: its lowest 32 bits.
pub open spec fn elapsed_of(now: SecondsSinceServerStart) -> u32 {
    (now.0 % 0x1_0000_0000) as u32
}

/// The connection id that a validator with the key gives at the second
/// `elapsed` to a client at the address with the octets `ip`.
pub open spec fn spec_connection_id(key: Seq<u8>, elapsed: u32, ip: Seq<u8>) -> ConnectionId {
    pack_connection_id(elapsed, expected_hash(key, elapsed, ip))
}

/// Whether a validator with the key takes a connection id at the
/// second `now` from a client at the address with the octets `ip`: the
/// id holds the hash that binds the second of its making to the address,
/// that second is not in the future, and fewer than `max_connection_age`
/// seconds have passed since.
pub open spec fn spec_connection_id_valid(
    key: Seq<u8>,
    max_connection_age: u64,
    ip: Seq<u8>,
    id: ConnectionId,
    now: SecondsSinceServerStart,
) -> bool {
    &&& id_hash(id) == expected_hash(key, id_elapsed(id), ip)
    &&& id_elapsed(id) <= now.0
    &&& id_elapsed(id) + max_connection_age > now.0
}

/// Four bytes are the spelling of the number that they spell.
pub proof fn lemma_le_4_round_trip(bytes: Seq<u8>)
    requires
        bytes.len() == 4,
    ensures
        0 <= le_value_4(bytes) < 0x1_0000_0000,
        le_bytes_4(le_value_4(bytes)) == bytes,
{
    let b0 = bytes[0] as int;
    let b1 = bytes[1] as int;
    let b2 = bytes[2] as int;
    let b3 = bytes[3] as int;
    let v = le_value_4(bytes);
    vstd::arithmetic::div_mod::lemma_fundamental_div_mod_converse(
        v,
        0x100,
        b1 + b2 * 0x100 + b3 * 0x1_0000,
        b0,
    );
    vstd::arithmetic::div_mod::lemma_fundamental_div_mod_converse(
        v,
        0x1_0000,
        b2 + b3 * 0x100,
        b0 + b1 * 0x100,
    );
    vstd::arithmetic::div_mod::lemma_fundamental_div_mod_converse(
        v,
        0x100_0000,
        b3,
        b0 + b1 * 0x100 + b2 * 0x1_0000,
    );
    vstd::arithmetic::div_mod::lemma_fundamental_div_mod_converse(
        b1 + b2 * 0x100 + b3 * 0x1_0000,
        0x100,
        b2 + b3 * 0x100,
        b1,
    );
    vstd::arithmetic::div_mod::lemma_fundamental_div_mod_converse(b2 + b3 * 0x100, 0x100, b3, b2);
    assert(le_bytes_4(v)[0] == bytes[0]);
    assert(le_bytes_4(v)[1] == bytes[1]);
    assert(le_bytes_4(v)[2] == bytes[2]);
    assert(le_bytes_4(v)[3] == bytes[3]);
    assert(le_bytes_4(v) =~= bytes);
}

/// A connection id holds what it was packed from.
pub proof fn lemma_pack_round_trip(elapsed: u32, hash: Seq<u8>)
    requires
        hash.len() == 4,
    ensures
        id_elapsed(pack_connection_id(elapsed, hash)) == elapsed,
        id_hash(pack_connection_id(elapsed, hash)) == hash,
{
    let h = le_value_4(hash);
    lemma_le_4_round_trip(hash);
    let u = elapsed as int + h * 0x1_0000_0000;
    assert(0 <= u < 0x1_0000_0000_0000_0000);
    assert(unsigned_64(signed_64(u)) == u);
    vstd::arithmetic::div_mod::lemma_fundamental_div_mod_converse(
        u,
        0x1_0000_0000,
        h,
        elapsed as int,
    );
}

/// A connection id is valid for the address it was made for, from the
/// second of its making until `max_connection_age` seconds have passed;
/// from then on it is not.
pub proof fn lemma_own_id_valid(
    key: Seq<u8>,
    max_connection_age: u64,
    ip: Seq<u8>,
    made: SecondsSinceServerStart,
    now: SecondsSinceServerStart,
)
    requires
        made.0 < 0x1_0000_0000,
        made.0 <= now.0,
    ensures
        spec_connection_id_valid(
            key,
            max_connection_age,
            ip,
            spec_connection_id(key, elapsed_of(made), ip),
            now,
        ) == (now.0 < made.0 + max_connection_age),
{
    let elapsed = elapsed_of(made);
    lemma_pack_round_trip(elapsed, expected_hash(key, elapsed, ip));
}

/// A connection id that was made for one address is not valid for
/// another, unless the hashes that bind the second of its making to the
/// two addresses are the same in their first four bytes.
pub proof fn lemma_foreign_id_invalid(
    key: Seq<u8>,
    max_connection_age: u64,
    ip: Seq<u8>,
    other_ip: Seq<u8>,
    made: SecondsSinceServerStart,
    now: SecondsSinceServerStart,
)
    requires
        expected_hash(key, elapsed_of(made), ip) != expected_hash(key, elapsed_of(made), other_ip),
    ensures
        !spec_connection_id_valid(
            key,
            max_connection_age,
            other_ip,
            spec_connection_id(key, elapsed_of(made), ip),
            now,
        ),
{
    let elapsed = elapsed_of(made);
    lemma_pack_round_trip(elapsed, expected_hash(key, elapsed, ip));
}

/// HMAC (BLAKE3) based ConnectionId creator and validator
///
/// Structure of created ConnectionID (bytes making up inner i64):
/// - &[0..4]: ConnectionId creation time as number of seconds after
///   ConnectionValidator instance was created, encoded as u32 bytes. A u32
///   fits around 136 years in seconds.
/// - &[4..8]: truncated keyed BLAKE3 hash of:
///     - previous 4 bytes
///     - octets of client IP address
#[derive(Clone, Debug)]
pub struct ConnectionValidator {
    start_time: ServerStartInstant,
    max_connection_age: u64,
    key: [u8; 32],
}

fn to_signed(u: u64) -> (v: i64)
    ensures
        v == signed_64(u as int),
{
    if u >= 0x8000_0000_0000_0000 {
        let low = u - 0x8000_0000_0000_0000;
        (low as i64) + i64::MIN
    } else {
        u as i64
    }
}

fn to_unsigned(v: i64) -> (u: u64)
    ensures
        u == unsigned_64(v),
{
    if v < 0 {
        ((v - i64::MIN) as u64) + 0x8000_0000_0000_0000
    } else {
        v as u64
    }
}

fn u32_to_le(v: u32) -> (bytes: [u8; 4])
    ensures
        bytes@ == le_bytes_4(v as int),
{
    let bytes = [
        (v % 0x100) as u8,
        (v / 0x100 % 0x100) as u8,
        (v / 0x1_0000 % 0x100) as u8,
        (v / 0x100_0000 % 0x100) as u8,
    ];
    assert(bytes@ =~= le_bytes_4(v as int));
    bytes
}

fn u32_from_le(bytes: &[u8; 4]) -> (v: u32)
    ensures
        v == le_value_4(bytes@),
{
    bytes[0] as u32 + bytes[1] as u32 * 0x100 + bytes[2] as u32 * 0x1_0000 + bytes[3] as u32
        * 0x100_0000
}

impl ConnectionValidator {
    /// The key of the validator.
    pub closed spec fn spec_key(&self) -> Seq<u8> {
        self.key@
    }

    /// The number of seconds for which the ids of the validator are valid.
    pub closed spec fn spec_max_connection_age(&self) -> u64 {
        self.max_connection_age
    }

    /// The moment from which the validator counts the seconds.
    pub closed spec fn spec_start_time(&self) -> ServerStartInstant {
        self.start_time
    }

    /// Create new instance with a key of random bytes, which counts the
    /// seconds from the moment of the call. Must be created once and
    /// cloned if used in several threads.
    pub fn new(config: &Config) -> (r: Result<Self, ValidatorError>)
        ensures
            r matches Ok(validator) ==> validator.spec_max_connection_age()
                == config.cleaning.max_connection_age,
    {
        Self::from_key_result(
            random_key(),
            ServerStartInstant::new(),
            config.cleaning.max_connection_age,
        )
    }

    /// The moment from which the validator counts the seconds.
    pub fn start_time(&self) -> (start_time: ServerStartInstant)
        ensures
            start_time == self.spec_start_time(),
    {
        self.start_time
    }

    /// The validator that an attempt to draw a key leads to: one with
    /// the key that was drawn, which counts the seconds from `start_time`,
    /// or none where the system gave no random bytes.
    pub fn from_key_result(
        key: Result<[u8; 32], getrandom::Error>,
        start_time: ServerStartInstant,
        max_connection_age: u64,
    ) -> (r: Result<Self, ValidatorError>)
        ensures
            match key {
                Ok(drawn) => r matches Ok(validator) && validator.spec_key() == drawn@
                    && validator.spec_max_connection_age() == max_connection_age
                    && validator.spec_start_time() == start_time,
                Err(_) => r matches Err(e) && e == ValidatorError::NoRandomBytes,
            },
    {
        match key {
            Ok(key) => Ok(Self::with_key(key, start_time, max_connection_age)),
            Err(_) => Err(ValidatorError::NoRandomBytes),
        }
    }

    /// A validator with the given key, which counts the seconds from
    /// `start_time`.
    pub fn with_key(key: [u8; 32], start_time: ServerStartInstant, max_connection_age: u64) -> (r:
        Self)
        ensures
            r.spec_key() == key@,
            r.spec_max_connection_age() == max_connection_age,
            r.spec_start_time() == start_time,
    {
        ConnectionValidator { start_time, max_connection_age, key }
    }

    fn hash(&self, elapsed: u32, ip_addr: &IpAddrBytes) -> (hash: [u8; 4])
        ensures
            hash@ == expected_hash(self.spec_key(), elapsed, ip_addr@),
    {
        let mut input: Vec<u8> = Vec::new();
        let elapsed_bytes = u32_to_le(elapsed);
        input.extend_from_slice(elapsed_bytes.as_slice());
        let octets = ip_addr.octets();
        input.extend_from_slice(octets.as_slice());
        let full = keyed_hash(&self.key, input.as_slice());
        let hash = [full[0], full[1], full[2], full[3]];
        assert(input@ =~= le_bytes_4(elapsed as int) + ip_addr@);
        assert(hash@ =~= expected_hash(self.spec_key(), elapsed, ip_addr@));
        hash
    }

    /// The connection id for a client at the address `source_addr` that
    /// connects at the second `now`.
    pub fn create_connection_id_at(
        &self,
        source_addr: IpAddrBytes,
        now: SecondsSinceServerStart,
    ) -> (id: ConnectionId)
        ensures
            id == spec_connection_id(self.spec_key(), elapsed_of(now), source_addr@),
    {
        let elapsed = (now.0 % 0x1_0000_0000) as u32;
        let hash = self.hash(elapsed, &source_addr);
        let hash_value = u32_from_le(&hash);
        let packed: u64 = elapsed as u64 + hash_value as u64 * 0x1_0000_0000;
        ConnectionId(to_signed(packed))
    }

    /// The connection id for a client at the address `source_addr` that
    /// connects at the moment of the call.
    pub fn create_connection_id(&self, source_addr: IpAddrBytes) -> (id: ConnectionId)
        ensures
            exists|now: SecondsSinceServerStart|
                id == #[trigger] spec_connection_id(
                    self.spec_key(),
                    elapsed_of(now),
                    source_addr@,
                ),
    {
        let now = self.start_time.seconds_elapsed();
        let id = self.create_connection_id_at(source_addr, now);
        assert(id == spec_connection_id(self.spec_key(), elapsed_of(now), source_addr@));
        id
    }

    /// Whether the connection id is taken at the second `now` from a
    /// client at the address `source_addr`.
    ///
    /// In addition to checking if the client connection is expired,
    /// disallow ids whose second of making is in the future and thus
    /// could not have been sent by the tracker. This prevents brute forcing
    /// with the largest second as part of the id to find a hash that
    /// works until the tracker is restarted.
    pub fn connection_id_valid_at(
        &self,
        source_addr: IpAddrBytes,
        connection_id: ConnectionId,
        now: SecondsSinceServerStart,
    ) -> (valid: bool)
        ensures
            valid == spec_connection_id_valid(
                self.spec_key(),
                self.spec_max_connection_age(),
                source_addr@,
                connection_id,
                now,
            ),
    {
        let packed = to_unsigned(connection_id.0);
        let elapsed = (packed % 0x1_0000_0000) as u32;
        let hash = u32_to_le((packed / 0x1_0000_0000) as u32);
        let expected = self.hash(elapsed, &source_addr);
        if !equal_in_constant_time(hash.as_slice(), expected.as_slice()) {
            return false;
        }
        let client_elapsed = elapsed as u64;
        let expired = if client_elapsed > u64::MAX - self.max_connection_age {
            false
        } else {
            client_elapsed + self.max_connection_age <= now.0
        };
        !expired && client_elapsed <= now.0
    }

    /// Whether the connection id is taken at the moment of the call from
    /// a client at the address `source_addr`.
    pub fn connection_id_valid(&self, source_addr: IpAddrBytes, connection_id: ConnectionId) -> (valid:
        bool)
        ensures
            exists|now: SecondsSinceServerStart|
                valid == #[trigger] spec_connection_id_valid(
                    self.spec_key(),
                    self.spec_max_connection_age(),
                    source_addr@,
                    connection_id,
                    now,
                ),
    {
        let now = self.start_time.seconds_elapsed();
        let valid = self.connection_id_valid_at(source_addr, connection_id, now);
        assert(valid == spec_connection_id_valid(
            self.spec_key(),
            self.spec_max_connection_age(),
            source_addr@,
            connection_id,
            now,
        ));
        valid
    }
}

} // verus!
