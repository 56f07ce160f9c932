//! The flat attributes that are derived from an offer when it is stored,
//! and the hourly salt under which its privacy buckets are computed.
//!
//! A bucket is the first four bytes of the SHA-256 digest of the salt's
//! decimal digits followed by an identifier, read as a big-endian number
//! and reduced modulo one thousand. Within one hour of the epoch every
//! bucket is computed under the same salt.

use crate::model::offer::base::GolemBaseOffer;
use crate::node_id::{node_id_string, node_id_text};
use crate::text::{first_token, leading_token};
use crate::time::Timestamp;
use sha2::Digest;
use vstd::prelude::*;
use vstd::utf8::encode_utf8;

verus! {

/// Number of privacy buckets.
pub const BUCKETS: u32 = 1000;

/// The SHA-256 digest of a byte string, as `sha2` computes it.
pub uninterp spec fn sha256(data: Seq<u8>) -> Seq<u8>;

/// The decimal digits of `n`, as ASCII bytes, without leading zeros.
pub open spec fn decimal_digits(n: nat) -> Seq<u8>
    decreases n,
{
    if n < 10 {
        seq![(0x30 + n) as u8]
    } else {
        decimal_digits(n / 10).push((0x30 + n % 10) as u8)
    }
}

/// The bucket that a digest falls into.
pub open spec fn bucket_of_digest(digest: Seq<u8>) -> int {
    (digest[0] * 0x100_0000 + digest[1] * 0x1_0000 + digest[2] * 0x100 + digest[3]) % 1000
}

/// The bytes that are hashed for an identifier under a salt.
pub open spec fn salted(salt: u64, id: Seq<char>) -> Seq<u8> {
    decimal_digits(salt as nat) + encode_utf8(id)
}

/// The bucket of an identifier under a salt.
pub open spec fn salted_bucket(salt: u64, id: Seq<char>) -> int {
    bucket_of_digest(sha256(salted(salt, id)))
}

/// Flat attributes of a stored offer, by which offers are filtered.
#[derive(Clone, Debug, PartialEq)]
pub struct OfferFlatAttributes {
    pub exe_name: String,
    pub subnet: String,
    pub cpu_architecture: String,
    pub cpu_threads: u32,
    /// Text of the provider's identity.
    pub node_id: String,
    /// Bucket of the provider, below one thousand.
    pub node_id_group: u32,
    /// Bucket of the offer itself, below one thousand.
    pub offer_id_group: u32,
    /// The part of the node's declared name before its first dash.
    pub name_group: String,
}

/// The salt and the hour of the epoch for which it was drawn.
#[derive(Clone, Copy, Debug, PartialEq, Eq, Structural)]
pub struct SaltState {
    pub hour: u64,
    pub value: u64,
}

impl SaltState {
    /// The state after asking for the salt of `hour` with `fresh` at hand:
    /// `fresh` becomes the salt where the hour has changed, and is left
    /// unused where it has not.
    pub open spec fn rotated(self, hour: u64, fresh: u64) -> SaltState {
        if self.hour != hour {
            SaltState { hour, value: fresh }
        } else {
            self
        }
    }

    /// The state before any salt was drawn: hour zero, salt zero.
    pub fn new() -> (r: SaltState)
        ensures
            r == (SaltState { hour: 0, value: 0 }),
    {
        SaltState { hour: 0, value: 0 }
    }

    /// Gives the salt of `hour`, taking `fresh` as the new salt where the
    /// hour has changed since the last call.
    pub fn rotate(&mut self, hour: u64, fresh: u64) -> (salt: u64)
        ensures
            *final(self) == old(self).rotated(hour, fresh),
            salt == final(self).value,
    {
        if self.hour != hour {
            self.hour = hour;
            self.value = fresh;
        }
        self.value
    }
}

/// Calls `rand::thread_rng().gen()` for a `u64`; nothing is known of the
/// number that comes back.
#[verifier::external_body]
fn fresh_random() -> u64 {
    rand::Rng::gen::<u64>(&mut rand::thread_rng())
}

/// Calls `sha2::Sha256::digest` on the bytes and hands the thirty-two
/// bytes of the digest back.
#[verifier::external_body]
fn sha256_digest(data: &[u8]) -> (r: [u8; 32])
    ensures
        r@ == sha256(data@),
{
    sha2::Sha256::digest(data).into()
}

/// The salt for the hour of the epoch in which `now` lies. A new random
/// salt is drawn once for each hour: as long as the hour stays, the state
/// and the salt stay.
pub fn get_static_random(state: &mut SaltState, now: Timestamp) -> (salt: u64)
    requires
        now.secs >= 0,
    ensures
        salt == final(state).value,
        final(state).hour == now.secs / 3600,
        old(state).hour == now.secs / 3600 ==> *final(state) == *old(state),
{
    let hour = (now.secs / 3600) as u64;
    if state.hour != hour {
        let fresh = fresh_random();
        state.rotate(hour, fresh)
    } else {
        state.value
    }
}

/// Writes `n` in decimal digits.
pub fn decimal_bytes(n: u64) -> (r: Vec<u8>)
    ensures
        r@ == decimal_digits(n as nat),
{
    let mut reversed: Vec<u8> = Vec::new();
    let mut rest = n;
    while rest >= 10
        invariant
            decimal_digits(rest as nat) + reversed@.reverse() == decimal_digits(n as nat),
        decreases rest,
    {
        let digit = (rest % 10) as u8 + 0x30;
        let ghost before = reversed@;
        reversed.push(digit);
        proof {
            let next = (rest / 10) as nat;
            assert(decimal_digits(rest as nat) == decimal_digits(next).push(digit));
            assert(reversed@.reverse() =~= seq![digit] + before.reverse());
            assert(decimal_digits(next) + reversed@.reverse() =~= decimal_digits(rest as nat)
                + before.reverse());
        }
        rest = rest / 10;
    }
    let mut out: Vec<u8> = Vec::new();
    out.push(rest as u8 + 0x30);
    let mut i = reversed.len();
    while i > 0
        invariant
            i <= reversed.len(),
            rest < 10,
            out@ == decimal_digits(rest as nat) + reversed@.reverse().take(reversed.len() - i),
        decreases i,
    {
        i -= 1;
        out.push(reversed[i]);
        proof {
            let rev = reversed@.reverse();
            let k = reversed.len() - i;
            assert(rev.take(k as int) =~= rev.take(k - 1).push(reversed@[i as int]));
            assert(out@ =~= decimal_digits(rest as nat) + rev.take(k as int));
        }
    }
    proof {
        let rev = reversed@.reverse();
        assert(rev.take(reversed.len() as int) =~= rev);
    }
    out
}

/// The bucket that a digest falls into: its first four bytes, read as a
/// big-endian number, modulo the number of buckets.
pub fn digest_bucket(digest: &[u8; 32]) -> (r: u32)
    ensures
        r == bucket_of_digest(digest@),
        r < BUCKETS,
{
    let head: u32 = digest[0] as u32 * 0x100_0000 + digest[1] as u32 * 0x1_0000 + digest[2] as u32
        * 0x100 + digest[3] as u32;
    head % BUCKETS
}

/// The bucket of an identifier under a salt.
pub fn bucket(salt: u64, id: &str) -> (r: u32)
    ensures
        r == salted_bucket(salt, id@),
        r < BUCKETS,
{
    let mut data = decimal_bytes(salt);
    let bytes = id.as_bytes();
    let mut i: usize = 0;
    while i < bytes.len()
        invariant
            i <= bytes.len(),
            bytes@ == encode_utf8(id@),
            data@ == decimal_digits(salt as nat) + bytes@.take(i as int),
        decreases bytes.len() - i,
    {
        data.push(bytes[i]);
        proof {
            assert(bytes@.take(i + 1) =~= bytes@.take(i as int).push(bytes@[i as int]));
            assert(data@ =~= decimal_digits(salt as nat) + bytes@.take(i + 1));
        }
        i += 1;
    }
    proof {
        assert(bytes@.take(bytes.len() as int) =~= bytes@);
    }
    let digest = sha256_digest(data.as_slice());
    digest_bucket(&digest)
}

/// What `attributes` must hold to be the attributes of `gbo` under `salt`.
pub open spec fn derived_from(
    attributes: OfferFlatAttributes,
    gbo: GolemBaseOffer,
    salt: u64,
) -> bool {
    let golem = gbo.properties.golem;
    &&& attributes.exe_name@ == golem.runtime.name@
    &&& attributes.subnet@ == match golem.node.debug {
        Some(debug) => debug.subnet@,
        None => "public"@,
    }
    &&& attributes.cpu_architecture@ == golem.inf.cpu.architecture@
    &&& attributes.cpu_threads == golem.inf.cpu.threads
    &&& attributes.node_id@ == node_id_text(gbo.provider_id@)
    &&& attributes.node_id_group == salted_bucket(salt, node_id_text(gbo.provider_id@))
    &&& attributes.offer_id_group == salted_bucket(salt, gbo.id@)
    &&& attributes.name_group@ == first_token(golem.node.id.name@, '-')
}

/// Under one salt an offer has one derivation: any two attribute records
/// derived from it agree in every field, and so in both buckets.
pub proof fn lemma_derivation_is_a_function(
    first: OfferFlatAttributes,
    second: OfferFlatAttributes,
    gbo: GolemBaseOffer,
    salt: u64,
)
    requires
        derived_from(first, gbo, salt),
        derived_from(second, gbo, salt),
    ensures
        first.node_id_group == second.node_id_group,
        first.offer_id_group == second.offer_id_group,
        first.cpu_threads == second.cpu_threads,
        first.exe_name@ == second.exe_name@,
        first.subnet@ == second.subnet@,
        first.cpu_architecture@ == second.cpu_architecture@,
        first.node_id@ == second.node_id@,
        first.name_group@ == second.name_group@,
{
}

impl OfferFlatAttributes {
    /// Derives the attributes of an offer under the given salt. The subnet
    /// is `public` where the offer declares none.
    pub fn from_gbo(gbo: &GolemBaseOffer, salt: u64) -> (r: OfferFlatAttributes)
        ensures
            derived_from(r, *gbo, salt),
            r.node_id_group < BUCKETS,
            r.offer_id_group < BUCKETS,
    {
        let node_id = node_id_string(&gbo.provider_id);
        let node_id_group = bucket(salt, node_id.as_str());
        let offer_id_group = bucket(salt, gbo.id.as_str());
        let subnet = match &gbo.properties.golem.node.debug {
            Some(debug) => debug.subnet.clone(),
            None => "public".to_owned(),
        };
        OfferFlatAttributes {
            exe_name: gbo.properties.golem.runtime.name.clone(),
            subnet,
            cpu_architecture: gbo.properties.golem.inf.cpu.architecture.clone(),
            cpu_threads: gbo.properties.golem.inf.cpu.threads,
            node_id,
            node_id_group,
            offer_id_group,
            name_group: leading_token(gbo.properties.golem.node.id.name.as_str(), '-'),
        }
    }
}

} // verus!
