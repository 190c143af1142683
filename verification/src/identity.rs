//! Process-wide identity: a machine fingerprint, a process fingerprint and
//! an incrementing counter, computed once and read by every generation.

use vstd::prelude::*;

verus! {

/// The 16-byte digest that the MD5 function computes for a byte string;
/// it depends on the bytes alone.
pub uninterp spec fn md5_of(data: Seq<u8>) -> Seq<u8>;

/// The CRC-32 checksum (IEEE polynomial) of a byte string; it depends on
/// the bytes alone.
pub uninterp spec fn crc32_of(data: Seq<u8>) -> u32;

/// Relies on crypto::md5::Md5 (fed and read through crypto::digest::Digest):
/// computes the 16-byte MD5 digest of `data`, a function of the bytes alone.
#[verifier::external_body]
fn md5_digest(data: &[u8]) -> (r: Vec<u8>)
    ensures
        r@ == md5_of(data@),
        r@.len() == 16,
{
    let mut h = crypto::md5::Md5::new();
    crypto::digest::Digest::input(&mut h, data);
    let mut out = vec![0u8; 16];
    crypto::digest::Digest::result(&mut h, &mut out);
    out
}

/// Relies on crc::crc32::checksum_ieee: the CRC-32 checksum of `data`,
/// a function of the bytes alone.
#[verifier::external_body]
fn crc32_ieee(data: &[u8]) -> (r: u32)
    ensures
        r == crc32_of(data@),
{
    crc::crc32::checksum_ieee(data)
}

/// Relies on rand::random: a random value from the thread-local generator;
/// nothing is promised of the result.
#[verifier::external_body]
fn random_u32() -> u32 {
    rand::random::<u32>()
}

/// The counter value after one generation: the previous value plus one,
/// wrapping at the storage width.
pub open spec fn wrap_inc(c: u32) -> u32 {
    if c == 0xFFFFFFFF {
        0
    } else {
        (c + 1) as u32
    }
}

/// The process fingerprint derived from the inputs at hand: the checksum
/// of the container introspection bytes when the process identifier is the
/// init value and those bytes are non-trivial, else the process identifier
/// itself.
pub open spec fn process_value(pid: u32, cpuset: Option<Seq<u8>>) -> u32 {
    match cpuset {
        Some(c) => if pid == 1 && c.len() > 1 {
            crc32_of(c)
        } else {
            pid
        },
        None => pid,
    }
}

/// Process-wide state read by every generated identifier: the machine and
/// process fingerprints are fixed at construction; only the counter moves,
/// and only through `next_counter`.
pub struct IdentityContext {
    machine: [u8; 3],
    process: u32,
    counter: u32,
}

impl IdentityContext {
    /// The machine fingerprint.
    pub closed spec fn machine_spec(&self) -> Seq<u8> {
        self.machine@
    }

    /// The machine fingerprint always holds exactly three bytes.
    pub proof fn lemma_machine_len(&self)
        ensures
            self.machine_spec().len() == 3,
    {
    }

    /// The process fingerprint, of which only the low 16 bits are ever
    /// serialized.
    pub closed spec fn process_spec(&self) -> u32 {
        self.process
    }

    /// The current counter value.
    pub closed spec fn counter_spec(&self) -> u32 {
        self.counter
    }

    /// Derives the identity from the inputs at hand: the machine
    /// fingerprint is the first three digest bytes of the host name when
    /// one is known, else random; the process fingerprint follows
    /// `process_value`; the counter starts at a random 24-bit seed.
    pub fn new(host: Option<Vec<u8>>, pid: u32, cpuset: Option<Vec<u8>>) -> (r: IdentityContext)
        ensures
            host matches Some(h) ==> r.machine_spec() == md5_of(h@).subrange(0, 3),
            r.machine_spec().len() == 3,
            r.process_spec() == process_value(pid, cpuset.deep_view()),
            r.counter_spec() < 0x1000000,
    {
        let mut machine: [u8; 3] = [0; 3];
        match &host {
            Some(h) => {
                let d = md5_digest(h.as_slice());
                machine[0] = d[0];
                machine[1] = d[1];
                machine[2] = d[2];
                proof {
                    assert(machine@ =~= md5_of(h@).subrange(0, 3));
                }
            },
            None => {
                let x = random_u32();
                machine[0] = #[verifier::truncate] ((x >> 16) as u8);
                machine[1] = #[verifier::truncate] ((x >> 8) as u8);
                machine[2] = #[verifier::truncate] (x as u8);
            },
        }
        let process: u32 = match &cpuset {
            Some(c) => {
                if pid == 1 && c.len() > 1 {
                    crc32_ieee(c.as_slice())
                } else {
                    pid
                }
            },
            None => pid,
        };
        let seed = random_u32();
        let counter = seed & 0xFFFFFF;
        proof {
            assert(seed & 0xFFFFFF < 0x1000000) by (bit_vector);
            match &cpuset {
                Some(c) => {
                    assert(c.deep_view() =~= c@);
                },
                None => {},
            }
        }
        IdentityContext { machine, process, counter }
    }

    /// Builds a context from explicit field values, for reconstructing a
    /// known identity.
    pub fn from_values(machine: [u8; 3], process: u32, counter: u32) -> (r: IdentityContext)
        ensures
            r.machine_spec() == machine@,
            r.process_spec() == process,
            r.counter_spec() == counter,
    {
        IdentityContext { machine, process, counter }
    }

    /// The machine fingerprint.
    pub fn machine(&self) -> (r: [u8; 3])
        ensures
            r@ == self.machine_spec(),
    {
        self.machine
    }

    /// The process fingerprint.
    pub fn process(&self) -> (r: u32)
        ensures
            r == self.process_spec(),
    {
        self.process
    }

    /// The current counter value.
    pub fn counter(&self) -> (r: u32)
        ensures
            r == self.counter_spec(),
    {
        self.counter
    }

    /// Advances the counter by one, wrapping silently, and returns the new
    /// value; the fingerprints do not move.
    pub fn next_counter(&mut self) -> (r: u32)
        ensures
            final(self).counter_spec() == wrap_inc(old(self).counter_spec()),
            r == final(self).counter_spec(),
            final(self).machine_spec() == old(self).machine_spec(),
            final(self).process_spec() == old(self).process_spec(),
    {
        if self.counter == 0xFFFFFFFF {
            self.counter = 0;
        } else {
            self.counter = self.counter + 1;
        }
        self.counter
    }
}

} // verus!
