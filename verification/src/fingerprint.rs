//! The identity fingerprint of a logged action.
//!
//! The fingerprint is a 32-byte hash that identifies "the same logical
//! action" across repeated runs. A record carrying a precomputed identity
//! digest keeps it: the hexadecimal text is decoded into the 32 raw bytes.
//! Any other record is fingerprinted by hashing, in order, its command
//! arguments, environment variables, platform properties and inputs with
//! SHA-256. Declared outputs and descriptive fields take no part: outputs
//! are exactly what divergence detection compares.

use vstd::prelude::*;
use vstd::string::StrSliceExecFns;
use vstd::utf8::encode_utf8;

use crate::hexcode::{decode_hex, hex_bytes, hex_ok};
use crate::record::{EnvironmentVariable, File, Property, SpawnExec};

verus! {

/// The SHA-256 digest of a byte string. The library does not restate the
/// algorithm; it relies only on the digest being a function of the input
/// bytes alone.
pub uninterp spec fn sha256_of(data: Seq<u8>) -> Seq<u8>;

/// Relies on sha2::Sha256 through digest::Digest::digest, which feeds the
/// input bytes to a fresh SHA-256 state and finalizes it: the result is a
/// function of the input bytes alone, and 32 bytes long.
#[verifier::external_body]
fn sha256(data: &Vec<u8>) -> (r: Vec<u8>)
    ensures
        r@ == sha256_of(data@),
        r@.len() == 32,
{
    <sha2::Sha256 as sha2::digest::Digest>::digest(data.as_slice()).to_vec()
}

/// The UTF-8 bytes of a string value.
pub open spec fn str_bytes(s: Seq<char>) -> Seq<u8> {
    encode_utf8(s)
}

/// The bytes of the command arguments, concatenated in list order.
pub open spec fn args_bytes(args: Seq<String>) -> Seq<u8>
    decreases args.len(),
{
    if args.len() == 0 {
        Seq::<u8>::empty()
    } else {
        args_bytes(args.drop_last()) + str_bytes(args.last()@)
    }
}

/// The bytes of the environment variables: each name then its value, in
/// list order.
pub open spec fn env_bytes(envs: Seq<EnvironmentVariable>) -> Seq<u8>
    decreases envs.len(),
{
    if envs.len() == 0 {
        Seq::<u8>::empty()
    } else {
        env_bytes(envs.drop_last()) + str_bytes(envs.last().name@) + str_bytes(envs.last().value@)
    }
}

/// The bytes of the platform properties: each name then its value, in list
/// order.
pub open spec fn props_bytes(props: Seq<Property>) -> Seq<u8>
    decreases props.len(),
{
    if props.len() == 0 {
        Seq::<u8>::empty()
    } else {
        props_bytes(props.drop_last()) + str_bytes(props.last().name@) + str_bytes(
            props.last().value@,
        )
    }
}

/// The bytes of the inputs: each path, then the raw bytes its content
/// digest's hexadecimal text denotes, in list order.
pub open spec fn inputs_bytes(inputs: Seq<File>) -> Seq<u8>
    decreases inputs.len(),
{
    if inputs.len() == 0 {
        Seq::<u8>::empty()
    } else {
        inputs_bytes(inputs.drop_last()) + str_bytes(inputs.last().path@) + hex_bytes(
            str_bytes(inputs.last().digest.hash@),
        )
    }
}

/// Every input's content digest is well-formed hexadecimal text.
pub open spec fn inputs_hex_ok(inputs: Seq<File>) -> bool {
    forall|i: int| 0 <= i < inputs.len() ==> hex_ok(str_bytes((#[trigger] inputs[i]).digest.hash@))
}

/// The identity-relevant bytes of a record, in the exact order they are
/// hashed: command arguments, environment variables, platform properties,
/// inputs. No delimiters stand between fields.
pub open spec fn fingerprint_material(r: SpawnExec) -> Seq<u8> {
    args_bytes(r.command_args@) + env_bytes(r.environment_variables@) + props_bytes(
        r.platform.properties@,
    ) + inputs_bytes(r.inputs@)
}

/// Whether a fingerprint exists for this record: a precomputed identity
/// digest must be 64 hexadecimal digits (32 bytes), and without one every
/// input's content digest must be well-formed hexadecimal text.
pub open spec fn fingerprintable(r: SpawnExec) -> bool {
    match r.digest {
        Some(d) => hex_ok(str_bytes(d.hash@)) && str_bytes(d.hash@).len() == 64,
        None => inputs_hex_ok(r.inputs@),
    }
}

/// The 32-byte fingerprint of a record: the decoded precomputed identity
/// digest when one is present — the other fields then take no part — and
/// otherwise the SHA-256 digest of the identity-relevant bytes.
pub open spec fn fingerprint_of(r: SpawnExec) -> Seq<u8>
    recommends
        fingerprintable(r),
{
    match r.digest {
        Some(d) => hex_bytes(str_bytes(d.hash@)),
        None => sha256_of(fingerprint_material(r)),
    }
}

/// A digest whose hexadecimal text is malformed, or a precomputed identity
/// digest of the wrong width: the log is logically corrupt.
#[derive(Debug, PartialEq, Eq)]
pub struct MalformedDigest;

/// Appends the UTF-8 bytes of a string to the accumulated material.
fn push_str_bytes(acc: &mut Vec<u8>, s: &String)
    ensures
        final(acc)@ == old(acc)@ + str_bytes(s@),
{
    let mut bytes = s.as_str().as_bytes_vec();
    acc.append(&mut bytes);
}

impl SpawnExec {
    /// The identity fingerprint of this record, as 32 raw bytes.
    ///
    /// Fails exactly when the record is not fingerprintable: a precomputed
    /// identity digest that is not 64 hexadecimal digits, or, without one,
    /// an input content digest that is not hexadecimal text.
    pub fn digest(&self) -> (r: Result<Vec<u8>, MalformedDigest>)
        ensures
            r is Ok <==> fingerprintable(*self),
            r is Ok ==> r->Ok_0@ == fingerprint_of(*self) && r->Ok_0@.len() == 32,
    {
        match &self.digest {
            Some(d) => {
                let text = d.hash.as_str().as_bytes_vec();
                match decode_hex(text.as_slice()) {
                    Ok(raw) => {
                        if raw.len() == 32 {
                            Ok(raw)
                        } else {
                            Err(MalformedDigest)
                        }
                    },
                    Err(_) => Err(MalformedDigest),
                }
            },
            None => {
                let mut material: Vec<u8> = Vec::new();
                let na = self.command_args.len();
                let mut i: usize = 0;
                while i < na
                    invariant
                        na == self.command_args@.len(),
                        0 <= i <= na,
                        material@ == args_bytes(self.command_args@.take(i as int)),
                    decreases na - i,
                {
                    push_str_bytes(&mut material, &self.command_args[i]);
                    proof {
                        let pre = self.command_args@.take(i as int + 1);
                        assert(pre.drop_last() =~= self.command_args@.take(i as int));
                        assert(pre.last() == self.command_args@[i as int]);
                    }
                    i = i + 1;
                }
                proof {
                    assert(self.command_args@.take(na as int) =~= self.command_args@);
                }
                let ghost part_a = args_bytes(self.command_args@);

                let ne = self.environment_variables.len();
                let mut j: usize = 0;
                while j < ne
                    invariant
                        ne == self.environment_variables@.len(),
                        0 <= j <= ne,
                        material@ == part_a + env_bytes(self.environment_variables@.take(j as int)),
                    decreases ne - j,
                {
                    let e = &self.environment_variables[j];
                    push_str_bytes(&mut material, &e.name);
                    push_str_bytes(&mut material, &e.value);
                    proof {
                        let pre = self.environment_variables@.take(j as int + 1);
                        assert(pre.drop_last() =~= self.environment_variables@.take(j as int));
                        assert(pre.last() == self.environment_variables@[j as int]);
                        assert(material@ =~= part_a + env_bytes(pre));
                    }
                    j = j + 1;
                }
                proof {
                    assert(self.environment_variables@.take(ne as int)
                        =~= self.environment_variables@);
                }
                let ghost part_e = part_a + env_bytes(self.environment_variables@);

                let np = self.platform.properties.len();
                let mut k: usize = 0;
                while k < np
                    invariant
                        np == self.platform.properties@.len(),
                        0 <= k <= np,
                        material@ == part_e + props_bytes(self.platform.properties@.take(k as int)),
                    decreases np - k,
                {
                    let p = &self.platform.properties[k];
                    push_str_bytes(&mut material, &p.name);
                    push_str_bytes(&mut material, &p.value);
                    proof {
                        let pre = self.platform.properties@.take(k as int + 1);
                        assert(pre.drop_last() =~= self.platform.properties@.take(k as int));
                        assert(pre.last() == self.platform.properties@[k as int]);
                        assert(material@ =~= part_e + props_bytes(pre));
                    }
                    k = k + 1;
                }
                proof {
                    assert(self.platform.properties@.take(np as int) =~= self.platform.properties@);
                }
                let ghost part_p = part_e + props_bytes(self.platform.properties@);

                let ni = self.inputs.len();
                let mut m: usize = 0;
                while m < ni
                    invariant
                        self.digest is None,
                        ni == self.inputs@.len(),
                        0 <= m <= ni,
                        material@ == part_p + inputs_bytes(self.inputs@.take(m as int)),
                        forall|q: int|
                            0 <= q < m ==> hex_ok(
                                str_bytes((#[trigger] self.inputs@[q]).digest.hash@),
                            ),
                    decreases ni - m,
                {
                    let f = &self.inputs[m];
                    push_str_bytes(&mut material, &f.path);
                    let text = f.digest.hash.as_str().as_bytes_vec();
                    match decode_hex(text.as_slice()) {
                        Ok(mut raw) => {
                            material.append(&mut raw);
                        },
                        Err(_) => {
                            proof {
                                assert(!hex_ok(str_bytes(self.inputs@[m as int].digest.hash@)));
                                assert(!inputs_hex_ok(self.inputs@));
                            }
                            return Err(MalformedDigest);
                        },
                    }
                    proof {
                        let pre = self.inputs@.take(m as int + 1);
                        assert(pre.drop_last() =~= self.inputs@.take(m as int));
                        assert(pre.last() == self.inputs@[m as int]);
                        assert(material@ =~= part_p + inputs_bytes(pre));
                    }
                    m = m + 1;
                }
                proof {
                    assert(self.inputs@.take(ni as int) =~= self.inputs@);
                    assert(material@ == fingerprint_material(*self));
                }
                Ok(sha256(&material))
            },
        }
    }
}

/// Fingerprint determinism: the fingerprint is a function of the record
/// alone, so equal records have equal fingerprints.
pub proof fn lemma_fingerprint_deterministic(a: SpawnExec, b: SpawnExec)
    requires
        a == b,
    ensures
        fingerprint_of(a) == fingerprint_of(b),
{
}

/// With a precomputed identity digest present, the fingerprint depends on
/// that digest's text alone: command, environment, platform and input
/// fields take no part.
pub proof fn lemma_fingerprint_from_precomputed_digest(a: SpawnExec, b: SpawnExec)
    requires
        a.digest is Some,
        b.digest is Some,
        a.digest->0.hash@ == b.digest->0.hash@,
    ensures
        fingerprint_of(a) == fingerprint_of(b),
{
}

} // verus!
