//! The extrinsic envelope: the versioned structure that wraps an encoded
//! call, either unsigned or together with signer address, signature and
//! signed-extra parameters (nonce and tip).
//!
//! Wire layout: a compact length prefix covering everything after it, one
//! version byte (the protocol revision, with the top bit set when a signer
//! block follows), the optional signer block — a 32-byte address, a
//! 64-byte signature, then the compact nonce and tip — and finally the
//! call bytes. An envelope is chosen unsigned or signed at construction
//! and never transitions afterward.

use vstd::prelude::*;
use crate::call::{
    args_match, args_wf, call_dec, call_enc, lemma_call_round_trip, read_bytes, push_bytes,
    ArgModel, ArgShape, CallIndex,
};
use crate::compact::{
    compact_bytes, compact_decode, compact_decode_spec, compact_encode, lemma_compact_len_bound,
    lemma_compact_round_trip, lemma_pow256_mono, pow256,
};
use crate::errors::{ComposeError, DecodeError};

verus! {

/// The protocol revision whose envelope layout this module produces.
pub const EXTRINSIC_VERSION: u8 = 4;

/// The version byte of an unsigned extrinsic.
pub const UNSIGNED_VERSION_BYTE: u8 = 4;

/// The version byte of a signed extrinsic: the revision with the top bit
/// set to announce the signer block.
pub const SIGNED_VERSION_BYTE: u8 = 132;

/// The native width of a signer address, in bytes.
pub const ADDRESS_WIDTH: usize = 32;

/// The width of a signature under the declared scheme, in bytes.
pub const SIGNATURE_WIDTH: usize = 64;

/// What an external signer hands back for one submission: the signing
/// address, the signature over the call, and the signed-extra parameters
/// that were covered by it.
#[derive(Debug, Clone, PartialEq, Eq)]
pub struct SignerContext {
    pub address: Vec<u8>,
    pub signature: Vec<u8>,
    pub nonce: u64,
    pub tip: u128,
}

/// The mathematical model of a signer context.
pub struct SignerModel {
    pub address: Seq<u8>,
    pub signature: Seq<u8>,
    pub nonce: nat,
    pub tip: nat,
}

impl View for SignerContext {
    type V = SignerModel;

    open spec fn view(&self) -> SignerModel {
        SignerModel {
            address: self.address@,
            signature: self.signature@,
            nonce: self.nonce as nat,
            tip: self.tip as nat,
        }
    }
}

pub open spec fn signer_view(signer: Option<SignerContext>) -> Option<SignerModel> {
    match signer {
        Some(sc) => Some(sc@),
        None => None,
    }
}

/// A finished extrinsic: one of the two terminal states, fixed at
/// construction.
#[derive(Debug, Clone, PartialEq, Eq)]
pub enum ExtrinsicEnvelope {
    Unsigned { call: Vec<u8> },
    Signed { address: Vec<u8>, signature: Vec<u8>, nonce: u64, tip: u128, call: Vec<u8> },
}

/// The mathematical model of an envelope.
pub enum EnvModel {
    Unsigned { call: Seq<u8> },
    Signed { address: Seq<u8>, signature: Seq<u8>, nonce: nat, tip: nat, call: Seq<u8> },
}

impl View for ExtrinsicEnvelope {
    type V = EnvModel;

    open spec fn view(&self) -> EnvModel {
        match self {
            ExtrinsicEnvelope::Unsigned { call } => EnvModel::Unsigned { call: call@ },
            ExtrinsicEnvelope::Signed { address, signature, nonce, tip, call } =>
                EnvModel::Signed {
                    address: address@,
                    signature: signature@,
                    nonce: *nonce as nat,
                    tip: *tip as nat,
                    call: call@,
                },
        }
    }
}

/// Structural well-formedness: the signer block fields have their declared
/// widths and every numeric field lies within the wire format's range.
pub open spec fn env_wf(e: EnvModel) -> bool {
    match e {
        EnvModel::Unsigned { call } => call.len() < pow256(8),
        EnvModel::Signed { address, signature, nonce, tip, call } => {
            &&& address.len() == 32
            &&& signature.len() == 64
            &&& nonce < pow256(8)
            &&& tip < pow256(16)
            &&& call.len() < pow256(8)
        },
    }
}

/// The envelope body: everything after the length prefix.
pub open spec fn env_body(e: EnvModel) -> Seq<u8> {
    match e {
        EnvModel::Unsigned { call } => seq![UNSIGNED_VERSION_BYTE] + call,
        EnvModel::Signed { address, signature, nonce, tip, call } =>
            seq![SIGNED_VERSION_BYTE] + address + signature + compact_bytes(nonce)
                + compact_bytes(tip) + call,
    }
}

/// The canonical byte sequence of an envelope: the compact length of the
/// body, then the body.
pub open spec fn env_bytes(e: EnvModel) -> Seq<u8> {
    compact_bytes(env_body(e).len()) + env_body(e)
}

/// What building an envelope from a call and an optional signing context
/// yields: the unsigned or signed envelope, or the exact structural error.
pub open spec fn build_env_spec(call: Seq<u8>, signer: Option<SignerModel>) -> Result<
    EnvModel,
    ComposeError,
> {
    match signer {
        None => Ok(EnvModel::Unsigned { call }),
        Some(sc) => if sc.address.len() == 32 && sc.signature.len() == 64 {
            Ok(EnvModel::Signed {
                address: sc.address,
                signature: sc.signature,
                nonce: sc.nonce,
                tip: sc.tip,
                call,
            })
        } else {
            Err(ComposeError::InvalidSignatureFormat)
        },
    }
}

/// Wrap an encoded call into an envelope: unsigned when no signing context
/// is given, signed when one is — after checking the context's structural
/// shape. Construction is all-or-nothing: on a malformed context no
/// envelope is produced.
pub fn build_envelope(call: Vec<u8>, signer: Option<SignerContext>) -> (r: Result<
    ExtrinsicEnvelope,
    ComposeError,
>)
    ensures
        match r {
            Ok(env) => {
                &&& build_env_spec(call@, signer_view(signer)) == Ok::<EnvModel, ComposeError>(
                    env@)
                &&& env_wf(env@)
            },
            Err(e) => build_env_spec(call@, signer_view(signer)) == Err::<EnvModel, ComposeError>(
                e),
        },
{
    proof {
        reveal_with_fuel(pow256, 9);
        crate::compact::lemma_pow256_16();
        assert(call@.len() <= call.len());
    }
    match signer {
        None => Ok(ExtrinsicEnvelope::Unsigned { call }),
        Some(sc) => {
            if sc.address.len() != ADDRESS_WIDTH || sc.signature.len() != SIGNATURE_WIDTH {
                return Err(ComposeError::InvalidSignatureFormat);
            }
            Ok(ExtrinsicEnvelope::Signed {
                address: sc.address,
                signature: sc.signature,
                nonce: sc.nonce,
                tip: sc.tip,
                call,
            })
        },
    }
}

/// Serialize an envelope to its canonical bytes: the compact length of
/// the body, the version byte, the signer block if present, the call.
pub fn envelope_to_bytes(env: &ExtrinsicEnvelope) -> (r: Vec<u8>)
    requires
        env_wf(env@),
    ensures
        r@ == env_bytes(env@),
{
    let mut body: Vec<u8> = Vec::new();
    match env {
        ExtrinsicEnvelope::Unsigned { call } => {
            body.push(UNSIGNED_VERSION_BYTE);
            push_bytes(&mut body, call);
            proof {
                assert(body@ =~= env_body(env@));
            }
        },
        ExtrinsicEnvelope::Signed { address, signature, nonce, tip, call } => {
            body.push(SIGNED_VERSION_BYTE);
            push_bytes(&mut body, address);
            push_bytes(&mut body, signature);
            let nonce_enc = compact_encode(*nonce as u128);
            push_bytes(&mut body, &nonce_enc);
            let tip_enc = compact_encode(*tip);
            push_bytes(&mut body, &tip_enc);
            push_bytes(&mut body, call);
            proof {
                assert(body@ =~= env_body(env@));
            }
        },
    }
    let prefix = compact_encode(body.len() as u128);
    let mut r = prefix;
    push_bytes(&mut r, &body);
    proof {
        assert(r@ =~= env_bytes(env@));
    }
    r
}

/// What parsing an envelope from its canonical bytes yields: the envelope,
/// or the exact error. A length prefix that does not match the byte count
/// after it is rejected, as is an unknown version byte.
pub open spec fn env_dec(s: Seq<u8>) -> Result<EnvModel, DecodeError> {
    match compact_decode_spec(s) {
        Ok((l, k)) => if s.len() - k != l {
            Err(DecodeError::LengthMismatch)
        } else {
            let body = s.skip(k as int);
            if body.len() < 1 {
                Err(DecodeError::Truncated)
            } else if body[0] == UNSIGNED_VERSION_BYTE {
                Ok(EnvModel::Unsigned { call: body.skip(1) })
            } else if body[0] == SIGNED_VERSION_BYTE {
                if body.len() < 97 {
                    Err(DecodeError::Truncated)
                } else {
                    match compact_decode_spec(body.skip(97)) {
                        Ok((nonce, k1)) => if nonce >= pow256(8) {
                            Err(DecodeError::ValueTooLarge)
                        } else {
                            match compact_decode_spec(body.skip(97 + k1 as int)) {
                                Ok((tip, k2)) => Ok(EnvModel::Signed {
                                    address: body.subrange(1, 33),
                                    signature: body.subrange(33, 97),
                                    nonce,
                                    tip,
                                    call: body.skip(97 + k1 as int + k2 as int),
                                }),
                                Err(e) => Err(e),
                            }
                        },
                        Err(e) => Err(e),
                    }
                }
            } else {
                Err(DecodeError::UnsupportedVersion)
            }
        },
        Err(e) => Err(e),
    }
}

/// Parse an envelope from its canonical bytes: the exact inverse of
/// `envelope_to_bytes`.
#[verifier::rlimit(80)]
pub fn decode_envelope(bytes: &Vec<u8>) -> (r: Result<ExtrinsicEnvelope, DecodeError>)
    ensures
        match r {
            Ok(env) => {
                &&& env_dec(bytes@) == Ok::<EnvModel, DecodeError>(env@)
                &&& env_wf(env@)
            },
            Err(e) => env_dec(bytes@) == Err::<EnvModel, DecodeError>(e),
        },
{
    let ghost s = bytes@;
    proof {
        assert(s.skip(0) =~= s);
        reveal_with_fuel(pow256, 9);
        crate::compact::lemma_pow256_16();
    }
    match compact_decode(bytes, 0) {
        Err(e) => Err(e),
        Ok((l, k)) => {
            let remaining = bytes.len() - k;
            let ghost body = s.skip(k as int);
            proof {
                assert(body.len() == remaining);
            }
            if l != remaining as u128 {
                return Err(DecodeError::LengthMismatch);
            }
            if remaining == 0 {
                return Err(DecodeError::Truncated);
            }
            let version = bytes[k];
            proof {
                assert(body[0] == version);
            }
            if version == UNSIGNED_VERSION_BYTE {
                let call = read_bytes(bytes, k + 1, remaining - 1);
                proof {
                    assert(call@ =~= body.skip(1));
                    assert(call@.len() <= usize::MAX);
                }
                Ok(ExtrinsicEnvelope::Unsigned { call })
            } else if version == SIGNED_VERSION_BYTE {
                if remaining < 97 {
                    return Err(DecodeError::Truncated);
                }
                let address = read_bytes(bytes, k + 1, 32);
                let signature = read_bytes(bytes, k + 33, 64);
                proof {
                    assert(address@ =~= body.subrange(1, 33));
                    assert(signature@ =~= body.subrange(33, 97));
                    assert(s.skip(k as int + 97) =~= body.skip(97));
                }
                match compact_decode(bytes, k + 97) {
                    Err(e) => Err(e),
                    Ok((nonce_raw, p1)) => {
                        let ghost k1 = (p1 - (k + 97)) as nat;
                        if nonce_raw > 0xffffffffffffffff {
                            proof {
                                assert(nonce_raw as nat >= pow256(8));
                            }
                            return Err(DecodeError::ValueTooLarge);
                        }
                        proof {
                            assert((nonce_raw as nat) < pow256(8));
                            assert(s.skip(p1 as int) =~= body.skip(97 + k1 as int));
                        }
                        match compact_decode(bytes, p1) {
                            Err(e) => Err(e),
                            Ok((tip, p2)) => {
                                let ghost k2 = (p2 - p1) as nat;
                                let call = read_bytes(bytes, p2, bytes.len() - p2);
                                proof {
                                    assert(call@ =~= body.skip(97 + k1 as int + k2 as int));
                                    assert(call@.len() <= usize::MAX);
                                }
                                Ok(ExtrinsicEnvelope::Signed {
                                    address,
                                    signature,
                                    nonce: nonce_raw as u64,
                                    tip,
                                    call,
                                })
                            },
                        }
                    },
                }
            } else {
                Err(DecodeError::UnsupportedVersion)
            }
        },
    }
}

/// Re-parsing a well-formed envelope's canonical bytes recovers the
/// envelope exactly.
#[verifier::rlimit(100)]
pub proof fn lemma_envelope_round_trip(e: EnvModel)
    requires
        env_wf(e),
    ensures
        env_dec(env_bytes(e)) == Ok::<EnvModel, DecodeError>(e),
{
    reveal_with_fuel(pow256, 9);
    crate::compact::lemma_pow256_16();
    let body = env_body(e);
    let bl = body.len();
    match e {
        EnvModel::Unsigned { call } => {
            assert(bl == 1 + call.len());
            assert(bl < pow256(16)) by {
                lemma_pow256_mono(8, 16);
            }
            lemma_compact_round_trip(bl, body);
            let s = env_bytes(e);
            let k = compact_bytes(bl).len();
            assert(compact_decode_spec(s) == Ok::<(nat, nat), DecodeError>((bl, k)));
            assert(s.len() - k == bl);
            assert(s.skip(k as int) =~= body);
            assert(body[0] == UNSIGNED_VERSION_BYTE);
            assert(body.skip(1) =~= call);
        },
        EnvModel::Signed { address, signature, nonce, tip, call } => {
            lemma_compact_len_bound(nonce);
            lemma_compact_len_bound(tip);
            let nonce_enc = compact_bytes(nonce);
            let tip_enc = compact_bytes(tip);
            assert(bl == 97 + nonce_enc.len() + tip_enc.len() + call.len());
            assert(bl < pow256(16)) by {
                lemma_pow256_mono(8, 16);
                assert(pow256(8) >= 256);
            }
            lemma_compact_round_trip(bl, body);
            let s = env_bytes(e);
            let k = compact_bytes(bl).len();
            assert(compact_decode_spec(s) == Ok::<(nat, nat), DecodeError>((bl, k)));
            assert(s.len() - k == bl);
            assert(s.skip(k as int) =~= body);
            assert(body[0] == SIGNED_VERSION_BYTE);
            assert(body.len() >= 97);
            assert(body.subrange(1, 33) =~= address);
            assert(body.subrange(33, 97) =~= signature);
            assert(body.skip(97) =~= nonce_enc + (tip_enc + call));
            lemma_compact_round_trip(nonce, tip_enc + call);
            let k1 = nonce_enc.len();
            assert(compact_decode_spec(body.skip(97)) == Ok::<(nat, nat), DecodeError>(
                (nonce, k1)));
            assert(body.skip(97 + k1 as int) =~= tip_enc + call);
            lemma_compact_round_trip(tip, call);
            let k2 = tip_enc.len();
            assert(compact_decode_spec(body.skip(97 + k1 as int)) == Ok::<
                (nat, nat), DecodeError>((tip, k2)));
            assert(body.skip(97 + k1 as int + k2 as int) =~= call);
        },
    }
}

/// The full envelope round trip: a signed envelope wrapping an encoded
/// call, serialized and re-parsed, recovers the call index, the argument
/// values, and the signer fields exactly.
pub proof fn lemma_signed_extrinsic_round_trip(
    index: CallIndex,
    args: Seq<ArgModel>,
    shapes: Seq<ArgShape>,
    address: Seq<u8>,
    signature: Seq<u8>,
    nonce: nat,
    tip: nat,
)
    requires
        args_match(args, shapes),
        args_wf(args),
        call_enc(index, args).len() < pow256(8),
        address.len() == 32,
        signature.len() == 64,
        nonce < pow256(8),
        tip < pow256(16),
    ensures
        ({
            let e = EnvModel::Signed { address, signature, nonce, tip, call: call_enc(
                index, args) };
            &&& env_dec(env_bytes(e)) == Ok::<EnvModel, DecodeError>(e)
            &&& call_dec(shapes, call_enc(index, args)) == Ok::<
                (CallIndex, Seq<ArgModel>), DecodeError>((index, args))
        }),
{
    let e = EnvModel::Signed { address, signature, nonce, tip, call: call_enc(index, args) };
    lemma_envelope_round_trip(e);
    lemma_call_round_trip(index, args, shapes);
}

} // verus!
