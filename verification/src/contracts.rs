//! Extrinsics for the contracts pallet: thin, stateless builders, one per
//! supported transaction kind, each assembling the exact argument tuple its
//! runtime call expects, resolving the pallet's fixed (module, call) name
//! pair against the held metadata snapshot, and wrapping the encoded call
//! into an envelope.
//!
//! The four transaction kinds are code deployment, instantiation from a
//! code hash, instantiation with code and salt, and invocation of a
//! function inside a contract. Each declares a fixed argument order that
//! must match the wire contract exactly; the contracts below pin the
//! produced bytes down to that order, so no reordering or omission can
//! pass verification.

use vstd::prelude::*;
use crate::call::{args_view, call_enc, encode_call, ArgModel, CallArg, CallIndex, read_bytes};
use crate::envelope::{
    build_env_spec, build_envelope, env_wf, signer_view, EnvModel, ExtrinsicEnvelope,
    SignerContext, SignerModel, ADDRESS_WIDTH,
};
use crate::errors::ComposeError;
use crate::resolver::{resolve_spec, CallMetadata, EntryModel};

verus! {

/// The native width of a code hash, in bytes.
pub const HASH_WIDTH: usize = 32;

/// The name of the contracts pallet in runtime metadata.
pub const CONTRACTS_MODULE: &'static str = "Contracts";

/// The call name of code deployment.
pub const PUT_CODE: &'static str = "put_code";

/// The call name of instantiation from a code hash.
pub const INSTANTIATE: &'static str = "instantiate";

/// The call name of instantiation with code and salt.
pub const INSTANTIATE_WITH_CODE: &'static str = "instantiate_with_code";

/// The call name of contract invocation.
pub const CALL: &'static str = "call";

/// The name of the contracts pallet in runtime metadata.
pub open spec fn contracts_module_name() -> Seq<char> {
    "Contracts"@
}

/// The call name of code deployment.
pub open spec fn put_code_name() -> Seq<char> {
    "put_code"@
}

/// The call name of instantiation from a code hash.
pub open spec fn instantiate_name() -> Seq<char> {
    "instantiate"@
}

/// The call name of instantiation with code and salt.
pub open spec fn instantiate_with_code_name() -> Seq<char> {
    "instantiate_with_code"@
}

/// The call name of contract invocation.
pub open spec fn contract_call_name() -> Seq<char> {
    "call"@
}

/// What composing one extrinsic yields: resolve the name pair, encode the
/// call tuple, wrap it for the held signing context — or the exact error
/// of the first step that fails.
pub open spec fn composed_extrinsic(
    md: Seq<EntryModel>,
    signer: Option<SignerModel>,
    module: Seq<char>,
    call: Seq<char>,
    args: Seq<ArgModel>,
) -> Result<EnvModel, ComposeError> {
    match resolve_spec(md, module, call) {
        Some(index) => build_env_spec(call_enc(index, args), signer),
        None => Err(ComposeError::UnknownCall),
    }
}

/// The argument tuple of code deployment: the compact gas limit, then the
/// length-prefixed code blob.
pub open spec fn put_code_args(gas_limit: nat, code: Seq<u8>) -> Seq<ArgModel> {
    seq![ArgModel::Compact(gas_limit), ArgModel::Bytes(code)]
}

pub open spec fn put_code_extrinsic(
    md: Seq<EntryModel>,
    signer: Option<SignerModel>,
    gas_limit: nat,
    code: Seq<u8>,
) -> Result<EnvModel, ComposeError> {
    composed_extrinsic(md, signer, contracts_module_name(), put_code_name(), put_code_args(
        gas_limit, code))
}

/// The argument tuple of instantiation from a hash: the compact endowment,
/// the compact gas limit, the fixed-width code hash, then the
/// length-prefixed constructor data.
pub open spec fn instantiate_args(
    endowment: nat,
    gas_limit: nat,
    code_hash: Seq<u8>,
    data: Seq<u8>,
) -> Seq<ArgModel> {
    seq![
        ArgModel::Compact(endowment),
        ArgModel::Compact(gas_limit),
        ArgModel::Fixed(code_hash),
        ArgModel::Bytes(data),
    ]
}

pub open spec fn instantiate_extrinsic(
    md: Seq<EntryModel>,
    signer: Option<SignerModel>,
    endowment: nat,
    gas_limit: nat,
    code_hash: Seq<u8>,
    data: Seq<u8>,
) -> Result<EnvModel, ComposeError> {
    if code_hash.len() != HASH_WIDTH {
        Err(ComposeError::MalformedArgument)
    } else {
        composed_extrinsic(md, signer, contracts_module_name(), instantiate_name(),
            instantiate_args(endowment, gas_limit, code_hash, data))
    }
}

/// The argument tuple of instantiation with code and salt: the compact
/// endowment, the compact gas limit, then the length-prefixed code,
/// constructor data, and salt. An empty buffer is still encoded as an
/// explicit zero-length prefix, never omitted.
pub open spec fn instantiate_with_code_args(
    endowment: nat,
    gas_limit: nat,
    code: Seq<u8>,
    data: Seq<u8>,
    salt: Seq<u8>,
) -> Seq<ArgModel> {
    seq![
        ArgModel::Compact(endowment),
        ArgModel::Compact(gas_limit),
        ArgModel::Bytes(code),
        ArgModel::Bytes(data),
        ArgModel::Bytes(salt),
    ]
}

pub open spec fn instantiate_with_code_extrinsic(
    md: Seq<EntryModel>,
    signer: Option<SignerModel>,
    endowment: nat,
    gas_limit: nat,
    code: Seq<u8>,
    data: Seq<u8>,
    salt: Seq<u8>,
) -> Result<EnvModel, ComposeError> {
    composed_extrinsic(md, signer, contracts_module_name(), instantiate_with_code_name(),
        instantiate_with_code_args(endowment, gas_limit, code, data, salt))
}

/// The argument tuple of contract invocation: the fixed-width destination
/// address, the compact transferred value, the compact gas limit, then the
/// length-prefixed input data.
pub open spec fn contract_call_args(
    dest: Seq<u8>,
    value: nat,
    gas_limit: nat,
    data: Seq<u8>,
) -> Seq<ArgModel> {
    seq![
        ArgModel::Fixed(dest),
        ArgModel::Compact(value),
        ArgModel::Compact(gas_limit),
        ArgModel::Bytes(data),
    ]
}

pub open spec fn contract_call_extrinsic(
    md: Seq<EntryModel>,
    signer: Option<SignerModel>,
    dest: Seq<u8>,
    value: nat,
    gas_limit: nat,
    data: Seq<u8>,
) -> Result<EnvModel, ComposeError> {
    if dest.len() != ADDRESS_WIDTH {
        Err(ComposeError::MalformedArgument)
    } else {
        composed_extrinsic(md, signer, contracts_module_name(), contract_call_name(),
            contract_call_args(dest, value, gas_limit, data))
    }
}

/// An executable result matches its model when success, the envelope's
/// content, and the error agree exactly.
pub open spec fn extrinsic_matches(
    r: Result<ExtrinsicEnvelope, ComposeError>,
    m: Result<EnvModel, ComposeError>,
) -> bool {
    match (r, m) {
        (Ok(env), Ok(me)) => env@ == me && env_wf(me),
        (Err(a), Err(b)) => a == b,
        _ => false,
    }
}

/// The extrinsics of the contracts pallet, offered by anything that holds
/// a metadata snapshot and an optional signing context.
pub trait ContractsExtrinsics {
    spec fn metadata_view(&self) -> Seq<EntryModel>;

    spec fn signer_model(&self) -> Option<SignerModel>;

    /// Compose a code-deployment extrinsic.
    fn contract_put_code(&self, gas_limit: u64, code: Vec<u8>) -> (r: Result<
        ExtrinsicEnvelope,
        ComposeError,
    >)
        ensures
            extrinsic_matches(r, put_code_extrinsic(self.metadata_view(), self.signer_model(),
                gas_limit as nat, code@)),
    ;

    /// Compose an instantiate-from-hash extrinsic.
    fn contract_instantiate(
        &self,
        endowment: u128,
        gas_limit: u64,
        code_hash: Vec<u8>,
        data: Vec<u8>,
    ) -> (r: Result<ExtrinsicEnvelope, ComposeError>)
        ensures
            extrinsic_matches(r, instantiate_extrinsic(self.metadata_view(), self.signer_model(),
                endowment as nat, gas_limit as nat, code_hash@, data@)),
    ;

    /// Compose an instantiate-with-code-and-salt extrinsic.
    fn contract_instantiate_with_code(
        &self,
        endowment: u128,
        gas_limit: u64,
        code: Vec<u8>,
        data: Vec<u8>,
        salt: Vec<u8>,
    ) -> (r: Result<ExtrinsicEnvelope, ComposeError>)
        ensures
            extrinsic_matches(r, instantiate_with_code_extrinsic(self.metadata_view(),
                self.signer_model(), endowment as nat, gas_limit as nat, code@, data@, salt@)),
    ;

    /// Compose a contract-invocation extrinsic.
    fn contract_call(&self, dest: Vec<u8>, value: u128, gas_limit: u64, data: Vec<u8>) -> (r:
        Result<ExtrinsicEnvelope, ComposeError>)
        ensures
            extrinsic_matches(r, contract_call_extrinsic(self.metadata_view(),
                self.signer_model(), dest@, value as nat, gas_limit as nat, data@)),
    ;
}

/// Copy a byte buffer.
fn copy_bytes(src: &Vec<u8>) -> (r: Vec<u8>)
    ensures
        r@ == src@,
{
    let r = read_bytes(src, 0, src.len());
    proof {
        assert(src@.subrange(0, src@.len() as int) =~= src@);
    }
    r
}

/// Copy a signing context.
fn dup_signer(signer: &Option<SignerContext>) -> (r: Option<SignerContext>)
    ensures
        signer_view(r) == signer_view(*signer),
{
    match signer {
        None => None,
        Some(sc) => Some(SignerContext {
            address: copy_bytes(&sc.address),
            signature: copy_bytes(&sc.signature),
            nonce: sc.nonce,
            tip: sc.tip,
        }),
    }
}

/// A composer of contracts-pallet extrinsics: a metadata snapshot for the
/// connected runtime, and the signing context to wrap calls with — absent
/// for unsigned extrinsics.
pub struct Composer {
    pub metadata: CallMetadata,
    pub signer: Option<SignerContext>,
}

impl ContractsExtrinsics for Composer {
    open spec fn metadata_view(&self) -> Seq<EntryModel> {
        self.metadata@
    }

    open spec fn signer_model(&self) -> Option<SignerModel> {
        signer_view(self.signer)
    }

    fn contract_put_code(&self, gas_limit: u64, code: Vec<u8>) -> (r: Result<
        ExtrinsicEnvelope,
        ComposeError,
    >) {
        let ghost code_v = code@;
        let module = CONTRACTS_MODULE.to_owned();
        let name = PUT_CODE.to_owned();
        let index = match self.metadata.lookup(&module, &name) {
            Ok(index) => index,
            Err(e) => {
                return Err(e);
            },
        };
        let mut args: Vec<CallArg> = Vec::new();
        args.push(CallArg::Compact(gas_limit as u128));
        args.push(CallArg::Bytes(code));
        proof {
            assert(args_view(args@) =~= put_code_args(gas_limit as nat, code_v));
        }
        let call_bytes = encode_call(index, &args);
        build_envelope(call_bytes, dup_signer(&self.signer))
    }

    fn contract_instantiate(
        &self,
        endowment: u128,
        gas_limit: u64,
        code_hash: Vec<u8>,
        data: Vec<u8>,
    ) -> (r: Result<ExtrinsicEnvelope, ComposeError>) {
        if code_hash.len() != HASH_WIDTH {
            return Err(ComposeError::MalformedArgument);
        }
        let ghost hash_v = code_hash@;
        let ghost data_v = data@;
        let module = CONTRACTS_MODULE.to_owned();
        let name = INSTANTIATE.to_owned();
        let index = match self.metadata.lookup(&module, &name) {
            Ok(index) => index,
            Err(e) => {
                return Err(e);
            },
        };
        let mut args: Vec<CallArg> = Vec::new();
        args.push(CallArg::Compact(endowment));
        args.push(CallArg::Compact(gas_limit as u128));
        args.push(CallArg::Fixed(code_hash));
        args.push(CallArg::Bytes(data));
        proof {
            assert(args_view(args@) =~= instantiate_args(endowment as nat, gas_limit as nat,
                hash_v, data_v));
        }
        let call_bytes = encode_call(index, &args);
        build_envelope(call_bytes, dup_signer(&self.signer))
    }

    fn contract_instantiate_with_code(
        &self,
        endowment: u128,
        gas_limit: u64,
        code: Vec<u8>,
        data: Vec<u8>,
        salt: Vec<u8>,
    ) -> (r: Result<ExtrinsicEnvelope, ComposeError>) {
        let ghost code_v = code@;
        let ghost data_v = data@;
        let ghost salt_v = salt@;
        let module = CONTRACTS_MODULE.to_owned();
        let name = INSTANTIATE_WITH_CODE.to_owned();
        let index = match self.metadata.lookup(&module, &name) {
            Ok(index) => index,
            Err(e) => {
                return Err(e);
            },
        };
        let mut args: Vec<CallArg> = Vec::new();
        args.push(CallArg::Compact(endowment));
        args.push(CallArg::Compact(gas_limit as u128));
        args.push(CallArg::Bytes(code));
        args.push(CallArg::Bytes(data));
        args.push(CallArg::Bytes(salt));
        proof {
            assert(args_view(args@) =~= instantiate_with_code_args(endowment as nat,
                gas_limit as nat, code_v, data_v, salt_v));
        }
        let call_bytes = encode_call(index, &args);
        build_envelope(call_bytes, dup_signer(&self.signer))
    }

    fn contract_call(&self, dest: Vec<u8>, value: u128, gas_limit: u64, data: Vec<u8>) -> (r:
        Result<ExtrinsicEnvelope, ComposeError>) {
        if dest.len() != ADDRESS_WIDTH {
            return Err(ComposeError::MalformedArgument);
        }
        let ghost dest_v = dest@;
        let ghost data_v = data@;
        let module = CONTRACTS_MODULE.to_owned();
        let name = CALL.to_owned();
        let index = match self.metadata.lookup(&module, &name) {
            Ok(index) => index,
            Err(e) => {
                return Err(e);
            },
        };
        let mut args: Vec<CallArg> = Vec::new();
        args.push(CallArg::Fixed(dest));
        args.push(CallArg::Compact(value));
        args.push(CallArg::Compact(gas_limit as u128));
        args.push(CallArg::Bytes(data));
        proof {
            assert(args_view(args@) =~= contract_call_args(dest_v, value as nat,
                gas_limit as nat, data_v));
        }
        let call_bytes = encode_call(index, &args);
        build_envelope(call_bytes, dup_signer(&self.signer))
    }
}

} // verus!
