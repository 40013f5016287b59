//! Call tuples: a (module index, call index) pair followed by typed
//! arguments, serialized in declaration order into one contiguous byte
//! buffer.
//!
//! Arguments come in three encodable families: size-sensitive numerics in
//! compact form, raw byte buffers with a compact length prefix, and
//! fixed-width fields (hashes, addresses) at their native width with no
//! prefix. The order and arity of a call's arguments are part of the wire
//! contract; the encoder is proved deterministic and, for a fixed shape,
//! injective, and the decoder is proved to be its exact inverse.

use vstd::prelude::*;
use crate::compact::{compact_bytes, compact_decode, compact_decode_spec, compact_encode,
    lemma_compact_round_trip, pow256};
use crate::errors::DecodeError;

verus! {

/// The ordered pair identifying a dispatchable function in the runtime's
/// dispatch table. Looked up by name, never constructed ad hoc by callers.
#[derive(Clone, Copy, Debug, PartialEq, Eq, Structural)]
pub struct CallIndex {
    pub module_index: u8,
    pub call_index: u8,
}

/// One encodable call argument.
#[derive(Debug, Clone, PartialEq, Eq)]
pub enum CallArg {
    /// An unsigned numeric argument, encoded in compact form.
    Compact(u128),
    /// A raw byte buffer, encoded as a compact length prefix followed by
    /// the bytes themselves.
    Bytes(Vec<u8>),
    /// A fixed-width field (a hash or an address), encoded at its native
    /// width with no prefix.
    Fixed(Vec<u8>),
}

/// The mathematical model of a call argument.
pub enum ArgModel {
    Compact(nat),
    Bytes(Seq<u8>),
    Fixed(Seq<u8>),
}

impl View for CallArg {
    type V = ArgModel;

    open spec fn view(&self) -> ArgModel {
        match self {
            CallArg::Compact(v) => ArgModel::Compact(*v as nat),
            CallArg::Bytes(b) => ArgModel::Bytes(b@),
            CallArg::Fixed(b) => ArgModel::Fixed(b@),
        }
    }
}

/// The models of a list of arguments.
pub open spec fn args_view(s: Seq<CallArg>) -> Seq<ArgModel> {
    s.map_values(|a: CallArg| a@)
}

/// The shape of one argument: which encodable family it belongs to and,
/// for a fixed-width field, its width. A call's shape is the sequence of
/// its arguments' shapes.
#[derive(Clone, Copy, Debug, PartialEq, Eq, Structural)]
pub enum ArgShape {
    Compact,
    Bytes,
    Fixed(usize),
}

pub open spec fn shape_matches(a: ArgModel, sh: ArgShape) -> bool {
    match (a, sh) {
        (ArgModel::Compact(_), ArgShape::Compact) => true,
        (ArgModel::Bytes(_), ArgShape::Bytes) => true,
        (ArgModel::Fixed(b), ArgShape::Fixed(w)) => b.len() == w,
        _ => false,
    }
}

pub open spec fn args_match(s: Seq<ArgModel>, shapes: Seq<ArgShape>) -> bool {
    &&& s.len() == shapes.len()
    &&& forall|i: int| 0 <= i < s.len() ==> #[trigger] shape_matches(s[i], shapes[i])
}

/// Magnitude bounds under which an argument is encodable; every value an
/// executable `CallArg` can hold satisfies them.
pub open spec fn arg_model_wf(a: ArgModel) -> bool {
    match a {
        ArgModel::Compact(v) => v < pow256(16),
        ArgModel::Bytes(b) => b.len() < pow256(16),
        ArgModel::Fixed(_) => true,
    }
}

pub open spec fn args_wf(s: Seq<ArgModel>) -> bool {
    forall|i: int| 0 <= i < s.len() ==> #[trigger] arg_model_wf(s[i])
}

/// The canonical encoding of one argument.
pub open spec fn arg_enc(a: ArgModel) -> Seq<u8> {
    match a {
        ArgModel::Compact(v) => compact_bytes(v),
        ArgModel::Bytes(b) => compact_bytes(b.len()) + b,
        ArgModel::Fixed(b) => b,
    }
}

/// The concatenated encodings of a list of arguments, in order.
pub open spec fn args_enc(s: Seq<ArgModel>) -> Seq<u8>
    decreases s.len(),
{
    if s.len() == 0 {
        Seq::empty()
    } else {
        arg_enc(s[0]) + args_enc(s.skip(1))
    }
}

/// The canonical encoding of a whole call: the two index bytes, then the
/// arguments in declaration order.
pub open spec fn call_enc(index: CallIndex, args: Seq<ArgModel>) -> Seq<u8> {
    seq![index.module_index, index.call_index] + args_enc(args)
}

/// What decoding one argument of shape `sh` from the front of `s` yields.
pub open spec fn arg_dec(sh: ArgShape, s: Seq<u8>) -> Result<(ArgModel, nat), DecodeError> {
    match sh {
        ArgShape::Compact => match compact_decode_spec(s) {
            Ok((v, k)) => Ok((ArgModel::Compact(v), k)),
            Err(e) => Err(e),
        },
        ArgShape::Bytes => match compact_decode_spec(s) {
            Ok((l, k)) => if k + l <= s.len() {
                Ok((ArgModel::Bytes(s.subrange(k as int, (k + l) as int)), k + l))
            } else {
                Err(DecodeError::Truncated)
            },
            Err(e) => Err(e),
        },
        ArgShape::Fixed(w) => if w <= s.len() {
            Ok((ArgModel::Fixed(s.subrange(0, w as int)), w as nat))
        } else {
            Err(DecodeError::Truncated)
        },
    }
}

/// What decoding a list of arguments of the given shapes yields: their
/// models and the bytes consumed, or the first error.
pub open spec fn args_dec(shapes: Seq<ArgShape>, s: Seq<u8>) -> Result<
    (Seq<ArgModel>, nat),
    DecodeError,
>
    decreases shapes.len(),
{
    if shapes.len() == 0 {
        Ok((Seq::empty(), 0))
    } else {
        match arg_dec(shapes[0], s) {
            Ok((a, k)) => match args_dec(shapes.skip(1), s.skip(k as int)) {
                Ok((rest, k2)) => Ok((seq![a] + rest, k + k2)),
                Err(e) => Err(e),
            },
            Err(e) => Err(e),
        }
    }
}

/// What decoding a whole call of the given shape yields. Trailing bytes
/// are a length mismatch: the shape fixes the exact extent.
pub open spec fn call_dec(shapes: Seq<ArgShape>, s: Seq<u8>) -> Result<
    (CallIndex, Seq<ArgModel>),
    DecodeError,
> {
    if s.len() < 2 {
        Err(DecodeError::Truncated)
    } else {
        match args_dec(shapes, s.skip(2)) {
            Ok((args, k)) => if k == s.len() - 2 {
                Ok((CallIndex { module_index: s[0], call_index: s[1] }, args))
            } else {
                Err(DecodeError::LengthMismatch)
            },
            Err(e) => Err(e),
        }
    }
}

/// Appending one argument's encoding extends the concatenation by it.
pub proof fn lemma_args_enc_snoc(s: Seq<ArgModel>)
    requires
        s.len() > 0,
    ensures
        args_enc(s) == args_enc(s.drop_last()) + arg_enc(s.last()),
    decreases s.len(),
{
    if s.len() == 1 {
        assert(s.skip(1) =~= Seq::<ArgModel>::empty());
        assert(s.drop_last() =~= Seq::<ArgModel>::empty());
        assert(args_enc(s) =~= args_enc(s.drop_last()) + arg_enc(s.last()));
    } else {
        let t = s.skip(1);
        lemma_args_enc_snoc(t);
        assert(t.drop_last() =~= s.drop_last().skip(1));
        assert(t.last() == s.last());
        assert(s.drop_last()[0] == s[0]);
        assert(args_enc(s.drop_last()) == arg_enc(s[0]) + args_enc(s.drop_last().skip(1)));
        assert(args_enc(s) =~= args_enc(s.drop_last()) + arg_enc(s.last()));
    }
}

/// Copy `count` bytes of `bytes` starting at `start`.
pub(crate) fn read_bytes(bytes: &Vec<u8>, start: usize, count: usize) -> (r: Vec<u8>)
    requires
        start + count <= bytes@.len(),
    ensures
        r@ == bytes@.subrange(start as int, (start + count) as int),
{
    let mut r: Vec<u8> = Vec::new();
    proof {
        assert(start + count <= bytes.len());
    }
    let mut j: usize = 0;
    while j < count
        invariant
            j <= count,
            start + count <= bytes@.len(),
            start + count <= usize::MAX,
            r@ == bytes@.subrange(start as int, (start + j) as int),
        decreases count - j,
    {
        r.push(bytes[start + j]);
        proof {
            assert(r@ =~= bytes@.subrange(start as int, (start + j + 1) as int));
        }
        j += 1;
    }
    r
}

/// Append all of `src` to `out`.
pub(crate) fn push_bytes(out: &mut Vec<u8>, src: &Vec<u8>)
    ensures
        final(out)@ == old(out)@ + src@,
{
    proof {
        assert(src@.len() <= src.len());
    }
    let mut j: usize = 0;
    while j < src.len()
        invariant
            j <= src@.len(),
            out@ == old(out)@ + src@.subrange(0, j as int),
        decreases src@.len() - j,
    {
        out.push(src[j]);
        proof {
            assert(out@ =~= old(out)@ + src@.subrange(0, j + 1));
        }
        j += 1;
    }
    proof {
        assert(src@.subrange(0, src@.len() as int) =~= src@);
    }
}

/// Append the canonical encoding of `arg` to `out`.
pub fn encode_arg(out: &mut Vec<u8>, arg: &CallArg)
    ensures
        final(out)@ == old(out)@ + arg_enc(arg@),
{
    match arg {
        CallArg::Compact(v) => {
            let enc = compact_encode(*v);
            push_bytes(out, &enc);
        },
        CallArg::Bytes(b) => {
            let ghost out0 = out@;
            let len_enc = compact_encode(b.len() as u128);
            push_bytes(out, &len_enc);
            push_bytes(out, b);
            proof {
                assert(out@ =~= out0 + (compact_bytes(b@.len()) + b@));
            }
        },
        CallArg::Fixed(b) => {
            push_bytes(out, b);
        },
    }
}

/// Serialize a call: the two index bytes, then each argument's encoding
/// in declaration order. Deterministic: the result is a function of the
/// index and the argument values alone.
pub fn encode_call(index: CallIndex, args: &Vec<CallArg>) -> (r: Vec<u8>)
    ensures
        r@ == call_enc(index, args_view(args@)),
{
    let ghost views = args_view(args@);
    let mut r: Vec<u8> = Vec::new();
    r.push(index.module_index);
    r.push(index.call_index);
    proof {
        assert(views.take(0) =~= Seq::<ArgModel>::empty());
        assert(r@ =~= seq![index.module_index, index.call_index] + args_enc(views.take(0)));
    }
    let mut i: usize = 0;
    while i < args.len()
        invariant
            i <= args@.len(),
            views == args_view(args@),
            views.len() == args@.len(),
            r@ == seq![index.module_index, index.call_index] + args_enc(views.take(i as int)),
        decreases args@.len() - i,
    {
        encode_arg(&mut r, &args[i]);
        proof {
            let t = views.take(i + 1);
            assert(t.drop_last() =~= views.take(i as int));
            assert(t.last() == views[i as int]);
            assert(views[i as int] == args@[i as int]@);
            lemma_args_enc_snoc(t);
            assert(r@ =~= seq![index.module_index, index.call_index] + args_enc(t));
        }
        i += 1;
    }
    proof {
        assert(views.take(views.len() as int) =~= views);
    }
    r
}

/// Decoding one well-formed argument from the front of a stream consumes
/// exactly its encoding and recovers it.
pub proof fn lemma_arg_round_trip(a: ArgModel, sh: ArgShape, rest: Seq<u8>)
    requires
        shape_matches(a, sh),
        arg_model_wf(a),
    ensures
        arg_dec(sh, arg_enc(a) + rest) == Ok::<(ArgModel, nat), DecodeError>(
            (a, arg_enc(a).len())),
{
    match a {
        ArgModel::Compact(v) => {
            lemma_compact_round_trip(v, rest);
        },
        ArgModel::Bytes(b) => {
            let l = b.len();
            let k = compact_bytes(l).len();
            lemma_compact_round_trip(l, b + rest);
            let s = arg_enc(a) + rest;
            assert(s =~= compact_bytes(l) + (b + rest));
            assert(s.subrange(k as int, (k + l) as int) =~= b);
        },
        ArgModel::Fixed(b) => {
            let s = arg_enc(a) + rest;
            assert(s.subrange(0, b.len() as int) =~= b);
        },
    }
}

/// Decoding a well-formed argument list from the front of a stream
/// consumes exactly its encoding and recovers it.
pub proof fn lemma_args_round_trip(s: Seq<ArgModel>, shapes: Seq<ArgShape>, rest: Seq<u8>)
    requires
        args_match(s, shapes),
        args_wf(s),
    ensures
        args_dec(shapes, args_enc(s) + rest) == Ok::<(Seq<ArgModel>, nat), DecodeError>(
            (s, args_enc(s).len())),
    decreases s.len(),
{
    if s.len() == 0 {
        assert(s =~= Seq::<ArgModel>::empty());
    } else {
        let tail = s.skip(1);
        let tail_total = args_enc(tail) + rest;
        assert(shape_matches(s[0], shapes[0]));
        assert(arg_model_wf(s[0]));
        lemma_arg_round_trip(s[0], shapes[0], tail_total);
        let k = arg_enc(s[0]).len();
        let total = args_enc(s) + rest;
        assert(total =~= arg_enc(s[0]) + tail_total);
        assert(total.skip(k as int) =~= tail_total);
        assert(args_match(tail, shapes.skip(1))) by {
            assert forall|i: int| 0 <= i < tail.len() implies #[trigger] shape_matches(
                tail[i], shapes.skip(1)[i]) by {
                assert(tail[i] == s[i + 1]);
                assert(shapes.skip(1)[i] == shapes[i + 1]);
                assert(shape_matches(s[i + 1], shapes[i + 1]));
            }
        }
        assert(args_wf(tail)) by {
            assert forall|i: int| 0 <= i < tail.len() implies #[trigger] arg_model_wf(tail[i]) by {
                assert(tail[i] == s[i + 1]);
                assert(arg_model_wf(s[i + 1]));
            }
        }
        lemma_args_round_trip(tail, shapes.skip(1), rest);
        assert(seq![s[0]] + tail =~= s);
    }
}

/// A whole call decodes back to exactly the index and arguments it was
/// built from.
pub proof fn lemma_call_round_trip(index: CallIndex, args: Seq<ArgModel>, shapes: Seq<ArgShape>)
    requires
        args_match(args, shapes),
        args_wf(args),
    ensures
        call_dec(shapes, call_enc(index, args)) == Ok::<(CallIndex, Seq<ArgModel>), DecodeError>(
            (index, args)),
{
    let s = call_enc(index, args);
    lemma_args_round_trip(args, shapes, Seq::empty());
    assert(s.skip(2) =~= args_enc(args) + Seq::empty());
    assert(s[0] == index.module_index && s[1] == index.call_index);
}

/// Call encoding is injective for a fixed call shape: two encodings agree
/// only if the call index and every argument value agree.
pub proof fn lemma_call_enc_injective(
    index1: CallIndex,
    args1: Seq<ArgModel>,
    index2: CallIndex,
    args2: Seq<ArgModel>,
    shapes: Seq<ArgShape>,
)
    requires
        args_match(args1, shapes),
        args_wf(args1),
        args_match(args2, shapes),
        args_wf(args2),
        call_enc(index1, args1) == call_enc(index2, args2),
    ensures
        index1 == index2,
        args1 == args2,
{
    lemma_call_round_trip(index1, args1, shapes);
    lemma_call_round_trip(index2, args2, shapes);
}

/// The result of decoding the remaining shapes, composed with what an
/// in-progress decode has already produced.
pub open spec fn args_dec_from(
    done: Seq<ArgModel>,
    used: nat,
    shapes: Seq<ArgShape>,
    s: Seq<u8>,
) -> Result<(Seq<ArgModel>, nat), DecodeError> {
    match args_dec(shapes, s) {
        Ok((rest, k)) => Ok((done + rest, used + k)),
        Err(e) => Err(e),
    }
}

proof fn lemma_args_dec_from_step(
    done: Seq<ArgModel>,
    used: nat,
    shapes: Seq<ArgShape>,
    s: Seq<u8>,
    a: ArgModel,
    k: nat,
)
    requires
        shapes.len() > 0,
        arg_dec(shapes[0], s) == Ok::<(ArgModel, nat), DecodeError>((a, k)),
    ensures
        args_dec_from(done, used, shapes, s) == args_dec_from(
            done.push(a), used + k, shapes.skip(1), s.skip(k as int)),
{
    match args_dec(shapes.skip(1), s.skip(k as int)) {
        Ok((rest, k2)) => {
            assert(done + (seq![a] + rest) =~= done.push(a) + rest);
        },
        Err(_) => {},
    }
}

proof fn lemma_args_dec_from_err(
    done: Seq<ArgModel>,
    used: nat,
    shapes: Seq<ArgShape>,
    s: Seq<u8>,
    e: DecodeError,
)
    requires
        shapes.len() > 0,
        arg_dec(shapes[0], s) == Err::<(ArgModel, nat), DecodeError>(e),
    ensures
        args_dec_from(done, used, shapes, s) == Err::<(Seq<ArgModel>, nat), DecodeError>(e),
{
}

/// Parse a call of the given shape back into its index and arguments:
/// the exact inverse of `encode_call` on its whole input.
#[verifier::rlimit(80)]
pub fn decode_call(shapes: &Vec<ArgShape>, bytes: &Vec<u8>) -> (r: Result<
    (CallIndex, Vec<CallArg>),
    DecodeError,
>)
    ensures
        match r {
            Ok((index, args)) => call_dec(shapes@, bytes@) == Ok::<
                (CallIndex, Seq<ArgModel>),
                DecodeError,
            >((index, args_view(args@))),
            Err(e) => call_dec(shapes@, bytes@) == Err::<
                (CallIndex, Seq<ArgModel>),
                DecodeError,
            >(e),
        },
{
    if bytes.len() < 2 {
        return Err(DecodeError::Truncated);
    }
    let index = CallIndex { module_index: bytes[0], call_index: bytes[1] };
    let ghost body = bytes@.skip(2);
    let mut args: Vec<CallArg> = Vec::new();
    let mut pos: usize = 2;
    let mut i: usize = 0;
    proof {
        assert(args_view(args@) =~= Seq::<ArgModel>::empty());
        assert(bytes@.skip(2) =~= body);
        assert(shapes@.skip(0) =~= shapes@);
        match args_dec(shapes@, body) {
            Ok((rest, k)) => {
                assert(Seq::<ArgModel>::empty() + rest =~= rest);
            },
            Err(_) => {},
        }
    }
    while i < shapes.len()
        invariant
            2 <= pos <= bytes@.len(),
            bytes@.len() <= usize::MAX,
            i <= shapes@.len(),
            body == bytes@.skip(2),
            args_view(args@).len() == i,
            args_dec(shapes@, body) == args_dec_from(
                args_view(args@), (pos - 2) as nat, shapes@.skip(i as int),
                bytes@.skip(pos as int)),
        decreases shapes@.len() - i,
    {
        let ghost done = args_view(args@);
        let ghost shapes_rem = shapes@.skip(i as int);
        let ghost stream = bytes@.skip(pos as int);
        proof {
            assert(shapes_rem[0] == shapes@[i as int]);
        }
        match shapes[i] {
            ArgShape::Compact => {
                match compact_decode(bytes, pos) {
                    Ok((v, end)) => {
                        proof {
                            let k = (end - pos) as nat;
                            let a = ArgModel::Compact(v as nat);
                            assert(arg_dec(shapes_rem[0], stream) == Ok::<
                                (ArgModel, nat), DecodeError>((a, k)));
                            lemma_args_dec_from_step(
                                done, (pos - 2) as nat, shapes_rem, stream, a, k);
                            assert(shapes_rem.skip(1) =~= shapes@.skip(i + 1));
                            assert(stream.skip(k as int) =~= bytes@.skip(end as int));
                        }
                        args.push(CallArg::Compact(v));
                        proof {
                            assert(args_view(args@) =~= done.push(ArgModel::Compact(v as nat)));
                        }
                        pos = end;
                    },
                    Err(e) => {
                        proof {
                            lemma_args_dec_from_err(done, (pos - 2) as nat, shapes_rem, stream, e);
                        }
                        return Err(e);
                    },
                }
            },
            ArgShape::Bytes => {
                match compact_decode(bytes, pos) {
                    Ok((l, end)) => {
                        let remaining = bytes.len() - end;
                        if l > remaining as u128 {
                            proof {
                                let k = (end - pos) as nat;
                                assert(k + l as nat > stream.len());
                                assert(arg_dec(shapes_rem[0], stream) == Err::<
                                    (ArgModel, nat), DecodeError>(DecodeError::Truncated));
                                lemma_args_dec_from_err(
                                    done, (pos - 2) as nat, shapes_rem, stream,
                                    DecodeError::Truncated);
                            }
                            return Err(DecodeError::Truncated);
                        }
                        let count = l as usize;
                        let buf = read_bytes(bytes, end, count);
                        proof {
                            let k = (end - pos) as nat;
                            let a = ArgModel::Bytes(stream.subrange(
                                k as int, k as int + l as int));
                            assert(stream.subrange(k as int, k as int + l as int) =~= bytes@.subrange(
                                end as int, end + count));
                            assert(arg_dec(shapes_rem[0], stream) == Ok::<
                                (ArgModel, nat), DecodeError>((a, k + l as nat)));
                            lemma_args_dec_from_step(
                                done, (pos - 2) as nat, shapes_rem, stream, a, k + l as nat);
                            assert(shapes_rem.skip(1) =~= shapes@.skip(i + 1));
                            assert(stream.skip(k as int + l as int) =~= bytes@.skip(end + count));
                        }
                        let ghost a = ArgModel::Bytes(buf@);
                        pos = end + count;
                        args.push(CallArg::Bytes(buf));
                        proof {
                            assert(args_view(args@) =~= done.push(a));
                        }
                    },
                    Err(e) => {
                        proof {
                            lemma_args_dec_from_err(done, (pos - 2) as nat, shapes_rem, stream, e);
                        }
                        return Err(e);
                    },
                }
            },
            ArgShape::Fixed(w) => {
                let remaining = bytes.len() - pos;
                if w > remaining {
                    proof {
                        assert(arg_dec(shapes_rem[0], stream) == Err::<
                            (ArgModel, nat), DecodeError>(DecodeError::Truncated));
                        lemma_args_dec_from_err(
                            done, (pos - 2) as nat, shapes_rem, stream, DecodeError::Truncated);
                    }
                    return Err(DecodeError::Truncated);
                }
                let buf = read_bytes(bytes, pos, w);
                proof {
                    let a = ArgModel::Fixed(stream.subrange(0, w as int));
                    assert(stream.subrange(0, w as int) =~= bytes@.subrange(
                        pos as int, pos + w));
                    assert(arg_dec(shapes_rem[0], stream) == Ok::<
                        (ArgModel, nat), DecodeError>((a, w as nat)));
                    lemma_args_dec_from_step(
                        done, (pos - 2) as nat, shapes_rem, stream, a, w as nat);
                    assert(shapes_rem.skip(1) =~= shapes@.skip(i + 1));
                    assert(stream.skip(w as int) =~= bytes@.skip(pos + w));
                }
                let ghost a = ArgModel::Fixed(buf@);
                pos = pos + w;
                args.push(CallArg::Fixed(buf));
                proof {
                    assert(args_view(args@) =~= done.push(a));
                }
            },
        }
        i += 1;
    }
    proof {
        assert(shapes@.skip(shapes@.len() as int) =~= Seq::<ArgShape>::empty());
        match args_dec(shapes@, body) {
            Ok((rest, k)) => {
                assert(args_view(args@) + Seq::<ArgModel>::empty() =~= args_view(args@));
            },
            Err(_) => {},
        }
    }
    if pos != bytes.len() {
        return Err(DecodeError::LengthMismatch);
    }
    Ok((index, args))
}

/// Call encoding is deterministic: any two byte strings produced for one
/// index and one argument list are identical.
pub proof fn lemma_call_enc_deterministic(
    index: CallIndex,
    args: Seq<ArgModel>,
    bytes1: Seq<u8>,
    bytes2: Seq<u8>,
)
    requires
        bytes1 == call_enc(index, args),
        bytes2 == call_enc(index, args),
    ensures
        bytes1 == bytes2,
{
}

} // verus!
