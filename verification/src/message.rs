use crate::ledger::OutpointLedger;
use crate::outpoint::Outpoint;
use crate::processing::process_post;
use crate::processing::process_sign_message;
use crate::processing::SignRequest;
use crate::processing::SignResponse;
use crate::sign::lemma_sig_bytes_len;
use crate::sign::Signature;
use crate::sign::SigningKey;
use vstd::bytes::lemma_auto_spec_u32_to_from_le_bytes;
use vstd::bytes::spec_u32_from_le_bytes;
use vstd::bytes::spec_u32_to_le_bytes;
use vstd::bytes::u32_from_le_bytes;
use vstd::bytes::u32_to_le_bytes;
use vstd::prelude::*;
use vstd::slice::slice_subrange;

verus! {

/// Why an inbound payload was not a signing request.
#[derive(Clone, Copy, Debug, PartialEq, Eq)]
pub enum DecodeError {
    /// The payload is not a whole number of input entries.
    InvalidLength,
}

/// Wire form of one transaction input: the 32 transaction id bytes followed
/// by the output index in little-endian form, 36 bytes in all.
pub open spec fn outpoint_encoding(o: Outpoint) -> Seq<u8> {
    o.txid@ + spec_u32_to_le_bytes(o.vout)
}

/// Wire form of a signing request: the entries of its inputs, in
/// transaction order, one after the other.
pub open spec fn request_encoding(ops: Seq<Outpoint>) -> Seq<u8>
    decreases ops.len(),
{
    if ops.len() == 0 {
        Seq::empty()
    } else {
        request_encoding(ops.drop_last()) + outpoint_encoding(ops.last())
    }
}

/// A payload decodes to a request exactly when it is a whole number of
/// 36-byte entries.
pub open spec fn request_decodable(bytes: Seq<u8>) -> bool {
    bytes.len() % 36 == 0
}

/// Every request encoding is a whole number of 36-byte entries.
pub proof fn lemma_request_encoding_len(ops: Seq<Outpoint>)
    ensures
        request_encoding(ops).len() == 36 * ops.len(),
    decreases ops.len(),
{
    lemma_auto_spec_u32_to_from_le_bytes();
    if ops.len() > 0 {
        lemma_request_encoding_len(ops.drop_last());
    }
}

/// Wire forms are unambiguous: two requests with the same encoding spend
/// the same outpoints, in the same order.  Together with the contracts of
/// `encode_request` and `decode_request` this is the adapter's round-trip
/// law: a request encoded and decoded back denotes the original inputs.
pub proof fn lemma_request_encoding_injective(a: Seq<Outpoint>, b: Seq<Outpoint>)
    requires
        request_encoding(a) == request_encoding(b),
    ensures
        a.len() == b.len(),
        forall|i: int| 0 <= i < a.len() ==> #[trigger] a[i].key() == b[i].key(),
    decreases a.len(),
{
    lemma_request_encoding_len(a);
    lemma_request_encoding_len(b);
    if a.len() > 0 {
        lemma_auto_spec_u32_to_from_le_bytes();
        let n = a.len() as int;
        let ea = request_encoding(a);
        let pa = request_encoding(a.drop_last());
        let pb = request_encoding(b.drop_last());
        lemma_request_encoding_len(a.drop_last());
        lemma_request_encoding_len(b.drop_last());
        assert(ea == pa + outpoint_encoding(a.last()));
        assert(ea == pb + outpoint_encoding(b.last()));
        assert(pa =~= pb) by {
            assert forall|p: int| 0 <= p < pa.len() implies pa[p] == pb[p] by {
                assert(pa[p] == ea[p]);
                assert(pb[p] == ea[p]);
            }
        }
        lemma_request_encoding_injective(a.drop_last(), b.drop_last());
        assert(a.last().txid@ =~= b.last().txid@) by {
            assert forall|p: int| 0 <= p < 32 implies a.last().txid@[p] == b.last().txid@[p] by {
                assert(a.last().txid@[p] == ea[36 * (n - 1) + p]);
                assert(b.last().txid@[p] == ea[36 * (n - 1) + p]);
            }
        }
        assert(spec_u32_to_le_bytes(a.last().vout) =~= spec_u32_to_le_bytes(b.last().vout)) by {
            assert forall|q: int|
                0 <= q < 4 implies spec_u32_to_le_bytes(a.last().vout)[q] == spec_u32_to_le_bytes(
                b.last().vout,
            )[q] by {
                assert(spec_u32_to_le_bytes(a.last().vout)[q] == ea[36 * (n - 1) + 32 + q]);
                assert(spec_u32_to_le_bytes(b.last().vout)[q] == ea[36 * (n - 1) + 32 + q]);
            }
        }
        assert(a.last().vout == b.last().vout) by {
            assert(spec_u32_from_le_bytes(spec_u32_to_le_bytes(a.last().vout))
                == spec_u32_from_le_bytes(spec_u32_to_le_bytes(b.last().vout)));
        }
        assert forall|i: int| 0 <= i < a.len() implies #[trigger] a[i].key() == b[i].key() by {
            if i < n - 1 {
                assert(a.drop_last()[i].key() == b.drop_last()[i].key());
                assert(a.drop_last()[i] == a[i]);
                assert(b.drop_last()[i] == b[i]);
            } else {
                assert(a[i] == a.last());
                assert(b[i] == b.last());
            }
        }
    }
}

/// Wire form of one per-input answer: `0` for an input left unsigned; `1`,
/// the payload length in little-endian form, then the payload, for a newly
/// signed input.
pub open spec fn sig_entry_encoding(entry: Option<Signature>) -> Seq<u8> {
    match entry {
        Option::None => seq![0u8],
        Option::Some(sig) => seq![1u8] + spec_u32_to_le_bytes(sig@.len() as u32) + sig@,
    }
}

/// Wire form of the per-input answers of a signed response, in order.
pub open spec fn sigs_encoding(sigs: Seq<Option<Signature>>) -> Seq<u8>
    decreases sigs.len(),
{
    if sigs.len() == 0 {
        Seq::empty()
    } else {
        sigs_encoding(sigs.drop_last()) + sig_entry_encoding(sigs.last())
    }
}

/// Wire form of a response: a refusal is the single byte `0`; a signed
/// response is the byte `1` followed by one entry per input.
pub open spec fn response_encoding(r: SignResponse) -> Seq<u8> {
    match r {
        SignResponse::Refusal => seq![0u8],
        SignResponse::Signed(sigs) => seq![1u8] + sigs_encoding(sigs@),
    }
}

/// Signature payloads a response can carry on the wire: each length must
/// fit the 4-byte length field.  Every response the engine produces
/// satisfies this.
pub open spec fn sigs_encodable(sigs: Seq<Option<Signature>>) -> bool {
    forall|i: int|
        #![trigger sigs[i]]
        0 <= i < sigs.len() && sigs[i].is_some() ==> sigs[i].unwrap()@.len() <= u32::MAX
}

/// Encodability of a response; see `sigs_encodable`.
pub open spec fn response_encodable(r: SignResponse) -> bool {
    match r {
        SignResponse::Refusal => true,
        SignResponse::Signed(sigs) => sigs_encodable(sigs@),
    }
}

/// Decodes an inbound payload into a signing request.  Total: any byte
/// sequence either yields the request whose encoding it is, or the one
/// decode error, exactly when its length is not a whole number of entries.
pub fn decode_request(bytes: &Vec<u8>) -> (r: Result<SignRequest, DecodeError>)
    ensures
        r.is_ok() <==> request_decodable(bytes@),
        match r {
            Result::Ok(req) => request_encoding(req.outpoints@) == bytes@,
            Result::Err(e) => e == DecodeError::InvalidLength,
        },
        r.is_err() ==> forall|ops: Seq<Outpoint>| #[trigger] request_encoding(ops) != bytes@,
{
    let n = bytes.len();
    if n % 36 != 0 {
        proof {
            assert forall|ops: Seq<Outpoint>| #[trigger] request_encoding(ops) != bytes@ by {
                lemma_request_encoding_len(ops);
                assert((36 * ops.len()) % 36 == 0) by (nonlinear_arith);
            }
        }
        return Err(DecodeError::InvalidLength);
    }
    let count = n / 36;
    proof {
        assert(36 * count == n) by {
            assert(n as int == 36 * (n as int / 36) + n as int % 36) by (nonlinear_arith);
        }
    }
    let mut outpoints: Vec<Outpoint> = Vec::new();
    let mut i: usize = 0;
    let mut off: usize = 0;
    while i < count
        invariant
            n == bytes@.len(),
            36 * count == n,
            0 <= i <= count,
            off == 36 * i,
            outpoints@.len() == i,
            request_encoding(outpoints@) == bytes@.take(off as int),
        decreases count - i,
    {
        let ghost prior = outpoints@;
        let mut txid: [u8; 32] = [0;32];
        let mut j: usize = 0;
        while j < 32
            invariant
                0 <= j <= 32,
                off + 36 <= n,
                n == bytes@.len(),
                forall|p: int| 0 <= p < j ==> txid@[p] == bytes@[off + p],
            decreases 32 - j,
        {
            txid[j] = bytes[off + j];
            j = j + 1;
        }
        let vout = u32_from_le_bytes(slice_subrange(bytes.as_slice(), off + 32, off + 36));
        let op = Outpoint { txid, vout };
        outpoints.push(op);
        proof {
            lemma_auto_spec_u32_to_from_le_bytes();
            assert(op.txid@ =~= bytes@.subrange(off as int, off as int + 32));
            assert(spec_u32_to_le_bytes(op.vout) == bytes@.subrange(
                off as int + 32,
                off as int + 36,
            ));
            assert(outpoint_encoding(op) =~= bytes@.subrange(off as int, off as int + 36));
            assert(outpoints@.drop_last() =~= prior);
            assert(request_encoding(outpoints@) == request_encoding(prior) + outpoint_encoding(op));
            assert(bytes@.take(off as int + 36) =~= bytes@.take(off as int) + bytes@.subrange(
                off as int,
                off as int + 36,
            ));
        }
        i = i + 1;
        off = off + 36;
    }
    proof {
        assert(bytes@.take(off as int) =~= bytes@);
    }
    Ok(SignRequest { outpoints })
}

/// Appends the wire form of one outpoint.
fn append_outpoint(out: &mut Vec<u8>, op: &Outpoint)
    ensures
        final(out)@ == old(out)@ + outpoint_encoding(*op),
{
    let ghost prior = out@;
    let mut j: usize = 0;
    while j < 32
        invariant
            0 <= j <= 32,
            out@.len() == prior.len() + j,
            forall|p: int| 0 <= p < prior.len() ==> out@[p] == prior[p],
            forall|p: int| 0 <= p < j ==> out@[prior.len() + p] == op.txid@[p],
        decreases 32 - j,
    {
        out.push(op.txid[j]);
        j = j + 1;
    }
    let tail = u32_to_le_bytes(op.vout);
    out.push(tail[0]);
    out.push(tail[1]);
    out.push(tail[2]);
    out.push(tail[3]);
    proof {
        lemma_auto_spec_u32_to_from_le_bytes();
        assert(out@ =~= prior + outpoint_encoding(*op));
    }
}

/// Encodes a signing request for the wire.  Total; the result always
/// decodes back.
pub fn encode_request(req: &SignRequest) -> (out: Vec<u8>)
    ensures
        out@ == request_encoding(req.outpoints@),
        request_decodable(out@),
{
    let ghost ops = req.outpoints@;
    let mut out: Vec<u8> = Vec::new();
    let n = req.outpoints.len();
    let mut i: usize = 0;
    while i < n
        invariant
            ops == req.outpoints@,
            n == ops.len(),
            0 <= i <= n,
            out@ == request_encoding(ops.take(i as int)),
        decreases n - i,
    {
        append_outpoint(&mut out, &req.outpoints[i]);
        proof {
            let t = ops.take(i + 1);
            assert(t.drop_last() =~= ops.take(i as int));
            assert(t.last() == ops[i as int]);
            assert(request_encoding(t) == request_encoding(ops.take(i as int)) + outpoint_encoding(
                ops[i as int],
            ));
        }
        i = i + 1;
    }
    proof {
        assert(ops.take(n as int) =~= ops);
        lemma_request_encoding_len(ops);
    }
    out
}

/// Appends the wire form of one per-input answer.
fn append_sig_entry(out: &mut Vec<u8>, entry: &Option<Signature>)
    requires
        entry.is_some() ==> entry.unwrap()@.len() <= u32::MAX,
    ensures
        final(out)@ == old(out)@ + sig_entry_encoding(*entry),
{
    let ghost prior = out@;
    match entry {
        Option::None => {
            out.push(0);
            proof {
                assert(out@ =~= prior + sig_entry_encoding(*entry));
            }
        },
        Option::Some(sig) => {
            out.push(1);
            let bytes = sig.as_bytes();
            let len: u32 = bytes.len() as u32;
            let tail = u32_to_le_bytes(len);
            out.push(tail[0]);
            out.push(tail[1]);
            out.push(tail[2]);
            out.push(tail[3]);
            let ghost mid = out@;
            let m = bytes.len();
            let mut j: usize = 0;
            while j < m
                invariant
                    m == bytes@.len(),
                    0 <= j <= m,
                    out@.len() == mid.len() + j,
                    forall|p: int| 0 <= p < mid.len() ==> out@[p] == mid[p],
                    forall|p: int| mid.len() <= p < out@.len() ==> out@[p] == bytes@[p - mid.len()],
                decreases m - j,
            {
                out.push(bytes[j]);
                j = j + 1;
            }
            proof {
                lemma_auto_spec_u32_to_from_le_bytes();
                let enc = sig_entry_encoding(*entry);
                assert(*entry == Option::Some(*sig));
                assert(tail@ == spec_u32_to_le_bytes(sig@.len() as u32));
                assert(enc == seq![1u8] + spec_u32_to_le_bytes(sig@.len() as u32) + sig@);
                assert(enc.len() == 5 + sig@.len());
                assert(mid.len() == prior.len() + 5);
                assert(out@.len() == prior.len() + enc.len());
                assert forall|p: int| 0 <= p < out@.len() implies out@[p] == (prior + enc)[p] by {
                    if p < prior.len() {
                        assert(out@[p] == mid[p]);
                    } else if p < prior.len() + 5 {
                        assert(out@[p] == mid[p]);
                        if p > prior.len() {
                            assert(mid[p] == tail@[p - prior.len() - 1]);
                            assert(enc[p - prior.len()] == tail@[p - prior.len() - 1]);
                        }
                    } else {
                        assert(out@[p] == bytes@[p - mid.len()]);
                        assert(enc[p - prior.len()] == sig@[p - prior.len() - 5]);
                    }
                }
                assert(out@ =~= prior + enc);
            }
        },
    }
}

/// Encodes a response for the wire.  Total for every encodable response —
/// in particular for every response the engine produces.
pub fn encode_response(resp: &SignResponse) -> (out: Vec<u8>)
    requires
        response_encodable(*resp),
    ensures
        out@ == response_encoding(*resp),
{
    let mut out: Vec<u8> = Vec::new();
    match resp {
        SignResponse::Refusal => {
            out.push(0);
            proof {
                assert(out@ =~= response_encoding(*resp));
            }
        },
        SignResponse::Signed(sigs) => {
            out.push(1);
            let n = sigs.len();
            let mut i: usize = 0;
            while i < n
                invariant
                    sigs_encodable(sigs@),
                    n == sigs@.len(),
                    0 <= i <= n,
                    out@ == seq![1u8] + sigs_encoding(sigs@.take(i as int)),
                decreases n - i,
            {
                append_sig_entry(&mut out, &sigs[i]);
                proof {
                    let t = sigs@.take(i + 1);
                    assert(t.drop_last() =~= sigs@.take(i as int));
                    assert(t.last() == sigs@[i as int]);
                    assert(sigs_encoding(t) == sigs_encoding(sigs@.take(i as int))
                        + sig_entry_encoding(sigs@[i as int]));
                }
                i = i + 1;
            }
            proof {
                assert(sigs@.take(n as int) =~= sigs@);
                assert(out@ == response_encoding(*resp));
            }
        },
    }
    out
}

/// One full turn of the daemon's serving loop, from opaque inbound payload
/// to opaque outbound payload: decode, run the signing policy engine,
/// encode.  Total — any byte sequence gets an answer and the daemon never
/// aborts — and a payload that does not decode leaves the ledger untouched
/// and earns the refusal response.
pub fn handle_message(ledger: &mut OutpointLedger, key: &SigningKey, bytes: &Vec<u8>) -> (out: Vec<
    u8,
>)
    requires
        old(ledger).wf(),
    ensures
        final(ledger).wf(),
        !request_decodable(bytes@) ==> final(ledger)@ == old(ledger)@ && out@ == response_encoding(
            SignResponse::Refusal,
        ),
        request_decodable(bytes@) ==> exists|ops: Seq<Outpoint>, sigs: Seq<Option<Signature>>|
            request_encoding(ops) == bytes@ && #[trigger] process_post(
                old(ledger)@,
                key@,
                ops,
                final(ledger)@,
                sigs,
            ) && out@ == seq![1u8] + sigs_encoding(sigs),
{
    match decode_request(bytes) {
        Result::Err(_) => encode_response(&SignResponse::Refusal),
        Result::Ok(req) => {
            let resp = process_sign_message(ledger, &req, key);
            match resp {
                SignResponse::Signed(sigs) => {
                    proof {
                        assert forall|i: int|
                            #![trigger sigs@[i]]
                            0 <= i < sigs@.len() && sigs@[i].is_some() implies sigs@[i].unwrap()@.len()
                            <= u32::MAX by {
                            lemma_sig_bytes_len(key@, req.outpoints@[i].key());
                        }
                    }
                    let wrapped = SignResponse::Signed(sigs);
                    let out = encode_response(&wrapped);
                    proof {
                        match wrapped {
                            SignResponse::Signed(s) => {
                                assert(request_encoding(req.outpoints@) == bytes@ && process_post(
                                    old(ledger)@,
                                    key@,
                                    req.outpoints@,
                                    ledger@,
                                    s@,
                                ) && out@ == seq![1u8] + sigs_encoding(s@));
                            },
                            SignResponse::Refusal => {
                                assert(false);
                            },
                        }
                    }
                    out
                },
                SignResponse::Refusal => {
                    proof {
                        assert(false);
                    }
                    encode_response(&SignResponse::Refusal)
                },
            }
        },
    }
}

} // verus!
