//! Decoding of a response: the header, the data-type dispatch and the nested
//! expression-type grammar.
use crate::value::{null_text, result_view, ReturnValue, RserveError, ValueModel};
use crate::wire::{i32_at, lemma_u24_bound, read_i32_le, read_uint_le, text_from_utf8, uint_at};
use vstd::prelude::*;
use vstd::slice::{slice_subrange, slice_to_vec};
use vstd::utf8::{decode_utf8, valid_utf8};

verus! {

/// The status word that marks a successful response.
pub const RESPONSE_OK: u64 = 0x10001;

/// Text taken from all of `p`.
pub open spec fn text_spec(p: Seq<u8>) -> Result<ValueModel, RserveError> {
    if valid_utf8(p) {
        Ok(ValueModel::Str(decode_utf8(p)))
    } else {
        Err(RserveError::InvalidText)
    }
}

/// The pieces of `b` between zero bytes, in order; `b` with no zero byte is a
/// single piece, and so is the empty sequence.
pub open spec fn split_nul(b: Seq<u8>) -> Seq<Seq<u8>>
    decreases b.len(),
{
    if b.len() == 0 {
        seq![Seq::empty()]
    } else {
        let s = split_nul(b.drop_last());
        if b.last() == 0 {
            s.push(Seq::empty())
        } else {
            s.update(s.len() - 1, s.last().push(b.last()))
        }
    }
}

/// Every piece is valid UTF-8.
pub open spec fn all_text(segs: Seq<Seq<u8>>) -> bool {
    forall|k: int| 0 <= k < segs.len() ==> valid_utf8(#[trigger] segs[k])
}

/// The value of an expression of type `xt` whose header declares `len` bytes
/// and whose payload starts `p`.
pub open spec fn expression_spec(xt: u8, len: nat, p: Seq<u8>) -> Result<ValueModel, RserveError> {
    if xt == 0 {
        Ok(ValueModel::Null(null_text()))
    } else if xt == 1 {
        if p.len() < 4 {
            Err(RserveError::TruncatedResponse)
        } else {
            Ok(ValueModel::Int(i32_at(p, 0)))
        }
    } else if xt == 2 {
        if p.len() < 8 {
            Err(RserveError::TruncatedResponse)
        } else {
            Ok(ValueModel::Double(uint_at(p, 0, 8) as u64))
        }
    } else if xt == 3 {
        text_spec(p)
    } else if xt == 6 {
        if p.len() < 1 {
            Err(RserveError::TruncatedResponse)
        } else {
            Ok(ValueModel::Bool(p[0] == 1))
        }
    } else if xt == 32 {
        let n = len / 4;
        if p.len() < 4 * n {
            Err(RserveError::TruncatedResponse)
        } else {
            Ok(ValueModel::IntVec(Seq::new(n, |k: int| i32_at(p, 4 * k))))
        }
    } else if xt == 33 {
        let n = len / 8;
        if p.len() < 8 * n {
            Err(RserveError::TruncatedResponse)
        } else {
            Ok(ValueModel::DoubleVec(Seq::new(n, |k: int| uint_at(p, 8 * k, 8) as u64)))
        }
    } else if xt == 34 {
        if p.len() < len {
            Err(RserveError::TruncatedResponse)
        } else {
            let segs = split_nul(p.take(len as int));
            if all_text(segs) {
                Ok(ValueModel::StrVec(segs.map_values(|s: Seq<u8>| decode_utf8(s))))
            } else {
                Err(RserveError::InvalidText)
            }
        }
    } else if xt == 36 {
        if p.len() < len {
            Err(RserveError::TruncatedResponse)
        } else {
            Ok(ValueModel::BoolVec(Seq::new(len, |k: int| p[k] == 1)))
        }
    } else {
        Err(RserveError::UnsupportedType { tag: xt })
    }
}

/// The value of a data block of type `tag` whose payload starts `p`.
pub open spec fn data_spec(tag: u8, p: Seq<u8>) -> Result<ValueModel, RserveError> {
    if tag == 1 {
        if p.len() < 4 {
            Err(RserveError::TruncatedResponse)
        } else {
            Ok(ValueModel::Int(i32_at(p, 0)))
        }
    } else if tag == 2 {
        if p.len() < 1 {
            Err(RserveError::TruncatedResponse)
        } else {
            Ok(ValueModel::Char(p[0] as char))
        }
    } else if tag == 3 {
        if p.len() < 8 {
            Err(RserveError::TruncatedResponse)
        } else {
            Ok(ValueModel::Double(uint_at(p, 0, 8) as u64))
        }
    } else if tag == 4 {
        text_spec(p)
    } else if tag == 10 {
        if p.len() < 4 {
            Err(RserveError::TruncatedResponse)
        } else {
            expression_spec(p[0], uint_at(p, 1, 3), p.subrange(4, p.len() as int))
        }
    } else {
        Err(RserveError::UnsupportedType { tag })
    }
}

/// The status word of a response.
pub open spec fn status_of(b: Seq<u8>) -> nat {
    uint_at(b, 0, 4)
}

/// Whether the status word reports success.
pub open spec fn status_ok(status: nat) -> bool {
    status % 0x10_0000 == RESPONSE_OK
}

/// The error code carried in a status word.
pub open spec fn error_code(status: nat) -> u8 {
    (status / 0x100_0000 % 128) as u8
}

/// The outcome of decoding the response `b`: a 16-byte header, then, unless
/// the response carries no data, a 4-byte data header and its payload.
pub open spec fn response_spec(b: Seq<u8>) -> Result<ValueModel, RserveError> {
    if b.len() < 4 {
        Err(RserveError::TruncatedResponse)
    } else if !status_ok(status_of(b)) {
        Err(RserveError::Evaluation { code: error_code(status_of(b)) })
    } else if b.len() == 16 {
        Ok(ValueModel::Null(null_text()))
    } else if b.len() < 20 {
        Err(RserveError::TruncatedResponse)
    } else {
        data_spec(b[16], b.subrange(20, b.len() as int))
    }
}

/// Decodes a whole response. A successful response that carries no data, as
/// for a void evaluation, decodes to `Null`.
pub fn decode_response(buf: &[u8]) -> (r: Result<ReturnValue, RserveError>)
    ensures
        result_view(r) == response_spec(buf@),
{
    if buf.len() < 4 {
        return Err(RserveError::TruncatedResponse);
    }
    let status = read_uint_le(buf, 0, 4);
    assert(status & 0xf_ffff == status % 0x10_0000) by (bit_vector);
    assert((status >> 24) & 0x7f == status / 0x100_0000 % 128) by (bit_vector);
    if status & 0xf_ffff != RESPONSE_OK {
        return Err(RserveError::Evaluation { code: ((status >> 24) & 0x7f) as u8 });
    }
    if buf.len() == 16 {
        return Ok(null_value());
    }
    if buf.len() < 20 {
        return Err(RserveError::TruncatedResponse);
    }
    decode_data(buf[16], slice_subrange(buf, 20, buf.len()))
}

fn null_value() -> (r: ReturnValue)
    ensures
        r@ == ValueModel::Null(null_text()),
{
    let s = "NULL".to_owned();
    proof {
        reveal_strlit("NULL");
        assert(s@ =~= null_text());
    }
    ReturnValue::Null(s)
}

fn decode_text(p: &[u8]) -> (r: Result<ReturnValue, RserveError>)
    ensures
        result_view(r) == text_spec(p@),
{
    match text_from_utf8(p) {
        Some(s) => Ok(ReturnValue::Str(s)),
        None => Err(RserveError::InvalidText),
    }
}

/// Decodes the data block of type `tag` whose payload starts `p`.
pub fn decode_data(tag: u8, p: &[u8]) -> (r: Result<ReturnValue, RserveError>)
    ensures
        result_view(r) == data_spec(tag, p@),
{
    if tag == 1 {
        if p.len() < 4 {
            return Err(RserveError::TruncatedResponse);
        }
        Ok(ReturnValue::Int(read_i32_le(p, 0)))
    } else if tag == 2 {
        if p.len() < 1 {
            return Err(RserveError::TruncatedResponse);
        }
        Ok(ReturnValue::Char(p[0] as char))
    } else if tag == 3 {
        if p.len() < 8 {
            return Err(RserveError::TruncatedResponse);
        }
        Ok(ReturnValue::Double(read_uint_le(p, 0, 8)))
    } else if tag == 4 {
        decode_text(p)
    } else if tag == 10 {
        if p.len() < 4 {
            return Err(RserveError::TruncatedResponse);
        }
        let len = read_uint_le(p, 1, 3);
        proof {
            lemma_u24_bound(p@, 1);
        }
        decode_expression(p[0], len as usize, slice_subrange(p, 4, p.len()))
    } else {
        Err(RserveError::UnsupportedType { tag })
    }
}

/// The model of a list of byte vectors.
pub open spec fn pieces_view(v: Seq<Vec<u8>>) -> Seq<Seq<u8>> {
    v.map_values(|x: Vec<u8>| x@)
}

/// Cuts the first `len` bytes of `p` at every zero byte.
pub fn split_at_nul(p: &[u8], len: usize) -> (r: Vec<Vec<u8>>)
    requires
        len <= p@.len(),
    ensures
        pieces_view(r@) == split_nul(p@.take(len as int)),
{
    let mut done: Vec<Vec<u8>> = Vec::new();
    let mut cur: Vec<u8> = Vec::new();
    let mut i: usize = 0;
    assert(p@.take(0) =~= Seq::<u8>::empty());
    assert(pieces_view(done@).push(cur@) =~= split_nul(p@.take(0)));
    while i < len
        invariant
            i <= len <= p@.len(),
            pieces_view(done@).push(cur@) == split_nul(p@.take(i as int)),
        decreases len - i,
    {
        let ghost before = pieces_view(done@);
        let ghost cur_before = cur@;
        assert(p@.take(i + 1).drop_last() =~= p@.take(i as int));
        if p[i] == 0 {
            done.push(cur);
            cur = Vec::new();
            assert(pieces_view(done@) =~= before.push(cur_before));
        } else {
            cur.push(p[i]);
            assert(pieces_view(done@).push(cur@) =~= before.push(cur_before).update(
                before.len() as int,
                cur_before.push(p@[i as int]),
            ));
        }
        i = i + 1;
    }
    done.push(cur);
    assert(pieces_view(done@) =~= split_nul(p@.take(len as int)));
    done
}

fn decode_str_vec(p: &[u8], len: usize) -> (r: Result<ReturnValue, RserveError>)
    requires
        len <= p@.len(),
    ensures
        result_view(r) == expression_spec(34, len as nat, p@),
{
    let pieces = split_at_nul(p, len);
    let ghost segs = split_nul(p@.take(len as int));
    let mut out: Vec<String> = Vec::new();
    let mut k: usize = 0;
    while k < pieces.len()
        invariant
            len <= p@.len(),
            segs == split_nul(p@.take(len as int)),
            pieces_view(pieces@) == segs,
            k <= pieces@.len(),
            out@.len() == k,
            forall|j: int| 0 <= j < k ==> valid_utf8(#[trigger] segs[j]),
            forall|j: int| 0 <= j < k ==> (#[trigger] out@[j])@ == decode_utf8(segs[j]),
        decreases pieces@.len() - k,
    {
        assert(pieces@[k as int]@ == segs[k as int]);
        match text_from_utf8(pieces[k].as_slice()) {
            Some(s) => out.push(s),
            None => {
                assert(!valid_utf8(segs[k as int]));
                return Err(RserveError::InvalidText);
            },
        }
        k = k + 1;
    }
    let r = ReturnValue::StrVec(out);
    assert(out@.map_values(|s: String| s@) =~= segs.map_values(|s: Seq<u8>| decode_utf8(s)));
    Ok(r)
}

/// Decodes an expression of type `xt` whose header declares `len` bytes and
/// whose payload starts `p`.
pub fn decode_expression(xt: u8, len: usize, p: &[u8]) -> (r: Result<ReturnValue, RserveError>)
    ensures
        result_view(r) == expression_spec(xt, len as nat, p@),
{
    if xt == 0 {
        Ok(null_value())
    } else if xt == 1 {
        if p.len() < 4 {
            return Err(RserveError::TruncatedResponse);
        }
        Ok(ReturnValue::Int(read_i32_le(p, 0)))
    } else if xt == 2 {
        if p.len() < 8 {
            return Err(RserveError::TruncatedResponse);
        }
        Ok(ReturnValue::Double(read_uint_le(p, 0, 8)))
    } else if xt == 3 {
        decode_text(p)
    } else if xt == 6 {
        if p.len() < 1 {
            return Err(RserveError::TruncatedResponse);
        }
        Ok(ReturnValue::Bool(p[0] == 1))
    } else if xt == 32 {
        let n: usize = len / 4;
        if p.len() / 4 < n {
            return Err(RserveError::TruncatedResponse);
        }
        let mut out: Vec<i32> = Vec::new();
        let mut k: usize = 0;
        while k < n
            invariant
                n == len / 4,
                4 * n <= p@.len(),
                k <= n,
                out@.len() == k,
                forall|j: int| 0 <= j < k ==> #[trigger] out@[j] == i32_at(p@, 4 * j),
            decreases n - k,
        {
            out.push(read_i32_le(p, 4 * k));
            k = k + 1;
        }
        assert(out@ =~= Seq::new(n as nat, |j: int| i32_at(p@, 4 * j)));
        Ok(ReturnValue::IntVec(out))
    } else if xt == 33 {
        let n: usize = len / 8;
        if p.len() / 8 < n {
            return Err(RserveError::TruncatedResponse);
        }
        let mut out: Vec<u64> = Vec::new();
        let mut k: usize = 0;
        while k < n
            invariant
                n == len / 8,
                8 * n <= p@.len(),
                k <= n,
                out@.len() == k,
                forall|j: int| 0 <= j < k ==> #[trigger] out@[j] == uint_at(p@, 8 * j, 8) as u64,
            decreases n - k,
        {
            out.push(read_uint_le(p, 8 * k, 8));
            k = k + 1;
        }
        assert(out@ =~= Seq::new(n as nat, |j: int| uint_at(p@, 8 * j, 8) as u64));
        Ok(ReturnValue::DoubleVec(out))
    } else if xt == 34 {
        if p.len() < len {
            return Err(RserveError::TruncatedResponse);
        }
        decode_str_vec(p, len)
    } else if xt == 36 {
        if p.len() < len {
            return Err(RserveError::TruncatedResponse);
        }
        let mut out: Vec<bool> = Vec::new();
        let mut k: usize = 0;
        while k < len
            invariant
                len <= p@.len(),
                k <= len,
                out@.len() == k,
                forall|j: int| 0 <= j < k ==> #[trigger] out@[j] == (p@[j] == 1),
            decreases len - k,
        {
            out.push(p[k] == 1);
            k = k + 1;
        }
        assert(out@ =~= Seq::new(len as nat, |j: int| p@[j] == 1));
        Ok(ReturnValue::BoolVec(out))
    } else {
        Err(RserveError::UnsupportedType { tag: xt })
    }
}

} // verus!
