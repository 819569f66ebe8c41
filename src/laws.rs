//! Properties of the codec, stated over the models that the executable
//! functions' contracts use, and proved.
use crate::request::{command_code, request_spec, DT_STRING};
use crate::response::{
    data_spec, error_code, expression_spec, response_spec, split_nul, status_of, status_ok,
};
use crate::session::{address_spec, starts_with, tcp_scheme, unix_scheme, Endpoint};
use crate::value::{null_text, RserveError, ValueModel};
use crate::wire::{i32_at, le_bytes, le_value, lemma_le_bytes_len, pow256, signed32, uint_at};
use vstd::prelude::*;
use vstd::utf8::{decode_utf8, valid_utf8};

verus! {

broadcast use lemma_le_bytes_len;

/// Writing `v` in `n` little-endian bytes and reading it back gives `v`.
pub proof fn lemma_le_round_trip(v: nat, n: nat)
    requires
        v < pow256(n),
    ensures
        le_value(le_bytes(v, n)) == v,
    decreases n,
{
    if n > 0 {
        assert(v / 256 < pow256((n - 1) as nat));
        lemma_le_round_trip(v / 256, (n - 1) as nat);
        assert(le_bytes(v, n).drop_first() =~= le_bytes(v / 256, (n - 1) as nat));
    } else {
        assert(v == 0);
    }
}

proof fn lemma_pow256_values()
    ensures
        pow256(3) == 0x100_0000,
        pow256(4) == 0x1_0000_0000,
        pow256(8) == 0x1_0000_0000_0000_0000,
{
    reveal_with_fuel(pow256, 9);
}

// ---- the response a server sends for a given payload ----

/// A data or expression header: a tag and a 24-bit length.
pub open spec fn block_header(tag: u8, len: nat) -> Seq<u8> {
    seq![tag] + le_bytes(len, 3)
}

/// A successful response carrying `payload`.
pub open spec fn ok_response(payload: Seq<u8>) -> Seq<u8> {
    le_bytes(0x10001, 4) + le_bytes(payload.len(), 4) + le_bytes(0, 8) + payload
}

/// A successful response whose data block has type `tag` and holds `body`.
pub open spec fn data_response(tag: u8, body: Seq<u8>) -> Seq<u8> {
    ok_response(block_header(tag, body.len()) + body)
}

/// A successful response holding an expression of type `xt` with `body`.
pub open spec fn expression_response(xt: u8, body: Seq<u8>) -> Seq<u8> {
    data_response(10, block_header(xt, body.len()) + body)
}

/// A response with a data block of type `tag` and `body` decodes as that
/// block does.
pub proof fn lemma_data_response(tag: u8, body: Seq<u8>)
    requires
        body.len() < 0x100_0000,
    ensures
        response_spec(data_response(tag, body)) == data_spec(tag, body),
{
    let payload = block_header(tag, body.len()) + body;
    let b = data_response(tag, body);
    lemma_pow256_values();
    assert(b.subrange(0, 4) =~= le_bytes(0x10001, 4));
    lemma_le_round_trip(0x10001, 4);
    assert(status_of(b) == 0x10001);
    assert(b[16] == tag);
    assert(b.subrange(20, b.len() as int) =~= body);
}

/// A response holding an expression of type `xt` and `body` decodes as the
/// expression does, with the body's length as its declared length.
pub proof fn lemma_expression_response(xt: u8, body: Seq<u8>)
    requires
        body.len() + 4 < 0x100_0000,
    ensures
        response_spec(expression_response(xt, body)) == expression_spec(xt, body.len(), body),
{
    let inner = block_header(xt, body.len()) + body;
    lemma_data_response(10, inner);
    lemma_pow256_values();
    assert(inner.subrange(1, 4) =~= le_bytes(body.len(), 3));
    lemma_le_round_trip(body.len(), 3);
    assert(inner.subrange(4, inner.len() as int) =~= body);
}

/// A response whose status word does not report success decodes to an
/// evaluation error carrying the status's error code, whatever follows it.
pub proof fn lemma_failed_status_is_error(b: Seq<u8>)
    requires
        b.len() >= 4,
        !status_ok(status_of(b)),
    ensures
        response_spec(b) == Err::<ValueModel, RserveError>(
            RserveError::Evaluation { code: error_code(status_of(b)) },
        ),
{
}

/// The bytes after the status word do not change a failed response's
/// outcome.
pub proof fn lemma_failed_status_ignores_rest(b: Seq<u8>, c: Seq<u8>)
    requires
        b.len() >= 4,
        c.len() >= 4,
        b.take(4) == c.take(4),
        !status_ok(status_of(b)),
    ensures
        response_spec(b) == response_spec(c),
{
    assert(b.subrange(0, 4) =~= b.take(4));
    assert(c.subrange(0, 4) =~= c.take(4));
}

/// A data-type tag outside `{1, 2, 3, 4, 10}` is refused.
pub proof fn lemma_unsupported_data_tag(tag: u8, p: Seq<u8>)
    requires
        tag != 1 && tag != 2 && tag != 3 && tag != 4 && tag != 10,
    ensures
        data_spec(tag, p) == Err::<ValueModel, RserveError>(RserveError::UnsupportedType { tag }),
{
}

/// An expression-type tag outside `{0, 1, 2, 3, 6, 32, 33, 34, 36}` is
/// refused.
pub proof fn lemma_unsupported_expression_tag(xt: u8, len: nat, p: Seq<u8>)
    requires
        xt != 0 && xt != 1 && xt != 2 && xt != 3 && xt != 6 && xt != 32 && xt != 33 && xt != 34
            && xt != 36,
    ensures
        expression_spec(xt, len, p) == Err::<ValueModel, RserveError>(
            RserveError::UnsupportedType { tag: xt },
        ),
{
}

/// A request for a command of `L` bytes is a 16-byte header whose length
/// field is `L + 4`, a 4-byte parameter header with the string tag and
/// length `L`, and then exactly the command.
pub proof fn lemma_request_layout(cmd: Seq<u8>, void: bool)
    requires
        cmd.len() < 0x100_0000,
    ensures
        request_spec(cmd, void).len() == 20 + cmd.len(),
        uint_at(request_spec(cmd, void), 0, 4) == command_code(void),
        uint_at(request_spec(cmd, void), 4, 4) == cmd.len() + 4,
        uint_at(request_spec(cmd, void), 8, 4) == 0,
        uint_at(request_spec(cmd, void), 12, 4) == 0,
        request_spec(cmd, void)[16] == DT_STRING,
        uint_at(request_spec(cmd, void), 17, 3) == cmd.len(),
        request_spec(cmd, void).subrange(20, 20 + cmd.len() as int) == cmd,
{
    let r = request_spec(cmd, void);
    lemma_pow256_values();
    assert(r.subrange(0, 4) =~= le_bytes(command_code(void), 4));
    assert(r.subrange(4, 8) =~= le_bytes(cmd.len() + 4, 4));
    assert(r.subrange(8, 12) =~= le_bytes(0, 4));
    assert(r.subrange(12, 16) =~= le_bytes(0, 4));
    assert(r.subrange(17, 20) =~= le_bytes(cmd.len(), 3));
    assert(r.subrange(20, 20 + cmd.len() as int) =~= cmd);
    lemma_le_round_trip(command_code(void), 4);
    lemma_le_round_trip(cmd.len() + 4, 4);
    lemma_le_round_trip(0, 4);
    lemma_le_round_trip(cmd.len(), 3);
}

// ---- vectors written element by element ----

/// The parts one after another, in order.
pub open spec fn concat(parts: Seq<Seq<u8>>) -> Seq<u8>
    decreases parts.len(),
{
    if parts.len() == 0 {
        Seq::empty()
    } else {
        concat(parts.drop_last()) + parts.last()
    }
}

/// Parts of one width `w` stand at multiples of `w` in their concatenation.
pub proof fn lemma_concat_fixed(parts: Seq<Seq<u8>>, w: nat)
    requires
        forall|k: int| 0 <= k < parts.len() ==> (#[trigger] parts[k]).len() == w,
    ensures
        concat(parts).len() == w * parts.len(),
        forall|k: int|
            0 <= k < parts.len() ==> concat(parts).subrange(w * k, w * k + w) == #[trigger] parts[k],
    decreases parts.len(),
{
    if parts.len() > 0 {
        let init = parts.drop_last();
        let n = init.len();
        assert forall|k: int| 0 <= k < init.len() implies (#[trigger] init[k]).len() == w by {
            assert(init[k] == parts[k]);
        }
        lemma_concat_fixed(init, w);
        assert(w * parts.len() == w * n + w) by (nonlinear_arith)
            requires
                parts.len() == n + 1,
        ;
        assert forall|k: int| 0 <= k < parts.len() implies concat(parts).subrange(
            w * k,
            w * k + w,
        ) == #[trigger] parts[k] by {
            if k < n {
                assert(w * k + w <= w * n) by (nonlinear_arith)
                    requires
                        k < n,
                ;
                assert(0 <= w * k) by (nonlinear_arith)
                    requires
                        0 <= k,
                ;
                assert(init[k] == parts[k]);
                assert(concat(parts).subrange(w * k, w * k + w) =~= concat(init).subrange(
                    w * k,
                    w * k + w,
                ));
            } else {
                assert(w * k == w * n);
                assert(concat(parts).subrange(w * k, w * k + w) =~= parts.last());
            }
        }
    }
}

/// The four little-endian bytes of `x` in two's complement.
pub open spec fn i32_bytes(x: i32) -> Seq<u8> {
    le_bytes((if x < 0 { x + 0x1_0000_0000 } else { x as int }) as nat, 4)
}

/// The payload of an integer vector.
pub open spec fn int_vec_bytes(xs: Seq<i32>) -> Seq<u8> {
    concat(xs.map_values(|x: i32| i32_bytes(x)))
}

/// The eight little-endian bytes of `x`.
pub open spec fn u64_bytes(x: u64) -> Seq<u8> {
    le_bytes(x as nat, 8)
}

/// The payload of a double vector, each double given by its bits.
pub open spec fn double_vec_bytes(xs: Seq<u64>) -> Seq<u8> {
    concat(xs.map_values(|x: u64| u64_bytes(x)))
}

/// The payload of a boolean vector: one byte, `1` or `0`, per element.
pub open spec fn bool_vec_bytes(bs: Seq<bool>) -> Seq<u8> {
    Seq::new(bs.len(), |k: int| if bs[k] { 1u8 } else { 0u8 })
}

proof fn lemma_i32_round_trip(x: i32)
    ensures
        i32_at(i32_bytes(x), 0) == x,
{
    let v = (if x < 0 { x + 0x1_0000_0000 } else { x as int }) as nat;
    lemma_pow256_values();
    lemma_le_round_trip(v, 4);
    assert(i32_bytes(x).subrange(0, 4) =~= i32_bytes(x));
    assert(signed32(v) == x);
}

/// An integer vector written element by element decodes to the same
/// elements in the same order.
pub proof fn lemma_int_vec_round_trip(xs: Seq<i32>)
    requires
        4 * xs.len() + 4 < 0x100_0000,
    ensures
        response_spec(expression_response(32, int_vec_bytes(xs))) == Ok::<ValueModel, RserveError>(
            ValueModel::IntVec(xs),
        ),
{
    let parts = xs.map_values(|x: i32| i32_bytes(x));
    lemma_concat_fixed(parts, 4);
    let body = concat(parts);
    lemma_expression_response(32, body);
    assert forall|k: int| 0 <= k < xs.len() implies i32_at(body, 4 * k) == xs[k] by {
        assert(parts[k] == i32_bytes(xs[k]));
        lemma_i32_round_trip(xs[k]);
        assert(i32_bytes(xs[k]).subrange(0, 4) =~= i32_bytes(xs[k]));
    }
    assert(Seq::new(xs.len(), |k: int| i32_at(body, 4 * k)) =~= xs);
}

/// A double vector written element by element decodes to the same bits in
/// the same order.
pub proof fn lemma_double_vec_round_trip(xs: Seq<u64>)
    requires
        8 * xs.len() + 4 < 0x100_0000,
    ensures
        response_spec(expression_response(33, double_vec_bytes(xs))) == Ok::<
            ValueModel,
            RserveError,
        >(ValueModel::DoubleVec(xs)),
{
    let parts = xs.map_values(|x: u64| u64_bytes(x));
    lemma_concat_fixed(parts, 8);
    let body = concat(parts);
    lemma_expression_response(33, body);
    lemma_pow256_values();
    assert forall|k: int| 0 <= k < xs.len() implies uint_at(body, 8 * k, 8) as u64 == xs[k] by {
        assert(parts[k] == u64_bytes(xs[k]));
        lemma_le_round_trip(xs[k] as nat, 8);
    }
    assert(Seq::new(xs.len(), |k: int| uint_at(body, 8 * k, 8) as u64) =~= xs);
}

/// A boolean vector written as `1` and `0` bytes decodes to the same
/// elements in the same order.
pub proof fn lemma_bool_vec_round_trip(bs: Seq<bool>)
    requires
        bs.len() + 4 < 0x100_0000,
    ensures
        response_spec(expression_response(36, bool_vec_bytes(bs))) == Ok::<ValueModel, RserveError>(
            ValueModel::BoolVec(bs),
        ),
{
    let body = bool_vec_bytes(bs);
    lemma_expression_response(36, body);
    assert(Seq::new(bs.len(), |k: int| body[k] == 1) =~= bs);
}

// ---- string vectors ----

/// The segments with a zero byte between neighbours.
pub open spec fn join_nul(segs: Seq<Seq<u8>>) -> Seq<u8>
    decreases segs.len(),
{
    if segs.len() == 0 {
        Seq::empty()
    } else if segs.len() == 1 {
        segs[0]
    } else {
        join_nul(segs.drop_last()) + seq![0u8] + segs.last()
    }
}

/// `s` holds no zero byte.
pub open spec fn no_nul(s: Seq<u8>) -> bool {
    forall|i: int| 0 <= i < s.len() ==> s[i] != 0
}

proof fn lemma_split_nul_nonempty(b: Seq<u8>)
    ensures
        split_nul(b).len() >= 1,
    decreases b.len(),
{
    if b.len() > 0 {
        lemma_split_nul_nonempty(b.drop_last());
    }
}

/// Bytes without a zero extend the last piece.
proof fn lemma_split_nul_append(a: Seq<u8>, c: Seq<u8>)
    requires
        no_nul(c),
    ensures
        split_nul(a + c) == split_nul(a).update(
            split_nul(a).len() - 1,
            split_nul(a).last() + c,
        ),
    decreases c.len(),
{
    lemma_split_nul_nonempty(a);
    let s = split_nul(a);
    if c.len() == 0 {
        assert(a + c =~= a);
        assert(s.last() + c =~= s.last());
        assert(s.update(s.len() - 1, s.last() + c) =~= s);
    } else {
        let c2 = c.drop_last();
        lemma_split_nul_append(a, c2);
        assert((a + c).drop_last() =~= a + c2);
        assert(c.last() != 0);
        assert((s.last() + c2).push(c.last()) =~= s.last() + c);
        assert(split_nul(a + c) =~= s.update(s.len() - 1, s.last() + c));
    }
}

/// Cutting a join at its zero bytes gives back the segments.
pub proof fn lemma_split_join(segs: Seq<Seq<u8>>)
    requires
        segs.len() >= 1,
        forall|k: int| 0 <= k < segs.len() ==> no_nul(#[trigger] segs[k]),
    ensures
        split_nul(join_nul(segs)) == segs,
    decreases segs.len(),
{
    let e = Seq::<u8>::empty();
    if segs.len() == 1 {
        lemma_split_nul_append(e, segs[0]);
        assert(e + segs[0] =~= segs[0]);
        assert(split_nul(e) == seq![e]);
        assert(seq![e].update(0, e + segs[0]) =~= segs);
    } else {
        let init = segs.drop_last();
        assert forall|k: int| 0 <= k < init.len() implies no_nul(#[trigger] init[k]) by {
            assert(init[k] == segs[k]);
        }
        lemma_split_join(init);
        let j = join_nul(init) + seq![0u8];
        assert(j.drop_last() =~= join_nul(init));
        assert(split_nul(j) == init.push(e));
        assert(no_nul(segs[segs.len() - 1]));
        lemma_split_nul_append(j, segs.last());
        assert(join_nul(segs) == j + segs.last());
        assert(e + segs.last() =~= segs.last());
        assert(init.push(e).update(init.len() as int, e + segs.last()) =~= segs);
    }
}

/// A string vector written as its UTF-8 segments joined by zero bytes
/// decodes to the segments' texts in the same order.
pub proof fn lemma_str_vec_round_trip(segs: Seq<Seq<u8>>)
    requires
        segs.len() >= 1,
        forall|k: int| 0 <= k < segs.len() ==> no_nul(#[trigger] segs[k]),
        forall|k: int| 0 <= k < segs.len() ==> valid_utf8(#[trigger] segs[k]),
        join_nul(segs).len() + 4 < 0x100_0000,
    ensures
        response_spec(expression_response(34, join_nul(segs))) == Ok::<ValueModel, RserveError>(
            ValueModel::StrVec(segs.map_values(|s: Seq<u8>| decode_utf8(s))),
        ),
{
    let body = join_nul(segs);
    lemma_expression_response(34, body);
    assert(body.take(body.len() as int) =~= body);
    lemma_split_join(segs);
}

// ---- scalars ----

/// An integer, at the top level or as an expression, decodes to itself.
pub proof fn lemma_int_round_trip(x: i32)
    ensures
        response_spec(data_response(1, i32_bytes(x))) == Ok::<ValueModel, RserveError>(
            ValueModel::Int(x),
        ),
        response_spec(expression_response(1, i32_bytes(x))) == Ok::<ValueModel, RserveError>(
            ValueModel::Int(x),
        ),
{
    lemma_data_response(1, i32_bytes(x));
    lemma_expression_response(1, i32_bytes(x));
    lemma_i32_round_trip(x);
}

/// A double's bits, at the top level or as an expression, decode to
/// themselves.
pub proof fn lemma_double_round_trip(x: u64)
    ensures
        response_spec(data_response(3, u64_bytes(x))) == Ok::<ValueModel, RserveError>(
            ValueModel::Double(x),
        ),
        response_spec(expression_response(2, u64_bytes(x))) == Ok::<ValueModel, RserveError>(
            ValueModel::Double(x),
        ),
{
    lemma_data_response(3, u64_bytes(x));
    lemma_expression_response(2, u64_bytes(x));
    lemma_pow256_values();
    lemma_le_round_trip(x as nat, 8);
    assert(u64_bytes(x).subrange(0, 8) =~= u64_bytes(x));
}

/// A character byte decodes to the character with that code.
pub proof fn lemma_char_round_trip(c: u8)
    ensures
        response_spec(data_response(2, seq![c])) == Ok::<ValueModel, RserveError>(
            ValueModel::Char(c as char),
        ),
{
    lemma_data_response(2, seq![c]);
}

/// Valid UTF-8 text, at the top level or as an expression, decodes to the
/// characters it encodes.
pub proof fn lemma_text_round_trip(t: Seq<u8>)
    requires
        valid_utf8(t),
        t.len() + 4 < 0x100_0000,
    ensures
        response_spec(data_response(4, t)) == Ok::<ValueModel, RserveError>(
            ValueModel::Str(decode_utf8(t)),
        ),
        response_spec(expression_response(3, t)) == Ok::<ValueModel, RserveError>(
            ValueModel::Str(decode_utf8(t)),
        ),
{
    lemma_data_response(4, t);
    lemma_expression_response(3, t);
}

/// A boolean written as `1` or `0` decodes to itself.
pub proof fn lemma_bool_round_trip(b: bool)
    ensures
        response_spec(expression_response(6, seq![if b { 1u8 } else { 0u8 }])) == Ok::<
            ValueModel,
            RserveError,
        >(ValueModel::Bool(b)),
{
    lemma_expression_response(6, seq![if b { 1u8 } else { 0u8 }]);
}

/// A null expression decodes to `Null`, whatever its body.
pub proof fn lemma_null_round_trip(body: Seq<u8>)
    requires
        body.len() + 4 < 0x100_0000,
    ensures
        response_spec(expression_response(0, body)) == Ok::<ValueModel, RserveError>(
            ValueModel::Null(null_text()),
        ),
{
    lemma_expression_response(0, body);
}

/// An address that begins with neither `tcp://` nor `unix://` is refused;
/// no endpoint comes of it.
pub proof fn lemma_unknown_scheme_is_invalid(b: Seq<u8>)
    requires
        !starts_with(b, tcp_scheme()),
        !starts_with(b, unix_scheme()),
    ensures
        address_spec(b) == Err::<Endpoint, RserveError>(RserveError::InvalidAddress),
{
}

} // verus!
