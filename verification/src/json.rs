//! The human-readable wire encoding: one structured-text object with the
//! named fields `tag`, `time` and `data`, rendered as UTF-8 bytes with the
//! usual escaping inside string literals.

use vstd::prelude::*;
use vstd::utf8::encode_utf8;
use crate::event_time::TimestampValue;
use crate::record::{Record, Value};

verus! {

/// The decimal digits of `n`, most significant first.
pub open spec fn digits_of(n: nat) -> Seq<u8>
    decreases n,
{
    if n < 10 {
        seq![(0x30 + n) as u8]
    } else {
        digits_of(n / 10) + seq![(0x30 + n % 10) as u8]
    }
}

/// A signed decimal integer.
pub open spec fn json_int(v: i64) -> Seq<u8> {
    if v >= 0 {
        digits_of(v as nat)
    } else {
        seq![0x2du8] + digits_of((-(v as int)) as nat)
    }
}

/// One lowercase hexadecimal digit.
pub open spec fn hex_digit(d: int) -> u8 {
    if d < 10 {
        (0x30 + d) as u8
    } else {
        (0x57 + d) as u8
    }
}

/// How one byte of a string's UTF-8 form appears inside a text literal:
/// quotes and backslashes escaped, control bytes as a numeric escape, and
/// every other byte as itself.
pub open spec fn esc_byte(b: u8) -> Seq<u8> {
    if b == 0x22 {
        seq![0x5cu8, 0x22u8]
    } else if b == 0x5c {
        seq![0x5cu8, 0x5cu8]
    } else if b < 0x20 {
        seq![0x5cu8, 0x75u8, 0x30u8, 0x30u8, hex_digit(b as int / 16), hex_digit(b as int % 16)]
    } else {
        seq![b]
    }
}

/// A byte run with each byte escaped as needed.
pub open spec fn esc_bytes(bs: Seq<u8>) -> Seq<u8>
    decreases bs.len(),
{
    if bs.len() == 0 {
        Seq::empty()
    } else {
        esc_byte(bs[0]) + esc_bytes(bs.drop_first())
    }
}

/// A quoted text literal.
pub open spec fn json_str(s: Seq<char>) -> Seq<u8> {
    seq![0x22u8] + esc_bytes(encode_utf8(s)) + seq![0x22u8]
}

/// One `"key":"value"` member.
pub open spec fn json_pair(p: (String, String)) -> Seq<u8> {
    json_str(p.0@) + seq![0x3au8] + json_str(p.1@)
}

/// The members of an object, comma-separated, in order.
pub open spec fn json_pairs(ps: Seq<(String, String)>) -> Seq<u8>
    decreases ps.len(),
{
    if ps.len() == 0 {
        Seq::empty()
    } else if ps.len() == 1 {
        json_pair(ps[0])
    } else {
        json_pair(ps[0]) + seq![0x2cu8] + json_pairs(ps.drop_first())
    }
}

/// A payload value in text form.
pub open spec fn json_value(v: Value) -> Seq<u8> {
    match v {
        Value::Null => seq![0x6eu8, 0x75u8, 0x6cu8, 0x6cu8],
        Value::Boolean(b) => if b {
            seq![0x74u8, 0x72u8, 0x75u8, 0x65u8]
        } else {
            seq![0x66u8, 0x61u8, 0x6cu8, 0x73u8, 0x65u8]
        },
        Value::Integer(i) => json_int(i),
        Value::Text(s) => json_str(s@),
        Value::Object(ps) => seq![0x7bu8] + json_pairs(ps@) + seq![0x7du8],
    }
}

/// A timestamp in text form: epoch seconds as a number, or an object with
/// the two structured components.
pub open spec fn json_time(t: TimestampValue) -> Seq<u8> {
    match t {
        TimestampValue::Integer(v) => json_int(v),
        TimestampValue::Structured { seconds, nanoseconds } => seq![0x7bu8] + key_seconds()
            + json_int(seconds as i64) + seq![0x2cu8] + key_nanoseconds() + json_int(
            nanoseconds as i64,
        ) + seq![0x7du8],
    }
}

/// The bytes of `"seconds":`.
pub open spec fn key_seconds() -> Seq<u8> {
    seq![0x22u8, 0x73u8, 0x65u8, 0x63u8, 0x6fu8, 0x6eu8, 0x64u8, 0x73u8, 0x22u8, 0x3au8]
}

/// The bytes of `"nanoseconds":`.
pub open spec fn key_nanoseconds() -> Seq<u8> {
    seq![
        0x22u8,
        0x6eu8,
        0x61u8,
        0x6eu8,
        0x6fu8,
        0x73u8,
        0x65u8,
        0x63u8,
        0x6fu8,
        0x6eu8,
        0x64u8,
        0x73u8,
        0x22u8,
        0x3au8,
    ]
}

/// The bytes of `{"tag":`.
pub open spec fn key_tag() -> Seq<u8> {
    seq![0x7bu8, 0x22u8, 0x74u8, 0x61u8, 0x67u8, 0x22u8, 0x3au8]
}

/// The bytes of `,"time":`.
pub open spec fn key_time() -> Seq<u8> {
    seq![0x2cu8, 0x22u8, 0x74u8, 0x69u8, 0x6du8, 0x65u8, 0x22u8, 0x3au8]
}

/// The bytes of `,"data":`.
pub open spec fn key_data() -> Seq<u8> {
    seq![0x2cu8, 0x22u8, 0x64u8, 0x61u8, 0x74u8, 0x61u8, 0x22u8, 0x3au8]
}

/// A whole record in text form: the object with named fields `tag`, `time`
/// and `data`, in that order.
pub open spec fn json_record(r: Record) -> Seq<u8> {
    key_tag() + json_str(r.tag@) + key_time() + json_time(r.time) + key_data() + json_value(r.data)
        + seq![0x7du8]
}

proof fn lemma_esc_bytes_snoc(bs: Seq<u8>, b: u8)
    ensures
        esc_bytes(bs.push(b)) == esc_bytes(bs) + esc_byte(b),
    decreases bs.len(),
{
    if bs.len() == 0 {
        reveal_with_fuel(esc_bytes, 2);
        assert(bs.push(b)[0] == b);
        assert(bs.push(b).drop_first() =~= Seq::empty());
        assert(esc_bytes(bs.push(b)) =~= esc_bytes(bs) + esc_byte(b));
    } else {
        assert(bs.push(b).drop_first() =~= bs.drop_first().push(b));
        lemma_esc_bytes_snoc(bs.drop_first(), b);
        assert(bs.push(b)[0] == bs[0]);
        assert(esc_bytes(bs.push(b)) =~= esc_bytes(bs) + esc_byte(b));
    }
}

proof fn lemma_json_pairs_snoc(ps: Seq<(String, String)>, p: (String, String))
    ensures
        ps.len() == 0 ==> json_pairs(ps.push(p)) == json_pair(p),
        ps.len() > 0 ==> json_pairs(ps.push(p)) == json_pairs(ps) + seq![0x2cu8] + json_pair(p),
    decreases ps.len(),
{
    if ps.len() == 0 {
        assert(ps.push(p)[0] == p);
    } else {
        assert(ps.push(p).drop_first() =~= ps.drop_first().push(p));
        lemma_json_pairs_snoc(ps.drop_first(), p);
        assert(ps.push(p)[0] == ps[0]);
        if ps.len() == 1 {
            assert(json_pairs(ps.push(p)) =~= json_pairs(ps) + seq![0x2cu8] + json_pair(p));
        } else {
            assert(json_pairs(ps.push(p)) =~= json_pairs(ps) + seq![0x2cu8] + json_pair(p));
        }
    }
}

fn emit_digits(out: &mut Vec<u8>, n: u64)
    ensures
        final(out)@ == old(out)@ + digits_of(n as nat),
    decreases n,
{
    if n < 10 {
        out.push(0x30 + n as u8);
        assert(out@ =~= old(out)@ + digits_of(n as nat));
    } else {
        emit_digits(out, n / 10);
        out.push(0x30 + (n % 10) as u8);
        assert(out@ =~= old(out)@ + digits_of(n as nat));
    }
}

fn emit_json_int(out: &mut Vec<u8>, v: i64)
    ensures
        final(out)@ == old(out)@ + json_int(v),
{
    if v >= 0 {
        emit_digits(out, v as u64);
    } else {
        out.push(0x2d);
        let m: u64 = ((-(v + 1)) as u64) + 1;
        assert(m as int == -(v as int));
        emit_digits(out, m);
        assert(out@ =~= old(out)@ + json_int(v));
    }
}

fn emit_json_str(out: &mut Vec<u8>, s: &str)
    ensures
        final(out)@ == old(out)@ + json_str(s@),
{
    out.push(0x22);
    let b = s.as_bytes();
    let n = b.len();
    let ghost base = out@;
    assert(b@.subrange(0, 0) =~= Seq::<u8>::empty());
    let mut i: usize = 0;
    while i < n
        invariant
            n == b@.len(),
            b@ == encode_utf8(s@),
            0 <= i <= n,
            out@ == base + esc_bytes(b@.subrange(0, i as int)),
        decreases n - i,
    {
        let c = *vstd::slice::slice_index_get(b, i);
        if c == 0x22 {
            out.push(0x5c);
            out.push(0x22);
        } else if c == 0x5c {
            out.push(0x5c);
            out.push(0x5c);
        } else if c < 0x20 {
            out.push(0x5c);
            out.push(0x75);
            out.push(0x30);
            out.push(0x30);
            let hi = c / 16;
            let lo = c % 16;
            out.push(if hi < 10 {
                0x30 + hi
            } else {
                0x57 + hi
            });
            out.push(if lo < 10 {
                0x30 + lo
            } else {
                0x57 + lo
            });
        } else {
            out.push(c);
        }
        proof {
            lemma_esc_bytes_snoc(b@.subrange(0, i as int), b@[i as int]);
            assert(b@.subrange(0, i + 1) =~= b@.subrange(0, i as int).push(b@[i as int]));
            assert(out@ =~= base + esc_bytes(b@.subrange(0, i + 1)));
        }
        i += 1;
    }
    assert(b@.subrange(0, n as int) =~= b@);
    out.push(0x22);
    assert(out@ =~= old(out)@ + json_str(s@));
}

fn emit_json_value(out: &mut Vec<u8>, v: &Value)
    ensures
        final(out)@ == old(out)@ + json_value(*v),
{
    match v {
        Value::Null => {
            out.push(0x6e);
            out.push(0x75);
            out.push(0x6c);
            out.push(0x6c);
            assert(out@ =~= old(out)@ + json_value(*v));
        },
        Value::Boolean(b) => {
            if *b {
                out.push(0x74);
                out.push(0x72);
                out.push(0x75);
                out.push(0x65);
            } else {
                out.push(0x66);
                out.push(0x61);
                out.push(0x6c);
                out.push(0x73);
                out.push(0x65);
            }
            assert(out@ =~= old(out)@ + json_value(*v));
        },
        Value::Integer(i) => {
            emit_json_int(out, *i);
        },
        Value::Text(s) => {
            emit_json_str(out, s.as_str());
        },
        Value::Object(ps) => {
            out.push(0x7b);
            let ghost base = out@;
            let n = ps.len();
            let mut i: usize = 0;
            while i < n
                invariant
                    n == ps@.len(),
                    0 <= i <= n,
                    out@ == base + json_pairs(ps@.subrange(0, i as int)),
                decreases n - i,
            {
                if i > 0 {
                    out.push(0x2c);
                }
                let pair = &ps[i];
                assert(*pair == ps@[i as int]);
                emit_json_str(out, pair.0.as_str());
                out.push(0x3a);
                emit_json_str(out, pair.1.as_str());
                proof {
                    lemma_json_pairs_snoc(ps@.subrange(0, i as int), ps@[i as int]);
                    assert(ps@.subrange(0, i + 1) =~= ps@.subrange(0, i as int).push(
                        ps@[i as int],
                    ));
                    assert(out@ =~= base + json_pairs(ps@.subrange(0, i + 1)));
                }
                i += 1;
            }
            assert(ps@.subrange(0, n as int) =~= ps@);
            out.push(0x7d);
            assert(out@ =~= old(out)@ + json_value(*v));
        },
    }
}

fn emit_json_time(out: &mut Vec<u8>, t: &TimestampValue)
    ensures
        final(out)@ == old(out)@ + json_time(*t),
{
    match t {
        TimestampValue::Integer(v) => {
            emit_json_int(out, *v);
        },
        TimestampValue::Structured { seconds, nanoseconds } => {
            out.push(0x7b);
            out.push(0x22);
            out.push(0x73);
            out.push(0x65);
            out.push(0x63);
            out.push(0x6f);
            out.push(0x6e);
            out.push(0x64);
            out.push(0x73);
            out.push(0x22);
            out.push(0x3a);
            emit_json_int(out, *seconds as i64);
            out.push(0x2c);
            out.push(0x22);
            out.push(0x6e);
            out.push(0x61);
            out.push(0x6e);
            out.push(0x6f);
            out.push(0x73);
            out.push(0x65);
            out.push(0x63);
            out.push(0x6f);
            out.push(0x6e);
            out.push(0x64);
            out.push(0x73);
            out.push(0x22);
            out.push(0x3a);
            emit_json_int(out, *nanoseconds as i64);
            out.push(0x7d);
            assert(out@ =~= old(out)@ + json_time(*t));
        },
    }
}

/// Encode a record in the human-readable text mode: the object with named
/// fields `tag`, `time` and `data`. Every payload this library's value shape
/// can hold is representable, so text encoding cannot fail.
pub fn encode_text(r: &Record) -> (res: Vec<u8>)
    ensures
        res@ == json_record(*r),
{
    let mut out: Vec<u8> = Vec::new();
    out.push(0x7b);
    out.push(0x22);
    out.push(0x74);
    out.push(0x61);
    out.push(0x67);
    out.push(0x22);
    out.push(0x3a);
    emit_json_str(&mut out, r.tag.as_str());
    out.push(0x2c);
    out.push(0x22);
    out.push(0x74);
    out.push(0x69);
    out.push(0x6d);
    out.push(0x65);
    out.push(0x22);
    out.push(0x3a);
    emit_json_time(&mut out, &r.time);
    out.push(0x2c);
    out.push(0x22);
    out.push(0x64);
    out.push(0x61);
    out.push(0x74);
    out.push(0x61);
    out.push(0x22);
    out.push(0x3a);
    emit_json_value(&mut out, &r.data);
    out.push(0x7d);
    assert(out@ =~= json_record(*r));
    out
}

} // verus!
