//! Reading the binary wire encoding back. The decoding functions here are
//! specifications: together with the round-trip lemmas they pin down that the
//! encoder's output denotes exactly the record it was built from — the tag and
//! every string as their UTF-8 bytes, timestamps and payloads exactly, batch
//! entries in their original order.

use vstd::prelude::*;
use vstd::utf8::encode_utf8;
use crate::event_time::TimestampValue;
use crate::record::{Entry, Forward, Record, Value};
use crate::msgpack::{
    be16,
    be32,
    be64,
    enc_arrhead,
    enc_entries,
    enc_forward,
    enc_int,
    enc_maphead,
    enc_pairs,
    enc_record,
    enc_str,
    enc_time,
    enc_value,
    forward_encodable,
    record_encodable,
    str_encodable,
    value_encodable,
};

verus! {

/// A decoded payload value: strings appear as their UTF-8 bytes.
#[verifier::ext_equal]
pub enum WireValue {
    Null,
    Boolean(bool),
    Integer(i64),
    Text(Seq<u8>),
    Object(Seq<(Seq<u8>, Seq<u8>)>),
}

/// A decoded single record.
#[verifier::ext_equal]
pub struct WireRecord {
    pub tag: Seq<u8>,
    pub time: TimestampValue,
    pub data: WireValue,
}

/// A decoded batch.
#[verifier::ext_equal]
pub struct WireForward {
    pub tag: Seq<u8>,
    pub entries: Seq<(TimestampValue, WireValue)>,
    pub options: Option<Seq<(Seq<u8>, Seq<u8>)>>,
}

/// What a payload value denotes on the wire.
pub open spec fn wire_of_value(v: Value) -> WireValue {
    match v {
        Value::Null => WireValue::Null,
        Value::Boolean(b) => WireValue::Boolean(b),
        Value::Integer(i) => WireValue::Integer(i),
        Value::Text(s) => WireValue::Text(encode_utf8(s@)),
        Value::Object(ps) => WireValue::Object(wire_of_pairs(ps@)),
    }
}

/// What a map's pairs denote on the wire, in order.
pub open spec fn wire_of_pairs(ps: Seq<(String, String)>) -> Seq<(Seq<u8>, Seq<u8>)> {
    ps.map_values(|p: (String, String)| (encode_utf8(p.0@), encode_utf8(p.1@)))
}

/// What a record denotes on the wire.
pub open spec fn wire_of_record(r: Record) -> WireRecord {
    WireRecord { tag: encode_utf8(r.tag@), time: r.time, data: wire_of_value(r.data) }
}

/// What a batch's entries denote on the wire, in order.
pub open spec fn wire_of_entries(es: Seq<Entry>) -> Seq<(TimestampValue, WireValue)> {
    es.map_values(|e: Entry| (e.0, wire_of_value(e.1)))
}

/// What a batch denotes on the wire.
pub open spec fn wire_of_forward(f: Forward) -> WireForward {
    WireForward {
        tag: encode_utf8(f.tag@),
        entries: wire_of_entries(f.entries@),
        options: match f.options {
            None => None,
            Some(opts) => Some(wire_of_pairs(opts@)),
        },
    }
}

/// Two bytes read big-endian.
pub open spec fn rd16(s: Seq<u8>, p: int) -> int {
    s[p] * 0x100 + s[p + 1]
}

/// Four bytes read big-endian.
pub open spec fn rd32(s: Seq<u8>, p: int) -> int {
    s[p] * 0x100_0000 + s[p + 1] * 0x1_0000 + s[p + 2] * 0x100 + s[p + 3]
}

/// Eight bytes read big-endian.
pub open spec fn rd64(s: Seq<u8>, p: int) -> int {
    rd32(s, p) * 0x1_0000_0000 + rd32(s, p + 4)
}

/// Decode an integer from the front of `s`: the value and the bytes consumed.
pub open spec fn dec_int(s: Seq<u8>) -> Option<(i64, int)> {
    if s.len() < 1 {
        None
    } else {
        let h = s[0];
        if h < 0x80 {
            Some((h as i64, 1))
        } else if h >= 0xe0 {
            Some(((h - 0x100) as i64, 1))
        } else if h == 0xcc {
            if s.len() >= 2 {
                Some((s[1] as i64, 2))
            } else {
                None
            }
        } else if h == 0xcd {
            if s.len() >= 3 {
                Some((rd16(s, 1) as i64, 3))
            } else {
                None
            }
        } else if h == 0xce {
            if s.len() >= 5 {
                Some((rd32(s, 1) as i64, 5))
            } else {
                None
            }
        } else if h == 0xcf {
            if s.len() >= 9 && rd64(s, 1) <= i64::MAX {
                Some((rd64(s, 1) as i64, 9))
            } else {
                None
            }
        } else if h == 0xd0 {
            if s.len() >= 2 {
                Some((if s[1] >= 0x80 {
                    (s[1] - 0x100) as i64
                } else {
                    s[1] as i64
                }, 2))
            } else {
                None
            }
        } else if h == 0xd1 {
            if s.len() >= 3 {
                Some((if rd16(s, 1) >= 0x8000 {
                    (rd16(s, 1) - 0x1_0000) as i64
                } else {
                    rd16(s, 1) as i64
                }, 3))
            } else {
                None
            }
        } else if h == 0xd2 {
            if s.len() >= 5 {
                Some((if rd32(s, 1) >= 0x8000_0000 {
                    (rd32(s, 1) - 0x1_0000_0000) as i64
                } else {
                    rd32(s, 1) as i64
                }, 5))
            } else {
                None
            }
        } else if h == 0xd3 {
            if s.len() >= 9 {
                Some((if rd64(s, 1) >= 0x8000_0000_0000_0000 {
                    (rd64(s, 1) - 0x1_0000_0000_0000_0000) as i64
                } else {
                    rd64(s, 1) as i64
                }, 9))
            } else {
                None
            }
        } else {
            None
        }
    }
}

/// Decode a string from the front of `s`: its bytes and the bytes consumed.
pub open spec fn dec_str(s: Seq<u8>) -> Option<(Seq<u8>, int)> {
    if s.len() < 1 {
        None
    } else {
        let h = s[0];
        if 0xa0 <= h < 0xc0 {
            let n = h - 0xa0;
            if s.len() >= 1 + n {
                Some((s.subrange(1, 1 + n), 1 + n))
            } else {
                None
            }
        } else if h == 0xd9 {
            if s.len() >= 2 && s.len() >= 2 + s[1] {
                Some((s.subrange(2, 2 + s[1]), 2 + s[1]))
            } else {
                None
            }
        } else if h == 0xda {
            if s.len() >= 3 && s.len() >= 3 + rd16(s, 1) {
                Some((s.subrange(3, 3 + rd16(s, 1)), 3 + rd16(s, 1)))
            } else {
                None
            }
        } else if h == 0xdb {
            if s.len() >= 5 && s.len() >= 5 + rd32(s, 1) {
                Some((s.subrange(5, 5 + rd32(s, 1)), 5 + rd32(s, 1)))
            } else {
                None
            }
        } else {
            None
        }
    }
}

/// Decode a timestamp: the fixed extension value of type code 0, or a plain
/// integer.
pub open spec fn dec_time(s: Seq<u8>) -> Option<(TimestampValue, int)> {
    if s.len() < 1 {
        None
    } else if s[0] == 0xd7 {
        if s.len() >= 10 && s[1] == 0x00 {
            Some(
                (
                    TimestampValue::Structured {
                        seconds: rd32(s, 2) as u32,
                        nanoseconds: rd32(s, 6) as u32,
                    },
                    10,
                ),
            )
        } else {
            None
        }
    } else {
        match dec_int(s) {
            None => None,
            Some((v, c)) => Some((TimestampValue::Integer(v), c)),
        }
    }
}

/// Decode `n` key-value pairs from the front of `s`.
pub open spec fn dec_pairs(s: Seq<u8>, n: nat) -> Option<(Seq<(Seq<u8>, Seq<u8>)>, int)>
    decreases n,
{
    if n == 0 {
        Some((Seq::empty(), 0))
    } else {
        match dec_str(s) {
            None => None,
            Some((k, ck)) => match dec_str(s.skip(ck)) {
                None => None,
                Some((w, cw)) => match dec_pairs(s.skip(ck + cw), (n - 1) as nat) {
                    None => None,
                    Some((tail, ct)) => Some((seq![(k, w)] + tail, ck + cw + ct)),
                },
            },
        }
    }
}

/// Decode a payload value from the front of `s`.
pub open spec fn dec_value(s: Seq<u8>) -> Option<(WireValue, int)> {
    if s.len() < 1 {
        None
    } else {
        let h = s[0];
        if h == 0xc0 {
            Some((WireValue::Null, 1))
        } else if h == 0xc2 {
            Some((WireValue::Boolean(false), 1))
        } else if h == 0xc3 {
            Some((WireValue::Boolean(true), 1))
        } else if 0x80 <= h < 0x90 {
            match dec_pairs(s.skip(1), (h - 0x80) as nat) {
                None => None,
                Some((ps, c)) => Some((WireValue::Object(ps), 1 + c)),
            }
        } else if h == 0xde {
            if s.len() >= 3 {
                match dec_pairs(s.skip(3), rd16(s, 1) as nat) {
                    None => None,
                    Some((ps, c)) => Some((WireValue::Object(ps), 3 + c)),
                }
            } else {
                None
            }
        } else if h == 0xdf {
            if s.len() >= 5 {
                match dec_pairs(s.skip(5), rd32(s, 1) as nat) {
                    None => None,
                    Some((ps, c)) => Some((WireValue::Object(ps), 5 + c)),
                }
            } else {
                None
            }
        } else if 0xa0 <= h < 0xc0 || h == 0xd9 || h == 0xda || h == 0xdb {
            match dec_str(s) {
                None => None,
                Some((b, c)) => Some((WireValue::Text(b), c)),
            }
        } else {
            match dec_int(s) {
                None => None,
                Some((v, c)) => Some((WireValue::Integer(v), c)),
            }
        }
    }
}

/// Decode a whole single record: the array-of-3 `[tag, time, data]`,
/// consuming the input exactly.
pub open spec fn dec_record(s: Seq<u8>) -> Option<WireRecord> {
    if s.len() < 1 || s[0] != 0x93 {
        None
    } else {
        let r1 = s.skip(1);
        match dec_str(r1) {
            None => None,
            Some((tag, c1)) => match dec_time(r1.skip(c1)) {
                None => None,
                Some((t, c2)) => match dec_value(r1.skip(c1 + c2)) {
                    None => None,
                    Some((d, c3)) => if 1 + c1 + c2 + c3 == s.len() {
                        Some(WireRecord { tag, time: t, data: d })
                    } else {
                        None
                    },
                },
            },
        }
    }
}

/// Decode `n` batch entries, each the array-of-2 `[time, data]`.
pub open spec fn dec_entries(s: Seq<u8>, n: nat) -> Option<
    (Seq<(TimestampValue, WireValue)>, int),
>
    decreases n,
{
    if n == 0 {
        Some((Seq::empty(), 0))
    } else if s.len() < 1 || s[0] != 0x92 {
        None
    } else {
        match dec_time(s.skip(1)) {
            None => None,
            Some((t, ct)) => match dec_value(s.skip(1 + ct)) {
                None => None,
                Some((d, cd)) => match dec_entries(s.skip(1 + ct + cd), (n - 1) as nat) {
                    None => None,
                    Some((tail, cr)) => Some((seq![(t, d)] + tail, 1 + ct + cd + cr)),
                },
            },
        }
    }
}

/// Decode an array header: element count and bytes consumed.
pub open spec fn dec_arrhead(s: Seq<u8>) -> Option<(int, int)> {
    if s.len() < 1 {
        None
    } else {
        let h = s[0];
        if 0x90 <= h < 0xa0 {
            Some(((h - 0x90) as int, 1))
        } else if h == 0xdc {
            if s.len() >= 3 {
                Some((rd16(s, 1), 3))
            } else {
                None
            }
        } else if h == 0xdd {
            if s.len() >= 5 {
                Some((rd32(s, 1), 5))
            } else {
                None
            }
        } else {
            None
        }
    }
}

/// Decode a map header: pair count and bytes consumed.
pub open spec fn dec_maphead(s: Seq<u8>) -> Option<(int, int)> {
    if s.len() < 1 {
        None
    } else {
        let h = s[0];
        if 0x80 <= h < 0x90 {
            Some(((h - 0x80) as int, 1))
        } else if h == 0xde {
            if s.len() >= 3 {
                Some((rd16(s, 1), 3))
            } else {
                None
            }
        } else if h == 0xdf {
            if s.len() >= 5 {
                Some((rd32(s, 1), 5))
            } else {
                None
            }
        } else {
            None
        }
    }
}

/// Decode a whole batch: `[tag, entries]` or `[tag, entries, options]`,
/// consuming the input exactly.
pub open spec fn dec_forward(s: Seq<u8>) -> Option<WireForward> {
    if s.len() < 1 || !(s[0] == 0x92 || s[0] == 0x93) {
        None
    } else {
        let has_options = s[0] == 0x93;
        let r1 = s.skip(1);
        match dec_str(r1) {
            None => None,
            Some((tag, c1)) => match dec_arrhead(r1.skip(c1)) {
                None => None,
                Some((n, c2)) => match dec_entries(r1.skip(c1 + c2), n as nat) {
                    None => None,
                    Some((es, c3)) => if !has_options {
                        if 1 + c1 + c2 + c3 == s.len() {
                            Some(WireForward { tag, entries: es, options: None })
                        } else {
                            None
                        }
                    } else {
                        match dec_maphead(r1.skip(c1 + c2 + c3)) {
                            None => None,
                            Some((m, c4)) => match dec_pairs(
                                r1.skip(c1 + c2 + c3 + c4),
                                m as nat,
                            ) {
                                None => None,
                                Some((opts, c5)) => if 1 + c1 + c2 + c3 + c4 + c5 == s.len() {
                                    Some(
                                        WireForward { tag, entries: es, options: Some(opts) },
                                    )
                                } else {
                                    None
                                },
                            },
                        }
                    },
                },
            },
        }
    }
}

proof fn lemma_rd16_be16(n: u16, s: Seq<u8>, p: int)
    requires
        0 <= p,
        p + 2 <= s.len(),
        s.subrange(p, p + 2) == be16(n),
    ensures
        rd16(s, p) == n,
{
    assert(s[p] == be16(n)[0] && s[p + 1] == be16(n)[1]);
    vstd::arithmetic::div_mod::lemma_fundamental_div_mod(n as int, 0x100);
}

proof fn lemma_rd32_be32(n: u32, s: Seq<u8>, p: int)
    requires
        0 <= p,
        p + 4 <= s.len(),
        s.subrange(p, p + 4) == be32(n),
    ensures
        rd32(s, p) == n,
{
    assert(s[p] == be32(n)[0] && s[p + 1] == be32(n)[1] && s[p + 2] == be32(n)[2] && s[p + 3]
        == be32(n)[3]);
    let a = n as int;
    vstd::arithmetic::div_mod::lemma_fundamental_div_mod(a, 0x100);
    vstd::arithmetic::div_mod::lemma_fundamental_div_mod(a / 0x100, 0x100);
    vstd::arithmetic::div_mod::lemma_div_denominator(a, 0x100, 0x100);
    vstd::arithmetic::div_mod::lemma_fundamental_div_mod(a / 0x1_0000, 0x100);
    vstd::arithmetic::div_mod::lemma_div_denominator(a, 0x1_0000, 0x100);
    vstd::arithmetic::div_mod::lemma_div_is_ordered(a, 0xffff_ffff, 0x100_0000);
    assert(a / 0x100_0000 < 0x100);
    assert(a / 0x100_0000 >= 0) by {
        vstd::arithmetic::div_mod::lemma_div_is_ordered(0, a, 0x100_0000);
    }
}

proof fn lemma_rd64_be64(n: u64, s: Seq<u8>, p: int)
    requires
        0 <= p,
        p + 8 <= s.len(),
        s.subrange(p, p + 8) == be64(n),
    ensures
        rd64(s, p) == n,
{
    let hi = (n / 0x1_0000_0000) as u32;
    let lo = (n % 0x1_0000_0000) as u32;
    assert(n / 0x1_0000_0000 < 0x1_0000_0000) by {
        vstd::arithmetic::div_mod::lemma_div_is_ordered(
            n as int,
            0xffff_ffff_ffff_ffff,
            0x1_0000_0000,
        );
    }
    let whole = s.subrange(p, p + 8);
    assert(whole == be32(hi) + be32(lo));
    assert(s.subrange(p, p + 4) =~= whole.subrange(0, 4));
    assert(s.subrange(p + 4, p + 8) =~= whole.subrange(4, 8));
    assert(whole.subrange(0, 4) =~= be32(hi));
    assert(whole.subrange(4, 8) =~= be32(lo));
    lemma_rd32_be32(hi, s, p);
    lemma_rd32_be32(lo, s, p + 4);
    vstd::arithmetic::div_mod::lemma_fundamental_div_mod(n as int, 0x1_0000_0000);
}

/// Decoding an encoded integer yields it back, whatever follows it.
pub proof fn lemma_dec_int(v: i64, rest: Seq<u8>)
    ensures
        dec_int(enc_int(v) + rest) == Some((v, enc_int(v).len() as int)),
{
    let e = enc_int(v);
    let s = e + rest;
    if v >= 0 {
        if v < 0x80 {
        } else if v <= 0xff {
        } else if v <= 0xffff {
            assert(s.subrange(1, 3) =~= be16(v as u16));
            lemma_rd16_be16(v as u16, s, 1);
        } else if v <= 0xffff_ffff {
            assert(s.subrange(1, 5) =~= be32(v as u32));
            lemma_rd32_be32(v as u32, s, 1);
        } else {
            assert(s.subrange(1, 9) =~= be64(v as u64));
            lemma_rd64_be64(v as u64, s, 1);
        }
    } else {
        if v >= -32 {
        } else if v >= -0x80 {
        } else if v >= -0x8000 {
            assert(s.subrange(1, 3) =~= be16((v + 0x1_0000) as u16));
            lemma_rd16_be16((v + 0x1_0000) as u16, s, 1);
        } else if v >= -0x8000_0000 {
            assert(s.subrange(1, 5) =~= be32((v + 0x1_0000_0000) as u32));
            lemma_rd32_be32((v + 0x1_0000_0000) as u32, s, 1);
        } else {
            assert(s.subrange(1, 9) =~= be64((v + 0x1_0000_0000_0000_0000) as u64));
            lemma_rd64_be64((v + 0x1_0000_0000_0000_0000) as u64, s, 1);
        }
    }
}

/// Decoding an encoded string yields its UTF-8 bytes back, whatever follows.
pub proof fn lemma_dec_str(t: Seq<char>, rest: Seq<u8>)
    requires
        str_encodable(t),
    ensures
        dec_str(enc_str(t) + rest) == Some((encode_utf8(t), enc_str(t).len() as int)),
{
    let b = encode_utf8(t);
    let n = b.len() as int;
    let e = enc_str(t);
    let s = e + rest;
    if n < 32 {
        assert(s.subrange(1, 1 + n) =~= b);
    } else if n <= 0xff {
        assert(s.subrange(2, 2 + n) =~= b);
    } else if n <= 0xffff {
        assert(s.subrange(1, 3) =~= be16(n as u16));
        lemma_rd16_be16(n as u16, s, 1);
        assert(s.subrange(3, 3 + n) =~= b);
    } else {
        assert(s.subrange(1, 5) =~= be32(n as u32));
        lemma_rd32_be32(n as u32, s, 1);
        assert(s.subrange(5, 5 + n) =~= b);
    }
}

/// Decoding an encoded timestamp yields it back exactly — in particular a
/// structured timestamp's seconds and nanoseconds round-trip bit for bit.
pub proof fn lemma_dec_time(t: TimestampValue, rest: Seq<u8>)
    ensures
        dec_time(enc_time(t) + rest) == Some((t, enc_time(t).len() as int)),
{
    let e = enc_time(t);
    let s = e + rest;
    match t {
        TimestampValue::Integer(v) => {
            assert(s[0] != 0xd7);
            lemma_dec_int(v, rest);
        },
        TimestampValue::Structured { seconds, nanoseconds } => {
            assert(s.subrange(2, 6) =~= be32(seconds));
            assert(s.subrange(6, 10) =~= be32(nanoseconds));
            lemma_rd32_be32(seconds, s, 2);
            lemma_rd32_be32(nanoseconds, s, 6);
        },
    }
}

/// Decoding an encoded run of map pairs yields each key and value as its
/// UTF-8 bytes, in the original order, whatever follows.
pub proof fn lemma_dec_pairs(ps: Seq<(String, String)>, rest: Seq<u8>)
    requires
        forall|i: int|
            0 <= i < ps.len() ==> str_encodable(#[trigger] ps[i].0@) && str_encodable(ps[i].1@),
    ensures
        dec_pairs(enc_pairs(ps) + rest, ps.len()) == Some(
            (wire_of_pairs(ps), enc_pairs(ps).len() as int),
        ),
    decreases ps.len(),
{
    let s = enc_pairs(ps) + rest;
    if ps.len() == 0 {
        assert(wire_of_pairs(ps) =~= Seq::<(Seq<u8>, Seq<u8>)>::empty());
    } else {
        let k = ps[0].0@;
        let w = ps[0].1@;
        let tail = ps.drop_first();
        let rest1 = enc_str(w) + enc_pairs(tail) + rest;
        assert(s =~= enc_str(k) + rest1);
        lemma_dec_str(k, rest1);
        let c1 = enc_str(k).len() as int;
        assert(s.skip(c1) =~= enc_str(w) + (enc_pairs(tail) + rest));
        lemma_dec_str(w, enc_pairs(tail) + rest);
        let c2 = enc_str(w).len() as int;
        assert(s.skip(c1 + c2) =~= enc_pairs(tail) + rest);
        assert(forall|i: int|
            0 <= i < tail.len() ==> str_encodable(#[trigger] tail[i].0@) && str_encodable(
                tail[i].1@,
            )) by {
            assert(forall|i: int| 0 <= i < tail.len() ==> tail[i] == ps[i + 1]);
        }
        lemma_dec_pairs(tail, rest);
        assert(wire_of_pairs(ps) =~= seq![(encode_utf8(k), encode_utf8(w))] + wire_of_pairs(tail));
    }
}

/// Decoding an encoded payload value yields its wire denotation, whatever
/// follows.
#[verifier::rlimit(80)]
pub proof fn lemma_dec_value(v: Value, rest: Seq<u8>)
    requires
        value_encodable(v),
    ensures
        dec_value(enc_value(v) + rest) == Some((wire_of_value(v), enc_value(v).len() as int)),
{
    let e = enc_value(v);
    let s = e + rest;
    match v {
        Value::Null => {},
        Value::Boolean(_) => {},
        Value::Integer(i) => {
            lemma_dec_int(i, rest);
            assert(s[0] == enc_int(i)[0]);
        },
        Value::Text(t) => {
            lemma_dec_str(t@, rest);
        },
        Value::Object(ps) => {
            let n = ps@.len() as int;
            if n < 16 {
                assert(s.skip(1) =~= enc_pairs(ps@) + rest);
                lemma_dec_pairs(ps@, rest);
            } else if n <= 0xffff {
                assert(s.subrange(1, 3) =~= be16(n as u16));
                lemma_rd16_be16(n as u16, s, 1);
                assert(s.skip(3) =~= enc_pairs(ps@) + rest);
                lemma_dec_pairs(ps@, rest);
            } else {
                assert(s.subrange(1, 5) =~= be32(n as u32));
                lemma_rd32_be32(n as u32, s, 1);
                assert(s.skip(5) =~= enc_pairs(ps@) + rest);
                lemma_dec_pairs(ps@, rest);
            }
        },
    }
}

proof fn lemma_dec_arrhead(n: int, s: Seq<u8>)
    requires
        0 <= n <= 0xffff_ffff,
        s.len() >= enc_arrhead(n).len(),
        s.subrange(0, enc_arrhead(n).len() as int) == enc_arrhead(n),
    ensures
        dec_arrhead(s) == Some((n, enc_arrhead(n).len() as int)),
{
    assert forall|i: int| 0 <= i < enc_arrhead(n).len() implies s[i] == enc_arrhead(n)[i] by {
        assert(s.subrange(0, enc_arrhead(n).len() as int)[i] == s[i]);
    }
    if n < 16 {
    } else if n <= 0xffff {
        assert(s.subrange(1, 3) =~= be16(n as u16));
        lemma_rd16_be16(n as u16, s, 1);
    } else {
        assert(s.subrange(1, 5) =~= be32(n as u32));
        lemma_rd32_be32(n as u32, s, 1);
    }
}

proof fn lemma_dec_maphead(n: int, s: Seq<u8>)
    requires
        0 <= n <= 0xffff_ffff,
        s.len() >= enc_maphead(n).len(),
        s.subrange(0, enc_maphead(n).len() as int) == enc_maphead(n),
    ensures
        dec_maphead(s) == Some((n, enc_maphead(n).len() as int)),
{
    assert forall|i: int| 0 <= i < enc_maphead(n).len() implies s[i] == enc_maphead(n)[i] by {
        assert(s.subrange(0, enc_maphead(n).len() as int)[i] == s[i]);
    }
    if n < 16 {
    } else if n <= 0xffff {
        assert(s.subrange(1, 3) =~= be16(n as u16));
        lemma_rd16_be16(n as u16, s, 1);
    } else {
        assert(s.subrange(1, 5) =~= be32(n as u32));
        lemma_rd32_be32(n as u32, s, 1);
    }
}

/// The single-record round trip: decoding the binary encoding of any
/// encodable record yields exactly that record's wire denotation — the tag's
/// UTF-8 bytes, the identical timestamp, and the payload's denotation.
pub proof fn lemma_round_trip_record(r: Record)
    requires
        record_encodable(r),
    ensures
        dec_record(enc_record(r)) == Some(wire_of_record(r)),
{
    let s = enc_record(r);
    let r1 = s.skip(1);
    let rest1 = enc_time(r.time) + enc_value(r.data);
    assert(r1 =~= enc_str(r.tag@) + rest1);
    lemma_dec_str(r.tag@, rest1);
    let c1 = enc_str(r.tag@).len() as int;
    assert(r1.skip(c1) =~= enc_time(r.time) + enc_value(r.data));
    lemma_dec_time(r.time, enc_value(r.data));
    let c2 = enc_time(r.time).len() as int;
    assert(r1.skip(c1 + c2) =~= enc_value(r.data) + Seq::<u8>::empty());
    lemma_dec_value(r.data, Seq::<u8>::empty());
    assert(enc_value(r.data) + Seq::<u8>::empty() =~= enc_value(r.data));
    let c3 = enc_value(r.data).len() as int;
    assert(1 + c1 + c2 + c3 == s.len());
}

/// Decoding an encoded run of batch entries yields their wire denotations in
/// the original order, whatever follows.
#[verifier::rlimit(80)]
pub proof fn lemma_dec_entries(es: Seq<Entry>, rest: Seq<u8>)
    requires
        forall|i: int| 0 <= i < es.len() ==> value_encodable(#[trigger] es[i].1),
    ensures
        dec_entries(enc_entries(es) + rest, es.len()) == Some(
            (wire_of_entries(es), enc_entries(es).len() as int),
        ),
    decreases es.len(),
{
    let s = enc_entries(es) + rest;
    if es.len() == 0 {
        assert(wire_of_entries(es) =~= Seq::<(TimestampValue, WireValue)>::empty());
    } else {
        let t = es[0].0;
        let d = es[0].1;
        let tail = es.drop_first();
        assert(s[0] == 0x92);
        assert(s.skip(1) =~= enc_time(t) + (enc_value(d) + (enc_entries(tail) + rest)));
        lemma_dec_time(t, enc_value(d) + (enc_entries(tail) + rest));
        let ct = enc_time(t).len() as int;
        assert(s.skip(1 + ct) =~= enc_value(d) + (enc_entries(tail) + rest));
        lemma_dec_value(d, enc_entries(tail) + rest);
        let cd = enc_value(d).len() as int;
        assert(s.skip(1 + ct + cd) =~= enc_entries(tail) + rest);
        assert(forall|i: int| 0 <= i < tail.len() ==> value_encodable(#[trigger] tail[i].1)) by {
            assert(forall|i: int| 0 <= i < tail.len() ==> tail[i] == es[i + 1]);
        }
        lemma_dec_entries(tail, rest);
        assert(wire_of_entries(es) =~= seq![(t, wire_of_value(d))] + wire_of_entries(tail));
    }
}

/// The batch round trip: decoding the binary encoding of any encodable batch
/// yields exactly its wire denotation — in particular the entries sequence in
/// its original order, and the options map when present.
#[verifier::rlimit(100)]
pub proof fn lemma_round_trip_forward(f: Forward)
    requires
        forward_encodable(f),
    ensures
        dec_forward(enc_forward(f)) == Some(wire_of_forward(f)),
{
    let s = enc_forward(f);
    let r1 = s.skip(1);
    let n = f.entries@.len() as int;
    let opts_part: Seq<u8> = match f.options {
        None => Seq::empty(),
        Some(opts) => enc_maphead(opts@.len() as int) + enc_pairs(opts@),
    };
    let rest1 = enc_arrhead(n) + enc_entries(f.entries@) + opts_part;
    assert(r1 =~= enc_str(f.tag@) + rest1);
    lemma_dec_str(f.tag@, rest1);
    let c1 = enc_str(f.tag@).len() as int;
    let s2 = r1.skip(c1);
    assert(s2 =~= enc_arrhead(n) + (enc_entries(f.entries@) + opts_part));
    let ch = enc_arrhead(n).len() as int;
    assert(s2.subrange(0, ch) =~= enc_arrhead(n));
    lemma_dec_arrhead(n, s2);
    assert(r1.skip(c1 + ch) =~= enc_entries(f.entries@) + opts_part);
    lemma_dec_entries(f.entries@, opts_part);
    let c3 = enc_entries(f.entries@).len() as int;
    match f.options {
        None => {
            assert(1 + c1 + ch + c3 == s.len());
        },
        Some(opts) => {
            let m = opts@.len() as int;
            let s3 = r1.skip(c1 + ch + c3);
            assert(s3 =~= enc_maphead(m) + enc_pairs(opts@));
            let cm = enc_maphead(m).len() as int;
            assert(s3.subrange(0, cm) =~= enc_maphead(m));
            lemma_dec_maphead(m, s3);
            assert(r1.skip(c1 + ch + c3 + cm) =~= enc_pairs(opts@) + Seq::<u8>::empty());
            assert(enc_pairs(opts@) + Seq::<u8>::empty() =~= enc_pairs(opts@));
            lemma_dec_pairs(opts@, Seq::<u8>::empty());
            let c5 = enc_pairs(opts@).len() as int;
            assert(1 + c1 + ch + c3 + cm + c5 == s.len());
        },
    }
}

} // verus!
