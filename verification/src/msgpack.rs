//! The compact binary wire encoding: a self-describing format in which a
//! single record travels as the array-of-3 `[tag, time, data]` and a batch as
//! `[tag, entries]` (with an optional trailing options map). Integers are
//! written in their shortest form; structured time is a fixed-width extension
//! value of type code 0 holding big-endian seconds and nanoseconds.

use vstd::prelude::*;
use vstd::utf8::encode_utf8;
use crate::error::FluentError;
use crate::event_time::TimestampValue;
use crate::record::{Entry, Forward, Record, Value};

verus! {

/// The two bytes of a 16-bit big-endian integer.
pub open spec fn be16(n: u16) -> Seq<u8> {
    seq![(n / 0x100) as u8, (n % 0x100) as u8]
}

/// The four bytes of a 32-bit big-endian integer.
pub open spec fn be32(n: u32) -> Seq<u8> {
    seq![
        (n / 0x100_0000) as u8,
        ((n / 0x1_0000) % 0x100) as u8,
        ((n / 0x100) % 0x100) as u8,
        (n % 0x100) as u8,
    ]
}

/// The eight bytes of a 64-bit big-endian integer.
pub open spec fn be64(n: u64) -> Seq<u8> {
    be32((n / 0x1_0000_0000) as u32) + be32((n % 0x1_0000_0000) as u32)
}

/// The shortest binary form of a signed 64-bit integer: a one-byte fixed
/// integer when it fits, otherwise a marker byte followed by the smallest
/// big-endian body that holds the value (two's complement for negatives).
pub open spec fn enc_int(v: i64) -> Seq<u8> {
    if v >= 0 {
        if v < 0x80 {
            seq![v as u8]
        } else if v <= 0xff {
            seq![0xccu8, v as u8]
        } else if v <= 0xffff {
            seq![0xcdu8] + be16(v as u16)
        } else if v <= 0xffff_ffff {
            seq![0xceu8] + be32(v as u32)
        } else {
            seq![0xcfu8] + be64(v as u64)
        }
    } else {
        if v >= -32 {
            seq![(v + 0x100) as u8]
        } else if v >= -0x80 {
            seq![0xd0u8, (v + 0x100) as u8]
        } else if v >= -0x8000 {
            seq![0xd1u8] + be16((v + 0x1_0000) as u16)
        } else if v >= -0x8000_0000 {
            seq![0xd2u8] + be32((v + 0x1_0000_0000) as u32)
        } else {
            seq![0xd3u8] + be64((v + 0x1_0000_0000_0000_0000) as u64)
        }
    }
}

/// The header announcing a string of `n` bytes.
pub open spec fn enc_strhead(n: int) -> Seq<u8> {
    if n < 32 {
        seq![(0xa0 + n) as u8]
    } else if n <= 0xff {
        seq![0xd9u8, n as u8]
    } else if n <= 0xffff {
        seq![0xdau8] + be16(n as u16)
    } else {
        seq![0xdbu8] + be32(n as u32)
    }
}

/// A string value: header plus UTF-8 bytes.
pub open spec fn enc_str(s: Seq<char>) -> Seq<u8> {
    enc_strhead(encode_utf8(s).len() as int) + encode_utf8(s)
}

/// The header announcing a map of `n` key-value pairs.
pub open spec fn enc_maphead(n: int) -> Seq<u8> {
    if n < 16 {
        seq![(0x80 + n) as u8]
    } else if n <= 0xffff {
        seq![0xdeu8] + be16(n as u16)
    } else {
        seq![0xdfu8] + be32(n as u32)
    }
}

/// The header announcing an array of `n` elements.
pub open spec fn enc_arrhead(n: int) -> Seq<u8> {
    if n < 16 {
        seq![(0x90 + n) as u8]
    } else if n <= 0xffff {
        seq![0xdcu8] + be16(n as u16)
    } else {
        seq![0xddu8] + be32(n as u32)
    }
}

/// The bodies of a map's pairs, each key before its value, in order.
pub open spec fn enc_pairs(ps: Seq<(String, String)>) -> Seq<u8>
    decreases ps.len(),
{
    if ps.len() == 0 {
        Seq::empty()
    } else {
        enc_str(ps[0].0@) + enc_str(ps[0].1@) + enc_pairs(ps.drop_first())
    }
}

/// A payload value on the wire.
pub open spec fn enc_value(v: Value) -> Seq<u8> {
    match v {
        Value::Null => seq![0xc0u8],
        Value::Boolean(b) => if b {
            seq![0xc3u8]
        } else {
            seq![0xc2u8]
        },
        Value::Integer(i) => enc_int(i),
        Value::Text(s) => enc_str(s@),
        Value::Object(ps) => enc_maphead(ps@.len() as int) + enc_pairs(ps@),
    }
}

/// A timestamp on the wire: a plain integer, or the fixed 8-byte extension
/// value of type code 0 carrying big-endian seconds then nanoseconds.
pub open spec fn enc_time(t: TimestampValue) -> Seq<u8> {
    match t {
        TimestampValue::Integer(v) => enc_int(v),
        TimestampValue::Structured { seconds, nanoseconds } => seq![0xd7u8, 0x00u8] + be32(seconds)
            + be32(nanoseconds),
    }
}

/// A single record on the wire: the array-of-3 `[tag, time, data]`.
pub open spec fn enc_record(r: Record) -> Seq<u8> {
    seq![0x93u8] + enc_str(r.tag@) + enc_time(r.time) + enc_value(r.data)
}

/// The entries of a batch, each the array-of-2 `[time, data]`, in order.
pub open spec fn enc_entries(es: Seq<Entry>) -> Seq<u8>
    decreases es.len(),
{
    if es.len() == 0 {
        Seq::empty()
    } else {
        seq![0x92u8] + enc_time(es[0].0) + enc_value(es[0].1) + enc_entries(es.drop_first())
    }
}

/// A batch on the wire: `[tag, entries]`, or `[tag, entries, options]` when
/// trailing metadata is present.
pub open spec fn enc_forward(f: Forward) -> Seq<u8> {
    match f.options {
        None => seq![0x92u8] + enc_str(f.tag@) + enc_arrhead(f.entries@.len() as int) + enc_entries(
            f.entries@,
        ),
        Some(opts) => seq![0x93u8] + enc_str(f.tag@) + enc_arrhead(f.entries@.len() as int)
            + enc_entries(f.entries@) + enc_maphead(opts@.len() as int) + enc_pairs(opts@),
    }
}

/// A string fits on the wire when its UTF-8 form fits the widest header.
pub open spec fn str_encodable(s: Seq<char>) -> bool {
    encode_utf8(s).len() <= 0xffff_ffff
}

/// A map fits when its pair count and every string fit.
pub open spec fn pairs_encodable(ps: Seq<(String, String)>) -> bool {
    &&& ps.len() <= 0xffff_ffff
    &&& forall|i: int|
        0 <= i < ps.len() ==> str_encodable(#[trigger] ps[i].0@) && str_encodable(ps[i].1@)
}

/// A payload value fits when each of its strings and maps fits.
pub open spec fn value_encodable(v: Value) -> bool {
    match v {
        Value::Text(s) => str_encodable(s@),
        Value::Object(ps) => pairs_encodable(ps@),
        _ => true,
    }
}

/// A record fits when its tag and payload fit.
pub open spec fn record_encodable(r: Record) -> bool {
    str_encodable(r.tag@) && value_encodable(r.data)
}

/// A batch's entries fit when their count and every payload fit.
pub open spec fn entries_encodable(es: Seq<Entry>) -> bool {
    &&& es.len() <= 0xffff_ffff
    &&& forall|i: int| 0 <= i < es.len() ==> value_encodable(#[trigger] es[i].1)
}

/// A batch fits when its tag, entries and options fit.
pub open spec fn forward_encodable(f: Forward) -> bool {
    &&& str_encodable(f.tag@)
    &&& entries_encodable(f.entries@)
    &&& match f.options {
        Some(opts) => pairs_encodable(opts@),
        None => true,
    }
}

/// Appending one pair extends the encoding of a pair sequence at its end.
pub proof fn lemma_enc_pairs_snoc(ps: Seq<(String, String)>, p: (String, String))
    ensures
        enc_pairs(ps.push(p)) == enc_pairs(ps) + enc_str(p.0@) + enc_str(p.1@),
    decreases ps.len(),
{
    if ps.len() == 0 {
        reveal_with_fuel(enc_pairs, 2);
        assert(ps.push(p)[0] == p);
        assert(ps.push(p).drop_first() =~= Seq::empty());
        assert(enc_pairs(ps.push(p)) =~= enc_pairs(ps) + enc_str(p.0@) + enc_str(p.1@));
    } else {
        assert(ps.push(p).drop_first() =~= ps.drop_first().push(p));
        lemma_enc_pairs_snoc(ps.drop_first(), p);
        assert(ps.push(p)[0] == ps[0]);
        assert(enc_pairs(ps.push(p)) =~= enc_pairs(ps) + enc_str(p.0@) + enc_str(p.1@));
    }
}

/// Appending one entry extends the encoding of an entry sequence at its end.
pub proof fn lemma_enc_entries_snoc(es: Seq<Entry>, e: Entry)
    ensures
        enc_entries(es.push(e)) == enc_entries(es) + seq![0x92u8] + enc_time(e.0) + enc_value(e.1),
    decreases es.len(),
{
    if es.len() == 0 {
        reveal_with_fuel(enc_entries, 2);
        assert(es.push(e)[0] == e);
        assert(es.push(e).drop_first() =~= Seq::empty());
        assert(enc_entries(es.push(e)) =~= enc_entries(es) + seq![0x92u8] + enc_time(e.0)
            + enc_value(e.1));
    } else {
        assert(es.push(e).drop_first() =~= es.drop_first().push(e));
        lemma_enc_entries_snoc(es.drop_first(), e);
        assert(es.push(e)[0] == es[0]);
        assert(enc_entries(es.push(e)) =~= enc_entries(es) + seq![0x92u8] + enc_time(e.0)
            + enc_value(e.1));
    }
}

fn emit_be16(out: &mut Vec<u8>, n: u16)
    ensures
        final(out)@ == old(out)@ + be16(n),
{
    out.push((n / 0x100) as u8);
    out.push((n % 0x100) as u8);
    assert(out@ =~= old(out)@ + be16(n));
}

fn emit_be32(out: &mut Vec<u8>, n: u32)
    ensures
        final(out)@ == old(out)@ + be32(n),
{
    out.push((n / 0x100_0000) as u8);
    out.push(((n / 0x1_0000) % 0x100) as u8);
    out.push(((n / 0x100) % 0x100) as u8);
    out.push((n % 0x100) as u8);
    assert(out@ =~= old(out)@ + be32(n));
}

fn emit_be64(out: &mut Vec<u8>, n: u64)
    ensures
        final(out)@ == old(out)@ + be64(n),
{
    emit_be32(out, (n / 0x1_0000_0000) as u32);
    emit_be32(out, (n % 0x1_0000_0000) as u32);
    assert(out@ =~= old(out)@ + be64(n));
}

fn emit_int(out: &mut Vec<u8>, v: i64)
    ensures
        final(out)@ == old(out)@ + enc_int(v),
{
    if v >= 0 {
        if v < 0x80 {
            out.push(v as u8);
        } else if v <= 0xff {
            out.push(0xcc);
            out.push(v as u8);
        } else if v <= 0xffff {
            out.push(0xcd);
            emit_be16(out, v as u16);
        } else if v <= 0xffff_ffff {
            out.push(0xce);
            emit_be32(out, v as u32);
        } else {
            out.push(0xcf);
            emit_be64(out, v as u64);
        }
    } else {
        if v >= -32 {
            out.push((v + 0x100) as u8);
        } else if v >= -0x80 {
            out.push(0xd0);
            out.push((v + 0x100) as u8);
        } else if v >= -0x8000 {
            out.push(0xd1);
            emit_be16(out, (v + 0x1_0000) as u16);
        } else if v >= -0x8000_0000 {
            out.push(0xd2);
            emit_be32(out, (v + 0x1_0000_0000) as u32);
        } else {
            out.push(0xd3);
            let m: i64 = -(v + 1);
            let u: u64 = u64::MAX - (m as u64);
            assert(u == (v + 0x1_0000_0000_0000_0000) as u64);
            emit_be64(out, u);
        }
    }
    assert(out@ =~= old(out)@ + enc_int(v));
}

fn emit_str(out: &mut Vec<u8>, s: &str) -> (ok: bool)
    ensures
        ok == str_encodable(s@),
        ok ==> final(out)@ == old(out)@ + enc_str(s@),
        !ok ==> final(out)@ == old(out)@,
{
    let b = s.as_bytes();
    let n = b.len();
    if n < 32 {
        out.push((0xa0 + n) as u8);
    } else if n <= 0xff {
        out.push(0xd9);
        out.push(n as u8);
    } else if n <= 0xffff {
        out.push(0xda);
        emit_be16(out, n as u16);
    } else if n as u64 <= 0xffff_ffff {
        out.push(0xdb);
        emit_be32(out, n as u32);
    } else {
        return false;
    }
    let mut bv = vstd::slice::slice_to_vec(b);
    out.append(&mut bv);
    assert(out@ =~= old(out)@ + enc_str(s@));
    true
}

/// Write a map: header, then every pair in order.
fn emit_pairs(out: &mut Vec<u8>, ps: &Vec<(String, String)>) -> (ok: bool)
    ensures
        ok == pairs_encodable(ps@),
        ok ==> final(out)@ == old(out)@ + enc_maphead(ps@.len() as int) + enc_pairs(ps@),
{
    let n = ps.len();
    if n < 16 {
        out.push((0x80 + n) as u8);
    } else if n <= 0xffff {
        out.push(0xde);
        emit_be16(out, n as u16);
    } else if n as u64 <= 0xffff_ffff {
        out.push(0xdf);
        emit_be32(out, n as u32);
    } else {
        return false;
    }
    let ghost base = out@;
    assert(out@ =~= base + enc_pairs(ps@.subrange(0, 0)));
    let mut i: usize = 0;
    while i < n
        invariant
            n == ps@.len(),
            0 <= i <= n,
            out@ == base + enc_pairs(ps@.subrange(0, i as int)),
            forall|j: int|
                0 <= j < i ==> str_encodable(#[trigger] ps@[j].0@) && str_encodable(ps@[j].1@),
        decreases n - i,
    {
        let pair = &ps[i];
        assert(*pair == ps@[i as int]);
        if !emit_str(out, pair.0.as_str()) {
            assert(!str_encodable(ps@[i as int].0@));
            return false;
        }
        if !emit_str(out, pair.1.as_str()) {
            assert(!str_encodable(ps@[i as int].1@));
            return false;
        }
        proof {
            lemma_enc_pairs_snoc(ps@.subrange(0, i as int), ps@[i as int]);
            assert(ps@.subrange(0, i + 1) =~= ps@.subrange(0, i as int).push(ps@[i as int]));
            assert(out@ =~= base + enc_pairs(ps@.subrange(0, i + 1)));
        }
        i += 1;
    }
    assert(ps@.subrange(0, n as int) =~= ps@);
    assert(out@ =~= base + enc_pairs(ps@));
    assert(out@ =~= old(out)@ + enc_maphead(ps@.len() as int) + enc_pairs(ps@));
    assert(pairs_encodable(ps@));
    true
}

fn emit_value(out: &mut Vec<u8>, v: &Value) -> (ok: bool)
    ensures
        ok == value_encodable(*v),
        ok ==> final(out)@ == old(out)@ + enc_value(*v),
{
    match v {
        Value::Null => {
            out.push(0xc0);
            assert(out@ =~= old(out)@ + enc_value(*v));
            true
        },
        Value::Boolean(b) => {
            if *b {
                out.push(0xc3);
            } else {
                out.push(0xc2);
            }
            assert(out@ =~= old(out)@ + enc_value(*v));
            true
        },
        Value::Integer(i) => {
            emit_int(out, *i);
            true
        },
        Value::Text(s) => emit_str(out, s.as_str()),
        Value::Object(ps) => emit_pairs(out, ps),
    }
}

fn emit_time(out: &mut Vec<u8>, t: &TimestampValue)
    ensures
        final(out)@ == old(out)@ + enc_time(*t),
{
    match t {
        TimestampValue::Integer(v) => {
            emit_int(out, *v);
        },
        TimestampValue::Structured { seconds, nanoseconds } => {
            out.push(0xd7);
            out.push(0x00);
            emit_be32(out, *seconds);
            emit_be32(out, *nanoseconds);
            assert(out@ =~= old(out)@ + enc_time(*t));
        },
    }
}

/// Encode a single record as the binary array-of-3 `[tag, time, data]`.
/// Succeeds exactly when every string and map in the record fits the wire
/// format's size headers.
pub fn encode_binary_single(r: &Record) -> (res: Result<Vec<u8>, FluentError>)
    ensures
        res is Ok <==> record_encodable(*r),
        res is Ok ==> res->Ok_0@ == enc_record(*r),
        res is Err ==> res->Err_0 is EncodeFailure,
{
    let mut out: Vec<u8> = Vec::new();
    out.push(0x93);
    if !emit_str(&mut out, r.tag.as_str()) {
        return Err(encode_overflow());
    }
    emit_time(&mut out, &r.time);
    if !emit_value(&mut out, &r.data) {
        return Err(encode_overflow());
    }
    assert(out@ =~= enc_record(*r));
    Ok(out)
}

/// Encode a batch as the binary `[tag, entries]` (plus a trailing options map
/// when one is present), the entries in their given order. Succeeds exactly
/// when every part fits the wire format's size headers.
pub fn encode_binary_batch(f: &Forward) -> (res: Result<Vec<u8>, FluentError>)
    ensures
        res is Ok <==> forward_encodable(*f),
        res is Ok ==> res->Ok_0@ == enc_forward(*f),
        res is Err ==> res->Err_0 is EncodeFailure,
{
    let mut out: Vec<u8> = Vec::new();
    match &f.options {
        None => out.push(0x92),
        Some(_) => out.push(0x93),
    }
    if !emit_str(&mut out, f.tag.as_str()) {
        return Err(encode_overflow());
    }
    let n = f.entries.len();
    if n < 16 {
        out.push((0x90 + n) as u8);
    } else if n <= 0xffff {
        out.push(0xdc);
        emit_be16(&mut out, n as u16);
    } else if n as u64 <= 0xffff_ffff {
        out.push(0xdd);
        emit_be32(&mut out, n as u32);
    } else {
        return Err(encode_overflow());
    }
    let ghost base = out@;
    assert(out@ =~= base + enc_entries(f.entries@.subrange(0, 0)));
    let mut i: usize = 0;
    while i < n
        invariant
            n == f.entries@.len(),
            0 <= i <= n,
            out@ == base + enc_entries(f.entries@.subrange(0, i as int)),
            forall|j: int| 0 <= j < i ==> value_encodable(#[trigger] f.entries@[j].1),
        decreases n - i,
    {
        let entry = &f.entries[i];
        out.push(0x92);
        emit_time(&mut out, &entry.0);
        if !emit_value(&mut out, &entry.1) {
            return Err(encode_overflow());
        }
        proof {
            lemma_enc_entries_snoc(f.entries@.subrange(0, i as int), f.entries@[i as int]);
            assert(f.entries@.subrange(0, i + 1) =~= f.entries@.subrange(0, i as int).push(
                f.entries@[i as int],
            ));
            assert(out@ =~= base + enc_entries(f.entries@.subrange(0, i + 1)));
        }
        i += 1;
    }
    assert(f.entries@.subrange(0, n as int) =~= f.entries@);
    match &f.options {
        None => {
            assert(out@ =~= enc_forward(*f));
            Ok(out)
        },
        Some(opts) => {
            if !emit_pairs(&mut out, opts) {
                return Err(encode_overflow());
            }
            assert(out@ =~= enc_forward(*f));
            Ok(out)
        },
    }
}

fn encode_overflow() -> (e: FluentError)
    ensures
        e is EncodeFailure,
{
    FluentError::EncodeFailure(<String as vstd::string::StringExecFns>::from_str(
        "a string or collection exceeds the wire format's size limits",
    ))
}

} // verus!
