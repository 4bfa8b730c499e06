//! The payload encoding: unsigned integers as little-endian base-128
//! varints, signed ones zigzagged first, options as a 0/1 tag byte, strings
//! as a varint byte length followed by their UTF-8 bytes, unit enums as the
//! varint of their variant's position, and structs as their fields in
//! order with nothing between them.
use vstd::prelude::*;
use vstd::utf8::*;

use crate::api::{opt_seq, Claims, ClaimsModel, Kind, Level, Record, RecordModel, SourceProcess, SourceProcessModel, TraceId};

verus! {

pub open spec fn pow128(k: nat) -> nat
    decreases k,
{
    if k == 0 {
        1
    } else {
        128 * pow128((k - 1) as nat)
    }
}

/// The varint encoding of `x`: seven bits per byte, low bits first, the
/// high bit set on every byte but the last.
#[verifier::opaque]
pub open spec fn varint(x: nat) -> Seq<u8>
    decreases x,
{
    if x < 128 {
        seq![x as u8]
    } else {
        seq![(x % 128 + 128) as u8] + varint(x / 128)
    }
}

/// Reads a varint at the start of `s`: its value and its length. A
/// continuation chain must end in a byte other than zero, unless that byte
/// is the first: every value has exactly one accepted encoding.
#[verifier::opaque]
pub open spec fn parse_varint(s: Seq<u8>, first: bool) -> Option<(nat, nat)>
    decreases s.len(),
{
    if s.len() == 0 {
        None
    } else if s[0] < 128 {
        if !first && s[0] == 0 {
            None
        } else {
            Some((s[0] as nat, 1))
        }
    } else {
        match parse_varint(s.drop_first(), false) {
            None => None,
            Some((v, n)) => Some((((s[0] - 128) + 128 * v) as nat, n + 1)),
        }
    }
}

pub open spec fn zigzag(x: int) -> nat {
    if x >= 0 {
        (2 * x) as nat
    } else {
        (-2 * x - 1) as nat
    }
}

pub open spec fn unzigzag(u: nat) -> int {
    if u % 2 == 0 {
        (u / 2) as int
    } else {
        -((u / 2) as int) - 1
    }
}

#[verifier::opaque]
pub open spec fn enc_str(s: Seq<char>) -> Seq<u8> {
    varint(encode_utf8(s).len()) + encode_utf8(s)
}

pub open spec fn enc_opt_str(o: Option<Seq<char>>) -> Seq<u8> {
    match o {
        None => seq![0u8],
        Some(s) => seq![1u8] + enc_str(s),
    }
}

pub open spec fn enc_opt_u64(o: Option<u64>) -> Seq<u8> {
    match o {
        None => seq![0u8],
        Some(v) => seq![1u8] + varint(v as nat),
    }
}

/// What `parse_varint` reads is the encoding of what it returns.
pub proof fn lemma_parse_varint_sound(s: Seq<u8>, first: bool)
    requires
        parse_varint(s, first) is Some,
    ensures
        ({
            let (v, n) = parse_varint(s, first)->0;
            &&& 0 < n <= s.len()
            &&& s.subrange(0, n as int) == varint(v)
            &&& (!first ==> v >= 1)
        }),
    decreases s.len(),
{
    reveal(varint);
    reveal(parse_varint);
    if s[0] < 128 {
        assert(s.subrange(0, 1) =~= seq![s[0]]);
    } else {
        let t = s.drop_first();
        lemma_parse_varint_sound(t, false);
        let (w, m) = parse_varint(t, false)->0;
        let v = ((s[0] - 128) + 128 * w) as nat;
        assert(v % 128 == s[0] - 128 && v / 128 == w) by (nonlinear_arith)
            requires
                v == (s[0] - 128) + 128 * w,
                128 <= s[0] < 256,
        ;
        assert(s.subrange(0, m + 1 as int) =~= seq![s[0]] + t.subrange(0, m as int));
        assert(varint(v) == seq![(v % 128 + 128) as u8] + varint(v / 128));
    }
}

/// Reading an encoding back gives the value and the encoding's length,
/// whatever follows it.
pub proof fn lemma_parse_varint_complete(x: nat, rest: Seq<u8>, first: bool)
    requires
        first || x >= 1,
    ensures
        parse_varint(varint(x) + rest, first) == Some((x, varint(x).len())),
    decreases x,
{
    reveal(varint);
    reveal(parse_varint);
    let s = varint(x) + rest;
    if x < 128 {
        assert(s[0] == x as u8);
    } else {
        lemma_parse_varint_complete(x / 128, rest, false);
        assert(s.drop_first() =~= varint(x / 128) + rest);
        assert(s[0] == (x % 128 + 128) as u8);
    }
}

pub proof fn lemma_parse_varint_bound(s: Seq<u8>, first: bool)
    requires
        parse_varint(s, first) is Some,
    ensures
        ({
            let (v, n) = parse_varint(s, first)->0;
            !first ==> v >= pow128((n - 1) as nat)
        }),
    decreases s.len(),
{
    reveal(parse_varint);
    if s[0] >= 128 {
        let t = s.drop_first();
        lemma_parse_varint_bound(t, false);
        let (w, m) = parse_varint(t, false)->0;
        assert(pow128(m) == 128 * pow128((m - 1) as nat));
        assert((s[0] - 128) + 128 * w >= 128 * pow128((m - 1) as nat)) by (nonlinear_arith)
            requires
                w >= pow128((m - 1) as nat),
                s[0] >= 128,
        ;
    }
}

/// Appends the varint encoding of `x`.
pub fn put_varint(out: &mut Vec<u8>, x: u64)
    ensures
        final(out)@ == old(out)@ + varint(x as nat),
{
    reveal(varint);
    let mut y = x;
    while y >= 128
        invariant
            old(out)@ + varint(x as nat) == out@ + varint(y as nat),
        decreases y,
    {
        reveal(varint);
        let b = (y % 128 + 128) as u8;
        assert(varint(y as nat) == seq![b] + varint((y / 128) as nat));
        out.push(b);
        assert(old(out)@ + varint(x as nat) == out@ + varint((y / 128) as nat));
        y = y / 128;
    }
    out.push(y as u8);
    assert(varint(y as nat) == seq![y as u8]);
}

/// Reads a varint that fits in `u64` at `pos`: its value and the position
/// after it.
pub fn take_varint(buf: &[u8], pos: usize) -> (r: Option<(u64, usize)>)
    requires
        pos <= buf@.len(),
    ensures
        r matches Some((_, e)) ==> pos < e <= buf@.len(),
        same_at(r, parse_u64(suffix(buf@, pos as int)), pos as int),
{
    reveal(parse_varint);
    let ghost s0 = buf@.subrange(pos as int, buf@.len() as int);
    let mut i = pos;
    let mut acc: u128 = 0;
    let mut mult: u128 = 1;
    let mut k: usize = 0;
    loop
        invariant
            pos <= i <= buf@.len(),
            i == pos + k,
            k <= 9,
            mult == pow128(k as nat),
            acc < mult,
            mult <= 0x8000_0000_0000_0000u128,
            s0 == buf@.subrange(pos as int, buf@.len() as int),
            parse_varint(s0, true) == (match parse_varint(
                buf@.subrange(i as int, buf@.len() as int),
                k == 0,
            ) {
                Some((v, n)) => Some(((acc + mult * v) as nat, (n + k) as nat)),
                None => None,
            }),
        decreases buf@.len() - i,
    {
        reveal(parse_varint);
        let ghost s = buf@.subrange(i as int, buf@.len() as int);
        if i >= buf.len() {
            return None;
        }
        let b = buf[i];
        assert(s[0] == b);
        if b < 128 {
            if k > 0 && b == 0 {
                return None;
            }
            assert(acc + mult * b < 0x8000_0000_0000_0000_0000u128) by (nonlinear_arith)
                requires
                    acc < mult,
                    mult <= 0x8000_0000_0000_0000u128,
                    b < 128,
            ;
            let total = acc + mult * (b as u128);
            if total > u64::MAX as u128 {
                return None;
            }
            return Some((total as u64, i + 1));
        }
        let ghost t = buf@.subrange(i + 1, buf@.len() as int);
        assert(s.drop_first() =~= t);
        if k == 9 {
            proof {
                if parse_varint(t, false) is Some {
                    lemma_parse_varint_bound(t, false);
                    let (w, m) = parse_varint(t, false)->0;
                    assert(w >= 1) by {
                        assert(pow128((m - 1) as nat) >= 1) by {
                            lemma_pow128_pos((m - 1) as nat);
                        }
                    }
                    reveal_with_fuel(pow128, 10);
                    assert(mult == 0x8000_0000_0000_0000u128);
                    assert(acc + mult * ((b - 128) + 128 * w) > u64::MAX) by (nonlinear_arith)
                        requires
                            mult == 0x8000_0000_0000_0000u128,
                            w >= 1,
                            acc >= 0,
                            b >= 128,
                    ;
                }
            }
            return None;
        }
        proof {
            assert(acc + mult * (b - 128) < mult * 128) by (nonlinear_arith)
                requires
                    acc < mult,
                    b < 256,
                    b >= 128,
            ;
            assert(pow128((k + 1) as nat) == 128 * pow128(k as nat));
            lemma_pow128_mono(k as nat + 1, 9);
            reveal_with_fuel(pow128, 10);
            assert(pow128(9) == 0x8000_0000_0000_0000u128);
            match parse_varint(t, false) {
                Some((w, m)) => {
                    assert(acc + mult * ((b - 128) + 128 * w) == (acc + mult * (b - 128)) + (mult
                        * 128) * w) by (nonlinear_arith);
                },
                None => {},
            }
        }
        acc = acc + mult * ((b - 128) as u128);
        mult = mult * 128;
        k = k + 1;
        i = i + 1;
    }
}

pub proof fn lemma_pow128_pos(k: nat)
    ensures
        pow128(k) >= 1,
    decreases k,
{
    if k > 0 {
        lemma_pow128_pos((k - 1) as nat);
    }
}

pub proof fn lemma_pow128_mono(a: nat, b: nat)
    requires
        a <= b,
    ensures
        pow128(a) <= pow128(b),
    decreases b,
{
    if a < b {
        lemma_pow128_mono(a, (b - 1) as nat);
        lemma_pow128_pos((b - 1) as nat);
    }
}

} // verus!

verus! {

pub open spec fn prefix_at(buf: Seq<u8>, pos: int, e: Seq<u8>) -> bool {
    0 <= pos && pos + e.len() <= buf.len() && buf.subrange(pos, pos + e.len()) == e
}

/// A reader's result agrees with a parse of the suffix at `pos`: both
/// fail, or both give the same value and the reader ends where the parse
/// does.
pub open spec fn same_at<T>(r: Option<(T, usize)>, p: Option<(T, nat)>, pos: int) -> bool {
    match (r, p) {
        (Some((x, e)), Some((m, n))) => x == m && e == pos + n,
        (None, None) => true,
        _ => false,
    }
}

pub open spec fn read_as<T: View>(r: Option<(T, usize)>, p: Option<(T::V, nat)>, pos: int) -> bool {
    match (r, p) {
        (Some((x, e)), Some((m, n))) => x@ == m && e == pos + n,
        (None, None) => true,
        _ => false,
    }
}

pub open spec fn suffix(buf: Seq<u8>, pos: int) -> Seq<u8> {
    buf.subrange(pos, buf.len() as int)
}

pub open spec fn parse_u64(s: Seq<u8>) -> Option<(u64, nat)> {
    match parse_varint(s, true) {
        Some((v, n)) => if v <= u64::MAX {
            Some((v as u64, n))
        } else {
            None
        },
        None => None,
    }
}

pub open spec fn parse_u32(s: Seq<u8>) -> Option<(u32, nat)> {
    match parse_u64(s) {
        Some((v, n)) => if v <= u32::MAX {
            Some((v as u32, n))
        } else {
            None
        },
        None => None,
    }
}

pub open spec fn parse_i64(s: Seq<u8>) -> Option<(i64, nat)> {
    match parse_u64(s) {
        Some((v, n)) => Some((unzigzag(v as nat) as i64, n)),
        None => None,
    }
}

#[verifier::opaque]
pub open spec fn parse_str(s: Seq<u8>) -> Option<(Seq<char>, nat)> {
    match parse_u64(s) {
        Some((len, k)) => if k + len <= s.len() && valid_utf8(s.subrange(k as int, k + len)) {
            Some((decode_utf8(s.subrange(k as int, k + len)), (k + len) as nat))
        } else {
            None
        },
        None => None,
    }
}

pub open spec fn parse_opt_u64(s: Seq<u8>) -> Option<(Option<u64>, nat)> {
    if s.len() == 0 {
        None
    } else if s[0] == 0 {
        Some((None, 1))
    } else if s[0] == 1 {
        match parse_u64(s.skip(1)) {
            Some((v, n)) => Some((Some(v), n + 1)),
            None => None,
        }
    } else {
        None
    }
}

pub open spec fn parse_opt_str(s: Seq<u8>) -> Option<(Option<Seq<char>>, nat)> {
    if s.len() == 0 {
        None
    } else if s[0] == 0 {
        Some((None, 1))
    } else if s[0] == 1 {
        match parse_str(s.skip(1)) {
            Some((v, n)) => Some((Some(v), n + 1)),
            None => None,
        }
    } else {
        None
    }
}

pub proof fn lemma_u64_complete(x: u64, rest: Seq<u8>)
    ensures
        parse_u64(varint(x as nat) + rest) == Some((x, varint(x as nat).len())),
{
    lemma_parse_varint_complete(x as nat, rest, true);
}

pub proof fn lemma_u32_complete(x: u32, rest: Seq<u8>)
    ensures
        parse_u32(varint(x as nat) + rest) == Some((x, varint(x as nat).len())),
{
    lemma_u64_complete(x as u64, rest);
}

pub proof fn lemma_i64_complete(x: i64, rest: Seq<u8>)
    ensures
        parse_i64(varint(zigzag(x as int)) + rest) == Some((x, varint(zigzag(x as int)).len())),
{
    let u = zigzag(x as int);
    assert(u <= u64::MAX);
    lemma_u64_complete(u as u64, rest);
    assert(unzigzag(u) == x as int);
}

pub proof fn lemma_str_complete(m: Seq<char>, rest: Seq<u8>)
    requires
        encode_utf8(m).len() <= u64::MAX,
    ensures
        parse_str(enc_str(m) + rest) == Some((m, enc_str(m).len())),
{
    reveal(enc_str);
    reveal(parse_str);
    let b = encode_utf8(m);
    let v = varint(b.len());
    let s = enc_str(m) + rest;
    assert(s =~= v + (b + rest));
    lemma_u64_complete(b.len() as u64, b + rest);
    assert(s.subrange(v.len() as int, v.len() + b.len() as int) =~= b);
    encode_utf8_valid_utf8(m);
    encode_utf8_decode_utf8(m);
}

pub proof fn lemma_opt_u64_complete(o: Option<u64>, rest: Seq<u8>)
    ensures
        parse_opt_u64(enc_opt_u64(o) + rest) == Some((o, enc_opt_u64(o).len())),
{
    let s = enc_opt_u64(o) + rest;
    if let Some(v) = o {
        assert(s.skip(1) =~= varint(v as nat) + rest);
        lemma_u64_complete(v, rest);
    }
}

pub proof fn lemma_opt_str_complete(o: Option<Seq<char>>, rest: Seq<u8>)
    requires
        o matches Some(m) ==> encode_utf8(m).len() <= u64::MAX,
    ensures
        parse_opt_str(enc_opt_str(o) + rest) == Some((o, enc_opt_str(o).len())),
{
    let s = enc_opt_str(o) + rest;
    if let Some(m) = o {
        assert(s.skip(1) =~= enc_str(m) + rest);
        lemma_str_complete(m, rest);
    }
}

pub fn put_u8(out: &mut Vec<u8>, b: u8)
    ensures
        final(out)@ == old(out)@ + seq![b],
{
    out.push(b);
}

pub fn put_bytes(out: &mut Vec<u8>, b: &[u8])
    ensures
        final(out)@ == old(out)@ + b@,
{
    let mut i: usize = 0;
    while i < b.len()
        invariant
            i <= b@.len(),
            out@ == old(out)@ + b@.subrange(0, i as int),
        decreases b@.len() - i,
    {
        out.push(b[i]);
        assert(b@.subrange(0, i + 1) =~= b@.subrange(0, i as int) + seq![b@[i as int]]);
        i = i + 1;
    }
    assert(b@.subrange(0, b@.len() as int) =~= b@);
}

pub fn put_i64(out: &mut Vec<u8>, x: i64)
    ensures
        final(out)@ == old(out)@ + varint(zigzag(x as int)),
{
    let u: u64 = if x >= 0 {
        (x as u64) * 2
    } else {
        ((-(x + 1)) as u64) * 2 + 1
    };
    assert(u as nat == zigzag(x as int));
    put_varint(out, u);
}

pub fn put_str(out: &mut Vec<u8>, s: &str)
    ensures
        final(out)@ == old(out)@ + enc_str(s@),
        str_fits(s@),
{
    reveal(enc_str);
    let b = s.as_bytes();
    put_varint(out, b.len() as u64);
    put_bytes(out, b);
    assert(old(out)@ + varint(b@.len()) + b@ =~= old(out)@ + enc_str(s@));
}

pub fn put_opt_str(out: &mut Vec<u8>, o: &Option<String>)
    ensures
        final(out)@ == old(out)@ + enc_opt_str(opt_seq(*o)),
        opt_str_fits(opt_seq(*o)),
{
    match o {
        None => put_u8(out, 0),
        Some(s) => {
            put_u8(out, 1);
            put_str(out, s.as_str());
            assert(old(out)@ + seq![1u8] + enc_str(s@) =~= old(out)@ + (seq![1u8] + enc_str(s@)));
        },
    }
}

pub fn put_opt_u64(out: &mut Vec<u8>, o: Option<u64>)
    ensures
        final(out)@ == old(out)@ + enc_opt_u64(o),
{
    match o {
        None => put_u8(out, 0),
        Some(v) => {
            put_u8(out, 1);
            put_varint(out, v);
            assert(old(out)@ + seq![1u8] + varint(v as nat) =~= old(out)@ + (seq![1u8] + varint(
                v as nat,
            )));
        },
    }
}

pub fn take_u64(buf: &[u8], pos: usize) -> (r: Option<(u64, usize)>)
    requires
        pos <= buf@.len(),
    ensures
        r matches Some((_, e)) ==> pos < e <= buf@.len(),
        same_at(r, parse_u64(suffix(buf@, pos as int)), pos as int),
{
    take_varint(buf, pos)
}

pub fn take_u32(buf: &[u8], pos: usize) -> (r: Option<(u32, usize)>)
    requires
        pos <= buf@.len(),
    ensures
        r matches Some((_, e)) ==> pos < e <= buf@.len(),
        same_at(r, parse_u32(suffix(buf@, pos as int)), pos as int),
{
    match take_varint(buf, pos) {
        Some((v, end)) => if v <= u32::MAX as u64 {
            Some((v as u32, end))
        } else {
            None
        },
        None => None,
    }
}

pub fn take_i64(buf: &[u8], pos: usize) -> (r: Option<(i64, usize)>)
    requires
        pos <= buf@.len(),
    ensures
        r matches Some((_, e)) ==> pos < e <= buf@.len(),
        same_at(r, parse_i64(suffix(buf@, pos as int)), pos as int),
{
    match take_varint(buf, pos) {
        Some((u, end)) => {
            let half = u / 2;
            let x: i64 = if u % 2 == 0 {
                half as i64
            } else {
                -(half as i64) - 1
            };
            assert(x as int == unzigzag(u as nat));
            Some((x, end))
        },
        None => None,
    }
}

/// Relies on `String::from_utf8`: it accepts exactly the byte sequences
/// that are valid UTF-8, and the string it returns is made of those bytes.
#[verifier::external_body]
fn utf8_string(bytes: Vec<u8>) -> (r: Option<String>)
    ensures
        r is Some <==> valid_utf8(bytes@),
        r matches Some(s) ==> encode_utf8(s@) == bytes@,
{
    String::from_utf8(bytes).ok()
}

pub fn take_str(buf: &[u8], pos: usize) -> (r: Option<(String, usize)>)
    requires
        pos <= buf@.len(),
    ensures
        r matches Some((_, e)) ==> pos < e <= buf@.len(),
        read_as(r, parse_str(suffix(buf@, pos as int)), pos as int),
{
    reveal(parse_str);
    let ghost s = suffix(buf@, pos as int);
    let (len, start) = match take_varint(buf, pos) {
        Some(v) => v,
        None => return None,
    };
    proof {
        lemma_parse_varint_sound(s, true);
    }
    if len > (buf.len() - start) as u64 {
        return None;
    }
    let end = start + len as usize;
    let mut bytes: Vec<u8> = Vec::new();
    put_bytes(&mut bytes, &buf[start..end]);
    let ghost k = (start - pos) as int;
    assert(buf@.subrange(start as int, end as int) =~= s.subrange(k, k + len));
    match utf8_string(bytes) {
        Some(text) => {
            proof {
                decode_utf8_encode_utf8(bytes@);
                encode_utf8_decode_utf8(text@);
            }
            Some((text, end))
        },
        None => None,
    }
}

/// Reads an option's tag byte: 0 for none, 1 for some; and the position
/// after it.
pub fn take_tag(buf: &[u8], pos: usize) -> (r: Option<(bool, usize)>)
    requires
        pos <= buf@.len(),
    ensures
        r matches Some((_, e)) ==> pos < e <= buf@.len(),
        r == (if pos < buf@.len() && buf@[pos as int] == 0 {
            Some((false, (pos + 1) as usize))
        } else if pos < buf@.len() && buf@[pos as int] == 1 {
            Some((true, (pos + 1) as usize))
        } else {
            None
        }),
        r matches Some((_, e)) ==> e == pos + 1,
{
    if pos >= buf.len() {
        None
    } else if buf[pos] == 0 {
        Some((false, pos + 1))
    } else if buf[pos] == 1 {
        Some((true, pos + 1))
    } else {
        None
    }
}

pub fn take_opt_u64(buf: &[u8], pos: usize) -> (r: Option<(Option<u64>, usize)>)
    requires
        pos <= buf@.len(),
    ensures
        r matches Some((_, e)) ==> pos < e <= buf@.len(),
        same_at(r, parse_opt_u64(suffix(buf@, pos as int)), pos as int),
{
    let ghost s = suffix(buf@, pos as int);
    match take_tag(buf, pos) {
        None => None,
        Some((false, next)) => Some((None, next)),
        Some((true, next)) => {
            assert(next == pos + 1);
            assert(s.skip(1) =~= suffix(buf@, next as int));
            match take_u64(buf, next) {
                Some((v, end)) => Some((Some(v), end)),
                None => None,
            }
        },
    }
}

pub fn take_opt_str(buf: &[u8], pos: usize) -> (r: Option<(Option<String>, usize)>)
    requires
        pos <= buf@.len(),
    ensures
        r matches Some((_, e)) ==> pos < e <= buf@.len(),
        match (r, parse_opt_str(suffix(buf@, pos as int))) {
            (Some((x, e)), Some((m, n))) => opt_seq(x) == m && e == pos + n,
            (None, None) => true,
            _ => false,
        },
{
    let ghost s = suffix(buf@, pos as int);
    match take_tag(buf, pos) {
        None => None,
        Some((false, next)) => Some((None, next)),
        Some((true, next)) => {
            assert(next == pos + 1);
            assert(s.skip(1) =~= suffix(buf@, next as int));
            match take_str(buf, next) {
                Some((v, end)) => Some((Some(v), end)),
                None => None,
            }
        },
    }
}

} // verus!

verus! {

pub open spec fn enc_opt_level(o: Option<Level>) -> Seq<u8> {
    match o {
        None => seq![0u8],
        Some(l) => seq![1u8] + varint(l.index()),
    }
}

pub open spec fn enc_opt_trace(o: Option<TraceId>) -> Seq<u8> {
    match o {
        None => seq![0u8],
        Some(t) => seq![1u8] + enc_opt_u64(t.span) + enc_opt_u64(t.parent),
    }
}

/// The payload of a record frame.
pub open spec fn enc_record(r: RecordModel) -> Seq<u8> {
    enc_record_head(r) + enc_record_tail(r)
}

pub open spec fn enc_record_head(r: RecordModel) -> Seq<u8> {
    varint(r.kind.index()) + varint(zigzag(r.timestamp as int)) + enc_opt_level(r.level)
        + enc_opt_str(r.source)
}

pub open spec fn enc_record_tail(r: RecordModel) -> Seq<u8> {
    enc_str(r.message) + enc_opt_trace(r.trace) + enc_str(r.fields)
}

pub open spec fn enc_process(p: SourceProcessModel) -> Seq<u8> {
    varint(p.pid as nat) + enc_str(p.name) + varint(p.start as nat)
}

pub open spec fn enc_opt_process(o: Option<SourceProcessModel>) -> Seq<u8> {
    match o {
        None => seq![0u8],
        Some(p) => seq![1u8] + enc_process(p),
    }
}

/// The payload of a handshake frame.
pub open spec fn enc_claims(c: ClaimsModel) -> Seq<u8> {
    enc_str(c.hostname) + enc_opt_str(c.display_name) + enc_opt_process(c.source)
}

pub open spec fn kind_of(v: u64) -> Option<Kind> {
    if v == 0 {
        Some(Kind::Event)
    } else if v == 1 {
        Some(Kind::Span)
    } else {
        None
    }
}

pub open spec fn level_of(v: u64) -> Option<Level> {
    if v <= 5 {
        Level::numbered(v as int)
    } else {
        None
    }
}

pub open spec fn parse_kind(s: Seq<u8>) -> Option<(Kind, nat)> {
    match parse_u64(s) {
        Some((v, n)) => match kind_of(v) {
            Some(k) => Some((k, n)),
            None => None,
        },
        None => None,
    }
}

pub open spec fn parse_opt_level(s: Seq<u8>) -> Option<(Option<Level>, nat)> {
    if s.len() == 0 {
        None
    } else if s[0] == 0 {
        Some((None, 1))
    } else if s[0] == 1 {
        match parse_u64(s.skip(1)) {
            Some((v, n)) => match level_of(v) {
                Some(l) => Some((Some(l), n + 1)),
                None => None,
            },
            None => None,
        }
    } else {
        None
    }
}

pub open spec fn parse_opt_trace(s: Seq<u8>) -> Option<(Option<TraceId>, nat)> {
    if s.len() == 0 {
        None
    } else if s[0] == 0 {
        Some((None, 1))
    } else if s[0] == 1 {
        match parse_opt_u64(s.skip(1)) {
            Some((span, n1)) => match parse_opt_u64(s.skip((1 + n1) as int)) {
                Some((parent, n2)) => Some((Some(TraceId { span, parent }), 1 + n1 + n2)),
                None => None,
            },
            None => None,
        }
    } else {
        None
    }
}

pub open spec fn parse_record_head(s: Seq<u8>) -> Option<
    ((Kind, i64, Option<Level>, Option<Seq<char>>), nat),
> {
    match parse_kind(s) {
        None => None,
        Some((kind, n1)) => match parse_i64(s.skip(n1 as int)) {
            None => None,
            Some((timestamp, n2)) => match parse_opt_level(s.skip((n1 + n2) as int)) {
                None => None,
                Some((level, n3)) => match parse_opt_str(s.skip((n1 + n2 + n3) as int)) {
                    None => None,
                    Some((source, n4)) => Some(
                        ((kind, timestamp, level, source), n1 + n2 + n3 + n4),
                    ),
                },
            },
        },
    }
}

pub open spec fn parse_record_tail(s: Seq<u8>) -> Option<
    ((Seq<char>, Option<TraceId>, Seq<char>), nat),
> {
    match parse_str(s) {
        None => None,
        Some((message, n1)) => match parse_opt_trace(s.skip(n1 as int)) {
            None => None,
            Some((trace, n2)) => match parse_str(s.skip((n1 + n2) as int)) {
                None => None,
                Some((fields, n3)) => Some(((message, trace, fields), n1 + n2 + n3)),
            },
        },
    }
}

/// Reads a record payload at the start of `s`: the record, and how many
/// bytes it took.
pub open spec fn parse_record(s: Seq<u8>) -> Option<(RecordModel, nat)> {
    match parse_record_head(s) {
        None => None,
        Some(((kind, timestamp, level, source), a)) => match parse_record_tail(s.skip(a as int)) {
            None => None,
            Some(((message, trace, fields), b)) => Some(
                (RecordModel { kind, timestamp, level, source, message, trace, fields }, a + b),
            ),
        },
    }
}

pub open spec fn parse_process(s: Seq<u8>) -> Option<(SourceProcessModel, nat)> {
    match parse_u32(s) {
        None => None,
        Some((pid, n1)) => match parse_str(s.skip(n1 as int)) {
            None => None,
            Some((name, n2)) => match parse_u64(s.skip((n1 + n2) as int)) {
                None => None,
                Some((start, n3)) => Some((SourceProcessModel { pid, name, start }, n1 + n2 + n3)),
            },
        },
    }
}

pub open spec fn parse_opt_process(s: Seq<u8>) -> Option<(Option<SourceProcessModel>, nat)> {
    if s.len() == 0 {
        None
    } else if s[0] == 0 {
        Some((None, 1))
    } else if s[0] == 1 {
        match parse_process(s.skip(1)) {
            Some((p, n)) => Some((Some(p), n + 1)),
            None => None,
        }
    } else {
        None
    }
}

/// Reads a handshake payload at the start of `s`.
pub open spec fn parse_claims(s: Seq<u8>) -> Option<(ClaimsModel, nat)> {
    match parse_str(s) {
        None => None,
        Some((hostname, n1)) => match parse_opt_str(s.skip(n1 as int)) {
            None => None,
            Some((display_name, n2)) => match parse_opt_process(s.skip((n1 + n2) as int)) {
                None => None,
                Some((source, n3)) => Some(
                    (ClaimsModel { hostname, display_name, source }, n1 + n2 + n3),
                ),
            },
        },
    }
}

/// The wire carries a string's byte length as a `u64`.
pub open spec fn str_fits(s: Seq<char>) -> bool {
    encode_utf8(s).len() <= u64::MAX
}

pub open spec fn opt_str_fits(o: Option<Seq<char>>) -> bool {
    o matches Some(s) ==> str_fits(s)
}

/// The values that the wire can carry: every string's length fits the
/// length prefix.
pub open spec fn record_fits(r: RecordModel) -> bool {
    opt_str_fits(r.source) && str_fits(r.message) && str_fits(r.fields)
}

pub open spec fn claims_fits(c: ClaimsModel) -> bool {
    str_fits(c.hostname) && opt_str_fits(c.display_name) && (c.source matches Some(p)
        ==> str_fits(p.name))
}

pub proof fn lemma_kind_complete(k: Kind, rest: Seq<u8>)
    ensures
        parse_kind(varint(k.index()) + rest) == Some((k, varint(k.index()).len())),
{
    lemma_u64_complete(k.index() as u64, rest);
}

pub proof fn lemma_opt_level_complete(o: Option<Level>, rest: Seq<u8>)
    ensures
        parse_opt_level(enc_opt_level(o) + rest) == Some((o, enc_opt_level(o).len())),
{
    let s = enc_opt_level(o) + rest;
    if let Some(l) = o {
        assert(s.skip(1) =~= varint(l.index()) + rest);
        lemma_u64_complete(l.index() as u64, rest);
    }
}

pub proof fn lemma_opt_trace_complete(o: Option<TraceId>, rest: Seq<u8>)
    ensures
        parse_opt_trace(enc_opt_trace(o) + rest) == Some((o, enc_opt_trace(o).len())),
{
    let s = enc_opt_trace(o) + rest;
    if let Some(t) = o {
        let a = enc_opt_u64(t.span);
        let b = enc_opt_u64(t.parent);
        assert(s.skip(1) =~= a + (b + rest));
        lemma_opt_u64_complete(t.span, b + rest);
        assert(s.skip((1 + a.len()) as int) =~= b + rest);
        lemma_opt_u64_complete(t.parent, rest);
    }
}

pub proof fn lemma_record_head_complete(r: RecordModel, rest: Seq<u8>)
    requires
        record_fits(r),
    ensures
        parse_record_head(enc_record_head(r) + rest) == Some(
            ((r.kind, r.timestamp, r.level, r.source), enc_record_head(r).len()),
        ),
{
    let e1 = varint(r.kind.index());
    let e2 = varint(zigzag(r.timestamp as int));
    let e3 = enc_opt_level(r.level);
    let e4 = enc_opt_str(r.source);
    let t4 = e4 + rest;
    let t3 = e3 + t4;
    let t2 = e2 + t3;
    let s = enc_record_head(r) + rest;
    assert(s =~= e1 + t2);
    let n1 = e1.len();
    let n2 = e2.len();
    let n3 = e3.len();
    let n4 = e4.len();
    lemma_kind_complete(r.kind, t2);
    assert(parse_kind(s) == Some((r.kind, n1)));
    assert(s.skip(n1 as int) =~= t2);
    lemma_i64_complete(r.timestamp, t3);
    assert(parse_i64(s.skip(n1 as int)) == Some((r.timestamp, n2)));
    assert(s.skip((n1 + n2) as int) =~= t3);
    lemma_opt_level_complete(r.level, t4);
    assert(parse_opt_level(s.skip((n1 + n2) as int)) == Some((r.level, n3)));
    assert(s.skip((n1 + n2 + n3) as int) =~= t4);
    lemma_opt_str_complete(r.source, rest);
    assert(parse_opt_str(s.skip((n1 + n2 + n3) as int)) == Some((r.source, n4)));
    assert(enc_record_head(r).len() == n1 + n2 + n3 + n4);
}

pub proof fn lemma_record_tail_complete(r: RecordModel, rest: Seq<u8>)
    requires
        record_fits(r),
    ensures
        parse_record_tail(enc_record_tail(r) + rest) == Some(
            ((r.message, r.trace, r.fields), enc_record_tail(r).len()),
        ),
{
    let e1 = enc_str(r.message);
    let e2 = enc_opt_trace(r.trace);
    let e3 = enc_str(r.fields);
    let t3 = e3 + rest;
    let t2 = e2 + t3;
    let s = enc_record_tail(r) + rest;
    assert(s =~= e1 + t2);
    lemma_str_complete(r.message, t2);
    assert(s.skip(e1.len() as int) =~= t2);
    lemma_opt_trace_complete(r.trace, t3);
    assert(s.skip((e1.len() + e2.len()) as int) =~= t3);
    lemma_str_complete(r.fields, rest);
}

/// Decoding what encoding a record produced gives back that record, and
/// takes exactly the encoding's bytes, whatever follows them.
pub proof fn lemma_record_round_trip(r: RecordModel, rest: Seq<u8>)
    requires
        record_fits(r),
    ensures
        parse_record(enc_record(r) + rest) == Some((r, enc_record(r).len())),
{
    let h = enc_record_head(r);
    let t = enc_record_tail(r);
    let s = enc_record(r) + rest;
    assert(s =~= h + (t + rest));
    lemma_record_head_complete(r, t + rest);
    assert(s.skip(h.len() as int) =~= t + rest);
    lemma_record_tail_complete(r, rest);
}

pub proof fn lemma_process_complete(p: SourceProcessModel, rest: Seq<u8>)
    requires
        str_fits(p.name),
    ensures
        parse_process(enc_process(p) + rest) == Some((p, enc_process(p).len())),
{
    let e1 = varint(p.pid as nat);
    let e2 = enc_str(p.name);
    let e3 = varint(p.start as nat);
    let s = enc_process(p) + rest;
    assert(s =~= e1 + (e2 + (e3 + rest)));
    lemma_u32_complete(p.pid, e2 + (e3 + rest));
    assert(s.skip(e1.len() as int) =~= e2 + (e3 + rest));
    lemma_str_complete(p.name, e3 + rest);
    assert(s.skip((e1.len() + e2.len()) as int) =~= e3 + rest);
    lemma_u64_complete(p.start, rest);
}

/// Decoding what encoding claims produced gives back those claims, and
/// takes exactly the encoding's bytes, whatever follows them.
pub proof fn lemma_claims_round_trip(c: ClaimsModel, rest: Seq<u8>)
    requires
        claims_fits(c),
    ensures
        parse_claims(enc_claims(c) + rest) == Some((c, enc_claims(c).len())),
{
    let e1 = enc_str(c.hostname);
    let e2 = enc_opt_str(c.display_name);
    let e3 = enc_opt_process(c.source);
    let t3 = e3 + rest;
    let t2 = e2 + t3;
    let s = enc_claims(c) + rest;
    assert(s =~= e1 + t2);
    lemma_str_complete(c.hostname, t2);
    assert(s.skip(e1.len() as int) =~= t2);
    lemma_opt_str_complete(c.display_name, t3);
    assert(s.skip(e1.len() + e2.len() as int) =~= t3);
    let t = e3 + rest;
    if let Some(p) = c.source {
        assert(t.skip(1) =~= enc_process(p) + rest);
        lemma_process_complete(p, rest);
    }
}

} // verus!

verus! {

/// Why bytes could not be framed or decoded.
#[derive(Debug, Clone, Copy, PartialEq, Eq, Structural)]
pub enum WireError {
    /// A payload longer than a frame's length field can state.
    TooLong,
    /// A payload that is not the encoding of a value of the expected type.
    Malformed,
    /// A frame header that announces more bytes than the stream holds.
    Truncated,
}

pub fn put_kind(out: &mut Vec<u8>, k: Kind)
    ensures
        final(out)@ == old(out)@ + varint(k.index()),
{
    put_varint(out, k.code() as u64);
}

pub fn put_opt_level(out: &mut Vec<u8>, o: Option<Level>)
    ensures
        final(out)@ == old(out)@ + enc_opt_level(o),
{
    match o {
        None => put_u8(out, 0),
        Some(l) => {
            put_u8(out, 1);
            put_varint(out, l.code() as u64);
            assert(old(out)@ + seq![1u8] + varint(l.index()) =~= old(out)@ + (seq![1u8] + varint(
                l.index(),
            )));
        },
    }
}

pub fn put_opt_trace(out: &mut Vec<u8>, o: Option<TraceId>)
    ensures
        final(out)@ == old(out)@ + enc_opt_trace(o),
{
    match o {
        None => put_u8(out, 0),
        Some(t) => {
            put_u8(out, 1);
            put_opt_u64(out, t.span);
            put_opt_u64(out, t.parent);
            assert(old(out)@ + seq![1u8] + enc_opt_u64(t.span) + enc_opt_u64(t.parent)
                =~= old(out)@ + (seq![1u8] + enc_opt_u64(t.span) + enc_opt_u64(t.parent)));
        },
    }
}

pub fn put_opt_process(out: &mut Vec<u8>, o: &Option<SourceProcess>)
    ensures
        final(out)@ == old(out)@ + enc_opt_process(
            match *o {
                Some(p) => Some(p@),
                None => None,
            },
        ),
        o matches Some(p) ==> str_fits(p.name@),
{
    match o {
        None => put_u8(out, 0),
        Some(p) => {
            put_u8(out, 1);
            put_varint(out, p.pid as u64);
            put_str(out, p.name.as_str());
            put_varint(out, p.start);
            assert(old(out)@ + seq![1u8] + varint(p.pid as nat) + enc_str(p.name@) + varint(
                p.start as nat,
            ) =~= old(out)@ + (seq![1u8] + enc_process(p@)));
        },
    }
}

pub fn take_kind(buf: &[u8], pos: usize) -> (r: Option<(Kind, usize)>)
    requires
        pos <= buf@.len(),
    ensures
        r matches Some((_, e)) ==> pos < e <= buf@.len(),
        same_at(r, parse_kind(suffix(buf@, pos as int)), pos as int),
{
    match take_u64(buf, pos) {
        Some((v, end)) => match Kind::from_code(v) {
            Some(k) => Some((k, end)),
            None => None,
        },
        None => None,
    }
}

pub fn take_opt_level(buf: &[u8], pos: usize) -> (r: Option<(Option<Level>, usize)>)
    requires
        pos <= buf@.len(),
    ensures
        r matches Some((_, e)) ==> pos < e <= buf@.len(),
        same_at(r, parse_opt_level(suffix(buf@, pos as int)), pos as int),
{
    let ghost s = suffix(buf@, pos as int);
    match take_tag(buf, pos) {
        None => None,
        Some((false, next)) => Some((None, next)),
        Some((true, next)) => {
            assert(s.skip(1) =~= suffix(buf@, next as int));
            match take_u64(buf, next) {
                Some((v, end)) => match Level::from_code(v) {
                    Some(l) => Some((Some(l), end)),
                    None => None,
                },
                None => None,
            }
        },
    }
}

pub fn take_opt_trace(buf: &[u8], pos: usize) -> (r: Option<(Option<TraceId>, usize)>)
    requires
        pos <= buf@.len(),
    ensures
        r matches Some((_, e)) ==> pos < e <= buf@.len(),
        same_at(r, parse_opt_trace(suffix(buf@, pos as int)), pos as int),
{
    let ghost s = suffix(buf@, pos as int);
    match take_tag(buf, pos) {
        None => None,
        Some((false, next)) => Some((None, next)),
        Some((true, next)) => {
            assert(s.skip(1) =~= suffix(buf@, next as int));
            match take_opt_u64(buf, next) {
                None => None,
                Some((span, mid)) => {
                    assert(s.skip(1 + (mid - next)) =~= suffix(buf@, mid as int));
                    match take_opt_u64(buf, mid) {
                        None => None,
                        Some((parent, end)) => Some((Some(TraceId { span, parent }), end)),
                    }
                },
            }
        },
    }
}

pub fn take_process(buf: &[u8], pos: usize) -> (r: Option<(SourceProcess, usize)>)
    requires
        pos <= buf@.len(),
    ensures
        r matches Some((_, e)) ==> pos < e <= buf@.len(),
        read_as(r, parse_process(suffix(buf@, pos as int)), pos as int),
{
    let ghost s = suffix(buf@, pos as int);
    let (pid, p1) = match take_u32(buf, pos) {
        Some(v) => v,
        None => return None,
    };
    assert(s.skip(p1 - pos) =~= suffix(buf@, p1 as int));
    let (name, p2) = match take_str(buf, p1) {
        Some(v) => v,
        None => return None,
    };
    assert(s.skip(p2 - pos) =~= suffix(buf@, p2 as int));
    let (start, p3) = match take_u64(buf, p2) {
        Some(v) => v,
        None => return None,
    };
    Some((SourceProcess { pid, name, start }, p3))
}

pub fn take_opt_process(buf: &[u8], pos: usize) -> (r: Option<(Option<SourceProcess>, usize)>)
    requires
        pos <= buf@.len(),
    ensures
        r matches Some((_, e)) ==> pos < e <= buf@.len(),
        match (r, parse_opt_process(suffix(buf@, pos as int))) {
            (Some((x, e)), Some((m, n))) => e == pos + n && m == match x {
                Some(p) => Some(p@),
                None => None,
            },
            (None, None) => true,
            _ => false,
        },
{
    let ghost s = suffix(buf@, pos as int);
    match take_tag(buf, pos) {
        None => None,
        Some((false, next)) => Some((None, next)),
        Some((true, next)) => {
            assert(s.skip(1) =~= suffix(buf@, next as int));
            match take_process(buf, next) {
                Some((p, end)) => Some((Some(p), end)),
                None => None,
            }
        },
    }
}

impl Record {
    /// The record's payload bytes.
    pub fn encode(&self) -> (r: Vec<u8>)
        ensures
            r@ == enc_record(self@),
            record_fits(self@),
    {
        let mut out: Vec<u8> = Vec::new();
        put_kind(&mut out, self.kind);
        put_i64(&mut out, self.timestamp);
        put_opt_level(&mut out, self.level);
        put_opt_str(&mut out, &self.source);
        let ghost head = out@;
        put_str(&mut out, self.message.as_str());
        put_opt_trace(&mut out, self.trace);
        put_str(&mut out, self.fields.as_str());
        assert(head =~= enc_record_head(self@));
        assert(out@ =~= enc_record_head(self@) + enc_record_tail(self@));
        out
    }

    /// Reads a record from the start of a payload; bytes after the record
    /// are ignored. It succeeds exactly when the payload starts with the
    /// encoding of a record, and then returns that record.
    pub fn decode(data: &[u8]) -> (r: Result<Record, WireError>)
        ensures
            r is Ok <==> parse_record(data@) is Some,
            r matches Ok(x) ==> parse_record(data@) matches Some((m, _)) && x@ == m,
            r matches Ok(x) ==> prefix_at(data@, 0, enc_record(x@)),
            forall|m: RecordModel|
                record_fits(m) && #[trigger] prefix_at(data@, 0, enc_record(m)) ==> (r matches Ok(
                    x,
                ) && x@ == m),
            r matches Err(e) ==> e == WireError::Malformed,
    {
        let r = Record::read(data);
        proof {
            if r is Ok {
                lemma_record_decode_sound(data@);
            }
            assert forall|m: RecordModel|
                record_fits(m) && #[trigger] prefix_at(data@, 0, enc_record(m)) implies (r matches Ok(
                    x,
                ) && x@ == m) by {
                let e = enc_record(m);
                let rest = data@.skip(e.len() as int);
                assert(data@ =~= e + rest);
                lemma_record_round_trip(m, rest);
            }
        }
        r
    }

    #[verifier::rlimit(40)]
    fn read(data: &[u8]) -> (r: Result<Record, WireError>)
        ensures
            r is Ok <==> parse_record(data@) is Some,
            r matches Ok(x) ==> parse_record(data@) matches Some((m, _)) && x@ == m,
            r matches Err(e) ==> e == WireError::Malformed,
    {
        let ghost s = data@;
        assert(suffix(data@, 0) =~= s);
        let (kind, p1) = match take_kind(data, 0) {
            Some(v) => v,
            None => return Err(WireError::Malformed),
        };
        assert(s.skip(p1 as int) =~= suffix(data@, p1 as int));
        let (timestamp, p2) = match take_i64(data, p1) {
            Some(v) => v,
            None => return Err(WireError::Malformed),
        };
        assert(s.skip(p2 as int) =~= suffix(data@, p2 as int));
        let (level, p3) = match take_opt_level(data, p2) {
            Some(v) => v,
            None => return Err(WireError::Malformed),
        };
        assert(s.skip(p3 as int) =~= suffix(data@, p3 as int));
        let (source, p4) = match take_opt_str(data, p3) {
            Some(v) => v,
            None => return Err(WireError::Malformed),
        };
        assert(s.skip(p4 as int) =~= suffix(data@, p4 as int));
        let ghost t = s.skip(p4 as int);
        assert(parse_record_head(s) == Some(
            ((kind, timestamp, level, opt_seq(source)), p4 as nat),
        ));
        let (message, p5) = match take_str(data, p4) {
            Some(v) => v,
            None => return Err(WireError::Malformed),
        };
        assert(t.skip(p5 - p4) =~= suffix(data@, p5 as int));
        let (trace, p6) = match take_opt_trace(data, p5) {
            Some(v) => v,
            None => return Err(WireError::Malformed),
        };
        assert(t.skip(p6 - p4) =~= suffix(data@, p6 as int));
        let (fields, p7) = match take_str(data, p6) {
            Some(v) => v,
            None => return Err(WireError::Malformed),
        };
        Ok(Record { kind, timestamp, level, source, message, trace, fields })
    }
}

impl Claims {
    /// The claims' payload bytes.
    pub fn encode(&self) -> (r: Vec<u8>)
        ensures
            r@ == enc_claims(self@),
            claims_fits(self@),
    {
        let mut out: Vec<u8> = Vec::new();
        put_str(&mut out, self.hostname.as_str());
        put_opt_str(&mut out, &self.display_name);
        put_opt_process(&mut out, &self.source);
        assert(out@ =~= enc_claims(self@));
        out
    }

    /// Reads claims from the start of a payload; bytes after them are
    /// ignored. It succeeds exactly when the payload starts with the
    /// encoding of claims, and then returns those claims.
    pub fn decode(data: &[u8]) -> (r: Result<Claims, WireError>)
        ensures
            r is Ok <==> parse_claims(data@) is Some,
            r matches Ok(x) ==> parse_claims(data@) matches Some((m, _)) && x@ == m,
            r matches Ok(x) ==> prefix_at(data@, 0, enc_claims(x@)),
            forall|m: ClaimsModel|
                claims_fits(m) && #[trigger] prefix_at(data@, 0, enc_claims(m)) ==> (r matches Ok(
                    x,
                ) && x@ == m),
            r matches Err(e) ==> e == WireError::Malformed,
    {
        let r = Claims::read(data);
        proof {
            if r is Ok {
                lemma_claims_decode_sound(data@);
            }
            assert forall|m: ClaimsModel|
                claims_fits(m) && #[trigger] prefix_at(data@, 0, enc_claims(m)) implies (r matches Ok(
                    x,
                ) && x@ == m) by {
                let e = enc_claims(m);
                let rest = data@.skip(e.len() as int);
                assert(data@ =~= e + rest);
                lemma_claims_round_trip(m, rest);
            }
        }
        r
    }

    fn read(data: &[u8]) -> (r: Result<Claims, WireError>)
        ensures
            r is Ok <==> parse_claims(data@) is Some,
            r matches Ok(x) ==> parse_claims(data@) matches Some((m, _)) && x@ == m,
            r matches Err(e) ==> e == WireError::Malformed,
    {
        let ghost s = data@;
        assert(suffix(data@, 0) =~= s);
        let (hostname, p1) = match take_str(data, 0) {
            Some(v) => v,
            None => return Err(WireError::Malformed),
        };
        assert(s.skip(p1 as int) =~= suffix(data@, p1 as int));
        let (display_name, p2) = match take_opt_str(data, p1) {
            Some(v) => v,
            None => return Err(WireError::Malformed),
        };
        assert(s.skip(p2 as int) =~= suffix(data@, p2 as int));
        let (source, p3) = match take_opt_process(data, p2) {
            Some(v) => v,
            None => return Err(WireError::Malformed),
        };
        Ok(Claims { hostname, display_name, source })
    }
}

} // verus!

verus! {

/// Decoding the encoding of a record that the wire can carry gives back
/// that record.
pub proof fn lemma_decode_encode_record(r: RecordModel)
    requires
        record_fits(r),
    ensures
        parse_record(enc_record(r)) == Some((r, enc_record(r).len())),
{
    lemma_record_round_trip(r, Seq::empty());
    assert(enc_record(r) + Seq::<u8>::empty() =~= enc_record(r));
}

/// Decoding the encoding of claims that the wire can carry gives back
/// those claims.
pub proof fn lemma_decode_encode_claims(c: ClaimsModel)
    requires
        claims_fits(c),
    ensures
        parse_claims(enc_claims(c)) == Some((c, enc_claims(c).len())),
{
    lemma_claims_round_trip(c, Seq::empty());
    assert(enc_claims(c) + Seq::<u8>::empty() =~= enc_claims(c));
}

/// The four bytes of a frame's length field, most significant first.
pub open spec fn be32(n: u32) -> Seq<u8> {
    seq![
        (n >> 24u32) as u8,
        ((n >> 16u32) & 0xffu32) as u8,
        ((n >> 8u32) & 0xffu32) as u8,
        (n & 0xffu32) as u8,
    ]
}

pub open spec fn be32_value(b0: u8, b1: u8, b2: u8, b3: u8) -> u32 {
    ((b0 as u32) << 24u32) | ((b1 as u32) << 16u32) | ((b2 as u32) << 8u32) | (b3 as u32)
}

pub proof fn lemma_be32(n: u32)
    ensures
        be32_value(be32(n)[0], be32(n)[1], be32(n)[2], be32(n)[3]) == n,
{
    let b0 = (n >> 24u32) as u8;
    let b1 = ((n >> 16u32) & 0xffu32) as u8;
    let b2 = ((n >> 8u32) & 0xffu32) as u8;
    let b3 = (n & 0xffu32) as u8;
    assert(((b0 as u32) << 24u32) | ((b1 as u32) << 16u32) | ((b2 as u32) << 8u32) | (b3 as u32)
        == n) by (bit_vector)
        requires
            b0 == (n >> 24u32) as u8,
            b1 == ((n >> 16u32) & 0xffu32) as u8,
            b2 == ((n >> 8u32) & 0xffu32) as u8,
            b3 == (n & 0xffu32) as u8,
    ;
}

/// Frames a payload: its length as four big-endian bytes, then the
/// payload. A payload longer than `u32::MAX` bytes is refused.
pub fn encode_frame(payload: &[u8]) -> (r: Result<Vec<u8>, WireError>)
    ensures
        r is Err <==> payload@.len() > u32::MAX,
        r matches Err(e) ==> e == WireError::TooLong,
        r matches Ok(v) ==> v@ == be32(payload@.len() as u32) + payload@,
{
    if payload.len() > u32::MAX as usize {
        return Err(WireError::TooLong);
    }
    let n = payload.len() as u32;
    let mut out: Vec<u8> = Vec::new();
    out.push((n >> 24u32) as u8);
    out.push(((n >> 16u32) & 0xffu32) as u8);
    out.push(((n >> 8u32) & 0xffu32) as u8);
    out.push((n & 0xffu32) as u8);
    assert(out@ =~= be32(n));
    put_bytes(&mut out, payload);
    Ok(out)
}

/// The payload length that a frame header states.
pub fn frame_len(header: &[u8]) -> (r: u32)
    requires
        header@.len() == 4,
    ensures
        r == be32_value(header@[0], header@[1], header@[2], header@[3]),
{
    ((header[0] as u32) << 24u32) | ((header[1] as u32) << 16u32) | ((header[2] as u32) << 8u32)
        | (header[3] as u32)
}

/// What a byte stream holds at a position.
#[derive(Debug, Clone, Copy, PartialEq, Eq, Structural)]
pub enum FrameRead {
    /// No complete header is left: the stream ended cleanly.
    End,
    /// A frame whose payload is `buf[start..end]`.
    Frame { start: usize, end: usize },
    /// A header that announces more bytes than are left.
    Truncated,
}

pub open spec fn header_len_at(buf: Seq<u8>, pos: int) -> int {
    be32_value(buf[pos], buf[pos + 1], buf[pos + 2], buf[pos + 3]) as int
}

/// What the bytes at `pos` hold: fewer than a header's four bytes is the
/// end; a header announcing more bytes than follow is a cut-short frame.
pub open spec fn next_frame_at(buf: Seq<u8>, pos: int) -> FrameRead {
    if buf.len() - pos < 4 {
        FrameRead::End
    } else if pos + 4 + header_len_at(buf, pos) > buf.len() {
        FrameRead::Truncated
    } else {
        FrameRead::Frame {
            start: (pos + 4) as usize,
            end: (pos + 4 + header_len_at(buf, pos)) as usize,
        }
    }
}

/// Reads the frame at `pos` of a stream's bytes.
pub fn next_frame(buf: &[u8], pos: usize) -> (r: FrameRead)
    requires
        pos <= buf@.len(),
    ensures
        r == next_frame_at(buf@, pos as int),
        r is End <==> buf@.len() - pos < 4,
        r is Truncated <==> buf@.len() - pos >= 4 && pos + 4 + header_len_at(buf@, pos as int)
            > buf@.len(),
        r matches FrameRead::Frame { start, end } ==> start == pos + 4 && end == start
            + header_len_at(buf@, pos as int) && end <= buf@.len(),
{
    if buf.len() - pos < 4 {
        return FrameRead::End;
    }
    let n = ((buf[pos] as u32) << 24u32) | ((buf[pos + 1] as u32) << 16u32) | ((buf[pos + 2]
        as u32) << 8u32) | (buf[pos + 3] as u32);
    if n as usize > buf.len() - pos - 4 {
        return FrameRead::Truncated;
    }
    FrameRead::Frame { start: pos + 4, end: pos + 4 + n as usize }
}

/// A framed payload reads back as one frame holding exactly that payload,
/// whatever follows it on the stream.
pub proof fn lemma_frame_round_trip(payload: Seq<u8>, rest: Seq<u8>)
    requires
        payload.len() <= u32::MAX,
    ensures
        ({
            let buf = be32(payload.len() as u32) + payload + rest;
            &&& buf.len() >= 4
            &&& header_len_at(buf, 0) == payload.len()
            &&& buf.subrange(4, 4 + payload.len() as int) == payload
        }),
{
    let n = payload.len() as u32;
    let buf = be32(n) + payload + rest;
    lemma_be32(n);
    assert(buf[0] == be32(n)[0] && buf[1] == be32(n)[1] && buf[2] == be32(n)[2] && buf[3] == be32(
        n,
    )[3]);
    assert(buf.subrange(4, 4 + payload.len() as int) =~= payload);
}

} // verus!

verus! {

/// Splits a prefix of `s` at `n1`.
pub proof fn lemma_join(s: Seq<u8>, n1: nat, n2: nat)
    requires
        n1 + n2 <= s.len(),
    ensures
        s.subrange(0, (n1 + n2) as int) == s.subrange(0, n1 as int) + s.skip(n1 as int).subrange(
            0,
            n2 as int,
        ),
{
    assert(s.subrange(0, (n1 + n2) as int) =~= s.subrange(0, n1 as int) + s.skip(
        n1 as int,
    ).subrange(0, n2 as int));
}

pub proof fn lemma_u64_sound(s: Seq<u8>)
    requires
        parse_u64(s) is Some,
    ensures
        ({
            let (v, n) = parse_u64(s)->0;
            n <= s.len() && s.subrange(0, n as int) == varint(v as nat)
        }),
{
    lemma_parse_varint_sound(s, true);
}

pub proof fn lemma_str_sound(s: Seq<u8>)
    requires
        parse_str(s) is Some,
    ensures
        ({
            let (m, n) = parse_str(s)->0;
            n <= s.len() && s.subrange(0, n as int) == enc_str(m) && str_fits(m)
        }),
{
    reveal(parse_str);
    reveal(enc_str);
    lemma_u64_sound(s);
    let (len, k) = parse_u64(s)->0;
    let b = s.subrange(k as int, k + len);
    decode_utf8_encode_utf8(b);
    lemma_join(s, k, len as nat);
    assert(s.skip(k as int).subrange(0, len as int) =~= b);
}

pub proof fn lemma_opt_u64_sound(s: Seq<u8>)
    requires
        parse_opt_u64(s) is Some,
    ensures
        ({
            let (m, n) = parse_opt_u64(s)->0;
            n <= s.len() && s.subrange(0, n as int) == enc_opt_u64(m)
        }),
{
    if s[0] == 1 {
        lemma_u64_sound(s.skip(1));
        let (_, n) = parse_u64(s.skip(1))->0;
        lemma_join(s, 1, n);
        assert(s.subrange(0, 1) =~= seq![1u8]);
    } else {
        assert(s.subrange(0, 1) =~= seq![0u8]);
    }
}

pub proof fn lemma_opt_str_sound(s: Seq<u8>)
    requires
        parse_opt_str(s) is Some,
    ensures
        ({
            let (m, n) = parse_opt_str(s)->0;
            n <= s.len() && s.subrange(0, n as int) == enc_opt_str(m) && opt_str_fits(m)
        }),
{
    if s[0] == 1 {
        lemma_str_sound(s.skip(1));
        let (_, n) = parse_str(s.skip(1))->0;
        lemma_join(s, 1, n);
        assert(s.subrange(0, 1) =~= seq![1u8]);
    } else {
        assert(s.subrange(0, 1) =~= seq![0u8]);
    }
}

pub proof fn lemma_opt_trace_sound(s: Seq<u8>)
    requires
        parse_opt_trace(s) is Some,
    ensures
        ({
            let (m, n) = parse_opt_trace(s)->0;
            n <= s.len() && s.subrange(0, n as int) == enc_opt_trace(m)
        }),
{
    if s[0] == 1 {
        let t = s.skip(1);
        lemma_opt_u64_sound(t);
        let (_, n1) = parse_opt_u64(t)->0;
        assert(s.skip((1 + n1) as int) =~= t.skip(n1 as int));
        lemma_opt_u64_sound(t.skip(n1 as int));
        let (_, n2) = parse_opt_u64(t.skip(n1 as int))->0;
        lemma_join(t, n1, n2);
        lemma_join(s, 1, n1 + n2);
        assert(s.subrange(0, 1) =~= seq![1u8]);
    } else {
        assert(s.subrange(0, 1) =~= seq![0u8]);
    }
}

pub proof fn lemma_opt_level_sound(s: Seq<u8>)
    requires
        parse_opt_level(s) is Some,
    ensures
        ({
            let (m, n) = parse_opt_level(s)->0;
            n <= s.len() && s.subrange(0, n as int) == enc_opt_level(m)
        }),
{
    if s[0] == 1 {
        lemma_u64_sound(s.skip(1));
        let (_, k) = parse_u64(s.skip(1))->0;
        lemma_join(s, 1, k);
        assert(s.subrange(0, 1) =~= seq![1u8]);
    } else {
        assert(s.subrange(0, 1) =~= seq![0u8]);
    }
}

#[verifier::rlimit(40)]
pub proof fn lemma_record_head_sound(s: Seq<u8>)
    requires
        parse_record_head(s) is Some,
    ensures
        ({
            let ((kind, timestamp, level, source), n) = parse_record_head(s)->0;
            let m = RecordModel {
                kind,
                timestamp,
                level,
                source,
                message: Seq::empty(),
                trace: None,
                fields: Seq::empty(),
            };
            n <= s.len() && s.subrange(0, n as int) == enc_record_head(m) && opt_str_fits(source)
        }),
{
    lemma_u64_sound(s);
    let (_, n1) = parse_kind(s)->0;
    let s2 = s.skip(n1 as int);
    lemma_u64_sound(s2);
    let (_, n2) = parse_i64(s2)->0;
    let s3 = s.skip((n1 + n2) as int);
    assert(s3 =~= s2.skip(n2 as int));
    let (level, n3) = parse_opt_level(s3)->0;
    lemma_opt_level_sound(s3);
    let s4 = s.skip((n1 + n2 + n3) as int);
    assert(s4 =~= s3.skip(n3 as int));
    lemma_opt_str_sound(s4);
    let (_, n4) = parse_opt_str(s4)->0;
    lemma_join(s3, n3, n4);
    lemma_join(s2, n2, n3 + n4);
    lemma_join(s, n1, n2 + n3 + n4);
    let ((kind, timestamp, _, source), _) = parse_record_head(s)->0;
    let (u, _) = parse_u64(s2)->0;
    assert(zigzag(unzigzag(u as nat)) == u as nat);
    let m = RecordModel {
        kind,
        timestamp,
        level,
        source,
        message: Seq::empty(),
        trace: None,
        fields: Seq::empty(),
    };
    assert(s.subrange(0, (n1 + n2 + n3 + n4) as int) =~= enc_record_head(m));
}

pub proof fn lemma_record_tail_sound(s: Seq<u8>)
    requires
        parse_record_tail(s) is Some,
    ensures
        ({
            let ((message, trace, fields), n) = parse_record_tail(s)->0;
            let m = RecordModel {
                kind: Kind::Event,
                timestamp: 0,
                level: None,
                source: None,
                message,
                trace,
                fields,
            };
            n <= s.len() && s.subrange(0, n as int) == enc_record_tail(m) && str_fits(message)
                && str_fits(fields)
        }),
{
    lemma_str_sound(s);
    let (_, n1) = parse_str(s)->0;
    let s2 = s.skip(n1 as int);
    lemma_opt_trace_sound(s2);
    let (_, n2) = parse_opt_trace(s2)->0;
    let s3 = s.skip((n1 + n2) as int);
    assert(s3 =~= s2.skip(n2 as int));
    lemma_str_sound(s3);
    let (_, n3) = parse_str(s3)->0;
    lemma_join(s2, n2, n3);
    lemma_join(s, n1, n2 + n3);
    let ((message, trace, fields), _) = parse_record_tail(s)->0;
    let m = RecordModel {
        kind: Kind::Event,
        timestamp: 0,
        level: None,
        source: None,
        message,
        trace,
        fields,
    };
    assert(s.subrange(0, (n1 + n2 + n3) as int) =~= enc_record_tail(m));
}

/// The bytes that decoding a record reads are exactly the encoding of the
/// record it returns: every record has one encoding, and only encodings
/// decode.
pub proof fn lemma_record_decode_sound(s: Seq<u8>)
    requires
        parse_record(s) is Some,
    ensures
        ({
            let (m, n) = parse_record(s)->0;
            n <= s.len() && s.subrange(0, n as int) == enc_record(m) && record_fits(m)
        }),
{
    lemma_record_head_sound(s);
    let (_, a) = parse_record_head(s)->0;
    lemma_record_tail_sound(s.skip(a as int));
    let (_, b) = parse_record_tail(s.skip(a as int))->0;
    lemma_join(s, a, b);
    let (m, _) = parse_record(s)->0;
    assert(enc_record_head(m) == enc_record_head(
        RecordModel { message: Seq::empty(), trace: None, fields: Seq::empty(), ..m },
    ));
    assert(enc_record_tail(m) == enc_record_tail(
        RecordModel { kind: Kind::Event, timestamp: 0, level: None, source: None, ..m },
    ));
}

pub proof fn lemma_process_sound(s: Seq<u8>)
    requires
        parse_process(s) is Some,
    ensures
        ({
            let (m, n) = parse_process(s)->0;
            n <= s.len() && s.subrange(0, n as int) == enc_process(m) && str_fits(m.name)
        }),
{
    lemma_u64_sound(s);
    let (_, n1) = parse_u32(s)->0;
    let s2 = s.skip(n1 as int);
    lemma_str_sound(s2);
    let (_, n2) = parse_str(s2)->0;
    let s3 = s.skip((n1 + n2) as int);
    assert(s3 =~= s2.skip(n2 as int));
    lemma_u64_sound(s3);
    let (_, n3) = parse_u64(s3)->0;
    lemma_join(s2, n2, n3);
    lemma_join(s, n1, n2 + n3);
    let (m, _) = parse_process(s)->0;
    assert(s.subrange(0, (n1 + n2 + n3) as int) =~= enc_process(m));
}

/// The bytes that decoding claims reads are exactly the encoding of the
/// claims it returns.
pub proof fn lemma_claims_decode_sound(s: Seq<u8>)
    requires
        parse_claims(s) is Some,
    ensures
        ({
            let (m, n) = parse_claims(s)->0;
            n <= s.len() && s.subrange(0, n as int) == enc_claims(m) && claims_fits(m)
        }),
{
    lemma_str_sound(s);
    let (_, n1) = parse_str(s)->0;
    let s2 = s.skip(n1 as int);
    lemma_opt_str_sound(s2);
    let (_, n2) = parse_opt_str(s2)->0;
    let s3 = s.skip((n1 + n2) as int);
    assert(s3 =~= s2.skip(n2 as int));
    let (_, n3) = parse_opt_process(s3)->0;
    if s3[0] == 1 {
        lemma_process_sound(s3.skip(1));
        let (_, k) = parse_process(s3.skip(1))->0;
        lemma_join(s3, 1, k);
        assert(s3.subrange(0, 1) =~= seq![1u8]);
    } else {
        assert(s3.subrange(0, 1) =~= seq![0u8]);
    }
    lemma_join(s2, n2, n3);
    lemma_join(s, n1, n2 + n3);
    let (m, _) = parse_claims(s)->0;
    assert(s.subrange(0, (n1 + n2 + n3) as int) =~= enc_claims(m));
}

} // verus!
