//! The on-disk format of the cache index and its codec.
//!
//! A snapshot is a character stream of records in order. Every number is
//! written in decimal and closed with `:`; a string field is its character
//! count followed by exactly that many characters, so arbitrary paths and
//! identities need no escaping. One record is its file identity, source path,
//! size and modified time, in that order. Parsing is the exact inverse of
//! encoding: `lemma_snapshot_round_trip` proves that a parse of an encoding
//! returns the records that were encoded.

use vstd::prelude::*;
use vstd::arithmetic::mul::*;
use vstd::string::StrSliceExecFns;
use vstd::string::StringExecFns;
use crate::cache::{RecordV, ThumbnailMetadata, views_of};
use crate::fsio::push_char;

verus! {

/// A decimal digit character.
pub open spec fn is_dec_digit(c: char) -> bool {
    '0' <= c <= '9'
}

/// The numeric value of a decimal digit character.
pub open spec fn digit_val(c: char) -> nat
    recommends
        is_dec_digit(c),
{
    (c as u32 - '0' as u32) as nat
}

/// The character for one decimal digit.
pub open spec fn digit_char(d: nat) -> char
    recommends
        d < 10,
{
    (('0' as u32) + d as u32) as char
}

/// The decimal digits of a number, most significant first.
pub open spec fn dec_digits(n: nat) -> Seq<char>
    decreases n,
{
    if n < 10 {
        seq![digit_char(n)]
    } else {
        dec_digits(n / 10).push(digit_char(n % 10))
    }
}

/// 10 to the k-th power.
pub open spec fn pow10(k: nat) -> nat
    decreases k,
{
    if k == 0 {
        1
    } else {
        10 * pow10((k - 1) as nat)
    }
}

/// How many decimal digits a number has.
pub open spec fn ndigits(n: nat) -> nat
    decreases n,
{
    if n < 10 {
        1
    } else {
        1 + ndigits(n / 10)
    }
}

proof fn lemma_dec_digits_shape(n: nat)
    ensures
        dec_digits(n).len() == ndigits(n),
        forall|i: int| 0 <= i < dec_digits(n).len() ==> is_dec_digit(#[trigger] dec_digits(n)[i]),
    decreases n,
{
    if n >= 10 {
        lemma_dec_digits_shape(n / 10);
    }
}

/// Greedy decimal parsing with an accumulator: consumes digits until a `:`
/// closes the number; anything else, an overflow, or running out of input is
/// a failure.
pub open spec fn parse_nat(s: Seq<char>, acc: nat) -> Option<(u64, Seq<char>)>
    recommends
        acc <= u64::MAX,
    decreases s.len(),
{
    if s.len() == 0 {
        None
    } else if s[0] == ':' {
        Some(((acc as u64), s.drop_first()))
    } else if is_dec_digit(s[0]) {
        if acc * 10 + digit_val(s[0]) > u64::MAX {
            None
        } else {
            parse_nat(s.drop_first(), acc * 10 + digit_val(s[0]))
        }
    } else {
        None
    }
}

/// One number field: at least one digit, then `:`.
pub open spec fn parse_u64_field(s: Seq<char>) -> Option<(u64, Seq<char>)> {
    if s.len() > 0 && is_dec_digit(s[0]) {
        parse_nat(s, 0)
    } else {
        None
    }
}

/// One string field: a character count, then exactly that many characters.
pub open spec fn parse_str_field(s: Seq<char>) -> Option<(Seq<char>, Seq<char>)> {
    match parse_u64_field(s) {
        Some((n, rest)) => if n <= rest.len() {
            Some((rest.take(n as int), rest.skip(n as int)))
        } else {
            None
        },
        None => None,
    }
}

/// One signed number field: an optional `-`, then a number field; the
/// magnitude must be representable.
pub open spec fn parse_i64_field(s: Seq<char>) -> Option<(i64, Seq<char>)> {
    if s.len() > 0 && s[0] == '-' {
        match parse_u64_field(s.drop_first()) {
            Some((m, rest)) => if 1 <= m && m <= 0x8000_0000_0000_0000u64 {
                Some(((-(m as int)) as i64, rest))
            } else {
                None
            },
            None => None,
        }
    } else {
        match parse_u64_field(s) {
            Some((m, rest)) => if m <= (i64::MAX as u64) {
                Some((m as i64, rest))
            } else {
                None
            },
            None => None,
        }
    }
}

/// One record: file identity, source path, size, modified time.
pub open spec fn parse_record(s: Seq<char>) -> Option<(RecordV, Seq<char>)> {
    match parse_str_field(s) {
        Some((fid, s1)) => match parse_str_field(s1) {
            Some((p, s2)) => match parse_u64_field(s2) {
                Some((size, s3)) => match parse_i64_field(s3) {
                    Some((mt, s4)) => Some(
                        (RecordV { file_id: fid, path: p, size, modified_time: mt }, s4),
                    ),
                    None => None,
                },
                None => None,
            },
            None => None,
        },
        None => None,
    }
}

proof fn lemma_parse_nat_consumes(s: Seq<char>, acc: nat)
    ensures
        parse_nat(s, acc) matches Some((v, rest)) ==> rest.len() < s.len(),
    decreases s.len(),
{
    if s.len() > 0 && s[0] != ':' && is_dec_digit(s[0]) && acc * 10 + digit_val(s[0])
        <= u64::MAX {
        lemma_parse_nat_consumes(s.drop_first(), acc * 10 + digit_val(s[0]));
    }
}

proof fn lemma_parse_record_consumes(s: Seq<char>)
    ensures
        parse_record(s) matches Some((r, rest)) ==> rest.len() < s.len(),
{
    if parse_record(s) is Some {
        lemma_parse_nat_consumes(s, 0);
        let (fid, s1) = parse_str_field(s).unwrap();
        lemma_parse_nat_consumes(s1, 0);
        let (p, s2) = parse_str_field(s1).unwrap();
        lemma_parse_nat_consumes(s2, 0);
        let (size, s3) = parse_u64_field(s2).unwrap();
        if s3.len() > 0 && s3[0] == '-' {
            lemma_parse_nat_consumes(s3.drop_first(), 0);
        } else {
            lemma_parse_nat_consumes(s3, 0);
        }
    }
}

/// A whole snapshot: records until the input is exhausted.
pub open spec fn parse_records(s: Seq<char>) -> Option<Seq<RecordV>>
    decreases s.len(),
    via parse_records_dec
{
    if s.len() == 0 {
        Some(Seq::empty())
    } else {
        match parse_record(s) {
            Some((r, rest)) => match parse_records(rest) {
                Some(tail) => Some(seq![r] + tail),
                None => None,
            },
            None => None,
        }
    }
}

#[via_fn]
proof fn parse_records_dec(s: Seq<char>) {
    if s.len() > 0 {
        lemma_parse_record_consumes(s);
    }
}

/// An encoded number field: decimal digits closed by `:`.
pub open spec fn enc_nat(n: nat) -> Seq<char> {
    dec_digits(n).push(':')
}

/// An encoded string field: the character count, then the characters.
pub open spec fn enc_str(s: Seq<char>) -> Seq<char> {
    enc_nat(s.len()) + s
}

/// An encoded signed number field.
pub open spec fn enc_i64(m: i64) -> Seq<char> {
    if m < 0 {
        seq!['-'] + enc_nat((-(m as int)) as nat)
    } else {
        enc_nat(m as nat)
    }
}

/// One encoded record.
pub open spec fn enc_record(r: RecordV) -> Seq<char> {
    enc_str(r.file_id) + enc_str(r.path) + enc_nat(r.size as nat) + enc_i64(r.modified_time)
}

/// A whole encoded snapshot.
pub open spec fn enc_records(rs: Seq<RecordV>) -> Seq<char>
    decreases rs.len(),
{
    if rs.len() == 0 {
        Seq::empty()
    } else {
        enc_record(rs[0]) + enc_records(rs.drop_first())
    }
}

/// A record whose string fields can be length-prefixed in the format.
pub open spec fn rec_encodable(r: RecordV) -> bool {
    r.file_id.len() <= u64::MAX && r.path.len() <= u64::MAX
}

proof fn lemma_parse_nat_prefix(n: nat, suffix: Seq<char>, acc: nat)
    requires
        acc * pow10(ndigits(n)) + n <= u64::MAX,
    ensures
        parse_nat(dec_digits(n) + suffix, acc) == parse_nat(
            suffix,
            acc * pow10(ndigits(n)) + n,
        ),
    decreases n,
{
    lemma_dec_digits_shape(n);
    if n < 10 {
        let s = dec_digits(n) + suffix;
        assert(s[0] == digit_char(n));
        assert(is_dec_digit(digit_char(n)));
        assert(digit_val(digit_char(n)) == n);
        assert(s[0] != ':');
        assert(s.drop_first() =~= suffix);
        assert(pow10(0) == 1);
        assert(pow10(1) == 10);
    } else {
        let d = digit_char(n % 10);
        let s = dec_digits(n) + suffix;
        assert(dec_digits(n) == dec_digits(n / 10).push(d));
        assert(s =~= dec_digits(n / 10) + (seq![d] + suffix));
        let p = pow10(ndigits(n / 10));
        let q = n / 10;
        let r = n % 10;
        let a2 = acc * p + q;
        assert(ndigits(n) == 1 + ndigits(n / 10));
        assert(pow10(ndigits(n)) == 10 * p);
        assert(n == 10 * q + r) by {
            vstd::arithmetic::div_mod::lemma_fundamental_div_mod(n as int, 10);
        }
        assert((acc * p + q) * 10 + r == acc * (10 * p) + (10 * q + r)) by (nonlinear_arith);
        assert(a2 * 10 + r == acc * pow10(ndigits(n)) + n);
        assert(a2 <= u64::MAX) by {
            assert(a2 * 10 + r <= u64::MAX);
            assert(a2 <= a2 * 10) by (nonlinear_arith);
        }
        lemma_parse_nat_prefix(n / 10, seq![d] + suffix, acc);
        // one more digit step on `[d] + suffix`
        let t = seq![d] + suffix;
        assert(t[0] == d);
        assert(is_dec_digit(d) && digit_val(d) == r);
        assert(d != ':');
        assert(t.drop_first() =~= suffix);
    }
}

proof fn lemma_parse_enc_nat(n: nat, tail: Seq<char>)
    requires
        n <= u64::MAX,
    ensures
        parse_u64_field(enc_nat(n) + tail) == Some((n as u64, tail)),
{
    lemma_dec_digits_shape(n);
    let s = enc_nat(n) + tail;
    assert(s =~= dec_digits(n) + (seq![':'] + tail));
    assert(s[0] == dec_digits(n)[0]);
    assert(is_dec_digit(s[0]));
    lemma_parse_nat_prefix(n, seq![':'] + tail, 0);
    let t = seq![':'] + tail;
    assert(t[0] == ':');
    assert(t.drop_first() =~= tail);
}

proof fn lemma_parse_enc_str(f: Seq<char>, tail: Seq<char>)
    requires
        f.len() <= u64::MAX,
    ensures
        parse_str_field(enc_str(f) + tail) == Some((f, tail)),
{
    let s = enc_str(f) + tail;
    assert(s =~= enc_nat(f.len()) + (f + tail));
    lemma_parse_enc_nat(f.len(), f + tail);
    let rest = f + tail;
    assert(rest.take(f.len() as int) =~= f);
    assert(rest.skip(f.len() as int) =~= tail);
}

proof fn lemma_parse_enc_i64(m: i64, tail: Seq<char>)
    ensures
        parse_i64_field(enc_i64(m) + tail) == Some((m, tail)),
{
    if m < 0 {
        let mag = (-(m as int)) as nat;
        let s = enc_i64(m) + tail;
        assert(s =~= seq!['-'] + (enc_nat(mag) + tail));
        assert(s[0] == '-');
        assert(s.drop_first() =~= enc_nat(mag) + tail);
        lemma_parse_enc_nat(mag, tail);
        assert(1 <= mag && mag <= 0x8000_0000_0000_0000u64);
        assert((-((mag as u64) as int)) as i64 == m);
    } else {
        let s = enc_i64(m) + tail;
        assert(s =~= enc_nat(m as nat) + tail);
        lemma_parse_enc_nat(m as nat, tail);
        assert(s.len() > 0 && s[0] != '-') by {
            lemma_dec_digits_shape(m as nat);
            assert(s[0] == dec_digits(m as nat)[0]);
            assert(is_dec_digit(s[0]));
        }
    }
}

proof fn lemma_parse_enc_record(r: RecordV, tail: Seq<char>)
    requires
        rec_encodable(r),
    ensures
        parse_record(enc_record(r) + tail) == Some((r, tail)),
{
    let s = enc_record(r) + tail;
    let after_path = enc_nat(r.size as nat) + (enc_i64(r.modified_time) + tail);
    let after_fid = enc_str(r.path) + after_path;
    assert(s =~= enc_str(r.file_id) + after_fid);
    lemma_parse_enc_str(r.file_id, after_fid);
    lemma_parse_enc_str(r.path, after_path);
    lemma_parse_enc_nat(r.size as nat, enc_i64(r.modified_time) + tail);
    lemma_parse_enc_i64(r.modified_time, tail);
    let parsed = parse_record(s).unwrap().0;
    assert(parsed =~= r);
}

/// Law: parsing an encoded snapshot returns exactly the records encoded, in
/// their order — a save followed by a load reproduces the index.
pub proof fn lemma_snapshot_round_trip(rs: Seq<RecordV>)
    requires
        forall|i: int| 0 <= i < rs.len() ==> rec_encodable(#[trigger] rs[i]),
    ensures
        parse_records(enc_records(rs)) == Some(rs),
    decreases rs.len(),
{
    if rs.len() == 0 {
        assert(enc_records(rs).len() == 0);
        assert(parse_records(enc_records(rs)) == Some(Seq::<RecordV>::empty()));
        assert(rs =~= Seq::<RecordV>::empty());
    } else {
        let s = enc_records(rs);
        assert(s == enc_record(rs[0]) + enc_records(rs.drop_first()));
        lemma_parse_enc_record(rs[0], enc_records(rs.drop_first()));
        lemma_dec_digits_shape(rs[0].file_id.len());
        assert(s.len() > 0);
        lemma_snapshot_round_trip(rs.drop_first());
        assert(seq![rs[0]] + rs.drop_first() =~= rs);
    }
}

/// A snapshot of at least one record starts with the decimal length of the
/// first record's file identity.
pub proof fn lemma_enc_records_starts_with_digit(rs: Seq<RecordV>)
    requires
        rs.len() > 0,
    ensures
        enc_records(rs).len() > 0,
        is_dec_digit(enc_records(rs)[0]),
{
    lemma_dec_digits_shape(rs[0].file_id.len());
    assert(enc_records(rs)[0] == enc_record(rs[0])[0]);
    assert(enc_record(rs[0])[0] == enc_str(rs[0].file_id)[0]);
    assert(enc_str(rs[0].file_id)[0] == dec_digits(rs[0].file_id.len())[0]);
}

proof fn lemma_seq_add_assoc<A>(x: Seq<A>, y: Seq<A>, z: Seq<A>)
    ensures
        x + (y + z) == (x + y) + z,
{
    assert(x + (y + z) =~= (x + y) + z);
}

proof fn lemma_enc_records_snoc(rs: Seq<RecordV>, r: RecordV)
    ensures
        enc_records(rs.push(r)) == enc_records(rs) + enc_record(r),
    decreases rs.len(),
{
    if rs.len() == 0 {
        assert(rs.push(r)[0] == r);
        assert(rs.push(r).drop_first() =~= Seq::<RecordV>::empty());
        assert(enc_records(Seq::<RecordV>::empty()) == Seq::<char>::empty());
        assert(enc_records(rs.push(r)) == enc_record(r) + Seq::<char>::empty());
        assert(enc_record(r) + Seq::<char>::empty() =~= enc_record(r));
        assert(enc_records(rs) + enc_record(r) =~= enc_record(r));
    } else {
        assert(rs.push(r)[0] == rs[0]);
        assert(rs.push(r).drop_first() =~= rs.drop_first().push(r));
        lemma_enc_records_snoc(rs.drop_first(), r);
        assert(enc_records(rs.push(r)) == enc_record(rs[0]) + (enc_records(rs.drop_first())
            + enc_record(r)));
        assert(enc_records(rs) == enc_record(rs[0]) + enc_records(rs.drop_first()));
        lemma_seq_add_assoc(enc_record(rs[0]), enc_records(rs.drop_first()), enc_record(r));
    }
}

fn encode_u64(n: u64, out: &mut String)
    ensures
        final(out)@ == old(out)@ + dec_digits(n as nat),
    decreases n,
{
    if n >= 10 {
        encode_u64(n / 10, out);
    }
    let d: u8 = (n % 10) as u8;
    push_char(out, (48 + d) as char);
    proof {
        assert((48 + d) as char == digit_char((n % 10) as nat));
        if n < 10 {
            assert(old(out)@ + dec_digits(n as nat) =~= final(out)@);
        } else {
            assert(old(out)@ + dec_digits(n as nat) =~= final(out)@);
        }
    }
}

fn encode_u64_field(n: u64, out: &mut String)
    ensures
        final(out)@ == old(out)@ + enc_nat(n as nat),
{
    encode_u64(n, out);
    push_char(out, ':');
    proof {
        assert(final(out)@ =~= old(out)@ + enc_nat(n as nat));
    }
}

fn encode_str_field(f: &str, out: &mut String)
    ensures
        final(out)@ == old(out)@ + enc_str(f@),
{
    let n = f.unicode_len();
    encode_u64_field(n as u64, out);
    out.append(f);
    proof {
        assert(final(out)@ =~= old(out)@ + enc_str(f@));
    }
}

fn encode_i64_field(m: i64, out: &mut String)
    ensures
        final(out)@ == old(out)@ + enc_i64(m),
{
    if m < 0 {
        push_char(out, '-');
        let mag: u64 = ((-(m + 1)) as u64) + 1;
        assert(mag as nat == (-(m as int)) as nat);
        encode_u64_field(mag, out);
        proof {
            assert(final(out)@ =~= old(out)@ + enc_i64(m));
        }
    } else {
        encode_u64_field(m as u64, out);
        proof {
            assert(final(out)@ =~= old(out)@ + enc_i64(m));
        }
    }
}

fn encode_record(m: &ThumbnailMetadata, out: &mut String)
    ensures
        final(out)@ == old(out)@ + enc_record(m@),
{
    encode_str_field(m.file_id.as_str(), out);
    encode_str_field(m.path.as_str(), out);
    encode_u64_field(m.size, out);
    encode_i64_field(m.modified_time, out);
    proof {
        assert(final(out)@ =~= old(out)@ + enc_record(m@));
    }
}

/// Encodes a whole snapshot of records.
pub fn encode_records(recs: &Vec<ThumbnailMetadata>) -> (out: String)
    ensures
        out@ == enc_records(views_of(recs@)),
{
    let mut out = String::new();
    let n = recs.len();
    for i in 0..n
        invariant
            n == recs@.len(),
            out@ == enc_records(views_of(recs@).take(i as int)),
    {
        encode_record(&recs[i], &mut out);
        proof {
            lemma_enc_records_snoc(views_of(recs@).take(i as int), recs@[i as int]@);
            assert(views_of(recs@).take(i + 1) =~= views_of(recs@).take(i as int).push(
                recs@[i as int]@,
            ));
        }
    }
    proof {
        assert(views_of(recs@).take(n as int) =~= views_of(recs@));
    }
    out
}

fn parse_u64_at(s: &str, pos: usize) -> (r: Option<(u64, usize)>)
    requires
        pos <= s@.len(),
    ensures
        match r {
            Some((v, p)) => pos < p <= s@.len() && parse_u64_field(s@.skip(pos as int)) == Some(
                (v, s@.skip(p as int)),
            ),
            None => parse_u64_field(s@.skip(pos as int)) is None,
        },
{
    let n = s.unicode_len();
    if pos >= n {
        return None;
    }
    let c0 = s.get_char(pos);
    proof {
        assert(s@.skip(pos as int)[0] == s@[pos as int]);
    }
    if !('0' <= c0 && c0 <= '9') {
        return None;
    }
    let ghost whole = s@.skip(pos as int);
    let mut acc: u64 = 0;
    let mut i: usize = pos;
    loop
        invariant
            pos <= i <= n,
            n == s@.len(),
            whole == s@.skip(pos as int),
            parse_nat(whole, 0) == parse_nat(s@.skip(i as int), acc as nat),
            parse_u64_field(whole) == parse_nat(whole, 0),
        decreases n - i,
    {
        if i >= n {
            assert(s@.skip(i as int).len() == 0);
            return None;
        }
        let c = s.get_char(i);
        assert(c == s@.skip(i as int)[0]);
        if c == ':' {
            assert(s@.skip(i as int).drop_first() =~= s@.skip(i + 1));
            return Some((acc, i + 1));
        }
        if !('0' <= c && c <= '9') {
            return None;
        }
        let d: u64 = (c as u32 - 48) as u64;
        assert(d == digit_val(c) && d < 10);
        if acc > (u64::MAX - d) / 10 {
            assert(acc as nat * 10 + d > u64::MAX) by (nonlinear_arith)
                requires
                    acc > (u64::MAX - d) / 10,
                    d < 10,
            ;
            return None;
        }
        assert(acc as nat * 10 + d <= u64::MAX) by (nonlinear_arith)
            requires
                acc <= (u64::MAX - d) / 10,
                d < 10,
        ;
        acc = acc * 10 + d;
        assert(s@.skip(i as int).drop_first() =~= s@.skip(i + 1));
        i = i + 1;
    }
}

fn parse_str_at(s: &str, pos: usize) -> (r: Option<(String, usize)>)
    requires
        pos <= s@.len(),
    ensures
        match r {
            Some((f, p)) => pos < p <= s@.len() && f@.len() <= u64::MAX && parse_str_field(
                s@.skip(pos as int),
            ) == Some((f@, s@.skip(p as int))),
            None => parse_str_field(s@.skip(pos as int)) is None,
        },
{
    let n = s.unicode_len();
    match parse_u64_at(s, pos) {
        Some((count, p)) => {
            if count > (n - p) as u64 {
                return None;
            }
            let q = p + (count as usize);
            let field = s.substring_char(p, q).to_owned();
            proof {
                let rest = s@.skip(p as int);
                assert(rest.take(count as int) =~= s@.subrange(p as int, q as int));
                assert(rest.skip(count as int) =~= s@.skip(q as int));
            }
            Some((field, q))
        },
        None => None,
    }
}

fn parse_i64_at(s: &str, pos: usize) -> (r: Option<(i64, usize)>)
    requires
        pos <= s@.len(),
    ensures
        match r {
            Some((v, p)) => pos < p <= s@.len() && parse_i64_field(s@.skip(pos as int)) == Some(
                (v, s@.skip(p as int)),
            ),
            None => parse_i64_field(s@.skip(pos as int)) is None,
        },
{
    let n = s.unicode_len();
    if pos < n && s.get_char(pos) == '-' {
        proof {
            assert(s@.skip(pos as int)[0] == '-');
            assert(s@.skip(pos as int).drop_first() =~= s@.skip(pos + 1));
        }
        match parse_u64_at(s, pos + 1) {
            Some((m, p)) => {
                if 1 <= m && m <= 0x8000_0000_0000_0000u64 {
                    let v: i64 = (-((m - 1) as i64)) - 1;
                    assert(v as int == -(m as int));
                    Some((v, p))
                } else {
                    None
                }
            },
            None => None,
        }
    } else {
        proof {
            if pos < n {
                assert(s@.skip(pos as int)[0] == s@[pos as int]);
            }
        }
        match parse_u64_at(s, pos) {
            Some((m, p)) => {
                if m <= (i64::MAX as u64) {
                    Some((m as i64, p))
                } else {
                    None
                }
            },
            None => None,
        }
    }
}

fn parse_record_at(s: &str, pos: usize) -> (r: Option<(ThumbnailMetadata, usize)>)
    requires
        pos <= s@.len(),
    ensures
        match r {
            Some((m, p)) => pos < p <= s@.len() && rec_encodable(m@) && parse_record(
                s@.skip(pos as int),
            ) == Some((m@, s@.skip(p as int))),
            None => parse_record(s@.skip(pos as int)) is None,
        },
{
    match parse_str_at(s, pos) {
        Some((file_id, p1)) => match parse_str_at(s, p1) {
            Some((path, p2)) => match parse_u64_at(s, p2) {
                Some((size, p3)) => match parse_i64_at(s, p3) {
                    Some((modified_time, p4)) => {
                        let m = ThumbnailMetadata { file_id, path, size, modified_time };
                        proof {
                            assert(parse_record(s@.skip(pos as int)).unwrap().0 =~= m@);
                        }
                        Some((m, p4))
                    },
                    None => None,
                },
                None => None,
            },
            None => None,
        },
        None => None,
    }
}

/// Parses a whole snapshot; `None` is a malformed snapshot.
pub fn parse_index(s: &str) -> (r: Option<Vec<ThumbnailMetadata>>)
    ensures
        match r {
            Some(v) => parse_records(s@) == Some(views_of(v@)) && forall|i: int|
                0 <= i < v@.len() ==> rec_encodable(#[trigger] v@[i]@),
            None => parse_records(s@) is None,
        },
{
    let n = s.unicode_len();
    let mut acc: Vec<ThumbnailMetadata> = Vec::new();
    let mut pos: usize = 0;
    proof {
        assert(s@.skip(0) =~= s@);
    }
    while pos < n
        invariant
            pos <= n,
            n == s@.len(),
            forall|i: int| 0 <= i < acc@.len() ==> rec_encodable(#[trigger] acc@[i]@),
            match parse_records(s@.skip(pos as int)) {
                Some(tail) => parse_records(s@) == Some(views_of(acc@) + tail),
                None => parse_records(s@) is None,
            },
        decreases n - pos,
    {
        assert(s@.skip(pos as int).len() > 0);
        match parse_record_at(s, pos) {
            Some((m, p)) => {
                proof {
                    if parse_records(s@.skip(p as int)) is Some {
                        let tail = parse_records(s@.skip(p as int)).unwrap();
                        assert(parse_records(s@.skip(pos as int)) == Some(seq![m@] + tail));
                        assert(views_of(acc@.push(m)) =~= views_of(acc@).push(m@));
                        assert(views_of(acc@) + (seq![m@] + tail) =~= views_of(acc@.push(m))
                            + tail);
                    }
                }
                acc.push(m);
                pos = p;
            },
            None => {
                return None;
            },
        }
    }
    proof {
        assert(s@.skip(pos as int).len() == 0);
        assert(parse_records(s@.skip(pos as int)) == Some(Seq::<RecordV>::empty()));
        assert(views_of(acc@) + Seq::<RecordV>::empty() =~= views_of(acc@));
    }
    Some(acc)
}

} // verus!
