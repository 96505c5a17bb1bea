//! The wire format: little-endian integers, length-prefixed UTF-8 strings and
//! count-prefixed sequences, in a fixed field order.
use borsh::BorshDeserialize;
use borsh::BorshSerialize;
use vstd::prelude::*;
use vstd::seq_lib::lemma_concat_associative;
use vstd::slice::slice_subrange;
use vstd::utf8::*;

verus! {

broadcast use {encode_utf8_valid_utf8, encode_utf8_decode_utf8};

/// The four little-endian bytes of a `u32`.
pub open spec fn enc_u32(v: u32) -> Seq<u8> {
    seq![v as u8, (v >> 8u32) as u8, (v >> 16u32) as u8, (v >> 24u32) as u8]
}

/// The `u32` whose little-endian bytes open `b`.
pub open spec fn dec_u32(b: Seq<u8>) -> u32
    recommends
        b.len() >= 4,
{
    (b[0] as u32) | ((b[1] as u32) << 8u32) | ((b[2] as u32) << 16u32) | ((b[3] as u32)
        << 24u32)
}

/// The eight little-endian bytes of a `u64`.
pub open spec fn enc_u64(v: u64) -> Seq<u8> {
    seq![
        v as u8,
        (v >> 8u64) as u8,
        (v >> 16u64) as u8,
        (v >> 24u64) as u8,
        (v >> 32u64) as u8,
        (v >> 40u64) as u8,
        (v >> 48u64) as u8,
        (v >> 56u64) as u8,
    ]
}

/// The `u64` whose little-endian bytes open `b`.
pub open spec fn dec_u64(b: Seq<u8>) -> u64
    recommends
        b.len() >= 8,
{
    (b[0] as u64) | ((b[1] as u64) << 8u64) | ((b[2] as u64) << 16u64) | ((b[3] as u64)
        << 24u64) | ((b[4] as u64) << 32u64) | ((b[5] as u64) << 40u64) | ((b[6] as u64)
        << 48u64) | ((b[7] as u64) << 56u64)
}

/// Reads a `u32` off the front of `b`.
pub open spec fn parse_u32(b: Seq<u8>) -> Option<(u32, Seq<u8>)> {
    if b.len() >= 4 {
        Some((dec_u32(b), b.subrange(4, b.len() as int)))
    } else {
        None
    }
}

/// Reads a `u64` off the front of `b`.
pub open spec fn parse_u64(b: Seq<u8>) -> Option<(u64, Seq<u8>)> {
    if b.len() >= 8 {
        Some((dec_u64(b), b.subrange(8, b.len() as int)))
    } else {
        None
    }
}

/// Reads one byte off the front of `b`.
pub open spec fn parse_u8(b: Seq<u8>) -> Option<(u8, Seq<u8>)> {
    if b.len() >= 1 {
        Some((b[0], b.subrange(1, b.len() as int)))
    } else {
        None
    }
}

/// A string on the wire: its UTF-8 byte count as a `u32`, then the bytes.
#[verifier::opaque]
pub open spec fn enc_str(s: Seq<char>) -> Seq<u8> {
    enc_u32(encode_utf8(s).len() as u32) + encode_utf8(s)
}

/// Whether a string's byte count fits its `u32` prefix.
pub open spec fn str_fits(s: Seq<char>) -> bool {
    encode_utf8(s).len() <= u32::MAX
}

/// Reads a string off the front of `b`: the count must be covered by the
/// bytes that follow, and those bytes must be UTF-8.
#[verifier::opaque]
pub open spec fn parse_str(b: Seq<u8>) -> Option<(Seq<char>, Seq<u8>)> {
    if b.len() >= 4 {
        let n = dec_u32(b) as int;
        if 4 + n <= b.len() && valid_utf8(b.subrange(4, 4 + n)) {
            Some((decode_utf8(b.subrange(4, 4 + n)), b.subrange(4 + n, b.len() as int)))
        } else {
            None
        }
    } else {
        None
    }
}

/// Strings laid end to end, with no count in front.
pub open spec fn enc_strs(ss: Seq<Seq<char>>) -> Seq<u8>
    decreases ss.len(),
{
    if ss.len() == 0 {
        Seq::empty()
    } else {
        enc_str(ss[0]) + enc_strs(ss.drop_first())
    }
}

/// Reads `k` strings one after another off the front of `b`.
pub open spec fn parse_strs(b: Seq<u8>, k: nat) -> Option<(Seq<Seq<char>>, Seq<u8>)>
    decreases k,
{
    if k == 0 {
        Some((Seq::empty(), b))
    } else {
        match parse_str(b) {
            None => None,
            Some((s, rest)) => match parse_strs(rest, (k - 1) as nat) {
                None => None,
                Some((ss, rest2)) => Some((seq![s].add(ss), rest2)),
            },
        }
    }
}

pub proof fn lemma_u32_round_trip(v: u32)
    ensures
        dec_u32(enc_u32(v)) == v,
{
    let b = enc_u32(v);
    let (b0, b1, b2, b3) = (b[0], b[1], b[2], b[3]);
    assert(b0 == v as u8 && b1 == (v >> 8u32) as u8 && b2 == (v >> 16u32) as u8 && b3 == (v
        >> 24u32) as u8);
    assert(b0 == v as u8 && b1 == (v >> 8u32) as u8 && b2 == (v >> 16u32) as u8 && b3 == (v
        >> 24u32) as u8 ==> (b0 as u32) | ((b1 as u32) << 8u32) | ((b2 as u32) << 16u32) | ((
    b3 as u32) << 24u32) == v) by (bit_vector);
}

pub proof fn lemma_u64_round_trip(v: u64)
    ensures
        dec_u64(enc_u64(v)) == v,
{
    let b = enc_u64(v);
    let (b0, b1, b2, b3, b4, b5, b6, b7) = (b[0], b[1], b[2], b[3], b[4], b[5], b[6], b[7]);
    assert(b0 == v as u8 && b1 == (v >> 8u64) as u8 && b2 == (v >> 16u64) as u8 && b3 == (v
        >> 24u64) as u8 && b4 == (v >> 32u64) as u8 && b5 == (v >> 40u64) as u8 && b6 == (v
        >> 48u64) as u8 && b7 == (v >> 56u64) as u8);
    assert(b0 == v as u8 && b1 == (v >> 8u64) as u8 && b2 == (v >> 16u64) as u8 && b3 == (v
        >> 24u64) as u8 && b4 == (v >> 32u64) as u8 && b5 == (v >> 40u64) as u8 && b6 == (v
        >> 48u64) as u8 && b7 == (v >> 56u64) as u8 ==> (b0 as u64) | ((b1 as u64) << 8u64)
        | ((b2 as u64) << 16u64) | ((b3 as u64) << 24u64) | ((b4 as u64) << 32u64) | ((
    b5 as u64) << 40u64) | ((b6 as u64) << 48u64) | ((b7 as u64) << 56u64) == v)
        by (bit_vector);
}

pub proof fn lemma_parse_u32(v: u32, rest: Seq<u8>)
    ensures
        parse_u32(enc_u32(v) + rest) == Some((v, rest)),
{
    lemma_u32_round_trip(v);
    let b = enc_u32(v) + rest;
    assert(b.subrange(4, b.len() as int) =~= rest);
    assert(dec_u32(b) == dec_u32(enc_u32(v)));
}

pub proof fn lemma_parse_u64(v: u64, rest: Seq<u8>)
    ensures
        parse_u64(enc_u64(v) + rest) == Some((v, rest)),
{
    lemma_u64_round_trip(v);
    let b = enc_u64(v) + rest;
    assert(b.subrange(8, b.len() as int) =~= rest);
    assert(dec_u64(b) == dec_u64(enc_u64(v)));
}

pub proof fn lemma_parse_u8(v: u8, rest: Seq<u8>)
    ensures
        parse_u8(seq![v] + rest) == Some((v, rest)),
{
    let b = seq![v] + rest;
    assert(b.subrange(1, b.len() as int) =~= rest);
}

pub proof fn lemma_parse_str(s: Seq<char>, rest: Seq<u8>)
    requires
        str_fits(s),
    ensures
        parse_str(enc_str(s) + rest) == Some((s, rest)),
{
    reveal(enc_str);
    reveal(parse_str);
    let u = encode_utf8(s);
    let n = u.len() as u32;
    let b = enc_str(s) + rest;
    assert(b =~= enc_u32(n) + (u + rest));
    lemma_parse_u32(n, u + rest);
    assert(b.subrange(4, b.len() as int) =~= u + rest);
    assert(b.subrange(4, 4 + n as int) =~= u);
    assert(b.subrange(4 + n as int, b.len() as int) =~= rest);
}

proof fn lemma_parse_strs_len(b: Seq<u8>, k: nat)
    ensures
        parse_strs(b, k) matches Some((ss, _)) ==> ss.len() == k,
    decreases k,
{
    if k > 0 {
        if let Some((s, rest)) = parse_str(b) {
            lemma_parse_strs_len(rest, (k - 1) as nat);
        }
    }
}

pub proof fn lemma_parse_strs(ss: Seq<Seq<char>>, rest: Seq<u8>)
    requires
        forall|i: int| 0 <= i < ss.len() ==> str_fits(#[trigger] ss[i]),
    ensures
        parse_strs(enc_strs(ss) + rest, ss.len()) == Some((ss, rest)),
    decreases ss.len(),
{
    if ss.len() > 0 {
        let tail = ss.drop_first();
        assert(enc_strs(ss) + rest =~= enc_str(ss[0]) + (enc_strs(tail) + rest));
        lemma_parse_str(ss[0], enc_strs(tail) + rest);
        lemma_parse_strs(tail, rest);
        assert(seq![ss[0]].add(tail) =~= ss);
    }
}

/// Relies on borsh's `BorshDeserialize` for `String`: a little-endian `u32`
/// byte count, then that many bytes, which must be UTF-8; what follows is left.
#[verifier::external_body]
fn read_string<'a>(buf: &'a [u8]) -> (r: Option<(String, &'a [u8])>)
    ensures
        match r {
            Some((s, rest)) => parse_str(buf@) == Some((s@, rest@)),
            None => parse_str(buf@) is None,
        },
{
    let mut rest = buf;
    match String::deserialize(&mut rest) {
        Ok(s) => Some((s, rest)),
        Err(_) => None,
    }
}

/// Relies on borsh's `BorshSerialize` for `String`: it appends the UTF-8 byte
/// count as a little-endian `u32`, then the bytes; it fails only when the count
/// does not fit in a `u32`.
#[verifier::external_body]
fn write_string(s: &String, out: &mut Vec<u8>)
    requires
        str_fits(s@),
    ensures
        final(out)@ == old(out)@ + enc_str(s@),
{
    let _ = s.serialize(out);
}

fn read_u32(buf: &[u8]) -> (r: Option<(u32, &[u8])>)
    ensures
        match r {
            Some((v, rest)) => parse_u32(buf@) == Some((v, rest@)),
            None => parse_u32(buf@) is None,
        },
{
    if buf.len() < 4 {
        return None;
    }
    let v: u32 = (buf[0] as u32) | ((buf[1] as u32) << 8u32) | ((buf[2] as u32) << 16u32) | ((
    buf[3] as u32) << 24u32);
    Some((v, slice_subrange(buf, 4, buf.len())))
}

fn read_u64(buf: &[u8]) -> (r: Option<(u64, &[u8])>)
    ensures
        match r {
            Some((v, rest)) => parse_u64(buf@) == Some((v, rest@)),
            None => parse_u64(buf@) is None,
        },
{
    if buf.len() < 8 {
        return None;
    }
    let v: u64 = (buf[0] as u64) | ((buf[1] as u64) << 8u64) | ((buf[2] as u64) << 16u64) | ((
    buf[3] as u64) << 24u64) | ((buf[4] as u64) << 32u64) | ((buf[5] as u64) << 40u64) | ((
    buf[6] as u64) << 48u64) | ((buf[7] as u64) << 56u64);
    Some((v, slice_subrange(buf, 8, buf.len())))
}

fn read_u8(buf: &[u8]) -> (r: Option<(u8, &[u8])>)
    ensures
        match r {
            Some((v, rest)) => parse_u8(buf@) == Some((v, rest@)),
            None => parse_u8(buf@) is None,
        },
{
    if buf.len() < 1 {
        return None;
    }
    Some((buf[0], slice_subrange(buf, 1, buf.len())))
}

fn write_u32(v: u32, out: &mut Vec<u8>)
    ensures
        final(out)@ == old(out)@ + enc_u32(v),
{
    out.push(v as u8);
    out.push((v >> 8u32) as u8);
    out.push((v >> 16u32) as u8);
    out.push((v >> 24u32) as u8);
    assert(final(out)@ =~= old(out)@ + enc_u32(v));
}

fn write_u64(v: u64, out: &mut Vec<u8>)
    ensures
        final(out)@ == old(out)@ + enc_u64(v),
{
    out.push(v as u8);
    out.push((v >> 8u64) as u8);
    out.push((v >> 16u64) as u8);
    out.push((v >> 24u64) as u8);
    out.push((v >> 32u64) as u8);
    out.push((v >> 40u64) as u8);
    out.push((v >> 48u64) as u8);
    out.push((v >> 56u64) as u8);
    assert(final(out)@ =~= old(out)@ + enc_u64(v));
}


fn read_strings<'a>(buf: &'a [u8], k: u32) -> (r: Option<(Vec<String>, &'a [u8])>)
    ensures
        match r {
            Some((v, rest)) => parse_strs(buf@, k as nat) == Some((
                v@.map_values(|s: String| s@),
                rest@,
            )),
            None => parse_strs(buf@, k as nat) is None,
        },
{
    let mut out: Vec<String> = Vec::new();
    let mut rest = buf;
    let mut i: u32 = 0;
    while i < k
        invariant
            i <= k,
            parse_strs(buf@, k as nat) == match parse_strs(rest@, (k - i) as nat) {
                None => None,
                Some((ss, r2)) => Some((out@.map_values(|s: String| s@) + ss, r2)),
            },
        decreases k - i,
    {
        match read_string(rest) {
            None => {
                return None;
            },
            Some((s, r2)) => {
                let ghost old_out = out@.map_values(|s: String| s@);
                proof {
                    match parse_strs(r2@, (k - i - 1) as nat) {
                        None => {},
                        Some((ss, r3)) => {
                            assert(old_out + (seq![s@] + ss) =~= old_out.push(s@) + ss);
                        },
                    }
                }
                out.push(s);
                rest = r2;
                i = i + 1;
                assert(out@.map_values(|s: String| s@) =~= old_out.push(s@));
            },
        }
    }
    proof {
        assert(out@.map_values(|s: String| s@) + Seq::empty() =~= out@.map_values(|s: String| s@));
    }
    Some((out, rest))
}


fn write_strings(ss: &Vec<String>, out: &mut Vec<u8>)
    requires
        forall|i: int| 0 <= i < ss@.len() ==> str_fits(#[trigger] ss@[i]@),
    ensures
        final(out)@ == old(out)@ + enc_strs(ss@.map_values(|s: String| s@)),
{
    let ghost all = ss@.map_values(|s: String| s@);
    let mut i: usize = 0;
    assert(all.subrange(0, all.len() as int) =~= all);
    while i < ss.len()
        invariant
            i <= ss@.len(),
            all == ss@.map_values(|s: String| s@),
            forall|j: int| 0 <= j < ss@.len() ==> str_fits(#[trigger] ss@[j]@),
            old(out)@ + enc_strs(all) == out@ + enc_strs(all.subrange(i as int, all.len() as int)),
        decreases ss@.len() - i,
    {
        let ghost before = out@;
        write_string(&ss[i], out);
        proof {
            let tail = all.subrange(i as int, all.len() as int);
            assert(tail.drop_first() =~= all.subrange(i + 1, all.len() as int));
            assert(before + enc_strs(tail) =~= out@ + enc_strs(tail.drop_first()));
        }
        i = i + 1;
    }
    assert(all.subrange(i as int, all.len() as int) =~= Seq::<Seq<char>>::empty());
    assert(old(out)@ + enc_strs(all) =~= out@);
}

/// The seventeen fields of a review, as they stand in a command and in a record.
pub struct ReviewPayload {
    pub from_institution: String,
    pub from_state_province: String,
    pub from_country: String,
    pub to_institution: String,
    pub to_country: String,
    pub date_started: String,
    pub date_ended: String,
    pub ending_salary: u64,
    pub ending_currency: String,
    pub new_salary: u64,
    pub new_currency: String,
    pub date_transferred: String,
    pub skills_earned: Vec<String>,
    pub description: String,
    pub rating: u8,
    pub behaviour: String,
    pub created_at: String,
}

/// The value of a review: each text field as its characters.
pub ghost struct PayloadModel {
    pub from_institution: Seq<char>,
    pub from_state_province: Seq<char>,
    pub from_country: Seq<char>,
    pub to_institution: Seq<char>,
    pub to_country: Seq<char>,
    pub date_started: Seq<char>,
    pub date_ended: Seq<char>,
    pub ending_salary: u64,
    pub ending_currency: Seq<char>,
    pub new_salary: u64,
    pub new_currency: Seq<char>,
    pub date_transferred: Seq<char>,
    pub skills_earned: Seq<Seq<char>>,
    pub description: Seq<char>,
    pub rating: u8,
    pub behaviour: Seq<char>,
    pub created_at: Seq<char>,
}

impl View for ReviewPayload {
    type V = PayloadModel;

    open spec fn view(&self) -> PayloadModel {
        PayloadModel {
            from_institution: self.from_institution@,
            from_state_province: self.from_state_province@,
            from_country: self.from_country@,
            to_institution: self.to_institution@,
            to_country: self.to_country@,
            date_started: self.date_started@,
            date_ended: self.date_ended@,
            ending_salary: self.ending_salary,
            ending_currency: self.ending_currency@,
            new_salary: self.new_salary,
            new_currency: self.new_currency@,
            date_transferred: self.date_transferred@,
            skills_earned: self.skills_earned@.map_values(|s: String| s@),
            description: self.description@,
            rating: self.rating,
            behaviour: self.behaviour@,
            created_at: self.created_at@,
        }
    }
}

/// The seven text fields that open the payload, in wire order.
pub open spec fn head_strs(p: PayloadModel) -> Seq<Seq<char>> {
    seq![
        p.from_institution,
        p.from_state_province,
        p.from_country,
        p.to_institution,
        p.to_country,
        p.date_started,
        p.date_ended,
    ]
}

/// Whether every length prefix of the payload fits in a `u32`.
pub open spec fn payload_fits(p: PayloadModel) -> bool {
    &&& forall|i: int| 0 <= i < 7 ==> str_fits(#[trigger] head_strs(p)[i])
    &&& str_fits(p.ending_currency)
    &&& str_fits(p.new_currency)
    &&& str_fits(p.date_transferred)
    &&& p.skills_earned.len() <= u32::MAX
    &&& forall|i: int| 0 <= i < p.skills_earned.len() ==> str_fits(#[trigger] p.skills_earned[i])
    &&& str_fits(p.description)
    &&& str_fits(p.behaviour)
    &&& str_fits(p.created_at)
}

/// The payload on the wire: its fields in order, the skills preceded by their count.
pub open spec fn enc_payload(p: PayloadModel) -> Seq<u8> {
    enc_strs(head_strs(p)) + enc_u64(p.ending_salary) + enc_str(p.ending_currency) + enc_u64(
        p.new_salary,
    ) + enc_str(p.new_currency) + enc_str(p.date_transferred) + enc_u32(
        p.skills_earned.len() as u32,
    ) + enc_strs(p.skills_earned) + enc_str(p.description) + seq![p.rating] + enc_str(
        p.behaviour,
    ) + enc_str(p.created_at)
}

/// Reads a payload off the front of `b`, field by field in wire order.
pub open spec fn parse_payload(b: Seq<u8>) -> Option<(PayloadModel, Seq<u8>)> {
    match parse_strs(b, 7) {
        None => None,
        Some((head, b)) => match parse_u64(b) {
            None => None,
            Some((ending_salary, b)) => match parse_str(b) {
                None => None,
                Some((ending_currency, b)) => match parse_u64(b) {
                    None => None,
                    Some((new_salary, b)) => match parse_str(b) {
                        None => None,
                        Some((new_currency, b)) => match parse_str(b) {
                            None => None,
                            Some((date_transferred, b)) => match parse_u32(b) {
                                None => None,
                                Some((count, b)) => match parse_strs(b, count as nat) {
                                    None => None,
                                    Some((skills_earned, b)) => match parse_str(b) {
                                        None => None,
                                        Some((description, b)) => match parse_u8(b) {
                                            None => None,
                                            Some((rating, b)) => match parse_str(b) {
                                                None => None,
                                                Some((behaviour, b)) => match parse_str(b) {
                                                    None => None,
                                                    Some((created_at, b)) => Some((
                                                        PayloadModel {
                                                            from_institution: head[0],
                                                            from_state_province: head[1],
                                                            from_country: head[2],
                                                            to_institution: head[3],
                                                            to_country: head[4],
                                                            date_started: head[5],
                                                            date_ended: head[6],
                                                            ending_salary,
                                                            ending_currency,
                                                            new_salary,
                                                            new_currency,
                                                            date_transferred,
                                                            skills_earned,
                                                            description,
                                                            rating,
                                                            behaviour,
                                                            created_at,
                                                        },
                                                        b,
                                                    )),
                                                },
                                            },
                                        },
                                    },
                                },
                            },
                        },
                    },
                },
            },
        },
    }
}

/// Reading back an encoded payload gives the payload and leaves what followed it.
pub proof fn lemma_parse_payload(p: PayloadModel, rest: Seq<u8>)
    requires
        payload_fits(p),
    ensures
        parse_payload(enc_payload(p) + rest) == Some((p, rest)),
{
    let t12 = enc_str(p.created_at) + rest;
    let t11 = enc_str(p.behaviour) + t12;
    let t10 = seq![p.rating] + t11;
    let t9 = enc_str(p.description) + t10;
    let t8 = enc_strs(p.skills_earned) + t9;
    let t7 = enc_u32(p.skills_earned.len() as u32) + t8;
    let t6 = enc_str(p.date_transferred) + t7;
    let t5 = enc_str(p.new_currency) + t6;
    let t4 = enc_u64(p.new_salary) + t5;
    let t3 = enc_str(p.ending_currency) + t4;
    let t2 = enc_u64(p.ending_salary) + t3;
    let t1 = enc_strs(head_strs(p)) + t2;
    lemma_payload_bytes(p, rest);
    lemma_parse_strs(head_strs(p), t2);
    lemma_parse_u64(p.ending_salary, t3);
    lemma_parse_str(p.ending_currency, t4);
    lemma_parse_u64(p.new_salary, t5);
    lemma_parse_str(p.new_currency, t6);
    lemma_parse_str(p.date_transferred, t7);
    lemma_parse_u32(p.skills_earned.len() as u32, t8);
    lemma_parse_strs(p.skills_earned, t9);
    lemma_parse_str(p.description, t10);
    lemma_parse_u8(p.rating, t11);
    lemma_parse_str(p.behaviour, t12);
    lemma_parse_str(p.created_at, rest);
    let head = head_strs(p);
    assert(head.len() == 7);
    assert(parse_strs(t1, 7) == Some((head, t2)));
    assert(parse_u64(t2) == Some((p.ending_salary, t3)));
    assert(parse_str(t3) == Some((p.ending_currency, t4)));
    assert(parse_u64(t4) == Some((p.new_salary, t5)));
    assert(parse_str(t5) == Some((p.new_currency, t6)));
    assert(parse_str(t6) == Some((p.date_transferred, t7)));
    assert(parse_u32(t7) == Some((p.skills_earned.len() as u32, t8)));
    assert((p.skills_earned.len() as u32) as nat == p.skills_earned.len());
    assert(parse_strs(t8, p.skills_earned.len()) == Some((p.skills_earned, t9)));
    assert(parse_str(t9) == Some((p.description, t10)));
    assert(parse_u8(t10) == Some((p.rating, t11)));
    assert(parse_str(t11) == Some((p.behaviour, t12)));
    assert(parse_str(t12) == Some((p.created_at, rest)));
    assert(head[0] == p.from_institution && head[1] == p.from_state_province && head[2]
        == p.from_country && head[3] == p.to_institution && head[4] == p.to_country && head[5]
        == p.date_started && head[6] == p.date_ended);
    assert(parse_payload(t1) == Some((p, rest)));
}

proof fn lemma_payload_bytes(p: PayloadModel, rest: Seq<u8>)
    ensures
        enc_payload(p) + rest == enc_strs(head_strs(p)) + (enc_u64(p.ending_salary) + (enc_str(
            p.ending_currency,
        ) + (enc_u64(p.new_salary) + (enc_str(p.new_currency) + (enc_str(p.date_transferred) + (
        enc_u32(p.skills_earned.len() as u32) + (enc_strs(p.skills_earned) + (enc_str(
            p.description,
        ) + (seq![p.rating] + (enc_str(p.behaviour) + (enc_str(p.created_at) + rest))))))))))),
{
    let a1 = enc_strs(head_strs(p));
    let a2 = enc_u64(p.ending_salary);
    let a3 = enc_str(p.ending_currency);
    let a4 = enc_u64(p.new_salary);
    let a5 = enc_str(p.new_currency);
    let a6 = enc_str(p.date_transferred);
    let a7 = enc_u32(p.skills_earned.len() as u32);
    let a8 = enc_strs(p.skills_earned);
    let a9 = enc_str(p.description);
    let a10 = seq![p.rating];
    let a11 = enc_str(p.behaviour);
    let a12 = enc_str(p.created_at);
    let r12 = a12 + rest;
    let r11 = a11 + r12;
    let r10 = a10 + r11;
    let r9 = a9 + r10;
    let r8 = a8 + r9;
    let r7 = a7 + r8;
    let r6 = a6 + r7;
    let r5 = a5 + r6;
    let r4 = a4 + r5;
    let r3 = a3 + r4;
    let r2 = a2 + r3;
    let l2 = a1 + a2;
    let l3 = l2 + a3;
    let l4 = l3 + a4;
    let l5 = l4 + a5;
    let l6 = l5 + a6;
    let l7 = l6 + a7;
    let l8 = l7 + a8;
    let l9 = l8 + a9;
    let l10 = l9 + a10;
    let l11 = l10 + a11;
    assert(enc_payload(p) == l11 + a12);
    lemma_concat_associative(l11, a12, rest);
    lemma_concat_associative(l10, a11, r12);
    lemma_concat_associative(l9, a10, r11);
    lemma_concat_associative(l8, a9, r10);
    lemma_concat_associative(l7, a8, r9);
    lemma_concat_associative(l6, a7, r8);
    lemma_concat_associative(l5, a6, r7);
    lemma_concat_associative(l4, a5, r6);
    lemma_concat_associative(l3, a4, r5);
    lemma_concat_associative(l2, a3, r4);
    lemma_concat_associative(a1, a2, r3);
}

/// Seven strings laid end to end.
proof fn lemma_enc_seven(ss: Seq<Seq<char>>)
    requires
        ss.len() == 7,
    ensures
        enc_strs(ss) == enc_str(ss[0]) + enc_str(ss[1]) + enc_str(ss[2]) + enc_str(ss[3])
            + enc_str(ss[4]) + enc_str(ss[5]) + enc_str(ss[6]),
{
    reveal_with_fuel(enc_strs, 8);
    let t = ss.drop_first();
    let t2 = t.drop_first();
    let t3 = t2.drop_first();
    let t4 = t3.drop_first();
    let t5 = t4.drop_first();
    let t6 = t5.drop_first();
    let t7 = t6.drop_first();
    assert(t7.len() == 0);
    assert(enc_strs(ss) =~= enc_str(ss[0]) + enc_str(ss[1]) + enc_str(ss[2]) + enc_str(ss[3])
        + enc_str(ss[4]) + enc_str(ss[5]) + enc_str(ss[6]));
}

/// Reads a payload off the front of `buf`; gives it with the bytes that follow.
pub fn decode_payload<'a>(buf: &'a [u8]) -> (r: Option<(ReviewPayload, &'a [u8])>)
    ensures
        match r {
            Some((p, rest)) => parse_payload(buf@) == Some((p@, rest@)),
            None => parse_payload(buf@) is None,
        },
{
    let (mut head, b) = read_strings(buf, 7)?;
    let ghost hv = head@.map_values(|s: String| s@);
    let (ending_salary, b) = read_u64(b)?;
    let (ending_currency, b) = read_string(b)?;
    let (new_salary, b) = read_u64(b)?;
    let (new_currency, b) = read_string(b)?;
    let (date_transferred, b) = read_string(b)?;
    let (count, b) = read_u32(b)?;
    let (skills_earned, b) = read_strings(b, count)?;
    let (description, b) = read_string(b)?;
    let (rating, b) = read_u8(b)?;
    let (behaviour, b) = read_string(b)?;
    let (created_at, b) = read_string(b)?;
    proof {
        lemma_parse_strs_len(buf@, 7);
    }
    let date_ended = head.pop().unwrap();
    let date_started = head.pop().unwrap();
    let to_country = head.pop().unwrap();
    let to_institution = head.pop().unwrap();
    let from_country = head.pop().unwrap();
    let from_state_province = head.pop().unwrap();
    let from_institution = head.pop().unwrap();
    let p = ReviewPayload {
        from_institution,
        from_state_province,
        from_country,
        to_institution,
        to_country,
        date_started,
        date_ended,
        ending_salary,
        ending_currency,
        new_salary,
        new_currency,
        date_transferred,
        skills_earned,
        description,
        rating,
        behaviour,
        created_at,
    };
    assert(p@.from_institution == hv[0] && p@.from_state_province == hv[1] && p@.from_country
        == hv[2] && p@.to_institution == hv[3] && p@.to_country == hv[4] && p@.date_started
        == hv[5] && p@.date_ended == hv[6]);
    Some((p, b))
}

/// Appends the wire form of a payload to `out`.
pub fn encode_payload(p: &ReviewPayload, out: &mut Vec<u8>)
    requires
        payload_fits(p@),
    ensures
        final(out)@ == old(out)@ + enc_payload(p@),
{
    let ghost o = out@;
    assert(str_fits(head_strs(p@)[0]) && str_fits(head_strs(p@)[1]) && str_fits(
        head_strs(p@)[2],
    ) && str_fits(head_strs(p@)[3]) && str_fits(head_strs(p@)[4]) && str_fits(head_strs(p@)[5])
        && str_fits(head_strs(p@)[6]));
    assert forall|i: int| 0 <= i < p.skills_earned@.len() implies str_fits(
        #[trigger] p.skills_earned@[i]@,
    ) by {
        assert(p@.skills_earned[i] == p.skills_earned@[i]@);
    }
    write_string(&p.from_institution, out);
    let ghost mut acc = enc_str(p.from_institution@);
    write_string(&p.from_state_province, out);
    proof {
        lemma_concat_associative(o, acc, enc_str(p.from_state_province@));
        acc = acc + enc_str(p.from_state_province@);
    }
    write_string(&p.from_country, out);
    proof {
        lemma_concat_associative(o, acc, enc_str(p.from_country@));
        acc = acc + enc_str(p.from_country@);
    }
    write_string(&p.to_institution, out);
    proof {
        lemma_concat_associative(o, acc, enc_str(p.to_institution@));
        acc = acc + enc_str(p.to_institution@);
    }
    write_string(&p.to_country, out);
    proof {
        lemma_concat_associative(o, acc, enc_str(p.to_country@));
        acc = acc + enc_str(p.to_country@);
    }
    write_string(&p.date_started, out);
    proof {
        lemma_concat_associative(o, acc, enc_str(p.date_started@));
        acc = acc + enc_str(p.date_started@);
    }
    write_string(&p.date_ended, out);
    proof {
        lemma_concat_associative(o, acc, enc_str(p.date_ended@));
        acc = acc + enc_str(p.date_ended@);
    }
    write_u64(p.ending_salary, out);
    proof {
        lemma_concat_associative(o, acc, enc_u64(p.ending_salary));
        acc = acc + enc_u64(p.ending_salary);
    }
    write_string(&p.ending_currency, out);
    proof {
        lemma_concat_associative(o, acc, enc_str(p.ending_currency@));
        acc = acc + enc_str(p.ending_currency@);
    }
    write_u64(p.new_salary, out);
    proof {
        lemma_concat_associative(o, acc, enc_u64(p.new_salary));
        acc = acc + enc_u64(p.new_salary);
    }
    write_string(&p.new_currency, out);
    proof {
        lemma_concat_associative(o, acc, enc_str(p.new_currency@));
        acc = acc + enc_str(p.new_currency@);
    }
    write_string(&p.date_transferred, out);
    proof {
        lemma_concat_associative(o, acc, enc_str(p.date_transferred@));
        acc = acc + enc_str(p.date_transferred@);
    }
    write_u32(p.skills_earned.len() as u32, out);
    proof {
        lemma_concat_associative(o, acc, enc_u32(p.skills_earned@.len() as u32));
        acc = acc + enc_u32(p.skills_earned@.len() as u32);
    }
    write_strings(&p.skills_earned, out);
    proof {
        lemma_concat_associative(o, acc, enc_strs(p@.skills_earned));
        acc = acc + enc_strs(p@.skills_earned);
    }
    write_string(&p.description, out);
    proof {
        lemma_concat_associative(o, acc, enc_str(p.description@));
        acc = acc + enc_str(p.description@);
    }
    out.push(p.rating);
    proof {
        lemma_concat_associative(o, acc, seq![p.rating]);
        acc = acc + seq![p.rating];
    }
    write_string(&p.behaviour, out);
    proof {
        lemma_concat_associative(o, acc, enc_str(p.behaviour@));
        acc = acc + enc_str(p.behaviour@);
    }
    write_string(&p.created_at, out);
    proof {
        lemma_concat_associative(o, acc, enc_str(p.created_at@));
        acc = acc + enc_str(p.created_at@);
    }
    proof {
        lemma_enc_seven(head_strs(p@));
        assert(acc == enc_payload(p@));
    }
}

} // verus!
