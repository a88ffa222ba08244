use vstd::prelude::*;

use crate::event::{TrackingData, TrackingEvent};
use vstd::utf8::{decode_utf8, encode_utf8, encode_utf8_decode_utf8, encode_utf8_valid_utf8,
    valid_utf8};

verus! {

/// The shape of one persisted event: its kind, the characters of its
/// description if it has one, and its instant in UTC seconds.
pub ghost struct EventAbs {
    pub start: bool,
    pub desc: Option<Seq<char>>,
    pub time: int,
}

/// What an in-memory event persists as.
pub open spec fn event_abs(e: TrackingEvent) -> EventAbs {
    EventAbs {
        start: e.spec_is_start(),
        desc: (match e.spec_description() {
            Option::Some(d) => Option::Some(d@),
            Option::None => Option::None,
        }),
        time: e.spec_time() as int,
    }
}

/// What a whole log persists as, in order.
pub open spec fn abs_seq(log: Seq<TrackingEvent>) -> Seq<EventAbs> {
    Seq::new(log.len(), |i: int| event_abs(log[i]))
}

pub open spec fn pow256(k: nat) -> int
    decreases k,
{
    if k == 0 {
        1
    } else {
        256 * pow256((k - 1) as nat)
    }
}

/// `v` written as `k` little-endian base-256 digits.
pub open spec fn enc_le(v: int, k: nat) -> Seq<u8>
    decreases k,
{
    if k == 0 {
        Seq::<u8>::empty()
    } else {
        seq![(v % 256) as u8] + enc_le(v / 256, (k - 1) as nat)
    }
}

/// The number a little-endian base-256 digit string denotes.
pub open spec fn dec_le(s: Seq<u8>) -> int
    decreases s.len(),
{
    if s.len() == 0 {
        0
    } else {
        (s[0] as int) + 256 * dec_le(s.drop_first())
    }
}

/// Instants are stored shifted by 2^63 so that the stored word is never
/// negative.
pub open spec fn time_code(t: int) -> int {
    t + 0x8000_0000_0000_0000
}

/// One event on the wire: a kind byte (1 Start, 0 Stop), a presence byte
/// for the description (1 followed by its byte length and UTF-8 bytes, or
/// a bare 0), then the shifted instant as eight bytes.
pub open spec fn enc_event(e: EventAbs) -> Seq<u8> {
    seq![(if e.start {
        1u8
    } else {
        0u8
    })] + (match e.desc {
        Option::Some(d) => seq![1u8] + enc_le(encode_utf8(d).len() as int, 8) + encode_utf8(d),
        Option::None => seq![0u8],
    }) + enc_le(time_code(e.time), 8)
}

pub open spec fn enc_events(s: Seq<EventAbs>) -> Seq<u8>
    decreases s.len(),
{
    if s.len() == 0 {
        Seq::<u8>::empty()
    } else {
        enc_event(s[0]) + enc_events(s.drop_first())
    }
}

/// A whole log on the wire: the event count as eight bytes, then the
/// events in order.
pub open spec fn spec_encode(s: Seq<EventAbs>) -> Seq<u8> {
    enc_le(s.len() as int, 8) + enc_events(s)
}

/// Reads one event off the front of the buffer: the event and how many
/// bytes it took, or None when the bytes are malformed.
pub open spec fn dec_event(b: Seq<u8>) -> Option<(EventAbs, int)> {
    if b.len() < 10 {
        Option::None
    } else {
        let tag = b[0];
        let flag = b[1];
        if tag != 0u8 && tag != 1u8 {
            Option::None
        } else if flag == 0u8 {
            let u = dec_le(b.subrange(2, 10));
            Option::Some(
                (
                    (EventAbs {
                        start: tag == 1u8,
                        desc: Option::None,
                        time: u - 0x8000_0000_0000_0000,
                    }),
                    10,
                ),
            )
        } else if flag == 1u8 {
            let l = dec_le(b.subrange(2, 10));
            if b.len() < 18 + l {
                Option::None
            } else {
                let dbytes = b.subrange(10, 10 + l);
                if !valid_utf8(dbytes) {
                    Option::None
                } else {
                    let u = dec_le(b.subrange(10 + l, 18 + l));
                    Option::Some(
                        (
                            (EventAbs {
                                start: tag == 1u8,
                                desc: Option::Some(decode_utf8(dbytes)),
                                time: u - 0x8000_0000_0000_0000,
                            }),
                            18 + l,
                        ),
                    )
                }
            }
        } else {
            Option::None
        }
    }
}

/// Reads exactly `n` events, consuming the whole buffer.
pub open spec fn dec_events(b: Seq<u8>, n: nat) -> Option<Seq<EventAbs>>
    decreases n,
{
    if n == 0 {
        if b.len() == 0 {
            Option::Some(Seq::<EventAbs>::empty())
        } else {
            Option::None
        }
    } else {
        match dec_event(b) {
            Option::None => Option::None,
            Option::Some(p) => match dec_events(b.skip(p.1), (n - 1) as nat) {
                Option::None => Option::None,
                Option::Some(rest) => Option::Some(seq![p.0] + rest),
            },
        }
    }
}

pub open spec fn spec_decode(b: Seq<u8>) -> Option<Seq<EventAbs>> {
    if b.len() < 8 {
        Option::None
    } else {
        dec_events(b.skip(8), dec_le(b.subrange(0, 8)) as nat)
    }
}

/// What every persistable log satisfies: instants fit the stored word and
/// lengths fit eight base-256 digits.
pub open spec fn event_abs_valid(e: EventAbs) -> bool {
    &&& -0x8000_0000_0000_0000 <= e.time < 0x8000_0000_0000_0000
    &&& (e.desc matches Option::Some(d) ==> encode_utf8(d).len() < 0x1_0000_0000_0000_0000)
}

pub open spec fn model_valid(s: Seq<EventAbs>) -> bool {
    &&& s.len() < 0x1_0000_0000_0000_0000
    &&& forall|i: int| 0 <= i < s.len() ==> event_abs_valid(#[trigger] s[i])
}

/// Eight base-256 digits cover exactly the 64-bit range.
pub proof fn lemma_pow256_8()
    ensures
        pow256(8) == 0x1_0000_0000_0000_0000,
{
    assert(pow256(0) == 1);
    assert(pow256(1) == 256);
    assert(pow256(2) == 0x1_0000);
    assert(pow256(3) == 0x100_0000);
    assert(pow256(4) == 0x1_0000_0000);
    assert(pow256(5) == 0x100_0000_0000);
    assert(pow256(6) == 0x1_0000_0000_0000);
    assert(pow256(7) == 0x100_0000_0000_0000);
}

pub proof fn lemma_pow256_pos(k: nat)
    ensures
        pow256(k) >= 1,
    decreases k,
{
    if k > 0 {
        lemma_pow256_pos((k - 1) as nat);
    }
}

pub proof fn lemma_pow256_increases(a: nat, b: nat)
    requires
        a <= b,
    ensures
        pow256(a) <= pow256(b),
    decreases b,
{
    if a < b {
        lemma_pow256_increases(a, (b - 1) as nat);
        lemma_pow256_pos((b - 1) as nat);
    }
}

pub proof fn lemma_enc_le_len(v: int, k: nat)
    ensures
        enc_le(v, k).len() == k,
    decreases k,
{
    if k > 0 {
        lemma_enc_le_len(v / 256, (k - 1) as nat);
    }
}

/// Little-endian digits read back as the number they were written from.
pub proof fn lemma_dec_enc_le(v: int, k: nat)
    requires
        0 <= v < pow256(k),
    ensures
        dec_le(enc_le(v, k)) == v,
    decreases k,
{
    if k > 0 {
        vstd::arithmetic::div_mod::lemma_fundamental_div_mod(v, 256);
        lemma_pow256_pos((k - 1) as nat);
        assert(v / 256 < pow256((k - 1) as nat)) by {
            if v / 256 >= pow256((k - 1) as nat) {
                vstd::arithmetic::mul::lemma_mul_inequality(
                    pow256((k - 1) as nat),
                    v / 256,
                    256,
                );
            }
        }
        lemma_dec_enc_le(v / 256, (k - 1) as nat);
        let s = enc_le(v, k);
        assert(s.drop_first() =~= enc_le(v / 256, (k - 1) as nat));
    }
}

/// One encoded event reads back as itself, whatever follows it.
pub proof fn lemma_dec_enc_event(e: EventAbs, rest: Seq<u8>)
    requires
        event_abs_valid(e),
    ensures
        dec_event(enc_event(e) + rest) == Option::Some((e, enc_event(e).len() as int)),
{
    let enc = enc_event(e);
    let b = enc + rest;
    let tc = time_code(e.time);
    lemma_pow256_8();
    lemma_enc_le_len(tc, 8);
    lemma_dec_enc_le(tc, 8);
    match e.desc {
        Option::None => {
            assert(enc.len() == 10);
            assert(b[0] == (if e.start {
                1u8
            } else {
                0u8
            }));
            assert(b[1] == 0u8);
            assert(b.subrange(2, 10) =~= enc_le(tc, 8));
            let p = dec_event(b)->Some_0;
            assert(p.0 =~= e);
        },
        Option::Some(d) => {
            let db = encode_utf8(d);
            let l = db.len() as int;
            lemma_enc_le_len(l, 8);
            lemma_dec_enc_le(l, 8);
            encode_utf8_valid_utf8(d);
            encode_utf8_decode_utf8(d);
            assert(enc.len() == 18 + l);
            assert(b[0] == (if e.start {
                1u8
            } else {
                0u8
            }));
            assert(b[1] == 1u8);
            assert(b.subrange(2, 10) =~= enc_le(l, 8));
            assert(b.subrange(10, 10 + l) =~= db);
            assert(b.subrange(10 + l, 18 + l) =~= enc_le(tc, 8));
            let p = dec_event(b)->Some_0;
            assert(p.0 =~= e);
        },
    }
}

/// An encoded run of events reads back as itself.
pub proof fn lemma_dec_enc_events(s: Seq<EventAbs>)
    requires
        forall|i: int| 0 <= i < s.len() ==> event_abs_valid(#[trigger] s[i]),
    ensures
        dec_events(enc_events(s), s.len()) == Option::Some(s),
    decreases s.len(),
{
    if s.len() == 0 {
        assert(enc_events(s).len() == 0);
    } else {
        let b = enc_events(s);
        lemma_dec_enc_event(s[0], enc_events(s.drop_first()));
        assert(b.skip(enc_event(s[0]).len() as int) =~= enc_events(s.drop_first()));
        lemma_dec_enc_events(s.drop_first());
        assert(seq![s[0]] + s.drop_first() =~= s);
    }
}

/// Writing a log and reading it back yields the same ordered sequence of
/// events: same count, same order, same descriptions and same instants at
/// the encoded precision.
pub proof fn lemma_encode_decode_round_trip(s: Seq<EventAbs>)
    requires
        model_valid(s),
    ensures
        spec_decode(spec_encode(s)) == Option::Some(s),
{
    let b = spec_encode(s);
    let n = s.len() as int;
    lemma_pow256_8();
    lemma_enc_le_len(n, 8);
    lemma_dec_enc_le(n, 8);
    assert(b.subrange(0, 8) =~= enc_le(n, 8));
    assert(b.skip(8) =~= enc_events(s));
    lemma_dec_enc_events(s);
}

/// Reads the eight-byte little-endian word at `pos`.
fn read_u64_le(b: &[u8], pos: usize) -> (v: u64)
    requires
        pos + 8 <= b@.len(),
    ensures
        v as int == dec_le(b@.subrange(pos as int, pos + 8)),
{
    let n = b.len();
    let ghost s = b@.subrange(pos as int, pos + 8);
    proof {
        lemma_pow256_8();
    }
    let mut acc: u64 = 0;
    let mut k: usize = 8;
    while k > 0
        invariant
            k <= 8,
            pos + 8 <= n == b@.len(),
            s == b@.subrange(pos as int, pos + 8),
            acc as int == dec_le(s.skip(k as int)),
            (acc as int) < pow256((8 - k) as nat),
        decreases k,
    {
        proof {
            lemma_pow256_8();
            lemma_dec_le_bound(s.skip(k - 1 as int));
            lemma_pow256_pos((8 - k) as nat);
            assert(s.skip(k - 1 as int).drop_first() =~= s.skip(k as int));
            assert(s.skip(k - 1 as int)[0] == s[k - 1 as int]);
            assert(s[k - 1 as int] == b@[pos + k - 1]);
            assert(pow256((8 - (k - 1)) as nat) == 256 * pow256((8 - k) as nat));
            assert((acc as int) * 256 <= (pow256((8 - k) as nat) - 1) * 256) by {
                vstd::arithmetic::mul::lemma_mul_inequality(
                    acc as int,
                    pow256((8 - k) as nat) - 1,
                    256,
                );
            }
            lemma_pow256_increases((8 - (k - 1)) as nat, 8);
        }
        acc = acc * 256 + b[pos + k - 1] as u64;
        k = k - 1;
    }
    proof {
        assert(s.skip(0) =~= s);
    }
    acc
}

/// A digit string this short denotes less than `pow256` of its length.
pub proof fn lemma_dec_le_bound(s: Seq<u8>)
    ensures
        0 <= dec_le(s) < pow256(s.len()),
    decreases s.len(),
{
    if s.len() > 0 {
        lemma_dec_le_bound(s.drop_first());
    }
}

/// Appends the eight-byte little-endian form of `v`.
fn write_u64_le(out: &mut Vec<u8>, v: u64)
    ensures
        final(out)@ == old(out)@ + enc_le(v as int, 8),
{
    let mut vv: u64 = v;
    let mut k: usize = 0;
    while k < 8
        invariant
            k <= 8,
            out@ + enc_le(vv as int, (8 - k) as nat) == old(out)@ + enc_le(v as int, 8),
        decreases 8 - k,
    {
        proof {
            assert(out@.push((vv % 256) as u8) + enc_le(vv as int / 256, (8 - k - 1) as nat)
                =~= out@ + enc_le(vv as int, (8 - k) as nat));
        }
        out.push((vv % 256) as u8);
        vv = vv / 256;
        k = k + 1;
    }
    proof {
        assert(out@ + enc_le(vv as int, 0) =~= out@);
    }
}

/// Appending an event extends the encoded run by that event's bytes.
proof fn lemma_enc_events_push(s: Seq<EventAbs>, e: EventAbs)
    ensures
        enc_events(s.push(e)) == enc_events(s) + enc_event(e),
    decreases s.len(),
{
    if s.len() == 0 {
        assert(s.push(e)[0] == e);
        assert(s.push(e).drop_first() =~= Seq::<EventAbs>::empty());
        assert(enc_events(s.push(e)) == enc_event(e) + enc_events(s.push(e).drop_first()));
        assert(enc_events(s.push(e).drop_first()) == Seq::<u8>::empty());
        assert(enc_events(s.push(e)) =~= enc_events(s) + enc_event(e));
    } else {
        assert(s.push(e)[0] == s[0]);
        assert(s.push(e).drop_first() =~= s.drop_first().push(e));
        lemma_enc_events_push(s.drop_first(), e);
        assert(enc_events(s.push(e)) == enc_event(s[0]) + (enc_events(s.drop_first())
            + enc_event(e)));
        assert(enc_events(s.push(e)) =~= enc_events(s) + enc_event(e));
    }
}

/// Encodes the whole log for persistence; total, and exact down to each
/// byte of the result.
pub fn encode_log(log: &Vec<TrackingEvent>) -> (r: Vec<u8>)
    ensures
        r@ == spec_encode(abs_seq(log@)),
        model_valid(abs_seq(log@)),
{
    let mut out: Vec<u8> = Vec::new();
    write_u64_le(&mut out, log.len() as u64);
    let mut i: usize = 0;
    proof {
        assert(abs_seq(log@).len() == log@.len());
        assert(abs_seq(log@.subrange(0, 0)) =~= Seq::<EventAbs>::empty());
        assert(out@ =~= enc_le(log@.len() as int, 8) + enc_events(abs_seq(log@.subrange(0, 0))));
    }
    while i < log.len()
        invariant
            i <= log@.len(),
            out@ == enc_le(log@.len() as int, 8) + enc_events(abs_seq(log@.subrange(0, i as int))),
            forall|j: int| 0 <= j < i ==> event_abs_valid(#[trigger] abs_seq(log@)[j]),
        decreases log@.len() - i,
    {
        let ghost prefix = abs_seq(log@.subrange(0, i as int));
        let ghost e_abs = event_abs(log@[i as int]);
        let (tag, description, time): (u8, &Option<String>, i64) = match &log[i] {
            TrackingEvent::Start(TrackingData { description, time }) => (1u8, description, *time),
            TrackingEvent::Stop(TrackingData { description, time }) => (0u8, description, *time),
        };
        out.push(tag);
        match description {
            Option::Some(d) => {
                let mut dbytes = d.as_str().as_bytes_vec();
                out.push(1u8);
                write_u64_le(&mut out, dbytes.len() as u64);
                out.append(&mut dbytes);
            },
            Option::None => {
                out.push(0u8);
            },
        }
        let t = time;
        let u: u64 = if t >= 0 {
            t as u64 + 0x8000_0000_0000_0000u64
        } else {
            (t + 1 + 0x7FFF_FFFF_FFFF_FFFFi64) as u64
        };
        proof {
            assert(u as int == time_code(e_abs.time));
        }
        write_u64_le(&mut out, u);
        proof {
            assert(event_abs_valid(e_abs));
            lemma_enc_events_push(prefix, e_abs);
            assert(abs_seq(log@.subrange(0, i + 1 as int)) =~= prefix.push(e_abs));
            assert(out@ =~= enc_le(log@.len() as int, 8) + enc_events(
                abs_seq(log@.subrange(0, i + 1 as int)),
            ));
            assert(abs_seq(log@)[i as int] == e_abs);
        }
        i = i + 1;
    }
    proof {
        assert(log@.subrange(0, log@.len() as int) =~= log@);
    }
    out
}

/// Relies on `String::from_utf8`: it succeeds exactly on valid UTF-8 and
/// returns the string those bytes spell.
#[verifier::external_body]
fn bytes_to_string(v: Vec<u8>) -> (r: Option<String>)
    ensures
        r is Some <==> valid_utf8(v@),
        r matches Some(s) ==> s@ == decode_utf8(v@),
{
    match String::from_utf8(v) {
        Result::Ok(s) => Option::Some(s),
        Result::Err(_) => Option::None,
    }
}

/// Decodes a persisted buffer back into a log; None exactly when the
/// bytes are not a whole, well-formed encoding (the caller then treats
/// the history as empty).
pub fn decode_log(b: &[u8]) -> (r: Option<Vec<TrackingEvent>>)
    ensures
        match r {
            Option::Some(evs) => spec_decode(b@) == Option::Some(abs_seq(evs@)),
            Option::None => spec_decode(b@) is None,
        },
{
    let n = b.len();
    if n < 8 {
        return Option::None;
    }
    let count = read_u64_le(b, 0);
    let mut out: Vec<TrackingEvent> = Vec::new();
    let mut pos: usize = 8;
    let mut i: u64 = 0;
    proof {
        lemma_dec_le_bound(b@.subrange(0, 8));
        assert(abs_seq(out@) =~= Seq::<EventAbs>::empty());
        if dec_events(b@.skip(8), count as nat) is Some {
            assert(abs_seq(out@) + dec_events(b@.skip(8), count as nat)->Some_0 =~= dec_events(
                b@.skip(8),
                count as nat,
            )->Some_0);
        }
    }
    while i < count
        invariant
            8 <= pos <= n == b@.len(),
            i <= count,
            count as int == dec_le(b@.subrange(0, 8)),
            dec_events(b@.skip(8), count as nat) == (match dec_events(
                b@.skip(pos as int),
                (count - i) as nat,
            ) {
                Option::None => Option::<Seq<EventAbs>>::None,
                Option::Some(rest) => Option::Some(abs_seq(out@) + rest),
            }),
        decreases count - i,
    {
        let ghost oldpos = pos as int;
        let ghost head = b@.skip(oldpos);
        if n - pos < 10 {
            return Option::None;
        }
        let tag = b[pos];
        let flag = b[pos + 1];
        proof {
            assert(head[0] == b@[oldpos]);
            assert(head[1] == b@[oldpos + 1]);
        }
        if tag != 0 && tag != 1 {
            return Option::None;
        }
        if flag != 0 && flag != 1 {
            return Option::None;
        }
        let (ev, consumed): (TrackingEvent, usize) = if flag == 0 {
            proof {
                assert(head.subrange(2, 10) =~= b@.subrange(oldpos + 2, oldpos + 10));
            }
            let u = read_u64_le(b, pos + 2);
            let t = decode_time(u);
            let data = TrackingData { description: Option::None, time: t };
            let ev = if tag == 1 {
                TrackingEvent::Start(data)
            } else {
                TrackingEvent::Stop(data)
            };
            proof {
                assert(dec_event(head)->Some_0.0 =~= event_abs(ev));
            }
            (ev, 10)
        } else {
            proof {
                assert(head.subrange(2, 10) =~= b@.subrange(oldpos + 2, oldpos + 10));
                lemma_dec_le_bound(head.subrange(2, 10));
            }
            let l64 = read_u64_le(b, pos + 2);
            let rem = n - pos - 10;
            if rem < 8 {
                return Option::None;
            }
            if l64 > (rem - 8) as u64 {
                return Option::None;
            }
            let l = l64 as usize;
            proof {
                assert(head.subrange(10, 10 + l as int) =~= b@.subrange(
                    oldpos + 10,
                    oldpos + 10 + l as int,
                ));
            }
            let dvec = vstd::slice::slice_to_vec(
                vstd::slice::slice_subrange(b, pos + 10, pos + 10 + l),
            );
            let desc = match bytes_to_string(dvec) {
                Option::Some(s) => s,
                Option::None => {
                    return Option::None;
                },
            };
            proof {
                assert(head.subrange(10 + l as int, 18 + l as int) =~= b@.subrange(
                    oldpos + 10 + l as int,
                    oldpos + 18 + l as int,
                ));
            }
            let u = read_u64_le(b, pos + 10 + l);
            let t = decode_time(u);
            let data = TrackingData { description: Option::Some(desc), time: t };
            let ev = if tag == 1 {
                TrackingEvent::Start(data)
            } else {
                TrackingEvent::Stop(data)
            };
            proof {
                assert(dec_event(head)->Some_0.0 =~= event_abs(ev));
            }
            (ev, 18 + l)
        };
        proof {
            assert(dec_event(head) == Option::Some((event_abs(ev), consumed as int)));
            assert(head.skip(consumed as int) =~= b@.skip(oldpos + consumed));
            assert(abs_seq(out@.push(ev)) =~= abs_seq(out@) + seq![event_abs(ev)]);
            if dec_events(b@.skip(oldpos + consumed), (count - i - 1) as nat) is Some {
                let rest = dec_events(b@.skip(oldpos + consumed), (count - i - 1) as nat)->Some_0;
                assert((abs_seq(out@) + seq![event_abs(ev)]) + rest =~= abs_seq(out@) + (seq![
                    event_abs(ev),
                ] + rest));
            }
        }
        out.push(ev);
        pos = pos + consumed;
        i = i + 1;
    }
    if pos != n {
        proof {
            assert(b@.skip(pos as int).len() > 0);
        }
        return Option::None;
    }
    proof {
        assert(b@.skip(pos as int).len() == 0);
        if dec_events(b@.skip(8), count as nat) is Some {
            assert(abs_seq(out@) + Seq::<EventAbs>::empty() =~= abs_seq(out@));
        }
    }
    Option::Some(out)
}

/// Undoes the 2^63 shift of a stored instant.
fn decode_time(u: u64) -> (t: i64)
    ensures
        t as int == u as int - 0x8000_0000_0000_0000,
{
    if u >= 0x8000_0000_0000_0000u64 {
        (u - 0x8000_0000_0000_0000u64) as i64
    } else {
        -((0x7FFF_FFFF_FFFF_FFFFu64 - u) as i64) - 1
    }
}

} // verus!
