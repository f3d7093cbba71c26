//! Little-endian integers and the length-prefixed record framing of an
//! event log.
use vstd::prelude::*;

verus! {

/// 256 raised to the power `k`.
pub open spec fn pow256(k: nat) -> nat
    decreases k,
{
    if k == 0 {
        1
    } else {
        256 * pow256((k - 1) as nat)
    }
}

/// The `k` lowest base-256 digits of `n`, least significant first.
pub open spec fn le_bytes(n: nat, k: nat) -> Seq<u8>
    decreases k,
{
    if k == 0 {
        Seq::empty()
    } else {
        seq![(n % 256) as u8] + le_bytes(n / 256, (k - 1) as nat)
    }
}

/// The number whose base-256 digits, least significant first, are `b`.
pub open spec fn le_value(b: Seq<u8>) -> nat
    decreases b.len(),
{
    if b.len() == 0 {
        0
    } else {
        b[0] as nat + 256 * le_value(b.drop_first())
    }
}

/// One record as it stands in a log: its length in four little-endian
/// bytes, then its bytes.
pub open spec fn frame(r: Seq<u8>) -> Seq<u8> {
    le_bytes(r.len(), 4) + r
}

/// The log that holds the records `rs`, in order.
pub open spec fn frame_all(rs: Seq<Seq<u8>>) -> Seq<u8>
    decreases rs.len(),
{
    if rs.len() == 0 {
        Seq::empty()
    } else {
        frame(rs[0]) + frame_all(rs.drop_first())
    }
}

/// A record fits the four-byte length prefix.
pub open spec fn fits_frame(r: Seq<u8>) -> bool {
    r.len() < pow256(4)
}

/// The records of a log, read from its start. A tail that is too short for
/// its length prefix, or for the bytes that the prefix announces, is a write
/// that was cut off: reading ends there, and every record before it stays.
pub open spec fn parse_log(b: Seq<u8>) -> Seq<Seq<u8>>
    decreases b.len(),
{
    if b.len() < 4 {
        Seq::empty()
    } else {
        let n = le_value(b.take(4)) as int;
        if b.len() - 4 < n {
            Seq::empty()
        } else {
            seq![b.subrange(4, 4 + n)] + parse_log(b.skip(4 + n))
        }
    }
}

/// Powers of 256 grow with the exponent and are never 0.
pub proof fn lemma_pow256_mono(a: nat, b: nat)
    requires
        a <= b,
    ensures
        pow256(a) <= pow256(b),
        pow256(a) >= 1,
    decreases b,
{
    if b > a {
        lemma_pow256_mono(a, (b - 1) as nat);
    } else if a > 0 {
        lemma_pow256_mono((a - 1) as nat, (a - 1) as nat);
    }
}

/// The bounds of four- and eight-byte numbers.
pub proof fn lemma_pow256_values()
    ensures
        pow256(4) == 0x1_0000_0000,
        pow256(8) == 0x1_0000_0000_0000_0000,
{
    reveal_with_fuel(pow256, 9);
}

/// A number written in `k` digits takes `k` bytes.
pub proof fn lemma_le_bytes_len(n: nat, k: nat)
    ensures
        le_bytes(n, k).len() == k,
    decreases k,
{
    if k > 0 {
        lemma_le_bytes_len(n / 256, (k - 1) as nat);
    }
}

/// Writing a number in `k` digits and reading them back gives the number.
pub proof fn lemma_le_round_trip(n: nat, k: nat)
    requires
        n < pow256(k),
    ensures
        le_value(le_bytes(n, k)) == n,
        le_bytes(n, k).len() == k,
    decreases k,
{
    lemma_le_bytes_len(n, k);
    if k > 0 {
        let k1 = (k - 1) as nat;
        let p = pow256(k1);
        assert(n / 256 < p) by (nonlinear_arith)
            requires
                n < 256 * p,
        ;
        lemma_le_round_trip(n / 256, k1);
        assert(le_bytes(n, k).drop_first() =~= le_bytes(n / 256, k1));
        assert(n == n % 256 + 256 * (n / 256)) by (nonlinear_arith);
    }
}

/// A framed record is read back first, and reading goes on right after it.
pub proof fn lemma_parse_frame(r: Seq<u8>, rest: Seq<u8>)
    requires
        fits_frame(r),
    ensures
        parse_log(frame(r) + rest) == seq![r] + parse_log(rest),
{
    lemma_le_round_trip(r.len(), 4);
    let b = frame(r) + rest;
    assert(b.take(4) =~= le_bytes(r.len(), 4));
    assert(b.subrange(4, 4 + r.len() as int) =~= r);
    assert(b.skip(4 + r.len() as int) =~= rest);
}

/// Framing records one after another and parsing the log gives back exactly
/// those records, in order.
pub proof fn lemma_parse_frame_all(rs: Seq<Seq<u8>>)
    requires
        forall|i: int| 0 <= i < rs.len() ==> fits_frame(#[trigger] rs[i]),
    ensures
        parse_log(frame_all(rs)) == rs,
    decreases rs.len(),
{
    if rs.len() > 0 {
        lemma_parse_frame_all(rs.drop_first());
        lemma_parse_frame(rs[0], frame_all(rs.drop_first()));
        assert(seq![rs[0]] + rs.drop_first() =~= rs);
    }
}

/// Reading a log that starts with framed records reads those records first
/// and then goes on with what follows them.
pub proof fn lemma_parse_after_frames(rs: Seq<Seq<u8>>, rest: Seq<u8>)
    requires
        forall|i: int| 0 <= i < rs.len() ==> fits_frame(#[trigger] rs[i]),
    ensures
        parse_log(frame_all(rs) + rest) == rs + parse_log(rest),
    decreases rs.len(),
{
    if rs.len() == 0 {
        assert(frame_all(rs) + rest =~= rest);
        assert(rs + parse_log(rest) =~= parse_log(rest));
    } else {
        let tail = rs.drop_first();
        lemma_parse_after_frames(tail, rest);
        assert(frame_all(rs) + rest =~= frame(rs[0]) + (frame_all(tail) + rest));
        lemma_parse_frame(rs[0], frame_all(tail) + rest);
        assert(seq![rs[0]] + (tail + parse_log(rest)) =~= rs + parse_log(rest));
    }
}

/// A write cut off part way through its record, whether in the length
/// prefix or in the record's bytes, reads as the end of the log: every
/// record written before it is read back, and nothing else.
pub proof fn lemma_torn_tail(rs: Seq<Seq<u8>>, r: Seq<u8>, t: Seq<u8>)
    requires
        forall|i: int| 0 <= i < rs.len() ==> fits_frame(#[trigger] rs[i]),
        fits_frame(r),
        t.len() < frame(r).len(),
        t == frame(r).take(t.len() as int),
    ensures
        parse_log(frame_all(rs) + t) == rs,
{
    lemma_parse_after_frames(rs, t);
    if t.len() >= 4 {
        lemma_le_round_trip(r.len(), 4);
        assert(t.take(4) =~= le_bytes(r.len(), 4));
    }
    assert(parse_log(t) == Seq::<Seq<u8>>::empty());
    assert(rs + Seq::<Seq<u8>>::empty() =~= rs);
}

/// The length of the whole records at the start of a log: the log without
/// a tail that a cut-off write left.
pub open spec fn intact_len(b: Seq<u8>) -> nat
    decreases b.len(),
{
    if b.len() < 4 {
        0
    } else {
        let n = le_value(b.take(4)) as int;
        if b.len() - 4 < n {
            0
        } else {
            (4 + n + intact_len(b.skip(4 + n))) as nat
        }
    }
}

/// A number read from `k` digits is below 256 to the power `k`.
pub proof fn lemma_le_value_bound(b: Seq<u8>)
    ensures
        le_value(b) < pow256(b.len()),
    decreases b.len(),
{
    if b.len() > 0 {
        lemma_le_value_bound(b.drop_first());
        let v = le_value(b.drop_first());
        let p = pow256((b.len() - 1) as nat);
        let d = b[0] as nat;
        assert(d + 256 * v < 256 * p) by (nonlinear_arith)
            requires
                d < 256,
                v < p,
        ;
    }
}

/// Writing the number that `k` digits hold in `k` digits gives those digits.
pub proof fn lemma_le_bytes_of_value(b: Seq<u8>)
    ensures
        le_bytes(le_value(b), b.len()) == b,
    decreases b.len(),
{
    if b.len() > 0 {
        let t = b.drop_first();
        lemma_le_bytes_of_value(t);
        let v = le_value(t);
        let d = b[0] as nat;
        assert((d + 256 * v) % 256 == d && (d + 256 * v) / 256 == v) by (nonlinear_arith)
            requires
                d < 256,
        ;
        assert(le_bytes(le_value(b), b.len()) =~= seq![b[0]] + t);
        assert(seq![b[0]] + t =~= b);
    }
}

/// The whole records at the start of a log are its parsed records, framed
/// again; each of them fits its length prefix.
pub proof fn lemma_intact(b: Seq<u8>)
    ensures
        intact_len(b) <= b.len(),
        b.take(intact_len(b) as int) == frame_all(parse_log(b)),
        forall|i: int| 0 <= i < parse_log(b).len() ==> fits_frame(#[trigger] parse_log(b)[i]),
    decreases b.len(),
{
    if b.len() < 4 {
        assert(b.take(0) =~= Seq::<u8>::empty());
    } else {
        let n = le_value(b.take(4)) as int;
        if b.len() - 4 < n {
            assert(b.take(0) =~= Seq::<u8>::empty());
        } else {
            let r = b.subrange(4, 4 + n);
            let rest = b.skip(4 + n);
            lemma_intact(rest);
            lemma_le_value_bound(b.take(4));
            lemma_le_bytes_of_value(b.take(4));
            let k = intact_len(rest) as int;
            assert(b.take(4 + n + k) =~= frame(r) + rest.take(k));
            let recs = parse_log(b);
            assert(recs == seq![r] + parse_log(rest));
            assert(recs.drop_first() =~= parse_log(rest));
            assert forall|i: int| 0 <= i < recs.len() implies fits_frame(#[trigger] recs[i]) by {
                if i > 0 {
                    assert(recs[i] == parse_log(rest)[i - 1]);
                }
            }
        }
    }
}

/// Dropping a cut-off tail and then appending a record gives a log whose
/// records are the earlier ones followed by the new one.
pub proof fn lemma_append_after_intact(b: Seq<u8>, r: Seq<u8>)
    requires
        fits_frame(r),
    ensures
        parse_log(b.take(intact_len(b) as int) + frame(r)) == parse_log(b).push(r),
{
    lemma_intact(b);
    lemma_parse_after_frames(parse_log(b), frame(r));
    lemma_parse_frame(r, Seq::empty());
    assert(frame(r) + Seq::<u8>::empty() =~= frame(r));
    assert(parse_log(Seq::<u8>::empty()) == Seq::<Seq<u8>>::empty());
    assert(seq![r] + Seq::<Seq<u8>>::empty() =~= seq![r]);
    assert(parse_log(b) + seq![r] =~= parse_log(b).push(r));
}

/// The length of the whole records at the start of `b`.
pub fn whole_records_len(b: &[u8]) -> (r: usize)
    ensures
        r == intact_len(b@),
{
    let len = b.len();
    let mut pos: usize = 0;
    assert(b@.skip(0) =~= b@);
    loop
        invariant
            pos <= len,
            len == b@.len(),
            intact_len(b@) == pos + intact_len(b@.skip(pos as int)),
        ensures
            intact_len(b@) == pos,
        decreases len - pos,
    {
        let ghost rest = b@.skip(pos as int);
        if len - pos < 4 {
            break ;
        }
        let n = read_le(b, pos, 4);
        assert(rest.take(4) =~= b@.subrange(pos as int, pos + 4));
        if ((len - pos - 4) as u64) < n {
            break ;
        }
        let end = pos + 4 + n as usize;
        assert(rest.skip(4 + n) =~= b@.skip(end as int));
        pos = end;
    }
    pos
}

/// Appending a record to a log frames it after the records already there.
pub proof fn lemma_frame_all_push(rs: Seq<Seq<u8>>, r: Seq<u8>)
    ensures
        frame_all(rs.push(r)) == frame_all(rs) + frame(r),
    decreases rs.len(),
{
    if rs.len() == 0 {
        let one = rs.push(r);
        assert(one.drop_first() =~= Seq::<Seq<u8>>::empty());
        assert(one[0] == r);
        assert(frame_all(one.drop_first()) =~= Seq::<u8>::empty());
        assert(frame_all(one) =~= frame(r));
    } else {
        lemma_frame_all_push(rs.drop_first(), r);
        assert(rs.push(r).drop_first() =~= rs.drop_first().push(r));
        assert(frame_all(rs.push(r)) =~= frame_all(rs) + frame(r));
    }
}

/// Appends the `k` lowest little-endian bytes of `n` to `out`.
pub fn push_le(out: &mut Vec<u8>, n: u64, k: usize)
    requires
        k <= 8,
    ensures
        final(out)@ == old(out)@ + le_bytes(n as nat, k as nat),
{
    let mut x: u64 = n;
    let mut i: usize = 0;
    while i < k
        invariant
            i <= k,
            out@ + le_bytes(x as nat, (k - i) as nat) == old(out)@ + le_bytes(n as nat, k as nat),
        decreases k - i,
    {
        let ghost pre = out@;
        let ghost x0 = x;
        let ghost rest = le_bytes((x / 256) as nat, (k - i - 1) as nat);
        assert(le_bytes(x as nat, (k - i) as nat) == seq![(x % 256) as u8] + rest);
        out.push((x % 256) as u8);
        x = x / 256;
        i = i + 1;
        assert(pre + (seq![(x0 % 256) as u8] + rest) =~= out@ + rest);
    }
    assert(out@ + le_bytes(x as nat, 0) =~= out@);
}

/// The number held by the `k` little-endian bytes of `b` that start at `pos`.
pub fn read_le(b: &[u8], pos: usize, k: usize) -> (r: u64)
    requires
        k <= 8,
        pos + k <= b@.len(),
    ensures
        r as nat == le_value(b@.subrange(pos as int, pos + k)),
{
    proof {
        lemma_pow256_values();
    }
    let len = b.len();
    let mut acc: u64 = 0;
    let mut j: usize = k;
    while j > 0
        invariant
            j <= k <= 8,
            pos + k <= b@.len(),
            len == b@.len(),
            acc as nat == le_value(b@.subrange(pos + j, pos + k)),
            acc < pow256((k - j) as nat),
            pow256(8) == 0x1_0000_0000_0000_0000,
        decreases j,
    {
        j = j - 1;
        let ghost s = b@.subrange(pos + j, pos + k);
        assert(s.drop_first() =~= b@.subrange(pos + j + 1, pos + k));
        let ghost p = pow256((k - j - 1) as nat);
        proof {
            lemma_pow256_mono((k - j) as nat, 8);
        }
        assert(b@[pos + j] + 256 * acc < 256 * p) by (nonlinear_arith)
            requires
                b@[pos + j] < 256,
                acc < p,
        ;
        acc = b[pos + j] as u64 + 256 * acc;
    }
    acc
}

} // verus!
