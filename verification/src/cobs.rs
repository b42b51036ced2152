//! Byte stuffing for the frame layer.
//!
//! A stuffed frame never contains the reserved terminator byte 0x00: the data
//! is cut into runs of non-zero bytes, each run preceded by a code byte that
//! says how long it is (plus one).  A code below 0xFF marks a run that stood
//! before a zero in the data (or at its end); the code 0xFF marks a full run
//! of 254 bytes with no zero after it.  One terminator byte closes the frame.
//!
//! Decoding follows the codes until it meets the terminator and re-inserts
//! the zeros; the terminator itself decodes to one trailing zero byte, which
//! callers ignore.

use vstd::prelude::*;

verus! {

/// The longest run of data bytes one code byte can announce.
pub const MAX_RUN: usize = 254;

/// Length of the leading run of non-zero bytes, capped at 254.
pub open spec fn run_len(s: Seq<u8>) -> nat
    decreases s.len(),
{
    if s.len() == 0 || s[0] == 0 {
        0
    } else {
        let r = run_len(s.drop_first());
        if r >= 254 {
            254
        } else {
            r + 1
        }
    }
}

proof fn lemma_run_len_props(s: Seq<u8>)
    ensures
        run_len(s) <= 254,
        run_len(s) <= s.len(),
        forall|k: int| 0 <= k < run_len(s) ==> s[k] != 0,
        (run_len(s) < 254 && run_len(s) < s.len()) ==> s[run_len(s) as int] == 0,
    decreases s.len(),
{
    if s.len() == 0 || s[0] == 0 {
    } else {
        lemma_run_len_props(s.drop_first());
        assert(forall|k: int| 1 <= k < run_len(s) ==> s[k] == s.drop_first()[k - 1]);
    }
}

proof fn lemma_run_len_ge(s: Seq<u8>, r: nat)
    requires
        r <= 254,
        r <= s.len(),
        forall|k: int| 0 <= k < r ==> s[k] != 0,
    ensures
        run_len(s) >= r,
    decreases s.len(),
{
    if r > 0 {
        assert(s[0] != 0);
        assert(forall|k: int| 0 <= k < r - 1 ==> s.drop_first()[k] == s[k + 1]);
        lemma_run_len_ge(s.drop_first(), (r - 1) as nat);
    }
}

proof fn lemma_run_len_eq(s: Seq<u8>, r: nat)
    requires
        r <= 254,
        r <= s.len(),
        forall|k: int| 0 <= k < r ==> s[k] != 0,
        (r < 254 && r < s.len()) ==> s[r as int] == 0,
    ensures
        run_len(s) == r,
{
    lemma_run_len_ge(s, r);
    lemma_run_len_props(s);
    if run_len(s) > r {
        assert(s[r as int] != 0);
    }
}

/// The stuffed form of a data span: code bytes and runs, no terminator yet.
pub open spec fn stuff(d: Seq<u8>) -> Seq<u8>
    decreases d.len(),
{
    let r = run_len(d) as int;
    if r == 254 && 254 <= d.len() {
        seq![255u8] + d.take(254) + stuff(d.skip(254))
    } else if r < d.len() {
        seq![(r + 1) as u8] + d.take(r) + stuff(d.skip(r + 1))
    } else {
        seq![(r + 1) as u8] + d
    }
}

/// What a stuffed byte span decodes to, terminator included: `None` on a
/// span that ends mid-block or lacks its terminator.
pub open spec fn unstuff(s: Seq<u8>) -> Option<Seq<u8>>
    decreases s.len(),
{
    if s.len() == 0 {
        None
    } else if s[0] == 0 {
        Some(Seq::<u8>::empty())
    } else {
        let c = s[0] as int;
        if s.len() < c {
            None
        } else {
            match unstuff(s.skip(c)) {
                Option::None => None,
                Option::Some(rest) => Some(
                    s.subrange(1, c) + (if c < 255 {
                        seq![0u8]
                    } else {
                        Seq::<u8>::empty()
                    }) + rest,
                ),
            }
        }
    }
}

/// A stuffed span is never empty and never contains the terminator value.
pub proof fn lemma_stuff_no_zero(d: Seq<u8>)
    ensures
        stuff(d).len() >= 1,
        forall|k: int| 0 <= k < stuff(d).len() ==> stuff(d)[k] != 0,
    decreases d.len(),
{
    lemma_run_len_props(d);
    let r = run_len(d) as int;
    if r == 254 && 254 <= d.len() {
        lemma_stuff_no_zero(d.skip(254));
    } else if r < d.len() {
        lemma_stuff_no_zero(d.skip(r + 1));
    }
}

/// Unstuffing inverts stuffing: the stuffed span followed by the terminator
/// decodes to the data followed by one zero byte.
pub proof fn lemma_unstuff_stuff(d: Seq<u8>)
    ensures
        unstuff(stuff(d) + seq![0u8]) == Some(d + seq![0u8]),
    decreases d.len(),
{
    lemma_run_len_props(d);
    let r = run_len(d) as int;
    let f = stuff(d) + seq![0u8];
    if r == 254 && 254 <= d.len() {
        let tail = stuff(d.skip(254)) + seq![0u8];
        lemma_stuff_no_zero(d.skip(254));
        assert(f[0] == 255);
        assert(f.len() >= 256);
        assert(f.subrange(1, 255) =~= d.take(254));
        assert(f.skip(255) =~= tail);
        lemma_unstuff_stuff(d.skip(254));
        assert(unstuff(f.skip(255)) == Some(d.skip(254) + seq![0u8]));
        assert(d.take(254) + Seq::<u8>::empty() + (d.skip(254) + seq![0u8]) =~= d + seq![0u8]);
    } else if r < d.len() {
        let tail = stuff(d.skip(r + 1)) + seq![0u8];
        lemma_stuff_no_zero(d.skip(r + 1));
        assert(d[r] == 0);
        assert(f[0] == r + 1);
        assert(1 <= r + 1 < 255);
        assert(f.len() >= r + 2);
        assert(f.subrange(1, r + 1) =~= d.take(r));
        assert(f.skip(r + 1) =~= tail);
        lemma_unstuff_stuff(d.skip(r + 1));
        assert(unstuff(f.skip(r + 1)) == Some(d.skip(r + 1) + seq![0u8]));
        assert(d.take(r) + seq![0u8] + (d.skip(r + 1) + seq![0u8]) =~= d + seq![0u8]);
    } else {
        assert(r == d.len());
        assert(f[0] == r + 1);
        assert(1 <= r + 1 < 256);
        assert(f.len() == r + 2);
        assert(f.subrange(1, r + 1) =~= d);
        assert(f.skip(r + 1) =~= seq![0u8]);
        assert(unstuff(f.skip(r + 1)) == Some(Seq::<u8>::empty()));
        assert(d + seq![0u8] + Seq::<u8>::empty() =~= d + seq![0u8]);
    }
}

/// Appends the stuffed form of `d[i..]` to `out`.
fn encode_from(d: &Vec<u8>, i: usize, out: &mut Vec<u8>)
    requires
        i <= d.len(),
    ensures
        final(out)@ == old(out)@ + stuff(d@.skip(i as int)),
    decreases d.len() - i,
{
    let ghost s = d@.skip(i as int);
    let mut j: usize = i;
    while j < d.len() && j - i < MAX_RUN && d[j] != 0
        invariant
            i <= j <= d.len(),
            j - i <= 254,
            forall|k: int| i <= k < j ==> d@[k] != 0,
        decreases d.len() - j,
    {
        j = j + 1;
    }
    let r = j - i;
    proof {
        assert(forall|k: int| 0 <= k < r ==> s[k] == d@[i + k]);
        assert((r < 254 && r < s.len()) ==> s[r as int] == d@[j as int]);
        lemma_run_len_eq(s, r as nat);
    }
    let ghost before = out@;
    if r == MAX_RUN {
        out.push(255);
        let mut k = j - MAX_RUN;
        while k < j
            invariant
                i <= k <= j,
                j <= d.len(),
                out@ == before + seq![255u8] + d@.subrange(i as int, k as int),
            decreases j - k,
        {
            out.push(d[k]);
            proof {
                assert(d@.subrange(i as int, k + 1) =~= d@.subrange(i as int, k as int) + seq![d@[k as int]]);
            }
            k = k + 1;
        }
        encode_from(d, j, out);
        proof {
            assert(s.take(254) =~= d@.subrange(i as int, j as int));
            assert(s.skip(254) =~= d@.skip(j as int));
            assert(stuff(s) == seq![255u8] + s.take(254) + stuff(s.skip(254)));
            assert(out@ =~= before + stuff(s));
        }
    } else if j < d.len() {
        // the run ended on a zero byte, which the code byte stands for
        out.push((r + 1) as u8);
        let mut k = i;
        while k < j
            invariant
                i <= k <= j,
                j <= d.len(),
                out@ == before + seq![(r + 1) as u8] + d@.subrange(i as int, k as int),
            decreases j - k,
        {
            out.push(d[k]);
            proof {
                assert(d@.subrange(i as int, k + 1) =~= d@.subrange(i as int, k as int) + seq![d@[k as int]]);
            }
            k = k + 1;
        }
        encode_from(d, j + 1, out);
        proof {
            assert(s.take(r as int) =~= d@.subrange(i as int, j as int));
            assert(s.skip(r + 1) =~= d@.skip(j + 1));
            assert(stuff(s) == seq![(r + 1) as u8] + s.take(r as int) + stuff(s.skip(r + 1)));
            assert(out@ =~= before + stuff(s));
        }
    } else {
        // the rest of the data is one final run
        out.push((r + 1) as u8);
        let mut k = i;
        while k < j
            invariant
                i <= k <= j,
                j <= d.len(),
                out@ == before + seq![(r + 1) as u8] + d@.subrange(i as int, k as int),
            decreases j - k,
        {
            out.push(d[k]);
            proof {
                assert(d@.subrange(i as int, k + 1) =~= d@.subrange(i as int, k as int) + seq![d@[k as int]]);
            }
            k = k + 1;
        }
        proof {
            assert(d@.subrange(i as int, j as int) =~= s);
            assert(stuff(s) == seq![(r + 1) as u8] + s);
            assert(out@ =~= before + stuff(s));
        }
    }
}

/// Stuffs `d` and closes it with the terminator byte.
pub fn encode_frame(d: &Vec<u8>) -> (out: Vec<u8>)
    ensures
        out@ == stuff(d@) + seq![0u8],
{
    let mut out = Vec::new();
    encode_from(d, 0, &mut out);
    proof {
        assert(d@.skip(0) =~= d@);
    }
    out.push(0);
    out
}

/// Appends the decoding of `s[i..]` to `out`; false when `s[i..]` is not a
/// complete stuffed frame.
fn decode_from(s: &Vec<u8>, i: usize, out: &mut Vec<u8>) -> (ok: bool)
    requires
        i <= s.len(),
    ensures
        match unstuff(s@.skip(i as int)) {
            Option::Some(d) => ok && final(out)@ == old(out)@ + d,
            Option::None => !ok,
        },
    decreases s.len() - i,
{
    let ghost rem = s@.skip(i as int);
    if i == s.len() {
        return false;
    }
    let c = s[i];
    proof {
        assert(rem[0] == s@[i as int]);
    }
    if c == 0 {
        proof {
            assert(old(out)@ + Seq::<u8>::empty() =~= old(out)@);
        }
        return true;
    }
    let cw = c as usize;
    if s.len() - i < cw {
        return false;
    }
    let ghost before = out@;
    let mut k = i + 1;
    while k < i + cw
        invariant
            i + 1 <= k <= i + cw,
            i + cw <= s.len(),
            out@ == before + s@.subrange(i + 1, k as int),
        decreases i + cw - k,
    {
        out.push(s[k]);
        proof {
            assert(s@.subrange(i + 1, k + 1) =~= s@.subrange(i + 1, k as int) + seq![s@[k as int]]);
        }
        k = k + 1;
    }
    if c < 255 {
        out.push(0);
    }
    let ok = decode_from(s, i + cw, out);
    proof {
        assert(rem.skip(c as int) =~= s@.skip(i + cw));
        assert(rem.subrange(1, c as int) =~= s@.subrange(i + 1, i + cw));
        if ok {
            let d0 = rem.subrange(1, c as int) + (if c < 255 {
                seq![0u8]
            } else {
                Seq::<u8>::empty()
            });
            match unstuff(rem.skip(c as int)) {
                Option::Some(rest) => {
                    assert(out@ =~= before + (d0 + rest));
                },
                Option::None => {},
            }
        }
    }
    ok
}

/// Decodes one complete stuffed frame, terminator included: the result ends
/// with the decoded zero the terminator stands for.
pub fn decode_frame(s: &Vec<u8>) -> (r: Option<Vec<u8>>)
    ensures
        match r {
            Option::Some(v) => unstuff(s@) == Some(v@),
            Option::None => unstuff(s@) is None,
        },
{
    let mut out = Vec::new();
    let ok = decode_from(s, 0, &mut out);
    proof {
        assert(s@.skip(0) =~= s@);
    }
    if ok {
        Some(out)
    } else {
        None
    }
}

} // verus!
