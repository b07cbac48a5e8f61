//! Client-side pieces shared by the broadcast-poll, get-by-name and promote
//! utilities: shaping a daemon's raw response for display, and the rule for
//! stale sockets.
//!
//! A response is raw bytes terminated by connection close.  The broadcast
//! client prints a nonempty response one line at a time, each prefixed with
//! the answering genie's name and disambiguator; a connection refused during
//! the scan means the socket file is stale — its daemon is gone — and the
//! file is removed, while any other failure is only reported and the scan
//! goes on.

use vstd::prelude::*;

use vstd::string::StrSliceExecFns;
use vstd::utf8::encode_utf8;

verus! {

/// The segments of `s` between occurrences of `sep`, empty segments
/// included.
pub open spec fn split_bytes(s: Seq<u8>, sep: u8) -> Seq<Seq<u8>>
    decreases s.len(),
{
    if s.len() == 0 {
        seq![Seq::<u8>::empty()]
    } else if s[0] == sep {
        seq![Seq::<u8>::empty()] + split_bytes(s.drop_first(), sep)
    } else {
        let r = split_bytes(s.drop_first(), sep);
        seq![seq![s[0]] + r[0]] + r.drop_first()
    }
}

proof fn lemma_split_bytes_len(s: Seq<u8>, sep: u8)
    ensures
        split_bytes(s, sep).len() >= 1,
    decreases s.len(),
{
    if s.len() != 0 {
        lemma_split_bytes_len(s.drop_first(), sep);
    }
}

proof fn lemma_split_bytes_snoc(s: Seq<u8>, sep: u8, b: u8)
    ensures
        b == sep ==> split_bytes(s.push(b), sep) == split_bytes(s, sep).push(
            Seq::<u8>::empty(),
        ),
        b != sep ==> split_bytes(s.push(b), sep) == split_bytes(s, sep).update(
            split_bytes(s, sep).len() - 1,
            split_bytes(s, sep).last().push(b),
        ),
    decreases s.len(),
{
    lemma_split_bytes_len(s, sep);
    let p = s.push(b);
    assert(p.len() == s.len() + 1);
    if s.len() == 0 {
        assert(p[0] == b);
        assert(p.drop_first() =~= Seq::<u8>::empty());
        if b == sep {
            assert(split_bytes(p, sep) == seq![Seq::<u8>::empty()] + split_bytes(
                p.drop_first(),
                sep,
            ));
            assert(split_bytes(p.drop_first(), sep) == seq![Seq::<u8>::empty()]);
            assert(split_bytes(p, sep) =~~= split_bytes(s, sep).push(Seq::<u8>::empty()));
        } else {
            let rp = split_bytes(p.drop_first(), sep);
            assert(rp == seq![Seq::<u8>::empty()]);
            assert(split_bytes(p, sep) == seq![seq![p[0]] + rp[0]] + rp.drop_first());
            assert(split_bytes(p, sep) =~~= split_bytes(s, sep).update(
                split_bytes(s, sep).len() - 1,
                split_bytes(s, sep).last().push(b),
            ));
        }
    } else {
        let t = s.drop_first();
        lemma_split_bytes_len(t, sep);
        lemma_split_bytes_snoc(t, sep, b);
        let r = split_bytes(t, sep);
        let rp = split_bytes(t.push(b), sep);
        assert(p[0] == s[0]);
        assert(p.drop_first() =~= t.push(b));
        assert(split_bytes(p.drop_first(), sep) == rp);
        if s[0] == sep {
            assert(split_bytes(s, sep) == seq![Seq::<u8>::empty()] + r);
            assert(split_bytes(p, sep) == seq![Seq::<u8>::empty()] + rp);
            if b == sep {
                assert(rp == r.push(Seq::<u8>::empty()));
                assert(split_bytes(p, sep) =~~= split_bytes(s, sep).push(Seq::<u8>::empty()));
            } else {
                assert(rp == r.update(r.len() - 1, r.last().push(b)));
                assert(split_bytes(s, sep).len() - 1 == r.len());
                assert(split_bytes(s, sep).last() == r.last());
                assert(split_bytes(p, sep) =~~= split_bytes(s, sep).update(
                    split_bytes(s, sep).len() - 1,
                    split_bytes(s, sep).last().push(b),
                ));
            }
        } else {
            assert(split_bytes(s, sep) == seq![seq![s[0]] + r[0]] + r.drop_first());
            assert(split_bytes(p, sep) == seq![seq![p[0]] + rp[0]] + rp.drop_first());
            if b == sep {
                assert(rp == r.push(Seq::<u8>::empty()));
                assert(rp[0] == r[0]);
                assert(rp.drop_first() =~= r.drop_first().push(Seq::<u8>::empty()));
                assert(split_bytes(p, sep) =~~= split_bytes(s, sep).push(Seq::<u8>::empty()));
            } else {
                assert(rp == r.update(r.len() - 1, r.last().push(b)));
                if r.len() == 1 {
                    assert(rp[0] == r[0].push(b));
                    assert((seq![s[0]] + r[0]).push(b) =~= seq![s[0]] + r[0].push(b));
                    assert(split_bytes(s, sep).len() == 1);
                    assert(split_bytes(s, sep).last() == seq![s[0]] + r[0]);
                    assert(split_bytes(p, sep) =~~= split_bytes(s, sep).update(
                        split_bytes(s, sep).len() - 1,
                        split_bytes(s, sep).last().push(b),
                    ));
                } else {
                    assert(rp[0] == r[0]);
                    assert(split_bytes(s, sep).len() == r.len());
                    assert(split_bytes(s, sep).last() == r.last());
                    assert(split_bytes(p, sep) =~~= split_bytes(s, sep).update(
                        split_bytes(s, sep).len() - 1,
                        split_bytes(s, sep).last().push(b),
                    ));
                }
            }
        }
    }
}

/// A line with one trailing carriage return removed, as the display path
/// treats `\r\n` endings.
pub open spec fn strip_cr(l: Seq<u8>) -> Seq<u8> {
    if l.len() > 0 && l.last() == 13 {
        l.drop_last()
    } else {
        l
    }
}

/// The display lines of a raw response: the newline-separated segments, a
/// trailing empty segment dropped, each with one trailing carriage return
/// removed.  An empty response has no lines.
pub open spec fn response_line_seq(s: Seq<u8>) -> Seq<Seq<u8>> {
    let parts = split_bytes(s, 10);
    let kept = if parts.len() >= 1 && parts.last().len() == 0 {
        parts.drop_last()
    } else {
        parts
    };
    kept.map_values(|l: Seq<u8>| strip_cr(l))
}

/// Split a raw response into its display lines.
pub fn response_lines(resp: &Vec<u8>) -> (r: Vec<Vec<u8>>)
    ensures
        r.deep_view() == response_line_seq(resp@),
{
    let mut segs: Vec<Vec<u8>> = Vec::new();
    segs.push(Vec::new());
    proof {
        assert(resp@.subrange(0, 0) =~= Seq::<u8>::empty());
        assert(segs.deep_view() =~~= split_bytes(resp@.subrange(0, 0), 10u8));
    }
    let mut i: usize = 0;
    while i < resp.len()
        invariant
            i <= resp@.len(),
            segs@.len() >= 1,
            segs.deep_view() == split_bytes(resp@.subrange(0, i as int), 10u8),
        decreases resp@.len() - i,
    {
        let ghost prefix = resp@.subrange(0, i as int);
        proof {
            lemma_split_bytes_snoc(prefix, 10u8, resp@[i as int]);
            assert(resp@.subrange(0, i + 1 as int) =~= prefix.push(resp@[i as int]));
        }
        let b = resp[i];
        if b == 10u8 {
            segs.push(Vec::new());
            proof {
                assert(segs.deep_view() =~~= split_bytes(resp@.subrange(0, i + 1 as int), 10u8));
            }
        } else {
            let last_idx: usize = segs.len() - 1;
            let mut seg = segs.remove(last_idx);
            seg.push(b);
            segs.push(seg);
            proof {
                assert(segs.deep_view() =~~= split_bytes(resp@.subrange(0, i + 1 as int), 10u8));
            }
        }
        i += 1;
    }
    proof {
        assert(resp@.subrange(0, resp@.len() as int) =~= resp@);
    }
    let ghost parts = segs.deep_view();
    let last_idx: usize = segs.len() - 1;
    if segs[last_idx].len() == 0 {
        let _ = segs.pop();
        proof {
            assert(segs.deep_view() =~~= parts.drop_last());
        }
    }
    let mut out: Vec<Vec<u8>> = Vec::new();
    let mut t: usize = 0;
    let ghost kept = segs.deep_view();
    while t < segs.len()
        invariant
            t <= segs@.len(),
            kept == segs.deep_view(),
            kept.len() == segs@.len(),
            out@.len() == t,
            forall|j: int| 0 <= j < t ==> #[trigger] out.deep_view()[j] == strip_cr(kept[j]),
        decreases segs@.len() - t,
    {
        let mut line: Vec<u8> = crate::copy_bytes(&segs[t]);
        proof {
            assert(kept[t as int] =~= segs@[t as int]@);
        }
        let line_len: usize = line.len();
        if line_len > 0 && line[line_len - 1] == 13u8 {
            let _ = line.pop();
            proof {
                assert(line@ =~= strip_cr(kept[t as int]));
            }
        }
        proof {
            assert(line@ == strip_cr(kept[t as int]));
            assert(line.deep_view() =~= line@);
        }
        let ghost prevseq = out@;
        let ghost prevdv = out.deep_view();
        out.push(line);
        proof {
            assert(out.deep_view()[t as int] == strip_cr(kept[t as int]));
            assert forall|j: int| 0 <= j < t implies #[trigger] out.deep_view()[j] == strip_cr(
                kept[j],
            ) by {
                assert(out@[j] == prevseq[j]);
                assert(out.deep_view()[j] == out@[j].deep_view());
                assert(prevdv[j] == prevseq[j].deep_view());
                assert(prevdv[j] == strip_cr(kept[j]));
            }
        }
        t += 1;
    }
    proof {
        let stripped = kept.map_values(|l: Seq<u8>| strip_cr(l));
        assert forall|j: int| 0 <= j < kept.len() implies out.deep_view()[j] == stripped[j] by {
            assert(out.deep_view()[j] == strip_cr(kept[j]));
        }
        assert(out.deep_view() =~~= stripped);
    }
    out
}

/// The prefix put before each printed line of a genie's broadcast answer:
/// the genie's name, its disambiguator in parentheses, a colon and a space.
pub fn attribution_prefix(name: &String, num: &String) -> (v: Vec<u8>)
    ensures
        v@ == encode_utf8(name@) + seq![('(' as u8)] + encode_utf8(num@) + seq![
            (')' as u8),
            (':' as u8),
            (' ' as u8),
        ],
{
    let mut v = name.as_str().as_bytes_vec();
    v.push('(' as u8);
    let num_bytes = num.as_str().as_bytes_vec();
    v.extend_from_slice(num_bytes.as_slice());
    v.push(')' as u8);
    v.push(':' as u8);
    v.push(' ' as u8);
    proof {
        assert(v@ =~= encode_utf8(name@) + seq![('(' as u8)] + encode_utf8(num@) + seq![
            (')' as u8),
            (':' as u8),
            (' ' as u8),
        ]);
    }
    v
}

/// How connecting to a scanned socket failed.
pub enum ConnectFailure {
    /// Nothing is listening: the socket file is stale.
    Refused,
    /// Any other transport failure.
    Other,
}

/// Whether a failed connection attempt means the socket file is stale and
/// should be removed — only a refused connection does; every other failure
/// is reported and the scan simply continues with the next entry.
pub fn stale_socket_cleanup(failure: &ConnectFailure) -> (r: bool)
    ensures
        r == (failure is Refused),
{
    match failure {
        ConnectFailure::Refused => true,
        ConnectFailure::Other => false,
    }
}

} // verus!
