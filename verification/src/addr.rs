//! IP addresses as plain values, and their canonical text form.

use vstd::prelude::*;

use crate::keyed::KeyEq;
use crate::text;

verus! {

/// An IPv4 address by its octets or an IPv6 address by its segments, in
/// network order.
#[derive(Debug, Clone, Copy, PartialEq, Eq, Hash)]
pub enum IpAddr {
    V4([u8; 4]),
    V6([u16; 8]),
}

impl KeyEq for IpAddr {
    fn same(&self, other: &Self) -> (r: bool) {
        match (self, other) {
            (IpAddr::V4(a), IpAddr::V4(b)) => {
                let r = a[0] == b[0] && a[1] == b[1] && a[2] == b[2] && a[3] == b[3];
                proof {
                    if r {
                        assert(a =~= b);
                    }
                }
                r
            },
            (IpAddr::V6(a), IpAddr::V6(b)) => {
                let r = a[0] == b[0] && a[1] == b[1] && a[2] == b[2] && a[3] == b[3] && a[4]
                    == b[4] && a[5] == b[5] && a[6] == b[6] && a[7] == b[7];
                proof {
                    if r {
                        assert(a =~= b);
                    }
                }
                r
            },
            _ => false,
        }
    }
}

/// The two ends of a conversation.
#[derive(Debug, Clone, Copy, PartialEq, Eq, Hash)]
pub struct IpPair {
    pub src: IpAddr,
    pub dst: IpAddr,
}

impl KeyEq for IpPair {
    fn same(&self, other: &Self) -> (r: bool) {
        self.src.same(&other.src) && self.dst.same(&other.dst)
    }
}

/// Four octets in dotted decimal.
pub open spec fn v4_text(a: nat, b: nat, c: nat, d: nat) -> Seq<char> {
    text::dec(a) + "."@ + text::dec(b) + "."@ + text::dec(c) + "."@ + text::dec(d)
}

/// Number of consecutive zero segments from index `i` on.
pub open spec fn zero_run(segments: Seq<u16>, i: nat) -> nat
    decreases segments.len() - i,
{
    if i < segments.len() && segments[i as int] == 0 {
        1 + zero_run(segments, i + 1)
    } else {
        0
    }
}

/// Start and length of the longest run of zero segments among those that start
/// at index `i` or later; of runs of equal length, the leftmost.
pub open spec fn longest_zero_run(segments: Seq<u16>, i: nat) -> (nat, nat)
    decreases segments.len() - i,
{
    if i >= segments.len() {
        (i, 0)
    } else {
        let later = longest_zero_run(segments, i + 1);
        let here = zero_run(segments, i);
        if here > 0 && here >= later.1 {
            (i, here)
        } else {
            later
        }
    }
}

/// Segments in hexadecimal, separated by colons.
pub open spec fn segments_text(segments: Seq<u16>) -> Seq<char>
    decreases segments.len(),
{
    if segments.len() == 0 {
        Seq::empty()
    } else if segments.len() == 1 {
        text::hex(segments[0] as nat)
    } else {
        segments_text(segments.drop_last()) + ":"@ + text::hex(segments.last() as nat)
    }
}

/// Whether the segments hold an IPv4-mapped address (`::ffff:a.b.c.d`).
pub open spec fn v4_mapped(s: Seq<u16>) -> bool {
    s[0] == 0 && s[1] == 0 && s[2] == 0 && s[3] == 0 && s[4] == 0 && s[5] == 0xffff
}

/// Eight segments in canonical form: the longest run of two or more zero
/// segments is written `::`, and IPv4-mapped addresses end in dotted decimal.
pub open spec fn v6_text(s: Seq<u16>) -> Seq<char> {
    let run = longest_zero_run(s, 0);
    if v4_mapped(s) {
        "::ffff:"@ + v4_text(
            (s[6] / 256) as nat,
            (s[6] % 256) as nat,
            (s[7] / 256) as nat,
            (s[7] % 256) as nat,
        )
    } else if run.1 > 1 {
        segments_text(s.take(run.0 as int)) + "::"@ + segments_text(
            s.skip((run.0 + run.1) as int),
        )
    } else {
        segments_text(s)
    }
}

proof fn lemma_zero_run_fits(segments: Seq<u16>, i: nat)
    requires
        i <= segments.len(),
    ensures
        i + zero_run(segments, i) <= segments.len(),
    decreases segments.len() - i,
{
    if i < segments.len() && segments[i as int] == 0 {
        lemma_zero_run_fits(segments, i + 1);
    }
}

fn push_v4(out: &mut String, a: u8, b: u8, c: u8, d: u8)
    ensures
        final(out)@ == old(out)@ + v4_text(a as nat, b as nat, c as nat, d as nat),
{
    text::push_dec(out, a as u128);
    out.append(".");
    text::push_dec(out, b as u128);
    out.append(".");
    text::push_dec(out, c as u128);
    out.append(".");
    text::push_dec(out, d as u128);
    assert(out@ =~= old(out)@ + v4_text(a as nat, b as nat, c as nat, d as nat));
}

fn push_segments(out: &mut String, segments: &[u16; 8], from: usize, to: usize)
    requires
        from <= to <= 8,
    ensures
        final(out)@ == old(out)@ + segments_text(segments@.subrange(from as int, to as int)),
{
    let mut i: usize = from;
    assert(out@ =~= old(out)@ + segments_text(segments@.subrange(from as int, from as int)));
    while i < to
        invariant
            from <= i <= to <= 8,
            out@ == old(out)@ + segments_text(segments@.subrange(from as int, i as int)),
        decreases to - i,
    {
        if i > from {
            out.append(":");
        }
        text::push_hex(out, segments[i] as u128);
        proof {
            let next = segments@.subrange(from as int, i + 1);
            assert(next.drop_last() =~= segments@.subrange(from as int, i as int));
            assert(next.last() == segments@[i as int]);
            assert(out@ =~= old(out)@ + segments_text(next));
        }
        i += 1;
    }
}

impl IpAddr {
    /// The canonical text form.
    pub open spec fn spec_text(self) -> Seq<char> {
        match self {
            IpAddr::V4(o) => v4_text(o[0] as nat, o[1] as nat, o[2] as nat, o[3] as nat),
            IpAddr::V6(s) => v6_text(s@),
        }
    }

    /// Appends the canonical text form.
    pub fn push_text(&self, out: &mut String)
        ensures
            final(out)@ == old(out)@ + self.spec_text(),
    {
        match self {
            IpAddr::V4(o) => {
                push_v4(out, o[0], o[1], o[2], o[3]);
            },
            IpAddr::V6(s) => {
                if s[0] == 0 && s[1] == 0 && s[2] == 0 && s[3] == 0 && s[4] == 0 && s[5] == 0xffff {
                    out.append("::ffff:");
                    push_v4(
                        out,
                        (s[6] / 256) as u8,
                        (s[6] % 256) as u8,
                        (s[7] / 256) as u8,
                        (s[7] % 256) as u8,
                    );
                    assert(out@ =~= old(out)@ + self.spec_text());
                    return ;
                }
                let mut i: usize = 8;
                let mut run: usize = 0;
                let mut start: usize = 8;
                let mut len: usize = 0;
                while i > 0
                    invariant
                        i <= 8,
                        run == zero_run(s@, i as nat),
                        run <= 8 - i,
                        (start as nat, len as nat) == longest_zero_run(s@, i as nat),
                        start + len <= 8,
                    decreases i,
                {
                    i -= 1;
                    if s[i] == 0 {
                        run += 1;
                        if run >= len {
                            start = i;
                            len = run;
                        }
                    } else {
                        run = 0;
                    }
                    proof {
                        lemma_zero_run_fits(s@, i as nat);
                    }
                }
                if len > 1 {
                    push_segments(out, s, 0, start);
                    out.append("::");
                    push_segments(out, s, start + len, 8);
                    proof {
                        assert(s@.subrange(0, start as int) =~= s@.take(start as int));
                        assert(s@.subrange(start + len, 8) =~= s@.skip(start + len));
                        assert(out@ =~= old(out)@ + self.spec_text());
                    }
                } else {
                    push_segments(out, s, 0, 8);
                    assert(s@.subrange(0, 8) =~= s@);
                }
            },
        }
    }

    /// The canonical text form as a string of its own.
    pub fn to_text(&self) -> (r: String)
        ensures
            r@ == self.spec_text(),
    {
        let mut out: String = String::new();
        self.push_text(&mut out);
        assert(out@ =~= self.spec_text());
        out
    }
}

/// An IPv4 address is written as its four octets in decimal, in order, with a
/// dot between neighbours.
pub proof fn law_v4_text_joins_octets(o: [u8; 4])
    ensures
        IpAddr::V4(o).spec_text() == text::joined(
            seq![
                text::dec(o[0] as nat),
                text::dec(o[1] as nat),
                text::dec(o[2] as nat),
                text::dec(o[3] as nat),
            ],
            seq!['.'],
        ),
{
    reveal_strlit(".");
    assert("."@ =~= seq!['.']);
    let (a, b, c, d) = (
        text::dec(o[0] as nat),
        text::dec(o[1] as nat),
        text::dec(o[2] as nat),
        text::dec(o[3] as nat),
    );
    let all = seq![a, b, c, d];
    assert(all.drop_last() =~= seq![a, b, c]);
    assert(all.drop_last().drop_last() =~= seq![a, b]);
    assert(all.drop_last().drop_last().drop_last() =~= seq![a]);
    reveal_with_fuel(text::joined, 5);
    assert(text::joined(seq![a, b], "."@) == a + "."@ + b);
    assert(text::joined(seq![a, b, c], "."@) == a + "."@ + b + "."@ + c);
}

/// Whether the `n` segments from `a` on are a run of zeros.
pub open spec fn zeros(s: Seq<u16>, a: int, n: int) -> bool {
    0 <= a && 0 < n && a + n <= s.len() && forall|i: int| a <= i < a + n ==> s[i] == 0
}

/// The run of zeros that is found is a run of zeros, the longest of all and the
/// first of that length.
pub proof fn law_longest_run_is_leftmost(s: Seq<u16>)
    ensures
        ({
            let (start, len) = longest_zero_run(s, 0);
            &&& start + len <= s.len()
            &&& forall|i: int| start <= i < start + len ==> s[i] == 0
            &&& forall|a: int, n: int| #[trigger]
                zeros(s, a, n) ==> n < len || n == len && a >= start
        }),
{
    lemma_longest_run(s, 0);
}

proof fn lemma_zero_run_is_maximal(s: Seq<u16>, i: nat)
    requires
        i <= s.len(),
    ensures
        i + zero_run(s, i) <= s.len(),
        forall|j: int| i <= j < i + zero_run(s, i) ==> s[j] == 0,
        i + zero_run(s, i) < s.len() ==> s[(i + zero_run(s, i)) as int] != 0,
    decreases s.len() - i,
{
    if i < s.len() && s[i as int] == 0 {
        lemma_zero_run_is_maximal(s, i + 1);
    }
}

proof fn lemma_longest_run(s: Seq<u16>, k: nat)
    requires
        k <= s.len(),
    ensures
        ({
            let (start, len) = longest_zero_run(s, k);
            &&& k <= start
            &&& start + len <= s.len()
            &&& forall|i: int| start <= i < start + len ==> s[i] == 0
            &&& forall|a: int, n: int| #[trigger]
                zeros(s, a, n) && k <= a ==> n < len || n == len && a >= start
        }),
    decreases s.len() - k,
{
    if k < s.len() {
        lemma_longest_run(s, k + 1);
        lemma_zero_run_is_maximal(s, k);
        let (start, len) = longest_zero_run(s, k);
        let here = zero_run(s, k);
        assert forall|a: int, n: int| #[trigger] zeros(s, a, n) && k <= a implies n < len || n
            == len && a >= start by {
            if a == k {
                assert(n <= here) by {
                    if n > here {
                        assert(s[(k + here) as int] == 0);
                    }
                }
            }
        }
    }
}

/// The canonical IPv6 text elides at most one run of zeros: where `a` begins the
/// first of the longest runs, of `n > 1` segments, the text is what stands before
/// it, a double colon, and what stands behind it. Where no two neighbours are
/// zero nothing is elided. (IPv4-mapped addresses are written otherwise.)
pub proof fn law_v6_text_elides_the_longest_run(s: [u16; 8], a: int, n: int)
    requires
        !(s[0] == 0 && s[1] == 0 && s[2] == 0 && s[3] == 0 && s[4] == 0 && s[5] == 0xffff),
        n == 0 || zeros(s@, a, n),
        forall|b: int, m: int| #[trigger]
            zeros(s@, b, m) ==> m < n || m == n && b >= a,
    ensures
        n > 1 ==> IpAddr::V6(s).spec_text() == segments_text(s@.take(a)) + seq![':', ':']
            + segments_text(s@.skip(a + n)),
        n <= 1 ==> IpAddr::V6(s).spec_text() == segments_text(s@),
{
    reveal_strlit("::");
    assert("::"@ =~= seq![':', ':']);
    law_longest_run_is_leftmost(s@);
    let (start, len) = longest_zero_run(s@, 0);
    if len > 0 {
        assert(zeros(s@, start as int, len as int));
    }
}

/// Segments are written in hexadecimal, in order, with a colon between
/// neighbours.
pub proof fn law_segments_text_joins_segments(s: Seq<u16>)
    ensures
        segments_text(s) == text::joined(s.map_values(|x: u16| text::hex(x as nat)), seq![':']),
    decreases s.len(),
{
    reveal_strlit(":");
    assert(":"@ =~= seq![':']);
    let parts = s.map_values(|x: u16| text::hex(x as nat));
    if s.len() > 1 {
        law_segments_text_joins_segments(s.drop_last());
        assert(parts.drop_last() =~= s.drop_last().map_values(|x: u16| text::hex(x as nat)));
    }
}

/// An IPv4-mapped address ends in the IPv4 address that its last two segments
/// hold, in dotted decimal.
pub proof fn law_v4_mapped_text(s: [u16; 8], o: [u8; 4])
    requires
        s[0] == 0 && s[1] == 0 && s[2] == 0 && s[3] == 0 && s[4] == 0 && s[5] == 0xffff,
        s[6] == o[0] * 256 + o[1],
        s[7] == o[2] * 256 + o[3],
    ensures
        IpAddr::V6(s).spec_text() == "::ffff:"@ + IpAddr::V4(o).spec_text(),
{
}

} // verus!
