//! The Unsubscribe packet: a packet identifier, an empty property set, and
//! a payload of bare topic patterns read until the declared remaining
//! length is exhausted.  The fixed-header flags must equal the reserved
//! pattern 0x02.

use crate::codec::{
    enc_data, enc_u16, enc_vbi, lemma_enc_vbi_len, lemma_parse_enc_str, lemma_parse_enc_u16,
    lemma_parse_enc_vbi, lemma_spliced_concat, lemma_subrange_split, parse_str, parse_u16,
    parse_vbi, read_str, read_u16, read_vbi, rem, spliced, vbi_size, wf_str, write_data,
    write_u16, write_u8, write_vbi, CodecError, Parsed, VBI_MAX,
};
use vstd::prelude::*;

verus! {

/// A request to close one or more subscriptions.
#[derive(Clone, Debug, PartialEq, Eq)]
pub struct UnsubscribePacket {
    pub packet_id: u16,
    pub patterns: Vec<Vec<u8>>,
}

/// The mathematical value of an Unsubscribe packet.
#[verifier::ext_equal]
pub ghost struct UnsubscribeView {
    pub packet_id: u16,
    pub patterns: Seq<Seq<u8>>,
}

impl View for UnsubscribePacket {
    type V = UnsubscribeView;

    open spec fn view(&self) -> UnsubscribeView {
        UnsubscribeView {
            packet_id: self.packet_id,
            patterns: Seq::new(self.patterns@.len(), |t: int| self.patterns@[t]@),
        }
    }
}

/// The property region of an Unsubscribe packet: no property is allowed, so
/// the declared length must be zero.
pub open spec fn parse_unsub_props(s: Seq<u8>, i: int) -> Parsed<()> {
    match parse_vbi(s, i) {
        Parsed::Found { val: len, next: j } => {
            if len == 0 {
                Parsed::Found { val: (), next: j }
            } else if j >= s.len() {
                Parsed::Incomplete
            } else {
                Parsed::Malformed
            }
        },
        Parsed::Incomplete => Parsed::Incomplete,
        Parsed::Malformed => Parsed::Malformed,
    }
}

/// The wire form of the payload: each pattern as a length-prefixed string.
pub open spec fn enc_patterns(ps: Seq<Seq<u8>>) -> Seq<u8>
    decreases ps.len(),
{
    if ps.len() == 0 {
        Seq::empty()
    } else {
        enc_data(ps[0]) + enc_patterns(ps.drop_first())
    }
}

pub proof fn lemma_enc_patterns_concat(a: Seq<Seq<u8>>, b: Seq<Seq<u8>>)
    ensures
        enc_patterns(a + b) == enc_patterns(a) + enc_patterns(b),
    decreases a.len(),
{
    if a.len() == 0 {
        assert(a + b =~= b);
        assert(enc_patterns(a) + enc_patterns(b) =~= enc_patterns(b));
    } else {
        assert((a + b).drop_first() =~= a.drop_first() + b);
        assert((a + b)[0] == a[0]);
        lemma_enc_patterns_concat(a.drop_first(), b);
        assert(enc_patterns(a + b) =~= enc_patterns(a) + enc_patterns(b));
    }
}

pub proof fn lemma_enc_patterns_snoc(ps: Seq<Seq<u8>>, p: Seq<u8>)
    ensures
        enc_patterns(ps.push(p)) == enc_patterns(ps) + enc_data(p),
{
    lemma_enc_patterns_concat(ps, seq![p]);
    assert(ps.push(p) =~= ps + seq![p]);
    reveal_with_fuel(enc_patterns, 3);
    assert(seq![p].drop_first() =~= Seq::<Seq<u8>>::empty());
    assert(enc_patterns(seq![p]) =~= enc_data(p));
}

/// The payload loop: topic patterns until the declared end of the packet.
pub open spec fn parse_patterns(s: Seq<u8>, i: int, end: int, acc: Seq<Seq<u8>>) -> Parsed<
    Seq<Seq<u8>>,
>
    decreases rem(i, end),
{
    if i >= end {
        Parsed::Found { val: acc, next: i }
    } else {
        match parse_str(s, i) {
            Parsed::Found { val: p, next: j } => parse_patterns(s, j, end, acc.push(p)),
            Parsed::Incomplete => Parsed::Incomplete,
            Parsed::Malformed => Parsed::Malformed,
        }
    }
}

/// Parsing an encoded pattern list yields the patterns back.
pub proof fn lemma_parse_enc_patterns(s: Seq<u8>, i: int, ps: Seq<Seq<u8>>, acc: Seq<Seq<u8>>)
    requires
        forall|t: int| 0 <= t < ps.len() ==> wf_str(#[trigger] ps[t]),
        0 <= i,
        i + enc_patterns(ps).len() <= s.len(),
        s.subrange(i, i + enc_patterns(ps).len()) == enc_patterns(ps),
    ensures
        parse_patterns(s, i, i + enc_patterns(ps).len(), acc) == (Parsed::Found {
            val: acc + ps,
            next: i + enc_patterns(ps).len(),
        }),
    decreases ps.len(),
{
    if ps.len() == 0 {
        assert(acc + ps =~= acc);
    } else {
        let p = ps[0];
        let rest = ps.drop_first();
        let end = i + enc_patterns(ps).len();
        lemma_subrange_split(s, i, enc_data(p), enc_patterns(rest));
        lemma_parse_enc_str(s, i, p);
        let j = i + 2 + p.len();
        lemma_parse_enc_patterns(s, j, rest, acc.push(p));
        assert(acc.push(p) + rest =~= acc + ps);
        assert(parse_patterns(s, i, end, acc) == parse_patterns(s, j, end, acc.push(p)));
    }
}

/// The variable header and payload of an Unsubscribe packet.
pub open spec fn parse_unsubscribe(s: Seq<u8>, i: int, flags: u8, rl: u32) -> Parsed<
    UnsubscribeView,
> {
    if flags != 0x02 {
        Parsed::Malformed
    } else {
        match parse_u16(s, i) {
            Parsed::Found { val: packet_id, next: j } => {
                match parse_unsub_props(s, j) {
                    Parsed::Found { val: _, next: k } => {
                        match parse_patterns(s, k, i + rl, Seq::empty()) {
                            Parsed::Found { val: patterns, next: m } => Parsed::Found {
                                val: UnsubscribeView { packet_id, patterns },
                                next: m,
                            },
                            Parsed::Incomplete => Parsed::Incomplete,
                            Parsed::Malformed => Parsed::Malformed,
                        }
                    },
                    Parsed::Incomplete => Parsed::Incomplete,
                    Parsed::Malformed => Parsed::Malformed,
                }
            },
            _ => Parsed::Incomplete,
        }
    }
}

impl UnsubscribeView {
    pub open spec fn wf(self) -> bool {
        (forall|t: int| 0 <= t < self.patterns.len() ==> wf_str(#[trigger] self.patterns[t]))
            && self.body().len() <= VBI_MAX
    }

    /// Everything after the fixed header.
    pub open spec fn body(self) -> Seq<u8> {
        enc_u16(self.packet_id) + seq![0x00u8] + enc_patterns(self.patterns)
    }

    /// The complete wire form.
    pub open spec fn bytes(self) -> Seq<u8> {
        seq![0xA2u8] + enc_vbi(self.body().len() as u32) + self.body()
    }
}

impl UnsubscribePacket {
    pub fn new(packet_id: u16, patterns: Vec<Vec<u8>>) -> (r: UnsubscribePacket)
        ensures
            r@ == (UnsubscribeView {
                packet_id,
                patterns: Seq::new(patterns@.len(), |t: int| patterns@[t]@),
            }),
    {
        UnsubscribePacket { packet_id, patterns }
    }

    /// Reads the variable header and payload, the cursor standing after the
    /// fixed header.
    pub fn read(s: &[u8], pos: usize, flags: u8, remaining_length: u32) -> (r: Result<
        (UnsubscribePacket, usize),
        CodecError,
    >)
        requires
            pos <= s@.len(),
        ensures
            (match parse_unsubscribe(s@, pos as int, flags, remaining_length) {
                Parsed::Found { val, next } => r matches Ok(x) && x.0@ == val && x.1 == next
                    && pos < next <= s@.len() && next <= usize::MAX,
                Parsed::Incomplete => r == Err::<(UnsubscribePacket, usize), CodecError>(
                    CodecError::InsufficientBytes,
                ),
                Parsed::Malformed => r == Err::<(UnsubscribePacket, usize), CodecError>(
                    CodecError::MalformedBytes,
                ),
            }),
    {
        if flags != 0x02 {
            return Err(CodecError::MalformedBytes);
        }
        let (packet_id, p1) = read_u16(s, pos)?;
        let (plen, p2) = read_vbi(s, p1)?;
        if plen != 0 {
            if p2 >= s.len() {
                return Err(CodecError::InsufficientBytes);
            }
            return Err(CodecError::MalformedBytes);
        }
        let ghost end = pos as int + remaining_length as int;
        let mut patterns: Vec<Vec<u8>> = Vec::new();
        proof {
            assert(Seq::new(patterns@.len(), |t: int| patterns@[t]@) =~= Seq::<Seq<u8>>::empty());
        }
        let mut cur: usize = p2;
        while cur - pos < remaining_length as usize
            invariant
                pos < cur <= s@.len(),
                end == pos as int + remaining_length as int,
                (match parse_patterns(
                    s@,
                    cur as int,
                    end,
                    Seq::new(patterns@.len(), |t: int| patterns@[t]@),
                ) {
                    Parsed::Found { val, next } => parse_unsubscribe(
                        s@,
                        pos as int,
                        flags,
                        remaining_length,
                    ) == (Parsed::Found {
                        val: UnsubscribeView { packet_id, patterns: val },
                        next,
                    }),
                    Parsed::Incomplete => parse_unsubscribe(
                        s@,
                        pos as int,
                        flags,
                        remaining_length,
                    ) == Parsed::<UnsubscribeView>::Incomplete,
                    Parsed::Malformed => parse_unsubscribe(s@, pos as int, flags, remaining_length)
                        == Parsed::<UnsubscribeView>::Malformed,
                }),
            decreases rem(cur as int, end),
        {
            let (p, p3) = read_str(s, cur)?;
            let ghost before = Seq::new(patterns@.len(), |t: int| patterns@[t]@);
            patterns.push(p);
            proof {
                assert(Seq::new(patterns@.len(), |t: int| patterns@[t]@) =~= before.push(
                    patterns@[patterns@.len() - 1]@,
                ));
            }
            cur = p3;
        }
        Ok((UnsubscribePacket { packet_id, patterns }, cur))
    }

    /// Serializes the packet into `buffer` at `index`; fails, touching
    /// nothing, exactly when the buffer is too short.
    #[verifier::spinoff_prover]
    #[verifier::rlimit(100)]
    pub fn write(&self, buffer: &mut Vec<u8>, index: usize) -> (r: Result<usize, CodecError>)
        requires
            self@.wf(),
            index <= old(buffer)@.len(),
        ensures
            (match r {
                Ok(n) => n == self@.bytes().len() && old(buffer)@.len() >= index
                    + self@.bytes().len() && final(buffer)@ == spliced(
                    old(buffer)@,
                    index as int,
                    self@.bytes(),
                ) && final(buffer)@.len() == old(buffer)@.len(),
                Err(e) => e == CodecError::InsufficientBytes && final(buffer)@ == old(buffer)@
                    && old(buffer)@.len() < index + self@.bytes().len(),
            }),
    {
        let ghost psv = self@.patterns;
        let mut payload_nbytes: usize = 0;
        let mut k: usize = 0;
        while k < self.patterns.len()
            invariant
                k <= self.patterns@.len(),
                psv == self@.patterns,
                self@.wf(),
                psv.len() == self.patterns@.len(),
                forall|t: int| 0 <= t < psv.len() ==> psv[t] == #[trigger] self.patterns@[t]@,
                payload_nbytes == enc_patterns(psv.subrange(0, k as int)).len(),
                payload_nbytes <= enc_patterns(psv).len(),
            decreases self.patterns@.len() - k,
        {
            proof {
                let part = psv.subrange(0, k as int);
                lemma_enc_patterns_snoc(part, psv[k as int]);
                assert(psv.subrange(0, k + 1 as int) =~= part.push(psv[k as int]));
                lemma_enc_patterns_concat(psv.subrange(0, k + 1 as int), psv.skip(k + 1 as int));
                assert(psv.subrange(0, k + 1 as int) + psv.skip(k + 1 as int) =~= psv);
                assert(enc_patterns(psv.subrange(0, k + 1 as int)).len() <= enc_patterns(
                    psv,
                ).len());
            }
            payload_nbytes = payload_nbytes + 2 + self.patterns[k].len();
            k = k + 1;
        }
        proof {
            assert(psv.subrange(0, psv.len() as int) =~= psv);
        }
        let nbytes = 2 + 1 + payload_nbytes;
        proof {
            assert(nbytes == self@.body().len());
            lemma_enc_vbi_len(nbytes as u32);
        }
        let rl_size = vbi_size(nbytes as u32);
        let total = 1 + rl_size + nbytes;
        if buffer.len() - index < total {
            return Err(CodecError::InsufficientBytes);
        }
        write_u8(buffer, index, 0xA2);
        proof {
            lemma_spliced_concat(old(buffer)@, index as int, seq![0xA2u8], enc_vbi(nbytes as u32));
        }
        write_vbi(buffer, index + 1, nbytes as u32);
        proof {
            lemma_spliced_concat(
                old(buffer)@,
                index as int,
                seq![0xA2u8] + enc_vbi(nbytes as u32),
                enc_u16(self.packet_id),
            );
        }
        write_u16(buffer, index + 1 + rl_size, self.packet_id);
        proof {
            lemma_spliced_concat(
                old(buffer)@,
                index as int,
                seq![0xA2u8] + enc_vbi(nbytes as u32) + enc_u16(self.packet_id),
                seq![0x00u8],
            );
        }
        write_u8(buffer, index + 1 + rl_size + 2, 0x00);
        let ghost head = seq![0xA2u8] + enc_vbi(nbytes as u32) + enc_u16(self.packet_id) + seq![
            0x00u8,
        ];
        let base = index + 1 + rl_size + 3;
        let mut k: usize = 0;
        let mut w: usize = 0;
        while k < self.patterns.len()
            invariant
                k <= self.patterns@.len(),
                w == enc_patterns(psv.subrange(0, k as int)).len(),
                psv.len() == self.patterns@.len(),
                forall|t: int| 0 <= t < psv.len() ==> psv[t] == #[trigger] self.patterns@[t]@,
                forall|t: int| 0 <= t < psv.len() ==> wf_str(#[trigger] psv[t]),
                head.len() == base - index,
                index <= base,
                base + enc_patterns(psv).len() <= buffer@.len(),
                buffer@.len() <= usize::MAX,
                buffer@.len() == old(buffer)@.len(),
                buffer@ == spliced(
                    old(buffer)@,
                    index as int,
                    head + enc_patterns(psv.subrange(0, k as int)),
                ),
            decreases self.patterns@.len() - k,
        {
            let ghost part = psv.subrange(0, k as int);
            proof {
                assert(psv[k as int] == self.patterns@[k as int]@);
                lemma_enc_patterns_concat(part, psv.skip(k as int));
                assert(part + psv.skip(k as int) =~= psv);
                assert(psv.skip(k as int)[0] == psv[k as int]);
                assert(enc_patterns(psv.skip(k as int)).len() >= enc_data(psv[k as int]).len());
                assert(enc_patterns(part).len() + enc_data(psv[k as int]).len() <= enc_patterns(
                    psv,
                ).len());
                lemma_spliced_concat(
                    old(buffer)@,
                    index as int,
                    head + enc_patterns(part),
                    enc_data(psv[k as int]),
                );
            }
            write_data(buffer, base + w, self.patterns[k].as_slice());
            proof {
                lemma_enc_patterns_snoc(part, psv[k as int]);
                assert(psv.subrange(0, k + 1 as int) =~= part.push(psv[k as int]));
                assert(head + enc_patterns(part) + enc_data(psv[k as int]) =~= head + enc_patterns(
                    psv.subrange(0, k + 1 as int),
                ));
            }
            w = w + 2 + self.patterns[k].len();
            k = k + 1;
        }
        proof {
            assert(psv.subrange(0, psv.len() as int) =~= psv);
            assert(head + enc_patterns(psv) =~= self@.bytes());
        }
        Ok(total)
    }
}

/// Parsing an encoded Unsubscribe body yields the packet back.
pub proof fn lemma_parse_enc_unsubscribe(s: Seq<u8>, i: int, v: UnsubscribeView)
    requires
        v.wf(),
        0 <= i,
        i + v.body().len() <= s.len(),
        s.subrange(i, i + v.body().len()) == v.body(),
    ensures
        parse_unsubscribe(s, i, 0x02, v.body().len() as u32) == (Parsed::Found {
            val: v,
            next: i + v.body().len(),
        }),
{
    let a = enc_u16(v.packet_id);
    let b = seq![0x00u8];
    let c = enc_patterns(v.patterns);
    assert(v.body() =~= a + (b + c));
    lemma_subrange_split(s, i, a, b + c);
    lemma_parse_enc_u16(s, i, v.packet_id);
    lemma_subrange_split(s, i + 2, b, c);
    assert(s.subrange(i + 2, i + 3)[0] == s[i + 2]);
    assert(s[i + 2] == 0x00u8);
    assert(b =~= enc_vbi(0));
    lemma_parse_enc_vbi(s, i + 2, 0);
    let k = i + 3;
    lemma_parse_enc_patterns(s, k, v.patterns, Seq::empty());
    assert(Seq::empty() + v.patterns =~= v.patterns);
    assert(k + c.len() == i + v.body().len());
}

} // verus!
