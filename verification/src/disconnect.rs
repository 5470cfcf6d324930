//! The Disconnect packet: a reason code and a property set, both optional
//! on the wire.  A remaining length of zero means a normal disconnection
//! with no properties; a remaining length of one carries only the reason
//! code.

use crate::codec::{
    enc_u8, enc_vbi, lemma_enc_vbi_len, lemma_parse_enc_str, lemma_parse_enc_u32,
    lemma_parse_enc_vbi, lemma_spliced_concat, lemma_subrange_split, parse_str, parse_u32,
    parse_u8, parse_vbi, read_str, read_u32, read_u8, read_vbi, rem, spliced, vbi_size,
    view_opt_bytes, wf_opt_str, write_data, write_u32, write_u8, write_vbi, CodecError, Parsed,
};
use crate::props::{
    enc_opt_data, enc_opt_u32, PROP_REASON_STRING, PROP_SERVER_REFERENCE,
    PROP_SESSION_EXPIRY_INTERVAL,
};
use crate::reason_codes::DisconnectReasonCode;
use vstd::prelude::*;

verus! {

/// Notification that the connection is being closed.
#[derive(Clone, Debug, PartialEq, Eq)]
pub struct DisconnectPacket {
    pub reason_code: DisconnectReasonCode,
    pub session_expiry_interval: Option<u32>,
    pub server_reference: Option<Vec<u8>>,
    pub reason_string: Option<Vec<u8>>,
}

/// The mathematical value of a Disconnect packet.
#[verifier::ext_equal]
pub ghost struct DisconnectView {
    pub reason_code: DisconnectReasonCode,
    pub session_expiry_interval: Option<u32>,
    pub server_reference: Option<Seq<u8>>,
    pub reason_string: Option<Seq<u8>>,
}

impl View for DisconnectPacket {
    type V = DisconnectView;

    open spec fn view(&self) -> DisconnectView {
        DisconnectView {
            reason_code: self.reason_code,
            session_expiry_interval: self.session_expiry_interval,
            server_reference: view_opt_bytes(self.server_reference),
            reason_string: view_opt_bytes(self.reason_string),
        }
    }
}

/// The property fields of a Disconnect packet, while being accumulated.
#[verifier::ext_equal]
pub ghost struct DisconnectProps {
    pub session_expiry_interval: Option<u32>,
    pub server_reference: Option<Seq<u8>>,
    pub reason_string: Option<Seq<u8>>,
}

/// The property loop of a Disconnect packet.
pub open spec fn parse_disconnect_prop_items(
    s: Seq<u8>,
    i: int,
    end: int,
    acc: DisconnectProps,
) -> Parsed<DisconnectProps>
    decreases rem(i, end),
{
    if i >= end {
        Parsed::Found { val: acc, next: i }
    } else {
        match parse_u8(s, i) {
            Parsed::Found { val: id, next: j } => {
                if id == PROP_SESSION_EXPIRY_INTERVAL {
                    match parse_u32(s, j) {
                        Parsed::Found { val: v, next: k } => {
                            if acc.session_expiry_interval is Some {
                                Parsed::Malformed
                            } else {
                                parse_disconnect_prop_items(
                                    s,
                                    k,
                                    end,
                                    DisconnectProps { session_expiry_interval: Some(v), ..acc },
                                )
                            }
                        },
                        Parsed::Incomplete => Parsed::Incomplete,
                        Parsed::Malformed => Parsed::Malformed,
                    }
                } else if id == PROP_SERVER_REFERENCE {
                    match parse_str(s, j) {
                        Parsed::Found { val: v, next: k } => {
                            if acc.server_reference is Some {
                                Parsed::Malformed
                            } else {
                                parse_disconnect_prop_items(
                                    s,
                                    k,
                                    end,
                                    DisconnectProps { server_reference: Some(v), ..acc },
                                )
                            }
                        },
                        Parsed::Incomplete => Parsed::Incomplete,
                        Parsed::Malformed => Parsed::Malformed,
                    }
                } else if id == PROP_REASON_STRING {
                    match parse_str(s, j) {
                        Parsed::Found { val: v, next: k } => {
                            if acc.reason_string is Some {
                                Parsed::Malformed
                            } else {
                                parse_disconnect_prop_items(
                                    s,
                                    k,
                                    end,
                                    DisconnectProps { reason_string: Some(v), ..acc },
                                )
                            }
                        },
                        Parsed::Incomplete => Parsed::Incomplete,
                        Parsed::Malformed => Parsed::Malformed,
                    }
                } else {
                    Parsed::Malformed
                }
            },
            _ => Parsed::Incomplete,
        }
    }
}

/// The property region of a Disconnect packet.
pub open spec fn parse_disconnect_props(s: Seq<u8>, i: int) -> Parsed<DisconnectProps> {
    match parse_vbi(s, i) {
        Parsed::Found { val: len, next: j } => parse_disconnect_prop_items(
            s,
            j,
            j + len,
            DisconnectProps {
                session_expiry_interval: None,
                server_reference: None,
                reason_string: None,
            },
        ),
        Parsed::Incomplete => Parsed::Incomplete,
        Parsed::Malformed => Parsed::Malformed,
    }
}

pub open spec fn enc_disconnect_prop_items(p: DisconnectProps) -> Seq<u8> {
    enc_opt_u32(PROP_SESSION_EXPIRY_INTERVAL, p.session_expiry_interval) + enc_opt_data(
        PROP_SERVER_REFERENCE,
        p.server_reference,
    ) + enc_opt_data(PROP_REASON_STRING, p.reason_string)
}

pub open spec fn enc_disconnect_props(p: DisconnectProps) -> Seq<u8> {
    enc_vbi(enc_disconnect_prop_items(p).len() as u32) + enc_disconnect_prop_items(p)
}

pub open spec fn wf_disconnect_props(p: DisconnectProps) -> bool {
    wf_opt_str(p.server_reference) && wf_opt_str(p.reason_string)
}

/// One property-loop step over an encoded session-expiry-interval property.
proof fn lemma_disconnect_step_session_expiry(
    s: Seq<u8>,
    i: int,
    end: int,
    acc: DisconnectProps,
    v: u32,
)
    requires
        0 <= i,
        i + 5 <= s.len(),
        s.subrange(i, i + 5) == seq![PROP_SESSION_EXPIRY_INTERVAL] + crate::codec::enc_u32(v),
        i < end,
        acc.session_expiry_interval is None,
    ensures
        parse_disconnect_prop_items(s, i, end, acc) == parse_disconnect_prop_items(
            s,
            i + 5,
            end,
            (DisconnectProps { session_expiry_interval: Some(v), ..acc }),
        ),
{
    lemma_subrange_split(s, i, seq![PROP_SESSION_EXPIRY_INTERVAL], crate::codec::enc_u32(v));
    assert(s.subrange(i, i + 1)[0] == s[i]);
    lemma_parse_enc_u32(s, i + 1, v);
}

/// One property-loop step over an encoded server-reference property.
proof fn lemma_disconnect_step_server_reference(
    s: Seq<u8>,
    i: int,
    end: int,
    acc: DisconnectProps,
    v: Seq<u8>,
)
    requires
        crate::codec::wf_str(v),
        0 <= i,
        i + 3 + v.len() <= s.len(),
        s.subrange(i, i + 3 + v.len()) == seq![PROP_SERVER_REFERENCE] + crate::codec::enc_data(v),
        i < end,
        acc.server_reference is None,
    ensures
        parse_disconnect_prop_items(s, i, end, acc) == parse_disconnect_prop_items(
            s,
            i + 3 + v.len(),
            end,
            (DisconnectProps { server_reference: Some(v), ..acc }),
        ),
{
    lemma_subrange_split(s, i, seq![PROP_SERVER_REFERENCE], crate::codec::enc_data(v));
    assert(s.subrange(i, i + 1)[0] == s[i]);
    lemma_parse_enc_str(s, i + 1, v);
}

/// One property-loop step over an encoded reason-string property.
proof fn lemma_disconnect_step_reason_string(
    s: Seq<u8>,
    i: int,
    end: int,
    acc: DisconnectProps,
    v: Seq<u8>,
)
    requires
        crate::codec::wf_str(v),
        0 <= i,
        i + 3 + v.len() <= s.len(),
        s.subrange(i, i + 3 + v.len()) == seq![PROP_REASON_STRING] + crate::codec::enc_data(v),
        i < end,
        acc.reason_string is None,
    ensures
        parse_disconnect_prop_items(s, i, end, acc) == parse_disconnect_prop_items(
            s,
            i + 3 + v.len(),
            end,
            (DisconnectProps { reason_string: Some(v), ..acc }),
        ),
{
    lemma_subrange_split(s, i, seq![PROP_REASON_STRING], crate::codec::enc_data(v));
    assert(s.subrange(i, i + 1)[0] == s[i]);
    lemma_parse_enc_str(s, i + 1, v);
}

/// Parsing an encoded Disconnect property region yields the fields back.
#[verifier::spinoff_prover]
#[verifier::rlimit(100)]
pub proof fn lemma_parse_enc_disconnect_props(s: Seq<u8>, i: int, p: DisconnectProps)
    requires
        wf_disconnect_props(p),
        0 <= i,
        i + enc_disconnect_props(p).len() <= s.len(),
        s.subrange(i, i + enc_disconnect_props(p).len()) == enc_disconnect_props(p),
    ensures
        parse_disconnect_props(s, i) == (Parsed::Found {
            val: p,
            next: i + enc_disconnect_props(p).len(),
        }),
{
    let f1 = enc_opt_u32(PROP_SESSION_EXPIRY_INTERVAL, p.session_expiry_interval);
    let f2 = enc_opt_data(PROP_SERVER_REFERENCE, p.server_reference);
    let f3 = enc_opt_data(PROP_REASON_STRING, p.reason_string);
    let items = enc_disconnect_prop_items(p);
    let lenb = enc_vbi(items.len() as u32);
    lemma_enc_vbi_len(items.len() as u32);
    lemma_subrange_split(s, i, lenb, items);
    lemma_parse_enc_vbi(s, i, items.len() as u32);
    let j0 = i + lenb.len();
    let end = j0 + items.len();
    assert(items =~= f1 + (f2 + f3));
    lemma_subrange_split(s, j0, f1, f2 + f3);
    let j1 = j0 + f1.len();
    lemma_subrange_split(s, j1, f2, f3);
    let j2 = j1 + f2.len();
    let j3 = j2 + f3.len();
    let acc0 = DisconnectProps {
        session_expiry_interval: None,
        server_reference: None,
        reason_string: None,
    };
    let acc1 = DisconnectProps { session_expiry_interval: p.session_expiry_interval, ..acc0 };
    let acc2 = DisconnectProps { server_reference: p.server_reference, ..acc1 };
    if p.session_expiry_interval is Some {
        lemma_disconnect_step_session_expiry(s, j0, end, acc0, p.session_expiry_interval.unwrap());
    }
    assert(parse_disconnect_prop_items(s, j0, end, acc0) == parse_disconnect_prop_items(
        s,
        j1,
        end,
        acc1,
    ));
    if p.server_reference is Some {
        lemma_disconnect_step_server_reference(s, j1, end, acc1, p.server_reference.unwrap());
    }
    assert(parse_disconnect_prop_items(s, j1, end, acc1) == parse_disconnect_prop_items(
        s,
        j2,
        end,
        acc2,
    ));
    if p.reason_string is Some {
        lemma_disconnect_step_reason_string(s, j2, end, acc2, p.reason_string.unwrap());
    }
    assert(acc2.session_expiry_interval == p.session_expiry_interval);
    assert(parse_disconnect_prop_items(s, j2, end, acc2) == parse_disconnect_prop_items(
        s,
        j3,
        end,
        p,
    ));
    assert(parse_disconnect_prop_items(s, j3, end, p) == (Parsed::Found { val: p, next: end }));
}

/// Each encoded Disconnect property fits a small constant.
#[verifier::spinoff_prover]
pub proof fn lemma_disconnect_items_bound(p: DisconnectProps)
    requires
        wf_disconnect_props(p),
    ensures
        enc_disconnect_prop_items(p).len() <= 5 + 2 * (3 + 0xFFFF),
{
    assert(enc_opt_u32(PROP_SESSION_EXPIRY_INTERVAL, p.session_expiry_interval).len() <= 5);
    assert(enc_opt_data(PROP_SERVER_REFERENCE, p.server_reference).len() <= 3 + 0xFFFF);
    assert(enc_opt_data(PROP_REASON_STRING, p.reason_string).len() <= 3 + 0xFFFF);
}

/// Reads a Disconnect property region.
pub fn read_disconnect_props(s: &[u8], pos: usize) -> (r: Result<
    ((Option<u32>, Option<Vec<u8>>, Option<Vec<u8>>), usize),
    CodecError,
>)
    requires
        pos <= s@.len(),
    ensures
        (match parse_disconnect_props(s@, pos as int) {
            Parsed::Found { val, next } => r matches Ok(x) && x.0.0 == val.session_expiry_interval
                && view_opt_bytes(x.0.1) == val.server_reference && view_opt_bytes(x.0.2)
                == val.reason_string && x.1 == next && pos < next <= s@.len() && next <= usize::MAX,
            Parsed::Incomplete => r == Err::<
                ((Option<u32>, Option<Vec<u8>>, Option<Vec<u8>>), usize),
                CodecError,
            >(CodecError::InsufficientBytes),
            Parsed::Malformed => r == Err::<
                ((Option<u32>, Option<Vec<u8>>, Option<Vec<u8>>), usize),
                CodecError,
            >(CodecError::MalformedBytes),
        }),
{
    let (plen, p0) = read_vbi(s, pos)?;
    let ghost end = p0 as int + plen as int;
    let mut session_expiry_interval: Option<u32> = None;
    let mut server_reference: Option<Vec<u8>> = None;
    let mut reason_string: Option<Vec<u8>> = None;
    let mut cur: usize = p0;
    while cur - p0 < plen as usize
        invariant
            pos < p0 <= cur <= s@.len(),
            end == p0 as int + plen as int,
            parse_disconnect_props(s@, pos as int) == parse_disconnect_prop_items(
                s@,
                cur as int,
                end,
                DisconnectProps {
                    session_expiry_interval,
                    server_reference: view_opt_bytes(server_reference),
                    reason_string: view_opt_bytes(reason_string),
                },
            ),
        decreases rem(cur as int, end),
    {
        let (id, p1) = read_u8(s, cur)?;
        if id == PROP_SESSION_EXPIRY_INTERVAL {
            let (v, p2) = read_u32(s, p1)?;
            if session_expiry_interval.is_some() {
                return Err(CodecError::MalformedBytes);
            }
            session_expiry_interval = Some(v);
            cur = p2;
        } else if id == PROP_SERVER_REFERENCE {
            let (v, p2) = read_str(s, p1)?;
            if server_reference.is_some() {
                return Err(CodecError::MalformedBytes);
            }
            server_reference = Some(v);
            cur = p2;
        } else if id == PROP_REASON_STRING {
            let (v, p2) = read_str(s, p1)?;
            if reason_string.is_some() {
                return Err(CodecError::MalformedBytes);
            }
            reason_string = Some(v);
            cur = p2;
        } else {
            return Err(CodecError::MalformedBytes);
        }
    }
    Ok(((session_expiry_interval, server_reference, reason_string), cur))
}

/// The declared remaining length gates the reason code (at least one byte)
/// and the properties (more than one byte).
pub open spec fn parse_disconnect(s: Seq<u8>, i: int, flags: u8, rl: u32) -> Parsed<
    DisconnectView,
> {
    if flags != 0x00 {
        Parsed::Malformed
    } else if rl == 0 {
        Parsed::Found {
            val: DisconnectView {
                reason_code: DisconnectReasonCode::NormalDisconnection,
                session_expiry_interval: None,
                server_reference: None,
                reason_string: None,
            },
            next: i,
        }
    } else {
        match parse_u8(s, i) {
            Parsed::Found { val: b, next: j } => {
                match DisconnectReasonCode::spec_from(b) {
                    Some(reason_code) => {
                        if rl <= 1 {
                            Parsed::Found {
                                val: DisconnectView {
                                    reason_code,
                                    session_expiry_interval: None,
                                    server_reference: None,
                                    reason_string: None,
                                },
                                next: j,
                            }
                        } else {
                            match parse_disconnect_props(s, j) {
                                Parsed::Found { val: p, next: m } => Parsed::Found {
                                    val: DisconnectView {
                                        reason_code,
                                        session_expiry_interval: p.session_expiry_interval,
                                        server_reference: p.server_reference,
                                        reason_string: p.reason_string,
                                    },
                                    next: m,
                                },
                                Parsed::Incomplete => Parsed::Incomplete,
                                Parsed::Malformed => Parsed::Malformed,
                            }
                        }
                    },
                    None => Parsed::Malformed,
                }
            },
            _ => Parsed::Incomplete,
        }
    }
}

impl DisconnectView {
    pub open spec fn wf(self) -> bool {
        wf_opt_str(self.server_reference) && wf_opt_str(self.reason_string)
    }

    pub open spec fn props(self) -> DisconnectProps {
        DisconnectProps {
            session_expiry_interval: self.session_expiry_interval,
            server_reference: self.server_reference,
            reason_string: self.reason_string,
        }
    }

    /// A normal disconnection with no properties: the packet the minimal
    /// zero-length form decodes to.
    pub open spec fn is_default(self) -> bool {
        &&& self.reason_code == DisconnectReasonCode::NormalDisconnection
        &&& self.session_expiry_interval is None
        &&& self.server_reference is None
        &&& self.reason_string is None
    }

    /// Everything after the fixed header; a packet at its defaults takes the
    /// minimal form, with the reason code and property region omitted.
    pub open spec fn body(self) -> Seq<u8> {
        if self.is_default() {
            Seq::empty()
        } else {
            enc_u8(self.reason_code.as_byte()) + enc_disconnect_props(self.props())
        }
    }

    /// The complete wire form.
    pub open spec fn bytes(self) -> Seq<u8> {
        seq![0xE0u8] + enc_vbi(self.body().len() as u32) + self.body()
    }
}

impl DisconnectPacket {
    pub fn new(
        reason_code: DisconnectReasonCode,
        session_expiry_interval: Option<u32>,
        server_reference: Option<Vec<u8>>,
        reason_string: Option<Vec<u8>>,
    ) -> (r: DisconnectPacket)
        ensures
            r@ == (DisconnectView {
                reason_code,
                session_expiry_interval,
                server_reference: view_opt_bytes(server_reference),
                reason_string: view_opt_bytes(reason_string),
            }),
    {
        DisconnectPacket { reason_code, session_expiry_interval, server_reference, reason_string }
    }

    /// Reads the variable header, the cursor standing after the fixed
    /// header.
    pub fn read(s: &[u8], pos: usize, flags: u8, remaining_length: u32) -> (r: Result<
        (DisconnectPacket, usize),
        CodecError,
    >)
        requires
            pos <= s@.len(),
        ensures
            (match parse_disconnect(s@, pos as int, flags, remaining_length) {
                Parsed::Found { val, next } => r matches Ok(x) && x.0@ == val && x.1 == next
                    && pos <= next <= s@.len() && next <= usize::MAX,
                Parsed::Incomplete => r == Err::<(DisconnectPacket, usize), CodecError>(
                    CodecError::InsufficientBytes,
                ),
                Parsed::Malformed => r == Err::<(DisconnectPacket, usize), CodecError>(
                    CodecError::MalformedBytes,
                ),
            }),
    {
        if flags != 0x00 {
            return Err(CodecError::MalformedBytes);
        }
        if remaining_length == 0 {
            return Ok(
                (
                    DisconnectPacket {
                        reason_code: DisconnectReasonCode::NormalDisconnection,
                        session_expiry_interval: None,
                        server_reference: None,
                        reason_string: None,
                    },
                    pos,
                ),
            );
        }
        let (b, p1) = read_u8(s, pos)?;
        let reason_code = DisconnectReasonCode::new(b)?;
        if remaining_length <= 1 {
            return Ok(
                (
                    DisconnectPacket {
                        reason_code,
                        session_expiry_interval: None,
                        server_reference: None,
                        reason_string: None,
                    },
                    p1,
                ),
            );
        }
        let ((session_expiry_interval, server_reference, reason_string), p2) =
            read_disconnect_props(s, p1)?;
        Ok(
            (
                DisconnectPacket {
                    reason_code,
                    session_expiry_interval,
                    server_reference,
                    reason_string,
                },
                p2,
            ),
        )
    }

    /// Serializes the packet into `buffer` at `index`; fails, touching
    /// nothing, exactly when the buffer is too short.
    #[verifier::spinoff_prover]
    #[verifier::rlimit(100)]
    pub fn write(&self, buffer: &mut Vec<u8>, index: usize) -> (r: Result<usize, CodecError>)
        requires
            self@.wf(),
            index <= old(buffer)@.len(),
        ensures
            (match r {
                Ok(n) => n == self@.bytes().len() && old(buffer)@.len() >= index
                    + self@.bytes().len() && final(buffer)@ == spliced(
                    old(buffer)@,
                    index as int,
                    self@.bytes(),
                ) && final(buffer)@.len() == old(buffer)@.len(),
                Err(e) => e == CodecError::InsufficientBytes && final(buffer)@ == old(buffer)@
                    && old(buffer)@.len() < index + self@.bytes().len(),
            }),
    {
        if matches!(self.reason_code, DisconnectReasonCode::NormalDisconnection)
            && self.session_expiry_interval.is_none() && self.server_reference.is_none()
            && self.reason_string.is_none() {
            proof {
                assert(self@.body() =~= Seq::<u8>::empty());
            }
            if buffer.len() - index < 2 {
                return Err(CodecError::InsufficientBytes);
            }
            write_u8(buffer, index, 0xE0);
            proof {
                lemma_spliced_concat(old(buffer)@, index as int, seq![0xE0u8], enc_vbi(0));
            }
            write_vbi(buffer, index + 1, 0);
            proof {
                assert(seq![0xE0u8] + enc_vbi(0) =~= self@.bytes());
            }
            return Ok(2);
        }
        let props_nbytes = disconnect_props_size(
            &self.session_expiry_interval,
            &self.server_reference,
            &self.reason_string,
        );
        let nbytes = 1 + props_nbytes;
        proof {
            assert(self@.body() == enc_u8(self@.reason_code.as_byte()) + enc_disconnect_props(
                self@.props(),
            ));
            assert(nbytes == self@.body().len());
            lemma_enc_vbi_len(nbytes as u32);
        }
        let rl_size = vbi_size(nbytes as u32);
        let total = 1 + rl_size + nbytes;
        if buffer.len() - index < total {
            return Err(CodecError::InsufficientBytes);
        }
        write_u8(buffer, index, 0xE0);
        proof {
            lemma_spliced_concat(old(buffer)@, index as int, seq![0xE0u8], enc_vbi(nbytes as u32));
        }
        write_vbi(buffer, index + 1, nbytes as u32);
        proof {
            lemma_spliced_concat(
                old(buffer)@,
                index as int,
                seq![0xE0u8] + enc_vbi(nbytes as u32),
                enc_u8(self@.reason_code.as_byte()),
            );
        }
        let rc = self.reason_code.value();
        write_u8(buffer, index + 1 + rl_size, rc);
        proof {
            lemma_spliced_concat(
                old(buffer)@,
                index as int,
                seq![0xE0u8] + enc_vbi(nbytes as u32) + enc_u8(self@.reason_code.as_byte()),
                enc_disconnect_props(self@.props()),
            );
        }
        write_disconnect_props(
            buffer,
            index + 1 + rl_size + 1,
            &self.session_expiry_interval,
            &self.server_reference,
            &self.reason_string,
        );
        proof {
            assert(seq![0xE0u8] + enc_vbi(nbytes as u32) + enc_u8(self@.reason_code.as_byte())
                + enc_disconnect_props(self@.props()) =~= self@.bytes());
        }
        Ok(total)
    }
}

/// The property fields as one accumulator value.
pub open spec fn disconnect_props_of(
    session_expiry_interval: Option<u32>,
    server_reference: Option<Seq<u8>>,
    reason_string: Option<Seq<u8>>,
) -> DisconnectProps {
    DisconnectProps { session_expiry_interval, server_reference, reason_string }
}

/// Number of bytes of the encoded Disconnect property region.
pub fn disconnect_props_size(
    session_expiry_interval: &Option<u32>,
    server_reference: &Option<Vec<u8>>,
    reason_string: &Option<Vec<u8>>,
) -> (n: usize)
    requires
        wf_opt_str(view_opt_bytes(*server_reference)),
        wf_opt_str(view_opt_bytes(*reason_string)),
    ensures
        n == enc_disconnect_props(
            disconnect_props_of(
                *session_expiry_interval,
                view_opt_bytes(*server_reference),
                view_opt_bytes(*reason_string),
            ),
        ).len(),
        n <= 11 + 2 * 0xFFFF + 6,
{
    let ghost p = disconnect_props_of(
        *session_expiry_interval,
        view_opt_bytes(*server_reference),
        view_opt_bytes(*reason_string),
    );
    let mut items_len: usize = 0;
    if session_expiry_interval.is_some() {
        items_len = items_len + 5;
    }
    if let Some(v) = server_reference {
        items_len = items_len + 3 + v.len();
    }
    if let Some(v) = reason_string {
        items_len = items_len + 3 + v.len();
    }
    proof {
        assert(items_len == enc_disconnect_prop_items(p).len());
        lemma_enc_vbi_len(items_len as u32);
    }
    vbi_size(items_len as u32) + items_len
}

/// Writes a Disconnect property region.
#[verifier::spinoff_prover]
#[verifier::rlimit(100)]
pub fn write_disconnect_props(
    buf: &mut Vec<u8>,
    pos: usize,
    session_expiry_interval: &Option<u32>,
    server_reference: &Option<Vec<u8>>,
    reason_string: &Option<Vec<u8>>,
) -> (n: usize)
    requires
        wf_opt_str(view_opt_bytes(*server_reference)),
        wf_opt_str(view_opt_bytes(*reason_string)),
        pos + enc_disconnect_props(
            disconnect_props_of(
                *session_expiry_interval,
                view_opt_bytes(*server_reference),
                view_opt_bytes(*reason_string),
            ),
        ).len() <= old(buf)@.len(),
    ensures
        final(buf)@ == spliced(
            old(buf)@,
            pos as int,
            enc_disconnect_props(
                disconnect_props_of(
                    *session_expiry_interval,
                    view_opt_bytes(*server_reference),
                    view_opt_bytes(*reason_string),
                ),
            ),
        ),
        final(buf)@.len() == old(buf)@.len(),
        n == enc_disconnect_props(
            disconnect_props_of(
                *session_expiry_interval,
                view_opt_bytes(*server_reference),
                view_opt_bytes(*reason_string),
            ),
        ).len(),
{
    let ghost p = disconnect_props_of(
        *session_expiry_interval,
        view_opt_bytes(*server_reference),
        view_opt_bytes(*reason_string),
    );
    // Binding the length teaches the prover that positions fit in usize.
    let buf_len: usize = buf.len();
    let mut items_len: usize = 0;
    if session_expiry_interval.is_some() {
        items_len = items_len + 5;
    }
    if let Some(v) = server_reference {
        items_len = items_len + 3 + v.len();
    }
    if let Some(v) = reason_string {
        items_len = items_len + 3 + v.len();
    }
    proof {
        assert(items_len == enc_disconnect_prop_items(p).len());
        lemma_enc_vbi_len(items_len as u32);
    }
    let mut w = write_vbi(buf, pos, items_len as u32);
    let ghost done = enc_vbi(items_len as u32);
    if let Some(v) = *session_expiry_interval {
        proof {
            lemma_spliced_concat(old(buf)@, pos as int, done, seq![PROP_SESSION_EXPIRY_INTERVAL]);
        }
        write_u8(buf, pos + w, PROP_SESSION_EXPIRY_INTERVAL);
        proof {
            lemma_spliced_concat(
                old(buf)@,
                pos as int,
                done + seq![PROP_SESSION_EXPIRY_INTERVAL],
                crate::codec::enc_u32(v),
            );
        }
        write_u32(buf, pos + w + 1, v);
        w = w + 5;
    }
    let ghost done = done + enc_opt_u32(PROP_SESSION_EXPIRY_INTERVAL, p.session_expiry_interval);
    proof {
        assert(buf@ == spliced(old(buf)@, pos as int, done));
    }
    if let Some(v) = server_reference {
        proof {
            lemma_spliced_concat(old(buf)@, pos as int, done, seq![PROP_SERVER_REFERENCE]);
        }
        write_u8(buf, pos + w, PROP_SERVER_REFERENCE);
        proof {
            lemma_spliced_concat(
                old(buf)@,
                pos as int,
                done + seq![PROP_SERVER_REFERENCE],
                crate::codec::enc_data(v@),
            );
        }
        write_data(buf, pos + w + 1, v.as_slice());
        w = w + 3 + v.len();
    }
    let ghost done = done + enc_opt_data(PROP_SERVER_REFERENCE, p.server_reference);
    proof {
        assert(buf@ == spliced(old(buf)@, pos as int, done));
    }
    if let Some(v) = reason_string {
        proof {
            lemma_spliced_concat(old(buf)@, pos as int, done, seq![PROP_REASON_STRING]);
        }
        write_u8(buf, pos + w, PROP_REASON_STRING);
        proof {
            lemma_spliced_concat(
                old(buf)@,
                pos as int,
                done + seq![PROP_REASON_STRING],
                crate::codec::enc_data(v@),
            );
        }
        write_data(buf, pos + w + 1, v.as_slice());
        w = w + 3 + v.len();
    }
    let ghost done = done + enc_opt_data(PROP_REASON_STRING, p.reason_string);
    proof {
        assert(buf@ == spliced(old(buf)@, pos as int, done));
        assert(done =~= enc_disconnect_props(p));
    }
    w
}

/// Parsing an encoded Disconnect body yields the packet back.
pub proof fn lemma_parse_enc_disconnect(s: Seq<u8>, i: int, v: DisconnectView)
    requires
        v.wf(),
        0 <= i,
        i + v.body().len() <= s.len(),
        s.subrange(i, i + v.body().len()) == v.body(),
    ensures
        parse_disconnect(s, i, 0x00, v.body().len() as u32) == (Parsed::Found {
            val: v,
            next: i + v.body().len(),
        }),
{
    if v.is_default() {
        assert(parse_disconnect(s, i, 0x00, 0) == (Parsed::Found {
            val: (DisconnectView {
                reason_code: DisconnectReasonCode::NormalDisconnection,
                session_expiry_interval: None,
                server_reference: None,
                reason_string: None,
            }),
            next: i,
        }));
        assert((DisconnectView {
            reason_code: DisconnectReasonCode::NormalDisconnection,
            session_expiry_interval: None,
            server_reference: None,
            reason_string: None,
        }) =~= v);
    } else {
        let a = enc_u8(v.reason_code.as_byte());
        let c = enc_disconnect_props(v.props());
        lemma_enc_vbi_len(enc_disconnect_prop_items(v.props()).len() as u32);
        lemma_subrange_split(s, i, a, c);
        assert(s.subrange(i, i + 1)[0] == s[i]);
        assert(s[i] == v.reason_code.as_byte());
        v.reason_code.lemma_round();
        lemma_parse_enc_disconnect_props(s, i + 1, v.props());
    }
}

} // verus!
