//! The Auth packet: a reason code and a property set carrying the
//! authentication method, the authentication data and a reason string.  A
//! remaining length of zero means success with no properties.

use crate::codec::{
    enc_u8, enc_vbi, lemma_enc_vbi_len, lemma_parse_enc_data, lemma_parse_enc_str,
    lemma_parse_enc_vbi, lemma_spliced_concat, lemma_subrange_split, parse_data, parse_str,
    parse_u8, parse_vbi, read_data, read_str, read_u8, read_vbi, rem, spliced, vbi_size,
    view_opt_bytes, wf_opt_data, wf_opt_str, write_data, write_u8, write_vbi, CodecError, Parsed,
};
use crate::props::{
    enc_opt_data, write_prop_data, PROP_AUTHENTICATION_DATA, PROP_AUTHENTICATION_METHOD,
    PROP_REASON_STRING,
};
use crate::reason_codes::AuthReasonCode;
use vstd::prelude::*;

verus! {

/// An exchange of an enhanced-authentication step.
#[derive(Clone, Debug, PartialEq, Eq)]
pub struct AuthPacket {
    pub reason_code: AuthReasonCode,
    pub authentication_method: Option<Vec<u8>>,
    pub authentication_data: Option<Vec<u8>>,
    pub reason_string: Option<Vec<u8>>,
}

/// The mathematical value of an Auth packet.
#[verifier::ext_equal]
pub ghost struct AuthView {
    pub reason_code: AuthReasonCode,
    pub authentication_method: Option<Seq<u8>>,
    pub authentication_data: Option<Seq<u8>>,
    pub reason_string: Option<Seq<u8>>,
}

impl View for AuthPacket {
    type V = AuthView;

    open spec fn view(&self) -> AuthView {
        AuthView {
            reason_code: self.reason_code,
            authentication_method: view_opt_bytes(self.authentication_method),
            authentication_data: view_opt_bytes(self.authentication_data),
            reason_string: view_opt_bytes(self.reason_string),
        }
    }
}

/// The property fields of an Auth packet, while being accumulated.
#[verifier::ext_equal]
pub ghost struct AuthProps {
    pub authentication_method: Option<Seq<u8>>,
    pub authentication_data: Option<Seq<u8>>,
    pub reason_string: Option<Seq<u8>>,
}

/// The property loop of an Auth packet.
pub open spec fn parse_auth_prop_items(s: Seq<u8>, i: int, end: int, acc: AuthProps) -> Parsed<
    AuthProps,
>
    decreases rem(i, end),
{
    if i >= end {
        Parsed::Found { val: acc, next: i }
    } else {
        match parse_u8(s, i) {
            Parsed::Found { val: id, next: j } => {
                if id == PROP_AUTHENTICATION_METHOD {
                    match parse_str(s, j) {
                        Parsed::Found { val: v, next: k } => {
                            if acc.authentication_method is Some {
                                Parsed::Malformed
                            } else {
                                parse_auth_prop_items(
                                    s,
                                    k,
                                    end,
                                    AuthProps { authentication_method: Some(v), ..acc },
                                )
                            }
                        },
                        Parsed::Incomplete => Parsed::Incomplete,
                        Parsed::Malformed => Parsed::Malformed,
                    }
                } else if id == PROP_AUTHENTICATION_DATA {
                    match parse_data(s, j) {
                        Parsed::Found { val: v, next: k } => {
                            if acc.authentication_data is Some {
                                Parsed::Malformed
                            } else {
                                parse_auth_prop_items(
                                    s,
                                    k,
                                    end,
                                    AuthProps { authentication_data: Some(v), ..acc },
                                )
                            }
                        },
                        Parsed::Incomplete => Parsed::Incomplete,
                        Parsed::Malformed => Parsed::Malformed,
                    }
                } else if id == PROP_REASON_STRING {
                    match parse_str(s, j) {
                        Parsed::Found { val: v, next: k } => {
                            if acc.reason_string is Some {
                                Parsed::Malformed
                            } else {
                                parse_auth_prop_items(
                                    s,
                                    k,
                                    end,
                                    AuthProps { reason_string: Some(v), ..acc },
                                )
                            }
                        },
                        Parsed::Incomplete => Parsed::Incomplete,
                        Parsed::Malformed => Parsed::Malformed,
                    }
                } else {
                    Parsed::Malformed
                }
            },
            _ => Parsed::Incomplete,
        }
    }
}

/// The property region of an Auth packet.
pub open spec fn parse_auth_props(s: Seq<u8>, i: int) -> Parsed<AuthProps> {
    match parse_vbi(s, i) {
        Parsed::Found { val: len, next: j } => parse_auth_prop_items(
            s,
            j,
            j + len,
            AuthProps { authentication_method: None, authentication_data: None, reason_string: None },
        ),
        Parsed::Incomplete => Parsed::Incomplete,
        Parsed::Malformed => Parsed::Malformed,
    }
}

pub open spec fn enc_auth_prop_items(p: AuthProps) -> Seq<u8> {
    enc_opt_data(PROP_AUTHENTICATION_METHOD, p.authentication_method) + enc_opt_data(
        PROP_AUTHENTICATION_DATA,
        p.authentication_data,
    ) + enc_opt_data(PROP_REASON_STRING, p.reason_string)
}

pub open spec fn enc_auth_props(p: AuthProps) -> Seq<u8> {
    enc_vbi(enc_auth_prop_items(p).len() as u32) + enc_auth_prop_items(p)
}

pub open spec fn wf_auth_props(p: AuthProps) -> bool {
    wf_opt_str(p.authentication_method) && wf_opt_data(p.authentication_data) && wf_opt_str(
        p.reason_string,
    )
}

/// One property-loop step over an encoded authentication-method property.
proof fn lemma_auth_step_method(s: Seq<u8>, i: int, end: int, acc: AuthProps, v: Seq<u8>)
    requires
        crate::codec::wf_str(v),
        0 <= i,
        i + 3 + v.len() <= s.len(),
        s.subrange(i, i + 3 + v.len()) == seq![PROP_AUTHENTICATION_METHOD]
            + crate::codec::enc_data(v),
        i < end,
        acc.authentication_method is None,
    ensures
        parse_auth_prop_items(s, i, end, acc) == parse_auth_prop_items(
            s,
            i + 3 + v.len(),
            end,
            (AuthProps { authentication_method: Some(v), ..acc }),
        ),
{
    lemma_subrange_split(s, i, seq![PROP_AUTHENTICATION_METHOD], crate::codec::enc_data(v));
    assert(s.subrange(i, i + 1)[0] == s[i]);
    lemma_parse_enc_str(s, i + 1, v);
}

/// One property-loop step over an encoded authentication-data property.
proof fn lemma_auth_step_data(s: Seq<u8>, i: int, end: int, acc: AuthProps, v: Seq<u8>)
    requires
        crate::codec::wf_data(v),
        0 <= i,
        i + 3 + v.len() <= s.len(),
        s.subrange(i, i + 3 + v.len()) == seq![PROP_AUTHENTICATION_DATA]
            + crate::codec::enc_data(v),
        i < end,
        acc.authentication_data is None,
    ensures
        parse_auth_prop_items(s, i, end, acc) == parse_auth_prop_items(
            s,
            i + 3 + v.len(),
            end,
            (AuthProps { authentication_data: Some(v), ..acc }),
        ),
{
    lemma_subrange_split(s, i, seq![PROP_AUTHENTICATION_DATA], crate::codec::enc_data(v));
    assert(s.subrange(i, i + 1)[0] == s[i]);
    lemma_parse_enc_data(s, i + 1, v);
}

/// One property-loop step over an encoded reason-string property.
proof fn lemma_auth_step_reason_string(s: Seq<u8>, i: int, end: int, acc: AuthProps, v: Seq<u8>)
    requires
        crate::codec::wf_str(v),
        0 <= i,
        i + 3 + v.len() <= s.len(),
        s.subrange(i, i + 3 + v.len()) == seq![PROP_REASON_STRING] + crate::codec::enc_data(v),
        i < end,
        acc.reason_string is None,
    ensures
        parse_auth_prop_items(s, i, end, acc) == parse_auth_prop_items(
            s,
            i + 3 + v.len(),
            end,
            (AuthProps { reason_string: Some(v), ..acc }),
        ),
{
    lemma_subrange_split(s, i, seq![PROP_REASON_STRING], crate::codec::enc_data(v));
    assert(s.subrange(i, i + 1)[0] == s[i]);
    lemma_parse_enc_str(s, i + 1, v);
}

/// Parsing an encoded Auth property region yields the fields back.
#[verifier::rlimit(100)]
pub proof fn lemma_parse_enc_auth_props(s: Seq<u8>, i: int, p: AuthProps)
    requires
        wf_auth_props(p),
        0 <= i,
        i + enc_auth_props(p).len() <= s.len(),
        s.subrange(i, i + enc_auth_props(p).len()) == enc_auth_props(p),
    ensures
        parse_auth_props(s, i) == (Parsed::Found { val: p, next: i + enc_auth_props(p).len() }),
{
    let f1 = enc_opt_data(PROP_AUTHENTICATION_METHOD, p.authentication_method);
    let f2 = enc_opt_data(PROP_AUTHENTICATION_DATA, p.authentication_data);
    let f3 = enc_opt_data(PROP_REASON_STRING, p.reason_string);
    let items = enc_auth_prop_items(p);
    let lenb = enc_vbi(items.len() as u32);
    lemma_enc_vbi_len(items.len() as u32);
    lemma_subrange_split(s, i, lenb, items);
    lemma_parse_enc_vbi(s, i, items.len() as u32);
    let j0 = i + lenb.len();
    let end = j0 + items.len();
    assert(items =~= f1 + (f2 + f3));
    lemma_subrange_split(s, j0, f1, f2 + f3);
    let j1 = j0 + f1.len();
    lemma_subrange_split(s, j1, f2, f3);
    let j2 = j1 + f2.len();
    let j3 = j2 + f3.len();
    let acc0 = AuthProps {
        authentication_method: None,
        authentication_data: None,
        reason_string: None,
    };
    let acc1 = AuthProps { authentication_method: p.authentication_method, ..acc0 };
    let acc2 = AuthProps { authentication_data: p.authentication_data, ..acc1 };
    if p.authentication_method is Some {
        lemma_auth_step_method(s, j0, end, acc0, p.authentication_method.unwrap());
    }
    assert(parse_auth_prop_items(s, j0, end, acc0) == parse_auth_prop_items(s, j1, end, acc1));
    if p.authentication_data is Some {
        lemma_auth_step_data(s, j1, end, acc1, p.authentication_data.unwrap());
    }
    assert(parse_auth_prop_items(s, j1, end, acc1) == parse_auth_prop_items(s, j2, end, acc2));
    if p.reason_string is Some {
        lemma_auth_step_reason_string(s, j2, end, acc2, p.reason_string.unwrap());
    }
    assert(parse_auth_prop_items(s, j2, end, acc2) == parse_auth_prop_items(s, j3, end, p));
    assert(parse_auth_prop_items(s, j3, end, p) == (Parsed::Found { val: p, next: end }));
}

/// Reads an Auth property region.
pub fn read_auth_props(s: &[u8], pos: usize) -> (r: Result<
    ((Option<Vec<u8>>, Option<Vec<u8>>, Option<Vec<u8>>), usize),
    CodecError,
>)
    requires
        pos <= s@.len(),
    ensures
        (match parse_auth_props(s@, pos as int) {
            Parsed::Found { val, next } => r matches Ok(x) && view_opt_bytes(x.0.0)
                == val.authentication_method && view_opt_bytes(x.0.1) == val.authentication_data
                && view_opt_bytes(x.0.2) == val.reason_string && x.1 == next && pos < next
                <= s@.len() && next <= usize::MAX,
            Parsed::Incomplete => r == Err::<
                ((Option<Vec<u8>>, Option<Vec<u8>>, Option<Vec<u8>>), usize),
                CodecError,
            >(CodecError::InsufficientBytes),
            Parsed::Malformed => r == Err::<
                ((Option<Vec<u8>>, Option<Vec<u8>>, Option<Vec<u8>>), usize),
                CodecError,
            >(CodecError::MalformedBytes),
        }),
{
    let (plen, p0) = read_vbi(s, pos)?;
    let ghost end = p0 as int + plen as int;
    let mut authentication_method: Option<Vec<u8>> = None;
    let mut authentication_data: Option<Vec<u8>> = None;
    let mut reason_string: Option<Vec<u8>> = None;
    let mut cur: usize = p0;
    while cur - p0 < plen as usize
        invariant
            pos < p0 <= cur <= s@.len(),
            end == p0 as int + plen as int,
            parse_auth_props(s@, pos as int) == parse_auth_prop_items(
                s@,
                cur as int,
                end,
                AuthProps {
                    authentication_method: view_opt_bytes(authentication_method),
                    authentication_data: view_opt_bytes(authentication_data),
                    reason_string: view_opt_bytes(reason_string),
                },
            ),
        decreases rem(cur as int, end),
    {
        let (id, p1) = read_u8(s, cur)?;
        if id == PROP_AUTHENTICATION_METHOD {
            let (v, p2) = read_str(s, p1)?;
            if authentication_method.is_some() {
                return Err(CodecError::MalformedBytes);
            }
            authentication_method = Some(v);
            cur = p2;
        } else if id == PROP_AUTHENTICATION_DATA {
            let (v, p2) = read_data(s, p1)?;
            if authentication_data.is_some() {
                return Err(CodecError::MalformedBytes);
            }
            authentication_data = Some(v);
            cur = p2;
        } else if id == PROP_REASON_STRING {
            let (v, p2) = read_str(s, p1)?;
            if reason_string.is_some() {
                return Err(CodecError::MalformedBytes);
            }
            reason_string = Some(v);
            cur = p2;
        } else {
            return Err(CodecError::MalformedBytes);
        }
    }
    Ok(((authentication_method, authentication_data, reason_string), cur))
}

/// The declared remaining length gates the reason code (at least one byte)
/// and the properties (more than one byte).
pub open spec fn parse_auth(s: Seq<u8>, i: int, flags: u8, rl: u32) -> Parsed<AuthView> {
    if flags != 0x00 {
        Parsed::Malformed
    } else if rl == 0 {
        Parsed::Found {
            val: AuthView {
                reason_code: AuthReasonCode::Success,
                authentication_method: None,
                authentication_data: None,
                reason_string: None,
            },
            next: i,
        }
    } else {
        match parse_u8(s, i) {
            Parsed::Found { val: b, next: j } => {
                match AuthReasonCode::spec_from(b) {
                    Some(reason_code) => {
                        if rl <= 1 {
                            Parsed::Found {
                                val: AuthView {
                                    reason_code,
                                    authentication_method: None,
                                    authentication_data: None,
                                    reason_string: None,
                                },
                                next: j,
                            }
                        } else {
                            match parse_auth_props(s, j) {
                                Parsed::Found { val: p, next: m } => Parsed::Found {
                                    val: AuthView {
                                        reason_code,
                                        authentication_method: p.authentication_method,
                                        authentication_data: p.authentication_data,
                                        reason_string: p.reason_string,
                                    },
                                    next: m,
                                },
                                Parsed::Incomplete => Parsed::Incomplete,
                                Parsed::Malformed => Parsed::Malformed,
                            }
                        }
                    },
                    None => Parsed::Malformed,
                }
            },
            _ => Parsed::Incomplete,
        }
    }
}

impl AuthView {
    pub open spec fn wf(self) -> bool {
        wf_auth_props(self.props())
    }

    pub open spec fn props(self) -> AuthProps {
        AuthProps {
            authentication_method: self.authentication_method,
            authentication_data: self.authentication_data,
            reason_string: self.reason_string,
        }
    }

    /// A successful exchange with no properties: the packet the minimal
    /// zero-length form decodes to.
    pub open spec fn is_default(self) -> bool {
        &&& self.reason_code == AuthReasonCode::Success
        &&& self.authentication_method is None
        &&& self.authentication_data is None
        &&& self.reason_string is None
    }

    /// Everything after the fixed header; a packet at its defaults takes the
    /// minimal form, with the reason code and property region omitted.
    pub open spec fn body(self) -> Seq<u8> {
        if self.is_default() {
            Seq::empty()
        } else {
            enc_u8(self.reason_code.as_byte()) + enc_auth_props(self.props())
        }
    }

    /// The complete wire form.
    pub open spec fn bytes(self) -> Seq<u8> {
        seq![0xF0u8] + enc_vbi(self.body().len() as u32) + self.body()
    }
}

impl AuthPacket {
    pub fn new(
        reason_code: AuthReasonCode,
        authentication_method: Option<Vec<u8>>,
        authentication_data: Option<Vec<u8>>,
        reason_string: Option<Vec<u8>>,
    ) -> (r: AuthPacket)
        ensures
            r@ == (AuthView {
                reason_code,
                authentication_method: view_opt_bytes(authentication_method),
                authentication_data: view_opt_bytes(authentication_data),
                reason_string: view_opt_bytes(reason_string),
            }),
    {
        AuthPacket { reason_code, authentication_method, authentication_data, reason_string }
    }

    /// Reads the variable header, the cursor standing after the fixed
    /// header.
    pub fn read(s: &[u8], pos: usize, flags: u8, remaining_length: u32) -> (r: Result<
        (AuthPacket, usize),
        CodecError,
    >)
        requires
            pos <= s@.len(),
        ensures
            (match parse_auth(s@, pos as int, flags, remaining_length) {
                Parsed::Found { val, next } => r matches Ok(x) && x.0@ == val && x.1 == next
                    && pos <= next <= s@.len() && next <= usize::MAX,
                Parsed::Incomplete => r == Err::<(AuthPacket, usize), CodecError>(
                    CodecError::InsufficientBytes,
                ),
                Parsed::Malformed => r == Err::<(AuthPacket, usize), CodecError>(
                    CodecError::MalformedBytes,
                ),
            }),
    {
        if flags != 0x00 {
            return Err(CodecError::MalformedBytes);
        }
        if remaining_length == 0 {
            return Ok(
                (
                    AuthPacket {
                        reason_code: AuthReasonCode::Success,
                        authentication_method: None,
                        authentication_data: None,
                        reason_string: None,
                    },
                    pos,
                ),
            );
        }
        let (b, p1) = read_u8(s, pos)?;
        let reason_code = AuthReasonCode::new(b)?;
        if remaining_length <= 1 {
            return Ok(
                (
                    AuthPacket {
                        reason_code,
                        authentication_method: None,
                        authentication_data: None,
                        reason_string: None,
                    },
                    p1,
                ),
            );
        }
        let ((authentication_method, authentication_data, reason_string), p2) = read_auth_props(
            s,
            p1,
        )?;
        Ok(
            (
                AuthPacket {
                    reason_code,
                    authentication_method,
                    authentication_data,
                    reason_string,
                },
                p2,
            ),
        )
    }

    /// Serializes the packet into `buffer` at `index`; fails, touching
    /// nothing, exactly when the buffer is too short.
    #[verifier::spinoff_prover]
    #[verifier::rlimit(100)]
    pub fn write(&self, buffer: &mut Vec<u8>, index: usize) -> (r: Result<usize, CodecError>)
        requires
            self@.wf(),
            index <= old(buffer)@.len(),
        ensures
            (match r {
                Ok(n) => n == self@.bytes().len() && old(buffer)@.len() >= index
                    + self@.bytes().len() && final(buffer)@ == spliced(
                    old(buffer)@,
                    index as int,
                    self@.bytes(),
                ) && final(buffer)@.len() == old(buffer)@.len(),
                Err(e) => e == CodecError::InsufficientBytes && final(buffer)@ == old(buffer)@
                    && old(buffer)@.len() < index + self@.bytes().len(),
            }),
    {
        if matches!(self.reason_code, AuthReasonCode::Success)
            && self.authentication_method.is_none() && self.authentication_data.is_none()
            && self.reason_string.is_none() {
            proof {
                assert(self@.body() =~= Seq::<u8>::empty());
            }
            if buffer.len() - index < 2 {
                return Err(CodecError::InsufficientBytes);
            }
            write_u8(buffer, index, 0xF0);
            proof {
                lemma_spliced_concat(old(buffer)@, index as int, seq![0xF0u8], enc_vbi(0));
            }
            write_vbi(buffer, index + 1, 0);
            proof {
                assert(seq![0xF0u8] + enc_vbi(0) =~= self@.bytes());
            }
            return Ok(2);
        }
        let props_nbytes = auth_props_size(
            &self.authentication_method,
            &self.authentication_data,
            &self.reason_string,
        );
        let nbytes = 1 + props_nbytes;
        proof {
            assert(self@.body() == enc_u8(self@.reason_code.as_byte()) + enc_auth_props(
                self@.props(),
            ));
            assert(nbytes == self@.body().len());
            lemma_enc_vbi_len(nbytes as u32);
        }
        let rl_size = vbi_size(nbytes as u32);
        let total = 1 + rl_size + nbytes;
        if buffer.len() - index < total {
            return Err(CodecError::InsufficientBytes);
        }
        write_u8(buffer, index, 0xF0);
        proof {
            lemma_spliced_concat(old(buffer)@, index as int, seq![0xF0u8], enc_vbi(nbytes as u32));
        }
        write_vbi(buffer, index + 1, nbytes as u32);
        proof {
            lemma_spliced_concat(
                old(buffer)@,
                index as int,
                seq![0xF0u8] + enc_vbi(nbytes as u32),
                enc_u8(self@.reason_code.as_byte()),
            );
        }
        let rc = self.reason_code.value();
        write_u8(buffer, index + 1 + rl_size, rc);
        proof {
            lemma_spliced_concat(
                old(buffer)@,
                index as int,
                seq![0xF0u8] + enc_vbi(nbytes as u32) + enc_u8(self@.reason_code.as_byte()),
                enc_auth_props(self@.props()),
            );
        }
        write_auth_props(
            buffer,
            index + 1 + rl_size + 1,
            &self.authentication_method,
            &self.authentication_data,
            &self.reason_string,
        );
        proof {
            assert(seq![0xF0u8] + enc_vbi(nbytes as u32) + enc_u8(self@.reason_code.as_byte())
                + enc_auth_props(self@.props()) =~= self@.bytes());
        }
        Ok(total)
    }
}

/// The property fields as one accumulator value.
pub open spec fn auth_props_of(
    authentication_method: Option<Seq<u8>>,
    authentication_data: Option<Seq<u8>>,
    reason_string: Option<Seq<u8>>,
) -> AuthProps {
    AuthProps { authentication_method, authentication_data, reason_string }
}

/// Number of bytes of the encoded Auth property region.
pub fn auth_props_size(
    authentication_method: &Option<Vec<u8>>,
    authentication_data: &Option<Vec<u8>>,
    reason_string: &Option<Vec<u8>>,
) -> (n: usize)
    requires
        wf_opt_str(view_opt_bytes(*authentication_method)),
        wf_opt_data(view_opt_bytes(*authentication_data)),
        wf_opt_str(view_opt_bytes(*reason_string)),
    ensures
        n == enc_auth_props(
            auth_props_of(
                view_opt_bytes(*authentication_method),
                view_opt_bytes(*authentication_data),
                view_opt_bytes(*reason_string),
            ),
        ).len(),
        n <= 11 + 3 * 0xFFFF + 9,
{
    let ghost p = auth_props_of(
        view_opt_bytes(*authentication_method),
        view_opt_bytes(*authentication_data),
        view_opt_bytes(*reason_string),
    );
    let mut items_len: usize = 0;
    if let Some(v) = authentication_method {
        items_len = items_len + 3 + v.len();
    }
    if let Some(v) = authentication_data {
        items_len = items_len + 3 + v.len();
    }
    if let Some(v) = reason_string {
        items_len = items_len + 3 + v.len();
    }
    proof {
        assert(items_len == enc_auth_prop_items(p).len());
        lemma_enc_vbi_len(items_len as u32);
    }
    vbi_size(items_len as u32) + items_len
}

/// Writes an Auth property region.
#[verifier::spinoff_prover]
#[verifier::rlimit(50)]
pub fn write_auth_props(
    buf: &mut Vec<u8>,
    pos: usize,
    authentication_method: &Option<Vec<u8>>,
    authentication_data: &Option<Vec<u8>>,
    reason_string: &Option<Vec<u8>>,
) -> (n: usize)
    requires
        wf_opt_str(view_opt_bytes(*authentication_method)),
        wf_opt_data(view_opt_bytes(*authentication_data)),
        wf_opt_str(view_opt_bytes(*reason_string)),
        pos + enc_auth_props(
            auth_props_of(
                view_opt_bytes(*authentication_method),
                view_opt_bytes(*authentication_data),
                view_opt_bytes(*reason_string),
            ),
        ).len() <= old(buf)@.len(),
    ensures
        final(buf)@ == spliced(
            old(buf)@,
            pos as int,
            enc_auth_props(
                auth_props_of(
                    view_opt_bytes(*authentication_method),
                    view_opt_bytes(*authentication_data),
                    view_opt_bytes(*reason_string),
                ),
            ),
        ),
        final(buf)@.len() == old(buf)@.len(),
        n == enc_auth_props(
            auth_props_of(
                view_opt_bytes(*authentication_method),
                view_opt_bytes(*authentication_data),
                view_opt_bytes(*reason_string),
            ),
        ).len(),
{
    let ghost p = auth_props_of(
        view_opt_bytes(*authentication_method),
        view_opt_bytes(*authentication_data),
        view_opt_bytes(*reason_string),
    );
    // Binding the length teaches the prover that positions fit in usize.
    let buf_len: usize = buf.len();
    let mut items_len: usize = 0;
    if let Some(v) = authentication_method {
        items_len = items_len + 3 + v.len();
    }
    if let Some(v) = authentication_data {
        items_len = items_len + 3 + v.len();
    }
    if let Some(v) = reason_string {
        items_len = items_len + 3 + v.len();
    }
    proof {
        assert(items_len == enc_auth_prop_items(p).len());
        lemma_enc_vbi_len(items_len as u32);
    }
    let mut w = write_vbi(buf, pos, items_len as u32);
    let ghost done = enc_vbi(items_len as u32);
    if let Some(v) = authentication_method {
        proof {
            lemma_spliced_concat(
                old(buf)@,
                pos as int,
                done,
                seq![PROP_AUTHENTICATION_METHOD] + crate::codec::enc_data(v@),
            );
        }
        write_prop_data(buf, pos + w, PROP_AUTHENTICATION_METHOD, v.as_slice());
        w = w + 3 + v.len();
    }
    let ghost done = done + enc_opt_data(PROP_AUTHENTICATION_METHOD, p.authentication_method);
    proof {
        if p.authentication_method is None {
            assert(done =~= enc_vbi(items_len as u32));
        }
        assert(buf@ == spliced(old(buf)@, pos as int, done));
        assert(w == done.len());
    }
    if let Some(v) = authentication_data {
        proof {
            lemma_spliced_concat(
                old(buf)@,
                pos as int,
                done,
                seq![PROP_AUTHENTICATION_DATA] + crate::codec::enc_data(v@),
            );
        }
        write_prop_data(buf, pos + w, PROP_AUTHENTICATION_DATA, v.as_slice());
        w = w + 3 + v.len();
    }
    let ghost done2 = done + enc_opt_data(PROP_AUTHENTICATION_DATA, p.authentication_data);
    proof {
        if p.authentication_data is None {
            assert(done2 =~= done);
        }
        assert(buf@ == spliced(old(buf)@, pos as int, done2));
        assert(w == done2.len());
    }
    if let Some(v) = reason_string {
        proof {
            lemma_spliced_concat(
                old(buf)@,
                pos as int,
                done2,
                seq![PROP_REASON_STRING] + crate::codec::enc_data(v@),
            );
        }
        write_prop_data(buf, pos + w, PROP_REASON_STRING, v.as_slice());
        w = w + 3 + v.len();
    }
    let ghost done3 = done2 + enc_opt_data(PROP_REASON_STRING, p.reason_string);
    proof {
        if p.reason_string is None {
            assert(done3 =~= done2);
        }
        assert(buf@ == spliced(old(buf)@, pos as int, done3));
        assert(done3 =~= enc_auth_props(p));
    }
    w
}

/// Parsing an encoded Auth body yields the packet back.
pub proof fn lemma_parse_enc_auth(s: Seq<u8>, i: int, v: AuthView)
    requires
        v.wf(),
        0 <= i,
        i + v.body().len() <= s.len(),
        s.subrange(i, i + v.body().len()) == v.body(),
    ensures
        parse_auth(s, i, 0x00, v.body().len() as u32) == (Parsed::Found {
            val: v,
            next: i + v.body().len(),
        }),
{
    if v.is_default() {
        assert(parse_auth(s, i, 0x00, 0) == (Parsed::Found {
            val: (AuthView {
                reason_code: AuthReasonCode::Success,
                authentication_method: None,
                authentication_data: None,
                reason_string: None,
            }),
            next: i,
        }));
        assert((AuthView {
            reason_code: AuthReasonCode::Success,
            authentication_method: None,
            authentication_data: None,
            reason_string: None,
        }) =~= v);
    } else {
        let a = enc_u8(v.reason_code.as_byte());
        let c = enc_auth_props(v.props());
        lemma_enc_vbi_len(enc_auth_prop_items(v.props()).len() as u32);
        lemma_subrange_split(s, i, a, c);
        assert(s.subrange(i, i + 1)[0] == s[i]);
        assert(s[i] == v.reason_code.as_byte());
        v.reason_code.lemma_round();
        lemma_parse_enc_auth_props(s, i + 1, v.props());
    }
}

} // verus!
