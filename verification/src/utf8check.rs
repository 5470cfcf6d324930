//! An executable UTF-8 validator, verified against vstd's `valid_utf8`: a
//! byte sequence is accepted exactly when it is a well-formed UTF-8
//! encoding, with overlong encodings, surrogates and out-of-range
//! codepoints rejected.

use vstd::prelude::*;
use vstd::utf8::{
    partial_valid_partial_invalid_utf8, partial_valid_utf8, partial_valid_utf8_extend,
    valid_first_scalar, valid_utf8,
};

verus! {

/// The two-byte encodings: the checked ranges admit exactly the
/// non-overlong codepoints.
proof fn lemma_scalar_checks_w2(b0: u8, b1: u8)
    requires
        0xC0 <= b0 <= 0xDF,
        0x80 <= b1 <= 0xBF,
    ensures
        vstd::utf8::codepoint_width_2(b0, b1) >= 0x80 <==> b0 >= 0xC2,
        vstd::utf8::codepoint_width_2(b0, b1) <= 0x7FF,
{
    assert((((b0 & 0x1F) as u32) << 6) | ((b1 & 0x3F) as u32) >= 0x80 <==> b0 >= 0xC2)
        by (bit_vector)
        requires
            0xC0 <= b0 <= 0xDF,
            0x80 <= b1 <= 0xBF,
    ;
    assert((((b0 & 0x1F) as u32) << 6) | ((b1 & 0x3F) as u32) <= 0x7FF) by (bit_vector);
}

/// The three-byte encodings: the checked ranges admit exactly the
/// non-overlong, non-surrogate codepoints.
proof fn lemma_scalar_checks_w3(b0: u8, b1: u8, b2: u8)
    requires
        0xE0 <= b0 <= 0xEF,
        0x80 <= b1 <= 0xBF,
        0x80 <= b2 <= 0xBF,
    ensures
        vstd::utf8::codepoint_width_3(b0, b1, b2) >= 0x800 <==> !(b0 == 0xE0 && b1 <= 0x9F),
        (0xD800 <= vstd::utf8::codepoint_width_3(b0, b1, b2) <= 0xDFFF) <==> (b0 == 0xED && b1
            >= 0xA0),
{
    assert(((((b0 & 0x0F) as u32) << 12) | (((b1 & 0x3F) as u32) << 6) | ((b2 & 0x3F) as u32))
        >= 0x800 <==> !(b0 == 0xE0 && b1 <= 0x9F)) by (bit_vector)
        requires
            0xE0 <= b0 <= 0xEF,
            0x80 <= b1 <= 0xBF,
            0x80 <= b2 <= 0xBF,
    ;
    assert((0xD800 <= ((((b0 & 0x0F) as u32) << 12) | (((b1 & 0x3F) as u32) << 6) | ((b2
        & 0x3F) as u32)) <= 0xDFFF) <==> (b0 == 0xED && b1 >= 0xA0)) by (bit_vector)
        requires
            0xE0 <= b0 <= 0xEF,
            0x80 <= b1 <= 0xBF,
            0x80 <= b2 <= 0xBF,
    ;
}

/// The four-byte encodings: the checked ranges admit exactly the
/// non-overlong codepoints up to the Unicode maximum, all above the
/// surrogate range.
proof fn lemma_scalar_checks_w4(b0: u8, b1: u8, b2: u8, b3: u8)
    requires
        0xF0 <= b0 <= 0xF7,
        0x80 <= b1 <= 0xBF,
        0x80 <= b2 <= 0xBF,
        0x80 <= b3 <= 0xBF,
    ensures
        vstd::utf8::codepoint_width_4(b0, b1, b2, b3) >= 0x10000 <==> !(b0 == 0xF0 && b1 <= 0x8F),
        vstd::utf8::codepoint_width_4(b0, b1, b2, b3) <= 0x10FFFF <==> (b0 <= 0xF3 || (b0 == 0xF4
            && b1 <= 0x8F)),
        vstd::utf8::codepoint_width_4(b0, b1, b2, b3) >= 0x10000
            ==> vstd::utf8::codepoint_width_4(b0, b1, b2, b3) > 0xDFFF,
{
    assert(((((b0 & 0x07) as u32) << 18) | (((b1 & 0x3F) as u32) << 12) | (((b2
        & 0x3F) as u32) << 6) | ((b3 & 0x3F) as u32)) >= 0x10000 <==> !(b0 == 0xF0 && b1 <= 0x8F))
        by (bit_vector)
        requires
            0xF0 <= b0 <= 0xF7,
            0x80 <= b1 <= 0xBF,
            0x80 <= b2 <= 0xBF,
            0x80 <= b3 <= 0xBF,
    ;
    assert(((((b0 & 0x07) as u32) << 18) | (((b1 & 0x3F) as u32) << 12) | (((b2
        & 0x3F) as u32) << 6) | ((b3 & 0x3F) as u32)) <= 0x10FFFF <==> (b0 <= 0xF3 || (b0 == 0xF4
        && b1 <= 0x8F))) by (bit_vector)
        requires
            0xF0 <= b0 <= 0xF7,
            0x80 <= b1 <= 0xBF,
            0x80 <= b2 <= 0xBF,
            0x80 <= b3 <= 0xBF,
    ;
}

/// Checks one scalar encoding starting at `i`.  Decides whether the suffix
/// of the data beginning at `i` starts with a well-formed scalar, and hands
/// back the width of that scalar.
#[verifier::spinoff_prover]
#[verifier::rlimit(100)]
fn check_first_scalar(data: &[u8], i: usize) -> (r: Option<usize>)
    requires
        i < data@.len(),
    ensures
        (match r {
            Some(w) => valid_first_scalar(data@.subrange(i as int, data@.len() as int)) && 1 <= w
                <= 4 && i + w <= data@.len() && vstd::utf8::length_of_first_scalar(
                data@.subrange(i as int, data@.len() as int),
            ) == w,
            None => !valid_first_scalar(data@.subrange(i as int, data@.len() as int)),
        }),
{
    let ghost suffix = data@.subrange(i as int, data@.len() as int);
    let n = data.len();
    let b0 = *vstd::slice::slice_index_get(data, i);
    proof {
        assert(suffix[0] == b0);
        assert(suffix.len() == n - i);
    }
    if b0 < 0x80 {
        return Some(1);
    }
    if b0 < 0xC0 {
        return None;
    }
    if b0 < 0xE0 {
        if n - i < 2 {
            return None;
        }
        let b1 = *vstd::slice::slice_index_get(data, i + 1);
        proof {
            assert(suffix[1] == b1);
        }
        if !(0x80 <= b1 && b1 <= 0xBF) {
            return None;
        }
        proof {
            lemma_scalar_checks_w2(b0, b1);
        }
        if b0 < 0xC2 {
            return None;
        }
        return Some(2);
    }
    if b0 < 0xF0 {
        if n - i < 3 {
            return None;
        }
        let b1 = *vstd::slice::slice_index_get(data, i + 1);
        let b2 = *vstd::slice::slice_index_get(data, i + 2);
        proof {
            assert(suffix[1] == b1);
            assert(suffix[2] == b2);
        }
        if !(0x80 <= b1 && b1 <= 0xBF) || !(0x80 <= b2 && b2 <= 0xBF) {
            return None;
        }
        proof {
            lemma_scalar_checks_w3(b0, b1, b2);
        }
        if b0 == 0xE0 && b1 <= 0x9F {
            return None;
        }
        if b0 == 0xED && b1 >= 0xA0 {
            return None;
        }
        return Some(3);
    }
    if b0 < 0xF8 {
        if n - i < 4 {
            return None;
        }
        let b1 = *vstd::slice::slice_index_get(data, i + 1);
        let b2 = *vstd::slice::slice_index_get(data, i + 2);
        let b3 = *vstd::slice::slice_index_get(data, i + 3);
        proof {
            assert(suffix[1] == b1);
            assert(suffix[2] == b2);
            assert(suffix[3] == b3);
        }
        if !(0x80 <= b1 && b1 <= 0xBF) || !(0x80 <= b2 && b2 <= 0xBF) || !(0x80 <= b3 && b3
            <= 0xBF) {
            return None;
        }
        proof {
            lemma_scalar_checks_w4(b0, b1, b2, b3);
        }
        if b0 == 0xF0 && b1 <= 0x8F {
            return None;
        }
        if !(b0 <= 0xF3 || (b0 == 0xF4 && b1 <= 0x8F)) {
            return None;
        }
        return Some(4);
    }
    None
}

/// Decides whether the bytes are a well-formed UTF-8 encoding.
#[verifier::spinoff_prover]
#[verifier::rlimit(100)]
pub fn is_utf8(data: &[u8]) -> (r: bool)
    ensures
        r == valid_utf8(data@),
{
    let n = data.len();
    let mut i: usize = 0;
    proof {
        assert(data@.subrange(0, 0) =~= Seq::<u8>::empty());
        assert(data@.subrange(0, n as int) =~= data@);
    }
    while i < n
        invariant
            i <= n,
            n == data@.len(),
            partial_valid_utf8(data@, i as int),
            valid_utf8(data@) == valid_utf8(data@.subrange(i as int, n as int)),
        decreases n - i,
    {
        let ghost suffix = data@.subrange(i as int, n as int);
        match check_first_scalar(data, i) {
            Some(w) => {
                proof {
                    partial_valid_utf8_extend(data@, i as int);
                    assert(vstd::utf8::pop_first_scalar(suffix) =~= data@.subrange(
                        i + w as int,
                        n as int,
                    ));
                    assert(valid_utf8(suffix) == valid_utf8(data@.subrange(i + w as int, n as int)));
                }
                i = i + w;
            },
            None => {
                proof {
                    assert(!valid_utf8(suffix));
                }
                return false;
            },
        }
    }
    proof {
        assert(data@.subrange(0, n as int) =~= data@);
        assert(data@.subrange(n as int, n as int) =~= Seq::<u8>::empty());
    }
    true
}

} // verus!
