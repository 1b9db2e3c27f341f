//! Byte-level text helpers shared by the markdown compilers: HTML-entity
//! escaping, decimal rendering of heading levels, and ASCII trimming.
//!
//! Markdown text is raw on input, so it is entity-escaped on output; markup
//! text parsed from already-valid markup is not (see `element`).

use vstd::prelude::*;

verus! {

broadcast use vstd::std_specs::vec::group_vec_axioms, vstd::seq::group_seq_axioms;

/// The escaped form of one byte.
pub open spec fn enc_byte(b: u8) -> Seq<u8> {
    if b == 38 {
        seq![38u8, 97u8, 109u8, 112u8, 59u8]
    } else if b == 60 {
        seq![38u8, 108u8, 116u8, 59u8]
    } else if b == 62 {
        seq![38u8, 103u8, 116u8, 59u8]
    } else if b == 34 {
        seq![38u8, 113u8, 117u8, 111u8, 116u8, 59u8]
    } else if b == 39 {
        seq![38u8, 97u8, 112u8, 111u8, 115u8, 59u8]
    } else {
        seq![b]
    }
}

/// The HTML-entity-escaped form of a byte string: `&`, `<`, `>`, `"` and `'`
/// become entities, all other bytes pass through.
pub open spec fn html_encoded(s: Seq<u8>) -> Seq<u8>
    decreases s.len(),
{
    if s.len() == 0 {
        Seq::empty()
    } else {
        html_encoded(s.drop_last()) + enc_byte(s.last())
    }
}

/// Append the escaped form of `input` to `out`.
pub fn html_encode(input: &Vec<u8>, out: &mut Vec<u8>)
    ensures
        final(out)@ == old(out)@ + html_encoded(input@),
{
    proof {
        assert(input@.subrange(0, 0) =~= Seq::<u8>::empty());
        assert(out@ =~= old(out)@ + html_encoded(input@.subrange(0, 0)));
    }
    let mut i: usize = 0;
    while i < input.len()
        invariant
            i <= input@.len(),
            out@ == old(out)@ + html_encoded(input@.subrange(0, i as int)),
        decreases input@.len() - i,
    {
        let b = input[i];
        if b == 38 {
            out.push(38);
            out.push(97);
            out.push(109);
            out.push(112);
            out.push(59);
        } else if b == 60 {
            out.push(38);
            out.push(108);
            out.push(116);
            out.push(59);
        } else if b == 62 {
            out.push(38);
            out.push(103);
            out.push(116);
            out.push(59);
        } else if b == 34 {
            out.push(38);
            out.push(113);
            out.push(117);
            out.push(111);
            out.push(116);
            out.push(59);
        } else if b == 39 {
            out.push(38);
            out.push(97);
            out.push(112);
            out.push(111);
            out.push(115);
            out.push(59);
        } else {
            out.push(b);
        }
        proof {
            assert(input@.subrange(0, i + 1 as int).drop_last() =~= input@.subrange(0, i as int));
            assert(input@.subrange(0, i + 1 as int).last() == input@[i as int]);
            assert(out@ =~= old(out)@ + html_encoded(input@.subrange(0, i + 1 as int)));
        }
        i = i + 1;
    }
    proof {
        assert(input@.subrange(0, input@.len() as int) =~= input@);
    }
}

/// The decimal digits of a byte-sized number.
pub open spec fn digits_u8(n: u8) -> Seq<u8> {
    if n < 10 {
        seq![(48 + n) as u8]
    } else if n < 100 {
        seq![(48 + n / 10) as u8, (48 + n % 10) as u8]
    } else {
        seq![(48 + n / 100) as u8, (48 + (n / 10) % 10) as u8, (48 + n % 10) as u8]
    }
}

/// Append the decimal digits of `n` to `out`.
pub fn push_digits_u8(n: u8, out: &mut Vec<u8>)
    ensures
        final(out)@ == old(out)@ + digits_u8(n),
{
    if n < 10 {
        out.push(48 + n);
        proof {
            assert(out@ =~= old(out)@ + digits_u8(n));
        }
    } else if n < 100 {
        out.push(48 + n / 10);
        out.push(48 + n % 10);
        proof {
            assert(out@ =~= old(out)@ + digits_u8(n));
        }
    } else {
        out.push(48 + n / 100);
        out.push(48 + (n / 10) % 10);
        out.push(48 + n % 10);
        proof {
            assert(out@ =~= old(out)@ + digits_u8(n));
        }
    }
}

/// Whether a byte is ASCII whitespace, as `trim_ascii` counts it.
pub open spec fn is_ascii_ws(b: u8) -> bool {
    b == 32 || b == 9 || b == 10 || b == 12 || b == 13
}

/// The first index at or after `i` holding a byte that is not ASCII
/// whitespace.
pub open spec fn ws_start(s: Seq<u8>, i: int) -> int
    decreases s.len() - i,
{
    if i < 0 || i >= s.len() {
        i
    } else if is_ascii_ws(s[i]) {
        ws_start(s, i + 1)
    } else {
        i
    }
}

/// One past the last index before `j` holding a byte that is not ASCII
/// whitespace.
pub open spec fn ws_rend(s: Seq<u8>, j: int) -> int
    decreases j,
{
    if j <= 0 || j > s.len() {
        0
    } else if is_ascii_ws(s[j - 1]) {
        ws_rend(s, j - 1)
    } else {
        j
    }
}

/// The byte string with leading and trailing ASCII whitespace removed.
pub open spec fn trim_of(s: Seq<u8>) -> Seq<u8> {
    if ws_rend(s, s.len() as int) <= ws_start(s, 0) {
        Seq::empty()
    } else {
        s.subrange(ws_start(s, 0), ws_rend(s, s.len() as int))
    }
}

fn ws_start_x(s: &Vec<u8>, i: usize) -> (r: usize)
    requires
        i <= s@.len(),
    ensures
        r as int == ws_start(s@, i as int),
        i <= r <= s@.len(),
    decreases s@.len() - i,
{
    if i < s.len() {
        let b = s[i];
        if b == 32 || b == 9 || b == 10 || b == 12 || b == 13 {
            return ws_start_x(s, i + 1);
        }
    }
    i
}

fn ws_rend_x(s: &Vec<u8>, j: usize) -> (r: usize)
    requires
        j <= s@.len(),
    ensures
        r as int == ws_rend(s@, j as int),
        r <= j,
    decreases j,
{
    if j > 0 {
        let b = s[j - 1];
        if b == 32 || b == 9 || b == 10 || b == 12 || b == 13 {
            return ws_rend_x(s, j - 1);
        }
    }
    j
}

/// A copy of `s` with leading and trailing ASCII whitespace removed.
pub fn trim_ascii_vec(s: &Vec<u8>) -> (r: Vec<u8>)
    ensures
        r@ == trim_of(s@),
{
    let a = ws_start_x(s, 0);
    let b = ws_rend_x(s, s.len());
    if b <= a {
        let r: Vec<u8> = Vec::new();
        proof {
            assert(r@ =~= trim_of(s@));
        }
        r
    } else {
        crate::element::subrange_vec(s, a, b)
    }
}

} // verus!
