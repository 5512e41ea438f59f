//! Little-endian integers and fixed-size byte arrays inside byte buffers.

use vstd::prelude::*;

use crate::primitives::push_char;

verus! {

/// Copy `N` bytes of `b` starting at `off` into an array.
pub fn take_array<const N: usize>(b: &[u8], off: usize) -> (r: [u8; N])
    requires
        off + N <= b@.len(),
    ensures
        r@ == b@.subrange(off as int, off + N),
{
    let len: usize = b.len();
    let mut r = [0u8; N];
    let mut i: usize = 0;
    while i < N
        invariant
            i <= N,
            off + N <= b@.len(),
            len == b@.len(),
            r@.len() == N,
            forall|j: int| 0 <= j < i ==> r@[j] == b@[off + j],
        decreases N - i,
    {
        r[i] = b[off + i];
        i = i + 1;
    }
    assert(r@ =~= b@.subrange(off as int, off + N));
    r
}

/// The lower-case hex digit of a value below 16.
pub open spec fn spec_hex_digit(v: u8) -> char {
    if v < 10 { (('0' as u8) + v) as char } else { (('a' as u8) + v - 10) as char }
}

/// Bytes as lower-case hex, two digits per byte.
pub open spec fn spec_hex(b: Seq<u8>) -> Seq<char>
    decreases b.len(),
{
    if b.len() == 0 {
        Seq::empty()
    } else {
        spec_hex(b.drop_last()).push(spec_hex_digit(b.last() / 16)).push(spec_hex_digit(b.last() % 16))
    }
}

fn hex_digit(v: u8) -> (c: char)
    requires
        v < 16,
    ensures
        c == spec_hex_digit(v),
{
    if v < 10 { (48 + v) as char } else { (97 + v - 10) as char }
}

/// Bytes as lower-case hex, two digits per byte.
pub fn hex(b: &[u8]) -> (s: String)
    ensures
        s@ == spec_hex(b@),
        s@.len() == 2 * b@.len(),
{
    let mut out = String::new();
    let mut i: usize = 0;
    while i < b.len()
        invariant
            i <= b@.len(),
            out@ == spec_hex(b@.take(i as int)),
            out@.len() == 2 * i,
        decreases b@.len() - i,
    {
        assert(b@.take(i + 1).drop_last() =~= b@.take(i as int));
        push_char(&mut out, hex_digit(b[i] / 16));
        push_char(&mut out, hex_digit(b[i] % 16));
        i = i + 1;
    }
    assert(b@.take(b@.len() as int) =~= b@);
    out
}

/// The value of a lower-case hex digit.
pub open spec fn spec_hex_value(c: char) -> int {
    if '0' <= c <= '9' { c as int - '0' as int } else { c as int - 'a' as int + 10 }
}

/// A lower-case hex digit.
pub open spec fn is_lower_hex_digit(c: char) -> bool {
    ('0' <= c <= '9') || ('a' <= c <= 'f')
}

/// Hex text reads back to its bytes: characters `2i` and `2i + 1` are
/// lower-case hex digits giving the high and the low half of byte `i`.
pub proof fn lemma_hex_reads_back(b: Seq<u8>)
    ensures
        spec_hex(b).len() == 2 * b.len(),
        forall|i: int| 0 <= i < b.len() ==> {
            &&& is_lower_hex_digit(#[trigger] spec_hex(b)[2 * i])
            &&& is_lower_hex_digit(spec_hex(b)[2 * i + 1])
            &&& spec_hex_value(spec_hex(b)[2 * i]) * 16 + spec_hex_value(spec_hex(b)[2 * i + 1]) == b[i]
        },
    decreases b.len(),
{
    if b.len() > 0 {
        let pre = b.drop_last();
        lemma_hex_reads_back(pre);
        let x = b.last();
        let hi = x / 16;
        let lo = x % 16;
        assert(hi * 16 + lo == x);
        let h = spec_hex(b);
        assert forall|i: int| 0 <= i < b.len() implies {
            &&& is_lower_hex_digit(#[trigger] h[2 * i])
            &&& is_lower_hex_digit(h[2 * i + 1])
            &&& spec_hex_value(h[2 * i]) * 16 + spec_hex_value(h[2 * i + 1]) == b[i]
        } by {
            if i < pre.len() {
                assert(h[2 * i] == spec_hex(pre)[2 * i]);
                assert(h[2 * i + 1] == spec_hex(pre)[2 * i + 1]);
                assert(b[i] == pre[i]);
            } else {
                assert(h[2 * i] == spec_hex_digit(hi));
                assert(h[2 * i + 1] == spec_hex_digit(lo));
            }
        }
    }
}

} // verus!
