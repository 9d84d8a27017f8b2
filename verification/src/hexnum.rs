//! Fixed-width hexadecimal rendering of 64-bit integers, used by the
//! credential payload encoding. A `u64` is written as exactly sixteen
//! lower-case hexadecimal characters, most significant digit first.

use vstd::prelude::*;
use vstd::arithmetic::power2::*;
use vstd::string::StringExecFns;

verus! {

/// Value of one lower-case hexadecimal digit character, or -1 when the
/// character is not such a digit.
pub open spec fn hex_digit_val(c: char) -> int {
    if c == '0' { 0 }
    else if c == '1' { 1 }
    else if c == '2' { 2 }
    else if c == '3' { 3 }
    else if c == '4' { 4 }
    else if c == '5' { 5 }
    else if c == '6' { 6 }
    else if c == '7' { 7 }
    else if c == '8' { 8 }
    else if c == '9' { 9 }
    else if c == 'a' { 10 }
    else if c == 'b' { 11 }
    else if c == 'c' { 12 }
    else if c == 'd' { 13 }
    else if c == 'e' { 14 }
    else if c == 'f' { 15 }
    else { -1 }
}

/// The lower-case hexadecimal digit character for a value in 0..16.
pub open spec fn nibble_char(v: int) -> char {
    if v == 0 { '0' }
    else if v == 1 { '1' }
    else if v == 2 { '2' }
    else if v == 3 { '3' }
    else if v == 4 { '4' }
    else if v == 5 { '5' }
    else if v == 6 { '6' }
    else if v == 7 { '7' }
    else if v == 8 { '8' }
    else if v == 9 { '9' }
    else if v == 10 { 'a' }
    else if v == 11 { 'b' }
    else if v == 12 { 'c' }
    else if v == 13 { 'd' }
    else if v == 14 { 'e' }
    else { 'f' }
}

/// `n` as exactly sixteen hexadecimal characters, most significant first.
pub open spec fn u64_hex(n: u64) -> Seq<char> {
    Seq::new(16, |i: int| nibble_char(((n >> (((15 - i) * 4) as u64)) & 0xf) as int))
}

/// The numeric value of a sequence of hexadecimal digit characters, most
/// significant first; `None` when some character is not such a digit.
pub open spec fn hex_seq_val(s: Seq<char>) -> Option<int>
    decreases s.len(),
{
    if s.len() == 0 {
        Some(0)
    } else {
        let d = hex_digit_val(s.last());
        match hex_seq_val(s.drop_last()) {
            Some(v) => if d >= 0 { Some(16 * v + d) } else { None },
            None => None,
        }
    }
}

/// A sequence holding a non-digit character has no value.
pub proof fn lemma_hex_seq_val_none(s: Seq<char>, i: int)
    requires
        0 <= i < s.len(),
        hex_digit_val(s[i]) < 0,
    ensures
        hex_seq_val(s) is None,
    decreases s.len(),
{
    if i < s.len() - 1 {
        lemma_hex_seq_val_none(s.drop_last(), i);
    }
}

proof fn lemma_u64_hex_prefix(n: u64, k: int)
    requires
        0 <= k <= 16,
    ensures
        hex_seq_val(u64_hex(n).take(k)) == Some((n >> ((64 - 4 * k) as u64)) as int),
    decreases k,
{
    if k == 0 {
        assert(n >> 64u64 == 0) by (bit_vector);
    } else {
        lemma_u64_hex_prefix(n, k - 1);
        let s = u64_hex(n).take(k);
        assert(s.drop_last() =~= u64_hex(n).take(k - 1));
        let sh = ((16 - k) * 4) as u64;
        assert(s.last() == nibble_char(((n >> sh) & 0xf) as int));
        assert((n >> sh) & 0xf < 16) by (bit_vector);
        assert(forall|v: int| 0 <= v < 16 ==> hex_digit_val(nibble_char(v)) == v);
        assert(n >> sh == (n >> (sh + 4)) * 16 + ((n >> sh) & 0xf) && n >> (sh + 4)
            <= 0x0fffffffffffffffu64) by (bit_vector)
            requires
                sh <= 60u64,
        ;
        assert(((16 - k) * 4) as u64 + 4 == (64 - 4 * (k - 1)) as u64);
    }
}

/// Reading back the sixteen digits of `n` yields `n`: the rendering loses
/// nothing.
pub proof fn lemma_u64_hex_roundtrip(n: u64)
    ensures
        hex_seq_val(u64_hex(n)) == Some(n as int),
{
    lemma_u64_hex_prefix(n, 16);
    assert(u64_hex(n).take(16) =~= u64_hex(n));
    assert(n >> 0u64 == n) by (bit_vector);
}

/// Appends the sixteen hexadecimal digit characters of `n` to `out`.
pub fn push_u64_hex(out: &mut String, n: u64)
    ensures
        final(out)@ == old(out)@ + u64_hex(n),
{
    let ghost orig = out@;
    let mut i: usize = 0;
    while i < 16
        invariant
            0 <= i <= 16,
            out@ == orig + u64_hex(n).take(i as int),
        decreases 16 - i,
    {
        let sh: u64 = ((15 - i) as u64) * 4;
        let d: u64 = (n >> sh) & 0xf;
        proof {
            assert((n >> sh) & 0xf < 16) by (bit_vector);
        }
        let ds: &str = if d == 0 { "0" }
        else if d == 1 { "1" }
        else if d == 2 { "2" }
        else if d == 3 { "3" }
        else if d == 4 { "4" }
        else if d == 5 { "5" }
        else if d == 6 { "6" }
        else if d == 7 { "7" }
        else if d == 8 { "8" }
        else if d == 9 { "9" }
        else if d == 10 { "a" }
        else if d == 11 { "b" }
        else if d == 12 { "c" }
        else if d == 13 { "d" }
        else if d == 14 { "e" }
        else { "f" };
        proof {
            reveal_strlit("0");
            reveal_strlit("1");
            reveal_strlit("2");
            reveal_strlit("3");
            reveal_strlit("4");
            reveal_strlit("5");
            reveal_strlit("6");
            reveal_strlit("7");
            reveal_strlit("8");
            reveal_strlit("9");
            reveal_strlit("a");
            reveal_strlit("b");
            reveal_strlit("c");
            reveal_strlit("d");
            reveal_strlit("e");
            reveal_strlit("f");
            assert(ds@ =~= seq![nibble_char(d as int)]);
            assert(u64_hex(n).take(i + 1) =~= u64_hex(n).take(i as int) + seq![
                nibble_char(d as int),
            ]);
        }
        out.append(ds);
        i = i + 1;
    }
    proof {
        assert(u64_hex(n).take(16) =~= u64_hex(n));
    }
}

/// Reads the value of the sixteen hexadecimal digit characters of `s`
/// starting at `off`; `None` when one of them is not such a digit.
pub fn parse_u64_hex(s: &Vec<char>, off: usize) -> (r: Option<u64>)
    requires
        off + 16 <= s@.len(),
    ensures
        match r {
            Some(v) => hex_seq_val(s@.subrange(off as int, off as int + 16)) == Some(v as int),
            None => hex_seq_val(s@.subrange(off as int, off as int + 16)) is None,
        },
{
    let ghost whole = s@.subrange(off as int, off as int + 16);
    let slen: usize = s.len();
    let mut acc: u64 = 0;
    let mut i: usize = 0;
    proof {
        lemma2_to64();
    }
    while i < 16
        invariant
            0 <= i <= 16,
            off + 16 <= slen,
            slen == s@.len(),
            whole == s@.subrange(off as int, off as int + 16),
            hex_seq_val(whole.take(i as int)) == Some(acc as int),
            acc < pow2((4 * i) as nat),
        decreases 16 - i,
    {
        let c = s[off + i];
        let d: u64 = match c {
            '0' => 0,
            '1' => 1,
            '2' => 2,
            '3' => 3,
            '4' => 4,
            '5' => 5,
            '6' => 6,
            '7' => 7,
            '8' => 8,
            '9' => 9,
            'a' => 10,
            'b' => 11,
            'c' => 12,
            'd' => 13,
            'e' => 14,
            'f' => 15,
            _ => {
                proof {
                    lemma_hex_seq_val_none(whole, i as int);
                }
                return None;
            },
        };
        proof {
            lemma_pow2_strictly_increases((4 * i) as nat, 64);
            lemma_pow2_adds((4 * i) as nat, 4);
            lemma2_to64();
            lemma2_to64_rest();
            assert(whole.take(i + 1).drop_last() =~= whole.take(i as int));
            assert(whole.take(i + 1).last() == whole[i as int]);
        }
        acc = acc * 16 + d;
        i = i + 1;
    }
    proof {
        assert(whole.take(16) =~= whole);
    }
    Some(acc)
}

} // verus!
