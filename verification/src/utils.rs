//! Byte-level numeric helpers: big-endian byte strings of unbounded
//! integers, hex-literal values, and hex rendering of byte buffers.
use vstd::prelude::*;

use crate::ast::AsmError;

verus! {

broadcast use vstd::std_specs::vec::group_vec_axioms, vstd::seq::group_seq_axioms;

use vstd::arithmetic::power2::{pow2, lemma_pow2_adds, lemma_pow2_strictly_increases, lemma_pow2_pos};
use vstd::arithmetic::div_mod::{lemma_fundamental_div_mod, lemma_div_denominator};
use vstd::std_specs::iter::IteratorSpec;

/// The value of a byte string read as a big-endian unsigned integer.
pub open spec fn be_val(b: Seq<u8>) -> nat
    decreases b.len(),
{
    if b.len() == 0 {
        0
    } else {
        be_val(b.drop_last()) * 256 + b.last() as nat
    }
}

/// The `len`-byte big-endian byte string of `v` (low bytes of `v` if it
/// does not fit).
pub open spec fn be_bytes(v: nat, len: nat) -> Seq<u8>
    decreases len,
{
    if len == 0 {
        Seq::empty()
    } else {
        be_bytes(v / 256, (len - 1) as nat).push((v % 256) as u8)
    }
}

pub broadcast proof fn lemma_be_bytes_len(v: nat, len: nat)
    ensures
        #[trigger] be_bytes(v, len).len() == len,
    decreases len,
{
    if len > 0 {
        lemma_be_bytes_len(v / 256, (len - 1) as nat);
    }
}

/// Reading the big-endian bytes of a value that fits gives the value back.
pub proof fn lemma_be_val_be_bytes(v: nat, len: nat)
    requires
        v < pow2(8 * len),
    ensures
        be_val(be_bytes(v, len)) == v,
    decreases len,
{
    if len == 0 {
        assert(pow2(0) == 1) by {
            vstd::arithmetic::power2::lemma2_to64();
        }
    } else {
        lemma_be_bytes_len(v / 256, (len - 1) as nat);
        let s = be_bytes(v / 256, (len - 1) as nat);
        let b = (v % 256) as u8;
        assert(s.push(b).drop_last() =~= s);
        assert(v / 256 < pow2(8 * (len - 1) as nat)) by {
            lemma_pow2_adds(8 * (len - 1) as nat, 8);
            assert(pow2(8) == 256) by {
                vstd::arithmetic::power2::lemma2_to64();
            }
            assert(v < pow2(8 * (len - 1) as nat) * 256);
            assert(v / 256 < pow2(8 * (len - 1) as nat)) by (nonlinear_arith)
                requires
                    v < pow2(8 * (len - 1) as nat) * 256,
                    pow2(8 * (len - 1) as nat) > 0,
            {
            }
            lemma_pow2_pos(8 * (len - 1) as nat);
        }
        lemma_be_val_be_bytes(v / 256, (len - 1) as nat);
        lemma_fundamental_div_mod(v as int, 256);
    }
}

/// A byte string is exactly the big-endian rendering of its own value.
pub proof fn lemma_be_bytes_of_be_val(s: Seq<u8>)
    ensures
        be_bytes(be_val(s), s.len()) == s,
    decreases s.len(),
{
    if s.len() == 0 {
        assert(be_bytes(0, 0) =~= s);
    } else {
        let v = be_val(s);
        let hi = be_val(s.drop_last());
        assert(v == hi * 256 + s.last());
        assert(v / 256 == hi && v % 256 == s.last()) by (nonlinear_arith)
            requires
                v == hi * 256 + s.last(),
                0 <= s.last() < 256,
        {
        }
        lemma_be_bytes_of_be_val(s.drop_last());
        assert(be_bytes(v, s.len()) =~= s);
    }
}

/// The 8-byte big-endian byte string of a 64-bit value.
pub fn u64_be_bytes(v: u64) -> (r: Vec<u8>)
    ensures
        r@ == be_bytes(v as nat, 8),
        r@.len() == 8,
{
    let mut tmp: Vec<u8> = Vec::new();
    let mut x: u64 = v;
    let mut j: usize = 0;
    proof {
        assert(pow2(0) == 1) by {
            vstd::arithmetic::power2::lemma2_to64();
        }
        assert(v as nat / 1 == v as nat) by (nonlinear_arith);
        assert(x == v as nat / pow2((8 * 0) as nat));
    }
    while j < 8
        invariant
            j <= 8,
            tmp@.len() == j,
            x == v as nat / pow2((8 * j) as nat),
            forall|i: int| 0 <= i < j ==> tmp@[i] == (v as nat / pow2((8 * i) as nat)) % 256,
        decreases 8 - j,
    {
        proof {
            lemma_pow2_adds((8 * j) as nat, 8);
            assert(pow2(8) == 256) by {
                vstd::arithmetic::power2::lemma2_to64();
            }
            lemma_pow2_pos((8 * j) as nat);
            lemma_div_denominator(v as int, pow2((8 * j) as nat) as int, 256);
        }
        tmp.push((x % 256) as u8);
        x = x / 256;
        j += 1;
    }
    let mut out: Vec<u8> = Vec::new();
    let mut k: usize = 0;
    proof {
        lemma_pow2_adds(56, 8);
        vstd::arithmetic::power2::lemma2_to64();
        assert(v as nat / pow2(64) == 0) by (nonlinear_arith)
            requires
                v < pow2(64),
                pow2(64) > 0,
        {
        }
    }
    while k < 8
        invariant
            k <= 8,
            out@.len() == k,
            tmp@.len() == 8,
            v < pow2(64),
            forall|i: int| 0 <= i < 8 ==> tmp@[i] == (v as nat / pow2((8 * i) as nat)) % 256,
            be_val(out@) == v as nat / pow2((8 * (8 - k)) as nat),
        decreases 8 - k,
    {
        let b = tmp[7 - k];
        proof {
            let e = (8 * (7 - k)) as nat;
            lemma_pow2_adds(e, 8);
            assert(pow2(8) == 256) by {
                vstd::arithmetic::power2::lemma2_to64();
            }
            lemma_pow2_pos(e);
            lemma_div_denominator(v as int, pow2(e) as int, 256);
            let q = v as nat / pow2(e);
            lemma_fundamental_div_mod(q as int, 256);
            assert(be_val(out@.push(b)) == be_val(out@) * 256 + b) by {
                assert(out@.push(b).drop_last() =~= out@);
            }
            assert(be_val(out@) * 256 + b == q);
        }
        out.push(b);
        k += 1;
    }
    proof {
        assert(pow2(0) == 1) by {
            vstd::arithmetic::power2::lemma2_to64();
        }
        assert(v as nat / 1 == v as nat) by (nonlinear_arith);
        assert(be_val(out@) == v as nat);
        assert((v as nat) < pow2(8 * out@.len())) by {
            vstd::arithmetic::power2::lemma2_to64();
        }
        lemma_be_bytes_of_be_val(out@);
    }
    out
}

/// The character standing for one hex digit value, upper case.
pub open spec fn hex_char_of(d: nat) -> char {
    if d == 0 {
        '0'
    } else     if d == 1 {
        '1'
    } else     if d == 2 {
        '2'
    } else     if d == 3 {
        '3'
    } else     if d == 4 {
        '4'
    } else     if d == 5 {
        '5'
    } else     if d == 6 {
        '6'
    } else     if d == 7 {
        '7'
    } else     if d == 8 {
        '8'
    } else     if d == 9 {
        '9'
    } else     if d == 10 {
        'A'
    } else     if d == 11 {
        'B'
    } else     if d == 12 {
        'C'
    } else     if d == 13 {
        'D'
    } else     if d == 14 {
        'E'
    } else     {
        'F'
    }
}

/// The upper-case hex rendering of a byte string, two characters per
/// byte, no separators.
pub open spec fn hex_of_bytes(b: Seq<u8>) -> Seq<char>
    decreases b.len(),
{
    if b.len() == 0 {
        Seq::empty()
    } else {
        hex_of_bytes(b.drop_last()).push(hex_char_of(b.last() as nat / 16)).push(
            hex_char_of(b.last() as nat % 16),
        )
    }
}

/// One hex digit as a string slice.
fn hex_digit_str(d: u8) -> (r: &'static str)
    requires
        d < 16,
    ensures
        r@ == seq![hex_char_of(d as nat)],
{
    proof {
        reveal_strlit("0");
        reveal_strlit("1");
        reveal_strlit("2");
        reveal_strlit("3");
        reveal_strlit("4");
        reveal_strlit("5");
        reveal_strlit("6");
        reveal_strlit("7");
        reveal_strlit("8");
        reveal_strlit("9");
        reveal_strlit("A");
        reveal_strlit("B");
        reveal_strlit("C");
        reveal_strlit("D");
        reveal_strlit("E");
        reveal_strlit("F");
        assert("0"@ =~= seq![hex_char_of(0)]);
        assert("1"@ =~= seq![hex_char_of(1)]);
        assert("2"@ =~= seq![hex_char_of(2)]);
        assert("3"@ =~= seq![hex_char_of(3)]);
        assert("4"@ =~= seq![hex_char_of(4)]);
        assert("5"@ =~= seq![hex_char_of(5)]);
        assert("6"@ =~= seq![hex_char_of(6)]);
        assert("7"@ =~= seq![hex_char_of(7)]);
        assert("8"@ =~= seq![hex_char_of(8)]);
        assert("9"@ =~= seq![hex_char_of(9)]);
        assert("A"@ =~= seq![hex_char_of(10)]);
        assert("B"@ =~= seq![hex_char_of(11)]);
        assert("C"@ =~= seq![hex_char_of(12)]);
        assert("D"@ =~= seq![hex_char_of(13)]);
        assert("E"@ =~= seq![hex_char_of(14)]);
        assert("F"@ =~= seq![hex_char_of(15)]);
    }
    match d {
        0 => "0",
        1 => "1",
        2 => "2",
        3 => "3",
        4 => "4",
        5 => "5",
        6 => "6",
        7 => "7",
        8 => "8",
        9 => "9",
        10 => "A",
        11 => "B",
        12 => "C",
        13 => "D",
        14 => "E",
        _ => "F",
    }
}

/// Renders a byte buffer as an upper-case hexadecimal string, two hex
/// characters per byte, with no separators and no prefix.
pub fn bytes_to_hex_string(bytes: &[u8]) -> (r: String)
    ensures
        r@ == hex_of_bytes(bytes@),
{
    let n = bytes.len();
    let mut s = String::new();
    let mut i: usize = 0;
    while i < n
        invariant
            i <= n,
            n == bytes@.len(),
            s@ == hex_of_bytes(bytes@.take(i as int)),
        decreases n - i,
    {
        let b = bytes[i];
        proof {
            assert(b / 16 < 16 && b % 16 < 16) by (nonlinear_arith)
                requires
                    0 <= b < 256,
            {
            }
        }
        let hi = hex_digit_str(b / 16);
        let lo = hex_digit_str(b % 16);
        s.append(hi);
        s.append(lo);
        proof {
            let t = bytes@.take(i + 1);
            assert(t.drop_last() =~= bytes@.take(i as int));
            assert(t.last() == b);
            assert(s@ =~= hex_of_bytes(bytes@.take(i + 1)));
        }
        i += 1;
    }
    proof {
        assert(bytes@.take(n as int) =~= bytes@);
    }
    s
}

/// The value of one hex digit character; non-digits count as zero.
pub open spec fn nibble_val(c: char) -> nat {
    match c {
        '0' => 0,
        '1' => 1,
        '2' => 2,
        '3' => 3,
        '4' => 4,
        '5' => 5,
        '6' => 6,
        '7' => 7,
        '8' => 8,
        '9' => 9,
        'a' => 10,
        'b' => 11,
        'c' => 12,
        'd' => 13,
        'e' => 14,
        'f' => 15,
        'A' => 10,
        'B' => 11,
        'C' => 12,
        'D' => 13,
        'E' => 14,
        'F' => 15,
        _ => 0,
    }
}

pub open spec fn is_hex_digit(c: char) -> bool {
    match c {
        '0' => true,
        '1' => true,
        '2' => true,
        '3' => true,
        '4' => true,
        '5' => true,
        '6' => true,
        '7' => true,
        '8' => true,
        '9' => true,
        'a' => true,
        'b' => true,
        'c' => true,
        'd' => true,
        'e' => true,
        'f' => true,
        'A' => true,
        'B' => true,
        'C' => true,
        'D' => true,
        'E' => true,
        'F' => true,
        _ => false,
    }
}

/// Executable form of `nibble_val`, restricted to hex digits.
pub fn nibble_of_char(c: char) -> (r: u8)
    ensures
        r as nat == nibble_val(c),
        r <= 15,
{
    match c {
        '0' => 0,
        '1' => 1,
        '2' => 2,
        '3' => 3,
        '4' => 4,
        '5' => 5,
        '6' => 6,
        '7' => 7,
        '8' => 8,
        '9' => 9,
        'a' => 10,
        'b' => 11,
        'c' => 12,
        'd' => 13,
        'e' => 14,
        'f' => 15,
        'A' => 10,
        'B' => 11,
        'C' => 12,
        'D' => 13,
        'E' => 14,
        'F' => 15,
        _ => 0,
    }
}

/// The value of a hex digit string read most-significant-first.
pub open spec fn hex_val(s: Seq<char>) -> nat
    decreases s.len(),
{
    if s.len() == 0 {
        0
    } else {
        hex_val(s.drop_last()) * 16 + nibble_val(s.last())
    }
}

/// `s` without one leading `0x`, if it carries one.
pub open spec fn strip_hex_prefix(s: Seq<char>) -> Seq<char> {
    if s.len() >= 2 && s[0] == '0' && s[1] == 'x' {
        s.subrange(2, s.len() as int)
    } else {
        s
    }
}

/// A well-formed hex literal: at least one digit after the optional
/// prefix, and nothing but hex digits there.
pub open spec fn wf_hex_literal(s: Seq<char>) -> bool {
    &&& strip_hex_prefix(s).len() >= 1
    &&& forall|i: int|
        0 <= i < strip_hex_prefix(s).len() ==> is_hex_digit(#[trigger] strip_hex_prefix(s)[i])
}

/// The number of bytes needed for `bits` bits.
pub open spec fn byte_len_of(bits: nat) -> nat {
    (bits + 7) / 8
}

pub proof fn lemma_hex_val_bound(s: Seq<char>)
    ensures
        hex_val(s) < pow2(4 * s.len()),
    decreases s.len(),
{
    if s.len() == 0 {
        assert(pow2(0) == 1) by {
            vstd::arithmetic::power2::lemma2_to64();
        }
    } else {
        lemma_hex_val_bound(s.drop_last());
        lemma_pow2_adds(4 * (s.len() - 1) as nat, 4);
        assert(pow2(4) == 16) by {
            vstd::arithmetic::power2::lemma2_to64();
        }
        assert(hex_val(s.drop_last()) * 16 + nibble_val(s.last()) < pow2(4 * (s.len() - 1) as nat)
            * 16) by (nonlinear_arith)
            requires
                hex_val(s.drop_last()) < pow2(4 * (s.len() - 1) as nat),
                nibble_val(s.last()) < 16,
        {
        }
    }
}
pub proof fn lemma_hex_val_split(a: Seq<char>, b: Seq<char>)
    ensures
        hex_val(a + b) == hex_val(a) * pow2(4 * b.len()) + hex_val(b),
    decreases b.len(),
{
    if b.len() == 0 {
        assert(a + b =~= a);
        assert(pow2(0) == 1) by {
            vstd::arithmetic::power2::lemma2_to64();
        }
        assert(hex_val(b) == 0);
        assert(hex_val(a) * 1 == hex_val(a)) by (nonlinear_arith);
    } else {
        lemma_hex_val_split(a, b.drop_last());
        assert((a + b).drop_last() =~= a + b.drop_last());
        assert((a + b).last() == b.last());
        lemma_pow2_adds(4 * (b.len() - 1) as nat, 4);
        assert(pow2(4) == 16) by {
            vstd::arithmetic::power2::lemma2_to64();
        }
        let p = pow2(4 * (b.len() - 1) as nat);
        assert(hex_val(a + b) == (hex_val(a) * p + hex_val(b.drop_last())) * 16 + nibble_val(
            b.last(),
        ));
        assert((hex_val(a) * p + hex_val(b.drop_last())) * 16 + nibble_val(b.last()) == hex_val(a)
            * (p * 16) + (hex_val(b.drop_last()) * 16 + nibble_val(b.last()))) by (nonlinear_arith);
        assert(4 * (b.len() - 1) as nat + 4 == 4 * b.len());
        assert(p * 16 == pow2(4 * b.len()));
        assert(hex_val(a + b) == hex_val(a) * (p * 16) + hex_val(b));
        assert(hex_val(a) * (p * 16) == hex_val(a) * pow2(4 * b.len()));
    }
}

pub proof fn lemma_hex_val_zeros(s: Seq<char>)
    requires
        forall|i: int| 0 <= i < s.len() ==> nibble_val(#[trigger] s[i]) == 0,
    ensures
        hex_val(s) == 0,
    decreases s.len(),
{
    if s.len() > 0 {
        lemma_hex_val_zeros(s.drop_last());
    }
}

/// Leading zero digits do not change the value of a hex string.
pub proof fn lemma_hex_val_skip_zeros(s: Seq<char>, k: int)
    requires
        0 <= k <= s.len(),
        forall|i: int| 0 <= i < k ==> nibble_val(#[trigger] s[i]) == 0,
    ensures
        hex_val(s) == hex_val(s.skip(k)),
{
    let a = s.take(k);
    let b = s.skip(k);
    assert(s =~= a + b);
    lemma_hex_val_split(a, b);
    assert(forall|i: int| 0 <= i < a.len() ==> nibble_val(#[trigger] a[i]) == 0) by {
        assert(forall|i: int| 0 <= i < a.len() ==> a[i] == #[trigger] s[i]);
    }
    lemma_hex_val_zeros(a);
    assert(hex_val(a + b) == 0 * pow2(4 * b.len()) + hex_val(b));
    assert(0 * pow2(4 * b.len()) == 0) by (nonlinear_arith);
}

/// The number of significant bits of one leading hex digit.
pub open spec fn lead_bits_of(d: nat) -> nat {
    if d >= 8 {
        4
    } else if d >= 4 {
        3
    } else if d >= 2 {
        2
    } else {
        1
    }
}

/// A hex string whose leading digit is nonzero is bracketed by the two
/// powers of two around its leading digit, which decides exactly which
/// bit widths its value fits.
pub proof fn lemma_hex_fits(sig: Seq<char>, bits: nat)
    requires
        sig.len() >= 1,
        nibble_val(sig[0]) >= 1,
    ensures
        hex_val(sig) < pow2(bits) <==> 4 * (sig.len() - 1) + lead_bits_of(nibble_val(sig[0]))
            <= bits,
{
    let m = sig.len();
    let d = nibble_val(sig[0]);
    let lb = lead_bits_of(d);
    let e = 4 * (m - 1) as nat;
    let a = sig.take(1);
    let b = sig.skip(1);
    assert(sig =~= a + b);
    lemma_hex_val_split(a, b);
    assert(a.drop_last() =~= Seq::<char>::empty());
    assert(hex_val(Seq::<char>::empty()) == 0);
    assert(hex_val(a) == d);
    lemma_hex_val_bound(b);
    lemma_pow2_pos(e);
    assert((d + 1) * pow2(e) == d * pow2(e) + pow2(e)) by (nonlinear_arith);
    assert(b.len() == sig.len() - 1);
    assert(hex_val(sig) == d * pow2(e) + hex_val(b));
    // upper bound: hex_val(sig) < pow2(e + lb)
    assert(d + 1 <= pow2(lb)) by {
        vstd::arithmetic::power2::lemma2_to64();
    }
    lemma_pow2_adds(e, lb);
    assert(hex_val(sig) < (d + 1) * pow2(e));
    assert((d + 1) * pow2(e) <= pow2(lb) * pow2(e)) by (nonlinear_arith)
        requires
            d + 1 <= pow2(lb),
            pow2(e) > 0,
    ;
    assert(hex_val(sig) < pow2((e + lb) as nat));
    // lower bound: hex_val(sig) >= pow2(e + lb - 1)
    assert(pow2((lb - 1) as nat) <= d) by {
        vstd::arithmetic::power2::lemma2_to64();
    }
    lemma_pow2_adds(e, (lb - 1) as nat);
    assert(pow2((lb - 1) as nat) * pow2(e) <= d * pow2(e)) by (nonlinear_arith)
        requires
            pow2((lb - 1) as nat) <= d,
            pow2(e) > 0,
    ;
    assert(hex_val(sig) >= d * pow2(e));
    assert(pow2((e + lb - 1) as nat) == pow2(e) * pow2((lb - 1) as nat));
    assert(pow2(e) * pow2((lb - 1) as nat) == pow2((lb - 1) as nat) * pow2(e)) by (nonlinear_arith);
    assert(hex_val(sig) >= pow2((e + lb - 1) as nat));
    if e + lb <= bits {
        if e + lb < bits {
            lemma_pow2_strictly_increases((e + lb) as nat, bits);
        }
        assert(hex_val(sig) < pow2(bits));
    } else {
        if bits < e + lb - 1 {
            lemma_pow2_strictly_increases(bits, (e + lb - 1) as nat);
        }
        assert(hex_val(sig) >= pow2(bits));
    }
}

/// The characters of a string slice, in order.
pub fn str_to_chars(s: &str) -> (r: Vec<char>)
    ensures
        r@ == s@,
{
    broadcast use vstd::string::next_postcondition, vstd::string::group_string_axioms;

    let mut it = s.chars();
    let mut out: Vec<char> = Vec::new();
    loop
        invariant
            IteratorSpec::obeys_prophetic_iter_laws(&it),
            IteratorSpec::decrease(&it) is Some,
            out@ + IteratorSpec::remaining(&it) == s@,
        ensures
            IteratorSpec::remaining(&it).len() == 0,
            out@ + IteratorSpec::remaining(&it) == s@,
        decreases IteratorSpec::decrease(&it)->0,
    {
        match it.next() {
            Some(c) => {
                out.push(c);
            },
            None => {
                break ;
            },
        }
    }
    proof {
        assert(out@ + IteratorSpec::remaining(&it) =~= out@);
    }
    out
}

/// Packs the hex digits `chars[nz..]`, left-padded with zeros, into
/// exactly `bl` big-endian bytes.  The digit count must not exceed the
/// capacity.
fn pack_hex_digits(chars: &Vec<char>, nz: usize, bl: usize) -> (r: Vec<u8>)
    requires
        nz <= chars@.len(),
        chars@.len() - nz <= 2 * (bl as int),
        bl <= usize::MAX as int / 2,
    ensures
        r@.len() == bl,
        be_val(r@) == hex_val(chars@.skip(nz as int)),
{
    let n = chars.len();
    let m = n - nz;
    let pad = 2 * bl - m;
    let ghost sig = chars@.skip(nz as int);
    let ghost padded = Seq::new(
        (2 * bl) as nat,
        |p: int|
            if p < pad {
                '0'
            } else {
                sig[p - pad]
            },
    );
    proof {
        assert(forall|i: int| 0 <= i < pad ==> nibble_val(#[trigger] padded[i]) == 0);
        lemma_hex_val_skip_zeros(padded, pad as int);
        assert(padded.skip(pad as int) =~= sig);
        assert(padded.take(0) =~= Seq::<char>::empty());
    }
    let mut outv: Vec<u8> = Vec::new();
    let mut k: usize = 0;
    while k < bl
        invariant
            k <= bl,
            outv@.len() == k,
            n == chars@.len(),
            nz <= n,
            m == n - nz,
            pad == 2 * (bl as int) - m,
            m <= 2 * (bl as int),
            bl <= usize::MAX as int / 2,
            sig == chars@.skip(nz as int),
            padded == Seq::new(
                (2 * bl) as nat,
                |p: int|
                    if p < pad {
                        '0'
                    } else {
                        sig[p - pad]
                    },
            ),
            be_val(outv@) == hex_val(padded.take(2 * k)),
        decreases bl - k,
    {
        let p0 = 2 * k;
        let p1 = 2 * k + 1;
        let hi: u8 = if p0 < pad {
            0
        } else {
            nibble_of_char(chars[nz + (p0 - pad)])
        };
        let lo: u8 = if p1 < pad {
            0
        } else {
            nibble_of_char(chars[nz + (p1 - pad)])
        };
        let b: u8 = hi * 16 + lo;
        proof {
            assert(hi as nat == nibble_val(padded[p0 as int]));
            assert(lo as nat == nibble_val(padded[p1 as int]));
            let t0 = padded.take(2 * k as int);
            let t1 = padded.take(2 * k + 1);
            let t2 = padded.take(2 * k + 2);
            assert(t2.drop_last() =~= t1);
            assert(t1.drop_last() =~= t0);
            assert(t2.last() == padded[p1 as int]);
            assert(t1.last() == padded[p0 as int]);
            assert(hex_val(t1) == hex_val(t0) * 16 + hi as nat);
            assert(hex_val(t2) == hex_val(t1) * 16 + lo as nat);
            assert(hex_val(t2) == hex_val(t0) * 256 + (hi as nat * 16 + lo as nat))
                by (nonlinear_arith)
                requires
                    hex_val(t1) == hex_val(t0) * 16 + hi as nat,
                    hex_val(t2) == hex_val(t1) * 16 + lo as nat,
            ;
            assert(be_val(outv@.push(b)) == be_val(outv@) * 256 + b) by {
                assert(outv@.push(b).drop_last() =~= outv@);
            }
        }
        outv.push(b);
        k += 1;
    }
    proof {
        assert(padded.take(2 * (bl as int)) =~= padded);
    }
    outv
}

/// Turns a hex literal (optionally `0x`-prefixed) into the big-endian
/// byte string of its value at exactly `bit_length` bits, or reports
/// `LiteralOverflow` when the value needs more bits than that.
pub fn hex_to_bytes(hex_str: &str, bit_length: usize) -> (r: Result<Vec<u8>, AsmError>)
    requires
        wf_hex_literal(hex_str@),
        bit_length <= usize::MAX as int - 7,
    ensures
        r is Ok <==> hex_val(strip_hex_prefix(hex_str@)) < pow2(bit_length as nat),
        r is Ok ==> r->Ok_0@ == be_bytes(
            hex_val(strip_hex_prefix(hex_str@)),
            byte_len_of(bit_length as nat),
        ),
        r is Ok ==> r->Ok_0@.len() == byte_len_of(bit_length as nat),
        r is Err ==> r == Err::<Vec<u8>, AsmError>(AsmError::LiteralOverflow),
{
    let chars = str_to_chars(hex_str);
    let n = chars.len();
    let start: usize = if n >= 2 && chars[0] == '0' && chars[1] == 'x' {
        2
    } else {
        0
    };
    let ghost digits = strip_hex_prefix(hex_str@);
    proof {
        assert(digits =~= chars@.subrange(start as int, n as int));
    }
    // skip leading zero digits
    let mut nz: usize = start;
    while nz < n && chars[nz] == '0'
        invariant
            start <= nz <= n,
            n == chars@.len(),
            forall|i: int| start <= i < nz ==> chars@[i] == '0',
        decreases n - nz,
    {
        nz += 1;
    }
    let m = n - nz;
    let ghost sig = chars@.skip(nz as int);
    proof {
        assert(forall|i: int| 0 <= i < nz - start ==> nibble_val(#[trigger] digits[i]) == 0);
        lemma_hex_val_skip_zeros(digits, nz - start);
        assert(digits.skip(nz - start) =~= sig);
        assert(hex_val(digits) == hex_val(sig));
    }
    let bl = bit_length / 8 + (if bit_length % 8 == 0 {
        0
    } else {
        1
    });
    proof {
        assert(bl == byte_len_of(bit_length as nat)) by (nonlinear_arith)
            requires
                bl == bit_length as nat / 8 + (if bit_length as nat % 8 == 0 {
                    0int
                } else {
                    1int
                }),
        ;
        assert(bit_length <= 8 * (bl as int) <= bit_length + 7) by (nonlinear_arith)
            requires
                bl == byte_len_of(bit_length as nat),
        ;
    }
    // decide whether the value fits bit_length bits
    if m == 0 {
        proof {
            lemma_pow2_pos(bit_length as nat);
            assert(hex_val(sig) == 0);
        }
        let outv = pack_hex_digits(&chars, nz, bl);
        proof {
            lemma_pow2_strictly_increases_or_equal(bit_length as nat, 8 * (bl as nat));
            lemma_be_bytes_of_be_val(outv@);
        }
        return Ok(outv);
    }
    let d = nibble_of_char(chars[nz]);
    proof {
        assert(sig[0] == chars@[nz as int]);
        assert(is_hex_digit(digits[nz - start]));
        assert(digits[nz - start] == sig[0]);
        assert(sig[0] != '0');
        assert(d >= 1);
        lemma_hex_fits(sig, bit_length as nat);
    }
    let lead_bits: usize = if d >= 8 {
        4
    } else if d >= 4 {
        3
    } else if d >= 2 {
        2
    } else {
        1
    };
    let fits: bool = if bit_length < lead_bits {
        false
    } else {
        m - 1 <= (bit_length - lead_bits) / 4
    };
    proof {
        assert(fits == (4 * ((m - 1) as int) + lead_bits <= bit_length)) by (nonlinear_arith)
            requires
                lead_bits >= 1,
                m >= 1,
                fits == (bit_length >= lead_bits && (m - 1) as int <= (bit_length as int
                    - lead_bits as int) / 4),
        ;
        assert(fits == (hex_val(sig) < pow2(bit_length as nat)));
    }
    if !fits {
        return Err(AsmError::LiteralOverflow);
    }
    proof {
        // the significant digits fit the byte capacity
        assert((m as int) <= 2 * (bl as int)) by (nonlinear_arith)
            requires
                4 * ((m - 1) as int) + lead_bits as int <= bit_length as int,
                bit_length as int <= 8 * (bl as int),
                lead_bits >= 1,
                m >= 1,
        ;
    }
    let outv = pack_hex_digits(&chars, nz, bl);
    proof {
        lemma_pow2_strictly_increases_or_equal(bit_length as nat, 8 * (bl as nat));
        lemma_be_bytes_of_be_val(outv@);
    }
    Ok(outv)
}

/// Monotonicity of `pow2` with a possibly equal exponent.
pub proof fn lemma_pow2_strictly_increases_or_equal(e1: nat, e2: nat)
    requires
        e1 <= e2,
    ensures
        pow2(e1) <= pow2(e2),
{
    if e1 < e2 {
        lemma_pow2_strictly_increases(e1, e2);
    }
}

/// The character an escape sequence stands for.
pub open spec fn unescape_char(c: char) -> char {
    if c == 'n' {
        '\n'
    } else if c == 'r' {
        '\r'
    } else if c == 't' {
        '\t'
    } else if c == 'b' {
        '\u{8}'
    } else if c == 'f' {
        '\u{c}'
    } else {
        c
    }
}

/// Every backslash is followed by the character it escapes.
pub open spec fn ok_escapes(s: Seq<char>) -> bool
    decreases s.len(),
{
    if s.len() == 0 {
        true
    } else if s[0] == '\\' {
        s.len() >= 2 && ok_escapes(s.skip(2))
    } else {
        ok_escapes(s.skip(1))
    }
}

/// The unescaped form of a character sequence.
pub open spec fn spec_unescape(s: Seq<char>) -> Seq<char>
    decreases s.len(),
{
    if s.len() == 0 {
        Seq::empty()
    } else if s[0] == '\\' {
        if s.len() >= 2 {
            seq![unescape_char(s[1])] + spec_unescape(s.skip(2))
        } else {
            Seq::empty()
        }
    } else {
        seq![s[0]] + spec_unescape(s.skip(1))
    }
}

pub proof fn lemma_ok_escapes_app(a: Seq<char>, b: Seq<char>)
    requires
        ok_escapes(a),
        ok_escapes(b),
    ensures
        ok_escapes(a + b),
    decreases a.len(),
{
    if a.len() == 0 {
        assert(a + b =~= b);
    } else if a[0] == '\\' {
        assert((a + b).skip(2) =~= a.skip(2) + b);
        lemma_ok_escapes_app(a.skip(2), b);
    } else {
        assert((a + b).skip(1) =~= a.skip(1) + b);
        lemma_ok_escapes_app(a.skip(1), b);
    }
}

pub proof fn lemma_ok_escapes_split(a: Seq<char>, b: Seq<char>)
    requires
        ok_escapes(a + b),
        ok_escapes(a),
    ensures
        ok_escapes(b),
    decreases a.len(),
{
    if a.len() == 0 {
        assert(a + b =~= b);
    } else if a[0] == '\\' {
        assert((a + b).skip(2) =~= a.skip(2) + b);
        lemma_ok_escapes_split(a.skip(2), b);
    } else {
        assert((a + b).skip(1) =~= a.skip(1) + b);
        lemma_ok_escapes_split(a.skip(1), b);
    }
}

/// Unescaping distributes over concatenation at escape boundaries.
pub proof fn lemma_unescape_app(a: Seq<char>, b: Seq<char>)
    requires
        ok_escapes(a),
    ensures
        spec_unescape(a + b) == spec_unescape(a) + spec_unescape(b),
    decreases a.len(),
{
    if a.len() == 0 {
        assert(a + b =~= b);
        assert(spec_unescape(a) + spec_unescape(b) =~= spec_unescape(b));
    } else if a[0] == '\\' {
        assert((a + b).skip(2) =~= a.skip(2) + b);
        lemma_unescape_app(a.skip(2), b);
        if a.len() == 2 {
            assert((a + b).len() >= 2);
        }
        assert(spec_unescape(a + b) =~= spec_unescape(a) + spec_unescape(b));
    } else {
        assert((a + b).skip(1) =~= a.skip(1) + b);
        lemma_unescape_app(a.skip(1), b);
        assert(spec_unescape(a + b) =~= spec_unescape(a) + spec_unescape(b));
    }
}

/// Removes the surrounding quotes of a string literal and resolves its
/// backslash escapes.
pub fn unescape_string(s: &str) -> (r: String)
    requires
        s@.len() >= 2,
        s@[0] == '"',
        s@[s@.len() - 1] == '"',
        ok_escapes(s@.subrange(1, s@.len() - 1)),
    ensures
        r@ == spec_unescape(s@.subrange(1, s@.len() - 1)),
{
    let chars = str_to_chars(s);
    let n = chars.len();
    let ghost inner = s@.subrange(1, s@.len() - 1);
    let mut out = String::new();
    let mut i: usize = 1;
    proof {
        assert(inner.take(0) =~= Seq::<char>::empty());
    }
    while i < n - 1
        invariant
            1 <= i <= n - 1,
            n == chars@.len(),
            chars@ == s@,
            n >= 2,
            inner == s@.subrange(1, n - 1),
            ok_escapes(inner),
            ok_escapes(inner.take(i - 1)),
            out@ == spec_unescape(inner.take(i - 1)),
        decreases n - 1 - i,
    {
        let c = chars[i];
        let ghost a = inner.take(i - 1);
        proof {
            assert(inner =~= a + inner.skip(i - 1));
            lemma_ok_escapes_split(a, inner.skip(i - 1));
            assert(inner.skip(i - 1)[0] == inner[i - 1]);
            assert(inner[i - 1] == chars@[i as int]);
        }
        if c == '\\' {
            proof {
                assert(ok_escapes(inner.skip(i - 1)));
                assert(inner.skip(i - 1).len() >= 2);
                assert(i + 1 < n - 1);
            }
            let d = chars[i + 1];
            let piece: &str = match d {
                'n' => "\n",
                'r' => "\r",
                't' => "\t",
                'b' => "\u{8}",
                'f' => "\u{c}",
                _ => s.substring_char(i + 1, i + 2),
            };
            proof {
                reveal_strlit("\n");
                reveal_strlit("\r");
                reveal_strlit("\t");
                reveal_strlit("\u{8}");
                reveal_strlit("\u{c}");
                assert(inner[i as int] == chars@[i + 1]);
                assert(piece@ =~= seq![unescape_char(d)]);
                let pair = inner.subrange(i - 1, i + 1);
                assert(pair.len() == 2 && pair[0] == '\\' && pair[1] == d);
                assert(inner.take(i + 1) =~= a + pair);
                lemma_unescape_app(a, pair);
                assert(pair.skip(2) =~= Seq::<char>::empty());
                assert(spec_unescape(Seq::<char>::empty()) == Seq::<char>::empty());
                assert(ok_escapes(Seq::<char>::empty()));
                assert(spec_unescape(pair) =~= seq![unescape_char(d)]);
                assert(ok_escapes(pair));
                lemma_ok_escapes_app(a, pair);
                assert(out@ + piece@ =~= spec_unescape(inner.take(i + 1)));
            }
            out.append(piece);
            i += 2;
        } else {
            let piece = s.substring_char(i, i + 1);
            proof {
                assert(piece@ =~= seq![inner[i - 1]]);
                let single = inner.subrange(i - 1, i as int);
                assert(single.len() == 1 && single[0] == inner[i - 1]);
                assert(inner.take(i as int) =~= a + single);
                lemma_unescape_app(a, single);
                assert(single.skip(1) =~= Seq::<char>::empty());
                assert(spec_unescape(Seq::<char>::empty()) == Seq::<char>::empty());
                assert(ok_escapes(Seq::<char>::empty()));
                assert(spec_unescape(single) =~= seq![inner[i - 1]]);
                assert(ok_escapes(single));
                lemma_ok_escapes_app(a, single);
                assert(out@ + piece@ =~= spec_unescape(inner.take(i as int)));
            }
            out.append(piece);
            i += 1;
        }
    }
    proof {
        assert(inner.take(i - 1) =~= inner);
    }
    out
}

/// Decides whether a string is a well-formed hex literal.
pub fn is_wf_hex_literal(s: &str) -> (r: bool)
    ensures
        r == wf_hex_literal(s@),
{
    let chars = str_to_chars(s);
    let n = chars.len();
    let start: usize = if n >= 2 && chars[0] == '0' && chars[1] == 'x' {
        2
    } else {
        0
    };
    let ghost digits = strip_hex_prefix(s@);
    proof {
        assert(digits =~= chars@.subrange(start as int, n as int));
    }
    if n == start {
        return false;
    }
    let mut i: usize = start;
    while i < n
        invariant
            start <= i <= n,
            n == chars@.len(),
            digits == strip_hex_prefix(s@),
            digits == chars@.subrange(start as int, n as int),
            forall|p: int| 0 <= p < i - start ==> is_hex_digit(#[trigger] digits[p]),
        decreases n - i,
    {
        let ok = match chars[i] {
            '0' => true,
            '1' => true,
            '2' => true,
            '3' => true,
            '4' => true,
            '5' => true,
            '6' => true,
            '7' => true,
            '8' => true,
            '9' => true,
            'a' => true,
            'b' => true,
            'c' => true,
            'd' => true,
            'e' => true,
            'f' => true,
            'A' => true,
            'B' => true,
            'C' => true,
            'D' => true,
            'E' => true,
            'F' => true,
            _ => false,
        };
        if !ok {
            proof {
                assert(digits[i - start] == chars@[i as int]);
                assert(!is_hex_digit(digits[i - start]));
            }
            return false;
        }
        i += 1;
    }
    true
}

} // verus!
