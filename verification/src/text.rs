//! Small verified text-building utilities shared by the exporters.

use vstd::prelude::*;
use vstd::utf8::{encode_scalar, encode_utf8, has_width_1_encoding, is_scalar};

verus! {

/// Appends one character to `s` (`String::push`).
#[verifier::external_body]
pub(crate) fn push_char(s: &mut String, c: char)
    ensures
        final(s)@ == old(s)@.push(c),
{
    s.push(c);
}

/// Appends `t` to `s`.
pub fn push_str(s: &mut String, t: &str)
    ensures
        final(s)@ == old(s)@ + t@,
{
    s.append(t);
}

/// An owned copy of a string slice.
pub fn owned(t: &str) -> (s: String)
    ensures
        s@ == t@,
{
    String::from_str(t)
}

/// The characters of `s`, in order.
pub fn chars_of(s: &str) -> (v: Vec<char>)
    ensures
        v@ == s@,
{
    let mut v: Vec<char> = Vec::new();
    for c in it: s.chars()
        invariant
            v@ == it.seq().take(it.index() as int),
    {
        v.push(c);
    }
    v
}

/// ASCII digit for a value below ten.
pub open spec fn digit(d: nat) -> char {
    ((d + 48) as char)
}

/// Decimal rendering of a natural number, without leading zeros.
pub open spec fn dec(n: nat) -> Seq<char>
    decreases n,
{
    if n < 10 {
        seq![digit(n)]
    } else {
        dec(n / 10).push(digit(n % 10))
    }
}

/// Decimal rendering of an integer, with a leading `-` when negative.
pub open spec fn dec_int(i: int) -> Seq<char> {
    if i < 0 {
        seq!['-'] + dec((-i) as nat)
    } else {
        dec(i as nat)
    }
}

/// Appends the decimal rendering of `n`.
pub fn push_decimal(out: &mut String, n: u64)
    ensures
        final(out)@ == old(out)@ + dec(n as nat),
    decreases n,
{
    if n >= 10 {
        push_decimal(out, n / 10);
    }
    let d: u8 = (n % 10) as u8;
    push_char(out, (d + 48) as char);
    assert(final(out)@ =~= old(out)@ + dec(n as nat)) by {
        if n >= 10 {
            assert(dec(n as nat) == dec((n / 10) as nat).push(digit((n % 10) as nat)));
        }
    }
}

/// Appends the decimal rendering of `n`.
pub fn push_usize(out: &mut String, n: usize)
    ensures
        final(out)@ == old(out)@ + dec(n as nat),
{
    push_decimal(out, n as u64);
}

/// Appends the decimal rendering of a signed value.
pub fn push_i32(out: &mut String, v: i32)
    ensures
        final(out)@ == old(out)@ + dec_int(v as int),
{
    if v < 0 {
        push_char(out, '-');
        let m: u64 = (0i64 - (v as i64)) as u64;
        push_decimal(out, m);
        assert(final(out)@ =~= old(out)@ + dec_int(v as int));
    } else {
        push_decimal(out, v as u64);
    }
}

/// Upper-case hexadecimal digit for a value below sixteen.
pub open spec fn hex_digit(d: nat) -> char {
    if d < 10 {
        ((d + 48) as char)
    } else {
        ((d + 55) as char)
    }
}

/// The lowest `width` hexadecimal digits of `v`, most significant first.
pub open spec fn hex_fixed(v: nat, width: nat) -> Seq<char>
    decreases width,
{
    if width == 0 {
        Seq::empty()
    } else {
        hex_fixed(v / 16, (width - 1) as nat).push(hex_digit(v % 16))
    }
}

/// Appends the lowest `width` upper-case hexadecimal digits of `v`.
pub fn push_hex_fixed(out: &mut String, v: u32, width: u32)
    ensures
        final(out)@ == old(out)@ + hex_fixed(v as nat, width as nat),
    decreases width,
{
    if width == 0 {
        assert(final(out)@ =~= old(out)@ + hex_fixed(v as nat, width as nat));
        return;
    }
    push_hex_fixed(out, v / 16, width - 1);
    let d: u8 = (v % 16) as u8;
    if d < 10 {
        push_char(out, (d + 48) as char);
    } else {
        push_char(out, (d + 55) as char);
    }
    assert(final(out)@ =~= old(out)@ + hex_fixed(v as nat, width as nat));
}

/// `s` repeated `n` times.
pub open spec fn repeat(s: Seq<char>, n: nat) -> Seq<char>
    decreases n,
{
    if n == 0 {
        Seq::empty()
    } else {
        repeat(s, (n - 1) as nat) + s
    }
}

/// Appends `t` repeated `n` times.
pub fn push_repeat(out: &mut String, t: &str, n: usize)
    ensures
        final(out)@ == old(out)@ + repeat(t@, n as nat),
{
    let ghost start = out@;
    let mut i: usize = 0;
    while i < n
        invariant
            i <= n,
            out@ == start + repeat(t@, i as nat),
        decreases n - i,
    {
        push_str(out, t);
        i += 1;
        assert(out@ =~= start + repeat(t@, i as nat));
    }
}

/// Whether `s` ends with two newline characters.
pub open spec fn ends_with_blank_line(s: Seq<char>) -> bool {
    s.len() >= 2 && s[s.len() - 1] == '\n' && s[s.len() - 2] == '\n'
}

/// The UTF-8 encoding of `s` followed by `c` is that of `s` followed by
/// that of `c`.
proof fn lemma_encode_utf8_push(s: Seq<char>, c: char)
    ensures
        encode_utf8(s.push(c)) == encode_utf8(s) + encode_scalar(c as u32),
    decreases s.len(),
{
    if s.len() == 0 {
        assert(s.push(c).drop_first() =~= Seq::<char>::empty());
        assert(s.push(c)[0] == c);
        assert(encode_utf8(Seq::<char>::empty()) =~= Seq::<u8>::empty());
        assert(encode_utf8(s) =~= Seq::<u8>::empty());
        assert(encode_utf8(s.push(c)) =~= encode_scalar(c as u32) + Seq::<u8>::empty());
    } else {
        assert(s.push(c).drop_first() =~= s.drop_first().push(c));
        lemma_encode_utf8_push(s.drop_first(), c);
        assert(encode_utf8(s.push(c)) =~= encode_utf8(s) + encode_scalar(c as u32));
    }
}

/// The encoding of a character ends with the byte 0x0A exactly when the
/// character is a newline, whose encoding is that one byte.
proof fn lemma_encode_scalar_newline(c: char)
    ensures
        encode_scalar(c as u32).len() >= 1,
        (encode_scalar(c as u32).last() == 10u8) == (c == '\n'),
        c == '\n' ==> encode_scalar(c as u32) == seq![10u8],
{
    let u = c as u32;
    assert(is_scalar(u)) by {
        vstd::utf8::char_is_scalar(c);
    }
    if has_width_1_encoding(u) {
        assert(((u & 0x7F) as u8 == 10u8) == (u == 10u32)) by (bit_vector)
            requires
                u <= 0x7F,
        ;
    } else {
        assert(0x80u8 | (u & 0x3F) as u8 != 10u8) by (bit_vector);
    }
    assert((c == '\n') == (u == 10u32)) by {
        vstd::utf8::char_u32_cast(c, u);
    }
}

/// `s` ends with a blank line exactly when its UTF-8 encoding ends with two
/// 0x0A bytes.
proof fn lemma_blank_line_bytes(s: Seq<char>)
    ensures
        ({
            let b = encode_utf8(s);
            ends_with_blank_line(s) == (b.len() >= 2 && b[b.len() - 1] == 10u8 && b[b.len() - 2]
                == 10u8)
        }),
{
    if s.len() == 0 {
        assert(encode_utf8(s) =~= Seq::<u8>::empty());
    } else {
        let p = s.drop_last();
        let c = s.last();
        assert(p.push(c) =~= s);
        lemma_encode_utf8_push(p, c);
        lemma_encode_scalar_newline(c);
        let b = encode_utf8(s);
        assert(b.last() == encode_scalar(c as u32).last());
        if c == '\n' {
            assert(b =~= encode_utf8(p).push(10u8));
            if p.len() == 0 {
                assert(encode_utf8(p) =~= Seq::<u8>::empty());
            } else {
                let q = p.drop_last();
                let d = p.last();
                assert(q.push(d) =~= p);
                lemma_encode_utf8_push(q, d);
                lemma_encode_scalar_newline(d);
                assert(encode_utf8(p).last() == encode_scalar(d as u32).last());
                assert(s[s.len() - 2] == d);
            }
        }
    }
}

/// Executable form of [`ends_with_blank_line`].
pub fn ends_with_two_newlines(s: &String) -> (r: bool)
    ensures
        r == ends_with_blank_line(s@),
{
    let b = s.as_str().as_bytes();
    let n = b.len();
    proof {
        lemma_blank_line_bytes(s@);
    }
    n >= 2 && b[n - 1] == 10u8 && b[n - 2] == 10u8
}

/// Unicode `White_Space`, as `char::is_whitespace` defines it.
pub open spec fn is_ws(c: char) -> bool {
    let u = c as u32;
    ||| (0x9 <= u && u <= 0xD)
    ||| u == 0x20
    ||| u == 0x85
    ||| u == 0xA0
    ||| u == 0x1680
    ||| (0x2000 <= u && u <= 0x200A)
    ||| u == 0x2028
    ||| u == 0x2029
    ||| u == 0x202F
    ||| u == 0x205F
    ||| u == 0x3000
}

/// Executable form of [`is_ws`].
pub fn is_ws_exec(c: char) -> (r: bool)
    ensures
        r == is_ws(c),
{
    let u = c as u32;
    (0x9 <= u && u <= 0xD) || u == 0x20 || u == 0x85 || u == 0xA0 || u == 0x1680 || (0x2000
        <= u && u <= 0x200A) || u == 0x2028 || u == 0x2029 || u == 0x202F || u == 0x205F || u
        == 0x3000
}

/// `s` without leading white space.
pub open spec fn trim_start(s: Seq<char>) -> Seq<char>
    decreases s.len(),
{
    if s.len() > 0 && is_ws(s[0]) {
        trim_start(s.drop_first())
    } else {
        s
    }
}

/// `s` without trailing white space.
pub open spec fn trim_end(s: Seq<char>) -> Seq<char>
    decreases s.len(),
{
    if s.len() > 0 && is_ws(s.last()) {
        trim_end(s.drop_last())
    } else {
        s
    }
}

/// `s` without leading or trailing white space (`str::trim`).
pub open spec fn trim(s: Seq<char>) -> Seq<char> {
    trim_end(trim_start(s))
}

proof fn lemma_trim_start_skip(s: Seq<char>, i: int)
    requires
        0 <= i <= s.len(),
        forall|j: int| 0 <= j < i ==> is_ws(#[trigger] s[j]),
    ensures
        trim_start(s) == trim_start(s.subrange(i, s.len() as int)),
    decreases i,
{
    if i > 0 {
        assert(s.drop_first().subrange(i - 1, s.drop_first().len() as int) =~= s.subrange(
            i,
            s.len() as int,
        ));
        lemma_trim_start_skip(s.drop_first(), i - 1);
    } else {
        assert(s.subrange(0, s.len() as int) =~= s);
    }
}

proof fn lemma_trim_end_cut(s: Seq<char>, e: int)
    requires
        0 <= e <= s.len(),
        forall|j: int| e <= j < s.len() ==> is_ws(#[trigger] s[j]),
    ensures
        trim_end(s) == trim_end(s.subrange(0, e)),
    decreases s.len() - e,
{
    if e < s.len() {
        assert(s.drop_last().subrange(0, e) =~= s.subrange(0, e));
        lemma_trim_end_cut(s.drop_last(), e);
    } else {
        assert(s.subrange(0, e) =~= s);
    }
}

/// `s` without leading or trailing white space.
pub fn trim_string(s: &String) -> (r: String)
    ensures
        r@ == trim(s@),
{
    let cs = chars_of(s.as_str());
    let n = cs.len();
    let mut a: usize = 0;
    while a < n && is_ws_exec(cs[a])
        invariant
            a <= n,
            n == cs@.len(),
            forall|j: int| 0 <= j < a ==> is_ws(#[trigger] cs@[j]),
        decreases n - a,
    {
        a += 1;
    }
    proof {
        lemma_trim_start_skip(cs@, a as int);
    }
    let ghost rest = cs@.subrange(a as int, n as int);
    assert(trim_start(cs@) == rest) by {
        if rest.len() > 0 {
            assert(rest[0] == cs@[a as int]);
        }
    }
    let mut b: usize = n;
    while b > a && is_ws_exec(cs[b - 1])
        invariant
            a <= b <= n,
            n == cs@.len(),
            forall|j: int| b <= j < n ==> is_ws(#[trigger] cs@[j]),
        decreases b,
    {
        b -= 1;
    }
    proof {
        assert forall|j: int| (b - a) <= j < rest.len() implies is_ws(#[trigger] rest[j]) by {
            assert(rest[j] == cs@[a + j]);
        }
        lemma_trim_end_cut(rest, (b - a) as int);
        let kept = rest.subrange(0, (b - a) as int);
        if kept.len() > 0 {
            assert(kept.last() == cs@[b - 1]);
        }
        assert(trim_end(kept) == kept);
    }
    let mut r = String::new();
    let mut i: usize = a;
    while i < b
        invariant
            a <= i <= b <= n,
            n == cs@.len(),
            r@ == cs@.subrange(a as int, i as int),
        decreases b - i,
    {
        push_char(&mut r, cs[i]);
        i += 1;
        assert(r@ =~= cs@.subrange(a as int, i as int));
    }
    assert(r@ =~= rest.subrange(0, (b - a) as int));
    r
}

} // verus!

verus! {

/// Whether `s` holds no character.
pub fn is_blank_string(s: &String) -> (b: bool)
    ensures
        b == (s@.len() == 0),
{
    s.as_str().is_empty()
}

} // verus!
