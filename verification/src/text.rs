//! Text as a sequence of characters: comparing, searching, trimming and
//! printing numbers.
//!
//! Everything here is stated over `Seq<char>`, the view of `str` and `String`.

use vstd::arithmetic::power2;
use vstd::prelude::*;
use vstd::string::StringSliceAdditionalSpecFns;
use vstd::utf8;

verus! {

/// `String::push`: appends one character.
pub assume_specification[ std::string::String::push ](s: &mut std::string::String, c: char)
    ensures
        final(s)@ == old(s)@.push(c),
;

/// `pat` stands in `hay` from position `i` on.
pub open spec fn occurs_at(hay: Seq<char>, pat: Seq<char>, i: int) -> bool {
    &&& 0 <= i
    &&& i + pat.len() <= hay.len()
    &&& hay.subrange(i, i + pat.len()) == pat
}

/// `pat` stands somewhere in `hay`.
pub open spec fn contains_text(hay: Seq<char>, pat: Seq<char>) -> bool {
    exists|i: int| #[trigger] occurs_at(hay, pat, i)
}

/// The lower case of an ASCII letter; every other character is itself.
pub open spec fn lower_char(c: char) -> char {
    if 'A' <= c && c <= 'Z' {
        (c as u32 + 32) as char
    } else {
        c
    }
}

/// `s` with its ASCII letters in lower case.
pub open spec fn ascii_lowercase(s: Seq<char>) -> Seq<char> {
    Seq::new(s.len(), |i: int| lower_char(s[i]))
}

/// The characters with the Unicode property White_Space.
pub open spec fn is_white_space(c: char) -> bool {
    let u = c as u32;
    ||| 0x09 <= u <= 0x0d
    ||| u == 0x20
    ||| u == 0x85
    ||| u == 0xa0
    ||| u == 0x1680
    ||| 0x2000 <= u <= 0x200a
    ||| u == 0x2028
    ||| u == 0x2029
    ||| u == 0x202f
    ||| u == 0x205f
    ||| u == 0x3000
}

/// `s` without the white space it starts with.
pub open spec fn trim_start(s: Seq<char>) -> Seq<char>
    decreases s.len(),
{
    if s.len() > 0 && is_white_space(s[0]) {
        trim_start(s.drop_first())
    } else {
        s
    }
}

/// `s` without the white space it ends with.
pub open spec fn trim_end(s: Seq<char>) -> Seq<char>
    decreases s.len(),
{
    if s.len() > 0 && is_white_space(s.last()) {
        trim_end(s.drop_last())
    } else {
        s
    }
}

/// `s` without white space at either end.
pub open spec fn trimmed(s: Seq<char>) -> Seq<char> {
    trim_end(trim_start(s))
}

/// An ASCII hexadecimal digit in either case.
pub open spec fn is_hex_digit(c: char) -> bool {
    ||| '0' <= c && c <= '9'
    ||| 'a' <= c && c <= 'f'
    ||| 'A' <= c && c <= 'F'
}

/// The character of a decimal digit.
pub open spec fn digit_char(d: int) -> char {
    (48 + d) as char
}

/// The decimal digits of `n`, without leading zeros.
pub open spec fn decimal(n: nat) -> Seq<char>
    decreases n,
{
    if n < 10 {
        seq![digit_char(n as int)]
    } else {
        decimal(n / 10).push(digit_char((n % 10) as int))
    }
}

/// `n` zeros.
pub open spec fn zeros(n: int) -> Seq<char> {
    Seq::new(if n < 0 { 0 } else { n as nat }, |i: int| '0')
}

/// The decimal digits of `n`, led by zeros up to `width` characters.
pub open spec fn padded(n: nat, width: int) -> Seq<char> {
    zeros(width - decimal(n).len()) + decimal(n)
}

/// As `padded`, for a number with a sign: the sign counts towards the width
/// and stands in front of the zeros.
pub open spec fn padded_signed(n: int, width: int) -> Seq<char> {
    if n < 0 {
        seq!['-'] + padded((-n) as nat, width - 1)
    } else {
        padded(n as nat, width)
    }
}

/// The character of a hexadecimal digit, in lower case.
pub open spec fn hex_char(d: int) -> char {
    if d < 10 {
        (48 + d) as char
    } else {
        (87 + d) as char
    }
}

/// The lowest `count` hexadecimal digits of `n`, the highest of them first.
pub open spec fn hex(n: nat, count: nat) -> Seq<char>
    decreases count,
{
    if count == 0 {
        Seq::empty()
    } else {
        hex(n / 16, (count - 1) as nat).push(hex_char((n % 16) as int))
    }
}

/// Do two texts hold the same characters?
pub fn same_text(a: &str, b: &str) -> (r: bool)
    ensures
        r == (a@ == b@),
{
    let x = a.as_bytes();
    let y = b.as_bytes();
    proof {
        utf8::encode_utf8_decode_utf8(a@);
        utf8::encode_utf8_decode_utf8(b@);
    }
    if x.len() != y.len() {
        return false;
    }
    let mut i: usize = 0;
    while i < x.len()
        invariant
            x@ == utf8::encode_utf8(a@),
            y@ == utf8::encode_utf8(b@),
            x.len() == y.len(),
            i <= x.len(),
            forall|j: int| 0 <= j < i ==> x@[j] == y@[j],
        decreases x.len() - i,
    {
        if x[i] != y[i] {
            return false;
        }
        i += 1;
    }
    assert(x@ =~= y@);
    true
}

/// The characters of a text.
pub fn to_chars(s: &str) -> (v: Vec<char>)
    ensures
        v@ == s@,
{
    let mut v: Vec<char> = Vec::new();
    for c in it: s.chars()
        invariant
            it.seq() == s@,
            v@ == s@.take(it.index()),
    {
        v.push(c);
    }
    v
}

/// The text of a run of characters.
pub fn from_chars(v: &[char]) -> (s: String)
    ensures
        s@ == v@,
{
    let mut s = String::new();
    let mut i: usize = 0;
    while i < v.len()
        invariant
            i <= v.len(),
            s@ == v@.take(i as int),
        decreases v.len() - i,
    {
        s.push(v[i]);
        i += 1;
    }
    assert(v@.take(i as int) =~= v@);
    s
}

/// Does `pat` stand in `hay`?
pub fn contains(hay: &Vec<char>, pat: &str) -> (r: bool)
    ensures
        r == contains_text(hay@, pat@),
{
    let p = to_chars(pat);
    if p.len() > hay.len() {
        return false;
    }
    let last = hay.len() - p.len();
    let mut i: usize = 0;
    while i <= last
        invariant
            p@ == pat@,
            last == hay.len() - p.len(),
            i <= last + 1,
            forall|k: int| 0 <= k < i ==> !occurs_at(hay@, pat@, k),
        decreases last + 1 - i,
    {
        let mut j: usize = 0;
        while j < p.len() && hay[i + j] == p[j]
            invariant
                p@ == pat@,
                last == hay.len() - p.len(),
                i <= last,
                j <= p.len(),
                forall|k: int| 0 <= k < j ==> hay@[i + k] == p@[k],
            decreases p.len() - j,
        {
            j += 1;
        }
        if j == p.len() {
            assert(hay@.subrange(i as int, i + pat@.len()) =~= pat@);
            assert(occurs_at(hay@, pat@, i as int));
            return true;
        }
        assert(hay@.subrange(i as int, i + pat@.len())[j as int] == hay@[i + j]);
        assert(!occurs_at(hay@, pat@, i as int));
        if i == last {
            return false;
        }
        i += 1;
    }
    false
}

/// The lower case of an ASCII letter.
pub fn to_lower_char(c: char) -> (r: char)
    ensures
        r == lower_char(c),
{
    if 'A' <= c && c <= 'Z' {
        (c as u8 + 32) as char
    } else {
        c
    }
}

/// The characters of `s` with ASCII letters in lower case.
pub fn to_ascii_lowercase(s: &str) -> (v: Vec<char>)
    ensures
        v@ == ascii_lowercase(s@),
{
    let mut v: Vec<char> = Vec::new();
    for c in it: s.chars()
        invariant
            it.seq() == s@,
            v@ == ascii_lowercase(s@).take(it.index()),
    {
        v.push(to_lower_char(c));
    }
    assert(ascii_lowercase(s@).take(s@.len() as int) =~= ascii_lowercase(s@));
    v
}

/// Is this character white space?
pub fn white_space(c: char) -> (r: bool)
    ensures
        r == is_white_space(c),
{
    let u = c as u32;
    (0x09 <= u && u <= 0x0d) || u == 0x20 || u == 0x85 || u == 0xa0 || u == 0x1680 || (0x2000 <= u
        && u <= 0x200a) || u == 0x2028 || u == 0x2029 || u == 0x202f || u == 0x205f || u == 0x3000
}

/// The text without white space at either end.
pub fn trim(s: &str) -> (r: Vec<char>)
    ensures
        r@ == trimmed(s@),
{
    let v = to_chars(s);
    let mut start: usize = 0;
    assert(v@.skip(0) =~= v@);
    while start < v.len() && white_space(v[start])
        invariant
            start <= v.len(),
            trim_start(v@) == trim_start(v@.skip(start as int)),
        decreases v.len() - start,
    {
        assert(v@.skip(start as int).drop_first() =~= v@.skip(start + 1));
        start += 1;
    }
    let ghost from = v@.skip(start as int);
    assert(trim_start(v@) == from);
    let mut end: usize = v.len();
    assert(from.take(end - start) =~= from);
    while end > start && white_space(v[end - 1])
        invariant
            start <= end <= v.len(),
            from == v@.skip(start as int),
            trim_end(from) == trim_end(from.take(end - start)),
        decreases end - start,
    {
        assert(from.take(end - start).drop_last() =~= from.take(end - start - 1));
        end -= 1;
    }
    let mut r: Vec<char> = Vec::new();
    let mut i = start;
    while i < end
        invariant
            start <= i <= end <= v.len(),
            from == v@.skip(start as int),
            r@ == from.take(i - start),
        decreases end - i,
    {
        r.push(v[i]);
        i += 1;
    }
    r
}

/// Is this character a hexadecimal digit?
pub fn hex_digit(c: char) -> (r: bool)
    ensures
        r == is_hex_digit(c),
{
    ('0' <= c && c <= '9') || ('a' <= c && c <= 'f') || ('A' <= c && c <= 'F')
}

/// Append the decimal digits of `n`.
pub fn push_decimal(out: &mut String, n: u128)
    ensures
        final(out)@ == old(out)@ + decimal(n as nat),
    decreases n,
{
    if n >= 10 {
        push_decimal(out, n / 10);
    }
    let d = (n % 10) as u8;
    out.push((48 + d) as char);
}

/// How many decimal digits `n` has.
fn decimal_len(n: u64) -> (len: u64)
    ensures
        len == decimal(n as nat).len(),
        1 <= len <= 1 + n / 10,
    decreases n,
{
    if n < 10 {
        1
    } else {
        1 + decimal_len(n / 10)
    }
}

/// Append the decimal digits of `n`, led by zeros up to `width` characters.
pub fn push_padded(out: &mut String, n: u64, width: u64)
    ensures
        final(out)@ == old(out)@ + padded(n as nat, width as int),
{
    let len = decimal_len(n);
    let missing: u64 = if len < width {
        width - len
    } else {
        0
    };
    let ghost before = out@;
    let mut i: u64 = 0;
    while i < missing
        invariant
            i <= missing,
            out@ == before + zeros(i as int),
        decreases missing - i,
    {
        out.push('0');
        i += 1;
        assert(out@ =~= before + zeros(i as int));
    }
    push_decimal(out, n as u128);
}

/// As `push_padded`, for a number with a sign.
pub fn push_padded_signed(out: &mut String, n: i64, width: u64)
    requires
        n > i64::MIN,
        width > 0,
    ensures
        final(out)@ == old(out)@ + padded_signed(n as int, width as int),
{
    if n < 0 {
        out.push('-');
        push_padded(out, (-n) as u64, width - 1);
    } else {
        push_padded(out, n as u64, width);
    }
}

/// Append the lowest `count` hexadecimal digits of `n`.
pub fn push_hex(out: &mut String, n: u64, count: u64)
    ensures
        final(out)@ == old(out)@ + hex(n as nat, count as nat),
    decreases count,
{
    if count > 0 {
        push_hex(out, n / 16, count - 1);
        let d = (n % 16) as u8;
        if d < 10 {
            out.push((48 + d) as char);
        } else {
            out.push((87 + d) as char);
        }
    }
}

/// The number that decimal digits spell.
pub open spec fn spelled(s: Seq<char>) -> int
    decreases s.len(),
{
    if s.len() == 0 {
        0
    } else {
        spelled(s.drop_last()) * 10 + (s.last() as int - '0' as int)
    }
}

/// The decimal digits of a number spell it, and have no zero in front.
pub proof fn law_decimal_digits_spell_their_number(n: nat)
    ensures
        spelled(decimal(n)) == n,
        decimal(n).len() >= 1,
        forall|i: int| 0 <= i < decimal(n).len() ==> '0' <= #[trigger] decimal(n)[i] <= '9',
        decimal(n)[0] == '0' ==> n == 0,
        n < 10 <==> decimal(n).len() == 1,
    decreases n,
{
    let s = decimal(n);
    if n < 10 {
        assert(s.drop_last() =~= Seq::empty());
        assert(s.last() as int == 48 + n);
        assert(spelled(s.drop_last()) == 0);
        assert(spelled(s) == n);
    } else {
        law_decimal_digits_spell_their_number(n / 10);
        assert(s.drop_last() =~= decimal(n / 10));
        assert(s.last() as int == 48 + n % 10);
        assert forall|i: int| 0 <= i < s.len() implies '0' <= #[trigger] s[i] <= '9' by {
            if i < s.len() - 1 {
                assert(s[i] == decimal(n / 10)[i]);
            }
        }
        assert(s[0] == decimal(n / 10)[0]);
    }
}

/// Zeros in front change nothing of what is spelled.
proof fn lemma_spelled_after_zeros(k: int, s: Seq<char>)
    requires
        k >= 0,
    ensures
        spelled(zeros(k) + s) == spelled(s),
    decreases s.len(), k,
{
    let t = zeros(k) + s;
    if s.len() > 0 {
        assert(t.drop_last() =~= zeros(k) + s.drop_last());
        assert(t.last() == s.last());
        lemma_spelled_after_zeros(k, s.drop_last());
    } else if k > 0 {
        assert(t.drop_last() =~= zeros(k - 1) + s);
        lemma_spelled_after_zeros(k - 1, s);
    } else {
        assert(t =~= s);
    }
}

/// A number that is led by zeros spells the same, and is as wide as was asked for,
/// unless it has more digits than that.
pub proof fn law_padding_changes_no_number(n: nat, width: int)
    ensures
        spelled(padded(n, width)) == n,
        decimal(n).len() <= width ==> padded(n, width).len() == width,
        decimal(n).len() > width ==> padded(n, width) == decimal(n),
        forall|i: int|
            0 <= i < padded(n, width).len() ==> '0' <= #[trigger] padded(n, width)[i] <= '9',
{
    law_decimal_digits_spell_their_number(n);
    let k = width - decimal(n).len();
    if k >= 0 {
        lemma_spelled_after_zeros(k, decimal(n));
    } else {
        assert(padded(n, width) =~= decimal(n));
    }
}

/// A number below a power of ten has no more digits than its exponent.
pub proof fn law_small_numbers_have_few_digits(n: nat)
    ensures
        n < 100 ==> decimal(n).len() <= 2,
        n < 10_000 ==> decimal(n).len() <= 4,
{
    reveal_with_fuel(decimal, 5);
}

/// What a hexadecimal digit is worth.
pub open spec fn hex_worth(c: char) -> int {
    if '0' <= c && c <= '9' {
        c as int - '0' as int
    } else {
        c as int - 'a' as int + 10
    }
}

/// The number that hexadecimal digits spell.
pub open spec fn hex_spelled(s: Seq<char>) -> int
    decreases s.len(),
{
    if s.len() == 0 {
        0
    } else {
        hex_spelled(s.drop_last()) * 16 + hex_worth(s.last())
    }
}

/// Hexadecimal digits spell their number, where there are enough of them, and are in
/// lower case.
pub proof fn law_hex_digits_spell_their_number(n: nat, count: nat)
    ensures
        hex(n, count).len() == count,
        n < power2::pow2(4 * count) ==> hex_spelled(hex(n, count)) == n,
        forall|i: int|
            0 <= i < count ==> ('0' <= #[trigger] hex(n, count)[i] <= '9') || ('a' <= hex(
                n,
                count,
            )[i] <= 'f'),
    decreases count,
{
    power2::lemma2_to64();
    if count > 0 {
        let less = (count - 1) as nat;
        let s = hex(n, count);
        law_hex_digits_spell_their_number(n / 16, less);
        assert(s.drop_last() =~= hex(n / 16, less));
        power2::lemma_pow2_adds(4, 4 * less);
        let p = power2::pow2(4 * less);
        assert(power2::pow2(4 * count) == 16 * p);
        if n < 16 * p {
            assert(n / 16 < p);
        }
        let d = n % 16;
        assert(hex_worth(s.last()) == d);
        assert forall|i: int| 0 <= i < count implies ('0' <= #[trigger] s[i] <= '9') || ('a'
            <= s[i] <= 'f') by {
            if i < less {
                assert(s[i] == hex(n / 16, less)[i]);
            }
        }
    }
}

/// All characters are white space.
pub open spec fn all_white(s: Seq<char>) -> bool {
    forall|i: int| 0 <= i < s.len() ==> is_white_space(#[trigger] s[i])
}

/// A trimmed text is the text without white space before and after it: what was cut
/// off is white space, and what is left neither starts nor ends with any.
pub proof fn law_trimming_cuts_white_space_only(s: Seq<char>) -> (cut: (Seq<char>, Seq<char>))
    ensures
        s == cut.0 + trimmed(s) + cut.1,
        all_white(cut.0),
        all_white(cut.1),
        trimmed(s).len() > 0 ==> !is_white_space(trimmed(s)[0]) && !is_white_space(
            trimmed(s).last(),
        ),
{
    let a = lemma_trim_start(s);
    let b = lemma_trim_end(trim_start(s));
    assert(s =~= a + trimmed(s) + b);
    if trimmed(s).len() > 0 {
        assert(trimmed(s)[0] == trim_start(s)[0]);
    }
    (a, b)
}

proof fn lemma_trim_start(s: Seq<char>) -> (cut: Seq<char>)
    ensures
        s == cut + trim_start(s),
        all_white(cut),
        trim_start(s).len() > 0 ==> !is_white_space(trim_start(s)[0]),
    decreases s.len(),
{
    if s.len() > 0 && is_white_space(s[0]) {
        let c = lemma_trim_start(s.drop_first());
        let cut = seq![s[0]] + c;
        let rest = s.drop_first();
        assert(trim_start(s) == trim_start(rest));
        assert(s =~= seq![s[0]] + rest);
        assert(seq![s[0]] + (c + trim_start(rest)) =~= cut + trim_start(rest));
        assert forall|i: int| 0 <= i < cut.len() implies is_white_space(#[trigger] cut[i]) by {
            if i > 0 {
                assert(cut[i] == c[i - 1]);
            }
        }
        cut
    } else {
        assert(s =~= Seq::<char>::empty() + s);
        Seq::empty()
    }
}

proof fn lemma_trim_end(s: Seq<char>) -> (cut: Seq<char>)
    ensures
        s == trim_end(s) + cut,
        all_white(cut),
        trim_end(s).len() > 0 ==> !is_white_space(trim_end(s).last()),
    decreases s.len(),
{
    if s.len() > 0 && is_white_space(s.last()) {
        let c = lemma_trim_end(s.drop_last());
        let cut = c.push(s.last());
        let rest = s.drop_last();
        assert(trim_end(s) == trim_end(rest));
        assert(s =~= rest.push(s.last()));
        assert((trim_end(rest) + c).push(s.last()) =~= trim_end(rest) + cut);
        assert forall|i: int| 0 <= i < cut.len() implies is_white_space(#[trigger] cut[i]) by {
            if i < c.len() {
                assert(cut[i] == c[i]);
            }
        }
        cut
    } else {
        assert(s =~= s + Seq::<char>::empty());
        Seq::empty()
    }
}

/// White space is what Unicode says it is: in ASCII the space and the five controls
/// from tab to carriage return, and no letter, digit or sign.
pub proof fn law_white_space_is_no_sign(c: char)
    ensures
        (c as u32) < 0x80 ==> (is_white_space(c) <==> c == ' ' || 9 <= c as u32 <= 13),
        c as u32 == 0xa0 || c as u32 == 0x3000 || c as u32 == 0x2003 ==> is_white_space(c),
        c as u32 > 0x3000 ==> !is_white_space(c),
{
}

/// Lower case changes the 26 capital letters of ASCII and no other character, and
/// keeps the length of a text.
pub proof fn law_lower_case_changes_capitals_only(s: Seq<char>, i: int)
    requires
        0 <= i < s.len(),
    ensures
        ascii_lowercase(s).len() == s.len(),
        'A' <= s[i] <= 'Z' ==> ascii_lowercase(s)[i] as int == s[i] as int + 32,
        !('A' <= s[i] <= 'Z') ==> ascii_lowercase(s)[i] == s[i],
{
}

/// A text stands in another where that is something, the text, and something more.
pub proof fn law_a_text_stands_in_what_is_put_around_it(a: Seq<char>, s: Seq<char>, b: Seq<char>)
    ensures
        contains_text(a + s + b, s),
{
    assert((a + s + b).subrange(a.len() as int, a.len() as int + s.len()) =~= s);
    assert(occurs_at(a + s + b, s, a.len() as int));
}

/// The codes of white space, all of them.
pub open spec fn white_codes() -> Seq<u32> {
    seq![
        9u32, 10, 11, 12, 13, 32, 0x85, 0xa0, 0x1680, 0x2000, 0x2001, 0x2002, 0x2003, 0x2004, 0x2005, 0x2006, 0x2007, 0x2008, 0x2009, 0x200a, 0x2028, 0x2029, 0x202f, 0x205f, 0x3000,
    ]
}

/// White space is what has one of these codes, and nothing else.
pub proof fn law_white_space_is_listed(c: char)
    ensures
        is_white_space(c) <==> white_codes().contains(c as u32),
{
    let t = white_codes();
    let u = c as u32;
    assert(t[0] == 9);
    assert(t[1] == 10);
    assert(t[2] == 11);
    assert(t[3] == 12);
    assert(t[4] == 13);
    assert(t[5] == 32);
    assert(t[6] == 0x85);
    assert(t[7] == 0xa0);
    assert(t[8] == 0x1680);
    assert(t[9] == 0x2000);
    assert(t[10] == 0x2001);
    assert(t[11] == 0x2002);
    assert(t[12] == 0x2003);
    assert(t[13] == 0x2004);
    assert(t[14] == 0x2005);
    assert(t[15] == 0x2006);
    assert(t[16] == 0x2007);
    assert(t[17] == 0x2008);
    assert(t[18] == 0x2009);
    assert(t[19] == 0x200a);
    assert(t[20] == 0x2028);
    assert(t[21] == 0x2029);
    assert(t[22] == 0x202f);
    assert(t[23] == 0x205f);
    assert(t[24] == 0x3000);
}

/// A hexadecimal digit is one of these 22 characters, and nothing else is.
pub proof fn law_a_hex_digit_is_listed(c: char)
    ensures
        is_hex_digit(c) <==> "0123456789abcdefABCDEF"@.contains(c),
{
    reveal_strlit("0123456789abcdefABCDEF");
    let t = "0123456789abcdefABCDEF"@;
    assert(t[0] == '0');
    assert(t[1] == '1');
    assert(t[2] == '2');
    assert(t[3] == '3');
    assert(t[4] == '4');
    assert(t[5] == '5');
    assert(t[6] == '6');
    assert(t[7] == '7');
    assert(t[8] == '8');
    assert(t[9] == '9');
    assert(t[10] == 'a');
    assert(t[11] == 'b');
    assert(t[12] == 'c');
    assert(t[13] == 'd');
    assert(t[14] == 'e');
    assert(t[15] == 'f');
    assert(t[16] == 'A');
    assert(t[17] == 'B');
    assert(t[18] == 'C');
    assert(t[19] == 'D');
    assert(t[20] == 'E');
    assert(t[21] == 'F');
}

/// A number with a sign is as wide as was asked for, sign and all, unless it has more
/// digits than that: a minus in front of it where it is below nothing, and behind that
/// digits alone, which spell its size.
pub proof fn law_a_sign_counts_towards_the_width(n: int, width: int)
    ensures
        n >= 0 ==> spelled(padded_signed(n, width)) == n,
        n >= 0 && decimal(n as nat).len() <= width ==> padded_signed(n, width).len() == width,
        n < 0 ==> padded_signed(n, width).len() > 0 && padded_signed(n, width)[0] == '-',
        n < 0 ==> spelled(padded_signed(n, width).skip(1)) == -n,
        n < 0 && decimal((-n) as nat).len() < width ==> padded_signed(n, width).len() == width,
        n < 0 && decimal((-n) as nat).len() >= width ==> padded_signed(n, width).len() == decimal(
            (-n) as nat,
        ).len() + 1,
{
    if n < 0 {
        law_padding_changes_no_number((-n) as nat, width - 1);
        assert(padded_signed(n, width).skip(1) =~= padded((-n) as nat, width - 1));
    } else {
        law_padding_changes_no_number(n as nat, width);
    }
}

/// A text stands in another only where there is room for it, and where it does, every
/// character of it does.
pub proof fn law_a_text_stands_there_whole(hay: Seq<char>, pat: Seq<char>, i: int, k: int)
    requires
        occurs_at(hay, pat, i),
    ensures
        0 <= i <= hay.len() - pat.len(),
        0 <= k < pat.len() ==> hay[i + k] == pat[k],
        contains_text(hay, pat),
{
    if 0 <= k < pat.len() {
        assert(hay.subrange(i, i + pat.len())[k] == hay[i + k]);
    }
}

}
