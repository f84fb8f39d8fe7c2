//! Characters, byte offsets, and the small string operations the shell needs.
//!
//! Text is modelled as a sequence of `char`s. Positions the user can see in an
//! error message are *byte* offsets into the UTF-8 encoding, and
//! [`byte_len`] is what relates the two: the byte offset of the character at
//! index `i` is `byte_len(s.take(i))`.

use vstd::prelude::*;

verus! {

/// `String::push` appends one character.
pub assume_specification[ String::push ](s: &mut String, ch: char)
    ensures
        final(s)@ == old(s)@.push(ch),
;

/// `String::push_str` appends a string slice.
pub assume_specification[ String::push_str ](s: &mut String, t: &str)
    ensures
        final(s)@ == old(s)@ + t@,
;

/// How many bytes the UTF-8 encoding of a character occupies.
pub open spec fn char_width(c: char) -> nat {
    if (c as u32) < 0x80 {
        1
    } else if (c as u32) < 0x800 {
        2
    } else if (c as u32) < 0x10000 {
        3
    } else {
        4
    }
}

/// The length in bytes of the UTF-8 encoding of a character sequence.
pub open spec fn byte_len(s: Seq<char>) -> nat
    decreases s.len(),
{
    if s.len() == 0 {
        0
    } else {
        byte_len(s.drop_last()) + char_width(s.last())
    }
}

/// Byte offset of the character at index `i`.
pub open spec fn byte_offset(s: Seq<char>, i: int) -> nat {
    byte_len(s.take(i))
}

/// Whether a text's encoding fits in the address space, as every string in
/// memory does.
pub open spec fn fits(s: Seq<char>) -> bool {
    byte_len(s) <= usize::MAX
}

/// Unicode `White_Space`, which is what `char::is_whitespace` tests.
pub open spec fn is_ws(c: char) -> bool {
    let u = c as u32;
    ||| u == 0x20
    ||| 0x09 <= u <= 0x0d
    ||| u == 0x85
    ||| u == 0xa0
    ||| u == 0x1680
    ||| 0x2000 <= u <= 0x200a
    ||| u == 0x2028
    ||| u == 0x2029
    ||| u == 0x202f
    ||| u == 0x205f
    ||| u == 0x3000
}

pub open spec fn is_digit(c: char) -> bool {
    '0' <= c <= '9'
}

pub open spec fn is_alpha(c: char) -> bool {
    ('a' <= c <= 'z') || ('A' <= c <= 'Z')
}

/// The value of an ASCII digit.
pub open spec fn digit_value(c: char) -> int {
    (c as u32) - ('0' as u32)
}

/// Whether every character is an ASCII digit.
pub open spec fn all_digits(s: Seq<char>) -> bool {
    forall|i: int| 0 <= i < s.len() ==> is_digit(#[trigger] s[i])
}

/// The number a string of ASCII digits spells, most significant first.
pub open spec fn digits_value(s: Seq<char>) -> int
    decreases s.len(),
{
    if s.len() == 0 {
        0
    } else {
        digits_value(s.drop_last()) * 10 + digit_value(s.last())
    }
}

/// What `str::parse::<i32>` accepts: an optional sign, then one or more ASCII
/// digits, with a value in range.
pub open spec fn parse_i32(s: Seq<char>) -> Option<i32> {
    let neg = s.len() > 0 && s[0] == '-';
    let body = if s.len() > 0 && (s[0] == '-' || s[0] == '+') {
        s.drop_first()
    } else {
        s
    };
    if body.len() == 0 || !all_digits(body) {
        None
    } else {
        let v = if neg {
            -digits_value(body)
        } else {
            digits_value(body)
        };
        if i32::MIN <= v <= i32::MAX {
            Some(v as i32)
        } else {
            None
        }
    }
}

/// What `str::parse::<usize>` accepts: an optional `+`, then one or more ASCII
/// digits, with a value in range.
pub open spec fn parse_usize(s: Seq<char>) -> Option<usize> {
    let body = if s.len() > 0 && s[0] == '+' {
        s.drop_first()
    } else {
        s
    };
    if body.len() == 0 || !all_digits(body) {
        None
    } else if digits_value(body) <= usize::MAX {
        Some(digits_value(body) as usize)
    } else {
        None
    }
}

pub proof fn lemma_byte_len_append(a: Seq<char>, b: Seq<char>)
    ensures
        byte_len(a + b) == byte_len(a) + byte_len(b),
    decreases b.len(),
{
    if b.len() == 0 {
        assert(a + b =~= a);
    } else {
        lemma_byte_len_append(a, b.drop_last());
        assert((a + b).drop_last() =~= a + b.drop_last());
        assert((a + b).last() == b.last());
    }
}

/// The byte offset of the next character is this one's plus its width.
pub proof fn lemma_offset_step(s: Seq<char>, i: int)
    requires
        0 <= i < s.len(),
    ensures
        byte_offset(s, i + 1) == byte_offset(s, i) + char_width(s[i]),
{
    assert(s.take(i + 1).drop_last() =~= s.take(i));
}

proof fn lemma_offset_grow(s: Seq<char>, i: int, j: int)
    requires
        0 <= i <= j <= s.len(),
    ensures
        byte_offset(s, i) <= byte_offset(s, j),
    decreases j - i,
{
    if i < j {
        lemma_offset_grow(s, i, j - 1);
        lemma_offset_step(s, j - 1);
    }
}

/// Byte offsets only grow along a sequence, and end at its length.
pub proof fn lemma_offset_mono(s: Seq<char>, i: int, j: int)
    requires
        0 <= i <= j <= s.len(),
    ensures
        byte_offset(s, i) <= byte_offset(s, j) <= byte_len(s),
{
    lemma_offset_grow(s, i, j);
    lemma_offset_grow(s, j, s.len() as int);
    assert(s.take(s.len() as int) =~= s);
}

/// Distinct character indices have distinct byte offsets.
pub proof fn lemma_offset_strict(s: Seq<char>, i: int, j: int)
    requires
        0 <= i < j <= s.len(),
    ensures
        byte_offset(s, i) < byte_offset(s, j),
{
    lemma_offset_step(s, i);
    lemma_offset_mono(s, i + 1, j);
}

pub proof fn lemma_digits_value_nonneg(s: Seq<char>)
    requires
        all_digits(s),
    ensures
        digits_value(s) >= 0,
    decreases s.len(),
{
    if s.len() > 0 {
        assert(all_digits(s.drop_last())) by {
            assert forall|i: int| 0 <= i < s.drop_last().len() implies is_digit(
                #[trigger] s.drop_last()[i],
            ) by {
                assert(s.drop_last()[i] == s[i]);
            }
        }
        lemma_digits_value_nonneg(s.drop_last());
    }
}

/// Bytes a character occupies in UTF-8.
pub fn char_len_utf8(c: char) -> (n: usize)
    ensures
        n == char_width(c),
{
    let u = c as u32;
    if u < 0x80 {
        1
    } else if u < 0x800 {
        2
    } else if u < 0x10000 {
        3
    } else {
        4
    }
}

/// Unicode whitespace, as `char::is_whitespace` defines it.
pub fn is_whitespace(c: char) -> (b: bool)
    ensures
        b == is_ws(c),
{
    let u = c as u32;
    u == 0x20 || (0x09 <= u && u <= 0x0d) || u == 0x85 || u == 0xa0 || u == 0x1680 || (0x2000
        <= u && u <= 0x200a) || u == 0x2028 || u == 0x2029 || u == 0x202f || u == 0x205f || u
        == 0x3000
}

/// The characters of a string slice, in order.
pub fn chars_of(s: &str) -> (v: Vec<char>)
    ensures
        v@ == s@,
{
    let mut v: Vec<char> = Vec::new();
    for c in it: s.chars()
        invariant
            v@ == it.seq().take(it.index() as int),
    {
        v.push(c);
    }
    v
}

/// A `String` holding exactly these characters.
pub fn string_of(v: &[char]) -> (s: String)
    ensures
        s@ == v@,
{
    let mut s = String::new();
    let mut i: usize = 0;
    while i < v.len()
        invariant
            i <= v.len(),
            s@ == v@.take(i as int),
        decreases v.len() - i,
    {
        s.push(v[i]);
        i = i + 1;
        assert(s@ =~= v@.take(i as int));
    }
    assert(v@.take(i as int) =~= v@);
    s
}

/// Byte offsets of every character boundary: `offs[i]` is the offset of the
/// character at index `i`, and the last entry is the total length.
pub fn boundary_offsets(v: &Vec<char>) -> (offs: Vec<usize>)
    requires
        fits(v@),
    ensures
        offs@.len() == v@.len() + 1,
        forall|i: int| 0 <= i <= v@.len() ==> offs@[i] == byte_offset(v@, i),
{
    let mut offs: Vec<usize> = Vec::new();
    let mut total: usize = 0;
    let mut i: usize = 0;
    proof {
        assert(v@.take(0) =~= Seq::<char>::empty());
    }
    while i < v.len()
        invariant
            i <= v@.len(),
            fits(v@),
            offs@.len() == i,
            total == byte_offset(v@, i as int),
            forall|k: int| 0 <= k < i ==> offs@[k] == byte_offset(v@, k),
        decreases v.len() - i,
    {
        offs.push(total);
        proof {
            lemma_offset_step(v@, i as int);
            lemma_offset_mono(v@, i as int + 1, v@.len() as int);
        }
        total = total + char_len_utf8(v[i]);
        i = i + 1;
    }
    offs.push(total);
    offs
}

/// Whether two character sequences are equal.
pub fn chars_eq(a: &[char], b: &[char]) -> (r: bool)
    ensures
        r == (a@ == b@),
{
    if a.len() != b.len() {
        return false;
    }
    let mut i: usize = 0;
    while i < a.len()
        invariant
            i <= a.len(),
            a.len() == b.len(),
            a@.take(i as int) == b@.take(i as int),
        decreases a.len() - i,
    {
        if a[i] != b[i] {
            assert(a@[i as int] != b@[i as int]);
            return false;
        }
        assert(a@.take(i + 1) =~= a@.take(i as int).push(a@[i as int]));
        assert(b@.take(i + 1) =~= b@.take(i as int).push(b@[i as int]));
        i = i + 1;
    }
    assert(a@ =~= a@.take(i as int));
    assert(b@ =~= b@.take(i as int));
    true
}

/// Whether `s` begins with `prefix`.
pub fn starts_with(s: &[char], prefix: &[char]) -> (r: bool)
    ensures
        r == (prefix@.len() <= s@.len() && s@.take(prefix@.len() as int) == prefix@),
{
    if prefix.len() > s.len() {
        return false;
    }
    let mut i: usize = 0;
    while i < prefix.len()
        invariant
            i <= prefix.len() <= s.len(),
            s@.take(i as int) == prefix@.take(i as int),
        decreases prefix.len() - i,
    {
        if s[i] != prefix[i] {
            assert(s@.take(prefix@.len() as int)[i as int] != prefix@[i as int]);
            return false;
        }
        assert(s@.take(i + 1) =~= s@.take(i as int).push(s@[i as int]));
        assert(prefix@.take(i + 1) =~= prefix@.take(i as int).push(prefix@[i as int]));
        i = i + 1;
    }
    assert(prefix@ =~= prefix@.take(i as int));
    true
}

/// Parse ASCII digits from `body`, failing if the value passes `limit`.
fn digits_up_to(body: &[char], limit: u64) -> (r: Option<u64>)
    ensures
        match r {
            Some(v) => body@.len() > 0 && all_digits(body@) && v == digits_value(body@) && v
                <= limit,
            None => body@.len() == 0 || !all_digits(body@) || digits_value(body@) > limit,
        },
{
    if body.len() == 0 {
        return None;
    }
    let mut value: u64 = 0;
    let mut i: usize = 0;
    while i < body.len()
        invariant
            i <= body.len(),
            value <= limit,
            all_digits(body@.take(i as int)),
            value == digits_value(body@.take(i as int)),
        decreases body.len() - i,
    {
        let c = body[i];
        if !('0' <= c && c <= '9') {
            assert(!is_digit(body@[i as int]));
            return None;
        }
        let d = (c as u32 - '0' as u32) as u64;
        assert(body@.take(i + 1).drop_last() =~= body@.take(i as int));
        assert(body@.take(i + 1).last() == c);
        assert(all_digits(body@.take(i + 1))) by {
            assert forall|k: int| 0 <= k < i + 1 implies is_digit(
                #[trigger] body@.take(i + 1)[k],
            ) by {
                if k < i {
                    assert(body@.take(i + 1)[k] == body@.take(i as int)[k]);
                }
            }
        }
        let next: u128 = value as u128 * 10 + d as u128;
        if next > limit as u128 {
            proof {
                lemma_digits_grow(body@, i as int + 1);
            }
            return None;
        }
        value = next as u64;
        i = i + 1;
    }
    assert(body@.take(i as int) =~= body@);
    Some(value)
}

/// A longer run of digits is never worth less.
proof fn lemma_digits_grow(s: Seq<char>, k: int)
    requires
        0 <= k <= s.len(),
        all_digits(s.take(k)),
    ensures
        all_digits(s) ==> digits_value(s) >= digits_value(s.take(k)),
    decreases s.len() - k,
{
    if all_digits(s) {
        if k < s.len() {
            assert(all_digits(s.take(k + 1))) by {
                assert forall|j: int| 0 <= j < k + 1 implies is_digit(#[trigger] s.take(k + 1)[j]) by {
                    assert(s.take(k + 1)[j] == s[j]);
                }
            }
            lemma_digits_grow(s, k + 1);
            assert(s.take(k + 1).drop_last() =~= s.take(k));
            lemma_digits_value_nonneg(s.take(k));
        } else {
            assert(s.take(k) =~= s);
        }
    }
}

/// `str::parse::<i32>` over characters.
pub fn parse_i32_chars(s: &[char]) -> (r: Option<i32>)
    ensures
        r == parse_i32(s@),
{
    let neg = s.len() > 0 && s[0] == '-';
    let signed = s.len() > 0 && (s[0] == '-' || s[0] == '+');
    let body: &[char] = if signed {
        slice_tail(s)
    } else {
        s
    };
    let limit: u64 = if neg {
        2147483648
    } else {
        2147483647
    };
    match digits_up_to(body, limit) {
        Some(v) => {
            if neg {
                if v == 2147483648 {
                    Some(i32::MIN)
                } else {
                    Some(-(v as i32))
                }
            } else {
                Some(v as i32)
            }
        },
        None => {
            proof {
                if body@.len() > 0 && all_digits(body@) {
                    lemma_digits_value_nonneg(body@);
                }
            }
            None
        },
    }
}

/// `str::parse::<usize>` over characters.
pub fn parse_usize_chars(s: &[char]) -> (r: Option<usize>)
    ensures
        r == parse_usize(s@),
{
    let body: &[char] = if s.len() > 0 && s[0] == '+' {
        slice_tail(s)
    } else {
        s
    };
    let limit: u64 = usize::MAX as u64;
    match digits_up_to(body, limit) {
        Some(v) => Some(v as usize),
        None => None,
    }
}

/// Everything after the first element.
pub fn slice_tail(s: &[char]) -> (t: &[char])
    requires
        s@.len() > 0,
    ensures
        t@ == s@.drop_first(),
{
    let (_, rest) = s.split_at(1);
    assert(rest@ =~= s@.drop_first());
    rest
}

/// The text of each string.
pub open spec fn strings_view(v: Seq<String>) -> Seq<Seq<char>> {
    v.map_values(|s: String| s@)
}

pub proof fn lemma_strings_view_push(v: Seq<String>, s: String)
    ensures
        strings_view(v.push(s)) == strings_view(v).push(s@),
{
    assert(strings_view(v.push(s)) =~= strings_view(v).push(s@));
}

/// The ASCII digit for a value below ten.
pub open spec fn digit_char(d: nat) -> char {
    if d == 0 {
        '0'
    } else if d == 1 {
        '1'
    } else if d == 2 {
        '2'
    } else if d == 3 {
        '3'
    } else if d == 4 {
        '4'
    } else if d == 5 {
        '5'
    } else if d == 6 {
        '6'
    } else if d == 7 {
        '7'
    } else if d == 8 {
        '8'
    } else {
        '9'
    }
}

/// The decimal digits of a natural number, most significant first, with no
/// leading zeros.
pub open spec fn dec_nat(n: nat) -> Seq<char>
    decreases n,
{
    if n < 10 {
        seq![digit_char(n)]
    } else {
        dec_nat(n / 10).push(digit_char(n % 10))
    }
}

/// An integer in decimal, as `Display` writes it: a `-` before negatives.
pub open spec fn dec_int(n: int) -> Seq<char> {
    if n < 0 {
        seq!['-'] + dec_nat((-n) as nat)
    } else {
        dec_nat(n as nat)
    }
}

fn digit(d: u64) -> (c: char)
    requires
        d < 10,
    ensures
        c == digit_char(d as nat),
{
    if d == 0 {
        '0'
    } else if d == 1 {
        '1'
    } else if d == 2 {
        '2'
    } else if d == 3 {
        '3'
    } else if d == 4 {
        '4'
    } else if d == 5 {
        '5'
    } else if d == 6 {
        '6'
    } else if d == 7 {
        '7'
    } else if d == 8 {
        '8'
    } else {
        '9'
    }
}

/// Append the decimal digits of `n`.
pub fn push_decimal(out: &mut String, n: u64)
    ensures
        final(out)@ == old(out)@ + dec_nat(n as nat),
    decreases n,
{
    if n >= 10 {
        push_decimal(out, n / 10);
    }
    out.push(digit(n % 10));
    assert(out@ =~= old(out)@ + dec_nat(n as nat));
}

/// An integer in decimal, as `to_string` writes it.
pub fn decimal(n: i64) -> (s: String)
    ensures
        s@ == dec_int(n as int),
{
    let mut s = String::new();
    if n < 0 {
        s.push('-');
        let m: u64 = if n == i64::MIN {
            9223372036854775808u64
        } else {
            (-n) as u64
        };
        push_decimal(&mut s, m);
    } else {
        push_decimal(&mut s, n as u64);
    }
    s
}

/// The bytes of what a splice leaves: the kept head, the replacement, and the
/// kept tail.
pub proof fn lemma_splice_len(s: Seq<char>, a: int, b: int, r: Seq<char>)
    requires
        0 <= a <= b <= s.len(),
    ensures
        byte_len(s.take(a) + r + s.skip(b)) == byte_offset(s, a) + byte_len(r) + byte_len(s)
            - byte_offset(s, b),
{
    lemma_byte_len_append(s.take(a) + r, s.skip(b));
    lemma_byte_len_append(s.take(a), r);
    lemma_byte_len_append(s.take(b), s.skip(b));
    assert(s.take(b) + s.skip(b) =~= s);
}

/// `s` with the characters from `from` to `to` replaced by `repl`.
pub fn splice(s: &Vec<char>, from: usize, to: usize, repl: &[char]) -> (r: Vec<char>)
    requires
        from <= to <= s@.len(),
    ensures
        r@ == s@.take(from as int) + repl@ + s@.skip(to as int),
{
    let mut r: Vec<char> = Vec::new();
    let mut i: usize = 0;
    while i < from
        invariant
            i <= from <= to <= s@.len(),
            r@ == s@.take(i as int),
        decreases from - i,
    {
        r.push(s[i]);
        i = i + 1;
        assert(r@ =~= s@.take(i as int));
    }
    let mut j: usize = 0;
    while j < repl.len()
        invariant
            j <= repl@.len(),
            r@ == s@.take(from as int) + repl@.take(j as int),
        decreases repl.len() - j,
    {
        r.push(repl[j]);
        j = j + 1;
        assert(r@ =~= s@.take(from as int) + repl@.take(j as int));
    }
    assert(repl@.take(j as int) =~= repl@);
    let mut k: usize = to;
    while k < s.len()
        invariant
            to <= k <= s@.len(),
            r@ == s@.take(from as int) + repl@ + s@.subrange(to as int, k as int),
        decreases s.len() - k,
    {
        r.push(s[k]);
        k = k + 1;
        assert(r@ =~= s@.take(from as int) + repl@ + s@.subrange(to as int, k as int));
    }
    assert(s@.subrange(to as int, k as int) =~= s@.skip(to as int));
    r
}

/// The byte offset of the character at index `pos`.
pub fn offset_of(s: &Vec<char>, pos: usize) -> (n: usize)
    requires
        fits(s@),
        pos <= s@.len(),
    ensures
        n == byte_offset(s@, pos as int),
{
    let mut n: usize = 0;
    let mut i: usize = 0;
    proof {
        assert(s@.take(0) =~= Seq::<char>::empty());
    }
    while i < pos
        invariant
            i <= pos <= s@.len(),
            fits(s@),
            n == byte_offset(s@, i as int),
        decreases pos - i,
    {
        proof {
            lemma_offset_step(s@, i as int);
            lemma_offset_mono(s@, i + 1, i + 1);
        }
        n = n + char_len_utf8(s[i]);
        i = i + 1;
    }
    n
}

/// The length in bytes of the UTF-8 encoding, if it fits in a `usize`.
pub fn utf8_len(s: &[char]) -> (r: Option<usize>)
    ensures
        r matches Some(n) ==> n == byte_len(s@),
        r is None ==> !fits(s@),
{
    let mut n: usize = 0;
    let mut i: usize = 0;
    proof {
        assert(s@.take(0) =~= Seq::<char>::empty());
    }
    while i < s.len()
        invariant
            i <= s@.len(),
            n == byte_offset(s@, i as int),
        decreases s.len() - i,
    {
        proof {
            lemma_offset_step(s@, i as int);
        }
        let w = char_len_utf8(s[i]);
        if n > usize::MAX - w {
            proof {
                lemma_offset_mono(s@, i + 1, s@.len() as int);
            }
            return None;
        }
        n = n + w;
        i = i + 1;
    }
    assert(s@.take(i as int) =~= s@);
    Some(n)
}

/// `s` padded with spaces to `width` characters, as `{:<width}` writes
/// it; longer text is left alone.
pub open spec fn pad_spec(s: Seq<char>, width: nat) -> Seq<char> {
    if s.len() < width {
        s + Seq::new((width - s.len()) as nat, |_i: int| ' ')
    } else {
        s
    }
}

/// Append `s`, padded with spaces to `width` characters.
pub fn push_padded(out: &mut String, s: &str, width: usize)
    ensures
        final(out)@ == old(out)@ + pad_spec(s@, width as nat),
{
    let n = chars_of(s).len();
    out.push_str(s);
    let ghost before = out@;
    let mut k: usize = n;
    assert(out@ =~= before + Seq::new((k - n) as nat, |_i: int| ' '));
    while k < width
        invariant
            n == s@.len(),
            n <= k,
            n < width ==> k <= width,
            n >= width ==> k == n,
            out@ == before + Seq::new((k - n) as nat, |_i: int| ' '),
        decreases width - k,
    {
        out.push(' ');
        k = k + 1;
        assert(out@ =~= before + Seq::new((k - n) as nat, |_i: int| ' '));
    }
    assert(out@ =~= old(out)@ + pad_spec(s@, width as nat));
}

/// Unicode whitespace trimmed from both ends, as `str::trim` does.
pub open spec fn trim_spec(s: Seq<char>) -> Seq<char> {
    s.subrange(trim_start_index(s, 0), trim_end_index(s, s.len() as int, trim_start_index(s, 0)))
}

/// The index of the first non-whitespace character from `i` on.
pub open spec fn trim_start_index(s: Seq<char>, i: int) -> int
    decreases s.len() - i,
{
    if 0 <= i < s.len() && is_ws(s[i]) {
        trim_start_index(s, i + 1)
    } else {
        i
    }
}

/// The end of `s.take(n)` once trailing whitespace is gone, but not before
/// `lo`.
pub open spec fn trim_end_index(s: Seq<char>, n: int, lo: int) -> int
    decreases n - lo,
{
    if n > lo && is_ws(s[n - 1]) {
        trim_end_index(s, n - 1, lo)
    } else {
        n
    }
}

pub proof fn lemma_trim_end_index(s: Seq<char>, n: int, lo: int)
    requires
        lo <= n,
    ensures
        lo <= trim_end_index(s, n, lo) <= n,
    decreases n - lo,
{
    if n > lo && is_ws(s[n - 1]) {
        lemma_trim_end_index(s, n - 1, lo);
    }
}

/// Trailing Unicode whitespace trimmed, as `str::trim_end` does.
pub open spec fn trim_end_spec(s: Seq<char>) -> Seq<char> {
    s.take(trim_end_index(s, s.len() as int, 0))
}

/// `s` with whitespace trimmed from both ends.
pub fn trim_chars(s: &Vec<char>) -> (r: Vec<char>)
    ensures
        r@ == trim_spec(s@),
{
    let mut i: usize = 0;
    while i < s.len() && is_whitespace(s[i])
        invariant
            i <= s@.len(),
            trim_start_index(s@, 0) == trim_start_index(s@, i as int),
        decreases s.len() - i,
    {
        i = i + 1;
    }
    let mut n: usize = s.len();
    while n > i && is_whitespace(s[n - 1])
        invariant
            i <= n <= s@.len(),
            i == trim_start_index(s@, 0),
            trim_end_index(s@, s@.len() as int, i as int) == trim_end_index(s@, n as int, i as int),
        decreases n,
    {
        n = n - 1;
    }
    let r = splice(s, n, s.len(), &[]);
    let r2 = splice(&r, 0, i, &[]);
    assert(r2@ =~= s@.subrange(i as int, n as int));
    r2
}

/// `s` with trailing whitespace trimmed.
pub fn trim_end_chars(s: &Vec<char>) -> (r: Vec<char>)
    ensures
        r@ == trim_end_spec(s@),
{
    let mut n: usize = s.len();
    while n > 0 && is_whitespace(s[n - 1])
        invariant
            n <= s@.len(),
            trim_end_index(s@, s@.len() as int, 0) == trim_end_index(s@, n as int, 0),
        decreases n,
    {
        n = n - 1;
    }
    let r = splice(s, n, s.len(), &[]);
    assert(r@ =~= s@.take(n as int));
    r
}

} // verus!
