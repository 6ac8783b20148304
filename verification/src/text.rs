//! Character-level helpers shared by the string-producing functions, with
//! the specifications the rest of the crate states its contracts over.

use vstd::prelude::*;

verus! {

/// The Unicode `White_Space` property, which `char::is_whitespace` reports.
pub open spec fn is_white_space(c: char) -> bool {
    let u = c as u32;
    ||| 0x09 <= u <= 0x0d
    ||| u == 0x20
    ||| u == 0x85
    ||| u == 0xa0
    ||| u == 0x1680
    ||| 0x2000 <= u <= 0x200a
    ||| u == 0x2028
    ||| u == 0x2029
    ||| u == 0x202f
    ||| u == 0x205f
    ||| u == 0x3000
}

/// The Unicode general category `Cc`, which `char::is_control` reports.
pub open spec fn is_control(c: char) -> bool {
    let u = c as u32;
    u <= 0x1f || (0x7f <= u <= 0x9f)
}

/// `char::is_whitespace`. Its documentation defines the result as the
/// Unicode `White_Space` property; the contract lists that property's
/// code points.
#[verifier::external_body]
pub(crate) fn char_is_whitespace(c: char) -> (b: bool)
    ensures
        b == is_white_space(c),
{
    c.is_whitespace()
}

/// `char::is_control`. Its documentation defines the result as the
/// general category `Cc`; the contract lists that category's code points.
#[verifier::external_body]
pub(crate) fn char_is_control(c: char) -> (b: bool)
    ensures
        b == is_control(c),
{
    c.is_control()
}

/// The characters of `s` in order, which is what vstd's view of a `str`
/// is.
pub fn chars_of(s: &str) -> (v: Vec<char>)
    ensures
        v@ == s@,
{
    broadcast use vstd::string::axiom_spec_iter;
    let mut v: Vec<char> = Vec::new();
    for c in it: s.chars()
        invariant
            v@ == it.seq().take(it.index() as int),
    {
        v.push(c);
        assert(v@ =~= it.seq().take(it.index() as int + 1));
    }
    v
}

/// `String: FromIterator<char>`: the string made of exactly these
/// characters, in order.
#[verifier::external_body]
pub(crate) fn string_of(v: &Vec<char>) -> (s: String)
    ensures
        s@ == v@,
{
    v.iter().collect()
}

/// The ASCII digit for `d` (taken modulo nothing: callers pass `d < 10`).
pub open spec fn digit_char(d: nat) -> char {
    ((48 + d) as u32) as char
}

/// The decimal rendering of `n`, most significant digit first, no padding.
pub open spec fn decimal(n: nat) -> Seq<char>
    decreases n,
{
    if n < 10 {
        seq![digit_char(n)]
    } else {
        decimal(n / 10).push(digit_char(n % 10))
    }
}

/// Ten to the power `k`.
pub open spec fn pow10(k: nat) -> nat
    decreases k,
{
    if k == 0 { 1 } else { 10 * pow10((k - 1) as nat) }
}

/// A number below `10^k` (for `k >= 1`) has at most `k` digits, and every
/// rendering has at least one.
pub proof fn lemma_decimal_len(n: nat, k: nat)
    requires
        k >= 1,
        n < pow10(k),
    ensures
        1 <= decimal(n).len() <= k,
    decreases n,
{
    if n >= 10 {
        assert(k >= 2) by {
            if k == 1 {
                assert(pow10(1) == 10) by {
                    reveal_with_fuel(pow10, 2);
                }
            }
        }
        assert(n / 10 < pow10((k - 1) as nat)) by (nonlinear_arith)
            requires
                n < pow10(k),
                pow10(k) == 10 * pow10((k - 1) as nat),
        ;
        lemma_decimal_len(n / 10, (k - 1) as nat);
    }
}

/// A 64-bit number has at most 20 digits.
pub proof fn lemma_decimal_len_u64(n: nat)
    requires
        n <= 0xffff_ffff_ffff_ffff,
    ensures
        1 <= decimal(n).len() <= 20,
{
    assert(pow10(20) == 100000000000000000000) by {
        reveal_with_fuel(pow10, 21);
    }
    lemma_decimal_len(n, 20);
}

/// Append the decimal rendering of `n` to `out`.
pub fn push_decimal(out: &mut Vec<char>, n: u64)
    ensures
        final(out)@ == old(out)@ + decimal(n as nat),
    decreases n,
{
    if n >= 10 {
        push_decimal(out, n / 10);
    }
    let d: u8 = (n % 10) as u8;
    let c: char = (48u8 + d) as char;
    proof {
        assert(c == digit_char((n % 10) as nat));
    }
    out.push(c);
    proof {
        if n >= 10 {
            assert(decimal(n as nat) == decimal((n / 10) as nat).push(digit_char((n % 10) as nat)));
        }
    }
}

/// Append every character of `s` to `out`.
pub fn push_seq(out: &mut Vec<char>, s: &Vec<char>)
    ensures
        final(out)@ == old(out)@ + s@,
{
    let mut i: usize = 0;
    while i < s.len()
        invariant
            i <= s.len(),
            out@ == old(out)@ + s@.take(i as int),
        decreases s.len() - i,
    {
        out.push(s[i]);
        i = i + 1;
        proof {
            assert(s@.take(i as int) == s@.take((i - 1) as int).push(s@[i - 1]));
        }
    }
    proof {
        assert(s@.take(i as int) == s@);
    }
}

/// Append the characters of the string `s` to `out`.
pub fn push_str(out: &mut Vec<char>, s: &str)
    ensures
        final(out)@ == old(out)@ + s@,
{
    let v = chars_of(s);
    push_seq(out, &v);
}

/// `char::encode_utf8`: the UTF-8 bytes of `c`, as vstd defines the
/// encoding of a Unicode scalar value.
#[verifier::external_body]
pub(crate) fn char_utf8(c: char) -> (v: Vec<u8>)
    ensures
        v@ == vstd::utf8::encode_scalar(c as u32),
{
    let mut buf = [0u8; 4];
    c.encode_utf8(&mut buf).as_bytes().to_vec()
}

/// The number a string of decimal digits spells, most significant first.
pub open spec fn digits_number(s: Seq<char>) -> nat
    decreases s.len(),
{
    if s.len() == 0 {
        0
    } else {
        digits_number(s.drop_last()) * 10 + ((s.last() as u32) - 48) as nat
    }
}

/// The decimal rendering is the number written out: only the digits `0` to
/// `9`, reading back as the number itself, and without a leading zero
/// (but for zero itself).
pub proof fn decimal_spells_the_number(n: nat)
    ensures
        forall|i: int| 0 <= i < decimal(n).len() ==> '0' <= #[trigger] decimal(n)[i] <= '9',
        digits_number(decimal(n)) == n,
        decimal(n).len() >= 1,
        n > 0 ==> decimal(n)[0] != '0',
    decreases n,
{
    let last = n % 10;
    assert((digit_char(last) as u32) == 48 + last);
    if n < 10 {
        let d = decimal(n);
        assert(d.drop_last() =~= Seq::<char>::empty());
        assert(d.last() == digit_char(n));
        assert(digits_number(d) == digits_number(d.drop_last()) * 10 + ((d.last() as u32) - 48) as nat);
        assert(digits_number(Seq::<char>::empty()) == 0);
    }
    if n >= 10 {
        decimal_spells_the_number(n / 10);
        let d = decimal(n);
        assert(d.last() == digit_char(last));
        assert(n == (n / 10) * 10 + last) by (nonlinear_arith)
            requires
                last == n % 10,
        ;
        assert(digits_number(d) == digits_number(d.drop_last()) * 10 + ((d.last() as u32) - 48) as nat);
        assert(d.drop_last() =~= decimal(n / 10));
        assert(d.drop_last() =~= decimal(n / 10));
        assert(d[0] == decimal(n / 10)[0]);
        assert forall|i: int| 0 <= i < d.len() implies '0' <= #[trigger] d[i] <= '9' by {
            if i < d.len() - 1 {
                assert(d[i] == decimal(n / 10)[i]);
            }
        }
    }
}

/// The ASCII digit byte for `d` (callers pass `d < 10`).
pub open spec fn digit_byte(d: nat) -> u8 {
    (48 + d) as u8
}

/// The decimal rendering of `n` as ASCII bytes, most significant first.
pub open spec fn decimal_bytes(n: nat) -> Seq<u8>
    decreases n,
{
    if n < 10 {
        seq![digit_byte(n)]
    } else {
        decimal_bytes(n / 10).push(digit_byte(n % 10))
    }
}

/// Append the decimal rendering of `n` to `out`, as ASCII bytes.
pub fn push_decimal_bytes(out: &mut Vec<u8>, n: u64)
    ensures
        final(out)@ == old(out)@ + decimal_bytes(n as nat),
    decreases n,
{
    if n >= 10 {
        push_decimal_bytes(out, n / 10);
    }
    let d: u8 = (n % 10) as u8;
    out.push(48u8 + d);
    proof {
        if n >= 10 {
            assert(decimal_bytes(n as nat) == decimal_bytes((n / 10) as nat).push(
                digit_byte((n % 10) as nat),
            ));
        }
    }
}

/// An ASCII capital letter.
pub open spec fn is_ascii_upper(c: char) -> bool {
    0x41 <= (c as u32) <= 0x5a
}

/// An ASCII small letter.
pub open spec fn is_ascii_lower(c: char) -> bool {
    0x61 <= (c as u32) <= 0x7a
}

/// An ASCII decimal digit.
pub open spec fn is_ascii_digit(c: char) -> bool {
    0x30 <= (c as u32) <= 0x39
}

/// `c` with an ASCII capital turned small; everything else unchanged.
pub open spec fn ascii_lower(c: char) -> char {
    if is_ascii_upper(c) {
        ((c as u32) + 32) as char
    } else {
        c
    }
}

/// `c` with an ASCII small letter turned capital; everything else unchanged.
pub open spec fn ascii_upper(c: char) -> char {
    if is_ascii_lower(c) {
        ((c as u32) - 32) as char
    } else {
        c
    }
}

/// Whether `c` is an ASCII capital letter.
pub fn char_is_ascii_upper(c: char) -> (b: bool)
    ensures
        b == is_ascii_upper(c),
{
    let u = c as u32;
    0x41 <= u && u <= 0x5a
}

/// Whether `c` is an ASCII small letter.
pub fn char_is_ascii_lower(c: char) -> (b: bool)
    ensures
        b == is_ascii_lower(c),
{
    let u = c as u32;
    0x61 <= u && u <= 0x7a
}

/// Whether `c` is an ASCII decimal digit.
pub fn char_is_ascii_digit(c: char) -> (b: bool)
    ensures
        b == is_ascii_digit(c),
{
    let u = c as u32;
    0x30 <= u && u <= 0x39
}

/// `c` with an ASCII capital turned small.
pub fn to_ascii_lower(c: char) -> (r: char)
    ensures
        r == ascii_lower(c),
{
    if char_is_ascii_upper(c) {
        let b: u8 = (c as u32) as u8;
        ((b + 32) as char)
    } else {
        c
    }
}

/// `c` with an ASCII small letter turned capital.
pub fn to_ascii_upper(c: char) -> (r: char)
    ensures
        r == ascii_upper(c),
{
    if char_is_ascii_lower(c) {
        let b: u8 = (c as u32) as u8;
        ((b - 32) as char)
    } else {
        c
    }
}

/// `s` without its leading whitespace.
pub open spec fn trim_front(s: Seq<char>) -> Seq<char>
    decreases s.len(),
{
    if s.len() > 0 && is_white_space(s[0]) {
        trim_front(s.drop_first())
    } else {
        s
    }
}

/// `s` without its trailing whitespace.
pub open spec fn trim_back(s: Seq<char>) -> Seq<char>
    decreases s.len(),
{
    if s.len() > 0 && is_white_space(s.last()) {
        trim_back(s.drop_last())
    } else {
        s
    }
}

/// `s` without leading or trailing whitespace (`str::trim`).
pub open spec fn trim(s: Seq<char>) -> Seq<char> {
    trim_back(trim_front(s))
}

proof fn lemma_trim_front_skip(s: Seq<char>, i: int)
    requires
        0 <= i <= s.len(),
        forall|k: int| 0 <= k < i ==> is_white_space(#[trigger] s[k]),
    ensures
        trim_front(s) == trim_front(s.subrange(i, s.len() as int)),
    decreases i,
{
    if i > 0 {
        let t = s.drop_first();
        assert forall|k: int| 0 <= k < i - 1 implies is_white_space(#[trigger] t[k]) by {
            assert(t[k] == s[k + 1]);
        }
        lemma_trim_front_skip(t, i - 1);
        assert(t.subrange(i - 1, t.len() as int) == s.subrange(i, s.len() as int));
    } else {
        assert(s.subrange(0, s.len() as int) == s);
    }
}

proof fn lemma_trim_back_skip(s: Seq<char>, j: int)
    requires
        0 <= j <= s.len(),
        forall|k: int| j <= k < s.len() ==> is_white_space(#[trigger] s[k]),
    ensures
        trim_back(s) == trim_back(s.subrange(0, j)),
    decreases s.len() - j,
{
    if j < s.len() {
        let t = s.drop_last();
        assert forall|k: int| j <= k < t.len() implies is_white_space(#[trigger] t[k]) by {
            assert(t[k] == s[k]);
        }
        lemma_trim_back_skip(t, j);
        assert(t.subrange(0, j) == s.subrange(0, j));
    } else {
        assert(s.subrange(0, j) == s);
    }
}

/// `str::trim` on a character vector.
pub fn trim_chars(v: &Vec<char>) -> (r: Vec<char>)
    ensures
        r@ == trim(v@),
{
    let n = v.len();
    let mut i: usize = 0;
    while i < n && char_is_whitespace(v[i])
        invariant
            n == v@.len(),
            i <= n,
            forall|k: int| 0 <= k < i ==> is_white_space(#[trigger] v@[k]),
        decreases n - i,
    {
        i = i + 1;
    }
    let mut j: usize = n;
    while j > i && char_is_whitespace(v[j - 1])
        invariant
            n == v@.len(),
            i <= j <= n,
            forall|k: int| j <= k < n ==> is_white_space(#[trigger] v@[k]),
        decreases j,
    {
        j = j - 1;
    }
    let mut r: Vec<char> = Vec::new();
    let mut k: usize = i;
    while k < j
        invariant
            n == v@.len(),
            i <= k <= j <= n,
            r@ == v@.subrange(i as int, k as int),
        decreases j - k,
    {
        r.push(v[k]);
        k = k + 1;
        proof {
            assert(v@.subrange(i as int, k as int) == v@.subrange(i as int, k - 1).push(v@[k - 1]));
        }
    }
    proof {
        lemma_trim_front_skip(v@, i as int);
        let f = v@.subrange(i as int, n as int);
        if i < n {
            assert(!is_white_space(f[0]));
        }
        assert(trim_front(f) == f);
        assert forall|q: int| j - i <= q < f.len() implies is_white_space(#[trigger] f[q]) by {
            assert(f[q] == v@[i + q]);
        }
        lemma_trim_back_skip(f, j - i);
        let g = f.subrange(0, j - i);
        assert(g == v@.subrange(i as int, j as int));
        if j > i {
            assert(g.last() == v@[j - 1]);
        }
        assert(trim_back(g) == g);
    }
    r
}

/// The last position at which `pat` starts in `s`, searching the
/// positions below `k`.
pub open spec fn rfind_below(s: Seq<char>, pat: Seq<char>, k: int) -> Option<int>
    decreases k,
{
    if k <= 0 {
        None
    } else if k - 1 + pat.len() <= s.len() && s.subrange(k - 1, k - 1 + pat.len()) == pat {
        Some(k - 1)
    } else {
        rfind_below(s, pat, k - 1)
    }
}

/// The last position at which `pat` starts in `s` (`str::rsplit_once`
/// splits there).
pub open spec fn rfind(s: Seq<char>, pat: Seq<char>) -> Option<int> {
    rfind_below(s, pat, s.len() as int + 1)
}

proof fn lemma_rfind_below_range(s: Seq<char>, pat: Seq<char>, k: int)
    ensures
        rfind_below(s, pat, k) matches Some(i) ==> 0 <= i < k && i + pat.len() <= s.len(),
    decreases k,
{
    if k > 0 {
        lemma_rfind_below_range(s, pat, k - 1);
    }
}

/// The last position at which `pat` starts in `v`.
pub fn rfind_chars(v: &Vec<char>, pat: &Vec<char>) -> (r: Option<usize>)
    ensures
        match r {
            Some(i) => rfind(v@, pat@) == Some(i as int),
            None => rfind(v@, pat@) is None,
        },
        r matches Some(i) ==> i + pat@.len() <= v@.len(),
{
    let n = v.len();
    let m = pat.len();
    let mut i: usize = n;
    loop
        invariant
            n == v@.len(),
            m == pat@.len(),
            i <= n,
            rfind(v@, pat@) == rfind_below(v@, pat@, i as int + 1),
        decreases i,
    {
        if m <= n - i {
            let mut j: usize = 0;
            let mut same = true;
            while j < m
                invariant
                    n == v@.len(),
                    m == pat@.len(),
                    i + m <= n,
                    j <= m,
                    same == (forall|q: int| 0 <= q < j ==> v@[i + q] == pat@[q]),
                decreases m - j,
            {
                if v[i + j] != pat[j] {
                    same = false;
                }
                j = j + 1;
            }
            if same {
                proof {
                    assert(v@.subrange(i as int, i + m) =~= pat@);
                }
                return Some(i);
            }
            proof {
                assert(v@.subrange(i as int, i + m) != pat@) by {
                    if v@.subrange(i as int, i + m) == pat@ {
                        assert forall|q: int| 0 <= q < m implies v@[i + q] == pat@[q] by {
                            assert(v@.subrange(i as int, i + m)[q] == v@[i + q]);
                        }
                    }
                }
            }
        }
        assert(rfind_below(v@, pat@, i as int + 1) == rfind_below(v@, pat@, i as int));
        if i == 0 {
            assert(rfind_below(v@, pat@, 0) is None);
            return None;
        }
        i = i - 1;
    }
}

/// The characters of `s` that are not control characters, in order.
pub open spec fn drop_controls(s: Seq<char>) -> Seq<char>
    decreases s.len(),
{
    if s.len() == 0 {
        Seq::empty()
    } else if is_control(s.last()) {
        drop_controls(s.drop_last())
    } else {
        drop_controls(s.drop_last()).push(s.last())
    }
}

/// Remove every control character.
pub fn drop_control_chars(v: &Vec<char>) -> (r: Vec<char>)
    ensures
        r@ == drop_controls(v@),
{
    let mut r: Vec<char> = Vec::new();
    let mut i: usize = 0;
    while i < v.len()
        invariant
            i <= v@.len(),
            r@ == drop_controls(v@.take(i as int)),
        decreases v.len() - i,
    {
        proof {
            assert(v@.take(i + 1).drop_last() == v@.take(i as int));
        }
        if !char_is_control(v[i]) {
            r.push(v[i]);
        }
        i = i + 1;
    }
    proof {
        assert(v@.take(i as int) == v@);
    }
    r
}

/// The characters `v[from..to]`.
pub fn sub_chars(v: &Vec<char>, from: usize, to: usize) -> (r: Vec<char>)
    requires
        from <= to <= v@.len(),
    ensures
        r@ == v@.subrange(from as int, to as int),
{
    let mut r: Vec<char> = Vec::new();
    let mut k: usize = from;
    while k < to
        invariant
            from <= k <= to <= v@.len(),
            r@ == v@.subrange(from as int, k as int),
        decreases to - k,
    {
        r.push(v[k]);
        k = k + 1;
        proof {
            assert(v@.subrange(from as int, k as int) == v@.subrange(from as int, k - 1).push(v@[k - 1]));
        }
    }
    r
}

/// The decimal bytes are the ASCII codes of the decimal characters.
pub proof fn decimal_bytes_are_the_ascii_digits(n: nat)
    ensures
        decimal_bytes(n).len() == decimal(n).len(),
        forall|i: int| 0 <= i < decimal(n).len() ==> #[trigger] decimal_bytes(n)[i] as u32 == decimal(n)[i] as u32,
    decreases n,
{
    if n >= 10 {
        decimal_bytes_are_the_ascii_digits(n / 10);
        let b = decimal_bytes(n);
        let d = decimal(n);
        assert forall|i: int| 0 <= i < d.len() implies #[trigger] b[i] as u32 == d[i] as u32 by {
            if i < d.len() - 1 {
                assert(b[i] == decimal_bytes(n / 10)[i]);
                assert(d[i] == decimal(n / 10)[i]);
            } else {
                assert((digit_char(n % 10) as u32) == 48 + n % 10);
            }
        }
    } else {
        assert((digit_char(n) as u32) == 48 + n);
    }
}

} // verus!
